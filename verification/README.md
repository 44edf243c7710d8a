# asciicast

Recording and replaying terminal sessions in the asciicast format, as a verified
library with a thin layer of commands around it.

- `src/` is the library. Every function has a contract that Verus proves. What holds of
  several functions together is stated by the proof functions named `law_*`; those of
  the larger modules stand in `tracker_laws.rs`, `encoder_laws.rs`, `cast_laws.rs` and
  `record_laws.rs`.
- `tests/` runs the library on concrete values.
- `app/` holds what the library leaves out: command lines, terminals, files, threads, JSON
  and the Windows console.

A recording on Windows reads the records of the console and encodes them for the recorded
program. How it does so depends on the input modes that the program has set with control
sequences in its output, so the output is watched for these.

What is taken on trust stands next to its use, with a comment that says what is claimed:

| Where | What |
| --- | --- |
| `decoded.rs` | the encoding of a key, by `termwiz::input::KeyCode::encode` |
| `explain.rs` | what `termwiz::escape::parser::Parser` recognises in output |
| `cast.rs` | the quoting of a command line, by `shell_words::join` |
| `cast.rs` | `String::from_utf8` |

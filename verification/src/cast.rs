//! The lines of a recording: its header and its events.

use crate::size::PtySize;
use crate::utf8::{law_valid_len_is_longest, malformed_len, utf8_prefix, valid_len};
use vstd::prelude::*;
use vstd::string::*;
use vstd::utf8::{encode_utf8, valid_utf8};

verus! {

/// The color theme of the recorded terminal.
#[derive(Debug, Default, Clone)]
pub struct Theme {
    /// Normal text color
    pub fg: String,
    /// Normal background color
    pub bg: String,
    /// List of 8 or 16 colors separated by a colon character
    pub palette: String,
}

/// The first line of a recording.
#[derive(Debug, Default, Clone)]
pub struct Header {
    /// Must be 2 or higher
    pub version: u32,
    /// Initial terminal width (number of columns)
    pub width: u32,
    /// Initial terminal height (number of rows)
    pub height: u32,
    /// Unix timestamp of starting time of session
    pub timestamp: Option<i64>,
    /// Duration of the whole recording in seconds, as the bits of a
    /// single-precision number
    pub duration: Option<u32>,
    /// Used to reduce terminal inactivity (delays between frames) to a maximum of
    /// this amount, as the bits of a single-precision number
    pub idle_time_limit: Option<u32>,
    /// Command that was recorded
    pub command: Option<String>,
    /// Title of the asciicast
    pub title: Option<String>,
    /// Captured environment variables
    pub env: Vec<(String, String)>,
    /// Color theme of the recorded terminal
    pub theme: Option<Theme>,
}

/// What the header of a recording takes over from the configuration.
#[derive(Debug, Clone)]
pub struct HeaderConfig {
    /// The terminal type that programs see.
    pub term: String,
    pub wezterm_version: String,
    pub wezterm_target_triple: String,
    pub foreground: String,
    pub background: String,
    /// The colors of the palette, of which the first 16 are recorded.
    pub colors: Vec<String>,
}

/// An event of a recording: when it happened, its kind, and its data.
#[derive(Debug, Default, Clone)]
pub struct Event(
    /// The time since the start in seconds, as the bits of a single-precision number
    pub u32,
    pub String,
    pub String,
);

/// The kind of the events that hold output.
pub open spec fn output_kind() -> Seq<char> {
    seq!['o']
}

impl Event {
    /// The output that the event holds, if it is of that kind.
    pub open spec fn output_text(self) -> Option<Seq<char>> {
        if self.1@ == output_kind() {
            Some(self.2@)
        } else {
            None
        }
    }

    /// The event that records output.
    pub fn log_output(elapsed: u32, output: String) -> (event: Event)
        ensures
            event.0 == elapsed,
            event.1@ == output_kind(),
            event.2@ == output@,
            event.output_text() == Some(output@),
    {
        proof {
            reveal_strlit("o");
        }
        assert("o"@ =~= output_kind());
        Event(elapsed, "o".to_owned(), output)
    }

    /// The output that the event holds, if it is of that kind.
    pub fn output(&self) -> (output: Option<&str>)
        ensures
            match output {
                Some(text) => self.output_text() == Some(text@),
                None => self.output_text() is None,
            },
    {
        let kind = self.1.as_str();
        if kind.unicode_len() == 1 && kind.get_char(0) == 'o' {
            assert(self.1@ =~= output_kind());
            Some(self.2.as_str())
        } else {
            None
        }
    }
}

/// What of the bytes `b` is logged: the longest prefix that is well-formed.
pub open spec fn logged(b: Seq<u8>) -> Seq<u8> {
    b.take(valid_len(b))
}

/// What of the bytes `b` is carried forward: what stands behind the logged part,
/// without the malformed sequence at its head where there is one.
pub open spec fn carried(b: Seq<u8>) -> Seq<u8> {
    let rest = b.skip(valid_len(b));
    match malformed_len(rest) {
        Some(n) => rest.skip(n),
        None => rest,
    }
}

/// Calls `String::from_utf8`. The contract says that it succeeds exactly on
/// well-formed UTF-8, and that the string then is the one with these bytes.
#[verifier::external_body]
pub(crate) fn string_from_utf8(bytes: Vec<u8>) -> (r: Option<String>)
    ensures
        match r {
            Some(text) => valid_utf8(bytes@) && encode_utf8(text@) == bytes@,
            None => !valid_utf8(bytes@),
        },
{
    String::from_utf8(bytes).ok()
}

/// The event that logs the output `data`, which is then empty. The end of the data may
/// be an incomplete UTF-8 sequence that straddles the buffer boundary. JSON requires
/// strings to be UTF-8, so only the well-formed part is logged, and the remainder is
/// carried forward in `buffer`.
pub fn log_utf8_output(buffer: &mut Vec<u8>, elapsed: u32, data: &mut Vec<u8>) -> (event: Event)
    ensures
        ({
            let b = old(buffer)@ + old(data)@;
            &&& event.0 == elapsed
            &&& event.1@ == output_kind()
            &&& encode_utf8(event.2@) == logged(b)
            &&& final(buffer)@ == carried(b)
            &&& final(data)@ == Seq::<u8>::empty()
        }),
{
    let ghost b = buffer@ + data@;
    buffer.append(data);
    assert(buffer@ =~= b);
    let (valid, malformed) = utf8_prefix(buffer.as_slice());
    let rest = buffer.split_off(valid);
    proof {
        law_valid_len_is_longest(b, 0);
        assert(buffer@ =~= logged(b));
        assert(rest@ =~= b.skip(valid as int));
    }
    let mut text_bytes = rest;
    core::mem::swap(buffer, &mut text_bytes);
    if let Some(n) = malformed {
        let behind = buffer.split_off(n);
        assert(behind@ =~= carried(b));
        *buffer = behind;
    }
    let text = match string_from_utf8(text_bytes) {
        Some(text) => text,
        None => String::new(),
    };
    Event::log_output(elapsed, text)
}

/// The views of strings.
pub open spec fn texts(v: Seq<String>) -> Seq<Seq<char>> {
    v.map_values(|text: String| text@)
}

/// The texts with colons between them.
pub open spec fn joined_by_colons(texts: Seq<Seq<char>>) -> Seq<char>
    decreases texts.len(),
{
    if texts.len() == 0 {
        Seq::empty()
    } else if texts.len() == 1 {
        texts[0]
    } else {
        joined_by_colons(texts.drop_last()).push(':') + texts.last()
    }
}

/// The variables that a recording captures: the terminal type, what it was recorded
/// with, and the shell and the language where they are set.
pub open spec fn captured_env(
    config: HeaderConfig,
    shell: Option<Seq<char>>,
    lang: Option<Seq<char>>,
) -> Seq<(Seq<char>, Seq<char>)> {
    let always = seq![
        ("TERM"@, config.term@),
        ("WEZTERM_VERSION"@, config.wezterm_version@),
        ("WEZTERM_TARGET_TRIPLE"@, config.wezterm_target_triple@),
    ];
    let with_shell = match shell {
        Some(value) => always.push(("SHELL"@, value)),
        None => always,
    };
    match lang {
        Some(value) => with_shell.push(("LANG"@, value)),
        None => with_shell,
    }
}

/// The views of variables.
pub open spec fn env_view(v: Seq<(String, String)>) -> Seq<(Seq<char>, Seq<char>)> {
    v.map_values(|var: (String, String)| (var.0@, var.1@))
}

/// The view of an optional text.
pub open spec fn text_view(text: Option<String>) -> Option<Seq<char>> {
    match text {
        Some(text) => Some(text@),
        None => None,
    }
}

/// What `shell_words::join` makes of words.
pub uninterp spec fn shell_command(words: Seq<Seq<char>>) -> Seq<char>;

/// Calls `shell_words::join`, which quotes each word where a shell needs it and puts
/// spaces between them. How it quotes is left open by its documentation; the contract
/// says that the result depends on the words alone.
#[verifier::external_body]
fn join_words(words: &Vec<String>) -> (command: String)
    ensures
        command@ == shell_command(texts(words@)),
{
    shell_words::join(words)
}

/// The command that is recorded, where one was given.
pub open spec fn recorded_command(words: Seq<Seq<char>>) -> Option<Seq<char>> {
    if words.len() == 0 {
        None
    } else {
        Some(shell_command(words))
    }
}

/// Whether `header` is the one that a recording of a terminal of the given size
/// starts with.
pub open spec fn is_initial_header(
    header: Header,
    config: HeaderConfig,
    shell: Option<Seq<char>>,
    lang: Option<Seq<char>>,
    size: PtySize,
    command: Option<Seq<char>>,
    timestamp: i64,
) -> bool {
    &&& header.version == 2
    &&& header.width == size.cols
    &&& header.height == size.rows
    &&& header.timestamp == Some(timestamp)
    &&& header.duration is None
    &&& header.idle_time_limit is None
    &&& text_view(header.command) == command
    &&& header.title is None
    &&& env_view(header.env@) == captured_env(config, shell, lang)
    &&& header.theme matches Some(theme) && theme.fg@ == config.foreground@ && theme.bg@
        == config.background@ && theme.palette@ == joined_by_colons(texts(config.colors@).take(16))
}

/// Appends a captured variable.
fn capture(env: &mut Vec<(String, String)>, name: &str, value: &String)
    ensures
        env_view(final(env)@) == env_view(old(env)@).push((name@, value@)),
{
    let ghost before = env@;
    env.push((name.to_owned(), value.clone()));
    assert(env_view(env@) =~= env_view(before).push((name@, value@)));
}

/// The first 16 colors with colons between them.
fn palette_text(colors: &Vec<String>) -> (palette: String)
    requires
        colors@.len() >= 16,
    ensures
        palette@ == joined_by_colons(texts(colors@).take(16)),
{
    let ghost t = texts(colors@);
    proof {
        reveal_strlit(":");
    }
    assert(":"@ =~= seq![':']);
    let mut palette = String::new();
    let mut i: usize = 0;
    assert(palette@ =~= joined_by_colons(t.take(0)));
    while i < 16
        invariant
            i <= 16 <= colors@.len(),
            t == texts(colors@),
            ":"@ == seq![':'],
            palette@ == joined_by_colons(t.take(i as int)),
        decreases 16 - i,
    {
        if i > 0 {
            palette.append(":");
        }
        palette.append(colors[i].as_str());
        assert(t.take(i + 1).drop_last() =~= t.take(i as int));
        assert(t.take(i + 1).last() == colors@[i as int]@);
        assert(palette@ =~= joined_by_colons(t.take(i + 1)));
        i = i + 1;
    }
    palette
}

impl Header {
    /// The header of a recording of `prog` with its arguments, or of the default
    /// program where it is empty.
    pub fn new(
        config: &HeaderConfig,
        shell: &Option<String>,
        lang: &Option<String>,
        size: PtySize,
        prog: &Vec<String>,
        timestamp: i64,
    ) -> (header: Header)
        requires
            config.colors@.len() >= 16,
        ensures
            is_initial_header(
                header,
                *config,
                text_view(*shell),
                text_view(*lang),
                size,
                if prog@.len() == 0 {
                    None
                } else {
                    Some(shell_command(texts(prog@)))
                },
                timestamp,
            ),
            text_view(header.command) == recorded_command(texts(prog@)),
    {
        let command = if prog.len() == 0 {
            None
        } else {
            Some(join_words(prog))
        };
        Header::for_command(config, shell, lang, size, command, timestamp)
    }

    /// The header of a recording of the given command line, or of the default program
    /// where there is none.
    pub fn for_command(
        config: &HeaderConfig,
        shell: &Option<String>,
        lang: &Option<String>,
        size: PtySize,
        command: Option<String>,
        timestamp: i64,
    ) -> (header: Header)
        requires
            config.colors@.len() >= 16,
        ensures
            is_initial_header(
                header,
                *config,
                text_view(*shell),
                text_view(*lang),
                size,
                text_view(command),
                timestamp,
            ),
    {
        let mut env: Vec<(String, String)> = Vec::new();
        assert(env_view(env@) =~= Seq::<(Seq<char>, Seq<char>)>::empty());
        capture(&mut env, "TERM", &config.term);
        capture(&mut env, "WEZTERM_VERSION", &config.wezterm_version);
        capture(&mut env, "WEZTERM_TARGET_TRIPLE", &config.wezterm_target_triple);
        if let Some(shell) = shell {
            capture(&mut env, "SHELL", shell);
        }
        if let Some(lang) = lang {
            capture(&mut env, "LANG", lang);
        }
        assert(env_view(env@) =~= captured_env(*config, text_view(*shell), text_view(*lang)));
        let theme = Theme {
            fg: config.foreground.clone(),
            bg: config.background.clone(),
            palette: palette_text(&config.colors),
        };
        Header {
            version: 2,
            width: size.cols as u32,
            height: size.rows as u32,
            timestamp: Some(timestamp),
            duration: None,
            idle_time_limit: None,
            command,
            title: None,
            env,
            theme: Some(theme),
        }
    }
}

/// No variable is captured twice.
pub proof fn law_captured_names_differ(
    config: HeaderConfig,
    shell: Option<Seq<char>>,
    lang: Option<Seq<char>>,
    i: int,
    j: int,
)
    requires
        0 <= i < j < captured_env(config, shell, lang).len(),
    ensures
        captured_env(config, shell, lang)[i].0 != captured_env(config, shell, lang)[j].0,
{
    reveal_strlit("TERM");
    reveal_strlit("WEZTERM_VERSION");
    reveal_strlit("WEZTERM_TARGET_TRIPLE");
    reveal_strlit("SHELL");
    reveal_strlit("LANG");
    assert("TERM"@.len() == 4 && "TERM"@[0] == 'T');
    assert("LANG"@.len() == 4 && "LANG"@[0] == 'L');
    assert("WEZTERM_VERSION"@.len() == 15);
    assert("WEZTERM_TARGET_TRIPLE"@.len() == 21);
    assert("SHELL"@.len() == 5);
}

/// What a header says of its recording: the version is 2, the width is that of the
/// columns and the height that of the rows, the time of its start and the command are
/// those that were given, and the colors are those of the configuration. What is not
/// known at the start is left open.
pub proof fn law_header_describes_the_recording(
    header: Header,
    config: HeaderConfig,
    shell: Option<Seq<char>>,
    lang: Option<Seq<char>>,
    size: PtySize,
    command: Option<Seq<char>>,
    timestamp: i64,
)
    requires
        is_initial_header(header, config, shell, lang, size, command, timestamp),
    ensures
        header.version == 2,
        header.width == size.cols && header.height == size.rows,
        header.timestamp == Some(timestamp),
        header.duration is None && header.idle_time_limit is None && header.title is None,
        header.command is None <==> command is None,
        header.command matches Some(text) ==> command == Some(text@),
        env_view(header.env@) == captured_env(config, shell, lang),
        header.theme matches Some(theme) && theme.fg@ == config.foreground@ && theme.bg@
            == config.background@ && theme.palette@ == joined_by_colons(
            texts(config.colors@).take(16),
        ),
{
}

/// Two recordings that start alike in everything but the size have headers that differ
/// exactly if the sizes in cells do.
pub proof fn law_headers_tell_sizes_apart(
    header: Header,
    other: Header,
    config: HeaderConfig,
    shell: Option<Seq<char>>,
    lang: Option<Seq<char>>,
    size: PtySize,
    other_size: PtySize,
    command: Option<Seq<char>>,
    timestamp: i64,
)
    requires
        is_initial_header(header, config, shell, lang, size, command, timestamp),
        is_initial_header(other, config, shell, lang, other_size, command, timestamp),
    ensures
        header.width == other.width && header.height == other.height <==> size.cols
            == other_size.cols && size.rows == other_size.rows,
{
}

/// Which variables are captured, and with which values: three always, and the shell and
/// the language exactly if they are set.
pub proof fn law_captured_variables(
    config: HeaderConfig,
    shell: Option<Seq<char>>,
    lang: Option<Seq<char>>,
)
    ensures
        ({
            let env = captured_env(config, shell, lang);
            &&& env.len() == 3 + (if shell is Some {
                1int
            } else {
                0int
            }) + (if lang is Some {
                1int
            } else {
                0int
            })
            &&& env[0] == ("TERM"@, config.term@)
            &&& env[1] == ("WEZTERM_VERSION"@, config.wezterm_version@)
            &&& env[2] == ("WEZTERM_TARGET_TRIPLE"@, config.wezterm_target_triple@)
            &&& shell matches Some(value) ==> env[3] == ("SHELL"@, value)
            &&& lang matches Some(value) ==> env.last() == ("LANG"@, value)
        }),
{
}

/// Colors are joined one behind the other: a color alone stands as it is, and each
/// further one follows a colon.
pub proof fn law_colors_follow_colons(texts: Seq<Seq<char>>, more: Seq<char>)
    ensures
        joined_by_colons(seq![more]) == more,
        texts.len() > 0 ==> joined_by_colons(texts.push(more)) == joined_by_colons(texts) + seq![
            ':',
        ] + more,
{
    if texts.len() > 0 {
        assert(texts.push(more).drop_last() =~= texts);
        assert(joined_by_colons(texts.push(more)) =~= joined_by_colons(texts) + seq![':'] + more);
    }
}

/// A command is recorded exactly if one was given.
pub proof fn law_command_is_recorded(words: Seq<Seq<char>>)
    ensures
        words.len() == 0 ==> recorded_command(words) is None,
        words.len() > 0 ==> recorded_command(words) == Some(shell_command(words)),
{
}

/// An event holds output exactly if its kind is the letter `o` alone, and the output is
/// its data.
pub proof fn law_output_events_are_marked(event: Event)
    ensures
        event.output_text() is Some <==> event.1@.len() == 1 && event.1@[0] == 'o',
        event.output_text() matches Some(text) ==> text == event.2@,
{
    if event.1@.len() == 1 && event.1@[0] == 'o' {
        assert(event.1@ =~= seq!['o']);
    }
}

} // verus!

//! What becomes of each kind of output, byte for byte.

use crate::bridge::mode_resets;
use crate::dec_modes::{
    all_modes, is_recorders_number, joined, law_joined_divides, law_modes_are_sorted_out, undivided,
};
use crate::grammar::{
    continues, csi_stop, encoded_len, lex, string_end, terminator_len, Lexeme,
};
use crate::modes::InnerInputState;
use crate::numbers::{decimal, law_decimal_reads_back, lemma_decimal, u16_value};
use crate::tracker::{
    lemma_behind, lemma_run_held, lemma_run_partial, lemma_run_sequence,
    lemma_run_text, perform, reply, run, Filtered, PassthroughControlString,
};
use crate::tracker_laws::{lemma_run_nothing, lemma_run_one_sequence};
use crate::utf8::lemma_ascii_is_valid;
use vstd::prelude::*;
use vstd::utf8::{char_is_scalar, encode_scalar, encode_utf8, valid_utf8};

verus! {

/// Nothing but this output.
pub open spec fn goes_through(modes: InnerInputState, s: Seq<u8>) -> Filtered {
    Filtered { modes, string: None, pending: Seq::empty(), output: s, replies: Seq::empty() }
}

/// Nothing but what is held back.
pub open spec fn is_held(modes: InnerInputState, s: Seq<u8>) -> Filtered {
    Filtered { modes, string: None, pending: s, output: Seq::empty(), replies: Seq::empty() }
}

/// What introduces a control sequence: `ESC [`, or one character in UTF-8.
pub open spec fn sequence_intro(c1: bool) -> Seq<u8> {
    if c1 {
        seq![0xc2u8, 0x9bu8]
    } else {
        seq![0x1bu8, 0x5bu8]
    }
}

/// Whether the bytes can stand inside a control sequence: none of them ends it or cuts
/// it off.
pub open spec fn is_inner(body: Seq<u8>) -> bool {
    forall|i: int|
        0 <= i < body.len() ==> #[trigger] body[i] != 0x1b && !(0x40 <= body[i] <= 0x7e)
}

/// Bytes that do not end a control sequence are passed over.
proof fn lemma_csi_passes(s: Seq<u8>, i: int, end: int)
    requires
        0 <= i <= end <= s.len(),
        is_inner(s.subrange(i, end)),
    ensures
        csi_stop(s, i) == csi_stop(s, end),
    decreases end - i,
{
    if i < end {
        let part = s.subrange(i, end);
        let less = s.subrange(i + 1, end);
        assert(part[0] == s[i]);
        assert forall|k: int| 0 <= k < less.len() implies #[trigger] less[k] != 0x1b && !(0x40
            <= less[k] <= 0x7e) by {
            assert(less[k] == part[k + 1]);
        }
        lemma_csi_passes(s, i + 1, end);
    }
}

/// Where a whole control sequence ends.
proof fn lemma_whole_sequence(c1: bool, body: Seq<u8>, last: u8, rest: Seq<u8>)
    requires
        is_inner(body),
        0x40 <= last <= 0x7e,
    ensures
        ({
            let s = sequence_intro(c1) + body + seq![last] + rest;
            &&& csi_stop(s, 2) == body.len() + 2
            &&& lex(s) == (Lexeme::Sequence { intro: 2, last: (body.len() + 2) as int })
        }),
{
    reveal(lex);
    let s = sequence_intro(c1) + body + seq![last] + rest;
    let end = (body.len() + 2) as int;
    assert(s.subrange(2, end) =~= body);
    lemma_csi_passes(s, 2, end);
    assert(s[end] == last);
    assert(s[0] == sequence_intro(c1)[0] && s[1] == sequence_intro(c1)[1]);
}

/// What a whole control sequence does, alone.
proof fn lemma_sequence_alone(modes: InnerInputState, c1: bool, body: Seq<u8>, last: u8)
    requires
        is_inner(body),
        0x40 <= last <= 0x7e,
    ensures
        ({
            let s = sequence_intro(c1) + body + seq![last];
            let effect = perform(modes, s, 2);
            &&& s.subrange(2, s.len() - 1) == body
            &&& s.last() == last
            &&& run(modes, None, s) == (Filtered {
                modes: effect.modes,
                string: None,
                pending: Seq::empty(),
                output: effect.output,
                replies: effect.replies,
            })
        }),
{
    let s = sequence_intro(c1) + body + seq![last];
    lemma_whole_sequence(c1, body, last, Seq::empty());
    assert(s + Seq::<u8>::empty() =~= s);
    assert(s.subrange(2, s.len() - 1) =~= body);
    assert(s[0] == sequence_intro(c1)[0] && s[1] == sequence_intro(c1)[1]);
    lemma_run_one_sequence(modes, s);
}

/// A whole control sequence is done with at its last byte: what follows is taken as if
/// it had come alone, in the modes behind the sequence.
#[verifier::rlimit(60)]
pub proof fn law_sequence_ends_at_its_last_byte(
    modes: InnerInputState,
    c1: bool,
    body: Seq<u8>,
    last: u8,
    rest: Seq<u8>,
)
    requires
        is_inner(body),
        0x40 <= last <= 0x7e,
    ensures
        ({
            let s = sequence_intro(c1) + body + seq![last];
            let alone = run(modes, None, s);
            &&& alone.string is None && alone.pending == Seq::<u8>::empty()
            &&& run(modes, None, s + rest) == run(alone.modes, None, rest).behind(
                alone.output,
                alone.replies,
            )
        }),
{
    let s = sequence_intro(c1) + body + seq![last];
    lemma_sequence_alone(modes, c1, body, last);
    lemma_whole_sequence(c1, body, last, rest);
    lemma_run_sequence(modes, s + rest, 2, (body.len() + 2) as int);
    assert((s + rest).take((body.len() + 3) as int) =~= s);
    assert((s + rest).skip((body.len() + 3) as int) =~= rest);
}

/// Whether the control sequence sets or resets DEC private modes.
pub open spec fn changes_modes(body: Seq<u8>, last: u8) -> bool {
    body.len() > 0 && body[0] == 0x3f && (last == 0x68 || last == 0x6c)
}

/// What a control sequence that changes no DEC private mode does. It changes no mode. The
/// recorder answers it, and it does not go through, if it ends in `c` and asks for the
/// attributes, with no parameter, `0`, `>` or `>0`, or if it ends in `n` and asks for the
/// status, `5`, or the position, `6`. Parameters of a `c` that are no text count as none.
/// Every other one goes through as it stands, and is not answered.
#[verifier::rlimit(60)]
pub proof fn law_only_questions_are_answered(
    modes: InnerInputState,
    c1: bool,
    body: Seq<u8>,
    last: u8,
)
    requires
        is_inner(body),
        0x40 <= last <= 0x7e,
        !changes_modes(body, last),
    ensures
        ({
            let s = sequence_intro(c1) + body + seq![last];
            let result = run(modes, None, s);
            let none = Seq::<u8>::empty();
            let attributes = last == 0x63 && (body.len() == 0 || body == seq![0x30u8]
                || !valid_utf8(body));
            let secondary = last == 0x63 && (body == seq![0x3eu8] || body == seq![0x3eu8, 0x30u8]);
            let status = last == 0x6e && body == seq![0x35u8];
            let position = last == 0x6e && body == seq![0x36u8];
            &&& attributes ==> result == goes_through(modes, none).behind(
                none,
                seq![0x1bu8, 0x5b, 0x3f, 0x31, 0x3b, 0x30, 0x63],
            )
            &&& secondary ==> result == goes_through(modes, none).behind(
                none,
                seq![0x1bu8, 0x5b, 0x3e, 0x30, 0x3b, 0x30, 0x3b, 0x30, 0x63],
            )
            &&& status ==> result == goes_through(modes, none).behind(
                none,
                seq![0x1bu8, 0x5b, 0x30, 0x6e],
            )
            &&& position ==> result == goes_through(modes, none).behind(
                none,
                seq![0x1bu8, 0x5b, 0x31, 0x3b, 0x31, 0x52],
            )
            &&& !attributes && !secondary && !status && !position ==> result == goes_through(
                modes,
                s,
            )
        }),
{
    let s = sequence_intro(c1) + body + seq![last];
    lemma_sequence_alone(modes, c1, body, last);
    let none = Seq::<u8>::empty();
    lemma_short_texts();
    assert(body.len() == 0 ==> body =~= none);
    let result = run(modes, None, s);
    match reply(body, last) {
        Some(replies) => {
            assert(none + replies =~= replies);
            assert(replies + none =~= replies);
            assert(none + none =~= none);
            assert(result =~= goes_through(modes, none).behind(none, replies));
        },
        None => {
            assert(result =~= goes_through(modes, s));
        },
    }
}

/// The parameters of the questions are text.
proof fn lemma_short_texts()
    ensures
        valid_utf8(Seq::<u8>::empty()),
        valid_utf8(seq![0x30u8]),
        valid_utf8(seq![0x3eu8]),
        valid_utf8(seq![0x3eu8, 0x30u8]),
        valid_utf8(seq![0x35u8]),
        valid_utf8(seq![0x36u8]),
{
    lemma_ascii_is_valid(Seq::empty());
    lemma_ascii_is_valid(seq![0x30u8]);
    lemma_ascii_is_valid(seq![0x3eu8]);
    lemma_ascii_is_valid(seq![0x3eu8, 0x30u8]);
    lemma_ascii_is_valid(seq![0x35u8]);
    lemma_ascii_is_valid(seq![0x36u8]);
}

/// What a control sequence that changes DEC private modes does, for any list of
/// parameters. Where one of them is no number of sixteen bits, or none of them is the
/// number of a mode that the recorder acts on, the sequence goes through as it stands.
/// Else the recorder acts on these, in order, and the sequence goes through with the
/// others, as they stand and in order, or not at all where there are no others.
#[verifier::rlimit(60)]
pub proof fn law_mode_changes_are_sorted_out(
    modes: InnerInputState,
    c1: bool,
    params: Seq<Seq<u8>>,
    set: bool,
)
    requires
        params.len() > 0,
        undivided(params),
        is_inner(joined(params)),
    ensures
        ({
            let start = sequence_intro(c1) + seq![0x3fu8];
            let last = if set {
                0x68u8
            } else {
                0x6cu8
            };
            let result = run(modes, None, start + joined(params) + seq![last]);
            let ours = params.filter(
                |param: Seq<u8>| is_recorders_number(u16_value(param).unwrap()),
            );
            let others = params.filter(
                |param: Seq<u8>| !is_recorders_number(u16_value(param).unwrap()),
            );
            if all_modes(params) && ours.len() > 0 {
                &&& result.modes == modes.with_modes(
                    ours.map_values(|param: Seq<u8>| u16_value(param).unwrap()),
                    set,
                )
                &&& result.output == if others.len() > 0 {
                    start + joined(others) + seq![last]
                } else {
                    Seq::<u8>::empty()
                }
                &&& result.string is None && result.pending == Seq::<u8>::empty()
                &&& result.replies == Seq::<u8>::empty()
            } else {
                result == goes_through(modes, start + joined(params) + seq![last])
            }
        }),
{
    let start = sequence_intro(c1) + seq![0x3fu8];
    let last = if set {
        0x68u8
    } else {
        0x6cu8
    };
    let body = seq![0x3fu8] + joined(params);
    let s = sequence_intro(c1) + body + seq![last];
    assert(s =~= start + joined(params) + seq![last]);
    assert forall|i: int| 0 <= i < body.len() implies #[trigger] body[i] != 0x1b && !(0x40
        <= body[i] <= 0x7e) by {
        if i > 0 {
            assert(body[i] == joined(params)[i - 1]);
        }
    }
    lemma_sequence_alone(modes, c1, body, last);
    assert(body.skip(1) =~= joined(params));
    law_joined_divides(params);
    assert(s.take(3) =~= start);
    if all_modes(params) {
        law_modes_are_sorted_out(params);
    }
}

/// What a control sequence that sets or resets one DEC private mode does, for every
/// number: the recorder keeps the modes that it acts on from the outer terminal, and lets
/// the sequence with any other number through as it stands.
#[verifier::rlimit(60)]
pub proof fn law_one_mode_is_changed(modes: InnerInputState, c1: bool, mode: u16, set: bool)
    ensures
        ({
            let last = if set {
                0x68u8
            } else {
                0x6cu8
            };
            let s = sequence_intro(c1) + seq![0x3fu8] + decimal(mode as nat) + seq![last];
            let acted_on = mode == 1 || mode == 1000 || mode == 1002 || mode == 1003 || mode == 1004
                || mode == 1006 || mode == 2004 || mode == 9001;
            &&& acted_on ==> run(modes, None, s) == goes_through(
                modes.with_mode(mode, set),
                Seq::empty(),
            )
            &&& !acted_on ==> run(modes, None, s) == goes_through(modes, s)
        }),
{
    let last = if set {
        0x68u8
    } else {
        0x6cu8
    };
    let digits = decimal(mode as nat);
    let params = seq![digits];
    lemma_decimal(mode as nat);
    law_decimal_reads_back(mode);
    assert(joined(params) == digits);
    assert forall|i: int| 0 <= i < digits.len() implies #[trigger] digits[i] != 0x1b && !(0x40
        <= digits[i] <= 0x7e) by {}
    law_mode_changes_are_sorted_out(modes, c1, params, set);
    let mine = |param: Seq<u8>| is_recorders_number(u16_value(param).unwrap());
    let other = |param: Seq<u8>| !is_recorders_number(u16_value(param).unwrap());
    let value = |param: Seq<u8>| u16_value(param).unwrap();
    lemma_filter_one(digits, mine);
    lemma_filter_one(digits, other);
    lemma_recorders_number(mode);
    let s = sequence_intro(c1) + seq![0x3fu8] + digits + seq![last];
    if is_recorders_number(mode) {
        assert(params.map_values(value) =~= seq![mode]);
        assert(seq![mode].drop_last() =~= Seq::<u16>::empty());
        assert(modes.with_modes(Seq::empty(), set) == modes);
        assert(modes.with_modes(seq![mode], set) == modes.with_mode(mode, set));
        assert(run(modes, None, s) =~= goes_through(modes.with_mode(mode, set), Seq::empty()));
    }
}

proof fn lemma_recorders_number(mode: u16)
    ensures
        is_recorders_number(mode) <==> mode == 1 || mode == 1000 || mode == 1002 || mode == 1003
            || mode == 1004 || mode == 1006 || mode == 2004 || mode == 9001,
{
    let numbers = seq![1u16, 1000, 1002, 1003, 1004, 1006, 2004, 9001];
    assert(numbers[0] == 1 && numbers[1] == 1000 && numbers[2] == 1002 && numbers[3] == 1003);
    assert(numbers[4] == 1004 && numbers[5] == 1006 && numbers[6] == 2004 && numbers[7] == 9001);
}

proof fn lemma_filter_one(param: Seq<u8>, keeps: spec_fn(Seq<u8>) -> bool)
    ensures
        seq![param].filter(keeps) == if keeps(param) {
            seq![param]
        } else {
            Seq::empty()
        },
{
    reveal(Seq::filter);
    let none = Seq::<Seq<u8>>::empty();
    assert(seq![param].drop_last() =~= none);
    assert(none.filter(keeps) =~= none);
    if keeps(param) {
        assert(seq![param].filter(keeps) =~= none.push(param));
        assert(none.push(param) =~= seq![param]);
    }
}

/// A control sequence that an escape cuts off goes through as it stands, up to the
/// escape, which is taken as if it came first.
#[verifier::rlimit(60)]
pub proof fn law_escape_cuts_a_sequence_off(
    modes: InnerInputState,
    c1: bool,
    body: Seq<u8>,
    rest: Seq<u8>,
)
    requires
        is_inner(body),
        rest.len() > 0 && rest[0] == 0x1b,
    ensures
        run(modes, None, sequence_intro(c1) + body + rest) == run(modes, None, rest).behind(
            sequence_intro(c1) + body,
            Seq::empty(),
        ),
{
    let s = sequence_intro(c1) + body + rest;
    let end = (body.len() + 2) as int;
    assert(s.subrange(2, end) =~= body);
    lemma_csi_passes(s, 2, end);
    assert(s[end] == rest[0]);
    assert(s[0] == sequence_intro(c1)[0] && s[1] == sequence_intro(c1)[1]);
    assert(lex(s) == (Lexeme::Text { len: end })) by {
        reveal(lex);
    }
    lemma_run_text(modes, s, end);
    assert(s.take(end) =~= sequence_intro(c1) + body);
    assert(s.skip(end) =~= rest);
}

/// A control sequence without its last byte is held back whole, up to 65536 bytes; a
/// longer one goes through whole, and nothing is left of it.
pub proof fn law_unended_sequence_is_held(modes: InnerInputState, c1: bool, body: Seq<u8>)
    requires
        is_inner(body),
    ensures
        ({
            let s = sequence_intro(c1) + body;
            run(modes, None, s) == if s.len() <= 65536 {
                is_held(modes, s)
            } else {
                goes_through(modes, s)
            }
        }),
{
    let s = sequence_intro(c1) + body;
    let end = (body.len() + 2) as int;
    assert(s.subrange(2, end) =~= body);
    lemma_csi_passes(s, 2, end);
    assert(s[0] == sequence_intro(c1)[0] && s[1] == sequence_intro(c1)[1]);
    assert(lex(s) is Held) by {
        reveal(lex);
    }
    lemma_run_held(modes, s);
}

/// What introduces a control string: an escape and one of `]`, `P`, `_`, `^` and `X`, or
/// one of the five C1 controls, in UTF-8 or as a bare byte.
pub open spec fn is_string_intro(intro: Seq<u8>) -> bool {
    let c1 = intro.last() == 0x9d || intro.last() == 0x90 || intro.last() == 0x9f || intro.last()
        == 0x9e || intro.last() == 0x98;
    ||| intro.len() == 2 && intro[0] == 0x1b && (intro[1] == 0x5d || intro[1] == 0x50 || intro[1]
        == 0x5f || intro[1] == 0x5e || intro[1] == 0x58)
    ||| intro.len() == 2 && intro[0] == 0xc2 && c1
    ||| intro.len() == 1 && c1
}

/// Whether what is introduced so is an operating system command.
pub open spec fn is_command_intro(intro: Seq<u8>) -> bool {
    intro.last() == 0x5d || intro.last() == 0x9d
}

/// What ends a control string: the C1 control, in UTF-8 or as a bare byte, or `ESC \`.
/// A bell ends an operating system command, and nothing else.
pub open spec fn is_string_end(end: Seq<u8>, command: bool) -> bool {
    ||| end == seq![0x9cu8]
    ||| end == seq![0xc2u8, 0x9cu8]
    ||| end == seq![0x1bu8, 0x5cu8]
    ||| command && end == seq![0x07u8]
}

/// Whether no control string ends before the position `n`.
pub open spec fn goes_on(s: Seq<u8>, n: int, command: bool) -> bool {
    forall|i: int|
        0 <= i < n ==> #[trigger] s[i] != 0x9c && !(command && s[i] == 0x07) && !(s[i] == 0x1b && i
            + 1 < s.len() && s[i + 1] == 0x5c)
}

/// Where no string ends, the search for its end goes on.
proof fn lemma_string_goes_on(s: Seq<u8>, i: int, end: int, bell: bool)
    requires
        0 <= i <= end <= s.len(),
        forall|k: int| i <= k < end ==> terminator_len(s, k, bell) == 0,
    ensures
        string_end(s, i, bell) == string_end(s, end, bell),
    decreases end - i,
{
    if i < end {
        assert(terminator_len(s, i, bell) == 0);
        lemma_string_goes_on(s, i + 1, end, bell);
    }
}

/// Where a whole control string ends.
proof fn lemma_string_end_found(
    intro: Seq<u8>,
    body: Seq<u8>,
    end: Seq<u8>,
    rest: Seq<u8>,
    command: bool,
)
    requires
        is_string_end(end, command),
        goes_on(body + end, body.len() as int, command),
    ensures
        ({
            let s = intro + body + end + rest;
            string_end(s, intro.len() as int, command) == Some(
                (intro.len() + body.len() + end.len()) as int,
            )
        }),
{
    let s = intro + body + end + rest;
    let n = intro.len() as int;
    let stop = n + body.len();
    let inner = body + end;
    assert forall|k: int| n <= k < stop + end.len() implies #[trigger] s[k] == inner[k - n] by {}
    assert forall|k: int|
        n <= k < stop && !(k == stop - 1 && s[k] == 0xc2 && end == seq![
            0x9cu8,
        ]) implies terminator_len(s, k, command) == 0 by {
        assert(s[k] == inner[k - n]);
        assert(s[k + 1] == inner[k - n + 1]);
        assert(inner[k - n] != 0x9c);
        if k + 1 < stop {
            assert(inner[k - n + 1] != 0x9c);
        }
    }
    assert(s[stop] == end[0]);
    if end.len() == 2 {
        assert(s[stop + 1] == end[1]);
    }
    if body.len() > 0 && s[stop - 1] == 0xc2 && end == seq![0x9cu8] {
        lemma_string_goes_on(s, n, stop - 1, command);
        assert(s[stop] == 0x9c);
        assert(terminator_len(s, stop - 1, command) == 2);
    } else {
        lemma_string_goes_on(s, n, stop, command);
        assert(terminator_len(s, stop, command) == end.len());
    }
}

/// A control string that has ended goes through as it stands, whatever it holds and
/// however long it is: nothing in it is a change of modes or a question. What follows is
/// taken as if it came first.
#[verifier::rlimit(60)]
pub proof fn law_ended_string_goes_through(
    modes: InnerInputState,
    intro: Seq<u8>,
    body: Seq<u8>,
    end: Seq<u8>,
    rest: Seq<u8>,
)
    requires
        is_string_intro(intro),
        is_string_end(end, is_command_intro(intro)),
        goes_on(body + end, body.len() as int, is_command_intro(intro)),
    ensures
        run(modes, None, intro + body + end + rest) == run(modes, None, rest).behind(
            intro + body + end,
            Seq::empty(),
        ),
{
    let s = intro + body + end + rest;
    let n = (intro.len() + body.len() + end.len()) as int;
    let command = is_command_intro(intro);
    assert(s[0] == intro[0]);
    if intro.len() == 2 {
        assert(s[1] == intro[1]);
    }
    lemma_string_end_found(intro, body, end, rest, command);
    assert(lex(s) == (Lexeme::Text { len: n })) by {
        reveal(lex);
    }
    lemma_run_text(modes, s, n);
    assert(s.take(n) =~= intro + body + end);
    assert(s.skip(n) =~= rest);
}

/// A control string that has not ended is held back whole, up to 65536 bytes. A longer
/// one goes through whole, and what follows is then still part of it.
pub proof fn law_unended_string_is_held(modes: InnerInputState, intro: Seq<u8>, body: Seq<u8>)
    requires
        is_string_intro(intro),
        goes_on(body, body.len() as int, is_command_intro(intro)),
    ensures
        ({
            let s = intro + body;
            let result = run(modes, None, s);
            &&& s.len() <= 65536 ==> result == is_held(modes, s)
            &&& s.len() > 65536 ==> result.output == s && result.modes == modes
                && result.pending == Seq::<u8>::empty() && result.replies == Seq::<u8>::empty()
            &&& s.len() > 65536 ==> result.string == Some(
                PassthroughControlString {
                    terminates_on_bel: is_command_intro(intro),
                    pending_esc: s.last() == 0x1b,
                    pending_utf8_c2: s.last() == 0xc2,
                },
            )
        }),
{
    let s = intro + body;
    let n = intro.len() as int;
    let command = is_command_intro(intro);
    assert(s[0] == intro[0]);
    if intro.len() == 2 {
        assert(s[1] == intro[1]);
    }
    assert forall|k: int| n <= k < s.len() implies terminator_len(s, k, command) == 0 by {
        assert(s[k] == body[k - n]);
        assert(body[k - n] != 0x9c);
        if k + 1 < s.len() {
            assert(s[k + 1] == body[k - n + 1]);
            assert(body[k - n + 1] != 0x9c);
        }
    }
    lemma_string_goes_on(s, n, s.len() as int, command);
    assert(lex(s) is Held) by {
        reveal(lex);
    }
    lemma_run_held(modes, s);
}

/// An escape alone is held back. Before any byte that introduces neither a control
/// sequence nor a control string it goes through, and that byte is taken as if it came
/// first.
#[verifier::rlimit(60)]
pub proof fn law_other_escapes_go_through(modes: InnerInputState, rest: Seq<u8>)
    requires
        rest.len() > 0 ==> rest[0] != 0x5b && rest[0] != 0x5d && rest[0] != 0x50 && rest[0] != 0x5f
            && rest[0] != 0x5e && rest[0] != 0x58,
    ensures
        rest.len() > 0 ==> run(modes, None, seq![0x1bu8] + rest) == run(modes, None, rest).behind(
            seq![0x1bu8],
            Seq::empty(),
        ),
        rest.len() == 0 ==> run(modes, None, seq![0x1bu8] + rest) == is_held(modes, seq![0x1bu8]),
{
    let s = seq![0x1bu8] + rest;
    if rest.len() == 0 {
        assert(s =~= seq![0x1bu8]);
        assert(lex(s) is Held) by {
            reveal(lex);
        }
        lemma_run_held(modes, s);
    } else {
        assert(s[1] == rest[0]);
        assert(lex(s) == (Lexeme::Text { len: 1 })) by {
            reveal(lex);
        }
        lemma_run_text(modes, s, 1);
        assert(s.take(1) =~= seq![0x1bu8]);
        assert(s.skip(1) =~= rest);
    }
}

/// Whether a character is text: neither an escape nor a C1 control that introduces a
/// control sequence or a control string.
pub open spec fn is_text(c: char) -> bool {
    let u = c as u32;
    u != 0x1b && u != 0x90 && u != 0x98 && u != 0x9b && u != 0x9d && u != 0x9e && u != 0x9f
}

/// How the bytes of a character's encoding are made.
proof fn lemma_scalar_bytes(u: u32)
    by (bit_vector)
    ensures
        u <= 0x7f ==> (u & 0x7F) as u8 == u,
        0x80 <= u <= 0x7ff ==> 0xc2 <= 0xC0u8 | ((u >> 6) & 0x1F) as u8 <= 0xdf,
        0x80 <= u <= 0x7ff && 0xC0u8 | ((u >> 6) & 0x1F) as u8 == 0xc2 ==> 0x80u8 | (u & 0x3F) as u8
            == u,
        0x800 <= u <= 0xffff ==> 0xe0 <= 0xE0u8 | ((u >> 12) & 0x0F) as u8 <= 0xef,
        0x10000 <= u <= 0x10ffff ==> 0xf0 <= 0xF0u8 | ((u >> 18) & 0x7) as u8 <= 0xf4,
        0x80 <= 0x80u8 | (u & 0x3F) as u8 <= 0xbf,
        0x80 <= 0x80u8 | ((u >> 6) & 0x3F) as u8 <= 0xbf,
        0x80 <= 0x80u8 | ((u >> 12) & 0x3F) as u8 <= 0xbf,
{
}

/// How the encoding of a character starts, and how it goes on.
proof fn lemma_encoded_bytes(c: char)
    ensures
        ({
            let e = encode_scalar(c as u32);
            &&& e.len() == encoded_len(e[0])
            &&& e.len() == 1 ==> e[0] == c as u32
            &&& e.len() > 1 && e[0] == 0xc2 ==> e[1] == c as u32
            &&& e.len() > 1 ==> e[0] >= 0xc2
            &&& forall|k: int| 1 <= k < e.len() ==> 0x80 <= #[trigger] e[k] <= 0xbf
        }),
{
    char_is_scalar(c);
    lemma_scalar_bytes(c as u32);
}

/// A character that is text is text at the head of a stream.
proof fn lemma_lex_character(c: char, rest: Seq<u8>)
    requires
        is_text(c),
    ensures
        lex(encode_scalar(c as u32) + rest) == (Lexeme::Text {
            len: encode_scalar(c as u32).len() as int,
        }),
{
    reveal(lex);
    lemma_encoded_bytes(c);
    let e = encode_scalar(c as u32);
    let s = e + rest;
    assert forall|k: int| 0 <= k < e.len() implies #[trigger] s[k] == e[k] by {}
    assert(s[0] == e[0]);
    if e.len() > 1 {
        assert(s[1] == e[1]);
        assert forall|k: int| 1 <= k < s.len() && k < encoded_len(s[0]) implies 0x80 <= #[trigger] s[k]
            <= 0xbf by {
            assert(s[k] == e[k]);
        }
        assert(continues(s));
    }
}

/// Text goes through as it stands and at once, and what follows is taken as if it came
/// first. All characters are text but the escape and the six C1 controls that introduce
/// something.
#[verifier::rlimit(60)]
pub proof fn law_text_goes_through(modes: InnerInputState, text: Seq<char>, rest: Seq<u8>)
    requires
        forall|i: int| 0 <= i < text.len() ==> is_text(#[trigger] text[i]),
    ensures
        run(modes, None, encode_utf8(text) + rest) == run(modes, None, rest).behind(
            encode_utf8(text),
            Seq::empty(),
        ),
    decreases text.len(),
{
    let none = Seq::<u8>::empty();
    if text.len() == 0 {
        assert(encode_utf8(text) =~= none);
        assert(none + rest =~= rest);
        assert(run(modes, None, rest).behind(none, none) =~= run(modes, None, rest));
    } else {
        let e = encode_scalar(text[0] as u32);
        let more = encode_utf8(text.drop_first());
        let s = encode_utf8(text) + rest;
        let n = e.len() as int;
        assert(s =~= e + (more + rest));
        lemma_lex_character(text[0], more + rest);
        lemma_encoded_bytes(text[0]);
        lemma_run_text(modes, s, n);
        assert(s.take(n) =~= e);
        assert(s.skip(n) =~= more + rest);
        law_text_goes_through(modes, text.drop_first(), rest);
        lemma_behind(run(modes, None, rest), e, none, more, none);
        assert(none + none =~= none);
    }
}

/// A character of which only the first bytes are there is held back.
pub proof fn law_cut_character_is_held(modes: InnerInputState, c: char, n: int)
    requires
        0 < n < encode_scalar(c as u32).len(),
    ensures
        run(modes, None, encode_scalar(c as u32).take(n)) == is_held(
            modes,
            encode_scalar(c as u32).take(n),
        ),
{
    let e = encode_scalar(c as u32);
    let s = e.take(n);
    lemma_encoded_bytes(c);
    assert(s[0] == e[0]);
    assert forall|k: int| 1 <= k < s.len() && k < encoded_len(s[0]) implies 0x80 <= #[trigger] s[k]
        <= 0xbf by {
        assert(s[k] == e[k]);
    }
    assert(continues(s));
    if e[0] == 0xc2 {
        assert(e.len() == 2);
    }
    assert(lex(s) is Partial) by {
        reveal(lex);
    }
    lemma_run_partial(modes, s);
}

/// A byte that is no part of a character goes through alone, and what follows is taken as
/// if it came first: one that starts no character and introduces no control string, and
/// one that starts a character which other bytes break off.
pub proof fn law_stray_byte_goes_through(modes: InnerInputState, s: Seq<u8>, k: int)
    requires
        s.len() > 0,
        ({
            ||| (0x80 <= s[0] < 0xc2 || s[0] > 0xf4) && s[0] != 0x90 && s[0] != 0x98 && s[0] != 0x9d
                && s[0] != 0x9e && s[0] != 0x9f
            ||| 0xc2 <= s[0] <= 0xf4 && 1 <= k < s.len() && (k == 1 || k == 2 && s[0] >= 0xe0 || k
                == 3 && s[0] >= 0xf0) && !(0x80 <= s[k] <= 0xbf)
        }),
    ensures
        run(modes, None, s) == run(modes, None, s.skip(1)).behind(seq![s[0]], Seq::empty()),
{
    assert(0xc2 <= s[0] <= 0xf4 ==> !continues(s));
    assert(lex(s) == (Lexeme::Text { len: 1 })) by {
        reveal(lex);
    }
    lemma_run_text(modes, s, 1);
    assert(s.take(1) =~= seq![s[0]]);
}

/// Resets of modes that the recorder acts on leave nothing, and what follows is taken in
/// the modes without them.
#[verifier::rlimit(60)]
proof fn lemma_resets(state: InnerInputState, modes: Seq<u16>, rest: Seq<u8>)
    requires
        forall|i: int| 0 <= i < modes.len() ==> is_recorders_number(#[trigger] modes[i]),
    ensures
        run(state, None, mode_resets(modes) + rest) == run(
            state.with_modes(modes, false),
            None,
            rest,
        ),
    decreases modes.len(),
{
    let none = Seq::<u8>::empty();
    if modes.len() == 0 {
        assert(mode_resets(modes) + rest =~= rest);
    } else {
        let init = modes.drop_last();
        let mode = modes.last();
        let before = state.with_modes(init, false);
        let after = state.with_modes(modes, false);
        let body = seq![0x3fu8] + decimal(mode as nat);
        let one = sequence_intro(false) + body + seq![0x6cu8];
        assert forall|i: int| 0 <= i < init.len() implies is_recorders_number(
            #[trigger] init[i],
        ) by {
            assert(init[i] == modes[i]);
        }
        assert(mode_resets(modes) + rest =~= mode_resets(init) + (one + rest));
        lemma_resets(state, init, one + rest);
        lemma_recorders_number(modes[modes.len() - 1]);
        law_one_mode_is_changed(before, false, mode, false);
        assert(sequence_intro(false) + seq![0x3fu8] + decimal(mode as nat) + seq![0x6cu8] =~= one);
        lemma_decimal(mode as nat);
        assert forall|i: int| 0 <= i < body.len() implies #[trigger] body[i] != 0x1b && !(0x40
            <= body[i] <= 0x7e) by {
            if i > 0 {
                assert(body[i] == decimal(mode as nat)[i - 1]);
            }
        }
        law_sequence_ends_at_its_last_byte(before, false, body, 0x6c, rest);
        assert(run(after, None, rest).behind(none, none) =~= run(after, None, rest));
    }
}

/// The resets do what they are for: behind them, whoever takes them in as the tracker
/// does has each of the modes reset, and nothing of them is left over.
pub proof fn law_resets_are_understood(state: InnerInputState, modes: Seq<u16>)
    requires
        forall|i: int| 0 <= i < modes.len() ==> is_recorders_number(#[trigger] modes[i]),
    ensures
        run(state, None, mode_resets(modes)) == goes_through(
            state.with_modes(modes, false),
            Seq::empty(),
        ),
{
    let none = Seq::<u8>::empty();
    lemma_resets(state, modes, none);
    assert(mode_resets(modes) + none =~= mode_resets(modes));
    lemma_run_nothing(state.with_modes(modes, false), none);
}

/// A byte inside a control string that is being passed through goes through.
proof fn lemma_run_inside(
    modes: InnerInputState,
    string: PassthroughControlString,
    first: u8,
    rest: Seq<u8>,
)
    ensures
        run(modes, Some(string), seq![first] + rest) == run(
            modes,
            string.next(first),
            rest,
        ).behind(seq![first], Seq::empty()),
{
    let s = seq![first] + rest;
    assert(s[0] == first);
    assert(s.skip(1) =~= rest);
    assert(s.take(1) =~= seq![first]);
}

/// A control string that is being passed through goes on to its end, as it stands, and
/// what follows is taken as if it came first. It ends as it would have ended had it been
/// seen whole: a backslash ends it only behind an escape, which may be the last byte that
/// was seen before, and a bell only if it is an operating system command.
#[verifier::rlimit(60)]
pub proof fn law_passed_string_goes_on_to_its_end(
    modes: InnerInputState,
    string: PassthroughControlString,
    body: Seq<u8>,
    end: Seq<u8>,
    rest: Seq<u8>,
)
    requires
        is_string_end(end, string.terminates_on_bel),
        goes_on(body + end, body.len() as int, string.terminates_on_bel),
        string.pending_esc ==> (body + end)[0] != 0x5c,
    ensures
        run(modes, Some(string), body + end + rest) == run(modes, None, rest).behind(
            body + end,
            Seq::empty(),
        ),
    decreases body.len(),
{
    let none = Seq::<u8>::empty();
    let after = run(modes, None, rest);
    assert(none + none =~= none);
    if body.len() == 0 {
        assert(body + end =~= end);
        let first = end[0];
        if end.len() == 1 {
            assert(body + end + rest =~= seq![first] + rest);
            lemma_run_inside(modes, string, first, rest);
            assert(seq![first] =~= end);
        } else {
            let second = end[1];
            assert(body + end + rest =~= seq![first] + (seq![second] + rest));
            lemma_run_inside(modes, string, first, seq![second] + rest);
            lemma_run_inside(modes, string.extended(first), second, rest);
            lemma_behind(after, seq![first], none, seq![second], none);
            assert(seq![first] + seq![second] =~= end);
        }
    } else {
        let first = body[0];
        let less = body.skip(1);
        assert((body + end)[0] == first);
        assert(body + end + rest =~= seq![first] + (less + end + rest));
        lemma_run_inside(modes, string, first, less + end + rest);
        assert forall|i: int| 0 <= i < less.len() implies ({
            &&& #[trigger] (less + end)[i] != 0x9c
            &&& !(string.terminates_on_bel && (less + end)[i] == 0x07)
            &&& !((less + end)[i] == 0x1b && i + 1 < (less + end).len() && (less + end)[i + 1]
                == 0x5c)
        }) by {
            assert((less + end)[i] == (body + end)[i + 1]);
            assert((less + end)[i + 1] == (body + end)[i + 2]);
        }
        assert((less + end)[0] == (body + end)[1]);
        law_passed_string_goes_on_to_its_end(modes, string.extended(first), less, end, rest);
        lemma_behind(after, seq![first], none, less + end, none);
        assert(seq![first] + (less + end) =~= body + end);
    }
}

/// What the recorder answers, for all parameters and last bytes: these six questions with
/// these four answers, and no others. Parameters that are no text count as none.
pub proof fn law_six_questions_have_answers(params: Seq<u8>, last: u8)
    ensures
        ({
            let answer = reply(params, last);
            let attributes = last == 0x63 && (params.len() == 0 || params == seq![0x30u8]
                || !valid_utf8(params));
            let secondary = last == 0x63 && (params == seq![0x3eu8] || params == seq![0x3eu8, 0x30u8]);
            let status = last == 0x6e && params == seq![0x35u8];
            let position = last == 0x6e && params == seq![0x36u8];
            &&& answer is Some <==> attributes || secondary || status || position
            &&& attributes ==> answer == Some(seq![0x1bu8, 0x5b, 0x3f, 0x31, 0x3b, 0x30, 0x63])
            &&& secondary ==> answer == Some(
                seq![0x1bu8, 0x5b, 0x3e, 0x30, 0x3b, 0x30, 0x3b, 0x30, 0x63],
            )
            &&& status ==> answer == Some(seq![0x1bu8, 0x5b, 0x30, 0x6e])
            &&& position ==> answer == Some(seq![0x1bu8, 0x5b, 0x31, 0x3b, 0x31, 0x52])
        }),
{
    lemma_short_texts();
    assert(params.len() == 0 ==> params =~= Seq::<u8>::empty());
    assert(Seq::<u8>::empty().len() != seq![0x35u8].len());
    assert(seq![0x30u8][0] != seq![0x3eu8][0]);
    assert(seq![0x35u8][0] != seq![0x36u8][0]);
    assert(seq![0x3eu8, 0x30u8].len() == 2);
}

} // verus!

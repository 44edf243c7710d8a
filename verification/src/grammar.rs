//! How a terminal output stream divides into text, control strings and control
//! sequences.

use vstd::prelude::*;

verus! {

/// The escape byte.
pub const ESC: u8 = 0x1b;

/// The first byte of the two-byte UTF-8 encoding of a C1 control character.
pub const C1_LEAD: u8 = 0xc2;

/// The C1 control that introduces a control sequence.
pub const CSI: u8 = 0x9b;

/// The C1 control that ends a control string.
pub const ST: u8 = 0x9c;

/// The C1 control that introduces an operating system command.
pub const OSC: u8 = 0x9d;

/// The bell, which ends an operating system command.
pub const BELL: u8 = 0x07;

/// The bracket that introduces a control sequence behind an escape: `[`.
pub const SEQUENCE_BRACKET: u8 = 0x5b;

/// The bracket that introduces an operating system command behind an escape: `]`.
pub const COMMAND_BRACKET: u8 = 0x5d;

/// The backslash, which ends a control string behind an escape.
pub const BACKSLASH: u8 = 0x5c;

/// The question mark before the numbers of DEC private modes.
pub const PRIVATE_MARK: u8 = 0x3f;

/// The last byte of a control sequence that sets modes: `h`.
pub const SET_MODES: u8 = 0x68;

/// The last byte of a control sequence that resets modes: `l`.
pub const RESET_MODES: u8 = 0x6c;

/// The last byte of a control sequence that asks for device attributes: `c`.
pub const ASK_ATTRIBUTES: u8 = 0x63;

/// The last byte of a control sequence that asks for a status report: `n`.
pub const ASK_STATUS: u8 = 0x6e;

/// Whether the byte, behind an escape, introduces a control string: an operating
/// system command, a device control string, an application program command, a
/// privacy message or a start of string.
pub open spec fn introduces_string(byte: u8) -> bool {
    byte == COMMAND_BRACKET || byte == 0x50 || byte == 0x5f || byte == 0x5e || byte == 0x58
}

/// Whether the C1 control introduces a control string.
pub open spec fn introduces_c1_string(byte: u8) -> bool {
    byte == 0x90 || byte == 0x98 || byte == OSC || byte == 0x9e || byte == 0x9f
}

/// How many bytes at position `i` end a control string, none if the string goes on
/// there. Every string ends at a string terminator, in any of its three
/// encodings; an operating system command also ends at a bell.
pub open spec fn terminator_len(s: Seq<u8>, i: int, bell: bool) -> int {
    if s[i] == ST || (bell && s[i] == BELL) {
        1
    } else if i + 1 < s.len() && s[i] == C1_LEAD && s[i + 1] == ST {
        2
    } else if i + 1 < s.len() && s[i] == ESC && s[i + 1] == BACKSLASH {
        2
    } else {
        0
    }
}

/// The position behind the first end of a control string at or behind position `i`.
pub open spec fn string_end(s: Seq<u8>, i: int, bell: bool) -> Option<int>
    decreases s.len() - i,
{
    if i < 0 || i >= s.len() {
        None
    } else if terminator_len(s, i, bell) > 0 {
        Some(i + terminator_len(s, i, bell))
    } else {
        string_end(s, i + 1, bell)
    }
}

/// Whether the byte ends a control sequence.
pub open spec fn is_final_byte(byte: u8) -> bool {
    0x40 <= byte <= 0x7e
}

/// The first position at or behind `i` where a control sequence ends or is cut off
/// by an escape, or the length of `s`.
pub open spec fn csi_stop(s: Seq<u8>, i: int) -> int
    decreases s.len() - i,
{
    if i < 0 || i >= s.len() {
        s.len() as int
    } else if is_final_byte(s[i]) || s[i] == ESC {
        i
    } else {
        csi_stop(s, i + 1)
    }
}

/// How many bytes the UTF-8 encoding of a character takes that starts with the
/// given byte, none if no encoding starts so.
pub open spec fn encoded_len(first: u8) -> int {
    if first <= 0x7f {
        1
    } else if 0xc2 <= first <= 0xdf {
        2
    } else if 0xe0 <= first <= 0xef {
        3
    } else if 0xf0 <= first <= 0xf4 {
        4
    } else {
        0
    }
}

/// Whether the bytes behind the first one, as far as they are there and belong to
/// the same character, are continuation bytes.
pub open spec fn continues(s: Seq<u8>) -> bool {
    forall|k: int|
        1 <= k < s.len() && k < encoded_len(s[0]) ==> 0x80 <= #[trigger] s[k] <= 0xbf
}

/// What stands at the head of a stream.
pub enum Lexeme {
    /// This many bytes go through unchanged.
    Text { len: int },
    /// A whole control sequence: the length of its introducer and the position of
    /// its last byte.
    Sequence { intro: int, last: int },
    /// An escape, a control string or a control sequence that has not ended yet.
    Held,
    /// A character of which only the first bytes are there.
    Partial,
}

/// A control string whose introducer is `intro` bytes long.
pub open spec fn lex_string(s: Seq<u8>, intro: int, bell: bool) -> Lexeme {
    match string_end(s, intro, bell) {
        Some(end) => Lexeme::Text { len: end },
        None => Lexeme::Held,
    }
}

/// A control sequence whose introducer is `intro` bytes long. One that an escape
/// cuts off is text.
pub open spec fn lex_sequence(s: Seq<u8>, intro: int) -> Lexeme {
    let stop = csi_stop(s, intro);
    if stop == s.len() {
        Lexeme::Held
    } else if s[stop] == ESC {
        Lexeme::Text { len: stop }
    } else {
        Lexeme::Sequence { intro, last: stop }
    }
}

/// What stands at the head of a stream that starts with an escape.
pub open spec fn lex_escape(s: Seq<u8>) -> Lexeme {
    if s.len() == 1 {
        Lexeme::Held
    } else if introduces_string(s[1]) {
        lex_string(s, 2, s[1] == COMMAND_BRACKET)
    } else if s[1] == SEQUENCE_BRACKET {
        lex_sequence(s, 2)
    } else {
        Lexeme::Text { len: 1 }
    }
}

/// What stands at the head of a stream that starts with a C1 control in UTF-8.
pub open spec fn lex_c1(s: Seq<u8>) -> Lexeme {
    if s[1] == CSI {
        lex_sequence(s, 2)
    } else if introduces_c1_string(s[1]) {
        lex_string(s, 2, s[1] == OSC)
    } else {
        Lexeme::Text { len: 2 }
    }
}

/// What stands at the head of the stream `s`, which holds at least one byte. A C1
/// control sequence is recognised in its UTF-8 encoding only: the bare byte goes
/// through as text.
#[verifier::opaque]
pub open spec fn lex(s: Seq<u8>) -> Lexeme {
    if s[0] == ESC {
        lex_escape(s)
    } else if s[0] == C1_LEAD && s.len() >= 2 && 0x80 <= s[1] <= 0x9f {
        lex_c1(s)
    } else if encoded_len(s[0]) > 1 && continues(s) {
        if s.len() < encoded_len(s[0]) {
            Lexeme::Partial
        } else {
            Lexeme::Text { len: encoded_len(s[0]) }
        }
    } else if introduces_c1_string(s[0]) {
        lex_string(s, 1, s[0] == OSC)
    } else {
        Lexeme::Text { len: 1 }
    }
}

pub proof fn lemma_string_end_bounds(s: Seq<u8>, i: int, bell: bool)
    requires
        0 <= i,
    ensures
        string_end(s, i, bell) matches Some(end) ==> i < end <= s.len(),
    decreases s.len() - i,
{
    if i < s.len() && terminator_len(s, i, bell) == 0 {
        lemma_string_end_bounds(s, i + 1, bell);
    }
}

pub proof fn lemma_csi_stop_bounds(s: Seq<u8>, i: int)
    requires
        0 <= i,
    ensures
        csi_stop(s, i) <= s.len(),
        i <= s.len() ==> i <= csi_stop(s, i),
        csi_stop(s, i) < s.len() ==> is_final_byte(s[csi_stop(s, i)]) || s[csi_stop(s, i)] == ESC,
    decreases s.len() - i,
{
    if i < s.len() && !is_final_byte(s[i]) && s[i] != ESC {
        lemma_csi_stop_bounds(s, i + 1);
    }
}

/// A lexeme takes at least one byte and no more than there are.
pub proof fn lemma_lex_bounds(s: Seq<u8>)
    requires
        s.len() > 0,
    ensures
        lex(s) matches Lexeme::Text { len } ==> 0 < len <= s.len(),
        lex(s) matches Lexeme::Sequence { intro, last } ==> intro == 2 && 2 <= last < s.len()
            && is_final_byte(s[last]),
{
    reveal(lex);
    lemma_string_end_bounds(s, 1, s[0] == OSC);
    lemma_string_end_bounds(s, 2, s[1] == OSC);
    lemma_string_end_bounds(s, 2, s[1] == COMMAND_BRACKET);
    lemma_csi_stop_bounds(s, 2);
}

} // verus!

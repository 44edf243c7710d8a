//! Dividing a terminal output stream into text, control strings and control
//! sequences.

use crate::grammar::{
    continues, csi_stop, encoded_len, introduces_c1_string, introduces_string, is_final_byte, lex,
    lex_escape, lex_sequence, string_end, Lexeme, BACKSLASH, BELL, C1_LEAD,
    COMMAND_BRACKET, CSI, ESC, OSC, SEQUENCE_BRACKET, ST,
};
use vstd::prelude::*;

verus! {

/// Whether the byte, behind an escape, introduces a control string.
pub fn starts_control_string(second_byte: u8) -> (r: bool)
    ensures
        r == introduces_string(second_byte),
{
    matches!(second_byte, 0x5d | 0x50 | 0x5f | 0x5e | 0x58)
}

/// Whether the C1 control introduces a control string.
pub fn starts_c1_control_string(byte: u8) -> (r: bool)
    ensures
        r == introduces_c1_string(byte),
{
    matches!(byte, 0x90 | 0x98 | 0x9d | 0x9e | 0x9f)
}

/// How much of a character stands at the head of a byte sequence.
pub enum Utf8SequenceLen {
    /// A character of this many bytes.
    Complete(usize),
    /// The first bytes of a character.
    Incomplete,
    /// No character.
    Invalid,
}

/// Tells how much of a character stands at the head of `bytes`, going by the
/// first byte and by whether those behind it are continuation bytes.
pub fn utf8_sequence_len(bytes: &[u8]) -> (r: Utf8SequenceLen)
    ensures
        match r {
            Utf8SequenceLen::Complete(len) => bytes@.len() > 0 && continues(bytes@) && len
                == encoded_len(bytes@[0]) && 0 < len <= bytes@.len(),
            Utf8SequenceLen::Incomplete => bytes@.len() > 0 && continues(bytes@) && encoded_len(
                bytes@[0],
            ) > bytes@.len(),
            Utf8SequenceLen::Invalid => bytes@.len() == 0 || encoded_len(bytes@[0]) == 0
                || !continues(bytes@),
        },
{
    if bytes.len() == 0 {
        return Utf8SequenceLen::Invalid;
    }
    let first: u8 = bytes[0];
    let expected: usize = if first <= 0x7f {
        1
    } else if first >= 0xc2 && first <= 0xdf {
        2
    } else if first >= 0xe0 && first <= 0xef {
        3
    } else if first >= 0xf0 && first <= 0xf4 {
        4
    } else {
        return Utf8SequenceLen::Invalid;
    };
    let mut k: usize = 1;
    while k < bytes.len() && k < expected
        invariant
            1 <= k <= expected,
            k <= bytes@.len(),
            expected == encoded_len(bytes@[0]),
            forall|j: int| 1 <= j < k ==> 0x80 <= #[trigger] bytes@[j] <= 0xbf,
        decreases expected - k,
    {
        if bytes[k] < 0x80 || bytes[k] > 0xbf {
            return Utf8SequenceLen::Invalid;
        }
        k = k + 1;
    }
    if bytes.len() < expected {
        Utf8SequenceLen::Incomplete
    } else {
        Utf8SequenceLen::Complete(expected)
    }
}

/// The position behind the first end of a control string at or behind `start`.
fn find_string_end(bytes: &[u8], start: usize, terminates_on_bel: bool) -> (r: Option<usize>)
    requires
        start <= bytes@.len(),
    ensures
        match r {
            Some(end) => string_end(bytes@, start as int, terminates_on_bel) == Some(end as int)
                && start < end <= bytes@.len(),
            None => string_end(bytes@, start as int, terminates_on_bel) is None,
        },
{
    let mut index: usize = start;
    while index < bytes.len()
        invariant
            start <= index <= bytes@.len(),
            string_end(bytes@, start as int, terminates_on_bel) == string_end(
                bytes@,
                index as int,
                terminates_on_bel,
            ),
        decreases bytes@.len() - index,
    {
        let byte: u8 = bytes[index];
        if byte == ST || (terminates_on_bel && byte == BELL) {
            return Some(index + 1);
        }
        if index + 1 < bytes.len() {
            let next: u8 = bytes[index + 1];
            if (byte == C1_LEAD && next == ST) || (byte == ESC && next == BACKSLASH) {
                return Some(index + 2);
            }
        }
        index = index + 1;
    }
    None
}

/// The length of the control string that `bytes` starts with, where an escape
/// introduces it and its end is there.
pub fn terminated_control_string_end(bytes: &[u8]) -> (r: Option<usize>)
    ensures
        match r {
            Some(end) => bytes@.len() >= 2 && bytes@[0] == ESC && introduces_string(bytes@[1])
                && string_end(bytes@, 2, bytes@[1] == COMMAND_BRACKET) == Some(end as int) && 0 < end
                <= bytes@.len(),
            None => bytes@.len() < 2 || bytes@[0] != ESC || !introduces_string(bytes@[1])
                || string_end(bytes@, 2, bytes@[1] == COMMAND_BRACKET) is None,
        },
{
    if bytes.len() < 2 || bytes[0] != ESC || !starts_control_string(bytes[1]) {
        return None;
    }
    find_string_end(bytes, 2, bytes[1] == COMMAND_BRACKET)
}

/// A C1 control in UTF-8 at the head of a byte sequence.
pub enum Utf8C1Token {
    /// The control and the length of its encoding.
    Complete { c1: u8, len: usize },
    /// The first byte of one, or of another character of two bytes.
    Incomplete,
    /// Something else.
    Absent,
}

/// Tells whether `bytes` starts with a C1 control in UTF-8.
pub fn utf8_c1_token(bytes: &[u8]) -> (r: Utf8C1Token)
    ensures
        match r {
            Utf8C1Token::Complete { c1, len } => bytes@.len() >= 2 && bytes@[0] == C1_LEAD && c1
                == bytes@[1] && 0x80 <= c1 <= 0x9f && len == 2,
            Utf8C1Token::Incomplete => bytes@ == seq![C1_LEAD],
            Utf8C1Token::Absent => bytes@.len() == 0 || bytes@[0] != C1_LEAD || (bytes@.len() >= 2
                && !(0x80 <= bytes@[1] <= 0x9f)),
        },
{
    if bytes.len() == 0 || bytes[0] != C1_LEAD {
        return Utf8C1Token::Absent;
    }
    if bytes.len() == 1 {
        assert(bytes@ =~= seq![C1_LEAD]);
        return Utf8C1Token::Incomplete;
    }
    let second: u8 = bytes[1];
    if second >= 0x80 && second <= 0x9f {
        Utf8C1Token::Complete { c1: second, len: 2 }
    } else {
        Utf8C1Token::Absent
    }
}

/// The length of the introducer of the control string that a C1 control at the
/// head of `s` introduces, as a bare byte or in UTF-8, and the control.
pub open spec fn c1_string_intro(s: Seq<u8>) -> Option<(int, u8)> {
    if s.len() >= 2 && s[0] == C1_LEAD && introduces_c1_string(s[1]) {
        Some((2, s[1]))
    } else if s.len() >= 1 && introduces_c1_string(s[0]) {
        Some((1, s[0]))
    } else {
        None
    }
}

/// The length of the control string that `bytes` starts with, where a C1 control
/// introduces it and its end is there.
pub fn terminated_c1_control_string_end(bytes: &[u8]) -> (r: Option<usize>)
    ensures
        match c1_string_intro(bytes@) {
            Some((intro, c1)) => match r {
                Some(end) => string_end(bytes@, intro, c1 == OSC) == Some(end as int) && 0 < end
                    <= bytes@.len(),
                None => string_end(bytes@, intro, c1 == OSC) is None,
            },
            None => r is None,
        },
{
    match utf8_c1_token(bytes) {
        Utf8C1Token::Complete { c1, len } => {
            if starts_c1_control_string(c1) {
                return find_string_end(bytes, len, c1 == OSC);
            }
            return None;
        },
        Utf8C1Token::Incomplete => {
            return None;
        },
        Utf8C1Token::Absent => {},
    }
    if bytes.len() > 0 && starts_c1_control_string(bytes[0]) {
        find_string_end(bytes, 1, bytes[0] == OSC)
    } else {
        None
    }
}

/// The position of the first byte at or behind `start` that ends a control
/// sequence or is an escape, or the length.
fn find_sequence_stop(bytes: &[u8], start: usize) -> (stop: usize)
    requires
        start <= bytes@.len(),
    ensures
        stop == csi_stop(bytes@, start as int),
        start <= stop <= bytes@.len(),
        stop < bytes@.len() ==> is_final_byte(bytes@[stop as int]) || bytes@[stop as int] == ESC,
{
    let mut end: usize = start;
    while end < bytes.len() && !(bytes[end] >= 0x40 && bytes[end] <= 0x7e) && bytes[end] != ESC
        invariant
            start <= end <= bytes@.len(),
            csi_stop(bytes@, start as int) == csi_stop(bytes@, end as int),
        decreases bytes@.len() - end,
    {
        end = end + 1;
    }
    end
}

/// What stands at the head of a stream.
pub enum Token {
    /// This many bytes go through unchanged.
    Text(usize),
    /// A whole control sequence: the length of its introducer and the position of
    /// its last byte.
    Sequence { intro: usize, last: usize },
    /// An escape, a control string or a control sequence that has not ended yet.
    Held,
    /// A character of which only the first bytes are there.
    Partial,
}

impl View for Token {
    type V = Lexeme;

    open spec fn view(&self) -> Lexeme {
        match *self {
            Token::Text(len) => Lexeme::Text { len: len as int },
            Token::Sequence { intro, last } => Lexeme::Sequence {
                intro: intro as int,
                last: last as int,
            },
            Token::Held => Lexeme::Held,
            Token::Partial => Lexeme::Partial,
        }
    }
}

/// A control sequence whose introducer is `intro` bytes long.
fn sequence_token(bytes: &[u8], intro: usize) -> (token: Token)
    requires
        intro <= bytes@.len(),
    ensures
        token@ == lex_sequence(bytes@, intro as int),
{
    let stop = find_sequence_stop(bytes, intro);
    if stop == bytes.len() {
        Token::Held
    } else if bytes[stop] == ESC {
        Token::Text(stop)
    } else {
        Token::Sequence { intro, last: stop }
    }
}

/// What stands at the head of a stream that starts with an escape.
fn escape_token(bytes: &[u8]) -> (token: Token)
    requires
        bytes@.len() > 0,
        bytes@[0] == ESC,
    ensures
        token@ == lex_escape(bytes@),
{
    if bytes.len() == 1 {
        return Token::Held;
    }
    if let Some(end) = terminated_control_string_end(bytes) {
        return Token::Text(end);
    }
    if starts_control_string(bytes[1]) {
        Token::Held
    } else if bytes[1] == SEQUENCE_BRACKET {
        sequence_token(bytes, 2)
    } else {
        Token::Text(1)
    }
}

/// Tells what stands at the head of a stream.
pub fn next_token(bytes: &[u8]) -> (token: Token)
    requires
        bytes@.len() > 0,
    ensures
        token@ == lex(bytes@),
{
    reveal(lex);
    if bytes[0] == ESC {
        return escape_token(bytes);
    }
    match utf8_c1_token(bytes) {
        Utf8C1Token::Complete { c1, len } => {
            if c1 == CSI {
                return sequence_token(bytes, len);
            }
            if !starts_c1_control_string(c1) {
                return Token::Text(len);
            }
            return match terminated_c1_control_string_end(bytes) {
                Some(end) => Token::Text(end),
                None => Token::Held,
            };
        },
        Utf8C1Token::Incomplete => {
            return Token::Partial;
        },
        Utf8C1Token::Absent => {},
    }
    match utf8_sequence_len(bytes) {
        Utf8SequenceLen::Complete(len) => {
            return Token::Text(len);
        },
        Utf8SequenceLen::Incomplete => {
            return Token::Partial;
        },
        Utf8SequenceLen::Invalid => {},
    }
    if let Some(end) = terminated_c1_control_string_end(bytes) {
        return Token::Text(end);
    }
    if starts_c1_control_string(bytes[0]) {
        Token::Held
    } else {
        Token::Text(1)
    }
}

} // verus!

//! What a key tells the recorded program.

use crate::console::KeyEventRecord;
use crate::dec_modes::{fields, joined, law_joined_divides, SEPARATOR};
use crate::keyboard::{
    is_textless, key_text, pending_after, repeated, surrogate_pair, win32_key,
};
use crate::numbers::{decimal, digits_value, lemma_decimal};
use vstd::prelude::*;
use vstd::utf8::{
    decode_utf8, encode_scalar, encode_utf8, encode_utf8_decode_utf8, encode_utf8_valid_utf8,
    valid_utf8,
};

verus! {

/// `text` that many times.
pub open spec fn copies(text: Seq<char>, count: nat) -> Seq<char> {
    Seq::new(count * text.len(), |i: int| text[i % text.len() as int])
}

/// Whether neither an alt key nor a control key was down.
pub open spec fn is_unmodified(key: KeyEventRecord) -> bool {
    key.control_key_state & 0x000f == 0
}

/// Whether the code unit stands for a character of its own.
pub open spec fn is_whole(unit: u16) -> bool {
    unit < 0xd800 || unit > 0xdfff
}

/// How the modifier keys stand in the state of the control keys.
proof fn lemma_modifiers(state: u32)
    by (bit_vector)
    ensures
        state & 0x000f == 0 <==> state & 1 == 0 && state & 2 == 0 && state & 4 == 0 && state & 8
            == 0,
        state & 0x0003 == 0 <==> state & 1 == 0 && state & 2 == 0,
        state & 0x000c == 0 <==> state & 4 == 0 && state & 8 == 0,
{
}

/// A text and another behind it are encoded one behind the other.
pub proof fn lemma_encode_joined(a: Seq<char>, b: Seq<char>)
    ensures
        encode_utf8(a + b) == encode_utf8(a) + encode_utf8(b),
    decreases a.len(),
{
    if a.len() == 0 {
        assert(a + b =~= b);
        assert(encode_utf8(a) + encode_utf8(b) =~= encode_utf8(b));
    } else {
        assert((a + b).drop_first() =~= a.drop_first() + b);
        lemma_encode_joined(a.drop_first(), b);
        assert(encode_utf8(a + b) =~= encode_utf8(a) + encode_utf8(b));
    }
}

/// Repeating the encoding of a text encodes the repeated text.
proof fn lemma_repeated_text(text: Seq<char>, count: nat)
    requires
        text.len() == 1 || text.len() == 2,
    ensures
        repeated(encode_utf8(text), count) == encode_utf8(copies(text, count)),
        valid_utf8(repeated(encode_utf8(text), count)),
        decode_utf8(repeated(encode_utf8(text), count)) == copies(text, count),
    decreases count,
{
    let all = copies(text, count);
    if count == 0 {
        assert(all =~= Seq::<char>::empty());
    } else {
        lemma_repeated_text(text, (count - 1) as nat);
        let init = copies(text, (count - 1) as nat);
        if text.len() == 1 {
            assert(all =~= init + text);
        } else {
            assert(all =~= init + text);
        }
        lemma_encode_joined(init, text);
    }
    encode_utf8_valid_utf8(all);
    encode_utf8_decode_utf8(all);
}

/// A character alone is encoded as such.
proof fn lemma_encode_one(c: char)
    ensures
        encode_utf8(seq![c]) == encode_scalar(c as u32),
{
    assert(seq![c].drop_first() =~= Seq::<char>::empty());
    assert(encode_utf8(seq![c].drop_first()) =~= Seq::<u8>::empty());
    assert(encode_utf8(seq![c]) =~= encode_scalar(c as u32));
}

/// An escape before a character is a byte of its own.
proof fn lemma_encode_escaped(c: char)
    ensures
        encode_utf8(seq!['\u{1b}', c]) == seq![0x1bu8] + encode_scalar(c as u32),
{
    let text = seq!['\u{1b}', c];
    assert(text.drop_first() =~= seq![c]);
    lemma_encode_one(c);
    assert(0x1bu32 & 0x7f == 0x1b) by (bit_vector);
    assert(encode_scalar(0x1b) =~= seq![0x1bu8]);
    assert(encode_utf8(text) =~= seq![0x1bu8] + encode_scalar(c as u32));
}

/// A key that is pressed without alt or control types its character: the text that it
/// sends, read as UTF-8, is the character that Windows reports for it, unchanged, as often
/// as the key was repeated. Whatever waited for the second half of a character is
/// forgotten.
pub proof fn law_key_types_its_character(pending: Option<u16>, key: KeyEventRecord)
    requires
        key.key_down,
        is_unmodified(key),
        key.unicode_char != 0,
        is_whole(key.unicode_char),
    ensures
        ({
            let typed = key_text(pending, key);
            &&& !is_textless(key)
            &&& valid_utf8(typed)
            &&& decode_utf8(typed) == copies(seq![key.unicode_char as char], key.repeat_count as nat)
            &&& pending_after(pending, key) is None
        }),
{
    lemma_modifiers(key.control_key_state);
    let c = key.unicode_char as char;
    lemma_encode_one(c);
    lemma_repeated_text(seq![c], key.repeat_count as nat);
}

/// Keys with different characters type different texts, and a key that is repeated more
/// often types more.
pub proof fn law_different_keys_type_different_text(
    pending: Option<u16>,
    key: KeyEventRecord,
    other: KeyEventRecord,
)
    requires
        key.key_down && other.key_down,
        is_unmodified(key) && is_unmodified(other),
        key.unicode_char != 0 && other.unicode_char != 0,
        is_whole(key.unicode_char) && is_whole(other.unicode_char),
        key.repeat_count > 0,
    ensures
        key_text(pending, key) == key_text(pending, other) <==> key.unicode_char
            == other.unicode_char && key.repeat_count == other.repeat_count,
{
    law_key_types_its_character(pending, key);
    law_key_types_its_character(pending, other);
    let mine = decode_utf8(key_text(pending, key));
    let others = decode_utf8(key_text(pending, other));
    assert(seq![key.unicode_char as char].len() == 1);
    assert(seq![other.unicode_char as char].len() == 1);
    assert(mine.len() == key.repeat_count);
    assert(others.len() == other.repeat_count);
    if mine == others {
        assert(mine[0] == key.unicode_char as char);
        assert(others[0] == other.unicode_char as char);
        assert((key.unicode_char as char) as u32 == key.unicode_char);
        assert((other.unicode_char as char) as u32 == other.unicode_char);
    }
    lemma_modifiers(key.control_key_state);
    lemma_modifiers(other.control_key_state);
}

/// Alt types an escape before the character, each time that the key is repeated; with a
/// control key it does so where the character is a control character.
pub proof fn law_alt_types_an_escape_first(pending: Option<u16>, key: KeyEventRecord)
    requires
        key.key_down,
        key.control_key_state & 0x0003 != 0,
        key.unicode_char != 0,
        is_whole(key.unicode_char),
        key.control_key_state & 0x000c != 0 ==> key.unicode_char < 0x20 || 0x7f <= key.unicode_char
            < 0xa0,
    ensures
        ({
            let typed = key_text(pending, key);
            &&& !is_textless(key)
            &&& valid_utf8(typed)
            &&& decode_utf8(typed) == copies(
                seq!['\u{1b}', key.unicode_char as char],
                key.repeat_count as nat,
            )
            &&& pending_after(pending, key) is None
        }),
{
    lemma_modifiers(key.control_key_state);
    let c = key.unicode_char as char;
    lemma_encode_escaped(c);
    lemma_repeated_text(seq!['\u{1b}', c], key.repeat_count as nat);
}

/// A control key types the control character that Windows reports, as often as the key
/// was repeated; where the character is no control character, the key stands for no text.
pub proof fn law_control_types_control_characters(pending: Option<u16>, key: KeyEventRecord)
    requires
        key.key_down,
        key.control_key_state & 0x000c != 0,
        key.unicode_char != 0,
    ensures
        ({
            let typed = key_text(pending, key);
            let control = key.unicode_char < 0x20 || 0x7f <= key.unicode_char < 0xa0;
            &&& is_textless(key) <==> !control
            &&& control && key.control_key_state & 0x0003 == 0 ==> valid_utf8(typed) && decode_utf8(
                typed,
            ) == copies(seq![key.unicode_char as char], key.repeat_count as nat)
            &&& pending_after(pending, key) is None
        }),
{
    lemma_modifiers(key.control_key_state);
    if is_whole(key.unicode_char) {
        let c = key.unicode_char as char;
        lemma_encode_one(c);
        lemma_repeated_text(seq![c], key.repeat_count as nat);
    }
}

/// Letting a key go, and a key without a character, stands for no text and leaves what
/// waits for its second half waiting. Half a character together with alt or control
/// stands for no text either, and nothing waits behind it.
pub proof fn law_keys_without_text(pending: Option<u16>, key: KeyEventRecord)
    ensures
        !key.key_down || key.unicode_char == 0 ==> is_textless(key) && pending_after(pending, key)
            == pending,
        key.key_down && key.unicode_char != 0 && !is_whole(key.unicode_char) && !is_unmodified(key)
            ==> is_textless(key) && pending_after(pending, key) is None,
        key.key_down && key.unicode_char != 0 && is_unmodified(key) ==> !is_textless(key),
{
    lemma_modifiers(key.control_key_state);
}

/// The two halves of a character, pressed one behind the other with nothing but keys
/// without text between them, type the character of which they are the UTF-16 encoding,
/// as often as the second was repeated.
pub proof fn law_halves_type_their_character(
    pending: Option<u16>,
    high: KeyEventRecord,
    between: KeyEventRecord,
    low: KeyEventRecord,
)
    requires
        high.key_down && low.key_down,
        is_unmodified(high) && is_unmodified(low),
        0xd800 <= high.unicode_char < 0xdc00,
        0xdc00 <= low.unicode_char < 0xe000,
        !between.key_down || between.unicode_char == 0,
    ensures
        ({
            let waiting = pending_after(pending, high);
            let typed = key_text(pending_after(waiting, between), low);
            let c = surrogate_pair(high.unicode_char, low.unicode_char);
            &&& waiting == Some(high.unicode_char)
            &&& key_text(pending, high) == Seq::<u8>::empty()
            &&& valid_utf8(typed)
            &&& decode_utf8(typed) == copies(seq![c as char], low.repeat_count as nat)
            &&& 0x10000 <= c <= 0x10ffff
            &&& 0xd800 + (c - 0x10000) / 0x400 == high.unicode_char
            &&& 0xdc00 + (c - 0x10000) % 0x400 == low.unicode_char
            &&& pending_after(pending_after(waiting, between), low) is None
        }),
{
    lemma_modifiers(high.control_key_state);
    lemma_modifiers(low.control_key_state);
    let c = surrogate_pair(high.unicode_char, low.unicode_char);
    lemma_encode_one(c as char);
    lemma_repeated_text(seq![c as char], low.repeat_count as nat);
}

/// The second half of a character without the first types nothing, and of two first
/// halves in a row the second counts.
pub proof fn law_half_a_character_types_nothing(pending: Option<u16>, key: KeyEventRecord)
    requires
        key.key_down,
        is_unmodified(key),
        !is_whole(key.unicode_char),
    ensures
        key.unicode_char >= 0xdc00 ==> key_text(None, key) == Seq::<u8>::empty() && pending_after(
            pending,
            key,
        ) is None,
        key.unicode_char < 0xdc00 ==> key_text(pending, key) == Seq::<u8>::empty() && pending_after(
            pending,
            key,
        ) == Some(key.unicode_char),
{
    lemma_modifiers(key.control_key_state);
}

/// In the win32 input mode a key reads back: between `ESC [` and `_` stand six numbers,
/// which are its virtual key code, its scan code, its code unit, whether it was pressed,
/// the state of the control keys and its repeat count.
pub proof fn law_win32_key_reads_back(key: KeyEventRecord)
    ensures
        ({
            let bytes = win32_key(key);
            let n = bytes.len() as int;
            let parts = fields(bytes.subrange(2, n - 1));
            &&& n >= 14
            &&& bytes[0] == 0x1b && bytes[1] == 0x5b && bytes[n - 1] == 0x5f
            &&& parts.len() == 6
            &&& parts[0] == decimal(key.virtual_key_code as nat)
            &&& parts[1] == decimal(key.virtual_scan_code as nat)
            &&& parts[2] == decimal(key.unicode_char as nat)
            &&& parts[4] == decimal(key.control_key_state as nat)
            &&& parts[5] == decimal(key.repeat_count as nat)
            &&& digits_value(parts[0]) == key.virtual_key_code
            &&& digits_value(parts[1]) == key.virtual_scan_code
            &&& digits_value(parts[2]) == key.unicode_char
            &&& parts[3] == seq![if key.key_down { 0x31u8 } else { 0x30u8 }]
            &&& digits_value(parts[4]) == key.control_key_state
            &&& digits_value(parts[5]) == key.repeat_count
        }),
{
    let bytes = win32_key(key);
    let n = bytes.len() as int;
    let parts = win32_parts(key);
    lemma_decimal(key.virtual_key_code as nat);
    lemma_decimal(key.virtual_scan_code as nat);
    lemma_decimal(key.unicode_char as nat);
    lemma_decimal(key.control_key_state as nat);
    lemma_decimal(key.repeat_count as nat);
    lemma_win32_parts(key);
    law_joined_divides(parts);
}

/// The six numbers of a key.
spec fn win32_parts(key: KeyEventRecord) -> Seq<Seq<u8>> {
    seq![
        decimal(key.virtual_key_code as nat),
        decimal(key.virtual_scan_code as nat),
        decimal(key.unicode_char as nat),
        seq![if key.key_down { 0x31u8 } else { 0x30u8 }],
        decimal(key.control_key_state as nat),
        decimal(key.repeat_count as nat),
    ]
}

/// A key in the win32 input mode is its six numbers, joined.
proof fn lemma_win32_parts(key: KeyEventRecord)
    ensures
        ({
            let bytes = win32_key(key);
            bytes.subrange(2, bytes.len() - 1) == joined(win32_parts(key))
        }),
{
    let bytes = win32_key(key);
    let p = win32_parts(key);
    let sep = SEPARATOR;
    assert(p.take(1) =~= seq![p[0]]);
    assert(joined(p.take(1)) == p[0]);
    assert(p.take(2).drop_last() =~= p.take(1));
    assert(p.take(3).drop_last() =~= p.take(2));
    assert(p.take(4).drop_last() =~= p.take(3));
    assert(p.take(5).drop_last() =~= p.take(4));
    assert(p.drop_last() =~= p.take(5));
    assert(joined(p.take(2)) == p[0].push(sep) + p[1]);
    assert(joined(p.take(3)) == joined(p.take(2)).push(sep) + p[2]);
    assert(joined(p.take(4)) == joined(p.take(3)).push(sep) + p[3]);
    assert(joined(p.take(5)) == joined(p.take(4)).push(sep) + p[4]);
    assert(joined(p) == joined(p.take(5)).push(sep) + p[5]);
    assert(bytes.subrange(2, bytes.len() - 1) =~= joined(p));
}

} // verus!

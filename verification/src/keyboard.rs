//! What keys send to the recorded program.

use crate::bytes::append_bytes;
use crate::numbers::{append_decimal, decimal};
use crate::console::{
    KeyEventRecord, LEFT_ALT_PRESSED, LEFT_CTRL_PRESSED, RIGHT_ALT_PRESSED, RIGHT_CTRL_PRESSED,
};
use crate::utf8::append_scalar;
use vstd::prelude::*;
use vstd::utf8::{encode_scalar, is_scalar};

verus! {

/// Whether an alt key was down.
pub open spec fn has_alt(control_key_state: u32) -> bool {
    control_key_state & LEFT_ALT_PRESSED != 0 || control_key_state & RIGHT_ALT_PRESSED != 0
}

/// Whether a control key was down.
pub open spec fn has_ctrl(control_key_state: u32) -> bool {
    control_key_state & LEFT_CTRL_PRESSED != 0 || control_key_state & RIGHT_CTRL_PRESSED != 0
}

/// Whether the code unit is the first half of a surrogate pair.
pub open spec fn is_high_surrogate(unit: u16) -> bool {
    0xd800 <= unit <= 0xdbff
}

/// Whether the code unit is the second half of a surrogate pair.
pub open spec fn is_low_surrogate(unit: u16) -> bool {
    0xdc00 <= unit <= 0xdfff
}

/// A code unit that is the first half of a surrogate pair.
#[derive(Debug, Clone, Copy)]
pub struct HighSurrogate {
    unit: u16,
}

impl View for HighSurrogate {
    type V = u16;

    closed spec fn view(&self) -> u16 {
        self.unit
    }
}

impl HighSurrogate {
    #[verifier::type_invariant]
    spec fn is_first_half(self) -> bool {
        is_high_surrogate(self.unit)
    }
}

/// The code unit that waits for the second half of its surrogate pair, if one does.
pub open spec fn pending_unit(pending: Option<HighSurrogate>) -> Option<u16> {
    match pending {
        Some(high) => Some(high@),
        None => None,
    }
}

/// The character that a surrogate pair stands for.
pub open spec fn surrogate_pair(high: u16, low: u16) -> u32 {
    (0x10000 + (high - 0xd800) * 0x400 + (low - 0xdc00)) as u32
}

/// Whether the code unit is a control character.
pub open spec fn is_control(unit: u16) -> bool {
    unit <= 0x1f || 0x7f <= unit <= 0x9f
}

/// `s` that many times.
pub open spec fn repeated(s: Seq<u8>, count: nat) -> Seq<u8>
    decreases count,
{
    if count == 0 {
        Seq::empty()
    } else {
        repeated(s, (count - 1) as nat) + s
    }
}

/// Whether the key stands for no text: it was released, it has no character, or it
/// was pressed together with a modifier that leaves none.
pub open spec fn is_textless(key: KeyEventRecord) -> bool {
    let unit = key.unicode_char;
    let modified = has_alt(key.control_key_state) || has_ctrl(key.control_key_state);
    ||| !key.key_down
    ||| unit == 0
    ||| modified && (is_high_surrogate(unit) || is_low_surrogate(unit))
    ||| has_ctrl(key.control_key_state) && !is_control(unit)
}

/// The first half of a surrogate pair that waits for the second behind the key.
pub open spec fn pending_after(pending: Option<u16>, key: KeyEventRecord) -> Option<u16> {
    let modified = has_alt(key.control_key_state) || has_ctrl(key.control_key_state);
    if !key.key_down || key.unicode_char == 0 {
        pending
    } else if !modified && is_high_surrogate(key.unicode_char) {
        Some(key.unicode_char)
    } else {
        None
    }
}

/// The character of a key, in UTF-8, as often as it was repeated. Alt puts an escape
/// before it. Half a surrogate pair sends nothing; its second half sends the whole
/// character, if `pending` holds the first.
pub open spec fn key_text(pending: Option<u16>, key: KeyEventRecord) -> Seq<u8> {
    let unit = key.unicode_char;
    let count = key.repeat_count as nat;
    if has_alt(key.control_key_state) {
        repeated(seq![0x1bu8] + encode_scalar(unit as u32), count)
    } else if has_ctrl(key.control_key_state) {
        repeated(encode_scalar(unit as u32), count)
    } else if is_high_surrogate(unit) {
        Seq::empty()
    } else if is_low_surrogate(unit) {
        match pending {
            Some(high) => repeated(encode_scalar(surrogate_pair(high, unit)), count),
            None => Seq::empty(),
        }
    } else {
        repeated(encode_scalar(unit as u32), count)
    }
}

/// A key in the win32 input mode: `ESC [`, then the six numbers that describe it with
/// semicolons between them, then `_`.
pub open spec fn win32_key(key: KeyEventRecord) -> Seq<u8> {
    seq![0x1bu8, 0x5bu8] + decimal(key.virtual_key_code as nat) + seq![0x3bu8] + decimal(
        key.virtual_scan_code as nat,
    ) + seq![0x3bu8] + decimal(key.unicode_char as nat) + seq![
        0x3bu8,
        if key.key_down {
            0x31u8
        } else {
            0x30u8
        },
        0x3bu8,
    ] + decimal(key.control_key_state as nat) + seq![0x3bu8] + decimal(key.repeat_count as nat)
        + seq![0x5fu8]
}

/// Whether an alt key was down.
pub fn alt_pressed(control_key_state: u32) -> (r: bool)
    ensures
        r == has_alt(control_key_state),
{
    control_key_state & LEFT_ALT_PRESSED != 0 || control_key_state & RIGHT_ALT_PRESSED != 0
}

/// Whether a control key was down.
pub fn ctrl_pressed(control_key_state: u32) -> (r: bool)
    ensures
        r == has_ctrl(control_key_state),
{
    control_key_state & LEFT_CTRL_PRESSED != 0 || control_key_state & RIGHT_CTRL_PRESSED != 0
}

/// `bytes` that many times.
fn repeat(bytes: &Vec<u8>, count: u16) -> (r: Vec<u8>)
    ensures
        r@ == repeated(bytes@, count as nat),
{
    let mut out: Vec<u8> = Vec::new();
    let mut i: u16 = 0;
    while i < count
        invariant
            i <= count,
            out@ == repeated(bytes@, i as nat),
        decreases count - i,
    {
        append_bytes(&mut out, bytes.as_slice());
        i = i + 1;
    }
    out
}

/// A character, behind an escape where `escaped`, that many times.
fn repeated_scalar(escaped: bool, scalar: u32, count: u16) -> (r: Vec<u8>)
    requires
        is_scalar(scalar),
    ensures
        escaped ==> r@ == repeated(seq![0x1bu8] + encode_scalar(scalar), count as nat),
        !escaped ==> r@ == repeated(encode_scalar(scalar), count as nat),
{
    let mut one: Vec<u8> = Vec::new();
    if escaped {
        one.push(0x1b);
    }
    append_scalar(&mut one, scalar);
    proof {
        if escaped {
            assert(one@ =~= seq![0x1bu8] + encode_scalar(scalar));
        } else {
            assert(one@ =~= encode_scalar(scalar));
        }
    }
    repeat(&one, count)
}

/// The text that a key sends, or `None` if it stands for none. `pending` is the
/// first half of a surrogate pair that waits for the second.
pub fn plain_text(pending: &mut Option<HighSurrogate>, key: &KeyEventRecord) -> (r: Option<
    Vec<u8>,
>)
    ensures
        pending_unit(*final(pending)) == pending_after(pending_unit(*old(pending)), *key),
        match r {
            Some(text) => !is_textless(*key) && text@ == key_text(
                pending_unit(*old(pending)),
                *key,
            ),
            None => is_textless(*key),
        },
{
    let unit: u16 = key.unicode_char;
    if !key.key_down || unit == 0 {
        return None;
    }
    let alt = alt_pressed(key.control_key_state);
    let ctrl = ctrl_pressed(key.control_key_state);
    if alt || ctrl {
        *pending = None;
        if unit >= 0xd800 && unit <= 0xdfff {
            return None;
        }
        if ctrl && !(unit <= 0x1f || (unit >= 0x7f && unit <= 0x9f)) {
            return None;
        }
        return Some(repeated_scalar(alt, unit as u32, key.repeat_count));
    }
    if unit >= 0xd800 && unit <= 0xdbff {
        *pending = Some(HighSurrogate { unit });
        return Some(Vec::new());
    }
    if unit >= 0xdc00 && unit <= 0xdfff {
        let high = *pending;
        *pending = None;
        return match high {
            Some(high) => {
                proof {
                    use_type_invariant(&high);
                }
                let scalar: u32 = 0x10000 + (high.unit as u32 - 0xd800) * 0x400 + (unit as u32
                    - 0xdc00);
                Some(repeated_scalar(false, scalar, key.repeat_count))
            },
            None => Some(Vec::new()),
        };
    }
    *pending = None;
    Some(repeated_scalar(false, unit as u32, key.repeat_count))
}

/// Whether the key stands for no text.
pub fn textless(key: &KeyEventRecord) -> (r: bool)
    ensures
        r == is_textless(*key),
{
    let mut pending: Option<HighSurrogate> = None;
    plain_text(&mut pending, key).is_none()
}

/// A key in the win32 input mode.
pub fn encode_win32_key(key: &KeyEventRecord) -> (r: Vec<u8>)
    ensures
        r@ == win32_key(*key),
{
    let mut out: Vec<u8> = vec![0x1b, 0x5b];
    append_decimal(&mut out, key.virtual_key_code as u32);
    out.push(0x3b);
    append_decimal(&mut out, key.virtual_scan_code as u32);
    out.push(0x3b);
    append_decimal(&mut out, key.unicode_char as u32);
    out.push(0x3b);
    out.push(if key.key_down { 0x31 } else { 0x30 });
    out.push(0x3b);
    append_decimal(&mut out, key.control_key_state);
    out.push(0x3b);
    append_decimal(&mut out, key.repeat_count as u32);
    out.push(0x5f);
    assert(out@ =~= win32_key(*key));
    out
}

/// Two halves of a surrogate pair, pressed one after the other, send the character
/// that they stand for and leave nothing waiting.
pub proof fn law_surrogate_pair_sends_its_character(
    pending: Option<u16>,
    high: KeyEventRecord,
    low: KeyEventRecord,
)
    requires
        high.key_down && low.key_down,
        !has_alt(high.control_key_state) && !has_ctrl(high.control_key_state),
        !has_alt(low.control_key_state) && !has_ctrl(low.control_key_state),
        is_high_surrogate(high.unicode_char) && is_low_surrogate(low.unicode_char),
    ensures
        ({
            let between = pending_after(pending, high);
            let scalar = surrogate_pair(high.unicode_char, low.unicode_char);
            &&& !is_textless(high) && !is_textless(low)
            &&& is_scalar(scalar) && scalar >= 0x10000
            &&& key_text(pending, high) + key_text(between, low) == repeated(
                encode_scalar(scalar),
                low.repeat_count as nat,
            )
            &&& pending_after(between, low) is None
        }),
{
    let between = pending_after(pending, high);
    assert(key_text(pending, high) + key_text(between, low) =~= key_text(between, low));
}

} // verus!

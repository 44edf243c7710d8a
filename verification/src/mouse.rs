//! What the mouse sends to the recorded program.

use crate::keyboard::{alt_pressed, ctrl_pressed, has_alt, has_ctrl};
use crate::modes::{InnerInputState, MouseTrackingMode};
use crate::numbers::{append_decimal, append_signed_decimal, decimal, signed_decimal};
use crate::console::{
    MouseEventRecord, FROM_LEFT_1ST_BUTTON_PRESSED, FROM_LEFT_2ND_BUTTON_PRESSED, MOUSE_HWHEELED,
    MOUSE_MOVED, MOUSE_WHEELED, RIGHTMOST_BUTTON_PRESSED, SHIFT_PRESSED,
};
use vstd::prelude::*;

verus! {

/// The buttons that are reported: the left, the right and the middle one.
pub const PHYSICAL_BUTTONS: u32 = 0x0007;

/// The reported buttons among those that the record shows as pressed.
pub open spec fn physical_buttons(mouse: MouseEventRecord) -> u32 {
    mouse.button_state & PHYSICAL_BUTTONS
}

pub open spec fn is_move(mouse: MouseEventRecord) -> bool {
    mouse.event_flags & MOUSE_MOVED != 0
}

pub open spec fn is_wheel(mouse: MouseEventRecord) -> bool {
    mouse.event_flags & MOUSE_WHEELED != 0
}

pub open spec fn is_horizontal_wheel(mouse: MouseEventRecord) -> bool {
    mouse.event_flags & MOUSE_HWHEELED != 0
}

/// Whether a wheel was turned forward, or to the right: the high half of the button
/// state is a positive number of sixteen bits.
pub open spec fn turned_forward(mouse: MouseEventRecord) -> bool {
    0 < mouse.button_state / 0x10000 < 0x8000
}

/// Whether the record is about buttons or wheels, where the buttons `last` were
/// pressed before.
pub open spec fn is_button_event(last: u32, mouse: MouseEventRecord) -> bool {
    physical_buttons(mouse) != 0 || last != 0 || is_wheel(mouse) || is_horizontal_wheel(mouse)
}

/// Whether the program is told of the record.
pub open spec fn is_reported(last: u32, mouse: MouseEventRecord, tracking: MouseTrackingMode) -> bool {
    match tracking {
        MouseTrackingMode::Off => false,
        MouseTrackingMode::Default => !is_move(mouse) && is_button_event(last, mouse),
        MouseTrackingMode::ButtonEvent => (!is_move(mouse) && is_button_event(last, mouse))
            || physical_buttons(mouse) != 0,
        MouseTrackingMode::AnyEvent => is_move(mouse) || is_button_event(last, mouse),
    }
}

/// The code of the first of the buttons that is pressed, 3 if none is.
pub open spec fn button_code(buttons: u32) -> nat {
    if buttons & FROM_LEFT_1ST_BUTTON_PRESSED != 0 {
        0
    } else if buttons & FROM_LEFT_2ND_BUTTON_PRESSED != 0 {
        1
    } else if buttons & RIGHTMOST_BUTTON_PRESSED != 0 {
        2
    } else {
        3
    }
}

/// What the record is about, as a code: the wheels come before the buttons, and a
/// release is about the buttons that were pressed before.
pub open spec fn base_code(last: u32, mouse: MouseEventRecord) -> nat {
    if is_wheel(mouse) {
        if turned_forward(mouse) {
            64
        } else {
            65
        }
    } else if is_horizontal_wheel(mouse) {
        if turned_forward(mouse) {
            66
        } else {
            67
        }
    } else if is_move(mouse) && physical_buttons(mouse) == 0 {
        3
    } else if mouse.button_state != 0 {
        button_code(mouse.button_state)
    } else {
        button_code(last)
    }
}

/// What is added to the code for a motion and for modifier keys.
pub open spec fn modifier_code(mouse: MouseEventRecord) -> nat {
    let motion: nat = if is_move(mouse) {
        32
    } else {
        0
    };
    let shift: nat = if mouse.control_key_state & SHIFT_PRESSED != 0 {
        4
    } else {
        0
    };
    let alt: nat = if has_alt(mouse.control_key_state) {
        8
    } else {
        0
    };
    let ctrl: nat = if has_ctrl(mouse.control_key_state) {
        16
    } else {
        0
    };
    motion + shift + alt + ctrl
}

/// Whether the record is the release of the buttons `last`.
pub open spec fn is_release(last: u32, mouse: MouseEventRecord) -> bool {
    !is_move(mouse) && !is_wheel(mouse) && !is_horizontal_wheel(mouse) && mouse.button_state == 0
        && last != 0
}

/// A record in the SGR encoding: `ESC [ <`, then the code, the column and the row with
/// semicolons between them, counted from 1, then `M`, or `m` for a release.
pub open spec fn sgr_mouse(last: u32, mouse: MouseEventRecord) -> Seq<u8> {
    seq![0x1bu8, 0x5bu8, 0x3cu8] + decimal(base_code(last, mouse) + modifier_code(mouse)) + seq![
        0x3bu8,
    ] + signed_decimal(mouse.x + 1) + seq![0x3bu8] + signed_decimal(mouse.y + 1) + seq![
        if is_release(last, mouse) {
            0x6du8
        } else {
            0x4du8
        },
    ]
}

/// A record in the legacy encoding: `ESC [ M`, then the code, the column and the row as
/// one byte each, from 32 on. Every release has the code 3. There are no bytes for
/// columns and rows beyond 223.
pub open spec fn legacy_mouse(last: u32, mouse: MouseEventRecord) -> Option<Seq<u8>> {
    let code = if is_release(last, mouse) {
        3
    } else {
        base_code(last, mouse)
    } + modifier_code(mouse);
    if 1 <= mouse.x + 1 <= 223 && 1 <= mouse.y + 1 <= 223 {
        Some(
            seq![
                0x1bu8,
                0x5bu8,
                0x4du8,
                (32 + code) as u8,
                (32 + mouse.x + 1) as u8,
                (32 + mouse.y + 1) as u8,
            ],
        )
    } else {
        None
    }
}

/// What is sent to the program for the record, where the buttons `last` were pressed
/// before.
pub open spec fn mouse_bytes(
    last: u32,
    mouse: MouseEventRecord,
    state: InnerInputState,
) -> Option<Seq<u8>> {
    if !is_reported(last, mouse, state.mouse_tracking) {
        None
    } else if state.sgr_mouse {
        Some(sgr_mouse(last, mouse))
    } else {
        legacy_mouse(last, mouse)
    }
}

/// The buttons that count as pressed behind the record. Without tracking none do.
pub open spec fn buttons_after(mouse: MouseEventRecord, state: InnerInputState) -> u32 {
    if state.mouse_tracking == MouseTrackingMode::Off {
        0
    } else {
        physical_buttons(mouse)
    }
}

/// Whether the record can be encoded: the SGR encoding adds 1 to its coordinates.
pub open spec fn mouse_encodable(last: u32, mouse: MouseEventRecord, state: InnerInputState) -> bool {
    is_reported(last, mouse, state.mouse_tracking) && state.sgr_mouse ==> mouse.x < i16::MAX
        && mouse.y < i16::MAX
}

/// The code of the first of the buttons that is pressed.
fn first_button(buttons: u32) -> (code: u32)
    ensures
        code == button_code(buttons),
        code <= 3,
{
    if buttons & FROM_LEFT_1ST_BUTTON_PRESSED != 0 {
        0
    } else if buttons & FROM_LEFT_2ND_BUTTON_PRESSED != 0 {
        1
    } else if buttons & RIGHTMOST_BUTTON_PRESSED != 0 {
        2
    } else {
        3
    }
}

/// Whether a wheel was turned forward.
fn wheel_delta_is_positive(button_state: u32) -> (r: bool)
    ensures
        r == (0 < button_state / 0x10000 < 0x8000),
{
    let delta: u32 = button_state >> 16;
    assert(button_state >> 16 == button_state / 0x10000) by (bit_vector);
    delta > 0 && delta < 0x8000
}

/// What the record is about, as a code.
fn event_code(last: u32, mouse: &MouseEventRecord) -> (code: u32)
    ensures
        code == base_code(last, *mouse),
        code <= 67,
{
    if mouse.event_flags & MOUSE_WHEELED != 0 {
        if wheel_delta_is_positive(mouse.button_state) {
            64
        } else {
            65
        }
    } else if mouse.event_flags & MOUSE_HWHEELED != 0 {
        if wheel_delta_is_positive(mouse.button_state) {
            66
        } else {
            67
        }
    } else if mouse.event_flags & MOUSE_MOVED != 0 && mouse.button_state & PHYSICAL_BUTTONS == 0 {
        3
    } else if mouse.button_state != 0 {
        first_button(mouse.button_state)
    } else {
        first_button(last)
    }
}

/// What is added to the code for a motion and for modifier keys.
fn motion_and_modifiers(mouse: &MouseEventRecord) -> (code: u32)
    ensures
        code == modifier_code(*mouse),
        code <= 60,
{
    let mut code: u32 = 0;
    if mouse.event_flags & MOUSE_MOVED != 0 {
        code = code + 32;
    }
    if mouse.control_key_state & SHIFT_PRESSED != 0 {
        code = code + 4;
    }
    if alt_pressed(mouse.control_key_state) {
        code = code + 8;
    }
    if ctrl_pressed(mouse.control_key_state) {
        code = code + 16;
    }
    code
}

/// Whether the program is told of the record.
fn should_send(last: u32, mouse: &MouseEventRecord, tracking: MouseTrackingMode) -> (r: bool)
    ensures
        r == is_reported(last, *mouse, tracking),
{
    let moved = mouse.event_flags & MOUSE_MOVED != 0;
    let pressed = mouse.button_state & PHYSICAL_BUTTONS != 0;
    let button_event = pressed || last != 0 || mouse.event_flags & MOUSE_WHEELED != 0
        || mouse.event_flags & MOUSE_HWHEELED != 0;
    match tracking {
        MouseTrackingMode::Off => false,
        MouseTrackingMode::Default => !moved && button_event,
        MouseTrackingMode::ButtonEvent => (!moved && button_event) || pressed,
        MouseTrackingMode::AnyEvent => moved || button_event,
    }
}

/// Tells whether the record can be encoded, where the buttons `last` were pressed
/// before.
pub fn can_encode_mouse(last: u32, mouse: &MouseEventRecord, state: &InnerInputState) -> (r: bool)
    ensures
        r == mouse_encodable(last, *mouse, *state),
{
    !should_send(last, mouse, state.mouse_tracking) || !state.sgr_mouse || (mouse.x < i16::MAX
        && mouse.y < i16::MAX)
}

/// The buttons that count as pressed behind the record.
pub fn pressed_after(mouse: &MouseEventRecord, state: &InnerInputState) -> (buttons: u32)
    ensures
        buttons == buttons_after(*mouse, *state),
{
    match state.mouse_tracking {
        MouseTrackingMode::Off => 0,
        _ => mouse.button_state & PHYSICAL_BUTTONS,
    }
}

/// What is sent to the program for the record. `last` holds the buttons that were
/// pressed before, and then those that are pressed now.
pub fn encode(last: &mut u32, mouse: &MouseEventRecord, state: &InnerInputState) -> (r: Option<
    Vec<u8>,
>)
    requires
        mouse_encodable(*old(last), *mouse, *state),
    ensures
        *final(last) == buttons_after(*mouse, *state),
        match r {
            Some(bytes) => mouse_bytes(*old(last), *mouse, *state) == Some(bytes@),
            None => mouse_bytes(*old(last), *mouse, *state) is None,
        },
{
    if state.mouse_tracking == MouseTrackingMode::Off {
        *last = 0;
        return None;
    }
    let before: u32 = *last;
    *last = mouse.button_state & PHYSICAL_BUTTONS;
    if !should_send(before, mouse, state.mouse_tracking) {
        return None;
    }
    let modifiers = motion_and_modifiers(mouse);
    let code = event_code(before, mouse);
    let release = mouse.event_flags & MOUSE_MOVED == 0 && mouse.event_flags & MOUSE_WHEELED == 0
        && mouse.event_flags & MOUSE_HWHEELED == 0 && mouse.button_state == 0 && before != 0;
    let col: i32 = mouse.x as i32 + 1;
    let row: i32 = mouse.y as i32 + 1;
    if state.sgr_mouse {
        let mut out: Vec<u8> = vec![0x1b, 0x5b, 0x3c];
        append_decimal(&mut out, code + modifiers);
        out.push(0x3b);
        append_signed_decimal(&mut out, col);
        out.push(0x3b);
        append_signed_decimal(&mut out, row);
        out.push(if release { 0x6d } else { 0x4d });
        assert(out@ =~= sgr_mouse(before, *mouse));
        Some(out)
    } else {
        if col < 1 || col > 223 || row < 1 || row > 223 {
            return None;
        }
        let code: u32 = if release {
            3 + modifiers
        } else {
            code + modifiers
        };
        let out: Vec<u8> = vec![
            0x1b,
            0x5b,
            0x4d,
            (32 + code) as u8,
            (32 + col) as u8,
            (32 + row) as u8,
        ];
        assert(out@ =~= legacy_mouse(before, *mouse).unwrap());
        Some(out)
    }
}

/// Pressing a button and releasing it reports the same button in the SGR encoding,
/// the first time as a press and the second as a release, whatever modifier keys
/// are down.
pub proof fn law_release_names_the_pressed_button(
    last: u32,
    press: MouseEventRecord,
    release: MouseEventRecord,
    state: InnerInputState,
)
    requires
        state.mouse_tracking != MouseTrackingMode::Off,
        !is_move(press) && !is_wheel(press) && !is_horizontal_wheel(press),
        !is_move(release) && !is_wheel(release) && !is_horizontal_wheel(release),
        physical_buttons(press) != 0,
        release.button_state == 0,
    ensures
        ({
            let held = buttons_after(press, state);
            &&& is_reported(last, press, state.mouse_tracking) && !is_release(last, press)
            &&& is_reported(held, release, state.mouse_tracking) && is_release(held, release)
            &&& base_code(last, press) == base_code(held, release)
            &&& buttons_after(release, state) == 0
        }),
{
    let b = press.button_state;
    assert(b & 7 != 0 ==> b != 0) by (bit_vector);
    assert((b & 7) & 1 == b & 1) by (bit_vector);
    assert((b & 7) & 4 == b & 4) by (bit_vector);
    assert((b & 7) & 2 == b & 2) by (bit_vector);
    assert(0u32 & 7 == 0) by (bit_vector);
}

/// Once tracking was off for a record, a later record without buttons is no release
/// of the buttons that were pressed before.
pub proof fn law_no_release_across_tracking_off(
    mouse: MouseEventRecord,
    later: MouseEventRecord,
    off: InnerInputState,
)
    requires
        off.mouse_tracking == MouseTrackingMode::Off,
    ensures
        buttons_after(mouse, off) == 0,
        !is_release(buttons_after(mouse, off), later),
{
}

/// Turning a wheel without a button leaves nothing to be released.
pub proof fn law_wheels_are_not_buttons(
    wheel: MouseEventRecord,
    later: MouseEventRecord,
    state: InnerInputState,
)
    requires
        physical_buttons(wheel) == 0,
    ensures
        !is_release(buttons_after(wheel, state), later),
{
}

/// The buttons that count as pressed are always reported ones.
pub proof fn law_only_physical_buttons_count(mouse: MouseEventRecord, state: InnerInputState)
    ensures
        buttons_after(mouse, state) <= PHYSICAL_BUTTONS,
{
    let b = mouse.button_state;
    assert(b & 7 <= 7) by (bit_vector);
}

/// A button that is not reported sends nothing on its own, and leaves nothing to be
/// released.
pub proof fn law_other_buttons_are_ignored(mouse: MouseEventRecord, state: InnerInputState)
    requires
        physical_buttons(mouse) == 0,
        !is_move(mouse) && !is_wheel(mouse) && !is_horizontal_wheel(mouse),
    ensures
        mouse_bytes(0, mouse, state) is None,
        buttons_after(mouse, state) == 0,
{
}

/// Nothing is cut off in the legacy encoding: the code, the column and the row can be
/// read back from its bytes.
pub proof fn law_legacy_bytes_read_back(last: u32, mouse: MouseEventRecord)
    requires
        legacy_mouse(last, mouse) is Some,
    ensures
        ({
            let bytes = legacy_mouse(last, mouse).unwrap();
            let code = if is_release(last, mouse) {
                3
            } else {
                base_code(last, mouse)
            } + modifier_code(mouse);
            &&& bytes.len() == 6
            &&& bytes[3] - 32 == code
            &&& bytes[4] - 33 == mouse.x
            &&& bytes[5] - 33 == mouse.y
        }),
{
}

} // verus!

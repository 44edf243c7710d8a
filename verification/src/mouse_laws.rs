//! What a report of the mouse tells the recorded program.

use crate::console::MouseEventRecord;
use crate::dec_modes::{fields, joined, law_joined_divides, SEPARATOR};
use crate::modes::{InnerInputState, MouseTrackingMode};
use crate::mouse::{
    base_code, buttons_after, is_release, is_reported, legacy_mouse, modifier_code, mouse_bytes,
    mouse_encodable, sgr_mouse,
};
use crate::numbers::{decimal, lemma_decimal, lemma_signed_decimal, signed_decimal};
use vstd::prelude::*;

verus! {

/// How the three reported buttons stand in a button state.
proof fn lemma_buttons(b: u32)
    by (bit_vector)
    ensures
        b & 7 == 0 <==> b & 1 == 0 && b & 2 == 0 && b & 4 == 0,
        b & 7 == 1 ==> b & 1 != 0,
        b & 7 == 2 ==> b & 1 == 0 && b & 4 == 0 && b & 2 != 0,
        b & 7 == 4 ==> b & 1 == 0 && b & 4 != 0,
        (b & 7) & 1 == b & 1,
        (b & 7) & 2 == b & 2,
        (b & 7) & 4 == b & 4,
        (b & 7) & 7 == b & 7,
        b & 7 <= 7,
        0u32 & 1 == 0,
        0u32 & 2 == 0,
        0u32 & 4 == 0,
        0u32 & 7 == 0,
        b & 3 != 0 <==> b & 1 != 0 || b & 2 != 0,
        b & 12 != 0 <==> b & 4 != 0 || b & 8 != 0,
        b >> 16 == b / 0x10000,
{
}

/// Moving the mouse while a button is held names the button that was pressed: the report
/// of the motion has the button's code of the report of the press, as a motion, and it
/// is no release. The code is 0 for the left button, 1 for the middle and 2 for the right
/// one.
pub proof fn law_motion_names_the_held_button(
    last: u32,
    press: MouseEventRecord,
    motion: MouseEventRecord,
    state: InnerInputState,
)
    requires
        state.mouse_tracking != MouseTrackingMode::Off,
        press.event_flags & 1 == 0 && press.event_flags & 4 == 0 && press.event_flags & 8 == 0,
        motion.event_flags & 1 != 0 && motion.event_flags & 4 == 0 && motion.event_flags & 8 == 0,
        press.button_state & 7 != 0,
        motion.button_state == press.button_state,
    ensures
        ({
            let held = buttons_after(press, state);
            &&& base_code(held, motion) == base_code(last, press)
            &&& press.button_state & 7 == 1 ==> base_code(held, motion) == 0
            &&& press.button_state & 7 == 4 ==> base_code(held, motion) == 1
            &&& press.button_state & 7 == 2 ==> base_code(held, motion) == 2
            &&& motion.control_key_state == press.control_key_state ==> modifier_code(motion)
                == modifier_code(press) + 32
            &&& is_reported(held, motion, state.mouse_tracking) <==> state.mouse_tracking
                != MouseTrackingMode::Default
            &&& !is_release(held, motion)
            &&& buttons_after(motion, state) == held
        }),
{
    lemma_buttons(press.button_state);
}

/// Which button a report names, for every record: 64 to 67 are the wheels, forward and
/// backward, then right and left; 3 is a motion without a button; and else the left
/// button comes before the middle one and that before the right one, among those that
/// are pressed, or, where none is, among those that were pressed before.
pub proof fn law_button_of_a_report(last: u32, mouse: MouseEventRecord)
    ensures
        ({
            let code = base_code(last, mouse);
            let wheel = mouse.event_flags & 4 != 0;
            let sideways = mouse.event_flags & 8 != 0 && !wheel;
            let moved = mouse.event_flags & 1 != 0;
            let delta = mouse.button_state >> 16;
            let forward = delta != 0 && delta <= 0x7fff;
            let hover = moved && mouse.button_state & 7 == 0;
            let asked = if mouse.button_state != 0 {
                mouse.button_state
            } else {
                last
            };
            &&& code == 64 <==> wheel && forward
            &&& code == 65 <==> wheel && !forward
            &&& code == 66 <==> sideways && forward
            &&& code == 67 <==> sideways && !forward
            &&& code == 0 <==> !wheel && !sideways && !hover && asked & 1 != 0
            &&& code == 1 <==> !wheel && !sideways && !hover && asked & 1 == 0 && asked & 4 != 0
            &&& code == 2 <==> !wheel && !sideways && !hover && asked & 1 == 0 && asked & 4 == 0
                && asked & 2 != 0
            &&& code == 3 <==> !wheel && !sideways && (hover || (asked & 1 == 0 && asked & 4 == 0
                && asked & 2 == 0))
        }),
{
    lemma_buttons(mouse.button_state);
    lemma_buttons(last);
}

/// A motion and each modifier key add their own number to the code, whatever the others
/// do: 32 for a motion, 4 for a shift key, 8 for an alt key and 16 for a control key.
pub proof fn law_modifiers_add_up(mouse: MouseEventRecord)
    ensures
        modifier_code(mouse) == if mouse.event_flags & 1 != 0 {
            32int
        } else {
            0int
        } + if mouse.control_key_state & 0x10 != 0 {
            4int
        } else {
            0int
        } + if mouse.control_key_state & 3 != 0 {
            8int
        } else {
            0int
        } + if mouse.control_key_state & 12 != 0 {
            16int
        } else {
            0int
        },
{
    lemma_buttons(mouse.control_key_state);
}

/// What is reported in each tracking mode. Without tracking nothing is. A press, a
/// release and a turn of a wheel are reported in every other mode; a motion with a
/// button held is kept back by the plainest one only, and a motion without a button is
/// reported by the most talkative one only. So a more talkative mode reports all that a
/// less talkative one does.
pub proof fn law_what_is_reported(last: u32, mouse: MouseEventRecord)
    ensures
        !is_reported(last, mouse, MouseTrackingMode::Off),
        ({
            let held = mouse.button_state & 7 != 0;
            let wheel = mouse.event_flags & 4 != 0 || mouse.event_flags & 8 != 0;
            let moved = mouse.event_flags & 1 != 0;
            &&& !moved && (held || wheel || last != 0) ==> is_reported(
                last,
                mouse,
                MouseTrackingMode::Default,
            ) && is_reported(last, mouse, MouseTrackingMode::ButtonEvent) && is_reported(
                last,
                mouse,
                MouseTrackingMode::AnyEvent,
            )
            &&& !moved && !held && !wheel && last == 0 ==> !is_reported(
                last,
                mouse,
                MouseTrackingMode::AnyEvent,
            )
            &&& moved ==> !is_reported(last, mouse, MouseTrackingMode::Default)
            &&& moved ==> (is_reported(last, mouse, MouseTrackingMode::ButtonEvent) <==> held)
            &&& moved ==> is_reported(last, mouse, MouseTrackingMode::AnyEvent)
        }),
        is_reported(last, mouse, MouseTrackingMode::Default) ==> is_reported(
            last,
            mouse,
            MouseTrackingMode::ButtonEvent,
        ),
        is_reported(last, mouse, MouseTrackingMode::ButtonEvent) ==> is_reported(
            last,
            mouse,
            MouseTrackingMode::AnyEvent,
        ),
{
}

/// Which buttons count as pressed behind a record: the left, the right and the middle
/// one as the record shows them, and none without tracking. What was pressed before does
/// not matter.
pub proof fn law_pressed_buttons_follow_the_record(mouse: MouseEventRecord, state: InnerInputState)
    ensures
        ({
            let after = buttons_after(mouse, state);
            let watched = state.mouse_tracking != MouseTrackingMode::Off;
            &&& after & 1 != 0 <==> watched && mouse.button_state & 1 != 0
            &&& after & 2 != 0 <==> watched && mouse.button_state & 2 != 0
            &&& after & 4 != 0 <==> watched && mouse.button_state & 4 != 0
            &&& after <= 7
        }),
{
    lemma_buttons(mouse.button_state);
}

/// A report in the SGR encoding reads back: between its introducer and its last byte
/// stand three numbers, which are the code, the column and the row, the latter two
/// counted from 1, and the last byte tells a release of buttons from everything else.
pub proof fn law_sgr_report_reads_back(last: u32, mouse: MouseEventRecord)
    ensures
        ({
            let bytes = sgr_mouse(last, mouse);
            let n = bytes.len() as int;
            let parts = fields(bytes.subrange(3, n - 1));
            let released = mouse.button_state == 0 && last != 0 && mouse.event_flags & 1 == 0
                && mouse.event_flags & 4 == 0 && mouse.event_flags & 8 == 0;
            &&& n >= 9
            &&& bytes[0] == 0x1b && bytes[1] == 0x5b && bytes[2] == 0x3c
            &&& bytes[n - 1] == if released {
                0x6du8
            } else {
                0x4du8
            }
            &&& parts.len() == 3
            &&& parts[0] == decimal(base_code(last, mouse) + modifier_code(mouse))
            &&& parts[1] == signed_decimal(mouse.x + 1)
            &&& parts[2] == signed_decimal(mouse.y + 1)
        }),
{
    let bytes = sgr_mouse(last, mouse);
    let n = bytes.len() as int;
    let code = decimal(base_code(last, mouse) + modifier_code(mouse));
    let col = signed_decimal(mouse.x + 1);
    let row = signed_decimal(mouse.y + 1);
    lemma_decimal(base_code(last, mouse) + modifier_code(mouse));
    lemma_signed_decimal(mouse.x + 1);
    lemma_signed_decimal(mouse.y + 1);
    let parts = seq![code, col, row];
    assert(parts.drop_last() =~= seq![code, col]);
    assert(seq![code, col].drop_last() =~= seq![code]);
    assert(joined(seq![code]) == code);
    assert(joined(seq![code, col]) == code.push(SEPARATOR) + col);
    assert(joined(parts) == (code.push(SEPARATOR) + col).push(SEPARATOR) + row);
    assert(bytes.subrange(3, n - 1) =~= joined(parts));
    law_joined_divides(parts);
}

/// A report in the legacy encoding reads back: its three bytes are the code, the column
/// and the row, each 32 above the number, the latter two counted from 1. A release of
/// buttons has the code 3. A place beyond the 223rd column or row has no such report, and
/// every other place has one.
pub proof fn law_legacy_report_reads_back(last: u32, mouse: MouseEventRecord)
    ensures
        legacy_mouse(last, mouse) is Some <==> 0 <= mouse.x < 223 && 0 <= mouse.y < 223,
        legacy_mouse(last, mouse) matches Some(bytes) ==> {
            let released = mouse.button_state == 0 && last != 0 && mouse.event_flags & 1 == 0
                && mouse.event_flags & 4 == 0 && mouse.event_flags & 8 == 0;
            &&& bytes.len() == 6
            &&& bytes[0] == 0x1b && bytes[1] == 0x5b && bytes[2] == 0x4d
            &&& bytes[3] == 32 + modifier_code(mouse) + if released {
                3
            } else {
                base_code(last, mouse)
            }
            &&& bytes[4] == mouse.x + 33
            &&& bytes[5] == mouse.y + 33
        },
{
}

/// A record that is reported goes in the SGR encoding exactly if the program has asked
/// for it, and else in the legacy one; no other mode counts. A record that is not
/// reported sends nothing.
pub proof fn law_report_is_sent_as_asked(
    last: u32,
    mouse: MouseEventRecord,
    state: InnerInputState,
    other: InnerInputState,
)
    ensures
        mouse_bytes(last, mouse, state) is Some <==> is_reported(last, mouse, state.mouse_tracking)
            && (state.sgr_mouse || legacy_mouse(last, mouse) is Some),
        mouse_bytes(last, mouse, state) is Some && state.sgr_mouse ==> mouse_bytes(
            last,
            mouse,
            state,
        ) == Some(sgr_mouse(last, mouse)),
        mouse_bytes(last, mouse, state) is Some && !state.sgr_mouse ==> mouse_bytes(
            last,
            mouse,
            state,
        ) == legacy_mouse(last, mouse),
        other.mouse_tracking == state.mouse_tracking && other.sgr_mouse == state.sgr_mouse
            ==> mouse_bytes(last, mouse, other) == mouse_bytes(last, mouse, state)
            && buttons_after(mouse, other) == buttons_after(mouse, state),
{
}

/// The only records that cannot be encoded are those in the last column or row that a
/// number of sixteen bits can name, where they are reported in the SGR encoding.
pub proof fn law_only_the_last_place_cannot_be_encoded(
    last: u32,
    mouse: MouseEventRecord,
    state: InnerInputState,
)
    ensures
        mouse_encodable(last, mouse, state) <==> !(state.sgr_mouse && (mouse.x == 0x7fff || mouse.y
            == 0x7fff) && mouse_bytes(last, mouse, state) is Some),
{
}

} // verus!

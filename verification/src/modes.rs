//! The input modes that the recorded program has asked of its terminal.

use vstd::prelude::*;

verus! {

/// Which mouse events the recorded program wants to see.
#[derive(Debug, Clone, Copy, PartialEq, Eq, Structural)]
pub enum MouseTrackingMode {
    /// No mouse event at all.
    Off,
    Default,
    ButtonEvent,
    AnyEvent,
}

/// The input modes of the recorded program, as its output has set them.
#[derive(Debug, Clone, Copy, PartialEq, Eq, Structural)]
pub struct InnerInputState {
    pub application_cursor_keys: bool,
    pub mouse_default: bool,
    pub mouse_button_event: bool,
    pub mouse_any_event: bool,
    pub mouse_tracking: MouseTrackingMode,
    pub sgr_mouse: bool,
    pub focus: bool,
    pub bracketed_paste: bool,
    pub win32_input: bool,
}

/// The tracking mode in effect when the three mouse modes are set as given:
/// the most talkative one wins.
pub open spec fn effective_tracking(
    mouse_default: bool,
    mouse_button_event: bool,
    mouse_any_event: bool,
) -> MouseTrackingMode {
    if mouse_any_event {
        MouseTrackingMode::AnyEvent
    } else if mouse_button_event {
        MouseTrackingMode::ButtonEvent
    } else if mouse_default {
        MouseTrackingMode::Default
    } else {
        MouseTrackingMode::Off
    }
}

/// The DEC private modes that the recorder keeps to itself.
pub open spec fn owned_mode(mode: u16) -> bool {
    mode == 1 || mode == 1000 || mode == 1002 || mode == 1003 || mode == 1004 || mode == 1006
        || mode == 2004 || mode == 9001
}

impl InnerInputState {
    /// No mode is set.
    pub open spec fn reset() -> InnerInputState {
        InnerInputState {
            application_cursor_keys: false,
            mouse_default: false,
            mouse_button_event: false,
            mouse_any_event: false,
            mouse_tracking: MouseTrackingMode::Off,
            sgr_mouse: false,
            focus: false,
            bracketed_paste: false,
            win32_input: false,
        }
    }

    /// The tracking mode is the one that the three mouse modes call for.
    pub open spec fn consistent(self) -> bool {
        self.mouse_tracking == effective_tracking(
            self.mouse_default,
            self.mouse_button_event,
            self.mouse_any_event,
        )
    }

    /// This state after the given DEC private mode was set or reset.
    pub open spec fn with_mode(self, mode: u16, enabled: bool) -> InnerInputState {
        let mouse_default = if mode == 1000 { enabled } else { self.mouse_default };
        let mouse_button_event = if mode == 1002 { enabled } else { self.mouse_button_event };
        let mouse_any_event = if mode == 1003 { enabled } else { self.mouse_any_event };
        InnerInputState {
            application_cursor_keys: if mode == 1 { enabled } else { self.application_cursor_keys },
            mouse_default,
            mouse_button_event,
            mouse_any_event,
            mouse_tracking: effective_tracking(mouse_default, mouse_button_event, mouse_any_event),
            sgr_mouse: if mode == 1006 { enabled } else { self.sgr_mouse },
            focus: if mode == 1004 { enabled } else { self.focus },
            bracketed_paste: if mode == 2004 { enabled } else { self.bracketed_paste },
            win32_input: if mode == 9001 { enabled } else { self.win32_input },
        }
    }

    /// This state after all the given modes, in order, were set or reset.
    pub open spec fn with_modes(self, modes: Seq<u16>, enabled: bool) -> InnerInputState
        decreases modes.len(),
    {
        if modes.len() == 0 {
            self
        } else {
            self.with_modes(modes.drop_last(), enabled).with_mode(modes.last(), enabled)
        }
    }

    /// Records that the recorded program has set or reset a DEC private mode.
    /// A mode that is not tracked changes nothing but that the tracking mode is
    /// brought in line with the three mouse modes.
    pub fn set_mode(&mut self, mode: u16, enabled: bool)
        ensures
            *final(self) == old(self).with_mode(mode, enabled),
    {
        match mode {
            1 => self.application_cursor_keys = enabled,
            1000 => self.mouse_default = enabled,
            1002 => self.mouse_button_event = enabled,
            1003 => self.mouse_any_event = enabled,
            1004 => self.focus = enabled,
            1006 => self.sgr_mouse = enabled,
            2004 => self.bracketed_paste = enabled,
            9001 => self.win32_input = enabled,
            _ => {},
        }
        self.mouse_tracking = if self.mouse_any_event {
            MouseTrackingMode::AnyEvent
        } else if self.mouse_button_event {
            MouseTrackingMode::ButtonEvent
        } else if self.mouse_default {
            MouseTrackingMode::Default
        } else {
            MouseTrackingMode::Off
        };
    }
}

impl Default for InnerInputState {
    fn default() -> (state: Self)
        ensures
            state == InnerInputState::reset(),
            state.consistent(),
    {
        InnerInputState {
            application_cursor_keys: false,
            mouse_default: false,
            mouse_button_event: false,
            mouse_any_event: false,
            mouse_tracking: MouseTrackingMode::Off,
            sgr_mouse: false,
            focus: false,
            bracketed_paste: false,
            win32_input: false,
        }
    }
}

/// Setting a mode a second time in a row changes nothing, and of two changes to
/// one mode in a row only the second counts.
pub proof fn law_last_change_of_a_mode_wins(
    state: InnerInputState,
    mode: u16,
    first: bool,
    second: bool,
)
    ensures
        state.with_mode(mode, first).with_mode(mode, second) == state.with_mode(mode, second),
        state.with_mode(mode, first).with_mode(mode, first) == state.with_mode(mode, first),
{
}

/// After any changes of modes, at least one of them, the tracking mode is the
/// one that the three mouse modes call for; with none it stays as it was.
pub proof fn law_tracking_follows_mouse_modes(
    state: InnerInputState,
    modes: Seq<u16>,
    enabled: bool,
)
    ensures
        modes.len() > 0 ==> state.with_modes(modes, enabled).consistent(),
        modes.len() == 0 ==> state.with_modes(modes, enabled) == state,
{
}

/// A mode that is not one of the owned ones leaves a consistent state as it is.
pub proof fn law_other_modes_change_nothing(state: InnerInputState, mode: u16, enabled: bool)
    requires
        state.consistent(),
        !owned_mode(mode),
    ensures
        state.with_mode(mode, enabled) == state,
{
}

/// A mode is kept from the outer terminal exactly if setting or resetting it changes
/// what the recorder knows of some consistent state: the recorder keeps nothing that it
/// does not act on, and acts on nothing that it lets through.
pub proof fn law_kept_modes_are_those_acted_on(mode: u16)
    ensures
        owned_mode(mode) <==> exists|state: InnerInputState, enabled: bool|
            state.consistent() && #[trigger] state.with_mode(mode, enabled) != state,
{
    if owned_mode(mode) {
        let state = InnerInputState::reset();
        assert(state.consistent() && state.with_mode(mode, true) != state);
    }
}

/// Setting and then reading a mode gives what was set, and a change of one mode shows
/// in no flag but its own: 1 is that of the cursor keys, 1000, 1002 and 1003 those of
/// the mouse, 1004 that of the focus, 1006 that of the SGR encoding, 2004 that of
/// bracketed paste and 9001 that of the win32 input mode.
pub proof fn law_each_mode_has_its_own_flag(state: InnerInputState, mode: u16, enabled: bool)
    ensures
        ({
            let after = state.with_mode(mode, enabled);
            &&& mode == 1 ==> after.application_cursor_keys == enabled
            &&& mode != 1 ==> after.application_cursor_keys == state.application_cursor_keys
            &&& mode == 1000 ==> after.mouse_default == enabled
            &&& mode != 1000 ==> after.mouse_default == state.mouse_default
            &&& mode == 1002 ==> after.mouse_button_event == enabled
            &&& mode != 1002 ==> after.mouse_button_event == state.mouse_button_event
            &&& mode == 1003 ==> after.mouse_any_event == enabled
            &&& mode != 1003 ==> after.mouse_any_event == state.mouse_any_event
            &&& mode == 1004 ==> after.focus == enabled
            &&& mode != 1004 ==> after.focus == state.focus
            &&& mode == 1006 ==> after.sgr_mouse == enabled
            &&& mode != 1006 ==> after.sgr_mouse == state.sgr_mouse
            &&& mode == 2004 ==> after.bracketed_paste == enabled
            &&& mode != 2004 ==> after.bracketed_paste == state.bracketed_paste
            &&& mode == 9001 ==> after.win32_input == enabled
            &&& mode != 9001 ==> after.win32_input == state.win32_input
        }),
{
}

/// Changes of two different modes can change places.
pub proof fn law_different_modes_do_not_interfere(
    state: InnerInputState,
    first: u16,
    set_first: bool,
    second: u16,
    set_second: bool,
)
    requires
        first != second,
    ensures
        state.with_mode(first, set_first).with_mode(second, set_second) == state.with_mode(
            second,
            set_second,
        ).with_mode(first, set_first),
{
}

/// Behind any change, the mouse is tracked exactly if one of the three mouse modes is
/// set: all motion with 1003, else motion with a button with 1002, else no motion.
pub proof fn law_most_talkative_tracking_wins(state: InnerInputState, mode: u16, enabled: bool)
    ensures
        ({
            let after = state.with_mode(mode, enabled);
            &&& after.mouse_tracking == MouseTrackingMode::AnyEvent <==> after.mouse_any_event
            &&& after.mouse_tracking == MouseTrackingMode::ButtonEvent <==> after.mouse_button_event
                && !after.mouse_any_event
            &&& after.mouse_tracking == MouseTrackingMode::Default <==> after.mouse_default
                && !after.mouse_button_event && !after.mouse_any_event
            &&& after.mouse_tracking == MouseTrackingMode::Off <==> !after.mouse_default
                && !after.mouse_button_event && !after.mouse_any_event
        }),
{
}

/// No mode is set at first, and resetting any mode then changes nothing.
pub proof fn law_nothing_is_set_at_first(mode: u16)
    ensures
        ({
            let first = InnerInputState::reset();
            &&& first.consistent() && first.mouse_tracking == MouseTrackingMode::Off
            &&& !first.application_cursor_keys && !first.sgr_mouse && !first.focus
            &&& !first.mouse_default && !first.mouse_button_event && !first.mouse_any_event
            &&& !first.bracketed_paste && !first.win32_input
            &&& first.with_mode(mode, false) == first
        }),
{
}

/// Of modes that are changed together, each one that is named ends up as the change
/// says, and each flag whose mode is not named stays as it was.
pub proof fn law_modes_changed_together(state: InnerInputState, modes: Seq<u16>, enabled: bool)
    ensures
        ({
            let after = state.with_modes(modes, enabled);
            &&& after.application_cursor_keys == if modes.contains(1) {
                enabled
            } else {
                state.application_cursor_keys
            }
            &&& after.mouse_default == if modes.contains(1000) {
                enabled
            } else {
                state.mouse_default
            }
            &&& after.mouse_button_event == if modes.contains(1002) {
                enabled
            } else {
                state.mouse_button_event
            }
            &&& after.mouse_any_event == if modes.contains(1003) {
                enabled
            } else {
                state.mouse_any_event
            }
            &&& after.focus == if modes.contains(1004) {
                enabled
            } else {
                state.focus
            }
            &&& after.sgr_mouse == if modes.contains(1006) {
                enabled
            } else {
                state.sgr_mouse
            }
            &&& after.bracketed_paste == if modes.contains(2004) {
                enabled
            } else {
                state.bracketed_paste
            }
            &&& after.win32_input == if modes.contains(9001) {
                enabled
            } else {
                state.win32_input
            }
        }),
    decreases modes.len(),
{
    if modes.len() > 0 {
        let init = modes.drop_last();
        law_modes_changed_together(state, init, enabled);
        assert(modes =~= init.push(modes.last()));
        assert forall|mode: u16| modes.contains(mode) <==> (init.contains(mode) || mode
            == modes.last()) by {
            if modes.contains(mode) {
                let i = modes.index_of(mode);
                if i < init.len() {
                    assert(init[i] == mode);
                }
            }
            if init.contains(mode) {
                assert(modes[init.index_of(mode)] == mode);
            }
            if mode == modes.last() {
                assert(modes[modes.len() - 1] == mode);
            }
        }
    }
}

} // verus!

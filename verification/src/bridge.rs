//! Setting up the console for the input bridge.

use crate::bytes::append_bytes;
use crate::modes::{
    law_modes_changed_together, law_tracking_follows_mouse_modes, InnerInputState,
    MouseTrackingMode,
};
use crate::numbers::{append_decimal, decimal};
use vstd::prelude::*;

verus! {

/// Whether console input goes through the bridge.
#[derive(Debug, Clone, Copy, PartialEq, Eq, Structural)]
pub enum WinInputMode {
    /// If the console can be set up for it.
    Auto,
    /// Always: a console that cannot be set up for it is an error.
    On,
    /// Never: input is forwarded as the console gives it.
    Off,
}

impl Default for WinInputMode {
    fn default() -> (mode: Self)
        ensures
            mode == WinInputMode::Auto,
    {
        WinInputMode::Auto
    }
}

/// What is done to the console.
#[derive(Debug, Clone, Copy, PartialEq, Eq, Structural)]
pub enum WindowsInputBridgeAction {
    /// Put it into the mode in which input is forwarded as it comes.
    SetRaw,
    /// Put it into the mode in which the bridge reads its records.
    SetBridgeMode,
}

/// How far the setup of the console has come.
#[derive(Debug, Clone, Copy, PartialEq, Eq, Structural)]
pub enum BridgeStage {
    /// The bridge is being set up, and there is a way back.
    TryBridge,
    /// The bridge is being set up, and there is no way back.
    NeedBridge,
    /// The console is being set up without the bridge.
    NeedRaw,
}

/// What comes of a step of the setup.
#[derive(Debug, PartialEq, Eq)]
pub enum BridgeStep<E> {
    /// The console is set up, with or without the bridge.
    Done { bridge: bool },
    /// The console cannot be set up.
    Failed(E),
    /// The user is warned of this error, and the setup goes on.
    FallBack { warning: E, stage: BridgeStage },
}

impl BridgeStage {
    /// Where the setup starts.
    pub open spec fn first(mode: WinInputMode) -> BridgeStage {
        match mode {
            WinInputMode::Auto => BridgeStage::TryBridge,
            WinInputMode::On => BridgeStage::NeedBridge,
            WinInputMode::Off => BridgeStage::NeedRaw,
        }
    }

    /// What is done to the console at this stage.
    pub open spec fn next_action(self) -> WindowsInputBridgeAction {
        if self == BridgeStage::NeedRaw {
            WindowsInputBridgeAction::SetRaw
        } else {
            WindowsInputBridgeAction::SetBridgeMode
        }
    }

    /// What comes of this stage, given how the action went.
    pub open spec fn outcome<E>(self, result: Result<(), E>) -> BridgeStep<E> {
        match result {
            Ok(_) => BridgeStep::Done { bridge: self != BridgeStage::NeedRaw },
            Err(err) => if self == BridgeStage::TryBridge {
                BridgeStep::FallBack { warning: err, stage: BridgeStage::NeedRaw }
            } else {
                BridgeStep::Failed(err)
            },
        }
    }

    /// Starts the setup.
    pub fn start(mode: WinInputMode) -> (stage: BridgeStage)
        ensures
            stage == BridgeStage::first(mode),
    {
        match mode {
            WinInputMode::Auto => BridgeStage::TryBridge,
            WinInputMode::On => BridgeStage::NeedBridge,
            WinInputMode::Off => BridgeStage::NeedRaw,
        }
    }

    /// What is to be done to the console.
    pub fn action(self) -> (action: WindowsInputBridgeAction)
        ensures
            action == self.next_action(),
    {
        match self {
            BridgeStage::NeedRaw => WindowsInputBridgeAction::SetRaw,
            _ => WindowsInputBridgeAction::SetBridgeMode,
        }
    }
}

/// Goes on with the setup, given how the action of the stage went.
pub fn configure_windows_input_bridge<E>(stage: BridgeStage, result: Result<(), E>) -> (step:
    BridgeStep<E>)
    ensures
        step == stage.outcome(result),
{
    match result {
        Ok(_) => BridgeStep::Done { bridge: stage != BridgeStage::NeedRaw },
        Err(err) => match stage {
            BridgeStage::TryBridge => BridgeStep::FallBack {
                warning: err,
                stage: BridgeStage::NeedRaw,
            },
            _ => BridgeStep::Failed(err),
        },
    }
}

/// The setup from a stage to its end, where the two actions go as given: whether the
/// bridge is in use, or the error, and the warning on the way.
pub open spec fn set_up<E>(stage: BridgeStage, bridge: Result<(), E>, raw: Result<(), E>) -> (
    Result<bool, E>,
    Option<E>,
)
    decreases
            if stage == BridgeStage::TryBridge {
                1int
            } else {
                0int
            },
{
    let result = if stage.next_action() == WindowsInputBridgeAction::SetRaw {
        raw
    } else {
        bridge
    };
    match stage.outcome(result) {
        BridgeStep::Done { bridge } => (Ok(bridge), None),
        BridgeStep::Failed(err) => (Err(err), None),
        BridgeStep::FallBack { warning, stage: next } => if next == BridgeStage::TryBridge {
            (Err(warning), None)
        } else {
            (set_up(next, bridge, raw).0, Some(warning))
        },
    }
}

/// Without the bridge only the raw mode counts, and nobody is warned. With it only the
/// bridge counts, and nobody is warned. Otherwise the bridge is used if it can be, and
/// if not, its error is a warning and the raw mode counts.
pub proof fn law_setup_follows_the_mode<E>(bridge: Result<(), E>, raw: Result<(), E>)
    ensures
        set_up(BridgeStage::first(WinInputMode::Off), bridge, raw) == (
            match raw {
                Ok(_) => Ok(false),
                Err(err) => Err(err),
            },
            None::<E>,
        ),
        set_up(BridgeStage::first(WinInputMode::On), bridge, raw) == (
            match bridge {
                Ok(_) => Ok(true),
                Err(err) => Err(err),
            },
            None::<E>,
        ),
        set_up(BridgeStage::first(WinInputMode::Auto), bridge, raw) == match bridge {
            Ok(_) => (Ok(true), None::<E>),
            Err(warning) => (
                match raw {
                    Ok(_) => Ok(false),
                    Err(err) => Err(err),
                },
                Some(warning),
            ),
        },
{
    reveal_with_fuel(set_up, 3);
}

/// The first error of the three, if there is one.
pub open spec fn first_error<E>(
    output_code_page: Result<(), E>,
    input_mode: Result<(), E>,
    output_mode: Result<(), E>,
) -> Result<(), E> {
    if output_code_page is Err {
        output_code_page
    } else if input_mode is Err {
        input_mode
    } else {
        output_mode
    }
}

/// What comes of restoring the console: all parts of it are restored, and the first
/// error counts.
pub fn restore_outcome<E>(
    output_code_page: Result<(), E>,
    input_mode: Result<(), E>,
    output_mode: Result<(), E>,
) -> (r: Result<(), E>)
    ensures
        r == if output_code_page is Err {
            output_code_page
        } else if input_mode is Err {
            input_mode
        } else {
            output_mode
        },
        r == first_error(output_code_page, input_mode, output_mode),
{
    match output_code_page {
        Err(err) => Err(err),
        Ok(_) => match input_mode {
            Err(err) => Err(err),
            Ok(_) => output_mode,
        },
    }
}

/// The control sequences that reset the modes, in order: `ESC [ ?`, the number, and
/// `l`.
pub open spec fn mode_resets(modes: Seq<u16>) -> Seq<u8>
    decreases modes.len(),
{
    if modes.len() == 0 {
        Seq::empty()
    } else {
        mode_resets(modes.drop_last()) + seq![0x1bu8, 0x5bu8, 0x3fu8] + decimal(
            modes.last() as nat,
        ) + seq![0x6cu8]
    }
}

/// The modes that the bridge takes care of, and that the outer terminal is to be without.
pub open spec fn outer_modes() -> Seq<u16> {
    seq![1u16, 9001, 1000, 1002, 1003, 1006, 1004]
}

/// What puts the outer terminal into a state in which it sends input without any of
/// the modes that the bridge takes care of.
pub fn outer_input_mode_resets() -> (bytes: Vec<u8>)
    ensures
        bytes@ == mode_resets(seq![1u16, 9001, 1000, 1002, 1003, 1006, 1004]),
        bytes@ == mode_resets(outer_modes()),
{
    let modes: Vec<u16> = vec![1, 9001, 1000, 1002, 1003, 1006, 1004];
    let mut out: Vec<u8> = Vec::new();
    let mut i: usize = 0;
    assert(out@ =~= mode_resets(modes@.take(0)));
    while i < modes.len()
        invariant
            i <= modes@.len(),
            out@ == mode_resets(modes@.take(i as int)),
        decreases modes@.len() - i,
    {
        let ghost before = out@;
        append_bytes(&mut out, [0x1b, 0x5b, 0x3f].as_slice());
        append_decimal(&mut out, modes[i] as u32);
        out.push(0x6c);
        assert(modes@.take(i + 1).drop_last() =~= modes@.take(i as int));
        assert(out@ =~= before + seq![0x1bu8, 0x5bu8, 0x3fu8] + decimal(modes@[i as int] as nat)
            + seq![0x6cu8]);
        i = i + 1;
    }
    assert(modes@.take(modes@.len() as int) =~= modes@);
    assert(modes@ =~= seq![1u16, 9001, 1000, 1002, 1003, 1006, 1004]);
    out
}

/// Restoring succeeds exactly if all three parts do, and else the error is that of the
/// first part that failed.
pub proof fn law_first_error_counts<E>(
    output_code_page: Result<(), E>,
    input_mode: Result<(), E>,
    output_mode: Result<(), E>,
)
    ensures
        ({
            let all = first_error(output_code_page, input_mode, output_mode);
            &&& all is Ok <==> output_code_page is Ok && input_mode is Ok && output_mode is Ok
            &&& output_code_page matches Err(err) ==> all == Err::<(), E>(err)
            &&& output_code_page is Ok && input_mode is Err ==> all == input_mode
            &&& output_code_page is Ok && input_mode is Ok ==> all == output_mode
        }),
{
}

/// What is reset puts every mode that the bridge takes care of out of force, and leaves
/// bracketed paste as it was.
pub proof fn law_outer_modes_are_all_reset(state: InnerInputState)
    ensures
        ({
            let after = state.with_modes(outer_modes(), false);
            &&& !after.application_cursor_keys && !after.win32_input && !after.focus
            &&& !after.mouse_default && !after.mouse_button_event && !after.mouse_any_event
            &&& !after.sgr_mouse && after.mouse_tracking == MouseTrackingMode::Off
            &&& after.bracketed_paste == state.bracketed_paste
        }),
{
    let modes = outer_modes();
    assert(modes[0] == 1 && modes[1] == 9001 && modes[2] == 1000 && modes[3] == 1002);
    assert(modes[4] == 1003 && modes[5] == 1006 && modes[6] == 1004);
    law_modes_changed_together(state, modes, false);
    law_tracking_follows_mouse_modes(state, modes, false);
}

} // verus!

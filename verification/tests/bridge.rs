//! Setting up the console for the input bridge.

use asciicast::bridge::{
    configure_windows_input_bridge, outer_input_mode_resets, restore_outcome, BridgeStage,
    BridgeStep, WinInputMode, WindowsInputBridgeAction,
};
use asciicast::modes::{InnerInputState, MouseTrackingMode};
use asciicast::tracker::InputModeTracker;
use std::cell::Cell;

/// Runs the setup to its end.
fn configure(
    mode: WinInputMode,
    mut perform: impl FnMut(WindowsInputBridgeAction) -> Result<(), String>,
    mut warn: impl FnMut(&String),
) -> Result<bool, String> {
    let mut stage = BridgeStage::start(mode);
    loop {
        match configure_windows_input_bridge(stage, perform(stage.action())) {
            BridgeStep::Done { bridge } => return Ok(bridge),
            BridgeStep::Failed(err) => return Err(err),
            BridgeStep::FallBack {
                warning,
                stage: next,
            } => {
                warn(&warning);
                stage = next;
            }
        }
    }
}

fn configure_with_counts(
    mode: WinInputMode,
    bridge_fails: bool,
    raw_fails: bool,
) -> Result<(bool, u32, u32, u32), String> {
    let raw_calls = Cell::new(0);
    let bridge_calls = Cell::new(0);
    let warnings = Cell::new(0);

    let enabled = configure(
        mode,
        |action| {
            match action {
                WindowsInputBridgeAction::SetRaw => {
                    raw_calls.set(raw_calls.get() + 1);
                    if raw_fails {
                        return Err("raw setup failed".to_string());
                    }
                }
                WindowsInputBridgeAction::SetBridgeMode => {
                    bridge_calls.set(bridge_calls.get() + 1);
                    if bridge_fails {
                        return Err("bridge setup failed".to_string());
                    }
                }
            }
            Ok(())
        },
        |_| warnings.set(warnings.get() + 1),
    )?;

    Ok((enabled, raw_calls.get(), bridge_calls.get(), warnings.get()))
}

#[test]
fn off_uses_legacy_raw_input_without_trying_bridge() {
    assert_eq!(
        configure_with_counts(WinInputMode::Off, true, false).unwrap(),
        (false, 1, 0, 0)
    );
}

#[test]
fn auto_uses_bridge_when_setup_succeeds() {
    assert_eq!(
        configure_with_counts(WinInputMode::Auto, false, false).unwrap(),
        (true, 0, 1, 0)
    );
}

#[test]
fn auto_warns_and_falls_back_to_raw_when_bridge_setup_fails() {
    assert_eq!(
        configure_with_counts(WinInputMode::Auto, true, false).unwrap(),
        (false, 1, 1, 1)
    );
}

#[test]
fn off_propagates_raw_setup_failure() {
    let err = configure_with_counts(WinInputMode::Off, false, true).unwrap_err();

    assert_eq!(err.to_string(), "raw setup failed");
}

#[test]
fn auto_propagates_raw_fallback_failure_after_bridge_warning() {
    let err = configure_with_counts(WinInputMode::Auto, true, true).unwrap_err();

    assert_eq!(err.to_string(), "raw setup failed");
}

#[test]
fn on_requires_bridge_setup_and_does_not_fall_back() {
    let raw_calls = Cell::new(0);
    let bridge_calls = Cell::new(0);
    let warnings = Cell::new(0);

    let err = configure(
        WinInputMode::On,
        |action| match action {
            WindowsInputBridgeAction::SetRaw => {
                raw_calls.set(raw_calls.get() + 1);
                Ok(())
            }
            WindowsInputBridgeAction::SetBridgeMode => {
                bridge_calls.set(bridge_calls.get() + 1);
                Err("bridge setup failed".to_string())
            }
        },
        |_| warnings.set(warnings.get() + 1),
    )
    .unwrap_err();

    assert_eq!(err.to_string(), "bridge setup failed");
    assert_eq!(raw_calls.get(), 0);
    assert_eq!(bridge_calls.get(), 1);
    assert_eq!(warnings.get(), 0);
}

#[test]
fn restoring_reports_the_first_error() {
    assert_eq!(restore_outcome::<&str>(Ok(()), Ok(()), Ok(())), Ok(()));
    assert_eq!(restore_outcome(Err("cp"), Err("in"), Err("out")), Err("cp"));
    assert_eq!(restore_outcome(Ok(()), Err("in"), Err("out")), Err("in"));
    assert_eq!(restore_outcome(Ok(()), Ok(()), Err("out")), Err("out"));
}

#[test]
fn the_default_is_to_try_the_bridge() {
    assert_eq!(WinInputMode::default(), WinInputMode::Auto);
    assert_eq!(
        BridgeStage::start(WinInputMode::default()),
        BridgeStage::TryBridge
    );
}

#[test]
fn outer_resets_turn_every_mode_of_theirs_off() {
    assert_eq!(
        outer_input_mode_resets(),
        b"\x1b[?1l\x1b[?9001l\x1b[?1000l\x1b[?1002l\x1b[?1003l\x1b[?1006l\x1b[?1004l"
    );

    let mut tracker = InputModeTracker::new(InnerInputState::default());
    assert_eq!(
        tracker.filter(b"\x1b[?1;9001;1000;1002;1003;1006;1004h"),
        b""
    );
    assert_eq!(tracker.state().mouse_tracking, MouseTrackingMode::AnyEvent);
    assert_eq!(tracker.filter(&outer_input_mode_resets()), b"");
    assert_eq!(tracker.state(), InnerInputState::default());
}

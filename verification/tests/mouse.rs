//! What the mouse sends.

use asciicast::console::{
    ConsoleRecord, InputRecord, KeyEventRecord, MouseEventRecord, DOUBLE_CLICK,
    FROM_LEFT_1ST_BUTTON_PRESSED, FROM_LEFT_2ND_BUTTON_PRESSED, FROM_LEFT_3RD_BUTTON_PRESSED,
    FROM_LEFT_4TH_BUTTON_PRESSED, LEFT_ALT_PRESSED, MOUSE_HWHEELED, MOUSE_MOVED, MOUSE_WHEELED,
    RIGHTMOST_BUTTON_PRESSED, RIGHT_CTRL_PRESSED, SHIFT_PRESSED,
};
use asciicast::encoder::WinInputEncoder;
use asciicast::modes::{InnerInputState, MouseTrackingMode};
use asciicast::tracker::InputModeTracker;

fn key_record_u16(
    virtual_key: u16,
    scan_code: u16,
    unicode: u16,
    key_down: bool,
    repeat_count: u16,
    control_state: u32,
) -> InputRecord {
    InputRecord::Key(KeyEventRecord {
        key_down,
        repeat_count,
        virtual_key_code: virtual_key,
        virtual_scan_code: scan_code,
        unicode_char: unicode,
        control_key_state: control_state,
    })
}

fn key_record(
    virtual_key: u16,
    scan_code: u16,
    ch: char,
    key_down: bool,
    repeat_count: u16,
    control_state: u32,
) -> InputRecord {
    key_record_u16(
        virtual_key,
        scan_code,
        ch as u16,
        key_down,
        repeat_count,
        control_state,
    )
}

fn console_record(record: &InputRecord, _state: &InnerInputState) -> ConsoleRecord {
    ConsoleRecord {
        record: *record,
        decoded: vec![],
    }
}

fn encode_with(
    encoder: &mut WinInputEncoder,
    records: &[InputRecord],
    state: &InnerInputState,
) -> Vec<u8> {
    let records: Vec<ConsoleRecord> = records
        .iter()
        .map(|record| console_record(record, state))
        .collect();
    encoder.encode_records(&records, state)
}

fn mouse_record(
    x: i16,
    y: i16,
    button_state: u32,
    control_state: u32,
    flags: u32,
) -> MouseEventRecord {
    MouseEventRecord {
        x,
        y,
        button_state,
        control_key_state: control_state,
        event_flags: flags,
    }
}

fn mouse_input_record(mouse: MouseEventRecord) -> InputRecord {
    InputRecord::Mouse(mouse)
}

fn encode_mouse_with_state(mouse: &MouseEventRecord, state: &InnerInputState) -> Option<Vec<u8>> {
    WinInputEncoder::default().encode_mouse(mouse, state)
}

fn sgr_mouse_state(mouse_tracking: MouseTrackingMode) -> InnerInputState {
    InnerInputState {
        mouse_default: matches!(mouse_tracking, MouseTrackingMode::Default),
        mouse_button_event: matches!(mouse_tracking, MouseTrackingMode::ButtonEvent),
        mouse_any_event: matches!(mouse_tracking, MouseTrackingMode::AnyEvent),
        mouse_tracking,
        sgr_mouse: true,
        ..Default::default()
    }
}

fn legacy_mouse_state(mouse_tracking: MouseTrackingMode) -> InnerInputState {
    InnerInputState {
        sgr_mouse: false,
        ..sgr_mouse_state(mouse_tracking)
    }
}

fn tracker() -> InputModeTracker {
    InputModeTracker::new(InnerInputState::default())
}

#[test]
fn encodes_sgr_horizontal_mouse_wheel() {
    let state = sgr_mouse_state(MouseTrackingMode::AnyEvent);
    let mouse = mouse_record(41, 11, 120u32 << 16, 0, MOUSE_HWHEELED);

    assert_eq!(
        encode_mouse_with_state(&mouse, &state).unwrap(),
        b"\x1b[<66;42;12M"
    );
}

#[test]
fn encodes_sgr_wheel_directions() {
    let mut encoder = WinInputEncoder::default();
    let state = sgr_mouse_state(MouseTrackingMode::AnyEvent);

    assert_eq!(
        encoder
            .encode_mouse(
                &mouse_record(41, 11, 120u32 << 16, 0, MOUSE_WHEELED),
                &state
            )
            .unwrap(),
        b"\x1b[<64;42;12M"
    );
    assert_eq!(
        encoder
            .encode_mouse(
                &mouse_record(41, 11, (-120i32 as u32) << 16, 0, MOUSE_WHEELED),
                &state
            )
            .unwrap(),
        b"\x1b[<65;42;12M"
    );
    assert_eq!(
        encoder
            .encode_mouse(
                &mouse_record(41, 11, (-120i32 as u32) << 16, 0, MOUSE_HWHEELED),
                &state
            )
            .unwrap(),
        b"\x1b[<67;42;12M"
    );
}

#[test]
fn wheel_delta_does_not_create_later_button_release() {
    let mut encoder = WinInputEncoder::default();
    let state = sgr_mouse_state(MouseTrackingMode::Default);

    assert_eq!(
        encoder
            .encode_mouse(&mouse_record(0, 0, 120u32 << 16, 0, MOUSE_WHEELED), &state)
            .unwrap(),
        b"\x1b[<64;1;1M"
    );
    assert_eq!(
        encoder.encode_mouse(&mouse_record(0, 0, 0, 0, 0), &state),
        None
    );
}

#[test]
fn mouse_tracking_modes_gate_motion_events() {
    let hover = mouse_record(0, 0, 0, 0, MOUSE_MOVED);
    let drag = mouse_record(0, 0, FROM_LEFT_1ST_BUTTON_PRESSED, 0, MOUSE_MOVED);
    let press = mouse_record(0, 0, FROM_LEFT_1ST_BUTTON_PRESSED, 0, 0);

    let mut encoder = WinInputEncoder::default();
    let state = sgr_mouse_state(MouseTrackingMode::Default);
    assert!(encoder.encode_mouse(&hover, &state).is_none());
    assert_eq!(
        encoder.encode_mouse(&press, &state).unwrap(),
        b"\x1b[<0;1;1M"
    );

    let state = sgr_mouse_state(MouseTrackingMode::ButtonEvent);
    assert!(encoder.encode_mouse(&hover, &state).is_none());
    assert_eq!(
        encoder.encode_mouse(&drag, &state).unwrap(),
        b"\x1b[<32;1;1M"
    );

    let state = sgr_mouse_state(MouseTrackingMode::AnyEvent);
    assert_eq!(
        encoder.encode_mouse(&hover, &state).unwrap(),
        b"\x1b[<35;1;1M"
    );
}

#[test]
fn sgr_mouse_press_and_release_preserve_button() {
    let mut encoder = WinInputEncoder::default();
    let state = sgr_mouse_state(MouseTrackingMode::Default);
    let records = [
        mouse_input_record(mouse_record(0, 0, FROM_LEFT_1ST_BUTTON_PRESSED, 0, 0)),
        mouse_input_record(mouse_record(0, 0, 0, 0, 0)),
    ];

    assert_eq!(
        encode_with(&mut encoder, &records, &state),
        b"\x1b[<0;1;1M\x1b[<0;1;1m"
    );
}

#[test]
fn sgr_right_and_middle_releases_preserve_button() {
    for (button, expected) in [
        (
            RIGHTMOST_BUTTON_PRESSED,
            b"\x1b[<2;1;1M\x1b[<2;1;1m".as_slice(),
        ),
        (FROM_LEFT_2ND_BUTTON_PRESSED, b"\x1b[<1;1;1M\x1b[<1;1;1m"),
    ] {
        let mut encoder = WinInputEncoder::default();
        let state = sgr_mouse_state(MouseTrackingMode::Default);
        let records = [
            mouse_input_record(mouse_record(0, 0, button, 0, 0)),
            mouse_input_record(mouse_record(0, 0, 0, 0, 0)),
        ];

        assert_eq!(
            encode_with(&mut encoder, &records, &state),
            expected
        );
    }
}

#[test]
fn sgr_multi_button_transition_uses_lowest_tracked_button() {
    let mut encoder = WinInputEncoder::default();
    let state = sgr_mouse_state(MouseTrackingMode::Default);

    assert_eq!(
        encoder
            .encode_mouse(
                &mouse_record(
                    0,
                    0,
                    FROM_LEFT_1ST_BUTTON_PRESSED | RIGHTMOST_BUTTON_PRESSED,
                    0,
                    0,
                ),
                &state
            )
            .unwrap(),
        b"\x1b[<0;1;1M"
    );
    assert_eq!(
        encoder
            .encode_mouse(&mouse_record(0, 0, RIGHTMOST_BUTTON_PRESSED, 0, 0), &state)
            .unwrap(),
        b"\x1b[<2;1;1M"
    );
}

#[test]
fn tracked_mouse_modes_drive_encoded_mouse_records() {
    let mut tracker = tracker();
    assert_eq!(tracker.filter(b"\x1b[?1000;1006h"), b"");

    let mut encoder = WinInputEncoder::default();
    let mouse = mouse_input_record(mouse_record(0, 0, FROM_LEFT_1ST_BUTTON_PRESSED, 0, 0));
    let state_snapshot = tracker.state();
    assert_eq!(
        encode_with(&mut encoder, &[mouse], &state_snapshot),
        b"\x1b[<0;1;1M"
    );

    assert_eq!(tracker.filter(b"\x1b[?1000l"), b"");
    let state_snapshot = tracker.state();
    assert_eq!(
        encode_with(&mut encoder, &[mouse], &state_snapshot),
        b""
    );
}

#[test]
fn tracked_win32_mode_drives_encoded_key_records() {
    let mut tracker = tracker();
    let mut encoder = WinInputEncoder::default();
    let key = key_record('A' as u16, 0x1e, 'a', true, 1, 0);

    assert_eq!(tracker.filter(b"\x1b[?9001h"), b"");
    let state_snapshot = tracker.state();
    assert_eq!(
        encode_with(&mut encoder, &[key], &state_snapshot),
        b"\x1b[65;30;97;1;0;1_"
    );

    assert_eq!(tracker.filter(b"\x1b[?9001l"), b"");
    let state_snapshot = tracker.state();
    assert_eq!(
        encode_with(&mut encoder, &[key], &state_snapshot),
        b"a"
    );
}

#[test]
fn x_mouse_buttons_do_not_create_tracked_button_state() {
    let mut encoder = WinInputEncoder::default();
    let state = sgr_mouse_state(MouseTrackingMode::Default);

    assert_eq!(
        encoder.encode_mouse(
            &mouse_record(0, 0, FROM_LEFT_3RD_BUTTON_PRESSED, 0, 0),
            &state
        ),
        None
    );
    assert_eq!(
        encoder.encode_mouse(
            &mouse_record(0, 0, FROM_LEFT_4TH_BUTTON_PRESSED, 0, 0),
            &state
        ),
        None
    );
    assert_eq!(
        encoder.encode_mouse(&mouse_record(0, 0, 0, 0, 0), &state),
        None
    );
}

#[test]
fn encodes_legacy_mouse_when_sgr_is_not_enabled() {
    let state = legacy_mouse_state(MouseTrackingMode::Default);
    let mouse = mouse_record(0, 0, FROM_LEFT_1ST_BUTTON_PRESSED, 0, 0);

    assert_eq!(
        encode_mouse_with_state(&mouse, &state).unwrap(),
        vec![0x1b, b'[', b'M', 32, 33, 33]
    );
}

#[test]
fn encodes_legacy_mouse_release_as_button_three() {
    let mut encoder = WinInputEncoder::default();
    encoder.last_mouse_buttons = FROM_LEFT_1ST_BUTTON_PRESSED;
    let state = InnerInputState {
        mouse_default: true,
        mouse_tracking: MouseTrackingMode::Default,
        sgr_mouse: false,
        ..Default::default()
    };
    let mouse = mouse_record(0, 0, 0, 0, 0);

    assert_eq!(
        encoder.encode_mouse(&mouse, &state).unwrap(),
        vec![0x1b, b'[', b'M', 35, 33, 33]
    );
}

#[test]
fn legacy_right_and_middle_releases_preserve_release_marker() {
    for button in [RIGHTMOST_BUTTON_PRESSED, FROM_LEFT_2ND_BUTTON_PRESSED] {
        let mut encoder = WinInputEncoder::default();
        encoder.last_mouse_buttons = button;
        let state = legacy_mouse_state(MouseTrackingMode::Default);

        assert_eq!(
            encoder
                .encode_mouse(&mouse_record(0, 0, 0, 0, 0), &state)
                .unwrap(),
            vec![0x1b, b'[', b'M', 35, 33, 33]
        );
    }
}

#[test]
fn legacy_mouse_encodes_wheels() {
    let state = legacy_mouse_state(MouseTrackingMode::Default);

    assert_eq!(
        encode_mouse_with_state(&mouse_record(0, 0, 120u32 << 16, 0, MOUSE_WHEELED), &state)
            .unwrap(),
        vec![0x1b, b'[', b'M', 96, 33, 33]
    );
    assert_eq!(
        encode_mouse_with_state(
            &mouse_record(0, 0, (-120i32 as u32) << 16, 0, MOUSE_WHEELED),
            &state
        )
        .unwrap(),
        vec![0x1b, b'[', b'M', 97, 33, 33]
    );
    assert_eq!(
        encode_mouse_with_state(&mouse_record(0, 0, 120u32 << 16, 0, MOUSE_HWHEELED), &state)
            .unwrap(),
        vec![0x1b, b'[', b'M', 98, 33, 33]
    );
}

#[test]
fn mouse_modifiers_are_encoded() {
    let state = sgr_mouse_state(MouseTrackingMode::Default);
    let mouse = mouse_record(
        0,
        0,
        FROM_LEFT_1ST_BUTTON_PRESSED,
        SHIFT_PRESSED | LEFT_ALT_PRESSED | RIGHT_CTRL_PRESSED,
        0,
    );

    assert_eq!(
        encode_mouse_with_state(&mouse, &state).unwrap(),
        b"\x1b[<28;1;1M"
    );
}

#[test]
fn legacy_mouse_rejects_coordinates_outside_protocol_range() {
    let state = legacy_mouse_state(MouseTrackingMode::Default);

    assert_eq!(
        encode_mouse_with_state(
            &mouse_record(222, 222, FROM_LEFT_1ST_BUTTON_PRESSED, 0, 0),
            &state
        ),
        Some(vec![0x1b, b'[', b'M', 32, 255, 255])
    );
    assert_eq!(
        encode_mouse_with_state(
            &mouse_record(223, 222, FROM_LEFT_1ST_BUTTON_PRESSED, 0, 0),
            &state
        ),
        None
    );
    assert_eq!(
        encode_mouse_with_state(
            &mouse_record(222, 223, FROM_LEFT_1ST_BUTTON_PRESSED, 0, 0),
            &state
        ),
        None
    );
}

#[test]
fn mouse_disabled_while_button_held_does_not_emit_stale_release() {
    let mut encoder = WinInputEncoder::default();
    let enabled = sgr_mouse_state(MouseTrackingMode::Default);

    assert_eq!(
        encoder
            .encode_mouse(
                &mouse_record(0, 0, FROM_LEFT_1ST_BUTTON_PRESSED, 0, 0),
                &enabled
            )
            .unwrap(),
        b"\x1b[<0;1;1M"
    );

    assert_eq!(
        encoder.encode_mouse(
            &mouse_record(0, 0, FROM_LEFT_1ST_BUTTON_PRESSED, 0, 0),
            &InnerInputState::default()
        ),
        None
    );
    assert_eq!(
        encoder.encode_mouse(&mouse_record(0, 0, 0, 0, 0), &enabled),
        None
    );
}

#[test]
fn encodes_right_and_middle_mouse_buttons() {
    let state = sgr_mouse_state(MouseTrackingMode::Default);

    assert_eq!(
        encode_mouse_with_state(&mouse_record(0, 0, RIGHTMOST_BUTTON_PRESSED, 0, 0), &state)
            .unwrap(),
        b"\x1b[<2;1;1M"
    );
    assert_eq!(
        encode_mouse_with_state(
            &mouse_record(0, 0, FROM_LEFT_2ND_BUTTON_PRESSED, 0, 0),
            &state
        )
        .unwrap(),
        b"\x1b[<1;1;1M"
    );
}

#[test]
fn double_click_uses_button_press_encoding() {
    let state = sgr_mouse_state(MouseTrackingMode::Default);

    assert_eq!(
        encode_mouse_with_state(
            &mouse_record(0, 0, FROM_LEFT_1ST_BUTTON_PRESSED, 0, DOUBLE_CLICK),
            &state
        )
        .unwrap(),
        b"\x1b[<0;1;1M"
    );
}

#[test]
fn wheel_modifiers_are_encoded() {
    let state = sgr_mouse_state(MouseTrackingMode::Default);

    assert_eq!(
        encode_mouse_with_state(
            &mouse_record(
                0,
                0,
                120u32 << 16,
                SHIFT_PRESSED | RIGHT_CTRL_PRESSED,
                MOUSE_WHEELED,
            ),
            &state
        )
        .unwrap(),
        b"\x1b[<84;1;1M"
    );
}

#[test]
fn legacy_coordinates_below_the_window_are_not_sent() {
    let state = legacy_mouse_state(MouseTrackingMode::Default);
    let press = FROM_LEFT_1ST_BUTTON_PRESSED;

    assert_eq!(
        encode_mouse_with_state(&mouse_record(-1, 0, press, 0, 0), &state),
        None
    );
    assert_eq!(
        encode_mouse_with_state(&mouse_record(i16::MAX, i16::MAX, press, 0, 0), &state),
        None
    );
}

#[test]
fn sgr_coordinates_may_be_negative() {
    let state = sgr_mouse_state(MouseTrackingMode::Default);
    let mouse = mouse_record(-4, i16::MIN, FROM_LEFT_1ST_BUTTON_PRESSED, 0, 0);

    assert_eq!(
        encode_mouse_with_state(&mouse, &state).unwrap(),
        b"\x1b[<0;-3;-32767M"
    );
}

#[test]
fn unreported_records_still_track_the_buttons() {
    let mut encoder = WinInputEncoder::default();
    let default = sgr_mouse_state(MouseTrackingMode::Default);
    let drag = mouse_record(0, 0, RIGHTMOST_BUTTON_PRESSED | 0x10, 0, MOUSE_MOVED);

    assert_eq!(encoder.encode_mouse(&drag, &default), None);
    assert_eq!(encoder.last_mouse_buttons, RIGHTMOST_BUTTON_PRESSED);
    assert_eq!(
        encoder
            .encode_mouse(&mouse_record(1, 1, 0, 0, 0), &default)
            .unwrap(),
        b"\x1b[<2;2;2m"
    );
    assert_eq!(encoder.last_mouse_buttons, 0);
}

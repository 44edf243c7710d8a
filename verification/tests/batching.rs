//! Batches of console input.

use asciicast::console::{
    ConsoleRecord, InputRecord, KeyEventRecord, MouseEventRecord, FROM_LEFT_1ST_BUTTON_PRESSED,
};
use asciicast::encoder::{
    encode_win_input_batch, win_input_batch_sizes, WinInputBatchMessage, WinInputEncoder,
};
use asciicast::modes::{InnerInputState, MouseTrackingMode};
use asciicast::size::PtySize;

fn key_record_u16(
    virtual_key: u16,
    scan_code: u16,
    unicode: u16,
    key_down: bool,
    repeat_count: u16,
    control_state: u32,
) -> InputRecord {
    InputRecord::Key(KeyEventRecord {
        key_down,
        repeat_count,
        virtual_key_code: virtual_key,
        virtual_scan_code: scan_code,
        unicode_char: unicode,
        control_key_state: control_state,
    })
}

fn key_record(
    virtual_key: u16,
    scan_code: u16,
    ch: char,
    key_down: bool,
    repeat_count: u16,
    control_state: u32,
) -> InputRecord {
    key_record_u16(
        virtual_key,
        scan_code,
        ch as u16,
        key_down,
        repeat_count,
        control_state,
    )
}

fn mouse_record(
    x: i16,
    y: i16,
    button_state: u32,
    control_state: u32,
    flags: u32,
) -> MouseEventRecord {
    MouseEventRecord {
        x,
        y,
        button_state,
        control_key_state: control_state,
        event_flags: flags,
    }
}

fn mouse_input_record(mouse: MouseEventRecord) -> InputRecord {
    InputRecord::Mouse(mouse)
}

fn resize_input_record(cols: i16, rows: i16) -> InputRecord {
    InputRecord::WindowBufferSize {
        columns: cols,
        rows,
    }
}

fn focus_input_record(focused: bool) -> InputRecord {
    InputRecord::Focus { set_focus: focused }
}

fn console_records(records: &[InputRecord]) -> Vec<ConsoleRecord> {
    records
        .iter()
        .map(|record| ConsoleRecord {
            record: *record,
            decoded: vec![],
        })
        .collect()
}

fn encode_batch(
    encoder: &mut WinInputEncoder,
    records: &[InputRecord],
    state: &InnerInputState,
) -> Vec<WinInputBatchMessage> {
    encode_win_input_batch(encoder, &console_records(records), state)
}

#[test]
fn win_input_batch_preserves_resize_order() {
    let mut encoder = WinInputEncoder::default();
    let records = [
        key_record('A' as u16, 0x1e, 'a', true, 1, 0),
        resize_input_record(120, 40),
        key_record('B' as u16, 0x30, 'b', true, 1, 0),
    ];

    assert_eq!(
        encode_batch(
            &mut encoder,
            &records,
            &InnerInputState::default()
        ),
        vec![
            WinInputBatchMessage::Stdin(b"a".to_vec()),
            WinInputBatchMessage::Resize,
            WinInputBatchMessage::Stdin(b"b".to_vec()),
        ]
    );
}

#[test]
fn win_input_batch_handles_resize_only_and_adjacent_resizes() {
    let mut encoder = WinInputEncoder::default();
    let records = [
        resize_input_record(100, 30),
        resize_input_record(120, 40),
        key_record('A' as u16, 0x1e, 'a', true, 1, 0),
        resize_input_record(80, 25),
    ];

    assert_eq!(
        encode_batch(
            &mut encoder,
            &records,
            &InnerInputState::default()
        ),
        vec![
            WinInputBatchMessage::Resize,
            WinInputBatchMessage::Resize,
            WinInputBatchMessage::Stdin(b"a".to_vec()),
            WinInputBatchMessage::Resize,
        ]
    );
}

#[test]
fn win_input_batch_preserves_focus_resize_mouse_order() {
    let mut encoder = WinInputEncoder::default();
    let state = InnerInputState {
        focus: true,
        mouse_default: true,
        mouse_tracking: MouseTrackingMode::Default,
        sgr_mouse: true,
        ..Default::default()
    };
    let records = [
        focus_input_record(true),
        resize_input_record(120, 40),
        mouse_input_record(mouse_record(0, 0, FROM_LEFT_1ST_BUTTON_PRESSED, 0, 0)),
        resize_input_record(100, 30),
        focus_input_record(false),
    ];

    assert_eq!(
        encode_batch(&mut encoder, &records, &state),
        vec![
            WinInputBatchMessage::Stdin(b"\x1b[I".to_vec()),
            WinInputBatchMessage::Resize,
            WinInputBatchMessage::Stdin(b"\x1b[<0;1;1M".to_vec()),
            WinInputBatchMessage::Resize,
            WinInputBatchMessage::Stdin(b"\x1b[O".to_vec()),
        ]
    );
}

#[test]
fn win_input_batch_sizes_follow_the_resizes() {
    let records = console_records(&[
        resize_input_record(120, 40),
        key_record('A' as u16, 0x1e, 'a', true, 1, 0),
        resize_input_record(0, -3),
        resize_input_record(i16::MAX, 1),
    ]);

    let size = |cols, rows| PtySize {
        rows,
        cols,
        pixel_width: 0,
        pixel_height: 0,
    };
    assert_eq!(
        win_input_batch_sizes(&records),
        vec![size(120, 40), size(1, 1), size(32767, 1)]
    );
    let messages = encode_win_input_batch(
        &mut WinInputEncoder::default(),
        &records,
        &InnerInputState::default(),
    );
    let resizes = messages
        .iter()
        .filter(|message| **message == WinInputBatchMessage::Resize)
        .count();
    assert_eq!(resizes, 3);
}

#[test]
fn batch_holds_what_the_records_encode_to() {
    let records = console_records(&[
        key_record('A' as u16, 0x1e, 'a', true, 2, 0),
        resize_input_record(10, 10),
        focus_input_record(true),
        key_record('B' as u16, 0x30, 'b', true, 1, 0),
        key_record('C' as u16, 0x2e, 'c', true, 1, 0),
    ]);
    let state = InnerInputState::default();

    let mut stdin = Vec::new();
    for message in encode_win_input_batch(&mut WinInputEncoder::default(), &records, &state) {
        if let WinInputBatchMessage::Stdin(data) = message {
            assert!(!data.is_empty());
            stdin.extend_from_slice(&data);
        }
    }
    assert_eq!(stdin, b"aabc");
    assert_eq!(
        stdin,
        WinInputEncoder::default().encode_records(&records, &state)
    );
}

#[test]
fn batch_without_records_has_no_messages() {
    assert_eq!(
        encode_batch(
            &mut WinInputEncoder::default(),
            &[],
            &InnerInputState::default()
        ),
        vec![]
    );
}

#[test]
fn batch_keeps_resizes_between_the_input_around_them() {
    let records = [
        key_record('A' as u16, 0x1e, 'a', true, 1, 0),
        key_record('B' as u16, 0x30, 'b', true, 1, 0),
        focus_input_record(false),
        resize_input_record(80, 25),
        resize_input_record(81, 26),
        key_record('C' as u16, 0x2e, 'c', true, 1, 0),
        key_record('C' as u16, 0x2e, 'c', false, 1, 0),
        key_record('D' as u16, 0x20, 'd', true, 1, 0),
    ];
    let messages = encode_batch(
        &mut WinInputEncoder::default(),
        &records,
        &InnerInputState::default(),
    );

    assert_eq!(
        messages,
        vec![
            WinInputBatchMessage::Stdin(b"ab".to_vec()),
            WinInputBatchMessage::Resize,
            WinInputBatchMessage::Resize,
            WinInputBatchMessage::Stdin(b"cd".to_vec()),
        ]
    );
    let keys: Vec<_> = records
        .iter()
        .filter(|record| !matches!(record, InputRecord::WindowBufferSize { .. }))
        .copied()
        .collect();
    assert_eq!(
        WinInputEncoder::default()
            .encode_records(&console_records(&keys), &InnerInputState::default()),
        b"abcd"
    );
}

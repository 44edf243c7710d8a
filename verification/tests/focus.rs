//! What changes of the focus send.

use asciicast::console::{ConsoleRecord, InputRecord, KeyEventRecord};
use asciicast::encoder::WinInputEncoder;
use asciicast::modes::InnerInputState;

fn key_record_u16(
    virtual_key: u16,
    scan_code: u16,
    unicode: u16,
    key_down: bool,
    repeat_count: u16,
    control_state: u32,
) -> InputRecord {
    InputRecord::Key(KeyEventRecord {
        key_down,
        repeat_count,
        virtual_key_code: virtual_key,
        virtual_scan_code: scan_code,
        unicode_char: unicode,
        control_key_state: control_state,
    })
}

fn key_record(
    virtual_key: u16,
    scan_code: u16,
    ch: char,
    key_down: bool,
    repeat_count: u16,
    control_state: u32,
) -> InputRecord {
    key_record_u16(
        virtual_key,
        scan_code,
        ch as u16,
        key_down,
        repeat_count,
        control_state,
    )
}

fn console_record(record: &InputRecord, _state: &InnerInputState) -> ConsoleRecord {
    ConsoleRecord {
        record: *record,
        decoded: vec![],
    }
}

fn encode_with(
    encoder: &mut WinInputEncoder,
    records: &[InputRecord],
    state: &InnerInputState,
) -> Vec<u8> {
    let records: Vec<ConsoleRecord> = records
        .iter()
        .map(|record| console_record(record, state))
        .collect();
    encoder.encode_records(&records, state)
}

fn encode_records_default(records: &[InputRecord]) -> Vec<u8> {
    encode_with(
        &mut WinInputEncoder::default(),
        records,
        &InnerInputState::default(),
    )
}

#[test]
fn encodes_focus_events_when_enabled() {
    let state = InnerInputState {
        focus: true,
        ..Default::default()
    };
    let record = InputRecord::Focus {
        set_focus: true,
    };
    let mut encoder = WinInputEncoder::default();

    assert_eq!(
        encode_with(&mut encoder, &[record], &state),
        b"\x1b[I"
    );
}

#[test]
fn focus_disabled_emits_nothing_and_focus_lost_encodes() {
    let record = InputRecord::Focus {
        set_focus: false,
    };
    let mut encoder = WinInputEncoder::default();

    assert_eq!(
        encode_with(&mut encoder, &[record], &InnerInputState::default()),
        b""
    );

    let state = InnerInputState {
        focus: true,
        ..Default::default()
    };
    assert_eq!(
        encode_with(&mut encoder, &[record], &state),
        b"\x1b[O"
    );
}

#[test]
fn menu_events_are_ignored_without_disturbing_key_order() {
    let records = [
        key_record('A' as u16, 0x1e, 'a', true, 1, 0),
        InputRecord::Other,
        key_record('B' as u16, 0x30, 'b', true, 1, 0),
    ];

    assert_eq!(encode_records_default(&records), b"ab");
}

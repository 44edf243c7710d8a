//! What keys send.

use asciicast::console::{
    ConsoleRecord, InputRecord, KeyEventRecord, CAPSLOCK_ON, ENHANCED_KEY, LEFT_ALT_PRESSED,
    LEFT_CTRL_PRESSED, NUMLOCK_ON, RIGHT_ALT_PRESSED, RIGHT_CTRL_PRESSED, SCROLLLOCK_ON,
    SHIFT_PRESSED,
};
use asciicast::decoded::{InputEvent, KeyEvent};
use asciicast::encoder::{needs_decoding, WinInputEncoder};
use asciicast::modes::InnerInputState;
use termwiz::input::{KeyCode, Modifiers};

const VK_TAB: u16 = 0x09;
const VK_ESCAPE: u16 = 0x1b;
const VK_LEFT: u16 = 0x25;
const VK_UP: u16 = 0x26;
const VK_RIGHT: u16 = 0x27;

fn key_record_u16(
    virtual_key: u16,
    scan_code: u16,
    unicode: u16,
    key_down: bool,
    repeat_count: u16,
    control_state: u32,
) -> InputRecord {
    InputRecord::Key(KeyEventRecord {
        key_down,
        repeat_count,
        virtual_key_code: virtual_key,
        virtual_scan_code: scan_code,
        unicode_char: unicode,
        control_key_state: control_state,
    })
}

fn key_record(
    virtual_key: u16,
    scan_code: u16,
    ch: char,
    key_down: bool,
    repeat_count: u16,
    control_state: u32,
) -> InputRecord {
    key_record_u16(
        virtual_key,
        scan_code,
        ch as u16,
        key_down,
        repeat_count,
        control_state,
    )
}

/// Decodes the keys that the tests press as the console decoder does.
fn decode(record: &InputRecord) -> Vec<InputEvent> {
    let key = match record {
        InputRecord::Key(key) if key.key_down && key.unicode_char == 0 => key,
        _ => return vec![],
    };
    let code = match key.virtual_key_code {
        VK_TAB => KeyCode::Tab,
        VK_LEFT => KeyCode::LeftArrow,
        VK_UP => KeyCode::UpArrow,
        VK_RIGHT => KeyCode::RightArrow,
        _ => return vec![],
    };
    let mut modifiers = Modifiers::NONE;
    if key.control_key_state & (LEFT_ALT_PRESSED | RIGHT_ALT_PRESSED) != 0 {
        modifiers |= Modifiers::ALT;
    }
    if key.control_key_state & (LEFT_CTRL_PRESSED | RIGHT_CTRL_PRESSED) != 0 {
        modifiers |= Modifiers::CTRL;
    }
    if key.control_key_state & SHIFT_PRESSED != 0 {
        modifiers |= Modifiers::SHIFT;
    }
    let event = InputEvent::Key(KeyEvent {
        key: code,
        modifiers: modifiers.bits(),
    });
    vec![event; key.repeat_count as usize]
}

fn console_record(record: &InputRecord, state: &InnerInputState) -> ConsoleRecord {
    ConsoleRecord {
        record: *record,
        decoded: if needs_decoding(record, state) {
            decode(record)
        } else {
            vec![]
        },
    }
}

fn encode_with(
    encoder: &mut WinInputEncoder,
    records: &[InputRecord],
    state: &InnerInputState,
) -> Vec<u8> {
    let records: Vec<ConsoleRecord> = records
        .iter()
        .map(|record| console_record(record, state))
        .collect();
    encoder.encode_records(&records, state)
}

fn encode_records_with_state(records: &[InputRecord], state: &InnerInputState) -> Vec<u8> {
    encode_with(&mut WinInputEncoder::default(), records, state)
}

fn encode_records_default(records: &[InputRecord]) -> Vec<u8> {
    encode_records_with_state(records, &InnerInputState::default())
}

fn win32_state() -> InnerInputState {
    InnerInputState {
        win32_input: true,
        ..Default::default()
    }
}

fn expected_win32_key(
    virtual_key: u16,
    scan_code: u16,
    unicode: u32,
    key_down: bool,
    control_state: u32,
    repeat_count: u16,
) -> Vec<u8> {
    format!(
        "\x1b[{virtual_key};{scan_code};{unicode};{};{control_state};{repeat_count}_",
        if key_down { 1 } else { 0 }
    )
    .into_bytes()
}

#[test]
fn application_cursor_mode_changes_arrow_encoding() {
    let up = key_record(VK_UP, 0x48, '\0', true, 1, 0);

    assert_eq!(encode_records_default(&[up]), b"\x1b[A");

    let state = InnerInputState {
        application_cursor_keys: true,
        ..Default::default()
    };
    assert_eq!(encode_records_with_state(&[up], &state), b"\x1bOA");
}

#[test]
fn preserves_record_order_between_non_printable_and_printable_keys() {
    let left = key_record(VK_LEFT, 0x4b, '\0', true, 1, 0);
    let a = key_record('A' as u16, 0x1e, 'a', true, 1, 0);

    assert_eq!(encode_records_default(&[left, a]), b"\x1b[Da");
}

#[test]
fn repeats_plain_printable_key_records() {
    let a = key_record('A' as u16, 0x1e, 'a', true, 3, 0);

    assert_eq!(encode_records_default(&[a]), b"aaa");
}

#[test]
fn win32_input_encodes_printable_key_records() {
    let a = key_record('A' as u16, 0x1e, 'a', true, 2, 0);

    assert_eq!(
        encode_records_with_state(&[a], &win32_state()),
        expected_win32_key(65, 30, 97, true, 0, 2)
    );
}

#[test]
fn win32_input_preserves_surrogate_pair_code_units() {
    let high = key_record_u16(0, 0, 0xd83d, true, 1, 0);
    let low = key_record_u16(0, 0, 0xde00, true, 1, 0);

    assert_eq!(
        encode_records_with_state(&[high, low], &win32_state()),
        [
            expected_win32_key(0, 0, 0xd83d, true, 0, 1),
            expected_win32_key(0, 0, 0xde00, true, 0, 1)
        ]
        .concat()
    );
}

#[test]
fn win32_input_preserves_key_control_state() {
    let control_state = SHIFT_PRESSED | RIGHT_CTRL_PRESSED | LEFT_ALT_PRESSED | ENHANCED_KEY;
    let a = key_record('A' as u16, 0x1e, 'a', true, 1, control_state);
    let a_up = key_record('A' as u16, 0x1e, 'a', false, 1, control_state);

    assert_eq!(
        encode_records_with_state(&[a, a_up], &win32_state()),
        [
            expected_win32_key(65, 30, 97, true, control_state, 1),
            expected_win32_key(65, 30, 97, false, control_state, 1),
        ]
        .concat()
    );
}

#[test]
fn win32_input_preserves_control_state_matrix() {
    for control_state in [
        LEFT_CTRL_PRESSED,
        RIGHT_CTRL_PRESSED,
        LEFT_ALT_PRESSED,
        RIGHT_ALT_PRESSED,
        LEFT_CTRL_PRESSED | RIGHT_ALT_PRESSED,
        CAPSLOCK_ON | NUMLOCK_ON | SCROLLLOCK_ON,
        ENHANCED_KEY | SHIFT_PRESSED,
    ] {
        let down = key_record(VK_LEFT, 0x4b, '\0', true, 1, control_state);
        let up = key_record(VK_LEFT, 0x4b, '\0', false, 1, control_state);

        assert_eq!(
            encode_records_with_state(&[down, up], &win32_state()),
            [
                expected_win32_key(VK_LEFT, 0x4b, 0, true, control_state, 1),
                expected_win32_key(VK_LEFT, 0x4b, 0, false, control_state, 1),
            ]
            .concat()
        );
    }
}

#[test]
fn key_up_is_ignored_in_plain_mode_and_encoded_in_win32_mode() {
    let a_up = key_record('A' as u16, 0x1e, 'a', false, 1, 0);

    assert_eq!(encode_records_default(&[a_up]), b"");

    assert_eq!(
        encode_records_with_state(&[a_up], &win32_state()),
        expected_win32_key(65, 30, 97, false, 0, 1)
    );
}

#[test]
fn repeats_non_printable_key_records() {
    let up = key_record(VK_UP, 0x48, '\0', true, 3, 0);

    assert_eq!(encode_records_default(&[up]), b"\x1b[A\x1b[A\x1b[A");
}

#[test]
fn modified_non_printable_keys_encode_xterm_modifiers() {
    let shifted_tab = key_record(VK_TAB, 0x0f, '\0', true, 1, SHIFT_PRESSED);
    let ctrl_left = key_record(
        VK_LEFT,
        0x4b,
        '\0',
        true,
        1,
        LEFT_CTRL_PRESSED,
    );

    assert_eq!(encode_records_default(&[shifted_tab]), b"\x1b[Z");
    assert_eq!(encode_records_default(&[ctrl_left]), b"\x1b[1;5D");
}

#[test]
fn alt_and_enhanced_non_printable_keys_encode_xterm_modifiers() {
    let alt_up = key_record(VK_UP, 0x48, '\0', true, 1, LEFT_ALT_PRESSED);
    let ctrl_alt_right = key_record(
        VK_RIGHT,
        0x4d,
        '\0',
        true,
        1,
        LEFT_CTRL_PRESSED | RIGHT_ALT_PRESSED | ENHANCED_KEY,
    );

    assert_eq!(encode_records_default(&[alt_up]), b"\x1b[1;3A");
    assert_eq!(encode_records_default(&[ctrl_alt_right]), b"\x1b[1;7C");
}

#[test]
fn unknown_event_types_are_ignored_without_disturbing_key_order() {
    let unknown = InputRecord::Other;
    let records = [
        key_record('A' as u16, 0x1e, 'a', true, 1, 0),
        unknown,
        key_record('B' as u16, 0x30, 'b', true, 1, 0),
    ];

    assert_eq!(encode_records_default(&records), b"ab");
}

#[test]
fn plain_text_preserves_bmp_unicode_and_ignores_unpaired_surrogates() {
    let e_acute = key_record(0, 0, 'é', true, 2, 0);
    let high_surrogate = key_record_u16(0, 0, 0xd83d, true, 1, 0);

    assert_eq!(encode_records_default(&[e_acute]), "éé".as_bytes());
    assert_eq!(encode_records_default(&[high_surrogate]), b"");
}

#[test]
fn response_like_text_is_not_swallowed_in_plain_mode() {
    let mut encoder = WinInputEncoder::default();
    let records = [
        key_record('[' as u16, 0, '[', true, 1, 0),
        key_record('?' as u16, 0, '?', true, 1, 0),
        key_record('6' as u16, 0, '6', true, 1, 0),
        key_record('1' as u16, 0, '1', true, 1, 0),
        key_record('c' as u16, 0, 'c', true, 1, 0),
        key_record('A' as u16, 0x1e, 'a', true, 1, 0),
    ];

    assert_eq!(
        encode_with(&mut encoder, &records, &InnerInputState::default()),
        b"[?61ca"
    );
}

#[test]
fn esc_prefixed_response_like_text_is_not_swallowed() {
    let mut encoder = WinInputEncoder::default();
    let first = [
        key_record(VK_ESCAPE, 1, '\x1b', true, 1, 0),
        key_record('[' as u16, 0, '[', true, 1, 0),
        key_record('6' as u16, 0, '6', true, 1, 0),
    ];
    let second = [
        key_record('n' as u16, 0, 'n', true, 1, 0),
        key_record('a' as u16, 0x1e, 'a', true, 1, 0),
    ];

    assert_eq!(
        encode_with(&mut encoder, &first, &InnerInputState::default()),
        b"\x1b[6"
    );
    assert_eq!(
        encode_with(&mut encoder, &second, &InnerInputState::default()),
        b"na"
    );
}

#[test]
fn response_like_text_is_encoded_in_win32_mode() {
    let mut encoder = WinInputEncoder::default();
    let records = [
        key_record('[' as u16, 0, '[', true, 1, 0),
        key_record('?' as u16, 0, '?', true, 1, 0),
        key_record('6' as u16, 0, '6', true, 1, 0),
        key_record('1' as u16, 0, '1', true, 1, 0),
        key_record('c' as u16, 0, 'c', true, 1, 0),
        key_record('A' as u16, 0x1e, 'a', true, 1, 0),
    ];
    let state = InnerInputState {
        win32_input: true,
        ..Default::default()
    };

    assert_eq!(
        encode_with(&mut encoder, &records, &state),
        b"\x1b[91;0;91;1;0;1_\x1b[63;0;63;1;0;1_\x1b[54;0;54;1;0;1_\x1b[49;0;49;1;0;1_\x1b[99;0;99;1;0;1_\x1b[65;30;97;1;0;1_"
    );
}

#[test]
fn split_response_like_text_is_not_swallowed() {
    let mut encoder = WinInputEncoder::default();
    let first = [
        key_record('[' as u16, 0, '[', true, 1, 0),
        key_record('?' as u16, 0, '?', true, 1, 0),
        key_record('6' as u16, 0, '6', true, 1, 0),
        key_record('1' as u16, 0, '1', true, 1, 0),
    ];
    let second = [
        key_record('c' as u16, 0, 'c', true, 1, 0),
        key_record('A' as u16, 0x1e, 'a', true, 1, 0),
    ];

    assert_eq!(
        encode_with(&mut encoder, &first, &InnerInputState::default()),
        b"[?61"
    );
    assert_eq!(
        encode_with(&mut encoder, &second, &InnerInputState::default()),
        b"ca"
    );
}

#[test]
fn surrogate_pairs_are_put_together() {
    let high = key_record_u16(0, 0, 0xd83d, true, 1, 0);
    let low = key_record_u16(0, 0, 0xde00, true, 2, 0);
    let a = key_record('A' as u16, 0x1e, 'a', true, 1, 0);

    assert_eq!(
        encode_records_default(&[high, low]),
        "\u{1f600}\u{1f600}".as_bytes()
    );
    assert_eq!(encode_records_default(&[low]), b"");
    assert_eq!(encode_records_default(&[high, a, low]), b"a");
    let up = key_record_u16(0, 0, 0xd83d, false, 1, 0);
    assert_eq!(
        encode_records_default(&[high, up, low]),
        "\u{1f600}\u{1f600}".as_bytes()
    );
    let last = [
        key_record_u16(0, 0, 0xdbff, true, 1, 0),
        key_record_u16(0, 0, 0xdfff, true, 1, 0),
    ];
    assert_eq!(encode_records_default(&last), "\u{10ffff}".as_bytes());
}

#[test]
fn alt_puts_an_escape_before_the_character() {
    let alt_a = key_record('A' as u16, 0x1e, 'a', true, 2, LEFT_ALT_PRESSED);
    assert_eq!(encode_records_default(&[alt_a]), b"\x1ba\x1ba");
    let alt_gr = key_record('Q' as u16, 0x10, '@', true, 1, LEFT_CTRL_PRESSED | RIGHT_ALT_PRESSED);
    assert_eq!(encode_records_default(&[alt_gr]), b"");
}

#[test]
fn ctrl_sends_control_characters_only() {
    let ctrl_c = key_record('C' as u16, 0x2e, '\x03', true, 1, LEFT_CTRL_PRESSED);
    assert_eq!(encode_records_default(&[ctrl_c]), b"\x03");
    let ctrl_alt_c = key_record(
        'C' as u16,
        0x2e,
        '\x03',
        true,
        1,
        RIGHT_CTRL_PRESSED | LEFT_ALT_PRESSED,
    );
    assert_eq!(encode_records_default(&[ctrl_alt_c]), b"\x1b\x03");
    let ctrl_x = key_record('X' as u16, 0x2d, 'x', true, 1, RIGHT_CTRL_PRESSED);
    assert!(needs_decoding(&ctrl_x, &InnerInputState::default()));
    assert!(!needs_decoding(&ctrl_x, &win32_state()));
    assert!(!needs_decoding(&ctrl_c, &InnerInputState::default()));
}

#[test]
fn records_encode_the_same_in_pieces() {
    let records = [
        key_record_u16(0, 0, 0xd83d, true, 1, 0),
        key_record_u16(0, 0, 0xde00, true, 1, 0),
        key_record(VK_UP, 0x48, '\0', true, 2, 0),
        key_record('A' as u16, 0x1e, 'a', true, 1, 0),
    ];
    let state = InnerInputState::default();
    let whole = encode_records_default(&records);
    for cut in 0..=records.len() {
        let mut encoder = WinInputEncoder::default();
        let mut pieces = encode_with(&mut encoder, &records[..cut], &state);
        pieces.extend(encode_with(&mut encoder, &records[cut..], &state));
        assert_eq!(pieces, whole);
    }
}

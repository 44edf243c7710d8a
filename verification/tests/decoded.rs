//! Events that console input was decoded to.

use asciicast::decoded::{
    append_decoded_event, append_decoded_events, append_encoded_key, InputEvent, KeyEvent,
};
use termwiz::input::{KeyCode, Modifiers};

fn encode(event: InputEvent, application_cursor_keys: bool) -> Vec<u8> {
    let mut output = b">".to_vec();
    append_decoded_event(&mut output, &event, application_cursor_keys);
    output
}

fn key(key: KeyCode, modifiers: Modifiers) -> InputEvent {
    InputEvent::Key(KeyEvent {
        key,
        modifiers: modifiers.bits(),
    })
}

#[test]
fn keys_are_encoded_for_xterm() {
    assert_eq!(encode(key(KeyCode::Home, Modifiers::NONE), false), b">\x1b[H");
    assert_eq!(encode(key(KeyCode::Home, Modifiers::NONE), true), b">\x1bOH");
    assert_eq!(
        encode(key(KeyCode::Delete, Modifiers::CTRL), false),
        b">\x1b[3;5~"
    );
    assert_eq!(
        encode(key(KeyCode::Function(1), Modifiers::NONE), false),
        b">\x1bOP"
    );
    assert_eq!(encode(key(KeyCode::Enter, Modifiers::NONE), false), b">\r");
    assert_eq!(
        encode(key(KeyCode::Char('x'), Modifiers::ALT), false),
        b">\x1bx"
    );
    assert_eq!(encode(key(KeyCode::Shift, Modifiers::NONE), false), b">");
}

#[test]
fn a_key_that_cannot_be_encoded_sends_nothing() {
    assert_eq!(
        encode(key(KeyCode::Function(25), Modifiers::NONE), false),
        b">"
    );
}

#[test]
fn unknown_modifier_bits_are_ignored() {
    let event = InputEvent::Key(KeyEvent {
        key: KeyCode::UpArrow,
        modifiers: 0x8000,
    });
    assert_eq!(encode(event, false), b">\x1b[A");
}

#[test]
fn pasted_text_is_sent_as_it_is() {
    assert_eq!(
        encode(InputEvent::Paste("h\u{e9}\n".to_string()), false),
        b">h\xc3\xa9\n"
    );
}

#[test]
fn other_events_send_nothing() {
    assert_eq!(encode(InputEvent::Other, true), b">");
}

#[test]
fn events_are_sent_in_order() {
    let mut output = Vec::new();
    append_decoded_events(
        &mut output,
        &vec![
            key(KeyCode::Char('a'), Modifiers::NONE),
            InputEvent::Other,
            InputEvent::Paste("bc".to_string()),
            key(KeyCode::Tab, Modifiers::SHIFT),
        ],
        false,
    );
    assert_eq!(output, b"abc\x1b[Z");
}

#[test]
fn the_text_of_an_encoded_key_is_appended() {
    let mut output = b"1".to_vec();
    append_encoded_key(&mut output, &Some("\u{20ac}".to_string()));
    append_encoded_key(&mut output, &None);
    assert_eq!(output, "1\u{20ac}".as_bytes());
}

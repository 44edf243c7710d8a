//! Input events that console input was decoded to.

use crate::bytes::append_bytes;
use termwiz::input::{KeyCode, KeyCodeEncodeModes, KeyboardEncoding, Modifiers};
use vstd::prelude::*;
use vstd::utf8::{
    decode_utf8, encode_utf8, encode_utf8_decode_utf8, encode_utf8_valid_utf8, valid_utf8,
};

verus! {

/// The key codes of termwiz. Their variants are in sight here, so that a function key
/// with the number 0 can be told from the others.
#[verifier::external_type_specification]
pub struct ExKeyCode(termwiz::input::KeyCode);

/// A key that was pressed, with the modifiers as the bits that termwiz gives them.
#[derive(Debug, Clone, Copy, PartialEq, Eq)]
pub struct KeyEvent {
    pub key: KeyCode,
    pub modifiers: u16,
}

/// An event that console input was decoded to.
#[derive(Debug, Clone, PartialEq, Eq)]
pub enum InputEvent {
    Key(KeyEvent),
    Paste(String),
    /// Anything else, which is not passed on.
    Other,
}

/// How keys are encoded: in the way of xterm, in that of the CSI u extension, or in that
/// of the win32 input mode.
#[derive(Debug, Clone, Copy, PartialEq, Eq, Structural)]
pub enum KeyEncoding {
    Xterm,
    CsiU,
    Win32,
}

/// What `KeyCode::encode` returns, or `None` where it is an error.
pub uninterp spec fn key_encoding(
    encoding: KeyEncoding,
    key: KeyCode,
    modifiers: u16,
    application_cursor_keys: bool,
    newline_mode: bool,
    modify_other_keys: Option<i64>,
    is_down: bool,
) -> Option<Seq<char>>;

/// Calls `termwiz::input::KeyCode::encode`, and returns the text that it gives, or `None`
/// where it fails. The modifiers are the bits of `termwiz::input::Modifiers`; bits that
/// mean nothing there are ignored. The contract says that the result depends on the
/// arguments alone. A function key with the number 0 makes the call panic and is left
/// out.
#[verifier::external_body]
fn encode_key(
    encoding: KeyEncoding,
    key: &KeyCode,
    modifiers: u16,
    application_cursor_keys: bool,
    newline_mode: bool,
    modify_other_keys: Option<i64>,
    is_down: bool,
) -> (r: Option<String>)
    requires
        *key != KeyCode::Function(0),
    ensures
        (match r {
            Some(text) => Some(text@),
            None => None,
        }) == key_encoding(
            encoding,
            *key,
            modifiers,
            application_cursor_keys,
            newline_mode,
            modify_other_keys,
            is_down,
        ),
{
    let encoding = match encoding {
        KeyEncoding::Xterm => KeyboardEncoding::Xterm,
        KeyEncoding::CsiU => KeyboardEncoding::CsiU,
        KeyEncoding::Win32 => KeyboardEncoding::Win32,
    };
    let modes =
        KeyCodeEncodeModes { encoding, application_cursor_keys, newline_mode, modify_other_keys };
    key.encode(Modifiers::from_bits_truncate(modifiers), modes, is_down).ok()
}

/// The UTF-8 encoding of a text, or nothing where there is none.
pub open spec fn text_bytes(text: Option<Seq<char>>) -> Seq<u8> {
    match text {
        Some(text) => encode_utf8(text),
        None => Seq::empty(),
    }
}

/// Whether the event can be encoded: function keys count from 1.
pub open spec fn event_encodable(event: InputEvent) -> bool {
    event matches InputEvent::Key(key) ==> key.key != KeyCode::Function(0)
}

/// What is sent to the program for the event. A pasted text is sent as it is.
pub open spec fn event_bytes(event: InputEvent, application_cursor_keys: bool) -> Seq<u8> {
    match event {
        InputEvent::Key(key) => text_bytes(
            key_encoding(
                KeyEncoding::Xterm,
                key.key,
                key.modifiers,
                application_cursor_keys,
                false,
                None,
                true,
            ),
        ),
        InputEvent::Paste(text) => encode_utf8(text@),
        InputEvent::Other => Seq::empty(),
    }
}

/// What is sent to the program for the events, in order.
pub open spec fn events_bytes(events: Seq<InputEvent>, application_cursor_keys: bool) -> Seq<u8>
    decreases events.len(),
{
    if events.len() == 0 {
        Seq::empty()
    } else {
        events_bytes(events.drop_last(), application_cursor_keys) + event_bytes(
            events.last(),
            application_cursor_keys,
        )
    }
}

/// Tells whether the event can be encoded.
pub fn can_encode_event(event: &InputEvent) -> (r: bool)
    ensures
        r == event_encodable(*event),
{
    match event {
        InputEvent::Key(key) => match key.key {
            KeyCode::Function(number) => number != 0,
            _ => true,
        },
        _ => true,
    }
}

/// Appends the text that a key was encoded to, or nothing where that failed.
pub fn append_encoded_key(output: &mut Vec<u8>, encoded: &Option<String>)
    ensures
        final(output)@ == old(output)@ + text_bytes(
            match encoded {
                Some(text) => Some(text@),
                None => None,
            },
        ),
{
    if let Some(text) = encoded {
        append_bytes(output, text.as_str().as_bytes());
    } else {
        assert(output@ =~= old(output)@ + Seq::<u8>::empty());
    }
}

/// Appends what is sent to the program for the event.
pub fn append_decoded_event(
    output: &mut Vec<u8>,
    event: &InputEvent,
    application_cursor_keys: bool,
)
    requires
        event_encodable(*event),
    ensures
        final(output)@ == old(output)@ + event_bytes(*event, application_cursor_keys),
{
    match event {
        InputEvent::Key(key) => {
            let encoded = encode_key(
                KeyEncoding::Xterm,
                &key.key,
                key.modifiers,
                application_cursor_keys,
                false,
                None,
                true,
            );
            append_encoded_key(output, &encoded);
        },
        InputEvent::Paste(text) => {
            append_bytes(output, text.as_str().as_bytes());
        },
        InputEvent::Other => {
            assert(output@ =~= old(output)@ + Seq::<u8>::empty());
        },
    }
}

/// Appends what is sent to the program for the events, in order.
pub fn append_decoded_events(
    output: &mut Vec<u8>,
    events: &Vec<InputEvent>,
    application_cursor_keys: bool,
)
    requires
        forall|i: int| 0 <= i < events@.len() ==> event_encodable(#[trigger] events@[i]),
    ensures
        final(output)@ == old(output)@ + events_bytes(events@, application_cursor_keys),
{
    let ghost before = output@;
    let mut i: usize = 0;
    assert(output@ =~= before + events_bytes(events@.take(0), application_cursor_keys));
    while i < events.len()
        invariant
            i <= events@.len(),
            forall|k: int| 0 <= k < events@.len() ==> event_encodable(#[trigger] events@[k]),
            output@ == before + events_bytes(events@.take(i as int), application_cursor_keys),
        decreases events@.len() - i,
    {
        append_decoded_event(output, &events[i], application_cursor_keys);
        assert(events@.take(i + 1).drop_last() =~= events@.take(i as int));
        assert(output@ =~= before + events_bytes(events@.take(i + 1), application_cursor_keys));
        i = i + 1;
    }
    assert(events@.take(events@.len() as int) =~= events@);
}

/// Events are sent one behind the other, each as it is sent alone, however they are cut
/// into stretches.
pub proof fn law_events_are_sent_in_order(
    a: Seq<InputEvent>,
    b: Seq<InputEvent>,
    event: InputEvent,
    application_cursor_keys: bool,
)
    ensures
        events_bytes(a + b, application_cursor_keys) == events_bytes(a, application_cursor_keys)
            + events_bytes(b, application_cursor_keys),
        events_bytes(seq![event], application_cursor_keys) == event_bytes(
            event,
            application_cursor_keys,
        ),
    decreases b.len(),
{
    assert(seq![event].drop_last() =~= Seq::<InputEvent>::empty());
    assert(events_bytes(seq![event].drop_last(), application_cursor_keys) =~= Seq::<u8>::empty());
    assert(events_bytes(seq![event], application_cursor_keys) =~= event_bytes(
        event,
        application_cursor_keys,
    ));
    if b.len() == 0 {
        assert(a + b =~= a);
        assert(events_bytes(a, application_cursor_keys) + events_bytes(b, application_cursor_keys)
            =~= events_bytes(a, application_cursor_keys));
    } else {
        law_events_are_sent_in_order(a, b.drop_last(), event, application_cursor_keys);
        assert((a + b).drop_last() =~= a + b.drop_last());
        assert(events_bytes(a + b, application_cursor_keys) =~= events_bytes(
            a,
            application_cursor_keys,
        ) + events_bytes(b, application_cursor_keys));
    }
}

/// A pasted text is sent as it is: read as UTF-8, what is sent is the text. So is the text
/// that a key is encoded to, in the way of xterm, as a key that goes down, with its own
/// modifiers and with the cursor keys as the program has set them; where there is none,
/// nothing is sent. Other events send nothing.
pub proof fn law_event_sends_its_text(event: InputEvent, application_cursor_keys: bool)
    ensures
        ({
            let sent = event_bytes(event, application_cursor_keys);
            &&& valid_utf8(sent)
            &&& event matches InputEvent::Paste(text) ==> decode_utf8(sent) == text@
            &&& event is Other ==> sent == Seq::<u8>::empty()
            &&& event matches InputEvent::Key(key) ==> match key_encoding(
                KeyEncoding::Xterm,
                key.key,
                key.modifiers,
                application_cursor_keys,
                false,
                None,
                true,
            ) {
                Some(text) => decode_utf8(sent) == text,
                None => sent == Seq::<u8>::empty(),
            }
        }),
{
    match event {
        InputEvent::Paste(text) => {
            encode_utf8_valid_utf8(text@);
            encode_utf8_decode_utf8(text@);
        },
        InputEvent::Key(key) => {
            let encoded = key_encoding(
                KeyEncoding::Xterm,
                key.key,
                key.modifiers,
                application_cursor_keys,
                false,
                None,
                true,
            );
            if let Some(text) = encoded {
                encode_utf8_valid_utf8(text);
                encode_utf8_decode_utf8(text);
            }
        },
        InputEvent::Other => {},
    }
}

/// The only event that cannot be encoded is a function key with the number 0.
pub proof fn law_only_function_keys_from_one(event: InputEvent)
    ensures
        event_encodable(event) <==> !(event matches InputEvent::Key(key) && key.key
            == KeyCode::Function(0)),
{
}

} // verus!

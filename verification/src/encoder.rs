//! Encoding console input for the recorded program.

use crate::bytes::append_bytes;
use crate::decoded::{append_decoded_events, can_encode_event, event_encodable, events_bytes};
use crate::keyboard::{
    encode_win32_key, is_textless, key_text, pending_after, pending_unit, plain_text, textless,
    win32_key, HighSurrogate,
};
use crate::modes::InnerInputState;
use crate::mouse::{
    buttons_after, can_encode_mouse, encode, mouse_bytes, mouse_encodable, pressed_after,
};
use crate::console::{ConsoleRecord, InputRecord, KeyEventRecord, MouseEventRecord};
use crate::size::{resized_to, window_size, PtySize};
use vstd::prelude::*;

verus! {

/// What the encoder carries from one record to the next.
pub struct EncoderState {
    /// The mouse buttons that count as pressed.
    pub buttons: u32,
    /// The first half of a surrogate pair that waits for the second.
    pub high: Option<u16>,
}

/// What the program is told when the window gets or loses the focus: `ESC [ I` or
/// `ESC [ O`.
pub open spec fn focus_bytes(set_focus: bool) -> Seq<u8> {
    seq![
        0x1bu8,
        0x5bu8,
        if set_focus {
            0x49u8
        } else {
            0x4fu8
        },
    ]
}

/// Whether a record takes decoding: a key that stands for no text, unless keys are
/// sent as they are.
pub open spec fn takes_decoding(record: InputRecord, state: InnerInputState) -> bool {
    match record {
        InputRecord::Key(key) => !state.win32_input && is_textless(key),
        _ => false,
    }
}

/// What is sent to the program for one record.
#[verifier::opaque]
pub open spec fn record_bytes(
    encoder: EncoderState,
    record: ConsoleRecord,
    state: InnerInputState,
) -> Seq<u8> {
    match record.record {
        InputRecord::Key(key) => if state.win32_input {
            win32_key(key)
        } else if is_textless(key) {
            events_bytes(record.decoded@, state.application_cursor_keys)
        } else {
            key_text(encoder.high, key)
        },
        InputRecord::Mouse(mouse) => match mouse_bytes(encoder.buttons, mouse, state) {
            Some(bytes) => bytes,
            None => Seq::empty(),
        },
        InputRecord::Focus { set_focus } => if state.focus {
            focus_bytes(set_focus)
        } else {
            Seq::empty()
        },
        InputRecord::WindowBufferSize { columns, rows } => Seq::empty(),
        InputRecord::Other => Seq::empty(),
    }
}

/// What the encoder carries on behind one record.
pub open spec fn after_record(
    encoder: EncoderState,
    record: InputRecord,
    state: InnerInputState,
) -> EncoderState {
    match record {
        InputRecord::Key(key) => if state.win32_input {
            encoder
        } else {
            EncoderState { high: pending_after(encoder.high, key), ..encoder }
        },
        InputRecord::Mouse(mouse) => EncoderState {
            buttons: buttons_after(mouse, state),
            ..encoder
        },
        _ => encoder,
    }
}

/// Whether one record can be encoded.
pub open spec fn record_encodable(
    encoder: EncoderState,
    record: ConsoleRecord,
    state: InnerInputState,
) -> bool {
    &&& takes_decoding(record.record, state) ==> forall|i: int|
        0 <= i < record.decoded@.len() ==> event_encodable(#[trigger] record.decoded@[i])
    &&& record.record matches InputRecord::Mouse(mouse) ==> mouse_encodable(
        encoder.buttons,
        mouse,
        state,
    )
}

/// What comes of encoding records: what is sent to the program, and what the
/// encoder carries on.
#[verifier::ext_equal]
pub struct Encoded {
    pub bytes: Seq<u8>,
    pub encoder: EncoderState,
}

/// What comes of encoding the records in order.
pub open spec fn encoded(
    encoder: EncoderState,
    records: Seq<ConsoleRecord>,
    state: InnerInputState,
) -> Encoded
    decreases records.len(),
{
    if records.len() == 0 {
        Encoded { bytes: Seq::empty(), encoder }
    } else {
        let before = encoded(encoder, records.drop_last(), state);
        Encoded {
            bytes: before.bytes + record_bytes(before.encoder, records.last(), state),
            encoder: after_record(before.encoder, records.last().record, state),
        }
    }
}

/// Whether all the records can be encoded in order.
pub open spec fn encodable(
    encoder: EncoderState,
    records: Seq<ConsoleRecord>,
    state: InnerInputState,
) -> bool {
    forall|i: int|
        0 <= i < records.len() ==> record_encodable(
            encoded(encoder, records.take(i), state).encoder,
            #[trigger] records[i],
            state,
        )
}

/// Tells whether a record takes decoding before it is encoded.
pub fn needs_decoding(record: &InputRecord, state: &InnerInputState) -> (r: bool)
    ensures
        r == takes_decoding(*record, *state),
{
    match record {
        InputRecord::Key(key) => !state.win32_input && textless(key),
        _ => false,
    }
}

/// Tells whether one record can be encoded, where the given mouse buttons count as
/// pressed before.
fn can_encode_record(
    buttons: u32,
    record: &ConsoleRecord,
    state: &InnerInputState,
    Ghost(encoder): Ghost<EncoderState>,
) -> (r: bool)
    requires
        buttons == encoder.buttons,
    ensures
        r == record_encodable(encoder, *record, *state),
{
    if let InputRecord::Mouse(mouse) = &record.record {
        return can_encode_mouse(buttons, mouse, state);
    }
    if !needs_decoding(&record.record, state) {
        return true;
    }
    let mut i: usize = 0;
    while i < record.decoded.len()
        invariant
            i <= record.decoded@.len(),
            takes_decoding(record.record, *state),
            forall|k: int| 0 <= k < i ==> event_encodable(#[trigger] record.decoded@[k]),
        decreases record.decoded@.len() - i,
    {
        if !can_encode_event(&record.decoded[i]) {
            return false;
        }
        i = i + 1;
    }
    true
}

/// Encodes console input for the recorded program, according to the input modes that
/// the program has set.
#[derive(Debug)]
pub struct WinInputEncoder {
    /// The mouse buttons that count as pressed.
    pub last_mouse_buttons: u32,
    /// The first half of a surrogate pair that waits for the second.
    pub pending_high_surrogate: Option<HighSurrogate>,
}

impl View for WinInputEncoder {
    type V = EncoderState;

    open spec fn view(&self) -> EncoderState {
        EncoderState {
            buttons: self.last_mouse_buttons,
            high: pending_unit(self.pending_high_surrogate),
        }
    }
}

impl Default for WinInputEncoder {
    fn default() -> (encoder: Self)
        ensures
            encoder@ == (EncoderState { buttons: 0, high: None }),
    {
        WinInputEncoder { last_mouse_buttons: 0, pending_high_surrogate: None }
    }
}

impl WinInputEncoder {
    /// The text that a key sends, or `None` if it stands for none.
    pub fn encode_plain_text_key(&mut self, key: &KeyEventRecord) -> (r: Option<Vec<u8>>)
        ensures
            final(self)@ == (EncoderState {
                high: pending_after(old(self)@.high, *key),
                ..old(self)@
            }),
            match r {
                Some(text) => !is_textless(*key) && text@ == key_text(old(self)@.high, *key),
                None => is_textless(*key),
            },
    {
        let mut pending = self.pending_high_surrogate;
        let r = plain_text(&mut pending, key);
        self.pending_high_surrogate = pending;
        r
    }

    /// What the mouse sends for a record, or `None` if that is nothing.
    pub fn encode_mouse(&mut self, mouse: &MouseEventRecord, state: &InnerInputState) -> (r: Option<
        Vec<u8>,
    >)
        requires
            mouse_encodable(old(self)@.buttons, *mouse, *state),
        ensures
            final(self)@ == (EncoderState {
                buttons: buttons_after(*mouse, *state),
                ..old(self)@
            }),
            match r {
                Some(bytes) => mouse_bytes(old(self)@.buttons, *mouse, *state) == Some(bytes@),
                None => mouse_bytes(old(self)@.buttons, *mouse, *state) is None,
            },
    {
        let mut last: u32 = self.last_mouse_buttons;
        let r = encode(&mut last, mouse, state);
        self.last_mouse_buttons = last;
        r
    }

    /// Tells whether all the records can be encoded in order.
    pub fn can_encode(&self, records: &[ConsoleRecord], state: &InnerInputState) -> (r: bool)
        ensures
            r == encodable(self@, records@, *state),
    {
        let mut buttons: u32 = self.last_mouse_buttons;
        let mut index: usize = 0;
        assert(records@.take(0).len() == 0);
        while index < records.len()
            invariant
                index <= records@.len(),
                buttons == encoded(self@, records@.take(index as int), *state).encoder.buttons,
                encodable(self@, records@.take(index as int), *state),
            decreases records@.len() - index,
        {
            let ghost before = encoded(self@, records@.take(index as int), *state).encoder;
            let ghost next = records@.take(index + 1);
            assert(next.drop_last() =~= records@.take(index as int));
            assert forall|i: int| 0 <= i <= index implies #[trigger] records@.take(i) == next.take(
                i,
            ) by {
                assert(records@.take(i) =~= next.take(i));
            }
            assert forall|i: int| 0 <= i < index implies #[trigger] records@.take(i)
                == records@.take(index as int).take(i) by {
                assert(records@.take(i) =~= records@.take(index as int).take(i));
            }
            if !can_encode_record(buttons, &records[index], state, Ghost(before)) {
                return false;
            }
            assert forall|i: int| 0 <= i < next.len() implies record_encodable(
                encoded(self@, next.take(i), *state).encoder,
                #[trigger] next[i],
                *state,
            ) by {
                assert(records@.take(i) == next.take(i));
                if i < index {
                    assert(records@.take(index as int)[i] == next[i]);
                    assert(records@.take(i) == records@.take(index as int).take(i));
                }
            }
            if let InputRecord::Mouse(mouse) = &records[index].record {
                buttons = pressed_after(mouse, state);
            }
            index = index + 1;
        }
        assert(records@.take(records@.len() as int) =~= records@);
        true
    }

    /// Appends what is sent to the program for one record.
    pub fn encode_record(
        &mut self,
        output: &mut Vec<u8>,
        record: &ConsoleRecord,
        state: &InnerInputState,
    )
        requires
            record_encodable(old(self)@, *record, *state),
        ensures
            final(self)@ == after_record(old(self)@, record.record, *state),
            final(output)@ == old(output)@ + record_bytes(old(self)@, *record, *state),
    {
        reveal(record_bytes);
        let ghost before = output@;
        let ghost start = self@;
        match &record.record {
            InputRecord::Key(key) => {
                if state.win32_input {
                    append_bytes(output, encode_win32_key(key).as_slice());
                } else if let Some(text) = self.encode_plain_text_key(key) {
                    append_bytes(output, text.as_slice());
                } else {
                    append_decoded_events(output, &record.decoded, state.application_cursor_keys);
                }
            },
            InputRecord::Mouse(mouse) => {
                if let Some(bytes) = self.encode_mouse(mouse, state) {
                    append_bytes(output, bytes.as_slice());
                }
            },
            InputRecord::Focus { set_focus } => {
                if state.focus {
                    output.push(0x1b);
                    output.push(0x5b);
                    output.push(if *set_focus { 0x49 } else { 0x4f });
                }
            },
            _ => {},
        }
        assert(output@ =~= before + record_bytes(start, *record, *state));
    }

    /// What is sent to the program for the records, in order.
    pub fn encode_records(&mut self, records: &[ConsoleRecord], state: &InnerInputState) -> (output:
        Vec<u8>)
        requires
            encodable(old(self)@, records@, *state),
        ensures
            ({
                let r = encoded(old(self)@, records@, *state);
                output@ == r.bytes && final(self)@ == r.encoder
            }),
    {
        let ghost start = self@;
        let mut output: Vec<u8> = Vec::new();
        let mut index: usize = 0;
        assert(records@.take(0).len() == 0);
        while index < records.len()
            invariant
                index <= records@.len(),
                start == old(self)@,
                encodable(start, records@, *state),
                ({
                    let r = encoded(start, records@.take(index as int), *state);
                    output@ == r.bytes && self@ == r.encoder
                }),
            decreases records@.len() - index,
        {
            assert(record_encodable(self@, records@[index as int], *state));
            self.encode_record(&mut output, &records[index], state);
            assert(records@.take(index + 1).drop_last() =~= records@.take(index as int));
            index = index + 1;
        }
        assert(records@.take(records@.len() as int) =~= records@);
        output
    }
}

/// What a batch of console input is passed on as.
#[derive(Debug, Clone, PartialEq, Eq)]
pub enum WinInputBatchMessage {
    /// Input for the program.
    Stdin(Vec<u8>),
    /// The window has a new size.
    Resize,
}

/// What a batch of console input is passed on as.
pub enum BatchMessage {
    Stdin(Seq<u8>),
    Resize,
}

impl View for WinInputBatchMessage {
    type V = BatchMessage;

    open spec fn view(&self) -> BatchMessage {
        match *self {
            WinInputBatchMessage::Stdin(data) => BatchMessage::Stdin(data@),
            WinInputBatchMessage::Resize => BatchMessage::Resize,
        }
    }
}

/// The views of messages.
pub open spec fn message_views(v: Seq<WinInputBatchMessage>) -> Seq<BatchMessage> {
    v.map_values(|message: WinInputBatchMessage| message@)
}

/// A batch that has been worked through up to some record.
#[verifier::ext_equal]
pub struct Batch {
    /// What was passed on.
    pub messages: Seq<BatchMessage>,
    /// The input for the program since the last change of size.
    pub bytes: Seq<u8>,
    pub encoder: EncoderState,
}

/// The messages with the input behind them, if there is any.
pub open spec fn flushed(messages: Seq<BatchMessage>, bytes: Seq<u8>) -> Seq<BatchMessage> {
    if bytes.len() == 0 {
        messages
    } else {
        messages.push(BatchMessage::Stdin(bytes))
    }
}

/// What comes of working through the records: a change of size first passes on the
/// input before it.
pub open spec fn batch(
    encoder: EncoderState,
    records: Seq<ConsoleRecord>,
    state: InnerInputState,
) -> Batch
    decreases records.len(),
{
    if records.len() == 0 {
        Batch { messages: Seq::empty(), bytes: Seq::empty(), encoder }
    } else {
        let before = batch(encoder, records.drop_last(), state);
        let record = records.last();
        if record.record is WindowBufferSize {
            Batch {
                messages: flushed(before.messages, before.bytes).push(BatchMessage::Resize),
                bytes: Seq::empty(),
                encoder: before.encoder,
            }
        } else {
            Batch {
                messages: before.messages,
                bytes: before.bytes + record_bytes(before.encoder, record, state),
                encoder: after_record(before.encoder, record.record, state),
            }
        }
    }
}

/// What the records are passed on as.
pub open spec fn batch_messages(
    encoder: EncoderState,
    records: Seq<ConsoleRecord>,
    state: InnerInputState,
) -> Seq<BatchMessage> {
    let all = batch(encoder, records, state);
    flushed(all.messages, all.bytes)
}

/// Passes on the input, if there is any.
fn flush(messages: &mut Vec<WinInputBatchMessage>, data: Vec<u8>)
    ensures
        message_views(final(messages)@) == flushed(message_views(old(messages)@), data@),
{
    let ghost before = messages@;
    if data.len() > 0 {
        messages.push(WinInputBatchMessage::Stdin(data));
        assert(message_views(messages@) =~= flushed(message_views(before), data@));
    }
}

/// A batch and the encoder of its records agree on what the encoder carries on.
pub proof fn lemma_batch_encoder(
    encoder: EncoderState,
    records: Seq<ConsoleRecord>,
    state: InnerInputState,
)
    ensures
        batch(encoder, records, state).encoder == encoded(encoder, records, state).encoder,
    decreases records.len(),
{
    if records.len() > 0 {
        lemma_batch_encoder(encoder, records.drop_last(), state);
    }
}

/// Encodes a batch of console input. Changes of size are kept in their place between
/// the input before and behind them.
pub fn encode_win_input_batch(
    encoder: &mut WinInputEncoder,
    records: &[ConsoleRecord],
    state: &InnerInputState,
) -> (r: Vec<WinInputBatchMessage>)
    requires
        encodable(old(encoder)@, records@, *state),
    ensures
        message_views(r@) == batch_messages(old(encoder)@, records@, *state),
        final(encoder)@ == encoded(old(encoder)@, records@, *state).encoder,
{
    let ghost start = encoder@;
    let mut messages: Vec<WinInputBatchMessage> = Vec::new();
    let mut data: Vec<u8> = Vec::new();
    let mut index: usize = 0;
    assert(records@.take(0).len() == 0);
    assert(message_views(messages@) =~= Seq::<BatchMessage>::empty());
    while index < records.len()
        invariant
            index <= records@.len(),
            start == old(encoder)@,
            encodable(start, records@, *state),
            ({
                let b = batch(start, records@.take(index as int), *state);
                &&& message_views(messages@) == b.messages
                &&& data@ == b.bytes
                &&& encoder@ == b.encoder
            }),
        decreases records@.len() - index,
    {
        assert(records@.take(index + 1).drop_last() =~= records@.take(index as int));
        if let InputRecord::WindowBufferSize { .. } = records[index].record {
            let mut input: Vec<u8> = Vec::new();
            core::mem::swap(&mut input, &mut data);
            flush(&mut messages, input);
            let ghost before = messages@;
            messages.push(WinInputBatchMessage::Resize);
            assert(message_views(messages@) =~= message_views(before).push(BatchMessage::Resize));
        } else {
            proof {
                lemma_batch_encoder(start, records@.take(index as int), *state);
                assert(record_encodable(encoder@, records@[index as int], *state));
            }
            encoder.encode_record(&mut data, &records[index], state);
        }
        index = index + 1;
    }
    assert(records@.take(records@.len() as int) =~= records@);
    proof {
        lemma_batch_encoder(start, records@, *state);
    }
    flush(&mut messages, data);
    messages
}

/// The sizes that the records report, in order.
pub open spec fn reported_sizes(records: Seq<ConsoleRecord>) -> Seq<PtySize>
    decreases records.len(),
{
    if records.len() == 0 {
        Seq::empty()
    } else {
        match records.last().record {
            InputRecord::WindowBufferSize { columns, rows } => reported_sizes(
                records.drop_last(),
            ).push(window_size(columns as int, rows as int)),
            _ => reported_sizes(records.drop_last()),
        }
    }
}

/// The sizes that the changes of size in a batch report, in order: one for each
/// `Resize` that the batch is passed on as.
pub fn win_input_batch_sizes(records: &[ConsoleRecord]) -> (sizes: Vec<PtySize>)
    ensures
        sizes@ == reported_sizes(records@),
{
    let mut sizes: Vec<PtySize> = Vec::new();
    let mut index: usize = 0;
    assert(records@.take(0).len() == 0);
    while index < records.len()
        invariant
            index <= records@.len(),
            sizes@ == reported_sizes(records@.take(index as int)),
        decreases records@.len() - index,
    {
        assert(records@.take(index + 1).drop_last() =~= records@.take(index as int));
        if let InputRecord::WindowBufferSize { columns, rows } = records[index].record {
            sizes.push(resized_to(columns, rows));
        }
        index = index + 1;
    }
    assert(records@.take(records@.len() as int) =~= records@);
    sizes
}

} // verus!

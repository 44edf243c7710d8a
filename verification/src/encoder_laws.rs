//! What holds of the encoding of console input for all records.

use crate::decoded::{event_encodable, events_bytes};
use crate::encoder::{
    after_record, batch, batch_messages, encodable, encoded, flushed, record_bytes,
    record_encodable, reported_sizes, takes_decoding, Batch, BatchMessage, Encoded, EncoderState,
};
use crate::keyboard::{is_textless, key_text, pending_after, win32_key};
use crate::keyboard_laws::{copies, law_key_types_its_character, lemma_encode_joined};
use crate::modes::InnerInputState;
use crate::mouse::{buttons_after, mouse_bytes, mouse_encodable};
use crate::numbers::{all_digits, decimal, lemma_decimal};
use crate::size::window_size;
use crate::console::{ConsoleRecord, InputRecord, KeyEventRecord};
use vstd::prelude::*;
use vstd::utf8::{
    char_is_scalar, char_u32_cast, decode_utf8, decode_utf8_encode_utf8, encode_utf8,
    encode_utf8_decode_utf8, encode_utf8_valid_utf8, valid_utf8,
};

verus! {

/// It does not matter how the records are cut into pieces: encoding `a` and then `b`
/// sends the same and carries the same on as encoding both at once.
pub proof fn law_records_encode_in_pieces(
    encoder: EncoderState,
    a: Seq<ConsoleRecord>,
    b: Seq<ConsoleRecord>,
    state: InnerInputState,
)
    ensures
        ({
            let first = encoded(encoder, a, state);
            let second = encoded(first.encoder, b, state);
            encoded(encoder, a + b, state) == (Encoded {
                bytes: first.bytes + second.bytes,
                encoder: second.encoder,
            })
        }),
    decreases b.len(),
{
    let first = encoded(encoder, a, state);
    let second = encoded(first.encoder, b, state);
    if b.len() == 0 {
        assert(a + b =~= a);
    } else {
        assert((a + b).drop_last() =~= a + b.drop_last());
        law_records_encode_in_pieces(encoder, a, b.drop_last(), state);
    }
    assert(encoded(encoder, a + b, state) =~= Encoded {
        bytes: first.bytes + second.bytes,
        encoder: second.encoder,
    });
}

/// The input for the program in the messages, in order.
pub open spec fn stdin_bytes(messages: Seq<BatchMessage>) -> Seq<u8>
    decreases messages.len(),
{
    if messages.len() == 0 {
        Seq::empty()
    } else {
        match messages.last() {
            BatchMessage::Stdin(data) => stdin_bytes(messages.drop_last()) + data,
            BatchMessage::Resize => stdin_bytes(messages.drop_last()),
        }
    }
}

/// How many of the messages are changes of size.
pub open spec fn resize_count(messages: Seq<BatchMessage>) -> nat
    decreases messages.len(),
{
    if messages.len() == 0 {
        0
    } else {
        resize_count(messages.drop_last()) + if messages.last() is Resize {
            1nat
        } else {
            0nat
        }
    }
}

/// Whether every message with input holds some.
pub open spec fn no_empty_input(messages: Seq<BatchMessage>) -> bool {
    forall|i: int|
        0 <= i < messages.len() ==> (#[trigger] messages[i] matches BatchMessage::Stdin(data)
            ==> data.len() > 0)
}

/// Whether no two messages with input follow one another.
pub open spec fn inputs_are_apart(messages: Seq<BatchMessage>) -> bool {
    forall|i: int, j: int|
        0 <= i && j < messages.len() && j == i + 1 && #[trigger] messages[i] is Stdin ==> (
        #[trigger] messages[j]) is Resize
}

proof fn lemma_push_message(messages: Seq<BatchMessage>, message: BatchMessage)
    ensures
        stdin_bytes(messages.push(message)) == match message {
            BatchMessage::Stdin(data) => stdin_bytes(messages) + data,
            BatchMessage::Resize => stdin_bytes(messages),
        },
        resize_count(messages.push(message)) == resize_count(messages) + if message is Resize {
            1nat
        } else {
            0nat
        },
{
    assert(messages.push(message).drop_last() =~= messages);
}

proof fn lemma_flushed(messages: Seq<BatchMessage>, bytes: Seq<u8>)
    requires
        no_empty_input(messages),
        inputs_are_apart(messages),
        messages.len() > 0 ==> messages.last() is Resize,
    ensures
        stdin_bytes(flushed(messages, bytes)) == stdin_bytes(messages) + bytes,
        resize_count(flushed(messages, bytes)) == resize_count(messages),
        no_empty_input(flushed(messages, bytes)),
        inputs_are_apart(flushed(messages, bytes)),
{
    lemma_push_message(messages, BatchMessage::Stdin(bytes));
    if bytes.len() == 0 {
        assert(stdin_bytes(messages) + bytes =~= stdin_bytes(messages));
    }
}

proof fn lemma_batch(encoder: EncoderState, records: Seq<ConsoleRecord>, state: InnerInputState)
    ensures
        ({
            let b = batch(encoder, records, state);
            let e = encoded(encoder, records, state);
            &&& b.encoder == e.encoder
            &&& stdin_bytes(b.messages) + b.bytes == e.bytes
            &&& resize_count(b.messages) == reported_sizes(records).len()
            &&& no_empty_input(b.messages)
            &&& inputs_are_apart(b.messages)
            &&& b.messages.len() > 0 ==> b.messages.last() is Resize
        }),
    decreases records.len(),
{
    let b = batch(encoder, records, state);
    let e = encoded(encoder, records, state);
    if records.len() > 0 {
        let init = records.drop_last();
        lemma_batch(encoder, init, state);
        let before = batch(encoder, init, state);
        let bytes = record_bytes(before.encoder, records.last(), state);
        if records.last().record is WindowBufferSize {
            lemma_flushed(before.messages, before.bytes);
            lemma_push_message(flushed(before.messages, before.bytes), BatchMessage::Resize);
            assert(bytes.len() == 0) by {
                reveal(record_bytes);
            }
            assert(stdin_bytes(b.messages) + b.bytes =~= e.bytes);
        } else {
            assert(stdin_bytes(b.messages) + b.bytes =~= (stdin_bytes(before.messages)
                + before.bytes) + bytes);
        }
    } else {
        assert(stdin_bytes(b.messages) + b.bytes =~= e.bytes);
    }
}

/// The records without those that report a size.
pub open spec fn without_sizes(records: Seq<ConsoleRecord>) -> Seq<ConsoleRecord>
    decreases records.len(),
{
    if records.len() == 0 {
        Seq::empty()
    } else if records.last().record is WindowBufferSize {
        without_sizes(records.drop_last())
    } else {
        without_sizes(records.drop_last()).push(records.last())
    }
}

/// Records that report a size make no difference to what is sent.
proof fn lemma_sizes_send_nothing(
    encoder: EncoderState,
    records: Seq<ConsoleRecord>,
    state: InnerInputState,
)
    ensures
        encoded(encoder, without_sizes(records), state) == encoded(encoder, records, state),
    decreases records.len(),
{
    if records.len() > 0 {
        let init = records.drop_last();
        lemma_sizes_send_nothing(encoder, init, state);
        let before = encoded(encoder, init, state);
        if records.last().record is WindowBufferSize {
            assert(record_bytes(before.encoder, records.last(), state).len() == 0) by {
                reveal(record_bytes);
            }
            assert(encoded(encoder, records, state) =~= before);
        } else {
            assert(without_sizes(records).drop_last() =~= without_sizes(init));
        }
    }
}

/// A batch loses nothing: the input in its messages is what encoding its records
/// sends, with or without those that report a size, and there is one change of size
/// for each that is reported. No message with input is empty, and no two of them
/// follow one another.
pub proof fn law_batch_keeps_everything(
    encoder: EncoderState,
    records: Seq<ConsoleRecord>,
    state: InnerInputState,
)
    ensures
        ({
            let messages = batch_messages(encoder, records, state);
            &&& stdin_bytes(messages) == encoded(encoder, records, state).bytes
            &&& stdin_bytes(messages) == encoded(encoder, without_sizes(records), state).bytes
            &&& resize_count(messages) == reported_sizes(records).len()
            &&& no_empty_input(messages)
            &&& inputs_are_apart(messages)
        }),
{
    lemma_batch(encoder, records, state);
    lemma_sizes_send_nothing(encoder, records, state);
    let b = batch(encoder, records, state);
    lemma_flushed(b.messages, b.bytes);
}

/// The sizes behind a first part follow those of the first part.
proof fn lemma_sizes_in_order(a: Seq<ConsoleRecord>, b: Seq<ConsoleRecord>)
    ensures
        reported_sizes(a + b) == reported_sizes(a) + reported_sizes(b),
    decreases b.len(),
{
    if b.len() == 0 {
        assert(a + b =~= a);
        assert(reported_sizes(a) + reported_sizes(b) =~= reported_sizes(a));
    } else {
        assert((a + b).drop_last() =~= a + b.drop_last());
        lemma_sizes_in_order(a, b.drop_last());
        assert(reported_sizes(a + b) =~= reported_sizes(a) + reported_sizes(b));
    }
}

/// Every change of size keeps its place: before it in the messages stands all that the
/// records before it send, behind it all that those behind it send, and as many changes
/// of size come before it as are reported before it. Its own size is the one at that
/// position, of at least one row and one column.
pub proof fn law_resize_keeps_its_place(
    encoder: EncoderState,
    records: Seq<ConsoleRecord>,
    k: int,
    state: InnerInputState,
)
    requires
        0 <= k < records.len(),
        records[k].record is WindowBufferSize,
    ensures
        ({
            let head = records.take(k);
            let tail = records.skip(k + 1);
            let between = encoded(encoder, head, state).encoder;
            let before = batch_messages(encoder, head, state);
            let behind = batch_messages(between, tail, state);
            let size = reported_sizes(records)[resize_count(before) as int];
            &&& batch_messages(encoder, records, state) == before.push(BatchMessage::Resize)
                + behind
            &&& stdin_bytes(before) == encoded(encoder, without_sizes(head), state).bytes
            &&& stdin_bytes(behind) == encoded(between, without_sizes(tail), state).bytes
            &&& resize_count(before) == reported_sizes(head).len() < reported_sizes(records).len()
            &&& size == window_size(
                records[k].record->columns as int,
                records[k].record->rows as int,
            )
            &&& size.rows >= 1 && size.cols >= 1
        }),
{
    let head = records.take(k);
    let tail = records.skip(k + 1);
    let between = encoded(encoder, head, state).encoder;
    assert(records =~= head.push(records[k]) + tail);
    law_resize_divides_a_batch(encoder, head, records[k], tail, state);
    law_batch_keeps_everything(encoder, head, state);
    law_batch_keeps_everything(between, tail, state);
    lemma_sizes_in_order(head.push(records[k]), tail);
    assert(head.push(records[k]).drop_last() =~= head);
}

/// The messages of a batch that is cut at a change of size are those of the first
/// part, the change of size, and those of the second part.
pub proof fn law_resize_divides_a_batch(
    encoder: EncoderState,
    a: Seq<ConsoleRecord>,
    resize: ConsoleRecord,
    b: Seq<ConsoleRecord>,
    state: InnerInputState,
)
    requires
        resize.record is WindowBufferSize,
    ensures
        ({
            let between = encoded(encoder, a, state).encoder;
            batch_messages(encoder, a.push(resize) + b, state) == batch_messages(
                encoder,
                a,
                state,
            ).push(BatchMessage::Resize) + batch_messages(between, b, state)
        }),
{
    let between = encoded(encoder, a, state).encoder;
    let head = batch_messages(encoder, a, state).push(BatchMessage::Resize);
    lemma_batch_behind_resize(encoder, a, resize, b, state);
    let second = batch(between, b, state);
    assert(flushed(head + second.messages, second.bytes) =~= head + flushed(
        second.messages,
        second.bytes,
    ));
}

proof fn lemma_batch_behind_resize(
    encoder: EncoderState,
    a: Seq<ConsoleRecord>,
    resize: ConsoleRecord,
    b: Seq<ConsoleRecord>,
    state: InnerInputState,
)
    requires
        resize.record is WindowBufferSize,
    ensures
        ({
            let between = encoded(encoder, a, state).encoder;
            let head = batch_messages(encoder, a, state).push(BatchMessage::Resize);
            let second = batch(between, b, state);
            batch(encoder, a.push(resize) + b, state) == (Batch {
                messages: head + second.messages,
                ..second
            })
        }),
    decreases b.len(),
{
    let between = encoded(encoder, a, state).encoder;
    let head = batch_messages(encoder, a, state).push(BatchMessage::Resize);
    let second = batch(between, b, state);
    let all = a.push(resize) + b;
    if b.len() == 0 {
        assert(all =~= a.push(resize));
        assert(all.drop_last() =~= a);
        lemma_batch(encoder, a, state);
    } else {
        assert(all.drop_last() =~= a.push(resize) + b.drop_last());
        lemma_batch_behind_resize(encoder, a, resize, b.drop_last(), state);
        let before = batch(between, b.drop_last(), state);
        if b.last().record is WindowBufferSize {
            assert(flushed(head + before.messages, before.bytes).push(BatchMessage::Resize) =~= head
                + flushed(before.messages, before.bytes).push(BatchMessage::Resize));
        }
    }
    assert(batch(encoder, all, state) =~= Batch { messages: head + second.messages, ..second });
}

/// What stands before the first separator is fixed by the whole, and so is what
/// stands behind it.
proof fn lemma_divided_once(x: Seq<u8>, r: Seq<u8>, y: Seq<u8>, s: Seq<u8>)
    requires
        all_digits(x),
        all_digits(y),
        x + seq![0x3bu8] + r == y + seq![0x3bu8] + s,
    ensures
        x == y,
        r == s,
{
    let a = x + seq![0x3bu8] + r;
    let b = y + seq![0x3bu8] + s;
    assert(a[x.len() as int] == 0x3b);
    assert(b[y.len() as int] == 0x3b);
    if x.len() < y.len() {
        assert(b[x.len() as int] == y[x.len() as int]);
    }
    if y.len() < x.len() {
        assert(a[y.len() as int] == x[y.len() as int]);
    }
    assert(x =~= a.take(x.len() as int));
    assert(y =~= b.take(y.len() as int));
    assert(r =~= a.skip(x.len() as int + 1));
    assert(s =~= b.skip(y.len() as int + 1));
}

/// The same, for a number that stands before the separator.
proof fn lemma_number_divided(m: nat, r: Seq<u8>, n: nat, s: Seq<u8>)
    requires
        decimal(m) + seq![0x3bu8] + r == decimal(n) + seq![0x3bu8] + s,
    ensures
        m == n,
        r == s,
{
    lemma_decimal(m);
    lemma_decimal(n);
    lemma_divided_once(decimal(m), r, decimal(n), s);
}

/// What describes a key behind its first three numbers.
spec fn win32_tail(key: KeyEventRecord) -> Seq<u8> {
    seq![
        if key.key_down {
            0x31u8
        } else {
            0x30u8
        },
        0x3bu8,
    ] + (decimal(key.control_key_state as nat) + seq![0x3bu8] + (decimal(key.repeat_count as nat)
        + seq![0x5fu8]))
}

#[verifier::rlimit(60)]
#[verifier::spinoff_prover]
proof fn lemma_win32_shape(key: KeyEventRecord)
    ensures
        win32_key(key) == seq![0x1bu8, 0x5bu8] + (decimal(key.virtual_key_code as nat) + seq![
            0x3bu8,
        ] + (decimal(key.virtual_scan_code as nat) + seq![0x3bu8] + (decimal(
            key.unicode_char as nat,
        ) + seq![0x3bu8] + win32_tail(key)))),
{
    assert(win32_key(key) =~= seq![0x1bu8, 0x5bu8] + (decimal(key.virtual_key_code as nat) + seq![
        0x3bu8,
    ] + (decimal(key.virtual_scan_code as nat) + seq![0x3bu8] + (decimal(key.unicode_char as nat)
        + seq![0x3bu8] + win32_tail(key)))));
}

/// Nothing of a key is lost in the win32 input mode: two keys that are sent alike
/// are the same.
pub proof fn law_win32_keys_are_told_apart(a: KeyEventRecord, b: KeyEventRecord)
    requires
        win32_key(a) == win32_key(b),
    ensures
        a == b,
{
    lemma_win32_shape(a);
    lemma_win32_shape(b);
    let ra = win32_tail(a);
    let rb = win32_tail(b);
    let qa = decimal(a.unicode_char as nat) + seq![0x3bu8] + ra;
    let qb = decimal(b.unicode_char as nat) + seq![0x3bu8] + rb;
    let pa = decimal(a.virtual_scan_code as nat) + seq![0x3bu8] + qa;
    let pb = decimal(b.virtual_scan_code as nat) + seq![0x3bu8] + qb;
    let oa = decimal(a.virtual_key_code as nat) + seq![0x3bu8] + pa;
    let ob = decimal(b.virtual_key_code as nat) + seq![0x3bu8] + pb;
    assert(oa =~= win32_key(a).skip(2));
    assert(ob =~= win32_key(b).skip(2));
    lemma_number_divided(a.virtual_key_code as nat, pa, b.virtual_key_code as nat, pb);
    lemma_number_divided(a.virtual_scan_code as nat, qa, b.virtual_scan_code as nat, qb);
    lemma_number_divided(a.unicode_char as nat, ra, b.unicode_char as nat, rb);
    assert(ra[0] == rb[0]);
    let sa = decimal(a.repeat_count as nat) + seq![0x5fu8];
    let sb = decimal(b.repeat_count as nat) + seq![0x5fu8];
    assert(ra.skip(2) =~= decimal(a.control_key_state as nat) + seq![0x3bu8] + sa);
    assert(rb.skip(2) =~= decimal(b.control_key_state as nat) + seq![0x3bu8] + sb);
    lemma_number_divided(a.control_key_state as nat, sa, b.control_key_state as nat, sb);
    assert(sa.drop_last() =~= decimal(a.repeat_count as nat));
    assert(sb.drop_last() =~= decimal(b.repeat_count as nat));
    lemma_decimal(a.repeat_count as nat);
    lemma_decimal(b.repeat_count as nat);
}

/// Records of a kind that the program is not told of do not get in the way of the
/// others.
pub proof fn law_other_records_are_invisible(
    encoder: EncoderState,
    a: Seq<ConsoleRecord>,
    other: ConsoleRecord,
    b: Seq<ConsoleRecord>,
    state: InnerInputState,
)
    requires
        other.record is Other || other.record is WindowBufferSize || (other.record is Focus
            && !state.focus),
    ensures
        encoded(encoder, a.push(other) + b, state) == encoded(encoder, a + b, state),
{
    reveal(record_bytes);
    law_records_encode_in_pieces(encoder, a.push(other), b, state);
    law_records_encode_in_pieces(encoder, a, b, state);
    assert(a.push(other).drop_last() =~= a);
    assert(encoded(encoder, a.push(other), state) =~= encoded(encoder, a, state));
}

/// A record alone sends what it sends, and each record behind others sends what it sends
/// where the encoder has got to.
pub proof fn law_one_record_at_a_time(
    encoder: EncoderState,
    records: Seq<ConsoleRecord>,
    record: ConsoleRecord,
    state: InnerInputState,
)
    ensures
        ({
            let before = encoded(encoder, records, state);
            let all = encoded(encoder, records.push(record), state);
            &&& all.bytes == before.bytes + record_bytes(before.encoder, record, state)
            &&& all.encoder == after_record(before.encoder, record.record, state)
        }),
        encoded(encoder, Seq::empty(), state) == (Encoded { bytes: Seq::empty(), encoder }),
{
    assert(records.push(record).drop_last() =~= records);
}

/// What each kind of record sends, and what the encoder carries on behind it. A key is
/// sent as it is in the win32 input mode, which leaves the encoder as it was; else its
/// text is sent, or, where it stands for none, the events that it was decoded to, and it
/// does not touch the mouse buttons. A mouse record does not touch the keyboard. The
/// program is told of the focus if it has asked for that. A change of size and any other
/// record sends nothing.
pub proof fn law_what_a_record_sends(
    encoder: EncoderState,
    record: ConsoleRecord,
    state: InnerInputState,
)
    ensures
        ({
            let sent = record_bytes(encoder, record, state);
            let after = after_record(encoder, record.record, state);
            let none = Seq::<u8>::empty();
            match record.record {
                InputRecord::Key(key) => {
                    &&& state.win32_input ==> sent == win32_key(key) && after == encoder
                    &&& !state.win32_input && is_textless(key) ==> sent == events_bytes(
                        record.decoded@,
                        state.application_cursor_keys,
                    )
                    &&& !state.win32_input && !is_textless(key) ==> sent == key_text(
                        encoder.high,
                        key,
                    )
                    &&& !state.win32_input ==> after.high == pending_after(encoder.high, key)
                    &&& after.buttons == encoder.buttons
                },
                InputRecord::Mouse(mouse) => {
                    &&& mouse_bytes(encoder.buttons, mouse, state) matches Some(bytes) ==> sent
                        == bytes
                    &&& mouse_bytes(encoder.buttons, mouse, state) is None ==> sent == none
                    &&& after.buttons == buttons_after(mouse, state)
                    &&& after.high == encoder.high
                },
                InputRecord::Focus { set_focus } => {
                    &&& !state.focus ==> sent == none
                    &&& state.focus && set_focus ==> sent == seq![0x1bu8, 0x5b, 0x49]
                    &&& state.focus && !set_focus ==> sent == seq![0x1bu8, 0x5b, 0x4f]
                    &&& after == encoder
                },
                InputRecord::WindowBufferSize { columns, rows } => sent == none && after
                    == encoder,
                InputRecord::Other => sent == none && after == encoder,
            }
        }),
{
    reveal(record_bytes);
}

/// The events that a record was decoded to count exactly if it takes decoding: then
/// nothing else does, and else they make no difference.
pub proof fn law_decoding_counts_where_it_is_taken(
    encoder: EncoderState,
    record: ConsoleRecord,
    other: ConsoleRecord,
    state: InnerInputState,
)
    requires
        record.record == other.record,
    ensures
        takes_decoding(record.record, state) ==> record_bytes(encoder, record, state)
            == events_bytes(record.decoded@, state.application_cursor_keys),
        !takes_decoding(record.record, state) ==> record_bytes(encoder, record, state)
            == record_bytes(encoder, other, state),
        takes_decoding(record.record, state) <==> !state.win32_input && (
        record.record matches InputRecord::Key(key) && is_textless(key)),
{
    reveal(record_bytes);
}

/// Whether the records are keys that are pressed once each, without alt or control, and
/// whose characters make up the text.
pub open spec fn types(records: Seq<ConsoleRecord>, text: Seq<char>) -> bool {
    &&& records.len() == text.len()
    &&& forall|i: int|
        0 <= i < records.len() ==> {
            &&& (#[trigger] records[i]).record matches InputRecord::Key(key)
            &&& key.key_down && key.repeat_count == 1 && key.control_key_state & 0x000f == 0
            &&& key.unicode_char == text[i] as u32 && key.unicode_char != 0
        }
}

/// Typing a text sends it: what keys send that are pressed one behind the other is the
/// text of their characters, in UTF-8, unless keys are sent as they are.
pub proof fn law_typing_sends_the_text(
    encoder: EncoderState,
    records: Seq<ConsoleRecord>,
    text: Seq<char>,
    state: InnerInputState,
)
    requires
        types(records, text),
        !state.win32_input,
    ensures
        valid_utf8(encoded(encoder, records, state).bytes),
        decode_utf8(encoded(encoder, records, state).bytes) == text,
{
    lemma_typing(encoder, records, text, state);
    encode_utf8_valid_utf8(text);
    encode_utf8_decode_utf8(text);
}

proof fn lemma_typing(
    encoder: EncoderState,
    records: Seq<ConsoleRecord>,
    text: Seq<char>,
    state: InnerInputState,
)
    requires
        types(records, text),
        !state.win32_input,
    ensures
        encoded(encoder, records, state).bytes == encode_utf8(text),
    decreases records.len(),
{
    if records.len() == 0 {
        assert(encode_utf8(text) =~= Seq::<u8>::empty());
    } else {
        let init = records.drop_last();
        let last = records.last();
        assert(types(init, text.drop_last()));
        lemma_typing(encoder, init, text.drop_last(), state);
        let before = encoded(encoder, init, state).encoder;
        assert(records[records.len() - 1].record is Key);
        let key = last.record->Key_0;
        let c = text.last();
        assert(c as u32 == key.unicode_char);
        char_u32_cast(c, key.unicode_char as u32);
        char_is_scalar(c);
        law_key_types_its_character(before.high, key);
        law_what_a_record_sends(before, last, state);
        let typed = key_text(before.high, key);
        let one = seq![key.unicode_char as char];
        assert(one.len() == 1);
        assert(copies(one, 1) =~= one);
        decode_utf8_encode_utf8(typed);
        assert(typed == encode_utf8(seq![c]));
        lemma_encode_joined(text.drop_last(), seq![c]);
        assert(text =~= text.drop_last() + seq![c]);
    }
}

/// Whether a record can be encoded: all can but a key that takes decoding and was decoded
/// to something that cannot, and a mouse record that cannot.
pub proof fn law_what_can_be_encoded(
    encoder: EncoderState,
    record: ConsoleRecord,
    state: InnerInputState,
)
    ensures
        record_encodable(encoder, record, state) <==> match record.record {
            InputRecord::Key(key) => state.win32_input || !is_textless(key) || forall|i: int|
                0 <= i < record.decoded@.len() ==> event_encodable(#[trigger] record.decoded@[i]),
            InputRecord::Mouse(mouse) => mouse_encodable(encoder.buttons, mouse, state),
            _ => true,
        },
{
}

/// Records can be encoded exactly if the first ones can and each further one can where the
/// encoder has got to.
pub proof fn law_encodable_one_at_a_time(
    encoder: EncoderState,
    records: Seq<ConsoleRecord>,
    record: ConsoleRecord,
    state: InnerInputState,
)
    ensures
        encodable(encoder, Seq::empty(), state),
        encodable(encoder, records.push(record), state) <==> encodable(encoder, records, state)
            && record_encodable(encoded(encoder, records, state).encoder, record, state),
{
    let all = records.push(record);
    let n = records.len() as int;
    assert(all.take(n) =~= records);
    assert forall|i: int| 0 <= i < n implies #[trigger] all.take(i) == records.take(i) by {
        assert(all.take(i) =~= records.take(i));
    }
    if encodable(encoder, all, state) {
        assert(all[n] == record);
        assert forall|i: int| 0 <= i < records.len() implies record_encodable(
            encoded(encoder, records.take(i), state).encoder,
            #[trigger] records[i],
            state,
        ) by {
            assert(all[i] == records[i]);
            assert(all.take(i) == records.take(i));
        }
    }
    if encodable(encoder, records, state) && record_encodable(
        encoded(encoder, records, state).encoder,
        record,
        state,
    ) {
        assert forall|i: int| 0 <= i < all.len() implies record_encodable(
            encoded(encoder, all.take(i), state).encoder,
            #[trigger] all[i],
            state,
        ) by {
            if i < n {
                assert(all[i] == records[i]);
                assert(all.take(i) == records.take(i));
            }
        }
    }
}

} // verus!

//! What playing a recording gives back.

use crate::bytes::concatenated;
use crate::cast::Event;
use crate::cast_laws::law_cut_text_loses_nothing;
use crate::record::{
    action_for, control_for, ends_loop, lets_go, shows_and_logs, state_behind, takes_in, time_left,
    Message, RecordAction, RecordLoopControl, RecordLoopState, StdoutWrites,
};
use crate::size::PtySize;
use crate::tracker::{opened, run, Filtered, InputModeTracker};
use crate::tracker_laws::{law_any_pieces_do_not_matter, run_pieces, unfinished};
use vstd::prelude::*;
use vstd::utf8::{encode_utf8, valid_utf8};

verus! {

/// The events that are logged, in order.
pub open spec fn logged_events(writes: Seq<StdoutWrites>) -> Seq<Event>
    decreases writes.len(),
{
    if writes.len() == 0 {
        Seq::empty()
    } else {
        match writes.last().event {
            Some(event) => logged_events(writes.drop_last()).push(event),
            None => logged_events(writes.drop_last()),
        }
    }
}

/// What playing the events puts out: the texts of those that hold output, in order.
pub open spec fn played(events: Seq<Event>) -> Seq<u8>
    decreases events.len(),
{
    if events.len() == 0 {
        Seq::empty()
    } else {
        match events.last().output_text() {
            Some(text) => played(events.drop_last()) + encode_utf8(text),
            None => played(events.drop_last()),
        }
    }
}

/// Whether `writes` is what comes of the pieces of output, shown and logged one after the
/// other at the given times. `buffers` is what is carried forward from one piece to the
/// next, nothing at first.
pub open spec fn is_recorded(
    writes: Seq<StdoutWrites>,
    pieces: Seq<Seq<u8>>,
    elapsed: Seq<u32>,
    buffers: Seq<Seq<u8>>,
) -> bool {
    &&& writes.len() == pieces.len() == elapsed.len()
    &&& buffers.len() == pieces.len() + 1
    &&& buffers[0] == Seq::<u8>::empty()
    &&& forall|i: int|
        0 <= i < pieces.len() ==> shows_and_logs(
            #[trigger] writes[i],
            pieces[i],
            elapsed[i],
            buffers[i],
            buffers[i + 1],
        )
}

/// Playing the events of the first `k` pieces gives these pieces, up to what is carried
/// forward, which the rest of the text continues.
proof fn lemma_played_so_far(
    writes: Seq<StdoutWrites>,
    pieces: Seq<Seq<u8>>,
    elapsed: Seq<u32>,
    buffers: Seq<Seq<u8>>,
    k: int,
    rest: Seq<u8>,
)
    requires
        is_recorded(writes, pieces, elapsed, buffers),
        0 <= k <= pieces.len(),
        valid_utf8(concatenated(pieces.take(k)) + rest),
    ensures
        played(logged_events(writes.take(k))) + buffers[k] == concatenated(pieces.take(k)),
        buffers[k].len() > 0 ==> !valid_utf8(buffers[k]),
        valid_utf8(buffers[k] + rest),
    decreases k,
{
    let none = Seq::<u8>::empty();
    if k == 0 {
        assert(played(logged_events(writes.take(0))) =~= none);
        assert(none + none =~= none);
        assert(concatenated(pieces.take(0)) =~= none);
    } else {
        let piece = pieces[k - 1];
        let before = buffers[k - 1];
        let init = concatenated(pieces.take(k - 1));
        assert(pieces.take(k).drop_last() =~= pieces.take(k - 1));
        assert(writes.take(k).drop_last() =~= writes.take(k - 1));
        assert(writes.take(k).last() == writes[k - 1]);
        assert(concatenated(pieces.take(k)) + rest =~= init + (piece + rest));
        lemma_played_so_far(writes, pieces, elapsed, buffers, k - 1, piece + rest);
        assert(shows_and_logs(writes[k - 1], piece, elapsed[k - 1], before, buffers[k]));
        let events = logged_events(writes.take(k - 1));
        if piece.len() == 0 {
            assert(piece + rest =~= rest);
            assert(init + piece =~= init);
        } else {
            let b = before + piece;
            let event = writes[k - 1].event.unwrap();
            assert(b + rest =~= before + (piece + rest));
            law_cut_text_loses_nothing(b, rest);
            assert(events.push(event).drop_last() =~= events);
            assert((played(events) + encode_utf8(event.2@)) + buffers[k] =~= played(events) + b);
            assert(played(events) + b =~= (played(events) + before) + piece);
        }
    }
}

/// Playing undoes recording: where the output that was shown is a well-formed text,
/// however it was cut into pieces, the events that were logged give it back byte for
/// byte.
pub proof fn law_playing_gives_the_output_back(
    writes: Seq<StdoutWrites>,
    pieces: Seq<Seq<u8>>,
    elapsed: Seq<u32>,
    buffers: Seq<Seq<u8>>,
)
    requires
        is_recorded(writes, pieces, elapsed, buffers),
        valid_utf8(concatenated(pieces)),
    ensures
        played(logged_events(writes)) == concatenated(pieces),
        buffers.last() == Seq::<u8>::empty(),
{
    let none = Seq::<u8>::empty();
    let n = pieces.len() as int;
    assert(pieces.take(n) =~= pieces);
    assert(writes.take(n) =~= writes);
    assert(concatenated(pieces) + none =~= concatenated(pieces));
    lemma_played_so_far(writes, pieces, elapsed, buffers, n, none);
    assert(buffers[n] + none =~= buffers[n]);
    assert(buffers[n] =~= none);
    assert(played(logged_events(writes)) + none =~= played(logged_events(writes)));
}

/// An event is logged for each piece of output that holds anything, and for no other, and
/// it carries the time at which the piece came. So every time is one that was measured,
/// the times stand in the order in which they were measured, and where the clock does not
/// run backward they do not either.
pub proof fn law_events_carry_their_times(
    writes: Seq<StdoutWrites>,
    pieces: Seq<Seq<u8>>,
    elapsed: Seq<u32>,
    buffers: Seq<Seq<u8>>,
)
    requires
        is_recorded(writes, pieces, elapsed, buffers),
    ensures
        ({
            let events = logged_events(writes);
            let times = times_of(pieces, elapsed);
            &&& events.len() == times.len()
            &&& forall|i: int| 0 <= i < events.len() ==> (#[trigger] events[i]).0 == times[i]
            &&& (forall|i: int, j: int| 0 <= i <= j < elapsed.len() ==> elapsed[i] <= elapsed[j])
                ==> forall|i: int, j: int|
                0 <= i <= j < events.len() ==> (#[trigger] events[i]).0 <= (
                #[trigger] events[j]).0
        }),
{
    lemma_times(writes, pieces, elapsed, buffers, writes.len() as int);
    assert(writes.take(writes.len() as int) =~= writes);
    assert(pieces.take(writes.len() as int) =~= pieces);
    assert(elapsed.take(writes.len() as int) =~= elapsed);
    if forall|i: int, j: int| 0 <= i <= j < elapsed.len() ==> elapsed[i] <= elapsed[j] {
        lemma_times_keep_order(pieces, elapsed);
    }
}

/// The times of the pieces that hold anything, in order.
pub open spec fn times_of(pieces: Seq<Seq<u8>>, elapsed: Seq<u32>) -> Seq<u32>
    decreases pieces.len(),
{
    if pieces.len() == 0 {
        Seq::empty()
    } else if pieces.last().len() == 0 {
        times_of(pieces.drop_last(), elapsed.drop_last())
    } else {
        times_of(pieces.drop_last(), elapsed.drop_last()).push(elapsed.last())
    }
}

proof fn lemma_times(
    writes: Seq<StdoutWrites>,
    pieces: Seq<Seq<u8>>,
    elapsed: Seq<u32>,
    buffers: Seq<Seq<u8>>,
    k: int,
)
    requires
        is_recorded(writes, pieces, elapsed, buffers),
        0 <= k <= writes.len(),
    ensures
        ({
            let events = logged_events(writes.take(k));
            let times = times_of(pieces.take(k), elapsed.take(k));
            &&& events.len() == times.len()
            &&& forall|i: int| 0 <= i < events.len() ==> (#[trigger] events[i]).0 == times[i]
        }),
    decreases k,
{
    if k > 0 {
        lemma_times(writes, pieces, elapsed, buffers, k - 1);
        assert(writes.take(k).drop_last() =~= writes.take(k - 1));
        assert(pieces.take(k).drop_last() =~= pieces.take(k - 1));
        assert(elapsed.take(k).drop_last() =~= elapsed.take(k - 1));
        assert(shows_and_logs(
            writes[k - 1],
            pieces[k - 1],
            elapsed[k - 1],
            buffers[k - 1],
            buffers[k],
        ));
    }
}

/// Times that do not run backward still do not once those of empty pieces are left out.
proof fn lemma_times_keep_order(pieces: Seq<Seq<u8>>, elapsed: Seq<u32>)
    requires
        pieces.len() == elapsed.len(),
        forall|i: int, j: int| 0 <= i <= j < elapsed.len() ==> elapsed[i] <= elapsed[j],
    ensures
        ({
            let times = times_of(pieces, elapsed);
            &&& forall|i: int, j: int| 0 <= i <= j < times.len() ==> times[i] <= times[j]
            &&& forall|i: int|
                0 <= i < times.len() ==> elapsed.len() > 0 && #[trigger] times[i] <= elapsed.last()
        }),
    decreases pieces.len(),
{
    if pieces.len() > 0 {
        let before = elapsed.drop_last();
        assert forall|i: int, j: int| 0 <= i <= j < before.len() implies before[i]
            <= before[j] by {
            assert(elapsed[i] <= elapsed[j]);
        }
        lemma_times_keep_order(pieces.drop_last(), before);
        let times = times_of(pieces.drop_last(), before);
        assert forall|i: int| 0 <= i < times.len() implies #[trigger] times[i]
            <= elapsed.last() by {
            assert(times[i] <= before.last());
            assert(elapsed[before.len() - 1] <= elapsed[elapsed.len() - 1]);
        }
    }
}

/// What the outer terminal shows is the output, whole and in order, and each event that
/// is logged is one of output.
pub proof fn law_all_output_is_shown(
    writes: Seq<StdoutWrites>,
    pieces: Seq<Seq<u8>>,
    elapsed: Seq<u32>,
    buffers: Seq<Seq<u8>>,
)
    requires
        is_recorded(writes, pieces, elapsed, buffers),
    ensures
        concatenated(writes.map_values(|w: StdoutWrites| w.terminal@)) == concatenated(pieces),
        forall|i: int|
            0 <= i < writes.len() && (#[trigger] writes[i]).event is Some
                ==> writes[i].event.unwrap().output_text() == Some(writes[i].event.unwrap().2@),
{
    let shown = writes.map_values(|w: StdoutWrites| w.terminal@);
    assert forall|i: int| 0 <= i < pieces.len() implies shown[i] == pieces[i] by {
        assert(shows_and_logs(writes[i], pieces[i], elapsed[i], buffers[i], buffers[i + 1]));
    }
    assert(shown =~= pieces);
}

/// The data that messages carry from the outer terminal to the child.
pub open spec fn typed<S>(msgs: Seq<(Message<S>, u64)>) -> Seq<u8>
    decreases msgs.len(),
{
    if msgs.len() == 0 {
        Seq::empty()
    } else {
        typed(msgs.drop_last()) + match msgs.last().0 {
            Message::Stdin(data) => data@,
            _ => Seq::empty(),
        }
    }
}

/// The data that messages carry from the child to the outer terminal.
pub open spec fn put_out<S>(msgs: Seq<(Message<S>, u64)>) -> Seq<u8>
    decreases msgs.len(),
{
    if msgs.len() == 0 {
        Seq::empty()
    } else {
        put_out(msgs.drop_last()) + match msgs.last().0 {
            Message::Stdout(data) => data@,
            _ => Seq::empty(),
        }
    }
}

/// The sizes that messages report, in order.
pub open spec fn sizes<S>(msgs: Seq<(Message<S>, u64)>) -> Seq<PtySize>
    decreases msgs.len(),
{
    if msgs.len() == 0 {
        Seq::empty()
    } else {
        match msgs.last().0 {
            Message::Resize(size) => sizes(msgs.drop_last()).push(size),
            _ => sizes(msgs.drop_last()),
        }
    }
}

/// What actions write to the child.
pub open spec fn written_to_child(actions: Seq<RecordAction>) -> Seq<u8>
    decreases actions.len(),
{
    if actions.len() == 0 {
        Seq::empty()
    } else {
        written_to_child(actions.drop_last()) + match actions.last() {
            RecordAction::WriteStdin(data) => data@,
            _ => Seq::empty(),
        }
    }
}

/// What actions hand on as output of the child.
pub open spec fn handed_on(actions: Seq<RecordAction>) -> Seq<u8>
    decreases actions.len(),
{
    if actions.len() == 0 {
        Seq::empty()
    } else {
        handed_on(actions.drop_last()) + match actions.last() {
            RecordAction::WriteStdout(data) => data@,
            _ => Seq::empty(),
        }
    }
}

/// The sizes that actions give to the child's terminal, in order.
pub open spec fn sizes_given(actions: Seq<RecordAction>) -> Seq<PtySize>
    decreases actions.len(),
{
    if actions.len() == 0 {
        Seq::empty()
    } else {
        match actions.last() {
            RecordAction::Resize(size) => sizes_given(actions.drop_last()).push(size),
            _ => sizes_given(actions.drop_last()),
        }
    }
}

/// The actions that messages call for, one for each, in order.
pub open spec fn actions_for<S>(
    state: RecordLoopState<S>,
    msgs: Seq<(Message<S>, u64)>,
) -> Seq<RecordAction>
    decreases msgs.len(),
{
    if msgs.len() == 0 {
        Seq::empty()
    } else {
        let (msg, now) = msgs.last();
        let before = msgs.drop_last();
        actions_for(state, before).push(action_for(state_behind(state, before), msg, now))
    }
}

/// The loop loses nothing and adds nothing: whatever messages come, in whatever order,
/// all the input goes to the child byte for byte, all the output is handed on byte for
/// byte, and all the sizes are given to the child's terminal, each in its order.
pub proof fn law_loop_hands_everything_on<S>(
    state: RecordLoopState<S>,
    msgs: Seq<(Message<S>, u64)>,
)
    ensures
        ({
            let actions = actions_for(state, msgs);
            &&& actions.len() == msgs.len()
            &&& written_to_child(actions) == typed(msgs)
            &&& handed_on(actions) == put_out(msgs)
            &&& sizes_given(actions) == sizes(msgs)
        }),
    decreases msgs.len(),
{
    if msgs.len() > 0 {
        law_loop_hands_everything_on(state, msgs.drop_last());
        let actions = actions_for(state, msgs);
        assert(actions.drop_last() =~= actions_for(state, msgs.drop_last()));
    }
}

/// What the loop does about a message tells the message: data for the child comes of
/// input alone, output of output alone, a size of a size alone, and what is held back is
/// let go exactly when the loop ends, whichever of the two messages that end it came last.
pub proof fn law_action_tells_the_message<S>(state: RecordLoopState<S>, msg: Message<S>, now: u64)
    ensures
        ({
            let action = action_for(state, msg, now);
            let last_one = (msg is StdoutEof && state.child_status is Some) || (msg is Terminated
                && state.stdout_eof);
            &&& action is WriteStdin <==> msg is Stdin
            &&& action matches RecordAction::WriteStdin(data) ==> msg == Message::<S>::Stdin(data)
            &&& action is WriteStdout <==> msg is Stdout
            &&& action matches RecordAction::WriteStdout(data) ==> msg == Message::<S>::Stdout(data)
            &&& action is Resize <==> msg is Resize
            &&& action matches RecordAction::Resize(size) ==> msg == Message::<S>::Resize(size)
            &&& action is DrainPendingStdout <==> last_one
            &&& action is DrainPendingStdout <==> ends_loop(state, msg, now)
            &&& control_for(state, msg, now) == RecordLoopControl::Break <==> last_one
        }),
{
}

/// What the loop knows behind a message: that the output has ended, once it has; the
/// status of the child and the time of its exit, as the last message about it says. No
/// other message changes anything.
pub proof fn law_loop_knows_what_it_was_told<S>(
    state: RecordLoopState<S>,
    msg: Message<S>,
    now: u64,
)
    ensures
        ({
            let after = state.after(msg, now);
            &&& after.stdout_eof <==> state.stdout_eof || msg is StdoutEof
            &&& msg matches Message::Terminated(status) ==> after.child_status == Some(status)
                && after.child_terminated_at == Some(now)
            &&& msg !is Terminated ==> after.child_status == state.child_status
                && after.child_terminated_at == state.child_terminated_at
            &&& after.is_over() <==> after.child_status is Some && after.stdout_eof
        }),
{
}

/// Until half a second has passed since the child's exit, the loop waits for just the
/// rest of it, and from then on it does not wait. Without a known time of exit the half
/// second starts now. Where it would end beyond all times, the loop does not wait.
pub proof fn law_half_a_second_is_waited(at: u64, now: u64)
    ensures
        now - at <= 500_000_000 && at + 500_000_000 <= u64::MAX ==> now + time_left(Some(at), now)
            == at + 500_000_000,
        now - at > 500_000_000 ==> time_left(Some(at), now) == 0,
        at + 500_000_000 > u64::MAX ==> time_left(Some(at), now) == 0,
        now + 500_000_000 <= u64::MAX ==> time_left(None, now) == 500_000_000,
        time_left(None, now) == time_left(Some(now), now),
{
}

/// Whether `writes` is what comes of stretches of output of the child, taken in one after
/// the other at the given times, and then let go of. `trackers` and `buffers` are what is
/// carried from one to the next.
pub open spec fn is_session(
    trackers: Seq<Option<InputModeTracker>>,
    data: Seq<Seq<u8>>,
    writes: Seq<StdoutWrites>,
    elapsed: Seq<u32>,
    buffers: Seq<Seq<u8>>,
) -> bool {
    let n = data.len() as int;
    &&& writes.len() == elapsed.len() == n + 1
    &&& trackers.len() == buffers.len() == n + 2
    &&& buffers[0] == Seq::<u8>::empty()
    &&& forall|i: int|
        0 <= i < n ==> takes_in(
            trackers[i],
            trackers[i + 1],
            #[trigger] data[i],
            writes[i],
            elapsed[i],
            buffers[i],
            buffers[i + 1],
        )
    &&& lets_go(
        trackers[n],
        trackers[n + 1],
        writes[n],
        elapsed[n],
        buffers[n],
        buffers[n + 1],
    )
}

/// What is shown of each stretch.
pub open spec fn shown(writes: Seq<StdoutWrites>) -> Seq<Seq<u8>> {
    writes.map_values(|w: StdoutWrites| w.terminal@)
}

/// What is sent back to the child for each stretch.
pub open spec fn answered(writes: Seq<StdoutWrites>) -> Seq<Seq<u8>> {
    writes.map_values(|w: StdoutWrites| w.child_input@)
}

/// A session logs what it shows.
proof fn lemma_session_is_recorded(
    trackers: Seq<Option<InputModeTracker>>,
    data: Seq<Seq<u8>>,
    writes: Seq<StdoutWrites>,
    elapsed: Seq<u32>,
    buffers: Seq<Seq<u8>>,
)
    requires
        is_session(trackers, data, writes, elapsed, buffers),
    ensures
        is_recorded(writes, shown(writes), elapsed, buffers),
{
    let n = data.len() as int;
    assert forall|i: int| 0 <= i < shown(writes).len() implies shows_and_logs(
        #[trigger] writes[i],
        shown(writes)[i],
        elapsed[i],
        buffers[i],
        buffers[i + 1],
    ) by {
        if i < n {
            assert(takes_in(
                trackers[i],
                trackers[i + 1],
                data[i],
                writes[i],
                elapsed[i],
                buffers[i],
                buffers[i + 1],
            ));
        }
    }
}

/// What has come of the first `k` stretches.
proof fn lemma_session_so_far(
    trackers: Seq<Option<InputModeTracker>>,
    data: Seq<Seq<u8>>,
    writes: Seq<StdoutWrites>,
    elapsed: Seq<u32>,
    buffers: Seq<Seq<u8>>,
    k: int,
)
    requires
        is_session(trackers, data, writes, elapsed, buffers),
        trackers[0] matches Some(tracker) && tracker.string() is None && tracker.held() == Seq::<
            u8,
        >::empty(),
        0 <= k <= data.len(),
    ensures
        trackers[k] is Some,
        ({
            let next = trackers[k].unwrap();
            run_pieces(trackers[0].unwrap().modes(), None, data.take(k)) == (Filtered {
                modes: next.modes(),
                string: next.string(),
                pending: next.held(),
                output: concatenated(shown(writes).take(k)),
                replies: concatenated(answered(writes).take(k)),
            })
        }),
    decreases k,
{
    let first = trackers[0].unwrap();
    if k == 0 {
        assert(shown(writes).take(0).len() == 0);
        assert(run_pieces(first.modes(), None, data.take(0)) =~= Filtered {
            modes: first.modes(),
            string: first.string(),
            pending: first.held(),
            output: concatenated(shown(writes).take(0)),
            replies: concatenated(answered(writes).take(0)),
        });
    } else {
        lemma_session_so_far(trackers, data, writes, elapsed, buffers, k - 1);
        assert(takes_in(
            trackers[k - 1],
            trackers[k],
            data[k - 1],
            writes[k - 1],
            elapsed[k - 1],
            buffers[k - 1],
            buffers[k],
        ));
        let next = trackers[k].unwrap();
        assert(data.take(k).drop_last() =~= data.take(k - 1));
        assert(shown(writes).take(k).drop_last() =~= shown(writes).take(k - 1));
        assert(answered(writes).take(k).drop_last() =~= answered(writes).take(k - 1));
        assert(shown(writes).take(k).last() == writes[k - 1].terminal@);
        assert(answered(writes).take(k).last() == writes[k - 1].child_input@);
        assert(run_pieces(first.modes(), None, data.take(k)) =~= Filtered {
            modes: next.modes(),
            string: next.string(),
            pending: next.held(),
            output: concatenated(shown(writes).take(k)),
            replies: concatenated(answered(writes).take(k)),
        });
    }
}

/// A session with a tracker, from its first output to its last: however the output was cut
/// into stretches, what is shown is what goes through of the whole and then what is held
/// back of it, what is sent back to the child is the answers to the whole, and playing the
/// events gives back what was shown, where that is a well-formed text. The exception is an
/// unfinished control sequence that outgrows the limit at the end of a stretch.
pub proof fn law_session_shows_and_answers_the_whole(
    trackers: Seq<Option<InputModeTracker>>,
    data: Seq<Seq<u8>>,
    writes: Seq<StdoutWrites>,
    elapsed: Seq<u32>,
    buffers: Seq<Seq<u8>>,
)
    requires
        is_session(trackers, data, writes, elapsed, buffers),
        trackers[0] matches Some(tracker) && tracker.string() is None && tracker.held() == Seq::<
            u8,
        >::empty(),
        forall|k: int|
            0 <= k < data.len() ==> {
                let left = unfinished(None, concatenated(#[trigger] data.take(k)));
                left.len() <= 65536 || opened(left) is Some
            },
    ensures
        ({
            let all = run(trackers[0].unwrap().modes(), None, concatenated(data));
            &&& concatenated(shown(writes)) == all.output + all.pending
            &&& concatenated(answered(writes)) == all.replies
            &&& trackers.last() matches Some(last) && last.modes() == all.modes && last.held()
                == Seq::<u8>::empty()
            &&& valid_utf8(all.output + all.pending) ==> played(logged_events(writes)) == all.output
                + all.pending
        }),
{
    let n = data.len() as int;
    let modes = trackers[0].unwrap().modes();
    lemma_session_so_far(trackers, data, writes, elapsed, buffers, n);
    assert(data.take(n) =~= data);
    law_any_pieces_do_not_matter(modes, None, data);
    let all = run(modes, None, concatenated(data));
    assert(shown(writes).drop_last() =~= shown(writes).take(n));
    assert(answered(writes).drop_last() =~= answered(writes).take(n));
    assert(shown(writes).last() == all.pending);
    assert(answered(writes).last() =~= Seq::<u8>::empty());
    assert(concatenated(answered(writes)) =~= all.replies);
    lemma_session_is_recorded(trackers, data, writes, elapsed, buffers);
    if valid_utf8(all.output + all.pending) {
        law_playing_gives_the_output_back(writes, shown(writes), elapsed, buffers);
    }
}

/// A session without a tracker shows the output as it is, sends nothing back, and playing
/// its events gives the output back, where that is a well-formed text.
pub proof fn law_session_without_a_tracker(
    trackers: Seq<Option<InputModeTracker>>,
    data: Seq<Seq<u8>>,
    writes: Seq<StdoutWrites>,
    elapsed: Seq<u32>,
    buffers: Seq<Seq<u8>>,
)
    requires
        is_session(trackers, data, writes, elapsed, buffers),
        trackers[0] is None,
    ensures
        concatenated(shown(writes)) == concatenated(data),
        forall|i: int| 0 <= i < writes.len() ==> (#[trigger] writes[i]).child_input@.len() == 0,
        valid_utf8(concatenated(data)) ==> played(logged_events(writes)) == concatenated(data),
{
    let n = data.len() as int;
    lemma_no_tracker(trackers, data, writes, elapsed, buffers, n);
    assert(shown(writes).drop_last() =~= data) by {
        assert forall|i: int| 0 <= i < n implies shown(writes)[i] == data[i] by {
            lemma_no_tracker(trackers, data, writes, elapsed, buffers, i);
            assert(takes_in(
                trackers[i],
                trackers[i + 1],
                data[i],
                writes[i],
                elapsed[i],
                buffers[i],
                buffers[i + 1],
            ));
        }
    }
    assert forall|i: int| 0 <= i < writes.len() implies (
    #[trigger] writes[i]).child_input@.len() == 0 by {
        if i < n {
            lemma_no_tracker(trackers, data, writes, elapsed, buffers, i);
            assert(takes_in(
                trackers[i],
                trackers[i + 1],
                data[i],
                writes[i],
                elapsed[i],
                buffers[i],
                buffers[i + 1],
            ));
        }
    }
    assert(shown(writes).last() =~= Seq::<u8>::empty());
    assert(concatenated(shown(writes)) =~= concatenated(data));
    lemma_session_is_recorded(trackers, data, writes, elapsed, buffers);
    if valid_utf8(concatenated(data)) {
        law_playing_gives_the_output_back(writes, shown(writes), elapsed, buffers);
    }
}

proof fn lemma_no_tracker(
    trackers: Seq<Option<InputModeTracker>>,
    data: Seq<Seq<u8>>,
    writes: Seq<StdoutWrites>,
    elapsed: Seq<u32>,
    buffers: Seq<Seq<u8>>,
    k: int,
)
    requires
        is_session(trackers, data, writes, elapsed, buffers),
        trackers[0] is None,
        0 <= k <= data.len(),
    ensures
        trackers[k] is None,
    decreases k,
{
    if k > 0 {
        lemma_no_tracker(trackers, data, writes, elapsed, buffers, k - 1);
        assert(takes_in(
            trackers[k - 1],
            trackers[k],
            data[k - 1],
            writes[k - 1],
            elapsed[k - 1],
            buffers[k - 1],
            buffers[k],
        ));
    }
}

} // verus!

//! The loop of a recording.

use crate::cast::{carried, log_utf8_output, logged, output_kind, Event};
use crate::size::PtySize;
use crate::tracker::{filter_child_output_for_outer_terminal, InputModeTracker};
use vstd::prelude::*;
use vstd::utf8::encode_utf8;

verus! {

/// What the loop is told. `S` is how the child exits.
#[derive(Debug)]
pub enum Message<S> {
    /// Input from the user
    Stdin(Vec<u8>),
    /// Output from the child tty
    Stdout(Vec<u8>),
    /// Child tty output reached EOF
    StdoutEof,
    /// Terminal window size changed
    Resize(PtySize),
    /// Child process terminated
    Terminated(S),
}

/// Whether the loop goes on.
#[derive(Debug, Clone, Copy, PartialEq, Eq, Structural)]
pub enum RecordLoopControl {
    Continue,
    Break,
}

/// What the loop does about a message.
#[derive(Debug, PartialEq, Eq)]
pub enum RecordAction {
    /// Send the input to the child.
    WriteStdin(Vec<u8>),
    /// Show and log the output of the child.
    WriteStdout(Vec<u8>),
    /// Give the child tty a new size.
    Resize(PtySize),
    /// Show and log what is held back of the output.
    DrainPendingStdout,
    Nothing,
}

/// What the loop knows of the child. Times are in nanoseconds.
#[derive(Debug)]
pub struct RecordLoopState<S> {
    pub child_status: Option<S>,
    pub stdout_eof: bool,
    pub child_terminated_at: Option<u64>,
}

impl<S> Default for RecordLoopState<S> {
    fn default() -> (state: Self)
        ensures
            state.child_status is None,
            !state.stdout_eof,
            state.child_terminated_at is None,
    {
        RecordLoopState { child_status: None, stdout_eof: false, child_terminated_at: None }
    }
}

impl<S> RecordLoopState<S> {
    /// Whether the child is gone and all its output was seen.
    pub open spec fn is_over(self) -> bool {
        self.child_status is Some && self.stdout_eof
    }

    /// What the loop knows behind a message that comes at the time `now`.
    pub open spec fn after(self, msg: Message<S>, now: u64) -> RecordLoopState<S> {
        match msg {
            Message::StdoutEof => RecordLoopState { stdout_eof: true, ..self },
            Message::Terminated(status) => RecordLoopState {
                child_status: Some(status),
                child_terminated_at: Some(now),
                ..self
            },
            _ => self,
        }
    }
}

/// Whether the loop ends with the message: the last one of the child's exit and the
/// end of its output.
pub open spec fn ends_loop<S>(state: RecordLoopState<S>, msg: Message<S>, now: u64) -> bool {
    (msg is StdoutEof || msg is Terminated) && state.after(msg, now).is_over()
}

/// What the loop does about the message.
pub open spec fn action_for<S>(
    state: RecordLoopState<S>,
    msg: Message<S>,
    now: u64,
) -> RecordAction {
    match msg {
        Message::Stdin(data) => RecordAction::WriteStdin(data),
        Message::Stdout(data) => RecordAction::WriteStdout(data),
        Message::Resize(size) => RecordAction::Resize(size),
        _ => if ends_loop(state, msg, now) {
            RecordAction::DrainPendingStdout
        } else {
            RecordAction::Nothing
        },
    }
}

/// Takes in a message that comes at the time `now`, and returns what is to be done
/// about it and whether the loop goes on after that.
pub fn process_record_message<S>(state: &mut RecordLoopState<S>, msg: Message<S>, now: u64) -> (r: (
    RecordAction,
    RecordLoopControl,
))
    ensures
        *final(state) == old(state).after(msg, now),
        r.0 == action_for(*old(state), msg, now),
        r.1 == if ends_loop(*old(state), msg, now) {
            RecordLoopControl::Break
        } else {
            RecordLoopControl::Continue
        },
        r.1 == control_for(*old(state), msg, now),
{
    match msg {
        Message::Stdin(data) => (RecordAction::WriteStdin(data), RecordLoopControl::Continue),
        Message::Stdout(data) => (RecordAction::WriteStdout(data), RecordLoopControl::Continue),
        Message::StdoutEof => {
            state.stdout_eof = true;
            if state.child_status.is_some() {
                (RecordAction::DrainPendingStdout, RecordLoopControl::Break)
            } else {
                (RecordAction::Nothing, RecordLoopControl::Continue)
            }
        },
        Message::Resize(size) => (RecordAction::Resize(size), RecordLoopControl::Continue),
        Message::Terminated(status) => {
            state.child_status = Some(status);
            state.child_terminated_at = Some(now);
            if state.stdout_eof {
                (RecordAction::DrainPendingStdout, RecordLoopControl::Break)
            } else {
                (RecordAction::Nothing, RecordLoopControl::Continue)
            }
        },
    }
}

/// How long the loop waits for the output of a child that is gone, in nanoseconds.
pub const STDOUT_DRAIN_AFTER_CHILD_EXIT: u64 = 500_000_000;

/// How long the loop still waits at the time `now` for the output of a child that is
/// gone: until the grace period behind its exit has passed. Where that is beyond all
/// times, it does not wait.
pub open spec fn time_left(child_terminated_at: Option<u64>, now: u64) -> u64 {
    let start = match child_terminated_at {
        Some(at) => at,
        None => now,
    };
    let deadline = start + STDOUT_DRAIN_AFTER_CHILD_EXIT;
    if deadline > u64::MAX || deadline < now {
        0
    } else {
        (deadline - now) as u64
    }
}

/// How long the loop waits for the next message.
pub open spec fn timeout_for(
    child_status_known: bool,
    stdout_eof: bool,
    child_terminated_at: Option<u64>,
    now: u64,
) -> Option<u64> {
    if child_status_known && !stdout_eof {
        Some(time_left(child_terminated_at, now))
    } else {
        None
    }
}

/// Whether the loop goes on behind the message.
pub open spec fn control_for<S>(
    state: RecordLoopState<S>,
    msg: Message<S>,
    now: u64,
) -> RecordLoopControl {
    if ends_loop(state, msg, now) {
        RecordLoopControl::Break
    } else {
        RecordLoopControl::Continue
    }
}

/// How long the loop waits for the next message, or `None` if it waits for as long as
/// it takes.
pub fn stdout_drain_timeout_after_child_exit(
    child_status_known: bool,
    stdout_eof: bool,
    child_terminated_at: Option<u64>,
    now: u64,
) -> (timeout: Option<u64>)
    ensures
        timeout == if child_status_known && !stdout_eof {
            Some(time_left(child_terminated_at, now))
        } else {
            None
        },
        timeout == timeout_for(child_status_known, stdout_eof, child_terminated_at, now),
{
    if !child_status_known || stdout_eof {
        return None;
    }
    let start: u64 = match child_terminated_at {
        Some(at) => at,
        None => now,
    };
    let deadline: u64 = match start.checked_add(STDOUT_DRAIN_AFTER_CHILD_EXIT) {
        Some(deadline) => deadline,
        None => now,
    };
    Some(deadline.saturating_sub(now))
}

/// How long the loop waits for the next message in the given state, or `None` if it
/// waits for as long as it takes.
pub fn next_timeout<S>(state: &RecordLoopState<S>, now: u64) -> (timeout: Option<u64>)
    ensures
        timeout == if state.child_status is Some && !state.stdout_eof {
            Some(time_left(state.child_terminated_at, now))
        } else {
            None
        },
        timeout == timeout_for(
            state.child_status is Some,
            state.stdout_eof,
            state.child_terminated_at,
            now,
        ),
{
    stdout_drain_timeout_after_child_exit(
        state.child_status.is_some(),
        state.stdout_eof,
        state.child_terminated_at,
        now,
    )
}

/// What comes of output of the child.
#[derive(Debug)]
pub struct StdoutWrites {
    /// What is sent back to the child.
    pub child_input: Vec<u8>,
    /// What the outer terminal shows.
    pub terminal: Vec<u8>,
    /// What is logged.
    pub event: Option<Event>,
}

/// Whether `writes` shows and logs the output `data`, where `before` is what was
/// carried forward from the output logged before, and `after` what is carried forward
/// then. No output is neither shown nor logged.
pub open spec fn shows_and_logs(
    writes: StdoutWrites,
    data: Seq<u8>,
    elapsed: u32,
    before: Seq<u8>,
    after: Seq<u8>,
) -> bool {
    &&& writes.terminal@ == data
    &&& if data.len() == 0 {
        writes.event is None && after == before
    } else {
        &&& writes.event matches Some(event)
        &&& event.0 == elapsed
        &&& event.1@ == output_kind()
        &&& encode_utf8(event.2@) == logged(before + data)
        &&& after == carried(before + data)
    }
}

/// Shows and logs output.
fn show_and_log(buffer: &mut Vec<u8>, elapsed: u32, data: Vec<u8>) -> (writes: StdoutWrites)
    ensures
        writes.child_input@ == Seq::<u8>::empty(),
        shows_and_logs(writes, data@, elapsed, old(buffer)@, final(buffer)@),
{
    let child_input: Vec<u8> = Vec::new();
    if data.len() == 0 {
        return StdoutWrites { child_input, terminal: data, event: None };
    }
    let mut pending: Vec<u8> = Vec::new();
    pending.extend_from_slice(data.as_slice());
    assert(pending@ =~= data@);
    let event = log_utf8_output(buffer, elapsed, &mut pending);
    StdoutWrites { child_input, terminal: data, event: Some(event) }
}

/// Whether `writes` is what comes of the output `data` of the child, which a tracker, if
/// there is one, filters and answers first.
pub open spec fn takes_in(
    tracker: Option<InputModeTracker>,
    tracker_after: Option<InputModeTracker>,
    data: Seq<u8>,
    writes: StdoutWrites,
    elapsed: u32,
    before: Seq<u8>,
    after: Seq<u8>,
) -> bool {
    match tracker {
        Some(tracker) => {
            let filtered = tracker.filtered(data);
            &&& writes.child_input@ == filtered.replies
            &&& shows_and_logs(writes, filtered.output, elapsed, before, after)
            &&& tracker_after matches Some(next)
            &&& next.modes() == filtered.modes
            &&& next.string() == filtered.string
            &&& next.held() == filtered.pending
        },
        None => {
            &&& writes.child_input@ == Seq::<u8>::empty()
            &&& shows_and_logs(writes, data, elapsed, before, after)
            &&& tracker_after is None
        },
    }
}

/// Whether `writes` lets go of what a tracker, if there is one, holds back.
pub open spec fn lets_go(
    tracker: Option<InputModeTracker>,
    tracker_after: Option<InputModeTracker>,
    writes: StdoutWrites,
    elapsed: u32,
    before: Seq<u8>,
    after: Seq<u8>,
) -> bool {
    &&& writes.child_input@ == Seq::<u8>::empty()
    &&& match tracker {
        Some(tracker) => {
            &&& shows_and_logs(writes, tracker.held(), elapsed, before, after)
            &&& tracker_after matches Some(next)
            &&& next.modes() == tracker.modes()
            &&& next.string() == tracker.string()
            &&& next.held() == Seq::<u8>::empty()
        },
        None => {
            &&& shows_and_logs(writes, Seq::empty(), elapsed, before, after)
            &&& tracker_after is None
        },
    }
}

/// What comes of the output `data` of the child. With a tracker the output is filtered
/// first, and what the tracker answers is sent back to the child. `buffer` holds what
/// is carried forward from the output logged before.
pub fn write_stdout(
    tracker: &mut Option<InputModeTracker>,
    buffer: &mut Vec<u8>,
    elapsed: u32,
    data: Vec<u8>,
) -> (writes: StdoutWrites)
    ensures
        match *old(tracker) {
            Some(before) => {
                let filtered = before.filtered(data@);
                &&& writes.child_input@ == filtered.replies
                &&& shows_and_logs(
                    writes,
                    filtered.output,
                    elapsed,
                    old(buffer)@,
                    final(buffer)@,
                )
                &&& *final(tracker) matches Some(after)
                &&& after.modes() == filtered.modes
                &&& after.string() == filtered.string
                &&& after.held() == filtered.pending
            },
            None => {
                &&& writes.child_input@ == Seq::<u8>::empty()
                &&& shows_and_logs(writes, data@, elapsed, old(buffer)@, final(buffer)@)
                &&& *final(tracker) is None
            },
        },
        writes.event matches Some(event) ==> event.0 == elapsed,
        takes_in(
            *old(tracker),
            *final(tracker),
            data@,
            writes,
            elapsed,
            old(buffer)@,
            final(buffer)@,
        ),
{
    match tracker {
        Some(tracker) => {
            let mut child_input: Vec<u8> = Vec::new();
            let filtered = filter_child_output_for_outer_terminal(
                tracker,
                data.as_slice(),
                &mut child_input,
            );
            let mut writes = show_and_log(buffer, elapsed, filtered);
            writes.child_input = child_input;
            writes
        },
        None => show_and_log(buffer, elapsed, data),
    }
}

/// Shows and logs what the tracker holds back, which then is nothing.
pub fn drain_pending_stdout(
    tracker: &mut Option<InputModeTracker>,
    buffer: &mut Vec<u8>,
    elapsed: u32,
) -> (writes: StdoutWrites)
    ensures
        writes.child_input@ == Seq::<u8>::empty(),
        match *old(tracker) {
            Some(before) => {
                &&& shows_and_logs(writes, before.held(), elapsed, old(buffer)@, final(buffer)@)
                &&& *final(tracker) matches Some(after)
                &&& after.modes() == before.modes()
                &&& after.string() == before.string()
                &&& after.held() == Seq::<u8>::empty()
            },
            None => {
                &&& shows_and_logs(
                    writes,
                    Seq::empty(),
                    elapsed,
                    old(buffer)@,
                    final(buffer)@,
                )
                &&& *final(tracker) is None
            },
        },
        writes.event matches Some(event) ==> event.0 == elapsed,
        lets_go(*old(tracker), *final(tracker), writes, elapsed, old(buffer)@, final(buffer)@),
{
    let data = match tracker {
        Some(tracker) => tracker.drain_pending(),
        None => Vec::new(),
    };
    show_and_log(buffer, elapsed, data)
}

/// The states that the loop goes through, as long as it goes on: what it knows behind
/// the messages, which come at the given times.
pub open spec fn state_behind<S>(
    state: RecordLoopState<S>,
    msgs: Seq<(Message<S>, u64)>,
) -> RecordLoopState<S>
    decreases msgs.len(),
{
    if msgs.len() == 0 {
        state
    } else {
        state_behind(state, msgs.drop_last()).after(msgs.last().0, msgs.last().1)
    }
}

/// A loop that has not ended ends with the first message behind which the child is
/// gone and all its output was seen, and with no other, whichever of the two comes
/// last.
pub proof fn law_loop_waits_for_both<S>(state: RecordLoopState<S>, msg: Message<S>, now: u64)
    requires
        !state.is_over(),
    ensures
        ends_loop(state, msg, now) <==> state.after(msg, now).is_over(),
        ends_loop(state, msg, now) <==> (msg is StdoutEof && state.child_status is Some) || (
        msg is Terminated && state.stdout_eof),
{
}

/// Once the child's exit or the end of its output was seen, it stays so.
pub proof fn law_loop_forgets_nothing<S>(state: RecordLoopState<S>, msgs: Seq<(Message<S>, u64)>)
    ensures
        state.child_status is Some ==> state_behind(state, msgs).child_status is Some,
        state.stdout_eof ==> state_behind(state, msgs).stdout_eof,
        state_behind(state, msgs).is_over() <==> {
            &&& state.child_status is Some || exists|i: int|
                0 <= i < msgs.len() && (#[trigger] msgs[i]).0 is Terminated
            &&& state.stdout_eof || exists|i: int|
                0 <= i < msgs.len() && (#[trigger] msgs[i]).0 is StdoutEof
        },
{
    lemma_state_behind(state, msgs);
}

proof fn lemma_state_behind<S>(state: RecordLoopState<S>, msgs: Seq<(Message<S>, u64)>)
    ensures
        state_behind(state, msgs).child_status is Some <==> state.child_status is Some || exists|
            i: int,
        |
            0 <= i < msgs.len() && (#[trigger] msgs[i]).0 is Terminated,
        state_behind(state, msgs).stdout_eof <==> state.stdout_eof || exists|i: int|
            0 <= i < msgs.len() && (#[trigger] msgs[i]).0 is StdoutEof,
    decreases msgs.len(),
{
    if msgs.len() > 0 {
        let init = msgs.drop_last();
        lemma_state_behind(state, init);
        let last = msgs.len() - 1;
        assert forall|i: int| 0 <= i < last implies init[i] == msgs[i] by {}
        if state_behind(state, msgs).child_status is Some {
            if msgs[last].0 !is Terminated && state.child_status is None {
                let i = choose|i: int| 0 <= i < init.len() && (#[trigger] init[i]).0 is Terminated;
                assert(msgs[i].0 is Terminated);
            }
        }
        if state_behind(state, msgs).stdout_eof {
            if msgs[last].0 !is StdoutEof && !state.stdout_eof {
                let i = choose|i: int| 0 <= i < init.len() && (#[trigger] init[i]).0 is StdoutEof;
                assert(msgs[i].0 is StdoutEof);
            }
        }
        if exists|i: int| 0 <= i < msgs.len() && (#[trigger] msgs[i]).0 is Terminated {
            let i = choose|i: int| 0 <= i < msgs.len() && (#[trigger] msgs[i]).0 is Terminated;
            if i < last {
                assert(init[i].0 is Terminated);
            }
        }
        if exists|i: int| 0 <= i < msgs.len() && (#[trigger] msgs[i]).0 is StdoutEof {
            let i = choose|i: int| 0 <= i < msgs.len() && (#[trigger] msgs[i]).0 is StdoutEof;
            if i < last {
                assert(init[i].0 is StdoutEof);
            }
        }
    }
}

/// The loop never waits longer than the grace period for the output of a child that is
/// gone, and what is left of it shrinks as time passes.
pub proof fn law_waiting_ends(child_terminated_at: u64, earlier: u64, later: u64)
    requires
        child_terminated_at <= earlier <= later,
    ensures
        time_left(Some(child_terminated_at), earlier) <= STDOUT_DRAIN_AFTER_CHILD_EXIT,
        time_left(Some(child_terminated_at), later) <= time_left(
            Some(child_terminated_at),
            earlier,
        ),
        later - child_terminated_at >= STDOUT_DRAIN_AFTER_CHILD_EXIT ==> time_left(
            Some(child_terminated_at),
            later,
        ) == 0,
{
}

/// The loop waits for a limited time exactly while the child is gone and its output has
/// not ended; else it waits for as long as it takes.
pub proof fn law_waiting_is_limited_behind_the_exit(
    child_status_known: bool,
    stdout_eof: bool,
    child_terminated_at: Option<u64>,
    now: u64,
)
    ensures
        ({
            let timeout = timeout_for(child_status_known, stdout_eof, child_terminated_at, now);
            &&& timeout is Some <==> child_status_known && !stdout_eof
            &&& timeout matches Some(left) ==> left == time_left(child_terminated_at, now)
        }),
{
}

} // verus!

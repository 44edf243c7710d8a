//! The loop of a recording.

use asciicast::modes::InnerInputState;
use asciicast::record::{
    drain_pending_stdout, next_timeout, process_record_message,
    stdout_drain_timeout_after_child_exit, write_stdout, Message, RecordAction, RecordLoopControl,
    RecordLoopState, StdoutWrites, STDOUT_DRAIN_AFTER_CHILD_EXIT,
};
use asciicast::size::PtySize;
use asciicast::tracker::InputModeTracker;
use portable_pty::ExitStatus;

fn tracker() -> InputModeTracker {
    InputModeTracker::new(InnerInputState::default())
}

#[derive(Default)]
struct TestRecordLoopIo {
    stdin_writes: Vec<Vec<u8>>,
    stdout_writes: Vec<Vec<u8>>,
    resizes: Vec<PtySize>,
    logged: Vec<String>,
    tracker: Option<InputModeTracker>,
    buffer: Vec<u8>,
}

impl TestRecordLoopIo {
    fn with_tracker(tracker: InputModeTracker) -> Self {
        Self {
            tracker: Some(tracker),
            ..Default::default()
        }
    }

    fn write(&mut self, writes: StdoutWrites) {
        if !writes.child_input.is_empty() {
            self.stdin_writes.push(writes.child_input);
        }
        if !writes.terminal.is_empty() {
            self.stdout_writes.push(writes.terminal);
        }
        if let Some(event) = writes.event {
            self.logged.push(event.2);
        }
    }

    fn perform(&mut self, action: RecordAction) {
        match action {
            RecordAction::WriteStdin(data) => self.stdin_writes.push(data),
            RecordAction::WriteStdout(data) => {
                let writes = write_stdout(&mut self.tracker, &mut self.buffer, 0, data);
                self.write(writes);
            }
            RecordAction::Resize(size) => self.resizes.push(size),
            RecordAction::DrainPendingStdout => {
                let writes = drain_pending_stdout(&mut self.tracker, &mut self.buffer, 0);
                self.write(writes);
            }
            RecordAction::Nothing => {}
        }
    }
}

fn process(
    state: &mut RecordLoopState<ExitStatus>,
    io: &mut TestRecordLoopIo,
    msg: Message<ExitStatus>,
    now: u64,
) -> RecordLoopControl {
    let (action, control) = process_record_message(state, msg, now);
    io.perform(action);
    control
}

#[test]
fn stdout_drain_timeout_only_applies_after_child_exit_before_stdout_eof() {
    let now: u64 = 7_000_000_000;

    assert_eq!(
        stdout_drain_timeout_after_child_exit(false, false, None, now),
        None
    );
    assert_eq!(
        stdout_drain_timeout_after_child_exit(true, true, Some(now), now),
        None
    );
    assert_eq!(
        stdout_drain_timeout_after_child_exit(true, false, Some(now), now),
        Some(STDOUT_DRAIN_AFTER_CHILD_EXIT)
    );
}

#[test]
fn stdout_drain_timeout_saturates_after_grace_period() {
    let child_exit: u64 = 7_000_000_000;
    let after_grace = child_exit + STDOUT_DRAIN_AFTER_CHILD_EXIT + 1_000_000;

    assert_eq!(
        stdout_drain_timeout_after_child_exit(true, false, Some(child_exit), after_grace),
        Some(0)
    );
}

#[test]
fn record_loop_waits_for_stdout_eof_after_termination() {
    let mut state = RecordLoopState::default();
    let mut io = TestRecordLoopIo::default();
    let now: u64 = 7_000_000_000;

    assert_eq!(
        process(
            &mut state,
            &mut io,
            Message::Terminated(ExitStatus::with_exit_code(0)),
            now,
        ),
        RecordLoopControl::Continue
    );
    assert!(state.child_status.is_some());
    assert!(!state.stdout_eof);

    assert_eq!(
        process(&mut state, &mut io, Message::Stdout(b"late".to_vec()), now,),
        RecordLoopControl::Continue
    );
    assert_eq!(io.stdout_writes, vec![b"late".to_vec()]);

    assert_eq!(
        process(&mut state, &mut io, Message::StdoutEof, now),
        RecordLoopControl::Break
    );
}

#[test]
fn record_loop_drains_pending_tracker_output_when_stdout_eof_follows_termination() {
    let tracker = tracker();
    let mut state = RecordLoopState::default();
    let mut io = TestRecordLoopIo::with_tracker(tracker);
    let now: u64 = 7_000_000_000;

    assert_eq!(
        process(
            &mut state,
            &mut io,
            Message::Stdout(b"\x1b[?".to_vec()),
            now,
        ),
        RecordLoopControl::Continue
    );
    assert!(io.stdout_writes.is_empty());

    assert_eq!(
        process(
            &mut state,
            &mut io,
            Message::Terminated(ExitStatus::with_exit_code(0)),
            now,
        ),
        RecordLoopControl::Continue
    );
    assert_eq!(
        process(&mut state, &mut io, Message::StdoutEof, now),
        RecordLoopControl::Break
    );
    assert_eq!(io.stdout_writes, vec![b"\x1b[?".to_vec()]);
}

#[test]
fn record_loop_delivers_resize_messages_to_master() {
    let mut state = RecordLoopState::default();
    let mut io = TestRecordLoopIo::default();
    let size = PtySize {
        rows: 40,
        cols: 120,
        pixel_width: 0,
        pixel_height: 0,
    };

    assert_eq!(
        process(&mut state, &mut io, Message::Resize(size), 7_000_000_000),
        RecordLoopControl::Continue
    );
    assert_eq!(io.resizes, vec![size]);
}

#[test]
fn record_loop_writes_query_responses_before_later_user_input() {
    let tracker = tracker();
    let mut state = RecordLoopState::default();
    let mut io = TestRecordLoopIo::with_tracker(tracker);
    let now: u64 = 7_000_000_000;

    assert_eq!(
        process(
            &mut state,
            &mut io,
            Message::Stdout(b"\x1b[6n".to_vec()),
            now,
        ),
        RecordLoopControl::Continue
    );
    assert_eq!(
        process(&mut state, &mut io, Message::Stdin(b"user".to_vec()), now,),
        RecordLoopControl::Continue
    );

    assert_eq!(io.stdout_writes, Vec::<Vec<u8>>::new());
    assert_eq!(
        io.stdin_writes,
        vec![b"\x1b[1;1R".to_vec(), b"user".to_vec()]
    );
}

#[test]
fn record_loop_ends_when_termination_follows_stdout_eof() {
    let mut state = RecordLoopState::default();
    let mut io = TestRecordLoopIo::with_tracker(tracker());

    assert_eq!(
        process(&mut state, &mut io, Message::Stdout(b"a\x1b[".to_vec()), 5),
        RecordLoopControl::Continue
    );
    assert_eq!(
        process(&mut state, &mut io, Message::StdoutEof, 6),
        RecordLoopControl::Continue
    );
    assert_eq!(io.stdout_writes, vec![b"a".to_vec()]);
    assert_eq!(
        process(
            &mut state,
            &mut io,
            Message::Terminated(ExitStatus::with_exit_code(3)),
            7,
        ),
        RecordLoopControl::Break
    );
    assert_eq!(io.stdout_writes, vec![b"a".to_vec(), b"\x1b[".to_vec()]);
    assert_eq!(io.logged, vec!["a".to_string(), "\x1b[".to_string()]);
    assert_eq!(state.child_terminated_at, Some(7));
}

#[test]
fn record_loop_waits_at_most_the_grace_period() {
    let mut state = RecordLoopState::<ExitStatus>::default();
    assert_eq!(next_timeout(&state, 10), None);

    state.child_status = Some(ExitStatus::with_exit_code(0));
    assert_eq!(next_timeout(&state, 10), Some(500_000_000));
    state.child_terminated_at = Some(10);
    assert_eq!(next_timeout(&state, 10), Some(500_000_000));
    assert_eq!(next_timeout(&state, 200_000_010), Some(300_000_000));
    assert_eq!(next_timeout(&state, 600_000_000), Some(0));
    state.child_terminated_at = Some(u64::MAX);
    assert_eq!(next_timeout(&state, 10), Some(0));
    state.stdout_eof = true;
    assert_eq!(next_timeout(&state, 10), None);
}

#[test]
fn output_without_a_tracker_is_shown_and_logged_as_it_is() {
    let mut buffer = Vec::new();
    let writes = write_stdout(&mut None, &mut buffer, 9, b"\x1b[6n\xe2\x82".to_vec());

    assert_eq!(writes.child_input, b"");
    assert_eq!(writes.terminal, b"\x1b[6n\xe2\x82");
    let event = writes.event.unwrap();
    assert_eq!(event.0, 9);
    assert_eq!(event.2, "\x1b[6n");
    assert_eq!(buffer, b"\xe2\x82");

    let writes = write_stdout(&mut None, &mut buffer, 9, Vec::new());
    assert!(writes.event.is_none());
    assert_eq!(buffer, b"\xe2\x82");

    let writes = drain_pending_stdout(&mut None, &mut buffer, 9);
    assert!(writes.event.is_none());
    assert_eq!(writes.terminal, b"");
}

#[test]
fn playing_gives_the_output_back() {
    let output = "plain \"quoted\" \\ \x1b[31m\u{e9}\u{20ac}\u{1f600}\x1b[?1000h\x1b[6n\r\n";
    for step in 1..9 {
        let mut buffer = Vec::new();
        let mut played = String::new();
        for piece in output.as_bytes().chunks(step) {
            let writes = write_stdout(&mut None, &mut buffer, 1, piece.to_vec());
            if let Some(text) = writes.event.as_ref().and_then(|event| event.output()) {
                played.push_str(text);
            }
        }
        assert_eq!(played, output);
        assert_eq!(buffer, b"");
    }
}

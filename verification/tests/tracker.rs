//! The tracker on streams of output.

use asciicast::modes::{InnerInputState, MouseTrackingMode};
use asciicast::tracker::{filter_child_output_for_outer_terminal, InputModeTracker};

fn tracker() -> InputModeTracker {
    InputModeTracker::new(InnerInputState::default())
}

#[test]
fn filters_owned_input_modes_and_updates_state() {
    let mut tracker = tracker();

    let output = tracker.filter(b"before\x1b[?9001h\x1b[?1000;1006;2004hafter");

    assert_eq!(output, b"beforeafter");
    let state = tracker.state();
    assert!(state.win32_input);
    assert_eq!(state.mouse_tracking, MouseTrackingMode::Default);
    assert!(state.sgr_mouse);
    assert!(state.bracketed_paste);
}

#[test]
fn preserves_unowned_dec_private_modes_from_mixed_sequence() {
    let mut tracker = tracker();

    let output = tracker.filter(b"\x1b[?25;1000h");

    assert_eq!(output, b"\x1b[?25h");
    assert_eq!(
        tracker.state().mouse_tracking,
        MouseTrackingMode::Default
    );
}

#[test]
fn malformed_dec_private_modes_are_preserved_without_state_changes() {
    let mut tracker = tracker();

    assert_eq!(tracker.filter(b"\x1b[?1000;badh"), b"\x1b[?1000;badh");

    let state = tracker.state();
    assert_eq!(state.mouse_tracking, MouseTrackingMode::Off);
    assert!(!state.mouse_default);
}

#[test]
fn non_private_sm_rm_with_owned_numbers_are_preserved() {
    let mut tracker = tracker();

    assert_eq!(
        tracker.filter(b"\x1b[1000h\x1b[2004l"),
        b"\x1b[1000h\x1b[2004l"
    );

    let state = tracker.state();
    assert_eq!(state.mouse_tracking, MouseTrackingMode::Off);
    assert!(!state.bracketed_paste);
}

#[test]
fn csi_with_intermediates_or_subparams_is_preserved_without_state_changes() {
    let mut tracker = tracker();

    for sequence in [
        b"\x1b[?1000$h".as_slice(),
        b"\x1b[?1000 h",
        b"\x1b[?1000:1h",
    ] {
        assert_eq!(tracker.filter(sequence), sequence);
    }

    let state = tracker.state();
    assert_eq!(state.mouse_tracking, MouseTrackingMode::Off);
    assert!(!state.mouse_default);
}

#[test]
fn unowned_mouse_modes_are_preserved_when_mixed_with_owned_modes() {
    let mut tracker = tracker();

    assert_eq!(
        tracker.filter(b"\x1b[?1000;1005;1015;1016h"),
        b"\x1b[?1005;1015;1016h"
    );

    let state = tracker.state();
    assert_eq!(state.mouse_tracking, MouseTrackingMode::Default);
    assert!(state.mouse_default);
}

#[test]
fn unowned_modes_are_preserved_with_button_and_any_event_modes() {
    let mut tracker = tracker();

    assert_eq!(
        tracker.filter(b"\x1b[?25;1002;1003;1016h"),
        b"\x1b[?25;1016h"
    );
    assert_eq!(
        tracker.state().mouse_tracking,
        MouseTrackingMode::AnyEvent
    );

    assert_eq!(tracker.filter(b"\x1b[?25;1003;1016l"), b"\x1b[?25;1016l");
    assert_eq!(
        tracker.state().mouse_tracking,
        MouseTrackingMode::ButtonEvent
    );
}

#[test]
fn mixed_owned_unowned_reset_filters_only_owned_modes() {
    let mut tracker = tracker();

    assert_eq!(tracker.filter(b"\x1b[?1000;1006;2004h"), b"");
    assert_eq!(tracker.filter(b"\x1b[?25;1000;1006;2004l"), b"\x1b[?25l");

    let state = tracker.state();
    assert_eq!(state.mouse_tracking, MouseTrackingMode::Off);
    assert!(!state.sgr_mouse);
    assert!(!state.bracketed_paste);
}

#[test]
fn repeated_private_mode_params_are_idempotent() {
    let mut tracker = tracker();

    assert_eq!(tracker.filter(b"\x1b[?1000;1000;25;25h"), b"\x1b[?25;25h");

    let state = tracker.state();
    assert_eq!(state.mouse_tracking, MouseTrackingMode::Default);
    assert!(state.mouse_default);
}

#[test]
fn set_reset_order_in_single_buffer_uses_last_state() {
    let mut tracker = tracker();

    assert_eq!(tracker.filter(b"\x1b[?1000h\x1b[?1000l"), b"");
    assert_eq!(
        tracker.state().mouse_tracking,
        MouseTrackingMode::Off
    );

    assert_eq!(tracker.filter(b"\x1b[?1000l\x1b[?1000h"), b"");
    assert_eq!(
        tracker.state().mouse_tracking,
        MouseTrackingMode::Default
    );
}

#[test]
fn filters_fragmented_input_mode_sequence() {
    let mut tracker = tracker();

    assert_eq!(tracker.filter(b"a\x1b[?10"), b"a");
    assert_eq!(tracker.filter(b"04hB"), b"B");

    assert!(tracker.state().focus);
}

#[test]
fn filters_fragmented_mixed_input_mode_sequence() {
    let mut tracker = tracker();

    assert_eq!(tracker.filter(b"\x1b[?25;10"), b"");
    assert_eq!(tracker.filter(b"00hX"), b"\x1b[?25hX");

    assert_eq!(
        tracker.state().mouse_tracking,
        MouseTrackingMode::Default
    );
}

#[test]
fn dec_private_modes_work_when_split_at_every_byte() {
    for (sequence, expected_output, assert_state) in [
        (
            b"\x1b[?9001h".as_slice(),
            b"".as_slice(),
            Box::new(|state: &InnerInputState| assert!(state.win32_input))
                as Box<dyn Fn(&InnerInputState)>,
        ),
        (
            b"\x1b[?25;1000;1006h".as_slice(),
            b"\x1b[?25h".as_slice(),
            Box::new(|state: &InnerInputState| {
                assert_eq!(state.mouse_tracking, MouseTrackingMode::Default);
                assert!(state.sgr_mouse);
            }),
        ),
        (
            b"\x1b[?1000;1006;2004l".as_slice(),
            b"".as_slice(),
            Box::new(|state: &InnerInputState| {
                assert_eq!(state.mouse_tracking, MouseTrackingMode::Off);
                assert!(!state.sgr_mouse);
                assert!(!state.bracketed_paste);
            }),
        ),
    ] {
        let mut tracker = tracker();
        let mut output = Vec::new();
        for byte in sequence {
            output.extend_from_slice(&tracker.filter(&[*byte]));
        }

        assert_eq!(output, expected_output);
        assert_eq!(tracker.drain_pending(), b"");
        assert_state(&tracker.state());
    }
}

#[test]
fn malformed_dec_private_mode_is_preserved_when_split_at_every_byte() {
    let mut tracker = tracker();
    let sequence = b"\x1b[?1000:1h";
    let mut output = Vec::new();

    for byte in sequence {
        output.extend_from_slice(&tracker.filter(&[*byte]));
    }

    assert_eq!(output, sequence);
    assert_eq!(
        tracker.state().mouse_tracking,
        MouseTrackingMode::Off
    );
}

#[test]
fn pending_malformed_csi_before_new_escape_is_preserved() {
    let mut tracker = tracker();

    assert_eq!(tracker.filter(b"\x1b[?"), b"");
    let (output, responses) =
        tracker.filter_and_get_responses(b"\x1b]0;\x1b[6n\x1b[?9001h\x07tail");

    assert_eq!(output, b"\x1b[?\x1b]0;\x1b[6n\x1b[?9001h\x07tail");
    assert_eq!(responses, b"");
    assert!(!tracker.state().win32_input);
}

#[test]
fn preserves_fragmented_unowned_mode_sequence() {
    let mut tracker = tracker();

    assert_eq!(tracker.filter(b"\x1b[?25"), b"");
    assert_eq!(tracker.filter(b"h"), b"\x1b[?25h");
}

#[test]
fn drains_incomplete_pending_output() {
    let mut tracker = tracker();

    assert_eq!(tracker.filter(b"literal\x1b[?"), b"literal");
    assert_eq!(tracker.drain_pending(), b"\x1b[?");
}

#[test]
fn filters_terminal_response_queries_from_child_output() {
    let mut tracker = tracker();

    let (output, responses) =
        tracker.filter_and_get_responses(b"a\x1b[c\x1b[>0c\x1b[6n\x1b[5nb");

    assert_eq!(output, b"ab");
    assert_eq!(responses, b"\x1b[?1;0c\x1b[>0;0;0c\x1b[1;1R\x1b[0n");
}

#[test]
fn filters_fragmented_terminal_response_queries_from_child_output() {
    let mut tracker = tracker();

    assert_eq!(tracker.filter(b"pre\x1b["), b"pre");
    let (output, responses) = tracker.filter_and_get_responses(b"6npost");
    assert_eq!(output, b"post");
    assert_eq!(responses, b"\x1b[1;1R");
    assert_eq!(tracker.drain_pending(), b"");

    assert_eq!(tracker.filter(b"\x1b[>"), b"");
    let (output, responses) = tracker.filter_and_get_responses(b"0c");
    assert_eq!(output, b"");
    assert_eq!(responses, b"\x1b[>0;0;0c");
}

#[test]
fn terminal_query_near_misses_are_preserved_without_responses() {
    let mut tracker = tracker();

    for query in [
        b"\x1b[?6n".as_slice(),
        b"\x1b[0n",
        b"\x1b[>1c",
        b"\x1b[?1;0c",
    ] {
        let (output, responses) = tracker.filter_and_get_responses(query);
        assert_eq!(output, query);
        assert_eq!(responses, b"");
    }
}

#[test]
fn terminal_queries_work_when_split_at_every_byte() {
    for (query, response) in [
        (b"\x1b[c".as_slice(), b"\x1b[?1;0c".as_slice()),
        (b"\x1b[0c", b"\x1b[?1;0c"),
        (b"\x1b[>c", b"\x1b[>0;0;0c"),
        (b"\x1b[>0c", b"\x1b[>0;0;0c"),
        (b"\x1b[5n", b"\x1b[0n"),
        (b"\x1b[6n", b"\x1b[1;1R"),
    ] {
        for split_at in 1..query.len() {
            let mut tracker = tracker();
            assert_eq!(tracker.filter(&query[..split_at]), b"");
            let (output, responses) = tracker.filter_and_get_responses(&query[split_at..]);
            assert_eq!(output, b"");
            assert_eq!(responses, response);
            assert_eq!(tracker.drain_pending(), b"");
        }
    }
}

#[test]
fn child_output_filter_writes_query_responses_without_outer_output() {
    let mut tracker = tracker();
    let mut child_input = Vec::new();

    let output = filter_child_output_for_outer_terminal(
        &mut tracker,
        b"before\x1b[c\x1b[5n\x1b[6nafter",
        &mut child_input,
    );

    assert_eq!(output, b"beforeafter");
    assert_eq!(child_input, b"\x1b[?1;0c\x1b[0n\x1b[1;1R");
}

#[test]
fn child_output_filter_keeps_markers_and_unowned_modes_out_of_child_input() {
    let mut tracker = tracker();
    let mut child_input = Vec::new();

    let output = filter_child_output_for_outer_terminal(
        &mut tracker,
        b"start\x1b[?9001h\x1b[?25;1006hMARK\x1b[?25;1006lend",
        &mut child_input,
    );

    assert_eq!(output, b"start\x1b[?25hMARK\x1b[?25lend");
    assert_eq!(child_input, b"");
    let state = tracker.state();
    assert!(state.win32_input);
    assert!(!state.sgr_mouse);
}

#[test]
fn child_output_filter_handles_fragmented_query_and_mode_sequences() {
    let mut tracker = tracker();
    let mut child_input = Vec::new();

    assert_eq!(
        filter_child_output_for_outer_terminal(&mut tracker, b"A\x1b[?", &mut child_input),
        b"A"
    );
    assert_eq!(
        filter_child_output_for_outer_terminal(&mut tracker, b"9001hB\x1b[", &mut child_input),
        b"B"
    );
    assert_eq!(
        filter_child_output_for_outer_terminal(&mut tracker, b"6nC", &mut child_input),
        b"C"
    );

    assert_eq!(child_input, b"\x1b[1;1R");
    assert!(tracker.state().win32_input);
    assert_eq!(tracker.drain_pending(), b"");
}

#[test]
fn osc_payload_csi_like_bytes_are_preserved_without_state_or_responses() {
    let mut tracker = tracker();

    let (output, responses) =
        tracker.filter_and_get_responses(b"pre\x1b]0;title \x1b[6n \x1b[?1000h\x07post");

    assert_eq!(output, b"pre\x1b]0;title \x1b[6n \x1b[?1000h\x07post");
    assert_eq!(responses, b"");
    assert_eq!(
        tracker.state().mouse_tracking,
        MouseTrackingMode::Off
    );
}

#[test]
fn dcs_payload_csi_like_bytes_are_preserved_across_fragments() {
    let mut tracker = tracker();

    assert_eq!(tracker.filter(b"pre\x1bPtmux;\x1b\x1b[?9001h"), b"pre");
    let (output, responses) = tracker.filter_and_get_responses(b"\x1b[6n\x1b\\post");

    assert_eq!(output, b"\x1bPtmux;\x1b\x1b[?9001h\x1b[6n\x1b\\post");
    assert_eq!(responses, b"");
    assert!(!tracker.state().win32_input);
}

#[test]
fn control_strings_preserve_csi_like_payloads_and_st_terminators() {
    for (sequence, split_at) in [
        (b"\x1b]0;osc \x1b[6n \x1b[?9001h\x1b\\after".as_slice(), 9),
        (b"\x1b_apc \x1b[6n \x1b[?1000h\x1b\\after", 12),
        (b"\x1b^pm \x1b[5n \x1b[?2004h\x1b\\after", 15),
        (b"\x1bXsos \x1b[c \x1b[?1006h\x1b\\after", 18),
    ] {
        let mut tracker = tracker();

        assert_eq!(tracker.filter(&sequence[..split_at]), b"");
        let (output, responses) = tracker.filter_and_get_responses(&sequence[split_at..]);

        assert_eq!(output, sequence);
        assert_eq!(responses, b"");
        let state = tracker.state();
        assert!(!state.win32_input);
        assert_eq!(state.mouse_tracking, MouseTrackingMode::Off);
        assert!(!state.bracketed_paste);
    }
}

#[test]
fn control_strings_are_preserved_when_split_at_every_byte() {
    for sequence in [
        b"\x1b]0;osc \x1b[6n \x1b[?9001h\x07after".as_slice(),
        b"\x1b]0;osc \x1b[6n \x1b[?9001h\x1b\\after",
        b"\x1bPpayload \x1b[c \x1b[?1000h\x1b\\after",
        b"\x1b_payload \x1b[5n \x1b[?1002h\x1b\\after",
        b"\x1b^payload \x1b[6n \x1b[?1003h\x1b\\after",
        b"\x1bXpayload \x1b[>0c \x1b[?2004h\x1b\\after",
    ] {
        for split_at in 1..sequence.len() {
            let mut tracker = tracker();
            let mut combined_output = tracker.filter(&sequence[..split_at]);

            let (output, responses) = tracker.filter_and_get_responses(&sequence[split_at..]);
            combined_output.extend_from_slice(&output);

            assert_eq!(combined_output, sequence);
            assert_eq!(responses, b"");
            let state = tracker.state();
            assert!(!state.win32_input);
            assert_eq!(state.mouse_tracking, MouseTrackingMode::Off);
            assert!(!state.bracketed_paste);
        }
    }
}

#[test]
fn split_control_string_st_terminator_is_preserved() {
    let mut tracker = tracker();

    assert_eq!(tracker.filter(b"\x1b]0;title\x1b"), b"");
    assert_eq!(tracker.filter(b"\\tail"), b"\x1b]0;title\x1b\\tail");
}

#[test]
fn c1_csi_and_st_bytes_are_passed_through_without_state_changes() {
    let mut tracker = tracker();
    let c1 = b"\x9b?9001htext\x9c";

    let (output, responses) = tracker.filter_and_get_responses(c1);

    assert_eq!(output, c1);
    assert_eq!(responses, b"");
    assert!(!tracker.state().win32_input);
}

#[test]
fn c1_control_strings_are_passed_through_without_state_or_responses() {
    for sequence in [
        b"\x9d0;osc \x1b[6n \x1b[?9001h\x07after".as_slice(),
        b"\x90dcs \x1b[c \x1b[?1000h\x9cafter",
        b"\x9fapc \x1b[5n \x1b[?1002h\x9cafter",
        b"\x9epm \x1b[6n \x1b[?1003h\x9cafter",
        b"\x98sos \x1b[>0c \x1b[?2004h\x9cafter",
    ] {
        let mut tracker = tracker();

        let (output, responses) = tracker.filter_and_get_responses(sequence);

        assert_eq!(output, sequence);
        assert_eq!(responses, b"");
        let state = tracker.state();
        assert!(!state.win32_input);
        assert_eq!(state.mouse_tracking, MouseTrackingMode::Off);
        assert!(!state.bracketed_paste);
    }
}

#[test]
fn query_responses_are_written_before_later_user_input() {
    let mut tracker = tracker();
    let mut child_input = Vec::new();

    assert_eq!(
        filter_child_output_for_outer_terminal(&mut tracker, b"\x1b[6n", &mut child_input),
        b""
    );
    child_input.extend_from_slice(b"user");
    assert_eq!(
        filter_child_output_for_outer_terminal(&mut tracker, b"\x1b[5n", &mut child_input),
        b""
    );

    assert_eq!(child_input, b"\x1b[1;1Ruser\x1b[0n");
}

#[test]
fn preserves_non_query_csi_output() {
    let mut tracker = tracker();

    assert_eq!(tracker.filter(b"\x1b[31mred"), b"\x1b[31mred");
}

#[test]
fn tracks_application_cursor_mode() {
    let mut tracker = tracker();

    assert_eq!(tracker.filter(b"\x1b[?1h"), b"");
    assert!(tracker.state().application_cursor_keys);
    assert_eq!(tracker.filter(b"\x1b[?1l"), b"");
    assert!(!tracker.state().application_cursor_keys);
}

#[test]
fn mouse_mode_precedence_falls_back_when_modes_reset() {
    let mut tracker = tracker();

    assert_eq!(tracker.filter(b"\x1b[?1000;1002;1003h"), b"");
    assert_eq!(
        tracker.state().mouse_tracking,
        MouseTrackingMode::AnyEvent
    );
    assert_eq!(tracker.filter(b"\x1b[?1003l"), b"");
    assert_eq!(
        tracker.state().mouse_tracking,
        MouseTrackingMode::ButtonEvent
    );
    assert_eq!(tracker.filter(b"\x1b[?1002l"), b"");
    assert_eq!(
        tracker.state().mouse_tracking,
        MouseTrackingMode::Default
    );
    assert_eq!(tracker.filter(b"\x1b[?1000l"), b"");
    assert_eq!(
        tracker.state().mouse_tracking,
        MouseTrackingMode::Off
    );
}

/// Taking a stream in at once and in two pieces gives the same.
fn assert_pieces_do_not_matter(stream: &[u8]) {
    let mut whole = tracker();
    let (output, responses) = whole.filter_and_get_responses(stream);
    for cut in 0..=stream.len() {
        let mut pieces = tracker();
        let (mut out, mut replies) = pieces.filter_and_get_responses(&stream[..cut]);
        let (more, also) = pieces.filter_and_get_responses(&stream[cut..]);
        out.extend(more);
        replies.extend(also);
        assert_eq!(out, output);
        assert_eq!(replies, responses);
        assert_eq!(pieces.state(), whole.state());
    }
}

#[test]
fn pieces_do_not_matter() {
    assert_pieces_do_not_matter(
        b"a\xc3\xa9\xe2\x82\xac\xf0\x9f\x98\x80\x1b[?25;1000h\x1b[6n\x1bM\x1b]0;t\xc2\x9cx\x1b[?1\x1b[31m",
    );
    assert_pieces_do_not_matter(b"\xc2\x9b?1006hx\xc2\x9d0;\x1b[6n\x07y\xc2\x85z\xff\xc2A\x90q\x9c\x9b5n");
}

#[test]
fn c1_controls_in_utf8_are_recognised() {
    let mut tracker = tracker();
    let (output, responses) =
        tracker.filter_and_get_responses(b"a\xc2\x9b?25;1003hb\xc2\x9b6nc\xc2\x9b31md");

    assert_eq!(output, b"a\xc2\x9b?25hbc\xc2\x9b31md");
    assert_eq!(responses, b"\x1b[1;1R");
    assert_eq!(tracker.state().mouse_tracking, MouseTrackingMode::AnyEvent);
}

#[test]
fn unfinished_characters_are_held_back() {
    let mut tracker = tracker();
    assert_eq!(tracker.filter(b"a\xf0\x9f"), b"a");
    assert_eq!(tracker.filter(b"\x98"), b"");
    assert_eq!(tracker.filter(b"\x80b"), b"\xf0\x9f\x98\x80b");
    assert_eq!(tracker.filter(b"\xc2"), b"");
    assert_eq!(tracker.drain_pending(), b"\xc2");
}

#[test]
fn parameters_that_are_not_utf8_count_as_none() {
    let mut tracker = tracker();
    let (output, responses) = tracker.filter_and_get_responses(b"\x1b[\xffc\x1b[\xffn");
    assert_eq!(output, b"\x1b[\xffn");
    assert_eq!(responses, b"\x1b[?1;0c");
}

#[test]
fn a_long_control_string_is_passed_through() {
    let mut stream = b"\x1b]0;".to_vec();
    stream.resize(70_000, b'x');
    let mut tracker = tracker();

    assert_eq!(tracker.filter(&stream[..65_536]), b"");
    assert_eq!(tracker.filter(&stream[65_536..]), stream);
    assert_eq!(tracker.drain_pending(), b"");
    let (output, responses) = tracker.filter_and_get_responses(b"\x1b[6n\x1b");
    assert_eq!((output.as_slice(), responses.len()), (b"\x1b[6n\x1b".as_slice(), 0));
    let (output, responses) = tracker.filter_and_get_responses(b"\\\x1b[6n");
    assert_eq!(output, b"\\");
    assert_eq!(responses, b"\x1b[1;1R");
}

#[test]
fn long_control_strings_end_as_short_ones_do() {
    for (start, end, after) in [
        (b"\x1b]".as_slice(), b"\x07".as_slice(), b"\x1b[5n".as_slice()),
        (b"\x1bP", b"\x9c", b"\x1b[5n"),
        (b"\x9e", b"\xc2\x9c", b"\x1b[5n"),
        (b"\xc2\x98", b"\x1b\\", b"\x1b[5n"),
        (b"\xc2\x9d", b"\x07", b"\x1b[5n"),
    ] {
        let mut stream = start.to_vec();
        stream.resize(66_000, b'x');
        let mut tracker = tracker();
        assert_eq!(tracker.filter(&stream), stream);
        let mut rest = b"\x1b[?1h".to_vec();
        rest.extend_from_slice(end);
        let mut sent = rest.clone();
        sent.extend_from_slice(after);
        let (output, responses) = tracker.filter_and_get_responses(&sent);
        assert_eq!(output, rest);
        assert_eq!(responses, b"\x1b[0n");
        assert_eq!(tracker.state(), InnerInputState::default());
    }
}

#[test]
fn a_bell_does_not_end_other_long_strings() {
    let mut stream = b"\x1bP".to_vec();
    stream.resize(66_000, b'x');
    let mut tracker = tracker();
    assert_eq!(tracker.filter(&stream), stream);
    let (output, responses) = tracker.filter_and_get_responses(b"\x07\x1b[5n");
    assert_eq!(output, b"\x07\x1b[5n");
    assert_eq!(responses, b"");
}

#[test]
fn a_control_sequence_beyond_the_limit_is_released() {
    let mut stream = b"\x1b[?".to_vec();
    stream.resize(65_537, b'0');
    let mut tracker = tracker();
    assert_eq!(tracker.filter(&stream), stream);
    assert_eq!(tracker.filter(b"1000h"), b"1000h");
    assert_eq!(tracker.state(), InnerInputState::default());
}

/// Whether `part` is left of `whole` when some of its bytes are left out.
fn is_left_of(part: &[u8], whole: &[u8]) -> bool {
    let mut rest = whole.iter();
    part.iter().all(|byte| rest.any(|other| other == byte))
}

#[test]
fn output_is_what_is_left_of_what_came_in() {
    for stream in [
        b"\x1b[?1;2;3;1000;+25h".as_slice(),
        b"\x1b[?1h",
        b"a\x1b[?1000;7;1002;8lb\x1b[6nc\x1b]0;x\x07\x1b[?",
        b"text\x1b",
        b"\xe2\x82",
    ] {
        let mut tracker = tracker();
        let mut left = tracker.filter(stream);
        left.extend(tracker.drain_pending());
        assert!(is_left_of(&left, stream));
    }
    assert!(is_left_of(b"ac", b"abc") && !is_left_of(b"ca", b"abc"));
}

#[test]
fn output_is_no_longer_than_what_came_in() {
    let mut tracker = tracker();
    for stream in [
        b"\x1b[?1;2;3;1000;+25h".as_slice(),
        b"\x1b[?1h",
        b"text\x1b",
        b"\xe2\x82",
    ] {
        let held = tracker.drain_pending().len();
        let output = tracker.filter(stream);
        assert!(output.len() <= held + stream.len());
    }
    assert_eq!(tracker.drain_pending(), b"\xe2\x82");
}

//! Explaining a recording.

use asciicast::explain::{explain, OutputParser};
use asciicast::play::{play_plan, summarize, PlayMode, PlayPlan, Summarized, TerminalAction};

fn lines(actions: Vec<TerminalAction<u32>>) -> Vec<String> {
    summarize(actions)
        .into_iter()
        .map(|line| match line {
            Summarized::Action(n) => format!("action {n}"),
            Summarized::Print(text) => text,
        })
        .collect()
}

fn prints(text: &str) -> Vec<TerminalAction<u32>> {
    text.chars().map(TerminalAction::Print).collect()
}

#[test]
fn printed_characters_make_one_line() {
    let mut actions = prints("ab");
    actions.push(TerminalAction::Other(1));
    actions.push(TerminalAction::Other(2));
    actions.extend(prints("c"));

    assert_eq!(lines(actions), vec!["ab", "action 1", "action 2", "c"]);
    assert_eq!(lines(vec![]), Vec::<String>::new());
}

#[test]
fn printed_characters_are_escaped_by_default_rules() {
    let text = "a\t\r\n'\"\\ ~\u{7f}\u{0}\u{1b}\u{e9}\u{20ac}\u{10ffff}";
    assert_eq!(
        lines(prints(text)),
        vec![text.escape_default().to_string()]
    );
    assert_eq!(lines(prints("\u{1f600}")), vec!["\\u{1f600}"]);
}

#[test]
fn the_flags_make_the_plan() {
    let plan = |mode, explain_sent, explain_received| PlayPlan {
        mode,
        explain_sent,
        explain_received,
    };
    assert_eq!(
        play_plan(false, false, false),
        plan(PlayMode::Replay, false, false)
    );
    assert_eq!(
        play_plan(true, false, false),
        plan(PlayMode::Replay, true, true)
    );
    assert_eq!(
        play_plan(false, true, false),
        plan(PlayMode::ExplainOnly, true, false)
    );
    assert_eq!(
        play_plan(false, false, true),
        plan(PlayMode::Cat, false, false)
    );
    assert_eq!(
        play_plan(true, true, true),
        plan(PlayMode::Cat, false, false)
    );
}

fn explained(sent: &[&str]) -> Vec<String> {
    let sent = sent.iter().map(|text| text.to_string()).collect();
    explain(&sent)
        .into_iter()
        .map(|line| match line {
            Summarized::Action(action) => format!("{action}"),
            Summarized::Print(text) => text,
        })
        .collect()
}

#[test]
fn output_is_explained_across_pieces() {
    assert_eq!(
        explained(&["a\x1b[1mb", "c\u{e9}", "\x1b[3", "1md"]),
        vec!["a", "\x1b[1m", "bc\\u{e9}", "\x1b[31m", "d"]
    );
    assert_eq!(explained(&[]), Vec::<String>::new());
}

#[test]
fn input_is_parsed_across_pieces() {
    let mut parser = OutputParser::new();
    assert!(matches!(
        parser.parse(b"x\x1b[").as_slice(),
        [TerminalAction::Print('x')]
    ));
    assert!(matches!(
        parser.parse("1m\u{e9}".as_bytes()).as_slice(),
        [TerminalAction::Other(_), TerminalAction::Print('\u{e9}')]
    ));
}

#[test]
fn actions_are_explained_in_the_order_in_which_they_come() {
    assert_eq!(
        explained(&["\x1b[1m\x1b[3mx\x1b[4m", "\x1b[31m\x1b[2;3H"]),
        vec!["\x1b[1m", "\x1b[3m", "x", "\x1b[4m", "\x1b[31m", "\x1b[2;3H"]
    );
}

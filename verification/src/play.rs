//! Replaying a recording and explaining what is in it.

use crate::bytes::append_bytes;
use crate::cast::string_from_utf8;
use crate::numbers::{
    append_hexadecimal, hex_value, hexadecimal, law_hexadecimal_reads_back, lemma_hexadecimal_is_ascii,
};
use crate::utf8::lemma_ascii_is_valid;
use vstd::prelude::*;
use vstd::utf8::{char_u32_cast, encode_utf8};

verus! {

/// How a recording is played.
#[derive(Debug, Clone, Copy, PartialEq, Eq, Structural)]
pub enum PlayMode {
    /// All output at once, without timing.
    Cat,
    /// No output, only the explanation.
    ExplainOnly,
    /// The output at the times at which it was recorded.
    Replay,
}

/// What playing a recording consists of.
#[derive(Debug, Clone, Copy, PartialEq, Eq, Structural)]
pub struct PlayPlan {
    pub mode: PlayMode,
    /// Whether the output is explained at the end.
    pub explain_sent: bool,
    /// Whether the input that came in the meantime is explained at the end.
    pub explain_received: bool,
}

/// What playing a recording consists of, where the user has asked for the given things.
pub open spec fn planned(explain: bool, explain_only: bool, cat: bool) -> PlayPlan {
    PlayPlan {
        mode: if cat {
            PlayMode::Cat
        } else if explain_only {
            PlayMode::ExplainOnly
        } else {
            PlayMode::Replay
        },
        explain_sent: !cat && (explain || explain_only),
        explain_received: !cat && explain && !explain_only,
    }
}

/// What playing a recording consists of, given what the user has asked for.
pub fn play_plan(explain: bool, explain_only: bool, cat: bool) -> (plan: PlayPlan)
    ensures
        plan.mode == if cat {
            PlayMode::Cat
        } else if explain_only {
            PlayMode::ExplainOnly
        } else {
            PlayMode::Replay
        },
        plan.explain_sent == (!cat && (explain || explain_only)),
        plan.explain_received == (!cat && explain && !explain_only),
        plan == planned(explain, explain_only, cat),
{
    if cat {
        PlayPlan { mode: PlayMode::Cat, explain_sent: false, explain_received: false }
    } else if explain_only {
        PlayPlan { mode: PlayMode::ExplainOnly, explain_sent: true, explain_received: false }
    } else {
        PlayPlan { mode: PlayMode::Replay, explain_sent: explain, explain_received: explain }
    }
}

/// What a piece of output makes a terminal do: print a character, or something else,
/// which `A` describes.
#[derive(Debug)]
pub enum TerminalAction<A> {
    Print(char),
    Other(A),
}

/// A line of an explanation.
#[derive(Debug)]
pub enum Summarized<A> {
    Action(A),
    /// Characters that are printed one after the other, with escapes for those that are
    /// not printable ASCII.
    Print(String),
}

/// A line of an explanation, with the printed characters in UTF-8.
pub enum SummaryLine<A> {
    Action(A),
    Print(Seq<u8>),
}

impl<A> View for Summarized<A> {
    type V = SummaryLine<A>;

    open spec fn view(&self) -> SummaryLine<A> {
        match *self {
            Summarized::Action(action) => SummaryLine::Action(action),
            Summarized::Print(text) => SummaryLine::Print(encode_utf8(text@)),
        }
    }
}

/// The views of the lines of an explanation.
pub open spec fn line_views<A>(v: Seq<Summarized<A>>) -> Seq<SummaryLine<A>> {
    v.map_values(|line: Summarized<A>| line@)
}

/// A character as it is explained: printable ASCII as it is, quotes and backslashes
/// behind a backslash, tabs and line ends as letters behind a backslash, and anything
/// else by its number, as `\u{..}`.
pub open spec fn escaped_char(c: char) -> Seq<u8> {
    let n = c as u32;
    if n == 0x09 {
        seq![0x5cu8, 0x74u8]
    } else if n == 0x0d {
        seq![0x5cu8, 0x72u8]
    } else if n == 0x0a {
        seq![0x5cu8, 0x6eu8]
    } else if n == 0x27 || n == 0x22 || n == 0x5c {
        seq![0x5cu8, n as u8]
    } else if 0x20 <= n <= 0x7e {
        seq![n as u8]
    } else {
        seq![0x5cu8, 0x75u8, 0x7bu8] + hexadecimal(n as nat) + seq![0x7du8]
    }
}

/// The characters as they are explained.
pub open spec fn escaped(text: Seq<char>) -> Seq<u8>
    decreases text.len(),
{
    if text.len() == 0 {
        Seq::empty()
    } else {
        escaped(text.drop_last()) + escaped_char(text.last())
    }
}

/// The lines with the characters printed behind them, if there are any.
pub open spec fn with_print<A>(lines: Seq<SummaryLine<A>>, print: Seq<char>) -> Seq<SummaryLine<A>> {
    if print.len() == 0 {
        lines
    } else {
        lines.push(SummaryLine::Print(escaped(print)))
    }
}

/// The lines of the explanation of the actions, and the characters that are printed
/// since the last one.
pub open spec fn summary<A>(actions: Seq<TerminalAction<A>>) -> (Seq<SummaryLine<A>>, Seq<char>)
    decreases actions.len(),
{
    if actions.len() == 0 {
        (Seq::empty(), Seq::empty())
    } else {
        let (lines, print) = summary(actions.drop_last());
        match actions.last() {
            TerminalAction::Print(c) => (lines, print.push(c)),
            TerminalAction::Other(action) => (
                with_print(lines, print).push(SummaryLine::Action(action)),
                Seq::empty(),
            ),
        }
    }
}

/// The explanation of the actions.
pub open spec fn explanation<A>(actions: Seq<TerminalAction<A>>) -> Seq<SummaryLine<A>> {
    let (lines, print) = summary(actions);
    with_print(lines, print)
}

proof fn lemma_escaped_char_is_ascii(c: char)
    ensures
        forall|i: int| 0 <= i < escaped_char(c).len() ==> #[trigger] escaped_char(c)[i] < 0x80,
{
    lemma_hexadecimal_is_ascii(c as nat);
}

/// Appends a character as it is explained.
fn append_escaped(out: &mut Vec<u8>, c: char)
    ensures
        final(out)@ == old(out)@ + escaped_char(c),
{
    let ghost before = out@;
    let n: u32 = c as u32;
    if n == 0x09 {
        out.push(0x5c);
        out.push(0x74);
    } else if n == 0x0d {
        out.push(0x5c);
        out.push(0x72);
    } else if n == 0x0a {
        out.push(0x5c);
        out.push(0x6e);
    } else if n == 0x27 || n == 0x22 || n == 0x5c {
        out.push(0x5c);
        out.push(n as u8);
    } else if n >= 0x20 && n <= 0x7e {
        out.push(n as u8);
    } else {
        append_bytes(out, [0x5c, 0x75, 0x7b].as_slice());
        append_hexadecimal(out, n);
        out.push(0x7d);
    }
    assert(out@ =~= before + escaped_char(c));
}

/// Appends the characters printed, if there are any, as a line.
fn push_print<A>(lines: &mut Vec<Summarized<A>>, text: Vec<u8>, Ghost(print): Ghost<Seq<char>>)
    requires
        text@ == escaped(print),
        forall|i: int| 0 <= i < text@.len() ==> #[trigger] text@[i] < 0x80,
        text@.len() == 0 <==> print.len() == 0,
    ensures
        line_views(final(lines)@) == with_print(line_views(old(lines)@), print),
{
    let ghost before = lines@;
    if text.len() > 0 {
        proof {
            lemma_ascii_is_valid(text@);
        }
        if let Some(text) = string_from_utf8(text) {
            lines.push(Summarized::Print(text));
            assert(line_views(lines@) =~= with_print(line_views(before), print));
        }
    }
}

/// Explains actions: characters that are printed one after the other make one line.
pub fn summarize<A>(actions: Vec<TerminalAction<A>>) -> (lines: Vec<Summarized<A>>)
    ensures
        line_views(lines@) == explanation(actions@),
{
    let ghost all = actions@;
    let mut lines: Vec<Summarized<A>> = Vec::new();
    let mut text: Vec<u8> = Vec::new();
    let ghost mut print = Seq::<char>::empty();
    assert(all.take(0).len() == 0);
    assert(line_views(lines@) =~= Seq::<SummaryLine<A>>::empty());
    for action in iter: actions
        invariant
            iter.seq() == all,
            summary(all.take(iter.index() as int)) == (line_views(lines@), print),
            text@ == escaped(print),
            forall|i: int| 0 <= i < text@.len() ==> #[trigger] text@[i] < 0x80,
            text@.len() == 0 <==> print.len() == 0,
    {
        proof {
            let k = iter.index() as int;
            assert(all.take(k + 1).drop_last() =~= all.take(k));
            assert(all.take(k + 1).last() == action);
        }
        match action {
            TerminalAction::Print(c) => {
                append_escaped(&mut text, c);
                proof {
                    lemma_escaped_char_is_ascii(c);
                    assert(print.push(c).drop_last() =~= print);
                    print = print.push(c);
                }
            },
            TerminalAction::Other(action) => {
                push_print(&mut lines, text, Ghost(print));
                text = Vec::new();
                let ghost before = lines@;
                lines.push(Summarized::Action(action));
                proof {
                    print = Seq::empty();
                    assert(line_views(lines@) =~= line_views(before).push(
                        SummaryLine::Action(action),
                    ));
                }
            },
        }
    }
    assert(all.take(all.len() as int) =~= all);
    push_print(&mut lines, text, Ghost(print));
    lines
}

/// The actions among the lines, in order.
pub open spec fn line_actions<A>(lines: Seq<SummaryLine<A>>) -> Seq<A>
    decreases lines.len(),
{
    if lines.len() == 0 {
        Seq::empty()
    } else {
        match lines.last() {
            SummaryLine::Action(action) => line_actions(lines.drop_last()).push(action),
            SummaryLine::Print(_) => line_actions(lines.drop_last()),
        }
    }
}

/// What the lines print, in order.
pub open spec fn line_prints<A>(lines: Seq<SummaryLine<A>>) -> Seq<u8>
    decreases lines.len(),
{
    if lines.len() == 0 {
        Seq::empty()
    } else {
        match lines.last() {
            SummaryLine::Action(_) => line_prints(lines.drop_last()),
            SummaryLine::Print(text) => line_prints(lines.drop_last()) + text,
        }
    }
}

/// The actions that print no character, in order.
pub open spec fn other_actions<A>(actions: Seq<TerminalAction<A>>) -> Seq<A>
    decreases actions.len(),
{
    if actions.len() == 0 {
        Seq::empty()
    } else {
        match actions.last() {
            TerminalAction::Print(_) => other_actions(actions.drop_last()),
            TerminalAction::Other(action) => other_actions(actions.drop_last()).push(action),
        }
    }
}

/// The characters that the actions print, in order.
pub open spec fn printed<A>(actions: Seq<TerminalAction<A>>) -> Seq<char>
    decreases actions.len(),
{
    if actions.len() == 0 {
        Seq::empty()
    } else {
        match actions.last() {
            TerminalAction::Print(c) => printed(actions.drop_last()).push(c),
            TerminalAction::Other(_) => printed(actions.drop_last()),
        }
    }
}

/// Whether no two lines that print follow one another.
pub open spec fn prints_are_apart<A>(lines: Seq<SummaryLine<A>>) -> bool {
    forall|i: int, j: int|
        0 <= i && j < lines.len() && j == i + 1 && #[trigger] lines[i] is Print ==> (
        #[trigger] lines[j]) is Action
}

/// Whether every line that prints prints something.
pub open spec fn no_empty_print<A>(lines: Seq<SummaryLine<A>>) -> bool {
    forall|i: int|
        0 <= i < lines.len() ==> (#[trigger] lines[i] matches SummaryLine::Print(text)
            ==> text.len() > 0)
}

proof fn lemma_escaped_push(text: Seq<char>, c: char)
    ensures
        escaped(text.push(c)) == escaped(text) + escaped_char(c),
{
    assert(text.push(c).drop_last() =~= text);
}

proof fn lemma_push_line<A>(lines: Seq<SummaryLine<A>>, line: SummaryLine<A>)
    ensures
        line_actions(lines.push(line)) == match line {
            SummaryLine::Action(action) => line_actions(lines).push(action),
            SummaryLine::Print(_) => line_actions(lines),
        },
        line_prints(lines.push(line)) == match line {
            SummaryLine::Action(_) => line_prints(lines),
            SummaryLine::Print(text) => line_prints(lines) + text,
        },
{
    assert(lines.push(line).drop_last() =~= lines);
}

proof fn lemma_with_print<A>(lines: Seq<SummaryLine<A>>, print: Seq<char>)
    ensures
        line_actions(with_print(lines, print)) == line_actions(lines),
        line_prints(with_print(lines, print)) == line_prints(lines) + escaped(print),
        no_empty_print(lines) ==> no_empty_print(with_print(lines, print)),
{
    if print.len() == 0 {
        assert(line_prints(lines) + escaped(print) =~= line_prints(lines));
    } else {
        lemma_push_line(lines, SummaryLine::Print(escaped(print)));
    }
}

proof fn lemma_summary<A>(actions: Seq<TerminalAction<A>>)
    ensures
        ({
            let (lines, print) = summary(actions);
            &&& line_actions(lines) == other_actions(actions)
            &&& line_prints(lines) + escaped(print) == escaped(printed(actions))
            &&& prints_are_apart(lines)
            &&& no_empty_print(lines)
            &&& lines.len() > 0 ==> lines.last() is Action
        }),
    decreases actions.len(),
{
    let (lines, print) = summary(actions);
    if actions.len() == 0 {
        assert(line_prints(lines) + escaped(print) =~= escaped(printed(actions)));
    } else {
        let init = actions.drop_last();
        lemma_summary(init);
        let (before, held) = summary(init);
        match actions.last() {
            TerminalAction::Print(c) => {
                lemma_escaped_push(held, c);
                lemma_escaped_push(printed(init), c);
                assert(line_prints(lines) + escaped(print) =~= (line_prints(before) + escaped(held))
                    + escaped_char(c));
            },
            TerminalAction::Other(action) => {
                lemma_with_print(before, held);
                lemma_push_line(with_print(before, held), SummaryLine::Action(action));
                assert(line_prints(lines) + escaped(print) =~= line_prints(before) + escaped(held));
            },
        }
    }
}

/// An explanation loses nothing: its lines hold the actions in order and print all
/// that the actions print, and what is printed without an action in between is on one
/// line. No line prints nothing.
pub proof fn law_explanation_keeps_everything<A>(actions: Seq<TerminalAction<A>>)
    ensures
        line_actions(explanation(actions)) == other_actions(actions),
        line_prints(explanation(actions)) == escaped(printed(actions)),
        prints_are_apart(explanation(actions)),
        no_empty_print(explanation(actions)),
{
    lemma_summary(actions);
    let (lines, print) = summary(actions);
    lemma_with_print(lines, print);
}

/// What playing a recording consists of. Putting all output out at once goes before
/// everything else, and explains nothing. Explaining alone goes before replaying, and
/// explains only what was sent; replaying explains both or neither, as was asked.
pub proof fn law_play_plan(explain: bool, explain_only: bool, cat: bool)
    ensures
        ({
            let plan = planned(explain, explain_only, cat);
            &&& plan.mode == PlayMode::Cat <==> cat
            &&& plan.mode == PlayMode::ExplainOnly <==> explain_only && !cat
            &&& plan.mode == PlayMode::Replay <==> !explain_only && !cat
            &&& cat ==> !plan.explain_sent && !plan.explain_received
            &&& plan.mode == PlayMode::ExplainOnly ==> plan.explain_sent && !plan.explain_received
            &&& plan.mode == PlayMode::Replay ==> plan.explain_sent == explain
                && plan.explain_received == explain
        }),
{
}

/// How each character is explained: printable ASCII stands for itself, unless it is a
/// quote or a backslash, and nothing else starts without a backslash. The letters behind
/// a backslash are those of a tab and the two line ends; behind `u` stands the character's
/// number in braces.
pub proof fn law_how_a_character_is_explained(c: char)
    ensures
        ({
            let text = escaped_char(c);
            let n = c as u32;
            let plain = 0x20 <= n <= 0x7e && n != 0x22 && n != 0x27 && n != 0x5c;
            &&& plain ==> text.len() == 1 && text[0] == n
            &&& !plain ==> text.len() >= 2 && text[0] == 0x5c
            &&& n == 0x22 || n == 0x27 || n == 0x5c ==> text.len() == 2 && text[1] == n
            &&& n == 0x09 ==> text == seq![0x5cu8, 0x74]
            &&& n == 0x0a ==> text == seq![0x5cu8, 0x6e]
            &&& n == 0x0d ==> text == seq![0x5cu8, 0x72]
            &&& (n < 0x20 && n != 0x09 && n != 0x0a && n != 0x0d) || n > 0x7e ==> {
                &&& text.len() > 4
                &&& text[1] == 0x75 && text[2] == 0x7b && text.last() == 0x7d
                &&& hex_value(text.subrange(3, text.len() - 1)) == n
            }
        }),
{
    let text = escaped_char(c);
    let n = c as u32;
    if (n < 0x20 && n != 0x09 && n != 0x0a && n != 0x0d) || n > 0x7e {
        law_hexadecimal_reads_back(n as nat);
        assert(text.subrange(3, text.len() - 1) =~= hexadecimal(n as nat));
    }
}

/// What stands before the first brace is fixed by the whole, and so is what stands behind
/// it.
proof fn lemma_divided_at_brace(x: nat, r: Seq<u8>, y: nat, s: Seq<u8>)
    requires
        hexadecimal(x) + seq![0x7du8] + r == hexadecimal(y) + seq![0x7du8] + s,
    ensures
        x == y,
        r == s,
{
    law_hexadecimal_reads_back(x);
    law_hexadecimal_reads_back(y);
    let p = hexadecimal(x);
    let q = hexadecimal(y);
    let a = p + seq![0x7du8] + r;
    let b = q + seq![0x7du8] + s;
    assert(a[p.len() as int] == 0x7d);
    assert(b[q.len() as int] == 0x7d);
    if p.len() < q.len() {
        assert(b[p.len() as int] == q[p.len() as int]);
    }
    if q.len() < p.len() {
        assert(a[q.len() as int] == p[q.len() as int]);
    }
    assert(p =~= a.take(p.len() as int));
    assert(q =~= b.take(q.len() as int));
    assert(r =~= a.skip(p.len() as int + 1));
    assert(s =~= b.skip(q.len() as int + 1));
}

/// An explained character is fixed by what it starts.
proof fn lemma_one_reading(c: char, r: Seq<u8>, d: char, s: Seq<u8>)
    requires
        escaped_char(c) + r == escaped_char(d) + s,
    ensures
        c == d,
        r == s,
{
    let a = escaped_char(c) + r;
    let b = escaped_char(d) + s;
    let x = c as u32;
    let y = d as u32;
    law_how_a_character_is_explained(c);
    law_how_a_character_is_explained(d);
    assert(a[0] == escaped_char(c)[0]);
    assert(b[0] == escaped_char(d)[0]);
    if escaped_char(c).len() > 1 {
        assert(a[1] == escaped_char(c)[1]);
    }
    if escaped_char(d).len() > 1 {
        assert(b[1] == escaped_char(d)[1]);
    }
    let by_number = (x < 0x20 && x != 0x09 && x != 0x0a && x != 0x0d) || x > 0x7e;
    if by_number {
        assert(a[1] == 0x75);
        assert((y < 0x20 && y != 0x09 && y != 0x0a && y != 0x0d) || y > 0x7e);
        assert(a.skip(3) =~= hexadecimal(x as nat) + seq![0x7du8] + r);
        assert(b.skip(3) =~= hexadecimal(y as nat) + seq![0x7du8] + s);
        lemma_divided_at_brace(x as nat, r, y as nat, s);
    } else {
        assert(x == y);
    }
    char_u32_cast(c, x);
    char_u32_cast(d, x);
    assert(c == d);
    let n = escaped_char(c).len() as int;
    assert(r =~= a.skip(n));
    assert(s =~= b.skip(n));
}

/// The first character is explained first.
proof fn lemma_escaped_first(c: char, rest: Seq<char>)
    ensures
        escaped(seq![c] + rest) == escaped_char(c) + escaped(rest),
    decreases rest.len(),
{
    let all = seq![c] + rest;
    if rest.len() == 0 {
        assert(all.drop_last() =~= Seq::<char>::empty());
        assert(escaped(all.drop_last()) =~= Seq::<u8>::empty());
        assert(escaped(all) =~= escaped_char(c) + escaped(rest));
    } else {
        assert(all.drop_last() =~= seq![c] + rest.drop_last());
        lemma_escaped_first(c, rest.drop_last());
        assert(escaped(all) =~= escaped_char(c) + escaped(rest));
    }
}

/// An explained text reads back: two texts that are explained alike are the same.
pub proof fn law_explained_texts_are_told_apart(a: Seq<char>, b: Seq<char>)
    requires
        escaped(a) == escaped(b),
    ensures
        a == b,
    decreases a.len(),
{
    if a.len() > 0 {
        assert(a =~= seq![a[0]] + a.skip(1));
        lemma_escaped_first(a[0], a.skip(1));
        law_how_a_character_is_explained(a[0]);
        assert(escaped_char(a[0]).len() > 0);
        assert(escaped(a).len() > 0);
    }
    if b.len() > 0 {
        assert(b =~= seq![b[0]] + b.skip(1));
        lemma_escaped_first(b[0], b.skip(1));
        law_how_a_character_is_explained(b[0]);
        assert(escaped_char(b[0]).len() > 0);
        assert(escaped(b).len() > 0);
    }
    if a.len() > 0 && b.len() > 0 {
        lemma_one_reading(a[0], escaped(a.skip(1)), b[0], escaped(b.skip(1)));
        law_explained_texts_are_told_apart(a.skip(1), b.skip(1));
    } else {
        assert(a =~= b);
    }
}

} // verus!

//! Explaining output: what it makes a terminal do.

use crate::play::{
    escaped, explanation, law_explanation_keeps_everything, line_actions, line_prints, line_views,
    other_actions, printed, summarize, Summarized, SummaryLine, TerminalAction,
};
use termwiz::escape::parser::Parser;
use vstd::prelude::*;
use vstd::utf8::{
    decode_utf8, encode_utf8, encode_utf8_decode_utf8, encode_utf8_valid_utf8, valid_utf8,
};

verus! {

/// The escape sequence parser of termwiz.
#[verifier::external_type_specification]
#[verifier::external_body]
pub struct ExParser(termwiz::escape::parser::Parser);

/// The actions that the parser of termwiz recognises.
#[verifier::external_type_specification]
#[verifier::external_body]
pub struct ExAction(termwiz::escape::Action);

/// The pieces of output that a parser has taken in so far.
pub uninterp spec fn pieces_fed(parser: Parser) -> Seq<Seq<u8>>;

/// The actions that a parser has handed out so far, in order.
pub uninterp spec fn handed_out(parser: Parser) -> Seq<TerminalAction<termwiz::escape::Action>>;

/// What `Parser::parse` recognises in a piece of output behind others: for each action
/// in order the character that it prints, or `None` if it is another action.
pub uninterp spec fn parsed(before: Seq<Seq<u8>>, piece: Seq<u8>) -> Seq<Option<char>>;

/// The characters that the actions print, with `None` for other actions.
pub open spec fn prints<A>(actions: Seq<TerminalAction<A>>) -> Seq<Option<char>> {
    actions.map_values(
        |action: TerminalAction<A>|
            match action {
                TerminalAction::Print(c) => Some(c),
                TerminalAction::Other(_) => None,
            },
    )
}

/// Calls `termwiz::escape::parser::Parser::new`. The contract says that the parser has
/// taken nothing in and handed nothing out.
#[verifier::external_body]
fn new_parser() -> (parser: Parser)
    ensures
        pieces_fed(parser) == Seq::<Seq<u8>>::empty(),
        handed_out(parser) == Seq::<TerminalAction<termwiz::escape::Action>>::empty(),
{
    Parser::new()
}

/// Calls `termwiz::escape::parser::Parser::parse_as_vec`, which returns what `parse`
/// hands out. The contract says that the parser has then taken in one more piece, that
/// the actions returned are those that it has handed out since, in order, and that which
/// of them print which characters depends on the pieces alone. What the other actions
/// hold is not said to depend on the pieces alone: some hold hash maps.
#[verifier::external_body]
fn parse_piece(parser: &mut Parser, piece: &[u8]) -> (actions: Vec<TerminalAction<termwiz::escape::Action>>)
    ensures
        pieces_fed(*final(parser)) == pieces_fed(*old(parser)).push(piece@),
        handed_out(*final(parser)) == handed_out(*old(parser)) + actions@,
        prints(actions@) == parsed(pieces_fed(*old(parser)), piece@),
{
    let actions = parser.parse_as_vec(piece).into_iter();
    actions
        .map(|action| match action {
            termwiz::escape::Action::Print(c) => TerminalAction::Print(c),
            other => TerminalAction::Other(other),
        })
        .collect()
}

/// Takes in output piece by piece and tells what it makes a terminal do.
pub struct OutputParser {
    parser: Parser,
}

impl OutputParser {
    /// The pieces of output that were taken in.
    pub closed spec fn fed(self) -> Seq<Seq<u8>> {
        pieces_fed(self.parser)
    }

    /// The actions that were recognised, in order.
    pub closed spec fn recognised(self) -> Seq<TerminalAction<termwiz::escape::Action>> {
        handed_out(self.parser)
    }

    /// A parser that has taken nothing in.
    pub fn new() -> (parser: Self)
        ensures
            parser.fed() == Seq::<Seq<u8>>::empty(),
            parser.recognised() == Seq::<TerminalAction<termwiz::escape::Action>>::empty(),
    {
        OutputParser { parser: new_parser() }
    }

    /// Takes in a piece of output, and returns the actions that are recognised in it, in
    /// order.
    pub fn parse(&mut self, piece: &[u8]) -> (actions: Vec<TerminalAction<termwiz::escape::Action>>)
        ensures
            final(self).fed() == old(self).fed().push(piece@),
            final(self).recognised() == old(self).recognised() + actions@,
            prints(actions@) == parsed(old(self).fed(), piece@),
    {
        parse_piece(&mut self.parser, piece)
    }
}

/// The UTF-8 encodings of texts.
pub open spec fn encodings(texts: Seq<String>) -> Seq<Seq<u8>> {
    texts.map_values(|text: String| encode_utf8(text@))
}

/// What is recognised in the pieces, taken in one after the other.
pub open spec fn all_parsed(pieces: Seq<Seq<u8>>) -> Seq<Option<char>>
    decreases pieces.len(),
{
    if pieces.len() == 0 {
        Seq::empty()
    } else {
        all_parsed(pieces.drop_last()) + parsed(pieces.drop_last(), pieces.last())
    }
}

/// Whether the lines explain the pieces, as a parser that has taken them in recognises
/// them.
pub open spec fn explains(
    lines: Seq<SummaryLine<termwiz::escape::Action>>,
    pieces: Seq<Seq<u8>>,
) -> bool {
    exists|parser: OutputParser|
        {
            &&& #[trigger] parser.fed() == pieces
            &&& prints(parser.recognised()) == all_parsed(pieces)
            &&& lines == explanation(parser.recognised())
        }
}

/// Explains the output that was sent piece by piece: the actions that a parser recognises
/// in it, in order, with the printed characters put together into lines.
pub fn explain(sent: &Vec<String>) -> (lines: Vec<Summarized<termwiz::escape::Action>>)
    ensures
        exists|parser: OutputParser|
            {
                &&& #[trigger] parser.fed() == encodings(sent@)
                &&& prints(parser.recognised()) == all_parsed(encodings(sent@))
                &&& line_views(lines@) == explanation(parser.recognised())
            },
        explains(line_views(lines@), encodings(sent@)),
{
    let ghost pieces = encodings(sent@);
    let mut parser = OutputParser::new();
    let mut actions: Vec<TerminalAction<termwiz::escape::Action>> = Vec::new();
    let mut i: usize = 0;
    assert(pieces.take(0) =~= Seq::<Seq<u8>>::empty());
    assert(prints(actions@) =~= all_parsed(pieces.take(0)));
    assert(parser.recognised() =~= actions@);
    while i < sent.len()
        invariant
            i <= sent@.len(),
            pieces == encodings(sent@),
            parser.fed() == pieces.take(i as int),
            parser.recognised() == actions@,
            prints(actions@) == all_parsed(pieces.take(i as int)),
        decreases sent@.len() - i,
    {
        let ghost before = actions@;
        let mut more = parser.parse(sent[i].as_str().as_bytes());
        let ghost added = more@;
        actions.append(&mut more);
        proof {
            assert(pieces.take(i + 1).drop_last() =~= pieces.take(i as int));
            assert(pieces.take(i + 1) =~= pieces.take(i as int).push(pieces[i as int]));
            assert(prints(actions@) =~= prints(before) + prints(added));
            assert(parser.recognised() =~= actions@);
        }
        i = i + 1;
    }
    assert(pieces.take(pieces.len() as int) =~= pieces);
    assert(parser.fed() == encodings(sent@));
    let lines = summarize(actions);
    assert(line_views(lines@) == explanation(parser.recognised()));
    lines
}

/// Each text is taken in whole and as it is, in UTF-8, in its order.
pub proof fn law_texts_are_taken_in_as_they_are(texts: Seq<String>)
    ensures
        encodings(texts).len() == texts.len(),
        forall|i: int|
            0 <= i < texts.len() ==> valid_utf8(#[trigger] encodings(texts)[i]) && decode_utf8(
                encodings(texts)[i],
            ) == texts[i]@,
{
    assert forall|i: int| 0 <= i < texts.len() implies valid_utf8(#[trigger] encodings(texts)[i])
        && decode_utf8(encodings(texts)[i]) == texts[i]@ by {
        encode_utf8_valid_utf8(texts[i]@);
        encode_utf8_decode_utf8(texts[i]@);
    }
}

/// What is recognised in pieces is what is recognised in each of them behind those before
/// it, in order.
pub proof fn law_pieces_are_recognised_in_order(pieces: Seq<Seq<u8>>, piece: Seq<u8>)
    ensures
        all_parsed(Seq::empty()) == Seq::<Option<char>>::empty(),
        all_parsed(pieces.push(piece)) == all_parsed(pieces) + parsed(pieces, piece),
{
    assert(pieces.push(piece).drop_last() =~= pieces);
}

/// The characters that actions print, one for each action, are what the actions print.
pub proof fn law_prints_are_those_of_the_actions<A>(actions: Seq<TerminalAction<A>>, i: int)
    requires
        0 <= i < actions.len(),
    ensures
        prints(actions).len() == actions.len(),
        actions[i] matches TerminalAction::Print(c) ==> prints(actions)[i] == Some(c),
        actions[i] is Other ==> prints(actions)[i] is None,
{
}

/// The characters among these, in order.
pub open spec fn characters(prints: Seq<Option<char>>) -> Seq<char>
    decreases prints.len(),
{
    if prints.len() == 0 {
        Seq::empty()
    } else {
        match prints.last() {
            Some(c) => characters(prints.drop_last()).push(c),
            None => characters(prints.drop_last()),
        }
    }
}

proof fn lemma_characters<A>(actions: Seq<TerminalAction<A>>)
    ensures
        printed(actions) == characters(prints(actions)),
        other_actions(actions).len() + printed(actions).len() == actions.len(),
    decreases actions.len(),
{
    if actions.len() > 0 {
        lemma_characters(actions.drop_last());
        assert(prints(actions).drop_last() =~= prints(actions.drop_last()));
        assert(prints(actions).last() == prints(actions)[actions.len() - 1]);
    }
}

/// An explanation prints exactly the characters that are recognised in the whole of what
/// was sent, in order, and has a line for each other action that is recognised in it.
pub proof fn law_explanation_is_of_all_that_was_sent(
    lines: Seq<SummaryLine<termwiz::escape::Action>>,
    sent: Seq<Seq<u8>>,
)
    requires
        explains(lines, sent),
    ensures
        line_prints(lines) == escaped(characters(all_parsed(sent))),
        line_actions(lines).len() + characters(all_parsed(sent)).len() == all_parsed(sent).len(),
{
    let parser = choose|parser: OutputParser|
        {
            &&& #[trigger] parser.fed() == sent
            &&& prints(parser.recognised()) == all_parsed(sent)
            &&& lines == explanation(parser.recognised())
        };
    law_explanation_keeps_everything(parser.recognised());
    lemma_characters(parser.recognised());
}

} // verus!

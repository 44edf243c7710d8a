//! What holds of the tracker for every stream of output.

use crate::bytes::{
    concatenated, is_subsequence, lemma_subsequence_is_no_longer, lemma_subsequence_of_itself,
    lemma_subsequences_join,
};
use crate::dec_modes::{
    all_modes, fields, joined, law_fields_rejoin, lemma_other_modes_are_left, other_modes, owned_modes,
};
use crate::grammar::{
    continues, csi_stop, encoded_len, introduces_c1_string, introduces_string, is_final_byte,
    lemma_csi_stop_bounds, lemma_lex_bounds, lemma_string_end_bounds, lex, string_end,
    terminator_len, Lexeme, BACKSLASH, BELL, C1_LEAD, COMMAND_BRACKET, CSI, ESC, OSC, PRIVATE_MARK,
    RESET_MODES, SEQUENCE_BRACKET, SET_MODES, ST,
};
use crate::modes::{law_tracking_follows_mouse_modes, InnerInputState};
use crate::tracker::{
    lemma_behind, lemma_run_sequence, lemma_run_text, opened, perform, reply, run, Effect, Filtered, PassthroughControlString, MAX_TRACKED_CHILD_OUTPUT_BYTES,
};
use vstd::prelude::*;

verus! {

/// The end of a control string stays where it is when more output follows.
proof fn lemma_string_end_stable(a: Seq<u8>, b: Seq<u8>, i: int, bell: bool)
    requires
        0 <= i,
        string_end(a, i, bell) is Some,
    ensures
        string_end(a + b, i, bell) == string_end(a, i, bell),
    decreases a.len() - i,
{
    let s = a + b;
    if terminator_len(a, i, bell) == 0 {
        lemma_string_end_stable(a, b, i + 1, bell);
        lemma_string_end_bounds(a, i + 1, bell);
        assert(s[i] == a[i]);
        if i + 1 < a.len() {
            assert(s[i + 1] == a[i + 1]);
        } else {
            assert(string_end(a, i + 1, bell) is None);
        }
    } else {
        assert(s[i] == a[i]);
        if i + 1 < a.len() {
            assert(s[i + 1] == a[i + 1]);
        }
    }
}

/// The end of a control sequence stays where it is when more output follows.
proof fn lemma_csi_stop_stable(a: Seq<u8>, b: Seq<u8>, i: int)
    requires
        0 <= i,
        csi_stop(a, i) < a.len(),
    ensures
        csi_stop(a + b, i) == csi_stop(a, i),
    decreases a.len() - i,
{
    assert((a + b)[i] == a[i]);
    if !(is_final_byte(a[i]) || a[i] == ESC) {
        lemma_csi_stop_stable(a, b, i + 1);
    }
}

/// A lexeme that is whole stays what it is when more output follows.
proof fn lemma_lex_stable(a: Seq<u8>, b: Seq<u8>)
    requires
        a.len() > 0,
        lex(a) is Text || lex(a) is Sequence,
    ensures
        lex(a + b) == lex(a),
{
    reveal(lex);
    let s = a + b;
    assert(s[0] == a[0]);
    if a.len() >= 2 {
        assert(s[1] == a[1]);
    }
    lemma_csi_stop_bounds(a, 2);
    if csi_stop(a, 2) < a.len() {
        lemma_csi_stop_stable(a, b, 2);
        assert(s[csi_stop(a, 2)] == a[csi_stop(a, 2)]);
    }
    if string_end(a, 1, a[0] == OSC) is Some {
        lemma_string_end_stable(a, b, 1, a[0] == OSC);
    }
    if string_end(a, 2, a[1] == OSC) is Some {
        lemma_string_end_stable(a, b, 2, a[1] == OSC);
    }
    if string_end(a, 2, a[1] == COMMAND_BRACKET) is Some {
        lemma_string_end_stable(a, b, 2, a[1] == COMMAND_BRACKET);
    }
    if encoded_len(a[0]) > 1 {
        if continues(a) {
            if a.len() >= encoded_len(a[0]) {
                assert forall|k: int| 1 <= k < s.len() && k < encoded_len(s[0]) implies 0x80
                    <= #[trigger] s[k] <= 0xbf by {
                    assert(s[k] == a[k]);
                }
            }
        } else {
            let k = choose|k: int|
                1 <= k < a.len() && k < encoded_len(a[0]) && !(0x80 <= #[trigger] a[k] <= 0xbf);
            assert(s[k] == a[k]);
        }
    }
}

/// What of the stream `s`, which starts inside the given control string where there
/// is one, is an unfinished sequence, string or character at its end.
pub open spec fn unfinished(string: Option<PassthroughControlString>, s: Seq<u8>) -> Seq<u8>
    decreases s.len(),
{
    proof {
        if s.len() > 0 {
            lemma_lex_bounds(s);
        }
    }
    if s.len() == 0 {
        s
    } else if let Some(open) = string {
        unfinished(open.next(s[0]), s.skip(1))
    } else {
        match lex(s) {
            Lexeme::Text { len } => unfinished(None, s.skip(len)),
            Lexeme::Sequence { intro, last } => unfinished(None, s.skip(last + 1)),
            Lexeme::Held => s,
            Lexeme::Partial => s,
        }
    }
}

/// How long the introducer of the control string is that `s` begins with.
spec fn intro_len(s: Seq<u8>) -> int {
    if s[0] == ESC || s[0] == C1_LEAD {
        2
    } else {
        1
    }
}

/// A control string goes on exactly as long as the next byte does not end it.
proof fn lemma_string_grows(s: Seq<u8>, i: int, bell: bool, byte: u8)
    requires
        0 <= i < s.len(),
        string_end(s, i, bell) is None,
    ensures
        ({
            let ends = byte == ST || (bell && byte == BELL) || (s.last() == ESC && byte == BACKSLASH);
            string_end(s.push(byte), i, bell) == if ends {
                Some(s.len() as int + 1)
            } else {
                None
            }
        }),
    decreases s.len() - i,
{
    let t = s.push(byte);
    assert(t[i] == s[i]);
    assert(terminator_len(s, i, bell) == 0);
    if i + 1 < s.len() {
        assert(t[i + 1] == s[i + 1]);
        lemma_string_grows(s, i + 1, bell, byte);
    } else {
        assert(t[i + 1] == byte);
        reveal_with_fuel(string_end, 3);
    }
}

/// A long control string comes out the same whether it was passed through when it
/// outgrew the limit or seen whole.
#[verifier::rlimit(60)]
#[verifier::spinoff_prover]
proof fn lemma_long_string(modes: InnerInputState, s: Seq<u8>, b: Seq<u8>)
    requires
        s.len() > MAX_TRACKED_CHILD_OUTPUT_BYTES,
        lex(s) is Held,
        opened(s) is Some,
    ensures
        run(modes, None, s + b) == run(modes, opened(s), b).behind(s, Seq::empty()),
    decreases b.len(),
{
    reveal(lex);
    let none = Seq::<u8>::empty();
    if b.len() == 0 {
        assert(s + b =~= s);
        assert(run(modes, None, s + b) =~= run(modes, opened(s), b).behind(s, none));
    } else {
        let open = opened(s).unwrap();
        let byte = b[0];
        let rest = b.skip(1);
        let t = s.push(byte);
        let intro = intro_len(s);
        let bell = open.terminates_on_bel;
        assert(t + rest =~= s + b);
        assert(t[0] == s[0] && t[1] == s[1]);
        assert(string_end(s, intro, bell) is None);
        lemma_string_grows(s, intro, bell, byte);
        assert(b.take(1) =~= seq![byte]);
        assert(s + b.take(1) =~= t);
        if open.ends_with(byte) {
            assert(lex(t) == (Lexeme::Text { len: t.len() as int }));
            lemma_lex_stable(t, rest);
            assert((t + rest).take(t.len() as int) =~= t);
            assert((t + rest).skip(t.len() as int) =~= rest);
            assert(run(modes, None, s + b) =~= run(modes, opened(s), b).behind(s, none));
        } else {
            assert(lex(t) is Held);
            assert(opened(t) == open.next(byte));
            lemma_long_string(modes, t, rest);
            assert(run(modes, None, s + b) =~= run(modes, opened(s), b).behind(s, none));
        }
    }
}

/// `law_pieces_do_not_matter` where the first piece starts with text.
#[verifier::rlimit(60)]
proof fn lemma_pieces_text(modes: InnerInputState, a: Seq<u8>, b: Seq<u8>)
    requires
        a.len() > 0,
        lex(a) is Text,
        unfinished(None, a).len() <= MAX_TRACKED_CHILD_OUTPUT_BYTES || opened(
            unfinished(None, a),
        ) is Some,
    ensures
        ({
            let first = run(modes, None, a);
            let second = run(first.modes, first.string, first.pending + b);
            run(modes, None, a + b) == second.behind(first.output, first.replies)
        }),
    decreases a.len(), 0int,
{
    let s = a + b;
    let first = run(modes, None, a);
    let second = run(first.modes, first.string, first.pending + b);
    let len = lex(a)->len;
    lemma_lex_bounds(a);
    lemma_lex_stable(a, b);
    lemma_run_text(modes, a, len);
    lemma_run_text(modes, s, len);
    let rest = run(modes, None, a.skip(len));
    assert(s.skip(len) =~= a.skip(len) + b);
    assert(s.take(len) =~= a.take(len));
    assert(unfinished(None, a) == unfinished(None, a.skip(len)));
    law_pieces_do_not_matter(modes, None, a.skip(len), b);
    lemma_behind(second, a.take(len), Seq::empty(), rest.output, rest.replies);
}

/// `law_pieces_do_not_matter` where the first piece starts with something
/// unfinished.
proof fn lemma_pieces_unfinished(modes: InnerInputState, a: Seq<u8>, b: Seq<u8>)
    requires
        a.len() > 0,
        lex(a) is Held || lex(a) is Partial,
        a.len() <= MAX_TRACKED_CHILD_OUTPUT_BYTES || opened(a) is Some,
    ensures
        ({
            let first = run(modes, None, a);
            let second = run(first.modes, first.string, first.pending + b);
            run(modes, None, a + b) == second.behind(first.output, first.replies)
        }),
{
    let none = Seq::<u8>::empty();
    let first = run(modes, None, a);
    let second = run(first.modes, first.string, first.pending + b);
    if lex(a) is Held && a.len() > MAX_TRACKED_CHILD_OUTPUT_BYTES {
        lemma_long_string(modes, a, b);
        assert(none + b =~= b);
    } else {
        assert(first.pending == a && first.string is None && first.modes == modes);
        assert(second == run(modes, None, a + b));
        assert(second =~= second.behind(none, none));
    }
}

/// It does not matter how the output of the program is cut into pieces: taking in
/// `a` and then `b`, together with what `a` has left to be held back, comes to the
/// same as taking in both at once. The exception is a piece `a` that ends in an
/// unfinished control sequence beyond the limit, which is then no longer
/// recognised.
#[verifier::rlimit(60)]
pub proof fn law_pieces_do_not_matter(
    modes: InnerInputState,
    string: Option<PassthroughControlString>,
    a: Seq<u8>,
    b: Seq<u8>,
)
    requires
        unfinished(string, a).len() <= MAX_TRACKED_CHILD_OUTPUT_BYTES || opened(
            unfinished(string, a),
        ) is Some,
    ensures
        ({
            let first = run(modes, string, a);
            let second = run(first.modes, first.string, first.pending + b);
            run(modes, string, a + b) == second.behind(first.output, first.replies)
        }),
    decreases a.len(), 1int,
{
    let none = Seq::<u8>::empty();
    let s = a + b;
    let first = run(modes, string, a);
    let second = run(first.modes, first.string, first.pending + b);
    if a.len() == 0 {
        assert(s =~= b);
        assert(first.pending + b =~= b);
        assert(run(modes, string, s) =~= second.behind(first.output, first.replies));
    } else if let Some(open) = string {
        let rest = run(modes, open.next(a[0]), a.skip(1));
        assert(s[0] == a[0]);
        assert(s.skip(1) =~= a.skip(1) + b);
        assert(s.take(1) =~= a.take(1));
        law_pieces_do_not_matter(modes, open.next(a[0]), a.skip(1), b);
        lemma_behind(second, a.take(1), none, rest.output, rest.replies);
    } else if lex(a) is Text {
        lemma_pieces_text(modes, a, b);
    } else if lex(a) is Sequence {
        lemma_pieces_sequence(modes, a, b);
    } else {
        lemma_pieces_unfinished(modes, a, b);
    }
}

/// `law_pieces_do_not_matter` where the first piece starts with a whole control
/// sequence.
#[verifier::rlimit(60)]
proof fn lemma_pieces_sequence(modes: InnerInputState, a: Seq<u8>, b: Seq<u8>)
    requires
        a.len() > 0,
        lex(a) is Sequence,
        unfinished(None, a).len() <= MAX_TRACKED_CHILD_OUTPUT_BYTES || opened(
            unfinished(None, a),
        ) is Some,
    ensures
        ({
            let first = run(modes, None, a);
            let second = run(first.modes, first.string, first.pending + b);
            run(modes, None, a + b) == second.behind(first.output, first.replies)
        }),
    decreases a.len(), 0int,
{
    let s = a + b;
    let first = run(modes, None, a);
    let second = run(first.modes, first.string, first.pending + b);
    let intro = lex(a)->intro;
    let last = lex(a)->last;
    lemma_lex_bounds(a);
    lemma_lex_stable(a, b);
    lemma_run_sequence(modes, a, intro, last);
    lemma_run_sequence(modes, s, intro, last);
    let effect = perform(modes, a.take(last + 1), intro);
    let rest = run(effect.modes, None, a.skip(last + 1));
    assert(s.skip(last + 1) =~= a.skip(last + 1) + b);
    assert(s.take(last + 1) =~= a.take(last + 1));
    assert(unfinished(None, a) == unfinished(None, a.skip(last + 1)));
    law_pieces_do_not_matter(effect.modes, None, a.skip(last + 1), b);
    lemma_behind(second, effect.output, effect.replies, rest.output, rest.replies);
}

/// What comes of pieces of output that are taken in one after the other, each behind
/// what is held back of those before it.
pub open spec fn run_pieces(
    modes: InnerInputState,
    string: Option<PassthroughControlString>,
    pieces: Seq<Seq<u8>>,
) -> Filtered
    decreases pieces.len(),
{
    if pieces.len() == 0 {
        run(modes, string, Seq::empty())
    } else {
        let before = run_pieces(modes, string, pieces.drop_last());
        run(before.modes, before.string, before.pending + pieces.last()).behind(
            before.output,
            before.replies,
        )
    }
}

/// However the output of the program is cut, down to single bytes, the same comes of it
/// as at once, unless an unfinished control sequence outgrows the limit at the end of a
/// piece.
pub proof fn law_any_pieces_do_not_matter(
    modes: InnerInputState,
    string: Option<PassthroughControlString>,
    pieces: Seq<Seq<u8>>,
)
    requires
        forall|k: int|
            0 <= k < pieces.len() ==> {
                let left = unfinished(string, concatenated(#[trigger] pieces.take(k)));
                left.len() <= MAX_TRACKED_CHILD_OUTPUT_BYTES || opened(left) is Some
            },
    ensures
        run_pieces(modes, string, pieces) == run(modes, string, concatenated(pieces)),
    decreases pieces.len(),
{
    if pieces.len() > 0 {
        let init = pieces.drop_last();
        assert(init =~= pieces.take(pieces.len() - 1));
        assert forall|k: int| 0 <= k < init.len() implies {
            let left = unfinished(string, concatenated(#[trigger] init.take(k)));
            left.len() <= MAX_TRACKED_CHILD_OUTPUT_BYTES || opened(left) is Some
        } by {
            assert(init.take(k) =~= pieces.take(k));
        }
        law_any_pieces_do_not_matter(modes, string, init);
        law_pieces_do_not_matter(modes, string, concatenated(init), pieces.last());
    }
}

/// What is held back never exceeds the limit, and nothing is held back inside a
/// control string that is being passed through.
pub proof fn law_held_back_is_bounded(
    modes: InnerInputState,
    string: Option<PassthroughControlString>,
    s: Seq<u8>,
)
    ensures
        run(modes, string, s).pending.len() <= MAX_TRACKED_CHILD_OUTPUT_BYTES,
        run(modes, string, s).string is Some ==> run(modes, string, s).pending.len() == 0,
    decreases s.len(),
{
    if s.len() == 0 {
    } else if let Some(open) = string {
        law_held_back_is_bounded(modes, open.next(s[0]), s.skip(1));
    } else {
        lemma_lex_bounds(s);
        match lex(s) {
            Lexeme::Text { len } => {
                law_held_back_is_bounded(modes, None, s.skip(len));
            },
            Lexeme::Sequence { intro, last } => {
                let effect = perform(modes, s.take(last + 1), intro);
                law_held_back_is_bounded(effect.modes, None, s.skip(last + 1));
            },
            Lexeme::Held => {},
            Lexeme::Partial => {
                reveal(lex);
                assert(s.len() < encoded_len(s[0]) <= 4);
            },
        }
    }
}

/// What a control sequence passes on is left of it.
proof fn lemma_performed_is_left(modes: InnerInputState, s: Seq<u8>, intro: int)
    requires
        0 <= intro < s.len(),
    ensures
        is_subsequence(perform(modes, s, intro).output, s),
{
    lemma_subsequence_of_itself(s);
    let params = s.subrange(intro, s.len() - 1);
    if params.len() > 0 {
        let changes = fields(params.skip(1));
        let kept = joined(other_modes(changes));
        let head = s.take(intro + 1);
        let last = seq![s.last()];
        law_fields_rejoin(params.skip(1));
        lemma_other_modes_are_left(changes);
        lemma_subsequence_of_itself(head);
        lemma_subsequence_of_itself(last);
        lemma_subsequences_join(head, head, kept, params.skip(1));
        lemma_subsequences_join(head + kept, head + params.skip(1), last, last);
        assert(head + params.skip(1) + last =~= s);
    }
}

/// What is left of a stretch of output, behind what is left of the stretch before it.
proof fn lemma_left_behind(rest: Filtered, output: Seq<u8>, s: Seq<u8>, n: int)
    requires
        0 <= n <= s.len(),
        is_subsequence(output, s.take(n)),
        is_subsequence(rest.output + rest.pending, s.skip(n)),
    ensures
        is_subsequence((output + rest.output) + rest.pending, s),
{
    lemma_subsequences_join(output, s.take(n), rest.output + rest.pending, s.skip(n));
    assert(s.take(n) + s.skip(n) =~= s);
    assert(output + (rest.output + rest.pending) =~= (output + rest.output) + rest.pending);
}

/// Nothing is added and nothing changes places: what goes on to the outer terminal,
/// with what is held back behind it, is what is left of the output of the program when
/// some of its bytes are left out. So it is no longer either.
pub proof fn law_nothing_is_added(
    modes: InnerInputState,
    string: Option<PassthroughControlString>,
    s: Seq<u8>,
)
    ensures
        is_subsequence(run(modes, string, s).output + run(modes, string, s).pending, s),
        run(modes, string, s).output.len() + run(modes, string, s).pending.len() <= s.len(),
    decreases s.len(),
{
    let filtered = run(modes, string, s);
    if s.len() == 0 {
    } else if let Some(open) = string {
        law_nothing_is_added(modes, open.next(s[0]), s.skip(1));
        lemma_subsequence_of_itself(s.take(1));
        lemma_left_behind(run(modes, open.next(s[0]), s.skip(1)), s.take(1), s, 1);
    } else if lex(s) is Text {
        let len = lex(s)->len;
        lemma_run_text(modes, s, len);
        law_nothing_is_added(modes, None, s.skip(len));
        lemma_subsequence_of_itself(s.take(len));
        lemma_left_behind(run(modes, None, s.skip(len)), s.take(len), s, len);
    } else if lex(s) is Sequence {
        let intro = lex(s)->intro;
        let last = lex(s)->last;
        lemma_run_sequence(modes, s, intro, last);
        lemma_performed_is_left(modes, s.take(last + 1), intro);
        let effect = perform(modes, s.take(last + 1), intro);
        law_nothing_is_added(effect.modes, None, s.skip(last + 1));
        lemma_left_behind(
            run(effect.modes, None, s.skip(last + 1)),
            effect.output,
            s,
            last + 1,
        );
    } else {
        lemma_subsequence_of_itself(s);
        assert(filtered.output + filtered.pending =~= s);
    }
    lemma_subsequence_is_no_longer(filtered.output + filtered.pending, s);
}

/// The tracking mode always is the one that the three mouse modes call for, if it
/// was so at the start.
pub proof fn law_modes_stay_consistent(
    modes: InnerInputState,
    string: Option<PassthroughControlString>,
    s: Seq<u8>,
)
    requires
        modes.consistent(),
    ensures
        run(modes, string, s).modes.consistent(),
    decreases s.len(),
{
    if s.len() == 0 {
    } else if let Some(open) = string {
        law_modes_stay_consistent(modes, open.next(s[0]), s.skip(1));
    } else {
        lemma_lex_bounds(s);
        match lex(s) {
            Lexeme::Text { len } => {
                law_modes_stay_consistent(modes, None, s.skip(len));
            },
            Lexeme::Sequence { intro, last } => {
                let sequence = s.take(last + 1);
                let effect = perform(modes, sequence, intro);
                let changes = fields(sequence.subrange(intro, last).skip(1));
                law_tracking_follows_mouse_modes(
                    modes,
                    owned_modes(changes),
                    sequence.last() == SET_MODES,
                );
                assert(effect.modes.consistent());
                law_modes_stay_consistent(effect.modes, None, s.skip(last + 1));
            },
            _ => {},
        }
    }
}

/// Whether the control sequence `s`, whose introducer is `intro` bytes long, neither
/// changes an owned mode nor asks for something that the recorder answers.
pub open spec fn is_foreign(s: Seq<u8>, intro: int) -> bool {
    let params = s.subrange(intro, s.len() - 1);
    let changes = fields(params.skip(1));
    if params.len() > 0 && params[0] == PRIVATE_MARK && (s.last() == SET_MODES || s.last() == RESET_MODES) {
        !all_modes(changes) || owned_modes(changes).len() == 0
    } else {
        reply(params, s.last()) is None
    }
}

/// Whether every control sequence of the stream `s` is foreign.
pub open spec fn all_foreign(string: Option<PassthroughControlString>, s: Seq<u8>) -> bool
    decreases s.len(),
{
    proof {
        if s.len() > 0 {
            lemma_lex_bounds(s);
        }
    }
    if s.len() == 0 {
        true
    } else if let Some(open) = string {
        all_foreign(open.next(s[0]), s.skip(1))
    } else {
        match lex(s) {
            Lexeme::Text { len } => all_foreign(None, s.skip(len)),
            Lexeme::Sequence { intro, last } => is_foreign(s.take(last + 1), intro) && all_foreign(
                None,
                s.skip(last + 1),
            ),
            Lexeme::Held => true,
            Lexeme::Partial => true,
        }
    }
}

/// Output without a change of an owned mode and without a question to the terminal
/// goes through byte for byte: what went on and what is held back make it up. The
/// modes stay as they are and nothing is answered.
pub proof fn law_foreign_output_goes_through(
    modes: InnerInputState,
    string: Option<PassthroughControlString>,
    s: Seq<u8>,
)
    requires
        all_foreign(string, s),
    ensures
        run(modes, string, s).output + run(modes, string, s).pending == s,
        run(modes, string, s).modes == modes,
        run(modes, string, s).replies == Seq::<u8>::empty(),
    decreases s.len(),
{
    let filtered = run(modes, string, s);
    if s.len() == 0 {
        assert(filtered.output + filtered.pending =~= s);
    } else if let Some(open) = string {
        law_foreign_output_goes_through(modes, open.next(s[0]), s.skip(1));
        let rest = run(modes, open.next(s[0]), s.skip(1));
        lemma_goes_through(s, 1, rest);
    } else if lex(s) is Text {
        let len = lex(s)->len;
        lemma_run_text(modes, s, len);
        assert(all_foreign(None, s.skip(len)));
        law_foreign_output_goes_through(modes, None, s.skip(len));
        lemma_goes_through(s, len, run(modes, None, s.skip(len)));
    } else if lex(s) is Sequence {
        let intro = lex(s)->intro;
        let last = lex(s)->last;
        lemma_run_sequence(modes, s, intro, last);
        let sequence = s.take(last + 1);
        assert(is_foreign(sequence, intro) && all_foreign(None, s.skip(last + 1)));
        lemma_foreign_sequence(modes, sequence, intro);
        law_foreign_output_goes_through(modes, None, s.skip(last + 1));
        lemma_goes_through(s, last + 1, run(modes, None, s.skip(last + 1)));
    } else {
        assert(filtered.output + filtered.pending =~= s);
    }
}

/// A foreign control sequence goes through and does nothing else.
proof fn lemma_foreign_sequence(modes: InnerInputState, s: Seq<u8>, intro: int)
    requires
        is_foreign(s, intro),
    ensures
        perform(modes, s, intro) == (Effect { modes, output: s, replies: Seq::empty() }),
{
}

/// What goes through behind `n` bytes that went through makes up the whole with
/// them.
proof fn lemma_goes_through(s: Seq<u8>, n: int, rest: Filtered)
    requires
        0 <= n <= s.len(),
        rest.output + rest.pending == s.skip(n),
        rest.replies == Seq::<u8>::empty(),
    ensures
        ({
            let all = rest.behind(s.take(n), Seq::empty());
            &&& all.output + all.pending == s
            &&& all.replies == Seq::<u8>::empty()
        }),
{
    let all = rest.behind(s.take(n), Seq::empty());
    assert(all.output + all.pending =~= s.take(n) + (rest.output + rest.pending));
    assert(s =~= s.take(n) + s.skip(n));
    assert(all.replies =~= Seq::<u8>::empty());
}

/// Nothing comes of no output.
pub proof fn lemma_run_nothing(modes: InnerInputState, s: Seq<u8>)
    requires
        s.len() == 0,
    ensures
        run(modes, None, s) == (Filtered {
            modes,
            string: None,
            pending: Seq::empty(),
            output: Seq::empty(),
            replies: Seq::empty(),
        }),
{
}

/// What comes of a control sequence alone.
pub proof fn lemma_run_one_sequence(modes: InnerInputState, s: Seq<u8>)
    requires
        s.len() >= 3,
        s[0] == ESC && s[1] == SEQUENCE_BRACKET || s[0] == C1_LEAD && s[1] == CSI,
        csi_stop(s, 2) == s.len() - 1,
        s.last() != ESC,
    ensures
        ({
            let effect = perform(modes, s, 2);
            run(modes, None, s) == (Filtered {
                modes: effect.modes,
                string: None,
                pending: Seq::empty(),
                output: effect.output,
                replies: effect.replies,
            })
        }),
{
    reveal(lex);
    let last = s.len() - 1;
    assert(lex(s) == (Lexeme::Sequence { intro: 2, last }));
    lemma_run_sequence(modes, s, 2, last);
    assert(s.take(last + 1) =~= s);
    let effect = perform(modes, s, 2);
    lemma_run_nothing(effect.modes, s.skip(last + 1));
    assert(run(modes, None, s) =~= Filtered {
        modes: effect.modes,
        string: None,
        pending: Seq::empty(),
        output: effect.output,
        replies: effect.replies,
    });
}

/// ASCII text without an escape goes through at once.
pub proof fn law_plain_text_goes_through(modes: InnerInputState, s: Seq<u8>)
    requires
        forall|i: int| 0 <= i < s.len() ==> #[trigger] s[i] < 0x80 && s[i] != ESC,
    ensures
        run(modes, None, s) == (Filtered {
            modes,
            string: None,
            pending: Seq::empty(),
            output: s,
            replies: Seq::empty(),
        }),
    decreases s.len(),
{
    if s.len() > 0 {
        law_plain_text_goes_through(modes, s.skip(1));
        assert(s.take(1) + s.skip(1) =~= s);
        assert(lex(s) == (Lexeme::Text { len: 1 })) by {
            reveal(lex);
        }
        assert(run(modes, None, s) =~= Filtered {
            modes,
            string: None,
            pending: Seq::empty(),
            output: s,
            replies: Seq::empty(),
        });
    }
}

/// A control string with its end goes through whole, whatever it holds: nothing
/// in it sets a mode or is answered.
pub proof fn law_control_string_goes_through(modes: InnerInputState, s: Seq<u8>)
    requires
        s.len() >= 2,
        s[0] == ESC && introduces_string(s[1]) && string_end(s, 2, s[1] == COMMAND_BRACKET) == Some(
            s.len() as int,
        ) || s[0] == C1_LEAD && introduces_c1_string(s[1]) && string_end(s, 2, s[1] == OSC) == Some(
            s.len() as int,
        ) || introduces_c1_string(s[0]) && string_end(s, 1, s[0] == OSC) == Some(s.len() as int),
    ensures
        run(modes, None, s) == (Filtered {
            modes,
            string: None,
            pending: Seq::empty(),
            output: s,
            replies: Seq::empty(),
        }),
{
    reveal(lex);
    assert(lex(s) == (Lexeme::Text { len: s.len() as int }));
    lemma_run_text(modes, s, s.len() as int);
    lemma_run_nothing(modes, s.skip(s.len() as int));
    assert(s.take(s.len() as int) =~= s);
    assert(run(modes, None, s) =~= Filtered {
        modes,
        string: None,
        pending: Seq::empty(),
        output: s,
        replies: Seq::empty(),
    });
}

/// A whole control sequence that sets or resets nothing but owned modes never
/// reaches the outer terminal; one that also names others reaches it without the
/// owned ones. Either way the owned modes are changed in order.
pub proof fn law_owned_modes_are_kept_back(modes: InnerInputState, s: Seq<u8>)
    requires
        s.len() >= 4,
        s[0] == ESC && s[1] == SEQUENCE_BRACKET || s[0] == C1_LEAD && s[1] == CSI,
        csi_stop(s, 2) == s.len() - 1,
        s[2] == PRIVATE_MARK,
        s.last() == SET_MODES || s.last() == RESET_MODES,
        all_modes(fields(s.subrange(3, s.len() - 1))),
        owned_modes(fields(s.subrange(3, s.len() - 1))).len() > 0,
    ensures
        ({
            let changes = fields(s.subrange(3, s.len() - 1));
            let kept = other_modes(changes);
            run(modes, None, s) == (Filtered {
                modes: modes.with_modes(owned_modes(changes), s.last() == SET_MODES),
                string: None,
                pending: Seq::empty(),
                output: if kept.len() == 0 {
                    Seq::empty()
                } else {
                    s.take(3) + joined(kept) + seq![s.last()]
                },
                replies: Seq::empty(),
            })
        }),
{
    let last = s.len() - 1;
    lemma_run_one_sequence(modes, s);
    assert(s.subrange(2, last).skip(1) =~= s.subrange(3, last));
}

/// A question that the recorder answers never reaches the outer terminal, and it
/// changes no mode.
pub proof fn law_questions_are_answered_here(modes: InnerInputState, s: Seq<u8>)
    requires
        s.len() >= 3,
        s[0] == ESC && s[1] == SEQUENCE_BRACKET || s[0] == C1_LEAD && s[1] == CSI,
        csi_stop(s, 2) == s.len() - 1,
        s.last() != ESC,
        reply(s.subrange(2, s.len() - 1), s.last()) is Some,
    ensures
        run(modes, None, s) == (Filtered {
            modes,
            string: None,
            pending: Seq::empty(),
            output: Seq::empty(),
            replies: reply(s.subrange(2, s.len() - 1), s.last()).unwrap(),
        }),
{
    lemma_run_one_sequence(modes, s);
}

} // verus!

//! Watching the output of the recorded program for changes of input modes.

use crate::bytes::append_bytes;
use crate::dec_modes::{
    all_modes, append_joined, fields, joined, other_modes, owned_modes, split_dec_private_modes,
};
use crate::grammar::{
    introduces_c1_string, introduces_string, is_final_byte, lemma_lex_bounds, lex, Lexeme,
    ASK_ATTRIBUTES, ASK_STATUS, BACKSLASH, BELL, C1_LEAD, COMMAND_BRACKET, ESC, OSC, PRIVATE_MARK,
    RESET_MODES, SET_MODES, ST,
};
use crate::lexer::{next_token, starts_c1_control_string, starts_control_string, Token};
use crate::modes::InnerInputState;
use crate::utf8::is_utf8;
use vstd::prelude::*;
use vstd::slice::slice_subrange;
use vstd::utf8::valid_utf8;

verus! {

/// An escape sequence that has not ended is held back up to this many bytes.
pub const MAX_TRACKED_CHILD_OUTPUT_BYTES: usize = 65536;

/// A control string that was too long to be held back and whose end is still to
/// come.
#[derive(Debug, Clone, Copy, PartialEq, Eq, Structural)]
pub struct PassthroughControlString {
    /// Whether a bell ends the string.
    pub terminates_on_bel: bool,
    /// Whether the last byte was an escape.
    pub pending_esc: bool,
    /// Whether the last byte was the first one of a C1 control in UTF-8.
    pub pending_utf8_c2: bool,
}

impl PassthroughControlString {
    /// Whether the string ends with the given byte.
    pub open spec fn ends_with(self, byte: u8) -> bool {
        byte == ST || (self.terminates_on_bel && byte == BELL) || (self.pending_esc && byte == BACKSLASH)
    }

    /// The string once the given byte, which does not end it, is part of it.
    pub open spec fn extended(self, byte: u8) -> PassthroughControlString {
        PassthroughControlString {
            terminates_on_bel: self.terminates_on_bel,
            pending_esc: byte == ESC,
            pending_utf8_c2: byte == C1_LEAD,
        }
    }

    /// The string, or `None` if it has ended, behind the given byte.
    pub open spec fn next(self, byte: u8) -> Option<PassthroughControlString> {
        if self.ends_with(byte) {
            None
        } else {
            Some(self.extended(byte))
        }
    }
}

/// The control string that `s` is the beginning of, if it is one.
pub open spec fn opened(s: Seq<u8>) -> Option<PassthroughControlString> {
    let bell = if s.len() >= 2 && s[0] == ESC && introduces_string(s[1]) {
        Some(s[1] == COMMAND_BRACKET)
    } else if s.len() >= 2 && s[0] == C1_LEAD && introduces_c1_string(s[1]) {
        Some(s[1] == OSC)
    } else if s.len() >= 1 && introduces_c1_string(s[0]) {
        Some(s[0] == OSC)
    } else {
        None
    };
    match bell {
        Some(terminates_on_bel) => Some(
            PassthroughControlString {
                terminates_on_bel,
                pending_esc: s.last() == ESC,
                pending_utf8_c2: s.last() == C1_LEAD,
            },
        ),
        None => None,
    }
}

/// How many bytes of `s` belong to the control string, and what is left of it
/// behind them.
pub open spec fn pass(string: PassthroughControlString, s: Seq<u8>) -> (
    int,
    Option<PassthroughControlString>,
)
    decreases s.len(),
{
    if s.len() == 0 {
        (0, Some(string))
    } else {
        match string.next(s[0]) {
            None => (1, None),
            Some(next) => {
                let (n, rest) = pass(next, s.skip(1));
                (n + 1, rest)
            },
        }
    }
}

/// What the recorder itself answers to a control sequence that asks the terminal
/// for its attributes, its status or its cursor position. Parameters that are not
/// UTF-8 count as none.
pub open spec fn reply(params: Seq<u8>, last: u8) -> Option<Seq<u8>> {
    let text = if valid_utf8(params) {
        params
    } else {
        Seq::empty()
    };
    let zero = seq![0x30u8];
    let secondary = seq![0x3eu8];
    let secondary_zero = seq![0x3eu8, 0x30u8];
    if last == ASK_ATTRIBUTES && (text == Seq::<u8>::empty() || text == zero) {
        // ESC [ ? 1 ; 0 c
        Some(seq![0x1b, 0x5b, 0x3f, 0x31, 0x3b, 0x30, 0x63])
    } else if last == ASK_ATTRIBUTES && (text == secondary || text == secondary_zero) {
        // ESC [ > 0 ; 0 ; 0 c
        Some(seq![0x1b, 0x5b, 0x3e, 0x30, 0x3b, 0x30, 0x3b, 0x30, 0x63])
    } else if last == ASK_STATUS && text == seq![0x35u8] {
        // ESC [ 0 n
        Some(seq![0x1b, 0x5b, 0x30, 0x6e])
    } else if last == ASK_STATUS && text == seq![0x36u8] {
        // ESC [ 1 ; 1 R
        Some(seq![0x1b, 0x5b, 0x31, 0x3b, 0x31, 0x52])
    } else {
        None
    }
}

/// What a piece of output does: the modes behind it, what of it goes on to the
/// outer terminal, and what is sent back to the program.
pub struct Effect {
    pub modes: InnerInputState,
    pub output: Seq<u8>,
    pub replies: Seq<u8>,
}

/// What the control sequence `s` does, whose introducer is `intro` bytes long.
pub open spec fn perform(modes: InnerInputState, s: Seq<u8>, intro: int) -> Effect {
    let params = s.subrange(intro, s.len() - 1);
    let changes = fields(params.skip(1));
    if params.len() > 0 && params[0] == PRIVATE_MARK && (s.last() == SET_MODES || s.last() == RESET_MODES) {
        if all_modes(changes) && owned_modes(changes).len() > 0 {
            Effect {
                modes: modes.with_modes(owned_modes(changes), s.last() == SET_MODES),
                output: if other_modes(changes).len() > 0 {
                    s.take(intro + 1) + joined(other_modes(changes)) + seq![s.last()]
                } else {
                    Seq::empty()
                },
                replies: Seq::empty(),
            }
        } else {
            Effect { modes, output: s, replies: Seq::empty() }
        }
    } else {
        match reply(params, s.last()) {
            Some(replies) => Effect { modes, output: Seq::empty(), replies },
            None => Effect { modes, output: s, replies: Seq::empty() },
        }
    }
}

/// What comes of a stretch of output.
#[verifier::ext_equal]
pub struct Filtered {
    /// The input modes behind it.
    pub modes: InnerInputState,
    /// The control string that is being passed through behind it.
    pub string: Option<PassthroughControlString>,
    /// What is held back until more output comes.
    pub pending: Seq<u8>,
    /// What goes on to the outer terminal.
    pub output: Seq<u8>,
    /// What is sent back to the program.
    pub replies: Seq<u8>,
}

impl Filtered {
    /// The same, behind output and replies that came first.
    pub open spec fn behind(self, output: Seq<u8>, replies: Seq<u8>) -> Filtered {
        Filtered { output: output + self.output, replies: replies + self.replies, ..self }
    }
}

/// What comes of the output `s`, which starts in the given modes and, where there
/// is one, inside the given control string. Text and control strings go through
/// unchanged. Control sequences do what `perform` says. An unfinished sequence or
/// string is held back, unless it is too long: then it goes through.
pub open spec fn run(
    modes: InnerInputState,
    string: Option<PassthroughControlString>,
    s: Seq<u8>,
) -> Filtered
    decreases s.len(),
{
    proof {
        if s.len() > 0 {
            lemma_lex_bounds(s);
        }
    }
    let none = Seq::<u8>::empty();
    if s.len() == 0 {
        Filtered { modes, string, pending: none, output: none, replies: none }
    } else if let Some(open) = string {
        run(modes, open.next(s[0]), s.skip(1)).behind(s.take(1), none)
    } else {
        match lex(s) {
            Lexeme::Text { len } => run(modes, None, s.skip(len)).behind(s.take(len), none),
            Lexeme::Sequence { intro, last } => {
                let effect = perform(modes, s.take(last + 1), intro);
                run(effect.modes, None, s.skip(last + 1)).behind(effect.output, effect.replies)
            },
            Lexeme::Held => if s.len() > MAX_TRACKED_CHILD_OUTPUT_BYTES {
                Filtered { modes, string: opened(s), pending: none, output: s, replies: none }
            } else {
                Filtered { modes, string: None, pending: s, output: none, replies: none }
            },
            Lexeme::Partial => Filtered {
                modes,
                string: None,
                pending: s,
                output: none,
                replies: none,
            },
        }
    }
}

/// Text at the head of a stream goes through.
pub proof fn lemma_run_text(modes: InnerInputState, s: Seq<u8>, len: int)
    requires
        s.len() > 0,
        lex(s) == (Lexeme::Text { len }),
    ensures
        0 < len <= s.len(),
        run(modes, None, s) == run(modes, None, s.skip(len)).behind(s.take(len), Seq::empty()),
{
    lemma_lex_bounds(s);
}

/// A control sequence at the head of a stream is carried out.
pub proof fn lemma_run_sequence(modes: InnerInputState, s: Seq<u8>, intro: int, last: int)
    requires
        s.len() > 0,
        lex(s) == (Lexeme::Sequence { intro, last }),
    ensures
        intro == 2 <= last < s.len(),
        is_final_byte(s[last]),
        ({
            let effect = perform(modes, s.take(last + 1), intro);
            run(modes, None, s) == run(effect.modes, None, s.skip(last + 1)).behind(
                effect.output,
                effect.replies,
            )
        }),
{
    lemma_lex_bounds(s);
}

/// An unfinished sequence or string at the head of a stream is held back, or passed
/// through if it is too long.
pub proof fn lemma_run_held(modes: InnerInputState, s: Seq<u8>)
    requires
        s.len() > 0,
        lex(s) is Held,
    ensures
        run(modes, None, s) == if s.len() > MAX_TRACKED_CHILD_OUTPUT_BYTES {
            Filtered {
                modes,
                string: opened(s),
                pending: Seq::empty(),
                output: s,
                replies: Seq::empty(),
            }
        } else {
            Filtered {
                modes,
                string: None,
                pending: s,
                output: Seq::empty(),
                replies: Seq::empty(),
            }
        },
{
}

/// The first bytes of a character at the end of a stream are held back.
pub proof fn lemma_run_partial(modes: InnerInputState, s: Seq<u8>)
    requires
        s.len() > 0,
        lex(s) is Partial,
    ensures
        run(modes, None, s) == (Filtered {
            modes,
            string: None,
            pending: s,
            output: Seq::empty(),
            replies: Seq::empty(),
        }),
{
}

/// What comes of two stretches of output, the first of which is known, is what
/// comes of the second behind the first.
pub proof fn lemma_behind(
    f: Filtered,
    output: Seq<u8>,
    replies: Seq<u8>,
    more: Seq<u8>,
    also: Seq<u8>,
)
    ensures
        f.behind(more, also).behind(output, replies) == f.behind(output + more, replies + also),
{
    assert(f.behind(more, also).behind(output, replies) =~= f.behind(
        output + more,
        replies + also,
    ));
}

proof fn lemma_pass_bounds(string: PassthroughControlString, s: Seq<u8>)
    ensures
        0 <= pass(string, s).0 <= s.len(),
        s.len() > 0 ==> pass(string, s).0 > 0,
    decreases s.len(),
{
    if s.len() > 0 && !string.ends_with(s[0]) {
        lemma_pass_bounds(string.extended(s[0]), s.skip(1));
    }
}

/// Passing a control string through takes its bytes off the stream at once.
proof fn lemma_run_passes(modes: InnerInputState, string: PassthroughControlString, s: Seq<u8>)
    ensures
        ({
            let (n, rest) = pass(string, s);
            run(modes, Some(string), s) == run(modes, rest, s.skip(n)).behind(
                s.take(n),
                Seq::empty(),
            )
        }),
    decreases s.len(),
{
    lemma_pass_bounds(string, s);
    let none = Seq::<u8>::empty();
    let (n, rest) = pass(string, s);
    let tail = run(modes, rest, s.skip(n));
    if s.len() == 0 {
        assert(s.skip(n) =~= s);
        assert(tail =~= tail.behind(s.take(n), none));
    } else if !string.ends_with(s[0]) {
        let next = string.extended(s[0]);
        lemma_pass_bounds(next, s.skip(1));
        lemma_run_passes(modes, next, s.skip(1));
        assert(s.skip(1).skip(n - 1) =~= s.skip(n));
        assert(s.take(1) + s.skip(1).take(n - 1) =~= s.take(n));
        assert(none + none =~= none);
        lemma_behind(tail, s.take(1), none, s.skip(1).take(n - 1), none);
    }
}

/// What the recorder answers to the control sequence with the given parameters and
/// last byte.
pub fn response_for_terminal_query(params: &[u8], final_byte: u8) -> (r: Option<Vec<u8>>)
    ensures
        match r {
            Some(response) => reply(params@, final_byte) == Some(response@),
            None => reply(params@, final_byte) is None,
        },
{
    let valid = is_utf8(params);
    let len: usize = if valid {
        params.len()
    } else {
        0
    };
    let ghost text = params@.take(len as int);
    assert(text =~= if valid { params@ } else { Seq::<u8>::empty() });
    if final_byte == ASK_ATTRIBUTES {
        if len == 0 || (len == 1 && params[0] == 0x30) {
            assert(text =~= Seq::<u8>::empty() || text =~= seq![0x30u8]);
            return Some(vec![0x1b, 0x5b, 0x3f, 0x31, 0x3b, 0x30, 0x63]);
        }
        if params[0] == 0x3e && (len == 1 || (len == 2 && params[1] == 0x30)) {
            assert(text =~= seq![0x3eu8] || text =~= seq![0x3eu8, 0x30u8]);
            return Some(vec![0x1b, 0x5b, 0x3e, 0x30, 0x3b, 0x30, 0x3b, 0x30, 0x63]);
        }
    } else if final_byte == ASK_STATUS && len == 1 {
        if params[0] == 0x35 {
            assert(text =~= seq![0x35u8]);
            return Some(vec![0x1b, 0x5b, 0x30, 0x6e]);
        }
        if params[0] == 0x36 {
            assert(text =~= seq![0x36u8]);
            return Some(vec![0x1b, 0x5b, 0x31, 0x3b, 0x31, 0x52]);
        }
    }
    None
}

/// Watches the output of the recorded program. It takes the changes of input modes
/// that the recorder handles itself out of the output, and answers what the
/// program asks of its terminal.
#[derive(Debug)]
pub struct InputModeTracker {
    state: InnerInputState,
    pending: Vec<u8>,
    passthrough_control_string: Option<PassthroughControlString>,
}

impl InputModeTracker {
    /// The input modes of the recorded program.
    pub closed spec fn modes(self) -> InnerInputState {
        self.state
    }

    /// The output that is held back.
    pub closed spec fn held(self) -> Seq<u8> {
        self.pending@
    }

    /// The control string that is being passed through.
    pub closed spec fn string(self) -> Option<PassthroughControlString> {
        self.passthrough_control_string
    }

    /// What comes of more output.
    pub open spec fn filtered(self, bytes: Seq<u8>) -> Filtered {
        run(self.modes(), self.string(), self.held() + bytes)
    }

    /// A tracker that starts in the given modes.
    pub fn new(state: InnerInputState) -> (tracker: Self)
        ensures
            tracker.modes() == state,
            tracker.held() == Seq::<u8>::empty(),
            tracker.string() is None,
    {
        Self { state, pending: Vec::new(), passthrough_control_string: None }
    }

    /// The input modes of the recorded program.
    pub fn state(&self) -> (state: InnerInputState)
        ensures
            state == self.modes(),
    {
        self.state
    }

    /// Takes in more output, and returns what goes on to the outer terminal.
    pub fn filter(&mut self, bytes: &[u8]) -> (output: Vec<u8>)
        ensures
            ({
                let filtered = old(self).filtered(bytes@);
                &&& output@ == filtered.output
                &&& final(self).modes() == filtered.modes
                &&& final(self).string() == filtered.string
                &&& final(self).held() == filtered.pending
            }),
    {
        self.filter_and_get_responses(bytes).0
    }

    /// Takes in more output, and returns what goes on to the outer terminal and
    /// what is sent back to the program.
    pub fn filter_and_get_responses(&mut self, bytes: &[u8]) -> (r: (Vec<u8>, Vec<u8>))
        ensures
            ({
                let filtered = old(self).filtered(bytes@);
                &&& r.0@ == filtered.output
                &&& r.1@ == filtered.replies
                &&& final(self).modes() == filtered.modes
                &&& final(self).string() == filtered.string
                &&& final(self).held() == filtered.pending
            }),
    {
        let ghost total = self.filtered(bytes@);
        let mut data = self.drain_pending();
        append_bytes(&mut data, bytes);
        let mut output: Vec<u8> = Vec::new();
        let mut responses: Vec<u8> = Vec::new();

        let mut i: usize = 0;
        assert(data@.skip(0) =~= data@);
        assert(run(self.state, self.passthrough_control_string, data@.skip(0)).behind(
            output@,
            responses@,
        ) =~= total);
        while i < data.len()
            invariant
                i <= data@.len(),
                total == old(self).filtered(bytes@),
                self.pending@ == Seq::<u8>::empty(),
                run(self.state, self.passthrough_control_string, data@.skip(i as int)).behind(
                    output@,
                    responses@,
                ) == total,
            decreases data@.len() - i,
        {
            let rest = slice_subrange(data.as_slice(), i, data.len());
            assert(rest@ =~= data@.skip(i as int));
            match self.advance(rest, &mut output, &mut responses) {
                Some(n) => {
                    assert(data@.skip(i + n) =~= rest@.skip(n as int));
                    i = i + n;
                },
                None => {
                    return (output, responses);
                },
            }
        }
        proof {
            assert(data@.skip(i as int) =~= Seq::<u8>::empty());
            assert(responses@ =~= total.replies);
            assert(output@ =~= total.output);
        }
        (output, responses)
    }

    /// Deals with what stands at the head of the stream `rest`, and returns how many
    /// bytes that were, or `None` if it deals with all of `rest` because it is
    /// unfinished.
    fn advance(
        &mut self,
        rest: &[u8],
        output: &mut Vec<u8>,
        responses: &mut Vec<u8>,
    ) -> (r: Option<usize>)
        requires
            rest@.len() > 0,
            old(self).pending@ == Seq::<u8>::empty(),
        ensures
            ({
                let total = run(
                    old(self).state,
                    old(self).passthrough_control_string,
                    rest@,
                ).behind(old(output)@, old(responses)@);
                match r {
                    Some(n) => 0 < n <= rest@.len() && final(self).pending@ == Seq::<u8>::empty()
                        && run(
                        final(self).state,
                        final(self).passthrough_control_string,
                        rest@.skip(n as int),
                    ).behind(final(output)@, final(responses)@) == total,
                    None => total == (Filtered {
                        modes: final(self).state,
                        string: final(self).passthrough_control_string,
                        pending: final(self).pending@,
                        output: final(output)@,
                        replies: final(responses)@,
                    }),
                }
            }),
    {
        let ghost here = *self;
        let ghost done = output@;
        let ghost answered = responses@;
        if let Some(string) = self.passthrough_control_string {
            let n = self.passthrough_control_string(output, rest);
            proof {
                lemma_run_passes(here.state, string, rest@);
                lemma_pass_bounds(string, rest@);
                lemma_behind(
                    run(self.state, self.passthrough_control_string, rest@.skip(n as int)),
                    done,
                    answered,
                    rest@.take(n as int),
                    Seq::empty(),
                );
                assert(responses@ =~= answered + Seq::<u8>::empty());
            }
            return Some(n);
        }
        match next_token(rest) {
            Token::Text(len) => {
                proof {
                    lemma_run_text(self.state, rest@, len as int);
                }
                append_bytes(output, slice_subrange(rest, 0, len));
                proof {
                    lemma_behind(
                        run(self.state, None, rest@.skip(len as int)),
                        done,
                        answered,
                        rest@.take(len as int),
                        Seq::empty(),
                    );
                    assert(rest@.subrange(0, len as int) =~= rest@.take(len as int));
                    assert(responses@ =~= answered + Seq::<u8>::empty());
                }
                Some(len)
            },
            Token::Sequence { intro, last } => {
                proof {
                    lemma_run_sequence(self.state, rest@, intro as int, last as int);
                }
                assert(last < rest.len());
                let sequence = slice_subrange(rest, 0, last + 1);
                assert(sequence@ =~= rest@.take(last + 1));
                self.process_csi_sequence(sequence, intro, output, responses);
                proof {
                    let effect = perform(here.state, sequence@, intro as int);
                    lemma_behind(
                        run(effect.modes, None, rest@.skip(last + 1)),
                        done,
                        answered,
                        effect.output,
                        effect.replies,
                    );
                }
                Some(last + 1)
            },
            Token::Held => {
                self.buffer_pending_or_passthrough(output, rest);
                proof {
                    lemma_run_held(here.state, rest@);
                    let total = run(here.state, None, rest@).behind(done, answered);
                    assert(total.replies =~= responses@);
                    assert(total.output =~= output@);
                }
                None
            },
            Token::Partial => {
                append_bytes(&mut self.pending, rest);
                proof {
                    lemma_run_partial(here.state, rest@);
                    let total = run(here.state, None, rest@).behind(done, answered);
                    assert(total.replies =~= responses@);
                    assert(total.output =~= output@);
                    assert(self.pending@ =~= rest@);
                }
                None
            },
        }
    }

    /// Carries out the control sequence `sequence`, whose introducer is
    /// `param_start` bytes long.
    fn process_csi_sequence(
        &mut self,
        sequence: &[u8],
        param_start: usize,
        output: &mut Vec<u8>,
        responses: &mut Vec<u8>,
    )
        requires
            param_start < sequence@.len(),
            is_final_byte(sequence@.last()),
        ensures
            ({
                let effect = perform(old(self).state, sequence@, param_start as int);
                &&& final(self).state == effect.modes
                &&& final(output)@ == old(output)@ + effect.output
                &&& final(responses)@ == old(responses)@ + effect.replies
            }),
            final(self).pending == old(self).pending,
            final(self).passthrough_control_string == old(self).passthrough_control_string,
    {
        let end: usize = sequence.len() - 1;
        let final_byte: u8 = sequence[end];
        let params = slice_subrange(sequence, param_start, end);
        let ghost before = output@;
        let ghost answered = responses@;
        if params.len() > 0 && params[0] == PRIVATE_MARK && (final_byte == SET_MODES || final_byte
            == RESET_MODES) {
            let enabled = final_byte == SET_MODES;
            let changes = slice_subrange(params, 1, params.len());
            assert(changes@ =~= params@.skip(1));
            if let Some((owned, others)) = split_dec_private_modes(changes) {
                if owned.len() > 0 {
                    self.set_modes(&owned, enabled);
                    if others.len() > 0 {
                        append_bytes(output, slice_subrange(sequence, 0, param_start + 1));
                        append_joined(output, &others);
                        output.push(final_byte);
                    }
                    proof {
                        let effect = perform(old(self).state, sequence@, param_start as int);
                        assert(output@ =~= before + effect.output);
                        assert(responses@ =~= answered + effect.replies);
                    }
                    return;
                }
            }
            append_bytes(output, sequence);
        } else if let Some(response) = response_for_terminal_query(params, final_byte) {
            append_bytes(responses, response.as_slice());
        } else {
            append_bytes(output, sequence);
        }
        proof {
            let effect = perform(old(self).state, sequence@, param_start as int);
            assert(output@ =~= before + effect.output);
            assert(responses@ =~= answered + effect.replies);
        }
    }

    /// Sets or resets the modes in order.
    fn set_modes(&mut self, modes: &Vec<u16>, enabled: bool)
        ensures
            final(self).state == old(self).state.with_modes(modes@, enabled),
            final(self).pending == old(self).pending,
            final(self).passthrough_control_string == old(self).passthrough_control_string,
    {
        let ghost start = self.state;
        let mut state = self.state;
        let mut i: usize = 0;
        while i < modes.len()
            invariant
                i <= modes@.len(),
                state == start.with_modes(modes@.take(i as int), enabled),
            decreases modes@.len() - i,
        {
            state.set_mode(modes[i], enabled);
            assert(modes@.take(i + 1).drop_last() =~= modes@.take(i as int));
            i = i + 1;
        }
        assert(modes@.take(modes@.len() as int) =~= modes@);
        self.state = state;
    }

    /// Holds back the unfinished sequence or string `bytes`, or passes it through
    /// if it is too long.
    fn buffer_pending_or_passthrough(&mut self, output: &mut Vec<u8>, bytes: &[u8])
        requires
            old(self).pending@.len() == 0,
            old(self).passthrough_control_string is None,
        ensures
            final(self).state == old(self).state,
            if bytes@.len() > MAX_TRACKED_CHILD_OUTPUT_BYTES {
                &&& final(output)@ == old(output)@ + bytes@
                &&& final(self).pending == old(self).pending
                &&& final(self).passthrough_control_string == opened(bytes@)
            } else {
                &&& final(output)@ == old(output)@
                &&& final(self).pending@ == bytes@
                &&& final(self).passthrough_control_string is None
            },
    {
        if bytes.len() > MAX_TRACKED_CHILD_OUTPUT_BYTES {
            append_bytes(output, bytes);
            self.passthrough_control_string = Self::passthrough_control_string_state(bytes);
        } else {
            append_bytes(&mut self.pending, bytes);
            assert(self.pending@ =~= bytes@);
        }
    }

    /// The control string that `bytes` is the beginning of, if it is one.
    fn passthrough_control_string_state(bytes: &[u8]) -> (r: Option<PassthroughControlString>)
        ensures
            r == opened(bytes@),
    {
        if bytes.len() == 0 {
            return None;
        }
        let first: u8 = bytes[0];
        let last: u8 = bytes[bytes.len() - 1];
        let terminates_on_bel = if first == ESC {
            if bytes.len() < 2 || !starts_control_string(bytes[1]) {
                return None;
            }
            bytes[1] == COMMAND_BRACKET
        } else if first == C1_LEAD {
            if bytes.len() < 2 || !starts_c1_control_string(bytes[1]) {
                return None;
            }
            bytes[1] == OSC
        } else if starts_c1_control_string(first) {
            first == OSC
        } else {
            return None;
        };
        Some(
            PassthroughControlString {
                terminates_on_bel,
                pending_esc: last == ESC,
                pending_utf8_c2: last == C1_LEAD,
            },
        )
    }

    /// Passes through what of `bytes` belongs to the control string, and returns
    /// how many bytes that are.
    fn passthrough_control_string(&mut self, output: &mut Vec<u8>, bytes: &[u8]) -> (n: usize)
        requires
            old(self).passthrough_control_string is Some,
        ensures
            ({
                let (len, rest) = pass(old(self).passthrough_control_string.unwrap(), bytes@);
                &&& n == len
                &&& n <= bytes@.len()
                &&& final(self).passthrough_control_string == rest
            }),
            final(output)@ == old(output)@ + bytes@.take(n as int),
            final(self).state == old(self).state,
            final(self).pending == old(self).pending,
    {
        let ghost before = output@;
        let ghost start = self.passthrough_control_string.unwrap();
        let mut string = match self.passthrough_control_string {
            Some(string) => string,
            None => {
                return 0;
            },
        };
        let mut i: usize = 0;
        assert(bytes@.skip(0) =~= bytes@);
        assert(output@ =~= before + bytes@.take(0));
        while i < bytes.len()
            invariant
                i <= bytes@.len(),
                old(self).passthrough_control_string == Some(start),
                old(output)@ == before,
                ({
                    let (n, rest) = pass(string, bytes@.skip(i as int));
                    pass(start, bytes@) == (n + i, rest)
                }),
                output@ == before + bytes@.take(i as int),
                self.state == old(self).state,
                self.pending == old(self).pending,
            decreases bytes@.len() - i,
        {
            let byte: u8 = bytes[i];
            output.push(byte);
            proof {
                assert(bytes@.skip(i as int)[0] == byte);
                assert(bytes@.skip(i as int).skip(1) =~= bytes@.skip(i + 1));
                assert(output@ =~= before + bytes@.take(i + 1));
            }
            if byte == ST || (string.terminates_on_bel && byte == BELL) || (string.pending_esc
                && byte == BACKSLASH) {
                self.passthrough_control_string = None;
                return i + 1;
            }
            string.pending_esc = byte == ESC;
            string.pending_utf8_c2 = byte == C1_LEAD;
            i = i + 1;
        }
        self.passthrough_control_string = Some(string);
        i
    }

    /// Takes what is held back, which then is nothing.
    pub fn drain_pending(&mut self) -> (pending: Vec<u8>)
        ensures
            pending@ == old(self).held(),
            final(self).held() == Seq::<u8>::empty(),
            final(self).modes() == old(self).modes(),
            final(self).string() == old(self).string(),
    {
        let mut pending: Vec<u8> = Vec::new();
        core::mem::swap(&mut pending, &mut self.pending);
        pending
    }
}

/// Takes in more output of the recorded program, appends to `child_input` what is
/// sent back to it, and returns what goes on to the outer terminal.
pub fn filter_child_output_for_outer_terminal(
    tracker: &mut InputModeTracker,
    data: &[u8],
    child_input: &mut Vec<u8>,
) -> (output: Vec<u8>)
    ensures
        ({
            let filtered = old(tracker).filtered(data@);
            &&& output@ == filtered.output
            &&& final(child_input)@ == old(child_input)@ + filtered.replies
            &&& final(tracker).modes() == filtered.modes
            &&& final(tracker).string() == filtered.string
            &&& final(tracker).held() == filtered.pending
        }),
{
    let (filtered, responses) = tracker.filter_and_get_responses(data);
    append_bytes(child_input, responses.as_slice());
    filtered
}

} // verus!

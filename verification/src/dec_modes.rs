//! The parameters of the control sequences that set and reset DEC private modes.

use crate::bytes::{
    append_bytes, is_subsequence, lemma_subsequence_of_itself, lemma_subsequences_join,
};
use crate::modes::owned_mode;
use crate::numbers::{parse_u16, u16_value};
use vstd::prelude::*;
use vstd::slice::slice_subrange;

verus! {

/// The byte between two parameters.
pub const SEPARATOR: u8 = 0x3b;

/// The position of the first separator at or behind `i`, or the length of `s`.
pub open spec fn field_end(s: Seq<u8>, i: int) -> int
    decreases s.len() - i,
{
    if i < 0 || i >= s.len() {
        s.len() as int
    } else if s[i] == SEPARATOR {
        i
    } else {
        field_end(s, i + 1)
    }
}

/// The parameters of `s` from position `i` on: what stands between two separators
/// and at both ends. There is always at least one, which may be empty.
pub open spec fn fields_from(s: Seq<u8>, i: int) -> Seq<Seq<u8>>
    decreases s.len() - i,
{
    let end = field_end(s, i);
    if i < 0 || end < i || end >= s.len() {
        seq![s.skip(i)]
    } else {
        seq![s.subrange(i, end)] + fields_from(s, end + 1)
    }
}

/// The parameters of `s`.
pub open spec fn fields(s: Seq<u8>) -> Seq<Seq<u8>> {
    fields_from(s, 0)
}

/// Whether every parameter is a number of sixteen bits.
pub open spec fn all_modes(params: Seq<Seq<u8>>) -> bool {
    forall|i: int| 0 <= i < params.len() ==> u16_value(#[trigger] params[i]) is Some
}

/// The numbers of the owned modes among the parameters, in order.
pub open spec fn owned_modes(params: Seq<Seq<u8>>) -> Seq<u16>
    decreases params.len(),
{
    if params.len() == 0 {
        Seq::empty()
    } else {
        let mode = u16_value(params.last()).unwrap();
        if owned_mode(mode) {
            owned_modes(params.drop_last()).push(mode)
        } else {
            owned_modes(params.drop_last())
        }
    }
}

/// The parameters that do not name an owned mode, in order and as they stand.
pub open spec fn other_modes(params: Seq<Seq<u8>>) -> Seq<Seq<u8>>
    decreases params.len(),
{
    if params.len() == 0 {
        Seq::empty()
    } else if owned_mode(u16_value(params.last()).unwrap()) {
        other_modes(params.drop_last())
    } else {
        other_modes(params.drop_last()).push(params.last())
    }
}

/// The parameters with separators between them.
pub open spec fn joined(params: Seq<Seq<u8>>) -> Seq<u8>
    decreases params.len(),
{
    if params.len() == 0 {
        Seq::empty()
    } else if params.len() == 1 {
        params[0]
    } else {
        joined(params.drop_last()).push(SEPARATOR) + params.last()
    }
}

/// The views of byte vectors.
pub open spec fn views(v: Seq<Vec<u8>>) -> Seq<Seq<u8>> {
    v.map_values(|bytes: Vec<u8>| bytes@)
}

pub proof fn lemma_field_end_bounds(s: Seq<u8>, i: int)
    requires
        0 <= i <= s.len(),
    ensures
        i <= field_end(s, i) <= s.len(),
        field_end(s, i) < s.len() ==> s[field_end(s, i)] == SEPARATOR,
        forall|k: int| i <= k < field_end(s, i) ==> #[trigger] s[k] != SEPARATOR,
    decreases s.len() - i,
{
    if i < s.len() && s[i] != SEPARATOR {
        lemma_field_end_bounds(s, i + 1);
    }
}

/// Whether the recorder keeps the mode to itself.
pub fn owns_dec_private_mode(mode: u16) -> (r: bool)
    ensures
        r == owned_mode(mode),
{
    matches!(mode, 1 | 1000 | 1002 | 1003 | 1004 | 1006 | 2004 | 9001)
}

/// Divides the parameters into the owned modes, as numbers, and the others, as
/// they stand. `None` if any of them is not a number of sixteen bits.
pub fn split_dec_private_modes(params: &[u8]) -> (r: Option<(Vec<u16>, Vec<Vec<u8>>)>)
    ensures
        match r {
            Some((owned, others)) => all_modes(fields(params@)) && owned@ == owned_modes(
                fields(params@),
            ) && views(others@) == other_modes(fields(params@)),
            None => !all_modes(fields(params@)),
        },
{
    let mut owned: Vec<u16> = Vec::new();
    let mut others: Vec<Vec<u8>> = Vec::new();
    let ghost mut done = Seq::<Seq<u8>>::empty();
    let mut start: usize = 0;
    assert(fields(params@) =~= done + fields_from(params@, 0));
    assert(views(others@) =~= other_modes(done));
    loop
        invariant
            start <= params@.len(),
            fields(params@) == done + fields_from(params@, start as int),
            all_modes(done),
            owned@ == owned_modes(done),
            views(others@) == other_modes(done),
        decreases params@.len() - start,
    {
        let end = find_separator(params, start);
        proof {
            lemma_field_end_bounds(params@, start as int);
        }
        let field = slice_subrange(params, start, end);
        let ghost next = done.push(field@);
        proof {
            assert(next.drop_last() =~= done);
            if end < params@.len() {
                assert(fields(params@) =~= next + fields_from(params@, end + 1));
            } else {
                assert(params@.skip(start as int) =~= field@);
                assert(fields(params@) =~= next);
            }
            assert(fields(params@)[done.len() as int] == field@);
        }
        match parse_u16(field) {
            None => {
                return None;
            },
            Some(mode) => {
                let ghost before = others@;
                if owns_dec_private_mode(mode) {
                    owned.push(mode);
                } else {
                    let mut text: Vec<u8> = Vec::new();
                    append_bytes(&mut text, field);
                    assert(text@ =~= field@);
                    others.push(text);
                    assert(views(others@) =~= views(before).push(field@));
                }
            },
        }
        proof {
            done = next;
        }
        if end == params.len() {
            return Some((owned, others));
        }
        start = end + 1;
    }
}

/// The position of the first separator at or behind `start`, or the length.
fn find_separator(params: &[u8], start: usize) -> (end: usize)
    requires
        start <= params@.len(),
    ensures
        end == field_end(params@, start as int),
        start <= end <= params@.len(),
{
    let mut i: usize = start;
    while i < params.len() && params[i] != SEPARATOR
        invariant
            start <= i <= params@.len(),
            field_end(params@, start as int) == field_end(params@, i as int),
        decreases params@.len() - i,
    {
        i = i + 1;
    }
    i
}

/// Appends the parameters with separators between them.
pub fn append_joined(out: &mut Vec<u8>, params: &Vec<Vec<u8>>)
    ensures
        final(out)@ == old(out)@ + joined(views(params@)),
{
    let ghost before = out@;
    let ghost v = views(params@);
    let mut i: usize = 0;
    assert(v.take(0).len() == 0);
    assert(out@ =~= before + joined(v.take(0)));
    while i < params.len()
        invariant
            i <= params@.len(),
            v == views(params@),
            out@ == before + joined(v.take(i as int)),
        decreases params@.len() - i,
    {
        if i > 0 {
            out.push(SEPARATOR);
        }
        append_bytes(out, params[i].as_slice());
        proof {
            assert(v.take(i + 1).drop_last() =~= v.take(i as int));
            assert(v.take(i + 1).last() == params@[i as int]@);
            if i == 0 {
                assert(joined(v.take(0)) =~= Seq::<u8>::empty());
            }
            assert(out@ =~= before + joined(v.take(i + 1)));
        }
        i = i + 1;
    }
    assert(v.take(v.len() as int) =~= v);
}

/// Every parameter either names an owned mode or is passed on, none both.
pub proof fn law_every_mode_goes_one_way(params: Seq<Seq<u8>>)
    ensures
        owned_modes(params).len() + other_modes(params).len() == params.len(),
        forall|i: int|
            0 <= i < owned_modes(params).len() ==> owned_mode(#[trigger] owned_modes(params)[i]),
        forall|i: int|
            0 <= i < other_modes(params).len() ==> !owned_mode(
                u16_value(#[trigger] other_modes(params)[i]).unwrap(),
            ),
    decreases params.len(),
{
    if params.len() > 0 {
        law_every_mode_goes_one_way(params.drop_last());
    }
}

/// The parameters behind a first one follow it and a separator.
proof fn lemma_joined_first(first: Seq<u8>, rest: Seq<Seq<u8>>)
    requires
        rest.len() > 0,
    ensures
        joined(seq![first] + rest) == first.push(SEPARATOR) + joined(rest),
    decreases rest.len(),
{
    let all = seq![first] + rest;
    assert(all.drop_last() =~= seq![first] + rest.drop_last());
    if rest.len() == 1 {
        assert(all.drop_last() =~= seq![first]);
        assert(joined(seq![first]) == first);
    } else {
        lemma_joined_first(first, rest.drop_last());
    }
    assert(joined(all) =~= first.push(SEPARATOR) + joined(rest));
}

/// Joining the parameters gives back what they were taken from.
pub proof fn law_fields_rejoin(s: Seq<u8>)
    ensures
        fields(s).len() > 0,
        joined(fields(s)) == s,
{
    lemma_fields_rejoin(s, 0);
    assert(s.skip(0) =~= s);
}

proof fn lemma_fields_rejoin(s: Seq<u8>, i: int)
    requires
        0 <= i <= s.len(),
    ensures
        fields_from(s, i).len() > 0,
        joined(fields_from(s, i)) == s.skip(i),
    decreases s.len() - i,
{
    lemma_field_end_bounds(s, i);
    let end = field_end(s, i);
    if end < s.len() {
        lemma_fields_rejoin(s, end + 1);
        lemma_joined_first(s.subrange(i, end), fields_from(s, end + 1));
        assert(s.skip(i) =~= s.subrange(i, end).push(SEPARATOR) + s.skip(end + 1));
    }
}

/// The parameters without the owned modes are what is left of the parameters.
pub proof fn lemma_other_modes_are_left(params: Seq<Seq<u8>>)
    ensures
        is_subsequence(joined(other_modes(params)), joined(params)),
    decreases params.len(),
{
    if params.len() > 0 {
        let init = params.drop_last();
        let last = params.last();
        let none = Seq::<u8>::empty();
        let sep = seq![SEPARATOR];
        lemma_other_modes_are_left(init);
        law_every_mode_goes_one_way(init);
        lemma_subsequence_of_itself(last);
        lemma_subsequence_of_itself(sep);
        if owned_mode(u16_value(last).unwrap()) {
            if params.len() > 1 {
                lemma_subsequences_join(
                    joined(other_modes(init)),
                    joined(init),
                    none,
                    sep + last,
                );
                assert(joined(other_modes(init)) + none =~= joined(other_modes(init)));
                assert(joined(init) + (sep + last) =~= joined(params));
            }
        } else {
            assert(other_modes(params).drop_last() =~= other_modes(init));
            if params.len() == 1 {
                assert(other_modes(params) =~= params);
            } else if other_modes(init).len() == 0 {
                lemma_subsequences_join(none, joined(init).push(SEPARATOR), last, last);
                assert(none + last =~= last);
            } else {
                lemma_subsequences_join(joined(other_modes(init)), joined(init), sep, sep);
                lemma_subsequences_join(
                    joined(other_modes(init)) + sep,
                    joined(init) + sep,
                    last,
                    last,
                );
                assert(joined(other_modes(init)) + sep =~= joined(other_modes(init)).push(
                    SEPARATOR,
                ));
                assert(joined(init) + sep =~= joined(init).push(SEPARATOR));
            }
        }
    }
}

/// Whether no parameter holds a separator.
pub open spec fn undivided(params: Seq<Seq<u8>>) -> bool {
    forall|i: int, k: int|
        0 <= i < params.len() && 0 <= k < params[i].len() ==> #[trigger] params[i][k] != SEPARATOR
}

/// A parameter ends at the separator behind it.
proof fn lemma_field_ends(s: Seq<u8>, i: int, end: int)
    requires
        0 <= i <= end <= s.len(),
        forall|k: int| i <= k < end ==> #[trigger] s[k] != SEPARATOR,
        end < s.len() ==> s[end] == SEPARATOR,
    ensures
        field_end(s, i) == end,
    decreases end - i,
{
    if i < end {
        lemma_field_ends(s, i + 1, end);
    }
}

/// The parameters behind some bytes do not depend on these.
proof fn lemma_fields_shift(a: Seq<u8>, b: Seq<u8>, i: int)
    requires
        0 <= i <= b.len(),
    ensures
        fields_from(a + b, a.len() + i) == fields_from(b, i),
    decreases b.len() - i,
{
    let s = a + b;
    lemma_field_end_bounds(b, i);
    let end = field_end(b, i);
    assert forall|k: int| a.len() + i <= k < a.len() + end implies #[trigger] s[k]
        != SEPARATOR by {
        assert(s[k] == b[k - a.len()]);
    }
    lemma_field_ends(s, a.len() + i, a.len() + end);
    assert(s.skip(a.len() + i) =~= b.skip(i));
    if end < b.len() {
        assert(s.subrange(a.len() + i, a.len() + end) =~= b.subrange(i, end));
        lemma_fields_shift(a, b, end + 1);
    }
}

/// Dividing what was joined gives the parameters back, in order and as they stand.
pub proof fn law_joined_divides(params: Seq<Seq<u8>>)
    requires
        params.len() > 0,
        undivided(params),
    ensures
        fields(joined(params)) == params,
    decreases params.len(),
{
    let first = params[0];
    assert forall|k: int| 0 <= k < first.len() implies #[trigger] first[k] != SEPARATOR by {
        assert(params[0][k] != SEPARATOR);
    }
    if params.len() == 1 {
        lemma_field_ends(first, 0, first.len() as int);
        assert(first.skip(0) =~= first);
        assert(fields(first) =~= params);
    } else {
        let rest = params.skip(1);
        assert forall|i: int, k: int| 0 <= i < rest.len() && 0 <= k < rest[i].len() implies (
        #[trigger] rest[i][k]) != SEPARATOR by {
            assert(params[i + 1][k] != SEPARATOR);
        }
        law_joined_divides(rest);
        assert(params =~= seq![first] + rest);
        lemma_joined_first(first, rest);
        let head = first.push(SEPARATOR);
        let s = joined(params);
        assert(s == head + joined(rest));
        assert forall|k: int| 0 <= k < first.len() implies #[trigger] s[k] != SEPARATOR by {
            assert(s[k] == first[k]);
        }
        lemma_field_ends(s, 0, first.len() as int);
        assert(s.subrange(0, first.len() as int) =~= first);
        lemma_fields_shift(head, joined(rest), 0);
        assert(fields(s) =~= seq![first] + fields(joined(rest)));
    }
}

/// What is passed on is what is not owned, as it stands and in its order, and what is
/// kept is what is owned, as numbers and in its order.
pub proof fn law_modes_are_sorted_out(params: Seq<Seq<u8>>)
    requires
        all_modes(params),
    ensures
        other_modes(params) == params.filter(
            |param: Seq<u8>| !is_recorders_number(u16_value(param).unwrap()),
        ),
        owned_modes(params) == params.filter(
            |param: Seq<u8>| is_recorders_number(u16_value(param).unwrap()),
        ).map_values(|param: Seq<u8>| u16_value(param).unwrap()),
    decreases params.len(),
{
    reveal(Seq::filter);
    if params.len() == 0 {
        assert(other_modes(params) =~= params.filter(
            |param: Seq<u8>| !is_recorders_number(u16_value(param).unwrap()),
        ));
        assert(owned_modes(params) =~= params.filter(
            |param: Seq<u8>| is_recorders_number(u16_value(param).unwrap()),
        ).map_values(|param: Seq<u8>| u16_value(param).unwrap()));
    } else {
        let init = params.drop_last();
        assert forall|i: int| 0 <= i < init.len() implies u16_value(#[trigger] init[i]) is Some by {
            assert(init[i] == params[i]);
        }
        law_modes_are_sorted_out(init);
        let value = |param: Seq<u8>| u16_value(param).unwrap();
        let kept = init.filter(|param: Seq<u8>| is_recorders_number(u16_value(param).unwrap()));
        assert(kept.push(params.last()).map_values(value) =~= kept.map_values(value).push(
            value(params.last()),
        ));
    }
}

/// The numbers of the modes that the recorder acts on: the cursor keys, the mouse and its
/// encoding, the focus, bracketed paste and the win32 input mode.
pub open spec fn is_recorders_number(mode: u16) -> bool {
    seq![1u16, 1000, 1002, 1003, 1004, 1006, 2004, 9001].contains(mode)
}

} // verus!

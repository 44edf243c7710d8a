//! What holds of the logging of output for every stream of bytes.

use crate::bytes::concatenated;
use crate::cast::{carried, logged};
use crate::grammar::encoded_len;
use crate::utf8::{fits, law_valid_len_is_longest, lemma_first_scalar, lemma_valid_len_bounds, reach};
use crate::utf8::{malformed_len, valid_len};
use vstd::prelude::*;
use vstd::utf8::*;

verus! {

/// Only well-formed UTF-8 is ever logged, and what is logged and carried forward
/// comes from the bytes in order: at most one malformed sequence between them, of
/// three bytes at most, is dropped.
pub proof fn law_logged_is_well_formed(b: Seq<u8>)
    ensures
        valid_utf8(logged(b)),
        logged(b).len() + carried(b).len() <= b.len() <= logged(b).len() + carried(b).len() + 3,
        carried(b) == b.skip(b.len() - carried(b).len()),
{
    law_valid_len_is_longest(b, 0);
    let rest = b.skip(valid_len(b));
    if rest.len() > 0 {
        lemma_first_scalar(rest);
        lemma_malformed_is_short(b);
    }
    assert(carried(b) =~= b.skip(b.len() - carried(b).len()));
}

/// What stands behind the well-formed part of `b` does not start with a character.
proof fn lemma_malformed_is_short(b: Seq<u8>)
    ensures
        ({
            let rest = b.skip(valid_len(b));
            rest.len() > 0 ==> !valid_first_scalar(rest) && 1 <= reach(rest, 1) <= 3
        }),
    decreases b.len(),
{
    lemma_valid_len_bounds(b);
    let rest = b.skip(valid_len(b));
    if b.len() > 0 && valid_first_scalar(b) {
        let tail = pop_first_scalar(b);
        lemma_valid_len_bounds(tail);
        lemma_malformed_is_short(tail);
        assert(tail.skip(valid_len(tail)) =~= rest);
    } else if b.len() > 0 {
        assert(rest =~= b);
        lemma_first_scalar(b);
    }
}

/// A character reaches as far in `a + b` as in `a`, or at least to the end of `a`.
proof fn lemma_reach_further(a: Seq<u8>, b: Seq<u8>, k: int)
    requires
        1 <= k <= a.len(),
    ensures
        reach(a + b, k) == reach(a, k) || (reach(a, k) == a.len() && reach(a + b, k) >= a.len()),
    decreases a.len() - k,
{
    let s = a + b;
    assert(s[0] == a[0]);
    if k < a.len() {
        assert(s[k] == a[k]);
        if a.len() > 1 {
            assert(s[1] == a[1]);
        }
        assert(fits(s, k) == fits(a, k));
        if k < encoded_len(a[0]) && fits(a, k) {
            lemma_reach_further(a, b, k + 1);
        }
    } else {
        lemma_reach_at_least(s, k);
    }
}

proof fn lemma_reach_at_least(s: Seq<u8>, k: int)
    ensures
        reach(s, k) >= k,
    decreases s.len() - k,
{
    if k < s.len() && k < encoded_len(s[0]) && fits(s, k) {
        lemma_reach_at_least(s, k + 1);
    }
}

/// Where `b` is the beginning of a well-formed text, nothing of it is lost: what is
/// logged and what is carried forward make it up. What is carried forward is less
/// than a character, and the rest of the text continues it.
pub proof fn law_cut_text_loses_nothing(b: Seq<u8>, rest: Seq<u8>)
    requires
        valid_utf8(b + rest),
    ensures
        logged(b) + carried(b) == b,
        carried(b).len() <= 3,
        carried(b).len() > 0 ==> !valid_utf8(carried(b)),
        valid_utf8(carried(b) + rest),
    decreases b.len(),
{
    lemma_valid_len_bounds(b);
    let s = b + rest;
    if b.len() == 0 {
        assert(s =~= rest);
        assert(carried(b) + rest =~= rest);
        assert(logged(b) + carried(b) =~= b);
    } else if valid_first_scalar(b) {
        let w = length_of_first_scalar(b);
        let tail = pop_first_scalar(b);
        lemma_valid_len_bounds(tail);
        lemma_first_scalar(b);
        assert(valid_first_scalar(s));
        assert(pop_first_scalar(s) =~= tail + rest);
        law_cut_text_loses_nothing(tail, rest);
        assert(b.skip(valid_len(b)) =~= tail.skip(valid_len(tail)));
        assert(logged(b) =~= b.take(w) + logged(tail));
        assert(b =~= b.take(w) + tail);
        assert(logged(b) + carried(b) =~= b.take(w) + (logged(tail) + carried(tail)));
    } else {
        assert(valid_first_scalar(s));
        lemma_first_scalar(b);
        lemma_first_scalar(s);
        lemma_reach_further(b, rest, 1);
        assert(s[0] == b[0]);
        assert(b.skip(0) =~= b);
        assert(malformed_len(b) is None);
        assert(carried(b) =~= b);
        assert(logged(b) + carried(b) =~= b);
    }
}

/// What is logged for the pieces, one behind the other, and what is then carried
/// forward.
pub open spec fn logged_in_pieces(pieces: Seq<Seq<u8>>) -> (Seq<u8>, Seq<u8>)
    decreases pieces.len(),
{
    if pieces.len() == 0 {
        (Seq::empty(), Seq::empty())
    } else {
        let (text, carry) = logged_in_pieces(pieces.drop_last());
        let b = carry + pieces.last();
        (text + logged(b), carried(b))
    }
}

/// However a well-formed text is cut into pieces, also in the middle of characters, it
/// is logged whole, and nothing is left over.
pub proof fn law_text_in_pieces_is_logged_whole(pieces: Seq<Seq<u8>>)
    requires
        valid_utf8(concatenated(pieces)),
    ensures
        logged_in_pieces(pieces) == (concatenated(pieces), Seq::<u8>::empty()),
{
    assert(concatenated(pieces) + Seq::<u8>::empty() =~= concatenated(pieces));
    lemma_pieces(pieces, Seq::empty());
    let (text, carry) = logged_in_pieces(pieces);
    assert(carry + Seq::<u8>::empty() =~= carry);
    assert(carry =~= Seq::<u8>::empty());
    assert(text + carry =~= text);
}

proof fn lemma_pieces(pieces: Seq<Seq<u8>>, rest: Seq<u8>)
    requires
        valid_utf8(concatenated(pieces) + rest),
    ensures
        ({
            let (text, carry) = logged_in_pieces(pieces);
            &&& text + carry == concatenated(pieces)
            &&& carry.len() > 0 ==> !valid_utf8(carry)
            &&& valid_utf8(carry + rest)
        }),
    decreases pieces.len(),
{
    if pieces.len() == 0 {
        assert(Seq::<u8>::empty() + Seq::<u8>::empty() =~= concatenated(pieces));
    } else {
        let init = pieces.drop_last();
        let last = pieces.last();
        assert(concatenated(pieces) + rest =~= concatenated(init) + (last + rest));
        lemma_pieces(init, last + rest);
        let (text, carry) = logged_in_pieces(init);
        let b = carry + last;
        assert(carry + (last + rest) =~= b + rest);
        law_cut_text_loses_nothing(b, rest);
        assert((text + logged(b)) + carried(b) =~= text + (logged(b) + carried(b)));
        assert(text + (carry + last) =~= (text + carry) + last);
    }
}

/// The least continuation byte that may follow `first`.
spec fn least_second(first: u8) -> u8 {
    if first == 0xe0 {
        0xa0
    } else if first == 0xf0 {
        0x90
    } else {
        0x80
    }
}

/// What completes a character that `s` starts.
spec fn completion(s: Seq<u8>) -> Seq<u8> {
    Seq::new(
        (encoded_len(s[0]) - s.len()) as nat,
        |i: int|
            if s.len() + i == 1 {
                least_second(s[0])
            } else {
                0x80u8
            },
    )
}

/// A character that has been started can be completed.
proof fn lemma_completed(s: Seq<u8>)
    requires
        s.len() > 0,
        reach(s, 1) == s.len() < encoded_len(s[0]),
    ensures
        valid_first_scalar(s + completion(s)),
        length_of_first_scalar(s + completion(s)) > s.len(),
{
    reveal_with_fuel(reach, 5);
    let more = completion(s);
    let all = s + more;
    assert(all[0] == s[0]);
    assert(forall|k: int| 0 <= k < s.len() ==> all[k] == s[k]);
    assert(forall|k: int| s.len() <= k < all.len() ==> all[k] == more[k - s.len()]);
    lemma_first_scalar(all);
}

/// A character that is broken off cannot be completed.
proof fn lemma_broken_off(s: Seq<u8>, more: Seq<u8>)
    requires
        s.len() > 0,
        !valid_first_scalar(s),
        reach(s, 1) < s.len() || encoded_len(s[0]) == 0,
    ensures
        !valid_first_scalar(s + more),
{
    let all = s + more;
    assert(all[0] == s[0]);
    lemma_first_scalar(s);
    lemma_first_scalar(all);
    lemma_reach_further(s, more, 1);
}

/// What is dropped between what is logged and what is carried forward is exactly what can
/// never become part of a character. Nothing is dropped where the rest is the beginning of
/// a character, which more bytes can complete. Else no more bytes can make the rest start
/// with a character, and what is dropped is its first byte, with those behind it that
/// could still have been part of one, and no more.
pub proof fn law_only_malformed_bytes_are_dropped(b: Seq<u8>, more: Seq<u8>)
    ensures
        ({
            let rest = b.skip(logged(b).len() as int);
            let n = rest.len() - carried(b).len();
            &&& 0 <= n <= rest.len()
            &&& carried(b) == rest.skip(n)
            &&& n == 0 && rest.len() > 0 ==> exists|end: Seq<u8>|
                #[trigger] valid_first_scalar(rest + end) && length_of_first_scalar(rest + end)
                    > rest.len()
            &&& n > 0 ==> !valid_first_scalar(rest + more)
            &&& n > 1 ==> exists|end: Seq<u8>| #[trigger]
                valid_first_scalar(rest.take(n) + end) && length_of_first_scalar(rest.take(n) + end)
                    > n
            &&& 0 < n < rest.len() ==> !valid_first_scalar(rest.take(n + 1) + more)
        }),
{
    law_valid_len_is_longest(b, 0);
    lemma_malformed_is_short(b);
    let rest = b.skip(valid_len(b));
    assert(logged(b).len() == valid_len(b));
    if rest.len() > 0 {
        lemma_first_scalar(rest);
        let n = rest.len() - carried(b).len();
        match malformed_len(rest) {
            None => {
                lemma_completed(rest);
                assert(valid_first_scalar(rest + completion(rest)));
                assert(rest.skip(0) =~= rest);
            },
            Some(len) => {
                assert(n == len == reach(rest, 1));
                lemma_broken_off(rest, more);
                if n > 1 {
                    let head = rest.take(n);
                    lemma_reach_cut(rest, n);
                    lemma_completed(head);
                    assert(valid_first_scalar(head + completion(head)));
                }
                if n < rest.len() {
                    lemma_reach_cut(rest, n + 1);
                    let head = rest.take(n + 1);
                    assert(head[0] == rest[0]);
                    lemma_first_scalar(head);
                    lemma_broken_off(head, more);
                }
            },
        }
    }
}

/// Bytes behind those that a character reaches to make no difference.
proof fn lemma_reach_cut(s: Seq<u8>, n: int)
    requires
        0 < n <= s.len(),
        reach(s, 1) == n || reach(s, 1) == n - 1,
        reach(s, 1) >= 1,
    ensures
        reach(s.take(n), 1) == reach(s, 1),
        s.take(n)[0] == s[0],
{
    reveal_with_fuel(reach, 5);
    let t = s.take(n);
    assert(forall|k: int| 0 <= k < n ==> t[k] == s[k]);
}

/// What is logged is how the bytes begin, unchanged, and no longer beginning of them is
/// well-formed.
pub proof fn law_logged_is_the_longest_beginning(b: Seq<u8>, n: int)
    requires
        0 <= n <= b.len(),
        valid_utf8(b.take(n)),
    ensures
        logged(b).len() <= b.len(),
        logged(b) == b.take(logged(b).len() as int),
        n <= logged(b).len(),
{
    law_valid_len_is_longest(b, n);
}

} // verus!

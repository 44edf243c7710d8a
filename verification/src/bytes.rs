//! Byte sequences.

use vstd::prelude::*;

verus! {

/// The pieces, one behind the other.
pub open spec fn concatenated(pieces: Seq<Seq<u8>>) -> Seq<u8>
    decreases pieces.len(),
{
    if pieces.len() == 0 {
        Seq::empty()
    } else {
        concatenated(pieces.drop_last()) + pieces.last()
    }
}

/// Whether `a` is what is left of `b` when some of its bytes are left out.
pub open spec fn is_subsequence(a: Seq<u8>, b: Seq<u8>) -> bool
    decreases b.len(),
{
    if a.len() == 0 {
        true
    } else if b.len() == 0 {
        false
    } else {
        ||| a.last() == b.last() && is_subsequence(a.drop_last(), b.drop_last())
        ||| is_subsequence(a, b.drop_last())
    }
}

/// A sequence is left of itself when nothing is left out.
pub proof fn lemma_subsequence_of_itself(a: Seq<u8>)
    ensures
        is_subsequence(a, a),
    decreases a.len(),
{
    if a.len() > 0 {
        lemma_subsequence_of_itself(a.drop_last());
    }
}

/// What is left of two sequences, one behind the other, is left of the two together.
pub proof fn lemma_subsequences_join(a: Seq<u8>, b: Seq<u8>, c: Seq<u8>, d: Seq<u8>)
    requires
        is_subsequence(a, b),
        is_subsequence(c, d),
    ensures
        is_subsequence(a + c, b + d),
    decreases d.len(),
{
    if d.len() == 0 {
        assert(a + c =~= a);
        assert(b + d =~= b);
    } else {
        assert((b + d).drop_last() =~= b + d.drop_last());
        if c.len() == 0 {
            lemma_subsequences_join(a, b, c, d.drop_last());
        } else if c.last() == d.last() && is_subsequence(c.drop_last(), d.drop_last()) {
            assert((a + c).drop_last() =~= a + c.drop_last());
            lemma_subsequences_join(a, b, c.drop_last(), d.drop_last());
        } else {
            lemma_subsequences_join(a, b, c, d.drop_last());
        }
    }
}

/// What is left of a sequence is no longer than it.
pub proof fn lemma_subsequence_is_no_longer(a: Seq<u8>, b: Seq<u8>)
    requires
        is_subsequence(a, b),
    ensures
        a.len() <= b.len(),
    decreases b.len(),
{
    if a.len() > 0 && b.len() > 0 {
        if a.last() == b.last() && is_subsequence(a.drop_last(), b.drop_last()) {
            lemma_subsequence_is_no_longer(a.drop_last(), b.drop_last());
        } else {
            lemma_subsequence_is_no_longer(a, b.drop_last());
        }
    }
}

/// Appends `bytes` to `out`.
pub fn append_bytes(out: &mut Vec<u8>, bytes: &[u8])
    ensures
        final(out)@ == old(out)@ + bytes@,
{
    out.extend_from_slice(bytes);
    assert(out@ =~= old(out)@ + bytes@);
}

} // verus!

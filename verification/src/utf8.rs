//! Finding the well-formed part of a byte sequence that should be UTF-8, and
//! writing characters as UTF-8.

use crate::grammar::encoded_len;
use vstd::prelude::*;
use vstd::utf8::*;

verus! {

/// Whether `second` may follow `first` in the encoding of one character. Beyond
/// being a continuation byte, it must not make the encoding overlong, a
/// surrogate, or larger than the largest character.
pub open spec fn second_fits(first: u8, second: u8) -> bool {
    if first == 0xe0 {
        0xa0 <= second <= 0xbf
    } else if first == 0xed {
        0x80 <= second <= 0x9f
    } else if first == 0xf0 {
        0x90 <= second <= 0xbf
    } else if first == 0xf4 {
        0x80 <= second <= 0x8f
    } else {
        0x80 <= second <= 0xbf
    }
}

/// Whether the byte at position `k` continues the character that `s` starts with.
pub open spec fn fits(s: Seq<u8>, k: int) -> bool {
    if k == 1 {
        second_fits(s[0], s[1])
    } else {
        0x80 <= s[k] <= 0xbf
    }
}

/// How far the character that `s` starts with reaches, given that it reaches at
/// least to position `k`.
pub open spec fn reach(s: Seq<u8>, k: int) -> int
    decreases s.len() - k,
{
    if k < s.len() && k < encoded_len(s[0]) && fits(s, k) {
        reach(s, k + 1)
    } else {
        k
    }
}

/// The length of the longest prefix of `s` that is well-formed UTF-8.
pub open spec fn valid_len(s: Seq<u8>) -> int
    decreases s.len(),
{
    if s.len() > 0 && valid_first_scalar(s) {
        length_of_first_scalar(s) + valid_len(pop_first_scalar(s))
    } else {
        0
    }
}

/// The length of the malformed sequence at the head of `s`, where `s` does not
/// start with a well-formed character: the longest head that could still have
/// become one, but at least a byte. `None` where `s` ends before it is known
/// whether the character is well-formed.
pub open spec fn malformed_len(s: Seq<u8>) -> Option<int> {
    if s.len() == 0 || (reach(s, 1) == s.len() && s.len() < encoded_len(s[0])) {
        None
    } else {
        Some(reach(s, 1))
    }
}

/// Two-byte encodings are overlong exactly below the lead byte 0xc2.
proof fn lemma_width_2(a: u8, b: u8)
    by (bit_vector)
    requires
        0xc0 <= a <= 0xdf,
        0x80 <= b <= 0xbf,
    ensures
        0x80 <= (((a & 0x1F) as u32) << 6) | ((b & 0x3f) as u32) <==> 0xc2 <= a,
        (((a & 0x1F) as u32) << 6) | ((b & 0x3f) as u32) < 0xd800,
{
}

proof fn lemma_width_3(a: u8, b: u8, c: u8)
    by (bit_vector)
    requires
        0xe0 <= a <= 0xef,
        0x80 <= b <= 0xbf,
        0x80 <= c <= 0xbf,
    ensures
        0x800 <= (((a & 0x0F) as u32) << 12) | (((b & 0x3f) as u32) << 6) | ((c & 0x3f) as u32)
            <==> a != 0xe0 || 0xa0 <= b,
        (0xD800 <= (((a & 0x0F) as u32) << 12) | (((b & 0x3f) as u32) << 6) | ((c & 0x3f) as u32)
            && (((a & 0x0F) as u32) << 12) | (((b & 0x3f) as u32) << 6) | ((c & 0x3f) as u32)
            <= 0xDFFF) <==> a == 0xed && 0xa0 <= b,
{
}

proof fn lemma_width_4(a: u8, b: u8, c: u8, d: u8)
    by (bit_vector)
    requires
        0xf0 <= a <= 0xf7,
        0x80 <= b <= 0xbf,
        0x80 <= c <= 0xbf,
        0x80 <= d <= 0xbf,
    ensures
        0x10000 <= (((a & 0x07) as u32) << 18) | (((b & 0x3f) as u32) << 12) | (((c & 0x3f) as u32)
            << 6) | ((d & 0x3f) as u32) <==> a != 0xf0 || 0x90 <= b,
        (((a & 0x07) as u32) << 18) | (((b & 0x3f) as u32) << 12) | (((c & 0x3f) as u32) << 6) | ((d
            & 0x3f) as u32) <= 0x10ffff <==> a < 0xf4 || (a == 0xf4 && b <= 0x8f),
{
}

/// A sequence starts with a well-formed character exactly where the character
/// that its first byte announces reaches to its end.
pub proof fn lemma_first_scalar(s: Seq<u8>)
    requires
        s.len() > 0,
    ensures
        valid_first_scalar(s) <==> encoded_len(s[0]) > 0 && reach(s, 1) == encoded_len(s[0]),
        valid_first_scalar(s) ==> length_of_first_scalar(s) == encoded_len(s[0]),
        1 <= reach(s, 1) <= s.len(),
        encoded_len(s[0]) > 0 ==> reach(s, 1) <= encoded_len(s[0]),
        encoded_len(s[0]) == 0 ==> reach(s, 1) == 1,
{
    reveal_with_fuel(reach, 5);
    let a = s[0];
    assert(a <= 0x7f ==> a & 0x7f == a) by (bit_vector);
    if s.len() >= 2 && is_continuation_byte(s[1]) {
        if is_leading_byte_width_2(a) {
            lemma_width_2(a, s[1]);
        }
        if s.len() >= 3 && is_continuation_byte(s[2]) {
            if is_leading_byte_width_3(a) {
                lemma_width_3(a, s[1], s[2]);
            }
            if s.len() >= 4 && is_continuation_byte(s[3]) && is_leading_byte_width_4(a) {
                lemma_width_4(a, s[1], s[2], s[3]);
            }
        }
    }
}

pub proof fn lemma_valid_len_bounds(s: Seq<u8>)
    ensures
        0 <= valid_len(s) <= s.len(),
    decreases s.len(),
{
    if s.len() > 0 && valid_first_scalar(s) {
        lemma_valid_len_bounds(pop_first_scalar(s));
    }
}

/// `valid_len` is the length of the longest well-formed prefix: that prefix is
/// well-formed, and no longer one is.
pub proof fn law_valid_len_is_longest(s: Seq<u8>, n: int)
    requires
        0 <= n <= s.len(),
    ensures
        0 <= valid_len(s) <= s.len(),
        valid_utf8(s.take(valid_len(s))),
        valid_utf8(s.take(n)) ==> n <= valid_len(s),
        valid_utf8(s) <==> valid_len(s) == s.len(),
    decreases s.len(),
{
    lemma_valid_len_bounds(s);
    if s.len() > 0 && valid_first_scalar(s) {
        let w = length_of_first_scalar(s);
        let rest = pop_first_scalar(s);
        lemma_valid_len_bounds(rest);
        law_valid_len_is_longest(rest, if n >= w { n - w } else { 0 });
        let p = s.take(valid_len(s));
        assert(valid_first_scalar(p));
        assert(pop_first_scalar(p) =~= rest.take(valid_len(rest)));
        if n >= w {
            let q = s.take(n);
            assert(valid_first_scalar(q));
            assert(pop_first_scalar(q) =~= rest.take(n - w));
        } else if n > 0 && valid_utf8(s.take(n)) {
        }
    } else {
        if n > 0 && valid_utf8(s.take(n)) {
            assert(valid_first_scalar(s.take(n)));
            assert(valid_first_scalar(s));
        }
        assert(s.take(0).len() == 0);
    }
}

/// ASCII is well-formed.
pub proof fn lemma_ascii_is_valid(s: Seq<u8>)
    requires
        forall|i: int| 0 <= i < s.len() ==> #[trigger] s[i] < 0x80,
    ensures
        valid_utf8(s),
    decreases s.len(),
{
    if s.len() > 0 {
        lemma_first_scalar(s);
        assert(reach(s, 1) == 1);
        lemma_ascii_is_valid(pop_first_scalar(s));
    }
}

/// What stands at a position of a byte sequence.
enum Scan {
    /// A well-formed character of this length.
    Whole(usize),
    /// A malformed sequence of this length.
    Broken(usize),
    /// The first bytes of a character whose other bytes are not there.
    Cut,
}

fn scan(bytes: &[u8], start: usize) -> (scan: Scan)
    requires
        start < bytes@.len(),
    ensures
        ({
            let s = bytes@.skip(start as int);
            match scan {
                Scan::Whole(n) => valid_first_scalar(s) && n == length_of_first_scalar(s) && 0 < n
                    <= s.len(),
                Scan::Broken(n) => !valid_first_scalar(s) && malformed_len(s) == Some(n as int) && 0
                    < n <= s.len(),
                Scan::Cut => !valid_first_scalar(s) && malformed_len(s) is None,
            }
        }),
{
    let ghost s = bytes@.skip(start as int);
    proof {
        lemma_first_scalar(s);
    }
    let first: u8 = bytes[start];
    let width: usize = if first <= 0x7f {
        1
    } else if first >= 0xc2 && first <= 0xdf {
        2
    } else if first >= 0xe0 && first <= 0xef {
        3
    } else if first >= 0xf0 && first <= 0xf4 {
        4
    } else {
        0
    };
    let mut k: usize = 1;
    while k < width && k < bytes.len() - start
        invariant_except_break
            reach(s, 1) == reach(s, k as int),
        invariant
            start < bytes@.len(),
            s == bytes@.skip(start as int),
            first == s[0],
            width == encoded_len(first),
            1 <= k <= 4,
            k <= s.len(),
        ensures
            reach(s, 1) == k,
        decreases s.len() - k,
    {
        let byte: u8 = bytes[start + k];
        let fit = if k == 1 {
            if first == 0xe0 {
                byte >= 0xa0 && byte <= 0xbf
            } else if first == 0xed {
                byte >= 0x80 && byte <= 0x9f
            } else if first == 0xf0 {
                byte >= 0x90 && byte <= 0xbf
            } else if first == 0xf4 {
                byte >= 0x80 && byte <= 0x8f
            } else {
                byte >= 0x80 && byte <= 0xbf
            }
        } else {
            byte >= 0x80 && byte <= 0xbf
        };
        assert(fit == fits(s, k as int));
        if !fit {
            break;
        }
        k = k + 1;
    }
    if width > 0 && k == width {
        Scan::Whole(k)
    } else if k < width && k == bytes.len() - start {
        Scan::Cut
    } else {
        Scan::Broken(k)
    }
}

/// Splits `bytes` into the longest prefix that is well-formed UTF-8, of which it
/// returns the length, and the rest, of which it returns the length of the
/// malformed sequence that it starts with. That is `None` where the rest is empty
/// or could become well-formed with more bytes.
pub fn utf8_prefix(bytes: &[u8]) -> (r: (usize, Option<usize>))
    ensures
        r.0 == valid_len(bytes@),
        r.0 <= bytes@.len(),
        match r.1 {
            Some(n) => malformed_len(bytes@.skip(r.0 as int)) == Some(n as int) && 0 < n
                <= bytes@.len() - r.0,
            None => malformed_len(bytes@.skip(r.0 as int)) is None,
        },
{
    let mut i: usize = 0;
    assert(bytes@.skip(0) =~= bytes@);
    while i < bytes.len()
        invariant
            i <= bytes@.len(),
            valid_len(bytes@) == i + valid_len(bytes@.skip(i as int)),
        decreases bytes@.len() - i,
    {
        match scan(bytes, i) {
            Scan::Whole(n) => {
                assert(pop_first_scalar(bytes@.skip(i as int)) =~= bytes@.skip(i + n));
                i = i + n;
            },
            Scan::Broken(n) => {
                return (i, Some(n));
            },
            Scan::Cut => {
                return (i, None);
            },
        }
    }
    (i, None)
}

/// Whether `bytes` is well-formed UTF-8.
pub fn is_utf8(bytes: &[u8]) -> (r: bool)
    ensures
        r == valid_utf8(bytes@),
{
    let (n, _) = utf8_prefix(bytes);
    proof {
        law_valid_len_is_longest(bytes@, 0);
    }
    n == bytes.len()
}

/// Appends the UTF-8 encoding of a character.
pub fn append_scalar(out: &mut Vec<u8>, scalar: u32)
    requires
        is_scalar(scalar),
    ensures
        final(out)@ == old(out)@ + encode_scalar(scalar),
{
    let ghost before = out@;
    if scalar <= 0x7f {
        out.push((scalar & 0x7F) as u8);
    } else if scalar <= 0x7ff {
        out.push(0xC0 | ((scalar >> 6) & 0x1F) as u8);
        out.push(0x80 | (scalar & 0x3F) as u8);
    } else if scalar <= 0xffff {
        out.push(0xE0 | ((scalar >> 12) & 0x0F) as u8);
        out.push(0x80 | ((scalar >> 6) & 0x3F) as u8);
        out.push(0x80 | (scalar & 0x3F) as u8);
    } else {
        out.push(0xF0 | ((scalar >> 18) & 0x7) as u8);
        out.push(0x80 | ((scalar >> 12) & 0x3F) as u8);
        out.push(0x80 | ((scalar >> 6) & 0x3F) as u8);
        out.push(0x80 | (scalar & 0x3F) as u8);
    }
    assert(out@ =~= before + encode_scalar(scalar));
}

} // verus!

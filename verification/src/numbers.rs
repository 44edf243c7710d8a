//! Decimal and hexadecimal numbers as bytes.

use vstd::prelude::*;

verus! {

/// Whether the byte is an ASCII digit.
pub open spec fn is_digit(byte: u8) -> bool {
    0x30 <= byte <= 0x39
}

/// Whether every byte is an ASCII digit.
pub open spec fn all_digits(s: Seq<u8>) -> bool {
    forall|i: int| 0 <= i < s.len() ==> is_digit(#[trigger] s[i])
}

/// The number that the digits `s` stand for.
pub open spec fn digits_value(s: Seq<u8>) -> nat
    decreases s.len(),
{
    if s.len() == 0 {
        0
    } else {
        10 * digits_value(s.drop_last()) + (s.last() - 0x30) as nat
    }
}

/// The digits of an unsigned number: what is left behind a plus sign.
pub open spec fn unsigned_digits(s: Seq<u8>) -> Seq<u8> {
    if s.len() > 0 && s[0] == 0x2b {
        s.skip(1)
    } else {
        s
    }
}

/// The number that `s` stands for, if it is one of sixteen bits: one or more
/// digits behind an optional plus sign.
pub open spec fn u16_value(s: Seq<u8>) -> Option<u16> {
    let digits = unsigned_digits(s);
    if digits.len() > 0 && all_digits(digits) && digits_value(digits) <= u16::MAX {
        Some(digits_value(digits) as u16)
    } else {
        None
    }
}

/// The decimal digits of `n`, without leading zeros.
pub open spec fn decimal(n: nat) -> Seq<u8>
    decreases n,
{
    if n < 10 {
        seq![(0x30 + n) as u8]
    } else {
        decimal(n / 10).push((0x30 + n % 10) as u8)
    }
}

/// The decimal digits of `n`, behind a minus sign where it is negative.
pub open spec fn signed_decimal(n: int) -> Seq<u8> {
    if n < 0 {
        seq![0x2d] + decimal((-n) as nat)
    } else {
        decimal(n as nat)
    }
}

/// A lower case hexadecimal digit.
pub open spec fn hex_digit(n: nat) -> u8 {
    if n < 10 {
        (0x30 + n) as u8
    } else {
        (0x57 + n) as u8
    }
}

/// The lower case hexadecimal digits of `n`, without leading zeros.
pub open spec fn hexadecimal(n: nat) -> Seq<u8>
    decreases n,
{
    if n < 16 {
        seq![hex_digit(n)]
    } else {
        hexadecimal(n / 16).push(hex_digit(n % 16))
    }
}

/// Reads a number of sixteen bits.
pub fn parse_u16(bytes: &[u8]) -> (r: Option<u16>)
    ensures
        r == u16_value(bytes@),
{
    let start: usize = if bytes.len() > 0 && bytes[0] == 0x2b {
        1
    } else {
        0
    };
    let ghost digits = unsigned_digits(bytes@);
    assert(digits =~= bytes@.skip(start as int));
    if start == bytes.len() {
        return None;
    }
    let mut value: u32 = 0;
    let mut too_large = false;
    let mut i: usize = start;
    assert(digits.take(0) =~= Seq::<u8>::empty());
    while i < bytes.len()
        invariant
            start <= i <= bytes@.len(),
            digits == bytes@.skip(start as int),
            digits == unsigned_digits(bytes@),
            forall|k: int| 0 <= k < i - start ==> is_digit(#[trigger] digits[k]),
            too_large ==> digits_value(digits.take(i - start)) > u16::MAX,
            !too_large ==> value == digits_value(digits.take(i - start)) && value <= u16::MAX,
        decreases bytes@.len() - i,
    {
        let byte: u8 = bytes[i];
        let ghost k = i - start;
        assert(digits[k] == byte);
        if byte < 0x30 || byte > 0x39 {
            assert(!all_digits(digits));
            return None;
        }
        assert(digits.take(k + 1).drop_last() =~= digits.take(k));
        if !too_large {
            value = value * 10 + (byte - 0x30) as u32;
            if value > 0xffff {
                too_large = true;
            }
        }
        i = i + 1;
    }
    assert(digits.take(digits.len() as int) =~= digits);
    if too_large {
        None
    } else {
        Some(value as u16)
    }
}

/// Appends the decimal digits of a number.
pub fn append_decimal(out: &mut Vec<u8>, n: u32)
    ensures
        final(out)@ == old(out)@ + decimal(n as nat),
    decreases n,
{
    let ghost before = out@;
    if n >= 10 {
        append_decimal(out, n / 10);
    }
    out.push(0x30 + (n % 10) as u8);
    assert(out@ =~= before + decimal(n as nat));
}

/// Appends the decimal digits of a number, behind a minus sign where it is negative.
pub fn append_signed_decimal(out: &mut Vec<u8>, n: i32)
    requires
        n > i32::MIN,
    ensures
        final(out)@ == old(out)@ + signed_decimal(n as int),
{
    let ghost before = out@;
    if n < 0 {
        out.push(0x2d);
        append_decimal(out, (-n) as u32);
    } else {
        append_decimal(out, n as u32);
    }
    assert(out@ =~= before + signed_decimal(n as int));
}

/// Appends the lower case hexadecimal digits of a number.
pub fn append_hexadecimal(out: &mut Vec<u8>, n: u32)
    ensures
        final(out)@ == old(out)@ + hexadecimal(n as nat),
    decreases n,
{
    let ghost before = out@;
    if n >= 16 {
        append_hexadecimal(out, n / 16);
    }
    let digit: u8 = (n % 16) as u8;
    out.push(if digit < 10 { 0x30 + digit } else { 0x57 + digit });
    assert(out@ =~= before + hexadecimal(n as nat));
}

/// Reading the decimal digits of a number of sixteen bits gives the number back.
pub proof fn law_decimal_reads_back(n: u16)
    ensures
        u16_value(decimal(n as nat)) == Some(n),
{
    lemma_decimal(n as nat);
}

/// The decimal digits of a number are digits, at least one, and stand for it.
pub proof fn lemma_decimal(n: nat)
    ensures
        decimal(n).len() > 0,
        all_digits(decimal(n)),
        digits_value(decimal(n)) == n,
    decreases n,
{
    if n < 10 {
        assert(decimal(n).drop_last() =~= Seq::<u8>::empty());
        assert(digits_value(decimal(n).drop_last()) == 0);
    } else {
        lemma_decimal(n / 10);
        assert(decimal(n).drop_last() =~= decimal(n / 10));
    }
}

/// Hexadecimal digits are ASCII.
pub proof fn lemma_hexadecimal_is_ascii(n: nat)
    ensures
        forall|i: int| 0 <= i < hexadecimal(n).len() ==> #[trigger] hexadecimal(n)[i] < 0x80,
    decreases n,
{
    if n >= 16 {
        lemma_hexadecimal_is_ascii(n / 16);
        let init = hexadecimal(n / 16);
        assert forall|i: int| 0 <= i < hexadecimal(n).len() implies #[trigger] hexadecimal(n)[i]
            < 0x80 by {
            if i < init.len() {
                assert(hexadecimal(n)[i] == init[i]);
            } else {
                assert(hexadecimal(n)[i] == hex_digit(n % 16));
            }
        }
    }
}

/// The digits of a number, behind a minus sign or not, hold nothing but digits and that
/// sign.
pub proof fn lemma_signed_decimal(n: int)
    ensures
        signed_decimal(n).len() > 0,
        forall|i: int|
            0 <= i < signed_decimal(n).len() ==> is_digit(#[trigger] signed_decimal(n)[i])
                || signed_decimal(n)[i] == 0x2d,
{
    let size = if n < 0 {
        -n
    } else {
        n
    };
    lemma_decimal(size as nat);
    if n < 0 {
        assert forall|i: int| 0 <= i < signed_decimal(n).len() implies is_digit(
            #[trigger] signed_decimal(n)[i],
        ) || signed_decimal(n)[i] == 0x2d by {
            if i > 0 {
                assert(signed_decimal(n)[i] == decimal(size as nat)[i - 1]);
            }
        }
    }
}

/// The digits of a number have no zero before them, and each counts ten times the one
/// behind it: adding a digit at the end makes the number ten times as large and adds the
/// digit.
pub proof fn law_decimal_places(n: nat, digit: nat)
    requires
        digit < 10,
    ensures
        n > 0 ==> decimal(n)[0] != 0x30,
        n > 0 ==> decimal(10 * n + digit) == decimal(n).push((0x30 + digit) as u8),
        decimal(digit) == seq![(0x30 + digit) as u8],
    decreases n,
{
    lemma_decimal(n);
    if n >= 10 {
        law_decimal_places(n / 10, 0);
        lemma_decimal(n / 10);
    }
    if n > 0 {
        assert((10 * n + digit) / 10 == n && (10 * n + digit) % 10 == digit);
    }
}

/// A negative number has a minus sign before the digits of its size, and no other
/// number has a sign.
pub proof fn law_minus_sign(n: nat)
    ensures
        signed_decimal(n as int) == decimal(n),
        n > 0 ==> signed_decimal(-n) == seq![0x2du8] + decimal(n),
{
}

/// Each digit counts ten times the one behind it.
pub proof fn law_digit_places(s: Seq<u8>, digit: u8)
    requires
        0x30 <= digit <= 0x39,
    ensures
        digits_value(s.push(digit)) == 10 * digits_value(s) + (digit - 0x30),
        digits_value(Seq::<u8>::empty()) == 0,
{
    assert(s.push(digit).drop_last() =~= s);
}

/// Zeros before a number and one plus sign change nothing, and it is a number of sixteen
/// bits exactly if there are digits and nothing else, and it is not beyond 65535.
pub proof fn law_number_is_read_from_its_digits(s: Seq<u8>)
    ensures
        u16_value(s) is Some && s[0] != 0x2b ==> u16_value(seq![0x30u8] + s) == u16_value(s),
        s.len() > 0 && s[0] != 0x2b ==> u16_value(seq![0x2bu8] + s) == u16_value(s),
        s.len() > 0 && s[0] != 0x2b ==> (u16_value(s) is Some <==> digits_value(s) <= 65535
            && forall|i: int| 0 <= i < s.len() ==> 0x30 <= #[trigger] s[i] <= 0x39),
        s.len() > 0 && s[0] != 0x2b && u16_value(s) is Some ==> u16_value(s).unwrap()
            == digits_value(s),
        s.len() == 0 ==> u16_value(s) is None,
        s == seq![0x2bu8] ==> u16_value(s) is None,
        s.len() > 1 && s[0] == 0x2b && s[1] == 0x2b ==> u16_value(s) is None,
{
    assert((seq![0x2bu8] + s).skip(1) =~= s);
    if u16_value(s) is Some && s[0] != 0x2b {
        let zero = seq![0x30u8] + s;
        lemma_leading_zero(s);
        assert(zero[0] == 0x30);
        assert forall|i: int| 0 <= i < zero.len() implies is_digit(#[trigger] zero[i]) by {
            if i > 0 {
                assert(zero[i] == s[i - 1]);
            }
        }
    }
    if s.len() > 0 && s[0] != 0x2b {
        assert(unsigned_digits(s) == s);
        if forall|i: int| 0 <= i < s.len() ==> 0x30 <= #[trigger] s[i] <= 0x39 {
            assert(all_digits(s));
        }
        if u16_value(s) is Some {
            assert forall|i: int| 0 <= i < s.len() implies 0x30 <= #[trigger] s[i] <= 0x39 by {
                assert(is_digit(s[i]));
            }
        }
    }
    if s.len() > 1 && s[0] == 0x2b && s[1] == 0x2b {
        assert(s.skip(1)[0] == 0x2b);
        assert(!is_digit(s.skip(1)[0]));
    }
}

/// A zero before a number does not count.
proof fn lemma_leading_zero(s: Seq<u8>)
    ensures
        digits_value(seq![0x30u8] + s) == digits_value(s),
    decreases s.len(),
{
    let zero = seq![0x30u8] + s;
    if s.len() == 0 {
        assert(zero.drop_last() =~= s);
        assert(digits_value(zero.drop_last()) == 0);
    } else {
        assert(zero.drop_last() =~= seq![0x30u8] + s.drop_last());
        lemma_leading_zero(s.drop_last());
    }
}

/// The number that a lower case hexadecimal digit stands for.
pub open spec fn hex_digit_value(digit: u8) -> nat {
    if digit <= 0x39 {
        (digit - 0x30) as nat
    } else {
        (digit - 0x61 + 10) as nat
    }
}

/// The number that the lower case hexadecimal digits stand for.
pub open spec fn hex_value(s: Seq<u8>) -> nat
    decreases s.len(),
{
    if s.len() == 0 {
        0
    } else {
        16 * hex_value(s.drop_last()) + hex_digit_value(s.last())
    }
}

/// Reading the hexadecimal digits of a number gives the number back: they are digits and
/// the letters from a to f, at least one, without a zero before them.
pub proof fn law_hexadecimal_reads_back(n: nat)
    ensures
        hexadecimal(n).len() > 0,
        hex_value(hexadecimal(n)) == n,
        n > 0 ==> hexadecimal(n)[0] != 0x30,
        forall|i: int|
            0 <= i < hexadecimal(n).len() ==> 0x30 <= #[trigger] hexadecimal(n)[i] <= 0x39 || 0x61
                <= hexadecimal(n)[i] <= 0x66,
    decreases n,
{
    let s = hexadecimal(n);
    if n < 16 {
        assert(s.drop_last() =~= Seq::<u8>::empty());
        assert(hex_value(s.drop_last()) == 0);
    } else {
        law_hexadecimal_reads_back(n / 16);
        assert(s.drop_last() =~= hexadecimal(n / 16));
        assert(s.last() == hex_digit(n % 16));
        assert forall|i: int| 0 <= i < s.len() implies 0x30 <= #[trigger] s[i] <= 0x39 || 0x61
            <= s[i] <= 0x66 by {
            if i < s.len() - 1 {
                assert(s[i] == hexadecimal(n / 16)[i]);
            }
        }
    }
}

} // verus!

//! Unsigned decimal numerals over ASCII bytes.
use vstd::prelude::*;

verus! {

/// An ASCII decimal digit.
pub open spec fn is_digit(b: u8) -> bool {
    48 <= b <= 57
}

/// Every byte of `s` is an ASCII decimal digit.
pub open spec fn all_digits(s: Seq<u8>) -> bool {
    forall|k: int| 0 <= k < s.len() ==> is_digit(#[trigger] s[k])
}

/// The number that a string of digits denotes (leading zeros allowed).
pub open spec fn digits_value(s: Seq<u8>) -> nat
    decreases s.len(),
{
    if s.len() == 0 {
        0
    } else {
        digits_value(s.drop_last()) * 10 + (s.last() - 48) as nat
    }
}

/// The ASCII digit of a value below ten.
pub open spec fn digit_of(d: nat) -> u8 {
    (d + 48) as u8
}

/// The shortest decimal numeral of `n`, most significant digit first.
pub open spec fn decimal(n: nat) -> Seq<u8>
    decreases n,
{
    if n < 10 {
        seq![digit_of(n)]
    } else {
        decimal(n / 10).push(digit_of(n % 10))
    }
}

/// A numeral reads back as the number it was written for.
pub proof fn lemma_decimal_reads_back(n: nat)
    ensures
        decimal(n).len() >= 1,
        all_digits(decimal(n)),
        digits_value(decimal(n)) == n,
    decreases n,
{
    if n < 10 {
        let s = decimal(n);
        assert(s.drop_last() =~= Seq::<u8>::empty());
        assert(s.last() == n + 48);
        assert(digits_value(s) == digits_value(s.drop_last()) * 10 + (s.last() - 48) as nat);
        assert(digits_value(Seq::<u8>::empty()) == 0);
    } else {
        lemma_decimal_reads_back(n / 10);
        let s = decimal(n);
        assert(s.drop_last() =~= decimal(n / 10));
        assert(s.last() == n % 10 + 48);
        assert((n / 10) * 10 + n % 10 == n) by (nonlinear_arith);
        assert(digits_value(s) == digits_value(s.drop_last()) * 10 + (s.last() - 48) as nat);
        assert forall|k: int| 0 <= k < s.len() implies is_digit(#[trigger] s[k]) by {
            if k < s.len() - 1 {
                assert(s[k] == decimal(n / 10)[k]);
            }
        }
    }
}

/// Appends the decimal numeral of `n` to `out`.
pub fn push_decimal(out: &mut Vec<u8>, n: u64)
    ensures
        final(out)@ == old(out)@ + decimal(n as nat),
    decreases n,
{
    if n >= 10 {
        push_decimal(out, n / 10);
    }
    let d: u8 = (n % 10) as u8;
    out.push(48u8 + d);
    assert(final(out)@ =~= old(out)@ + decimal(n as nat));
}

/// Relies on atoi's `FromRadix10Checked::from_radix_10_checked` for `u32`: it
/// reads the longest prefix of ASCII digits, reports its length, and gives its
/// value, or `None` where that value does not fit in a `u32`.
#[verifier::external_body]
pub(crate) fn leading_u32(s: &[u8]) -> (r: (Option<u32>, usize))
    ensures
        r.1 <= s@.len(),
        all_digits(s@.take(r.1 as int)),
        r.1 < s@.len() ==> !is_digit(s@[r.1 as int]),
        r.0 == (if digits_value(s@.take(r.1 as int)) <= u32::MAX {
            Some(digits_value(s@.take(r.1 as int)) as u32)
        } else {
            None::<u32>
        }),
{
    <u32 as atoi::FromRadix10Checked>::from_radix_10_checked(s)
}

/// What a token denotes as a `u32`: a non-empty run of digits whose value fits.
pub open spec fn token_value(t: Seq<u8>) -> Option<u32> {
    if t.len() > 0 && all_digits(t) && digits_value(t) <= u32::MAX {
        Some(digits_value(t) as u32)
    } else {
        None
    }
}

/// Reads a whole token as an unsigned 32-bit decimal number: `None` for an
/// empty token, one with a byte that is not a digit, or one that overflows.
pub fn parse_u32(t: &[u8]) -> (r: Option<u32>)
    ensures
        r == token_value(t@),
{
    let (v, used) = leading_u32(t);
    if used == 0 || used < t.len() {
        proof {
            if used < t.len() {
                assert(!is_digit(t@[used as int]));
            }
        }
        None
    } else {
        assert(t@.take(used as int) =~= t@);
        v
    }
}

} // verus!

//! Decimal numerals over byte sequences: the value of a run of ASCII digit
//! bytes, the canonical digit string of a number, and the lemmas relating
//! the two.

use vstd::prelude::*;

verus! {

/// ASCII decimal digit.
pub open spec fn is_digit(b: u8) -> bool {
    48 <= b <= 57
}

/// Numeric value of one digit byte.
pub open spec fn digit_val(b: u8) -> nat
    recommends
        is_digit(b),
{
    (b - 48) as nat
}

/// Every byte of `s` is an ASCII digit.
pub open spec fn all_digits(s: Seq<u8>) -> bool {
    forall|i: int| 0 <= i < s.len() ==> is_digit(s[i])
}

/// Value of a digit string read left to right, most significant digit first.
pub open spec fn digits_value(s: Seq<u8>) -> nat
    recommends
        all_digits(s),
    decreases s.len(),
{
    if s.len() == 0 {
        0
    } else {
        digits_value(s.drop_last()) * 10 + digit_val(s.last())
    }
}

/// A digit string is canonical when it is non-empty, all digits, and has no
/// leading zero (except for the single digit `0` itself).
pub open spec fn canonical_digits(s: Seq<u8>) -> bool {
    &&& s.len() > 0
    &&& all_digits(s)
    &&& (s.len() > 1 ==> s[0] != 48)
}

/// The canonical decimal digit string of `n`.
pub open spec fn digits_of(n: nat) -> Seq<u8>
    decreases n,
{
    if n < 10 {
        seq![(48 + n) as u8]
    } else {
        digits_of(n / 10).push((48 + n % 10) as u8)
    }
}

/// `digits_of` always yields a canonical digit string, and a string that
/// starts with `0` only for the number zero itself.
pub proof fn lemma_digits_of_canonical(n: nat)
    ensures
        canonical_digits(digits_of(n)),
        n > 0 ==> digits_of(n)[0] != 48,
    decreases n,
{
    if n < 10 {
    } else {
        lemma_digits_of_canonical(n / 10);
    }
}

/// Appending one digit byte multiplies the value by ten and adds the digit.
pub proof fn lemma_digits_value_push(s: Seq<u8>, b: u8)
    ensures
        digits_value(s.push(b)) == digits_value(s) * 10 + digit_val(b),
{
    assert(s.push(b).drop_last() =~= s);
    assert(s.push(b).last() == b);
}

/// Reading back the canonical digit string of `n` yields `n`.
pub proof fn lemma_digits_of_value(n: nat)
    ensures
        digits_value(digits_of(n)) == n,
    decreases n,
{
    if n < 10 {
        assert(digits_of(n) =~= Seq::<u8>::empty().push((48 + n) as u8));
        lemma_digits_value_push(Seq::<u8>::empty(), (48 + n) as u8);
        assert(digit_val((48 + n) as u8) == n);
        assert(digits_value(Seq::<u8>::empty()) == 0);
        assert(digits_value(digits_of(n)) == n);
    } else {
        lemma_digits_of_value(n / 10);
        lemma_digits_value_push(digits_of(n / 10), (48 + n % 10) as u8);
        assert(digits_of(n) == digits_of(n / 10).push((48 + n % 10) as u8));
        assert(digit_val((48 + n % 10) as u8) == n % 10);
        assert(n / 10 * 10 + n % 10 == n);
        assert(digits_value(digits_of(n)) == n);
    }
}

/// Extending a digit range by one byte multiplies its value by ten and adds
/// the new digit.
pub proof fn lemma_digits_value_step(s: Seq<u8>, a: int, j: int)
    requires
        0 <= a <= j < s.len(),
    ensures
        digits_value(s.subrange(a, j + 1)) == digits_value(s.subrange(a, j)) * 10 + digit_val(
            s[j],
        ),
{
    assert(s.subrange(a, j + 1).drop_last() =~= s.subrange(a, j));
    assert(s.subrange(a, j + 1).last() == s[j]);
}

/// The value of a digit range never shrinks as the range grows to the right.
pub proof fn lemma_digits_value_mono(s: Seq<u8>, a: int, j: int, k: int)
    requires
        0 <= a <= j <= k <= s.len(),
    ensures
        digits_value(s.subrange(a, k)) >= digits_value(s.subrange(a, j)),
    decreases k - j,
{
    if j < k {
        lemma_digits_value_step(s, a, k - 1);
        lemma_digits_value_mono(s, a, j, k - 1);
    } else {
        assert(s.subrange(a, k) =~= s.subrange(a, j));
    }
}

/// Appends the canonical decimal digits of `n` to `out`.
pub fn push_digits(n: u64, out: &mut Vec<u8>)
    ensures
        final(out)@ == old(out)@ + digits_of(n as nat),
    decreases n,
{
    if n < 10 {
        out.push(48 + n as u8);
        assert(out@ =~= old(out)@ + digits_of(n as nat));
    } else {
        push_digits(n / 10, out);
        out.push(48 + (n % 10) as u8);
        assert(out@ =~= old(out)@ + digits_of(n as nat));
    }
}

} // verus!

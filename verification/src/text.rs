//! Byte-level text helpers shared by the record codec and the signal
//! decoder: whitespace classification, whitespace and digit scanning, and
//! trimming.

use vstd::prelude::*;
use crate::digits::is_digit;

verus! {

/// ASCII whitespace: space, tab, line feed, carriage return.
pub open spec fn is_ws(b: u8) -> bool {
    b == 32 || b == 9 || b == 10 || b == 13
}

/// Every byte of `s` is ASCII, so the bytes read as plain text.
pub open spec fn is_text(s: Seq<u8>) -> bool {
    forall|i: int| 0 <= i < s.len() ==> s[i] < 128
}

/// First index at or after `i` holding a non-whitespace byte, or the length
/// of `s` when only whitespace remains.
pub open spec fn skip_ws_from(s: Seq<u8>, i: int) -> int
    decreases s.len() - i,
{
    if 0 <= i < s.len() && is_ws(s[i]) {
        skip_ws_from(s, i + 1)
    } else {
        i
    }
}

/// Index one past the last non-whitespace byte strictly before `i`, or zero
/// when only whitespace precedes `i`.
pub open spec fn rskip_ws_from(s: Seq<u8>, i: int) -> int
    decreases i,
{
    if 0 < i <= s.len() && is_ws(s[i - 1]) {
        rskip_ws_from(s, i - 1)
    } else {
        i
    }
}

/// First index at or after `i` holding a non-digit byte, or the length of
/// `s` when only digits remain.
pub open spec fn skip_digits_from(s: Seq<u8>, i: int) -> int
    decreases s.len() - i,
{
    if 0 <= i < s.len() && is_digit(s[i]) {
        skip_digits_from(s, i + 1)
    } else {
        i
    }
}

/// `s` with leading and trailing ASCII whitespace removed.
pub open spec fn trimmed(s: Seq<u8>) -> Seq<u8> {
    let a = skip_ws_from(s, 0);
    let b = rskip_ws_from(s, s.len() as int);
    if a <= b {
        s.subrange(a, b)
    } else {
        Seq::empty()
    }
}

/// Scanning for whitespace stays within the sequence and stops at a
/// non-whitespace byte.
pub proof fn lemma_skip_ws_from_bounds(s: Seq<u8>, i: int)
    requires
        0 <= i <= s.len(),
    ensures
        i <= skip_ws_from(s, i) <= s.len(),
        forall|k: int| i <= k < skip_ws_from(s, i) ==> is_ws(s[k]),
        skip_ws_from(s, i) < s.len() ==> !is_ws(s[skip_ws_from(s, i)]),
    decreases s.len() - i,
{
    if i < s.len() && is_ws(s[i]) {
        lemma_skip_ws_from_bounds(s, i + 1);
    }
}

/// Scanning backwards over whitespace stays within bounds and stops just
/// past a non-whitespace byte.
pub proof fn lemma_rskip_ws_from_bounds(s: Seq<u8>, i: int)
    requires
        0 <= i <= s.len(),
    ensures
        0 <= rskip_ws_from(s, i) <= i,
        forall|k: int| rskip_ws_from(s, i) <= k < i ==> is_ws(s[k]),
        rskip_ws_from(s, i) > 0 ==> !is_ws(s[rskip_ws_from(s, i) - 1]),
    decreases i,
{
    if 0 < i && is_ws(s[i - 1]) {
        lemma_rskip_ws_from_bounds(s, i - 1);
    }
}

/// Scanning for digits stays within the sequence, covers digits only, and
/// stops at a non-digit byte.
pub proof fn lemma_skip_digits_from_bounds(s: Seq<u8>, i: int)
    requires
        0 <= i <= s.len(),
    ensures
        i <= skip_digits_from(s, i) <= s.len(),
        forall|k: int| i <= k < skip_digits_from(s, i) ==> is_digit(s[k]),
        skip_digits_from(s, i) < s.len() ==> !is_digit(s[skip_digits_from(s, i)]),
    decreases s.len() - i,
{
    if i < s.len() && is_digit(s[i]) {
        lemma_skip_digits_from_bounds(s, i + 1);
    }
}

/// Tests one byte for ASCII whitespace.
pub fn ws_byte(b: u8) -> (r: bool)
    ensures
        r == is_ws(b),
{
    b == 32 || b == 9 || b == 10 || b == 13
}

/// Tests one byte for an ASCII decimal digit.
pub fn digit_byte(b: u8) -> (r: bool)
    ensures
        r == is_digit(b),
{
    48 <= b && b <= 57
}

/// Advances `i` past any ASCII whitespace.
pub fn skip_ws(s: &[u8], i: usize) -> (j: usize)
    requires
        i <= s@.len(),
    ensures
        j == skip_ws_from(s@, i as int),
        i <= j <= s@.len(),
{
    let mut j: usize = i;
    while j < s.len() && ws_byte(s[j])
        invariant
            i <= j <= s@.len(),
            skip_ws_from(s@, i as int) == skip_ws_from(s@, j as int),
        decreases s@.len() - j,
    {
        j = j + 1;
    }
    j
}

/// Advances `i` past any ASCII decimal digits.
pub fn skip_digits(s: &[u8], i: usize) -> (j: usize)
    requires
        i <= s@.len(),
    ensures
        j == skip_digits_from(s@, i as int),
        i <= j <= s@.len(),
{
    let mut j: usize = i;
    while j < s.len() && digit_byte(s[j])
        invariant
            i <= j <= s@.len(),
            skip_digits_from(s@, i as int) == skip_digits_from(s@, j as int),
        decreases s@.len() - j,
    {
        j = j + 1;
    }
    j
}

} // verus!

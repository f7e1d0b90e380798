//! The score store: the persisted high-score record as bytes.
//!
//! The record schema is a single-field structured document,
//! `{"high_score":N}` with `N` a decimal integer, optional ASCII whitespace
//! between the tokens, and nothing else in the document. `encode_record`
//! produces the canonical form; `decode_record` accepts exactly the schema
//! and rejects everything else. Reading the record from disk and writing it
//! back are the hosting application's work; this module fixes what the bytes
//! mean.

use vstd::prelude::*;
use crate::digits::{
    all_digits,
    canonical_digits,
    digit_val,
    digits_of,
    digits_value,
    lemma_digits_of_canonical,
    lemma_digits_of_value,
    lemma_digits_value_mono,
    lemma_digits_value_step,
    push_digits,
};
use crate::text::{
    lemma_skip_digits_from_bounds,
    skip_digits,
    skip_digits_from,
    skip_ws,
    skip_ws_from,
};

verus! {

/// Failure of the score store: the persisted record does not follow the
/// schema.
#[derive(Clone, Copy, Debug, PartialEq, Eq, Structural)]
pub enum StoreError {
    MalformedRecord,
}

/// The quoted field name of the record, `"high_score"`, as bytes.
pub open spec fn record_key() -> Seq<u8> {
    seq![34u8, 104u8, 105u8, 103u8, 104u8, 95u8, 115u8, 99u8, 111u8, 114u8, 101u8, 34u8]
}

/// Everything of the canonical record before the digits: `{"high_score":`.
pub open spec fn record_prefix() -> Seq<u8> {
    seq![123u8] + record_key() + seq![58u8]
}

/// The token `tok` occurs in `s` starting at index `i`.
pub open spec fn matches_at(s: Seq<u8>, i: int, tok: Seq<u8>) -> bool {
    &&& 0 <= i
    &&& i + tok.len() <= s.len()
    &&& forall|j: int| 0 <= j < tok.len() ==> s[i + j] == tok[j]
}

/// The canonical encoding of a high score of `n`.
pub open spec fn spec_encode_record(n: u64) -> Seq<u8> {
    record_prefix() + digits_of(n as nat) + seq![125u8]
}

/// The value a record holds: `Some(n)` when the bytes follow the schema and
/// carry the value `n`, `None` otherwise. The scan is deterministic: optional
/// whitespace, `{`, the quoted key, `:`, a canonical digit run whose value
/// fits in a `u64`, `}`, optional whitespace, end of input.
pub open spec fn spec_decode_record(s: Seq<u8>) -> Option<u64> {
    let i0 = skip_ws_from(s, 0);
    if !(i0 < s.len() && s[i0] == 123) {
        None
    } else {
        let i1 = skip_ws_from(s, i0 + 1);
        if !matches_at(s, i1, record_key()) {
            None
        } else {
            let i2 = skip_ws_from(s, i1 + record_key().len());
            if !(i2 < s.len() && s[i2] == 58) {
                None
            } else {
                let i3 = skip_ws_from(s, i2 + 1);
                let i4 = skip_digits_from(s, i3);
                let d = s.subrange(i3, i4);
                if !canonical_digits(d) {
                    None
                } else if digits_value(d) > u64::MAX {
                    None
                } else {
                    let i5 = skip_ws_from(s, i4);
                    if !(i5 < s.len() && s[i5] == 125) {
                        None
                    } else if skip_ws_from(s, i5 + 1) != s.len() {
                        None
                    } else {
                        Some(digits_value(d) as u64)
                    }
                }
            }
        }
    }
}

/// Byte `j` of the quoted record key.
fn record_key_byte(j: usize) -> (b: u8)
    requires
        j < record_key().len(),
    ensures
        b == record_key()[j as int],
{
    let bytes: [u8; 12] = [34, 104, 105, 103, 104, 95, 115, 99, 111, 114, 101, 34];
    let b = bytes[j];
    b
}

/// Encodes `n` as the canonical persisted record `{"high_score":n}`.
pub fn encode_record(n: u64) -> (r: Vec<u8>)
    ensures
        r@ == spec_encode_record(n),
{
    let mut r: Vec<u8> = Vec::new();
    r.push(123);
    r.push(34);
    r.push(104);
    r.push(105);
    r.push(103);
    r.push(104);
    r.push(95);
    r.push(115);
    r.push(99);
    r.push(111);
    r.push(114);
    r.push(101);
    r.push(34);
    r.push(58);
    assert(r@ =~= record_prefix());
    push_digits(n, &mut r);
    r.push(125);
    assert(r@ =~= spec_encode_record(n));
    r
}

/// Decodes a persisted record, returning the high score it holds, or
/// `StoreError::MalformedRecord` exactly when the bytes do not follow the
/// schema.
#[verifier::loop_isolation(false)]
pub fn decode_record(s: &[u8]) -> (r: Result<u64, StoreError>)
    ensures
        match r {
            Ok(v) => spec_decode_record(s@) == Some(v),
            Err(e) => spec_decode_record(s@) is None && e == StoreError::MalformedRecord,
        },
{
    let n = s.len();
    let i0 = skip_ws(s, 0);
    if !(i0 < n && s[i0] == 123) {
        return Err(StoreError::MalformedRecord);
    }
    let i1 = skip_ws(s, i0 + 1);
    if n - i1 < 12 {
        assert(!matches_at(s@, i1 as int, record_key()));
        return Err(StoreError::MalformedRecord);
    }
    let mut j: usize = 0;
    while j < 12
        invariant
            i1 + 12 <= n == s@.len(),
            j <= 12,
            forall|k: int| 0 <= k < j ==> s@[i1 + k] == record_key()[k],
        decreases 12 - j,
    {
        if s[i1 + j] != record_key_byte(j) {
            assert(!matches_at(s@, i1 as int, record_key()));
            return Err(StoreError::MalformedRecord);
        }
        j = j + 1;
    }
    assert(matches_at(s@, i1 as int, record_key()));
    let i2 = skip_ws(s, i1 + 12);
    if !(i2 < n && s[i2] == 58) {
        return Err(StoreError::MalformedRecord);
    }
    let i3 = skip_ws(s, i2 + 1);
    let i4 = skip_digits(s, i3);
    proof {
        lemma_skip_digits_from_bounds(s@, i3 as int);
    }
    let ghost d = s@.subrange(i3 as int, i4 as int);
    if i4 == i3 {
        assert(!canonical_digits(d));
        return Err(StoreError::MalformedRecord);
    }
    if i4 - i3 > 1 && s[i3] == 48 {
        assert(d[0] == 48);
        assert(!canonical_digits(d));
        return Err(StoreError::MalformedRecord);
    }
    assert(all_digits(d));
    assert(canonical_digits(d));
    let mut acc: u64 = 0;
    let mut p: usize = i3;
    while p < i4
        invariant
            i3 <= p <= i4 <= n == s@.len(),
            forall|k: int| i3 <= k < i4 ==> crate::digits::is_digit(s@[k]),
            acc == digits_value(s@.subrange(i3 as int, p as int)),
        decreases i4 - p,
    {
        let b = s[p];
        let dv: u64 = (b - 48) as u64;
        proof {
            lemma_digits_value_step(s@, i3 as int, p as int);
            assert(digit_val(s@[p as int]) == dv);
        }
        let acc10 = match acc.checked_mul(10) {
            Some(m) => m,
            None => {
                proof {
                    lemma_digits_value_mono(s@, i3 as int, p as int + 1, i4 as int);
                }
                assert(digits_value(d) > u64::MAX);
                return Err(StoreError::MalformedRecord);
            },
        };
        acc = match acc10.checked_add(dv) {
            Some(v) => v,
            None => {
                proof {
                    lemma_digits_value_mono(s@, i3 as int, p as int + 1, i4 as int);
                }
                assert(digits_value(d) > u64::MAX);
                return Err(StoreError::MalformedRecord);
            },
        };
        p = p + 1;
    }
    assert(acc == digits_value(d));
    let i5 = skip_ws(s, i4);
    if !(i5 < n && s[i5] == 125) {
        return Err(StoreError::MalformedRecord);
    }
    let i6 = skip_ws(s, i5 + 1);
    if i6 != n {
        return Err(StoreError::MalformedRecord);
    }
    assert(spec_decode_record(s@) == Some(acc));
    Ok(acc)
}

/// Resolves the raw contents of the persisted record file to a high score:
/// an absent file (`None`) means no score was ever saved and resolves to
/// zero; present contents must follow the record schema.
pub fn load_record(contents: Option<Vec<u8>>) -> (r: Result<u64, StoreError>)
    ensures
        contents is None ==> r == Ok::<u64, StoreError>(0u64),
        match contents {
            Some(b) => match spec_decode_record(b@) {
                Some(v) => r == Ok::<u64, StoreError>(v),
                None => r == Err::<u64, StoreError>(StoreError::MalformedRecord),
            },
            None => true,
        },
{
    match contents {
        None => Ok(0),
        Some(b) => decode_record(b.as_slice()),
    }
}

/// A saved record always loads back as the value it was saved with: decoding
/// the canonical encoding of any high score `n` yields exactly `n`.
pub proof fn lemma_record_round_trip(n: u64)
    ensures
        spec_decode_record(spec_encode_record(n)) == Some(n),
{
    let s = spec_encode_record(n);
    let dn = digits_of(n as nat);
    lemma_digits_of_canonical(n as nat);
    lemma_digits_of_value(n as nat);
    assert(record_prefix().len() == 14);
    assert(s.len() == 15 + dn.len());
    assert(s[0] == 123);
    assert(skip_ws_from(s, 0) == 0);
    assert(forall|j: int| 0 <= j < 12 ==> s[1 + j] == record_key()[j]);
    assert(skip_ws_from(s, 1) == 1);
    assert(matches_at(s, 1, record_key()));
    assert(s[13] == 58);
    assert(skip_ws_from(s, 13) == 13);
    assert(forall|k: int| 14 <= k < 14 + dn.len() ==> s[k] == dn[k - 14]);
    assert(forall|k: int| 14 <= k < 14 + dn.len() ==> crate::digits::is_digit(s[k]));
    assert(s[14 + dn.len() as int] == 125);
    assert(skip_ws_from(s, 14) == 14);
    lemma_skip_digits_covers(s, 14, 14 + dn.len() as int);
    let i4 = 14 + dn.len() as int;
    assert(s.subrange(14, i4) =~= dn);
    assert(digits_value(dn) == n as nat);
    assert(skip_ws_from(s, i4) == i4);
    assert(skip_ws_from(s, i4 + 1) == s.len() as int);
    assert(spec_decode_record(s) == Some(n));
}

/// A digit scan started at the beginning of a digit run that ends at a
/// non-digit byte stops exactly at that byte.
proof fn lemma_skip_digits_covers(s: Seq<u8>, i: int, j: int)
    requires
        0 <= i <= j <= s.len(),
        forall|k: int| i <= k < j ==> crate::digits::is_digit(s[k]),
        j < s.len() ==> !crate::digits::is_digit(s[j]),
    ensures
        skip_digits_from(s, i) == j,
    decreases j - i,
{
    if i < j {
        lemma_skip_digits_covers(s, i + 1, j);
    }
}

} // verus!

//! The event relay: the single decision point between the signal listener,
//! the score store, and the hosting application.
//!
//! Each inbound item — a received datagram or a save request from the
//! application — maps to exactly one action for the application to perform:
//! emit an event on its bus, write the encoded record to disk, or drop the
//! item as malformed. The relay itself does no I/O; the hosting application
//! performs the actions.

use vstd::prelude::*;
use crate::digits::{
    all_digits,
    digit_val,
    digits_value,
    lemma_digits_value_mono,
    lemma_digits_value_step,
};
use crate::signal::{decode_datagram, event_name, event_name_of};
use crate::store::{encode_record, spec_encode_record};
use crate::text::{is_text, lemma_skip_digits_from_bounds, skip_digits, trimmed};

verus! {

/// One item handed to the relay.
pub enum RelayInput {
    /// A datagram payload received by the signal listener.
    Datagram(Vec<u8>),
    /// A save request from the application: the new high score as decimal
    /// text.
    SaveRequest(Vec<u8>),
}

/// The action the hosting application must perform for one relay input.
#[derive(Debug, PartialEq, Eq)]
pub enum RelayAction {
    /// Raise the named event on the application's event bus.
    EmitEvent(Vec<u8>),
    /// Write these bytes as the new persisted record.
    WriteRecord(Vec<u8>),
    /// The datagram was not a well-formed signal; drop it, keep listening.
    DropMalformedDatagram,
    /// The save request did not carry an unsigned integer; report and drop
    /// it, never interrupt the application.
    RejectSaveRequest,
}

/// The score a save request carries: an optional leading plus sign, then at
/// least one decimal digit, valid when the value fits in a `u64`.
pub open spec fn spec_parse_score(s: Seq<u8>) -> Option<u64> {
    let t = if s.len() > 0 && s[0] == 43 {
        s.subrange(1, s.len() as int)
    } else {
        s
    };
    if t.len() > 0 && all_digits(t) && digits_value(t) <= u64::MAX {
        Some(digits_value(t) as u64)
    } else {
        None
    }
}

/// The action owed for a received datagram: a well-formed signal is emitted
/// under its event name, a malformed one is dropped.
pub open spec fn datagram_action(d: Seq<u8>, act: RelayAction) -> bool {
    if is_text(d) && trimmed(d).len() > 0 {
        act matches RelayAction::EmitEvent(e) && e@ == event_name_of(trimmed(d))
    } else {
        act == RelayAction::DropMalformedDatagram
    }
}

/// The action owed for a save request: a parsable score is written as the
/// canonical record, anything else is rejected.
pub open spec fn save_action(s: Seq<u8>, act: RelayAction) -> bool {
    match spec_parse_score(s) {
        Some(n) => act matches RelayAction::WriteRecord(b) && b@ == spec_encode_record(n),
        None => act == RelayAction::RejectSaveRequest,
    }
}

/// The action owed for one relay input.
pub open spec fn action_for(input: RelayInput, act: RelayAction) -> bool {
    match input {
        RelayInput::Datagram(d) => datagram_action(d@, act),
        RelayInput::SaveRequest(s) => save_action(s@, act),
    }
}

/// Parses a save-request payload as an unsigned decimal score, exactly when
/// the payload is an optional plus sign followed by digits whose value fits
/// in a `u64`.
#[verifier::loop_isolation(false)]
pub fn parse_score(s: &[u8]) -> (r: Option<u64>)
    ensures
        r == spec_parse_score(s@),
{
    let n = s.len();
    let start: usize = if n > 0 && s[0] == 43 {
        1
    } else {
        0
    };
    let ghost t = if s@.len() > 0 && s@[0] == 43 {
        s@.subrange(1, s@.len() as int)
    } else {
        s@
    };
    assert(t =~= s@.subrange(start as int, n as int));
    if start == n {
        return None;
    }
    let stop = skip_digits(s, start);
    proof {
        lemma_skip_digits_from_bounds(s@, start as int);
    }
    if stop != n {
        assert(!crate::digits::is_digit(t[stop - start]));
        return None;
    }
    let mut acc: u64 = 0;
    let mut p: usize = start;
    while p < n
        invariant
            start <= p <= n,
            acc == digits_value(s@.subrange(start as int, p as int)),
        decreases n - p,
    {
        let dv: u64 = (s[p] - 48) as u64;
        proof {
            lemma_digits_value_step(s@, start as int, p as int);
            assert(digit_val(s@[p as int]) == dv);
        }
        let acc10 = match acc.checked_mul(10) {
            Some(m) => m,
            None => {
                proof {
                    lemma_digits_value_mono(s@, start as int, p as int + 1, n as int);
                }
                assert(digits_value(t) > u64::MAX);
                return None;
            },
        };
        acc = match acc10.checked_add(dv) {
            Some(v) => v,
            None => {
                proof {
                    lemma_digits_value_mono(s@, start as int, p as int + 1, n as int);
                }
                assert(digits_value(t) > u64::MAX);
                return None;
            },
        };
        p = p + 1;
    }
    assert(acc == digits_value(t));
    Some(acc)
}

/// Decides the action for one received datagram.
pub fn datagram_step(d: &[u8]) -> (act: RelayAction)
    ensures
        datagram_action(d@, act),
{
    match decode_datagram(d) {
        Ok(code) => RelayAction::EmitEvent(event_name(code.as_slice())),
        Err(_) => RelayAction::DropMalformedDatagram,
    }
}

/// Decides the action for one save request from the application.
pub fn save_step(s: &[u8]) -> (act: RelayAction)
    ensures
        save_action(s@, act),
{
    match parse_score(s) {
        Some(n) => RelayAction::WriteRecord(encode_record(n)),
        None => RelayAction::RejectSaveRequest,
    }
}

/// Decides the action for one relay input, whichever path it arrived on.
pub fn relay_step(input: RelayInput) -> (act: RelayAction)
    ensures
        action_for(input, act),
{
    match input {
        RelayInput::Datagram(d) => datagram_step(d.as_slice()),
        RelayInput::SaveRequest(s) => save_step(s.as_slice()),
    }
}

/// Decides the actions for a run of datagrams, in order: exactly one action
/// per datagram, and the action at each position is the one owed to the
/// datagram at the same position, so delivery order is preserved.
pub fn process_datagrams(datagrams: &Vec<Vec<u8>>) -> (acts: Vec<RelayAction>)
    ensures
        acts@.len() == datagrams@.len(),
        forall|i: int|
            0 <= i < datagrams@.len() ==> datagram_action(datagrams@[i]@, #[trigger] acts@[i]),
{
    let mut acts: Vec<RelayAction> = Vec::new();
    let mut i: usize = 0;
    while i < datagrams.len()
        invariant
            i <= datagrams@.len(),
            acts@.len() == i,
            forall|k: int| 0 <= k < i ==> datagram_action(datagrams@[k]@, #[trigger] acts@[k]),
        decreases datagrams@.len() - i,
    {
        acts.push(datagram_step(datagrams[i].as_slice()));
        i = i + 1;
    }
    acts
}

} // verus!

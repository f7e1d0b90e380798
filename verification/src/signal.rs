//! The signal decoder: raw datagram bytes become event names.
//!
//! A datagram is a short payload treated as plain text: every byte must be
//! ASCII, and surrounding whitespace is trimmed away. The trimmed bytes are
//! the signal code; the known one-byte jump code maps to the `jump` event,
//! any other code names its event verbatim.

use vstd::prelude::*;
use crate::text::{
    is_text,
    is_ws,
    lemma_rskip_ws_from_bounds,
    rskip_ws_from,
    skip_ws,
    trimmed,
    ws_byte,
};

verus! {

/// Failure to decode one datagram. Either way the datagram carries no event
/// and is dropped; the listener goes on with the next one.
#[derive(Clone, Copy, Debug, PartialEq, Eq, Structural)]
pub enum SignalError {
    /// A byte of the payload is not ASCII, so the payload is not text.
    NotText,
    /// The payload is all whitespace, so no event name remains.
    EmptySignal,
}

/// The one-byte signal code announcing a jump: `j`.
pub open spec fn jump_code() -> Seq<u8> {
    seq![106u8]
}

/// The event name raised for the jump code: `jump`.
pub open spec fn jump_event() -> Seq<u8> {
    seq![106u8, 117u8, 109u8, 112u8]
}

/// The event name a signal code stands for: the jump code maps to the jump
/// event, every other code names its event verbatim.
pub open spec fn event_name_of(code: Seq<u8>) -> Seq<u8> {
    if code == jump_code() {
        jump_event()
    } else {
        code
    }
}

/// Decodes one datagram payload into its signal code: the payload read as
/// ASCII text with surrounding whitespace trimmed. Returns an error for a
/// non-text payload or one that is empty after trimming; a malformed
/// datagram never stops the caller.
#[verifier::loop_isolation(false)]
pub fn decode_datagram(buf: &[u8]) -> (r: Result<Vec<u8>, SignalError>)
    ensures
        match r {
            Ok(code) => is_text(buf@) && trimmed(buf@).len() > 0 && code@ == trimmed(buf@),
            Err(SignalError::NotText) => !is_text(buf@),
            Err(SignalError::EmptySignal) => is_text(buf@) && trimmed(buf@).len() == 0,
        },
{
    let n = buf.len();
    let mut i: usize = 0;
    while i < n
        invariant
            i <= n,
            forall|k: int| 0 <= k < i ==> buf@[k] < 128,
        decreases n - i,
    {
        if buf[i] >= 128 {
            return Err(SignalError::NotText);
        }
        i = i + 1;
    }
    assert(is_text(buf@));
    let a = skip_ws(buf, 0);
    proof {
        lemma_rskip_ws_from_bounds(buf@, n as int);
    }
    if a == n {
        assert(trimmed(buf@).len() == 0);
        return Err(SignalError::EmptySignal);
    }
    assert(!is_ws(buf@[a as int])) by {
        crate::text::lemma_skip_ws_from_bounds(buf@, 0);
    }
    let mut b: usize = n;
    while b > 0 && ws_byte(buf[b - 1])
        invariant
            a < b <= n,
            rskip_ws_from(buf@, n as int) == rskip_ws_from(buf@, b as int),
        decreases b,
    {
        b = b - 1;
    }
    assert(b == rskip_ws_from(buf@, n as int));
    let mut code: Vec<u8> = Vec::new();
    let mut k = a;
    while k < b
        invariant
            a <= k <= b,
            code@ == buf@.subrange(a as int, k as int),
        decreases b - k,
    {
        code.push(buf[k]);
        assert(code@ =~= buf@.subrange(a as int, k + 1 as int));
        k = k + 1;
    }
    assert(code@ == trimmed(buf@));
    Ok(code)
}

/// Maps a signal code to the event name it stands for.
pub fn event_name(code: &[u8]) -> (r: Vec<u8>)
    ensures
        r@ == event_name_of(code@),
{
    if code.len() == 1 && code[0] == 106 {
        let mut r: Vec<u8> = Vec::new();
        r.push(106);
        r.push(117);
        r.push(109);
        r.push(112);
        assert(code@ =~= jump_code());
        assert(r@ =~= jump_event());
        r
    } else {
        assert(code@ != jump_code());
        let mut r: Vec<u8> = Vec::new();
        let mut k: usize = 0;
        while k < code.len()
            invariant
                k <= code@.len(),
                r@ == code@.subrange(0, k as int),
            decreases code@.len() - k,
        {
            r.push(code[k]);
            assert(r@ =~= code@.subrange(0, k + 1 as int));
            k = k + 1;
        }
        assert(r@ =~= code@);
        r
    }
}

} // verus!

//! Byte-level models of the serial conversation: the sentinel-terminated
//! read strategy, and the observable events reported to the presentation
//! layer. The blocking transport loops themselves live outside the library;
//! they feed the bytes they receive through these functions.

use vstd::prelude::*;
use vstd::string::StringExecFns;

use crate::data_types::EventPayload;

verus! {

/// The byte `>` that terminates a device response frame.
pub const SENTINEL: u8 = 0x3e;

/// Whether a sentinel byte occurs in `input`.
pub open spec fn has_sentinel(input: Seq<u8>) -> bool {
    exists|i: int| 0 <= i < input.len() && input[i] == SENTINEL
}

/// What one pass of the sentinel read strategy over available bytes
/// produced: the bytes accumulated before the sentinel, how many input
/// bytes were consumed (the sentinel included when found), and whether the
/// sentinel was seen.
pub struct SentinelReadResult {
    pub data: Vec<u8>,
    pub consumed: usize,
    pub complete: bool,
}

/// Runs the sentinel read strategy over a stream of received bytes: bytes
/// accumulate in order until the first `>`, which ends the frame and is
/// consumed but not stored; without a sentinel the whole stream accumulates
/// and the frame stays open.
pub fn process_sentinel_stream(input: &[u8]) -> (r: SentinelReadResult)
    ensures
        r.complete == has_sentinel(input@),
        r.complete ==> {
            &&& r.data@.len() < input@.len()
            &&& r.data@ == input@.take(r.data@.len() as int)
            &&& input@[r.data@.len() as int] == SENTINEL
            &&& r.consumed == r.data@.len() + 1
            &&& forall|j: int| 0 <= j < r.data@.len() ==> input@[j] != SENTINEL
        },
        !r.complete ==> r.data@ == input@ && r.consumed == input@.len(),
{
    let mut data: Vec<u8> = Vec::new();
    let mut i: usize = 0;
    while i < input.len()
        invariant
            i <= input@.len(),
            data@ =~= input@.take(i as int),
            forall|j: int| 0 <= j < i ==> input@[j] != SENTINEL,
        decreases input@.len() - i,
    {
        let b = input[i];
        if b == SENTINEL {
            return SentinelReadResult { data, consumed: i + 1, complete: true };
        }
        data.push(b);
        i = i + 1;
    }
    proof {
        assert(data@ =~= input@);
    }
    SentinelReadResult { data, consumed: input.len(), complete: false }
}

/// The payload reported to observers for a sentinel-terminated frame: the
/// accumulated bytes with the sentinel put back at the end.
pub fn sentinel_event_data(accumulated: &Vec<u8>) -> (r: Vec<u8>)
    ensures
        r@ == accumulated@.push(SENTINEL),
{
    let mut r = accumulated.clone();
    proof {
        assert(r@ =~= accumulated@);
    }
    r.push(SENTINEL);
    r
}

/// The observable event for bytes received from the device.
pub fn rx_event_payload(data: Vec<u8>) -> (r: EventPayload)
    ensures
        r.data_type@ == "RX"@,
        r.data@ == data@,
{
    EventPayload { data_type: String::from_str("RX"), data }
}

/// The observable event for bytes written to the device.
pub fn tx_event_payload(data: Vec<u8>) -> (r: EventPayload)
    ensures
        r.data_type@ == "TX"@,
        r.data@ == data@,
{
    EventPayload { data_type: String::from_str("TX"), data }
}

} // verus!

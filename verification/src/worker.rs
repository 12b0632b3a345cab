//! Worker-side protocol integrity.
//!
//! The worker entry point reads four header bytes, checks the count
//! here, reads the samples, runs the engine and answers on its output
//! stream. Every protocol violation — a zero count, a count over the
//! ceiling, a truncated stream — is answered with a structured error
//! response and a clean exit, never a crash; the worker reads or
//! allocates nothing for a buffer the check below has refused.

use crate::codec::MAX_SAMPLES;
use crate::response::{ResponseView, WorkerResponse};
use crate::text::{spec_decimal, u32_to_decimal};
use vstd::prelude::*;
use vstd::string::*;

verus! {

/// The message answering a count over the ceiling.
pub open spec fn spec_count_too_large_message(count: int) -> Seq<char> {
    "Sample count too large: "@ + spec_decimal(count) + " (max 9600000)"@
}

/// Check a request's sample count before anything is read or allocated
/// for it: the error response owed for a zero or oversized count, and
/// nothing for a count the worker must serve.
pub fn sample_count_guard(count: u32) -> (r: Option<WorkerResponse>)
    ensures
        count == 0 ==> (r matches Some(resp) && resp@ == (ResponseView::Error {
            message: "Empty audio buffer"@,
        })),
        count > MAX_SAMPLES ==> (r matches Some(resp) && resp@ == (ResponseView::Error {
            message: spec_count_too_large_message(count as int),
        })),
        0 < count <= MAX_SAMPLES ==> r is None,
{
    if count > MAX_SAMPLES {
        let mut msg = String::from_str("Sample count too large: ");
        let dec = u32_to_decimal(count);
        msg.append(dec.as_str());
        msg.append(" (max 9600000)");
        proof {
            reveal_strlit("Sample count too large: ");
            assert(msg@.len() > 0);
        }
        Some(WorkerResponse::error(msg))
    } else if count == 0 {
        proof {
            reveal_strlit("Empty audio buffer");
        }
        Some(WorkerResponse::error(String::from_str("Empty audio buffer")))
    } else {
        None
    }
}

} // verus!

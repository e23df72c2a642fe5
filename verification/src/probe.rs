//! The capability probe: what the answer to the metadata request says of the
//! resource.

use vstd::prelude::*;
use crate::text::{parse_u64, parsed_u64};

verus! {

/// The headers of interest in the answer to the metadata request.
#[derive(Clone, Debug, PartialEq, Eq)]
pub struct ProbeResponse {
    /// The bytes of the `Content-Length` value, if the header is there.
    pub content_length: Option<Vec<u8>>,
    /// The `Accept-Ranges` header is there.
    pub accept_ranges: bool,
}

/// What a successful probe found.
#[derive(Clone, Copy, Debug, PartialEq, Eq)]
pub struct ProbeReport {
    /// Length of the resource.
    pub total_length: u64,
    /// The server announced that it serves ranges. Where it did not, the run
    /// goes on all the same, with a warning.
    pub ranges_announced: bool,
}

/// Why a probe ends the run. No file has been touched by then.
#[derive(Clone, Copy, Debug, PartialEq, Eq)]
pub enum ProbeError {
    /// The request was not answered.
    ProbeFailed,
    /// The answer does not say how long the resource is.
    SizeUnknown,
    /// The answer gives a length that is no number.
    SizeInvalid,
}

/// A `ProbeResponse` as a mathematical value: the bytes of the length, and
/// whether ranges were announced.
pub open spec fn length_bytes(response: ProbeResponse) -> Option<Seq<u8>> {
    match response.content_length {
        Some(bytes) => Some(bytes@),
        None => None,
    }
}

/// What a probe comes to.
pub open spec fn probe_result(response: Option<ProbeResponse>) -> Result<ProbeReport, ProbeError> {
    match response {
        None => Err(ProbeError::ProbeFailed),
        Some(r) => match length_bytes(r) {
            None => Err(ProbeError::SizeUnknown),
            Some(bytes) => match parsed_u64(bytes) {
                None => Err(ProbeError::SizeInvalid),
                Some(n) => Ok(ProbeReport { total_length: n, ranges_announced: r.accept_ranges }),
            },
        },
    }
}

/// Judges the outcome of the metadata request: `None` where the request
/// failed, else the headers of the answer.
pub fn evaluate_probe(response: Option<&ProbeResponse>) -> (r: Result<ProbeReport, ProbeError>)
    ensures
        r == probe_result(
            match response {
                Some(p) => Some(*p),
                None => None,
            },
        ),
{
    match response {
        None => Err(ProbeError::ProbeFailed),
        Some(answer) => match &answer.content_length {
            None => Err(ProbeError::SizeUnknown),
            Some(bytes) => match parse_u64(bytes.as_slice()) {
                None => Err(ProbeError::SizeInvalid),
                Some(n) => Ok(ProbeReport { total_length: n, ranges_announced: answer.accept_ranges }),
            },
        },
    }
}

} // verus!

//! The ways in which the bytes of a capture can fall short.

use vstd::prelude::*;

verus! {

/// Why a capture was rejected. Each of these ends the whole decoding: no part
/// of a capture is handed out once one of them has been met.
#[derive(Clone, Copy, Debug, PartialEq, Eq, Structural)]
pub enum PcapError {
    /// The input ends before the global header is complete.
    TruncatedGlobalHeader,
    /// The input ends inside a record header: some of its bytes are there,
    /// but not all of them.
    TruncatedRecordHeader,
    /// A record header is complete, but the input holds fewer payload bytes
    /// than the header announces.
    TruncatedRecordPayload,
}

} // verus!

//! The global header that opens every capture.

use vstd::prelude::*;
use crate::endian::{le_i32, le_u16, le_u32};
use crate::endian::{read_le_i32, read_le_u16, read_le_u32};

verus! {

/// The number of bytes that the global header occupies.
pub const GLOBAL_HEADER_LEN: usize = 24;

/// The global header of a capture. No field is checked against any range:
/// what `magic_number` and `network` mean is left to the reader of the value.
#[derive(Clone, Copy, Debug, PartialEq, Eq, Structural)]
pub struct PcapHeader {
    /// Marker of the format.
    pub magic_number: u32,
    /// Major version of the format.
    pub version_major: u16,
    /// Minor version of the format.
    pub version_minor: u16,
    /// Correction from GMT to local time, in seconds.
    pub thiszone: i32,
    /// Accuracy of the timestamps.
    pub sigfigs: u32,
    /// The most bytes that were captured of any packet.
    pub snaplen: u32,
    /// The kind of link layer that the packets were captured on.
    pub network: u32,
}

impl Default for PcapHeader {
    /// The header whose fields are all zero.
    fn default() -> (header: Self)
        ensures
            header == (PcapHeader {
                magic_number: 0,
                version_major: 0,
                version_minor: 0,
                thiszone: 0,
                sigfigs: 0,
                snaplen: 0,
                network: 0,
            }),
    {
        PcapHeader {
            magic_number: 0,
            version_major: 0,
            version_minor: 0,
            thiszone: 0,
            sigfigs: 0,
            snaplen: 0,
            network: 0,
        }
    }
}

/// The global header that the first 24 bytes of `s` encode.
pub open spec fn global_header_of(s: Seq<u8>) -> PcapHeader
    recommends
        s.len() >= GLOBAL_HEADER_LEN,
{
    PcapHeader {
        magic_number: le_u32(s, 0) as u32,
        version_major: le_u16(s, 4) as u16,
        version_minor: le_u16(s, 6) as u16,
        thiszone: le_i32(s, 8) as i32,
        sigfigs: le_u32(s, 12) as u32,
        snaplen: le_u32(s, 16) as u32,
        network: le_u32(s, 20) as u32,
    }
}

/// Decodes a global header from the 24 bytes that hold it.
pub fn decode_global_header(bytes: &[u8]) -> (header: PcapHeader)
    requires
        bytes@.len() == GLOBAL_HEADER_LEN,
    ensures
        header == global_header_of(bytes@),
{
    PcapHeader {
        magic_number: read_le_u32(bytes, 0),
        version_major: read_le_u16(bytes, 4),
        version_minor: read_le_u16(bytes, 6),
        thiszone: read_le_i32(bytes, 8),
        sigfigs: read_le_u32(bytes, 12),
        snaplen: read_le_u32(bytes, 16),
        network: read_le_u32(bytes, 20),
    }
}

/// The global header depends on the first 24 bytes alone: cutting the input
/// anywhere behind them leaves it as it is.
pub proof fn lemma_global_header_prefix(s: Seq<u8>, k: int)
    requires
        GLOBAL_HEADER_LEN <= k <= s.len(),
    ensures
        global_header_of(s.take(k)) == global_header_of(s),
{
    assert forall|i: int| 0 <= i < 24 implies s.take(k)[i] == s[i] by {}
}

} // verus!

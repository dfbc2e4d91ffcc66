//! Packet records: a fixed header and the bytes that were captured.

use vstd::prelude::*;
use vstd::slice::slice_to_vec;
use crate::endian::{le_u32, read_le_u32};

verus! {

/// The number of bytes that a record header occupies.
pub const RECORD_HEADER_LEN: usize = 16;

/// The header of one packet record.
#[derive(Clone, Copy, Debug, PartialEq, Eq, Structural)]
pub struct PacketHeader {
    /// When the packet was captured: whole seconds.
    pub ts_sec: u32,
    /// When the packet was captured: the microseconds beyond `ts_sec`.
    pub ts_usec: u32,
    /// How many bytes of the packet the capture holds.
    pub incl_len: u32,
    /// How many bytes the packet had on the wire.
    pub orig_len: u32,
}

impl Default for PacketHeader {
    /// The header whose fields are all zero.
    fn default() -> (header: Self)
        ensures
            header == (PacketHeader { ts_sec: 0, ts_usec: 0, incl_len: 0, orig_len: 0 }),
    {
        PacketHeader { ts_sec: 0, ts_usec: 0, incl_len: 0, orig_len: 0 }
    }
}

/// The record header that the first 16 bytes of `s` encode.
pub open spec fn packet_header_of(s: Seq<u8>) -> PacketHeader
    recommends
        s.len() >= RECORD_HEADER_LEN,
{
    PacketHeader {
        ts_sec: le_u32(s, 0) as u32,
        ts_usec: le_u32(s, 4) as u32,
        incl_len: le_u32(s, 8) as u32,
        orig_len: le_u32(s, 12) as u32,
    }
}

/// Decodes a record header from the 16 bytes that hold it.
pub fn decode_packet_header(bytes: &[u8]) -> (header: PacketHeader)
    requires
        bytes@.len() == RECORD_HEADER_LEN,
    ensures
        header == packet_header_of(bytes@),
{
    PacketHeader {
        ts_sec: read_le_u32(bytes, 0),
        ts_usec: read_le_u32(bytes, 4),
        incl_len: read_le_u32(bytes, 8),
        orig_len: read_le_u32(bytes, 12),
    }
}

/// What a packet record is: its header and its payload.
pub struct PacketView {
    /// The record's header.
    pub header: PacketHeader,
    /// The captured bytes.
    pub payload: Seq<u8>,
}

/// One packet record. Its payload always has the length that its header
/// gives as `incl_len`.
#[derive(Debug)]
pub struct Packet {
    header: PacketHeader,
    data: Vec<u8>,
}

impl View for Packet {
    type V = PacketView;

    closed spec fn view(&self) -> PacketView {
        PacketView { header: self.header, payload: self.data@ }
    }
}

impl Default for Packet {
    /// The record with an all-zero header and no payload.
    fn default() -> (packet: Self)
        ensures
            packet@.header == (PacketHeader { ts_sec: 0, ts_usec: 0, incl_len: 0, orig_len: 0 }),
            packet@.payload == Seq::<u8>::empty(),
    {
        Packet {
            header: PacketHeader { ts_sec: 0, ts_usec: 0, incl_len: 0, orig_len: 0 },
            data: Vec::new(),
        }
    }
}

impl Packet {
    #[verifier::type_invariant]
    spec fn payload_as_announced(self) -> bool {
        self.data@.len() == self.header.incl_len
    }

    /// A record of `header` and `payload`, where the payload has the length
    /// that the header announces, and nothing otherwise.
    pub fn new(header: PacketHeader, payload: &[u8]) -> (packet: Option<Packet>)
        ensures
            payload@.len() == header.incl_len ==> packet.is_some() && packet.unwrap()@ == (
            PacketView { header, payload: payload@ }),
            payload@.len() != header.incl_len ==> packet.is_none(),
    {
        if payload.len() == header.incl_len as usize {
            Some(Self::assemble(header, payload))
        } else {
            None
        }
    }

    /// A record of `header` and a payload of the length that it announces.
    pub(crate) fn assemble(header: PacketHeader, payload: &[u8]) -> (packet: Packet)
        requires
            payload@.len() == header.incl_len,
        ensures
            packet@ == (PacketView { header, payload: payload@ }),
    {
        Packet { header, data: slice_to_vec(payload) }
    }

    /// The record's header.
    pub fn header(&self) -> (header: PacketHeader)
        ensures
            header == self@.header,
    {
        self.header
    }

    /// When the packet was captured: whole seconds.
    pub fn ts_sec(&self) -> (value: u32)
        ensures
            value == self@.header.ts_sec,
    {
        self.header.ts_sec
    }

    /// When the packet was captured: the microseconds beyond `ts_sec`.
    pub fn ts_usec(&self) -> (value: u32)
        ensures
            value == self@.header.ts_usec,
    {
        self.header.ts_usec
    }

    /// How many payload bytes the record holds.
    pub fn incl_len(&self) -> (value: u32)
        ensures
            value == self@.header.incl_len,
            value == self@.payload.len(),
    {
        proof {
            use_type_invariant(self);
        }
        self.header.incl_len
    }

    /// How many bytes the packet had on the wire.
    pub fn orig_len(&self) -> (value: u32)
        ensures
            value == self@.header.orig_len,
    {
        self.header.orig_len
    }

    /// The captured bytes.
    pub fn data(&self) -> (bytes: &[u8])
        ensures
            bytes@ == self@.payload,
            bytes@.len() == self@.header.incl_len,
    {
        proof {
            use_type_invariant(self);
        }
        self.data.as_slice()
    }
}

} // verus!

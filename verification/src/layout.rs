//! What a sequence of bytes holds when it is read as a capture.

use vstd::prelude::*;
use crate::error::PcapError;
use crate::header::{global_header_of, PcapHeader, GLOBAL_HEADER_LEN};
use crate::packet::{packet_header_of, Packet, PacketHeader, PacketView, RECORD_HEADER_LEN};

verus! {

/// The record header that stands at offset `at` of `s`.
pub open spec fn header_at(s: Seq<u8>, at: int) -> PacketHeader
    recommends
        0 <= at,
        at + RECORD_HEADER_LEN <= s.len(),
{
    packet_header_of(s.subrange(at, at + RECORD_HEADER_LEN))
}

/// The offset just behind the record that starts at `at`: behind its header
/// and the payload that the header announces.
pub open spec fn record_end(s: Seq<u8>, at: int) -> int
    recommends
        0 <= at,
        at + RECORD_HEADER_LEN <= s.len(),
{
    at + RECORD_HEADER_LEN + header_at(s, at).incl_len
}

/// What stands at an offset where a record may start.
pub enum RecordStep {
    /// Nothing: the bytes end exactly here.
    EndOfCapture,
    /// The beginning of a record that the bytes do not hold in full.
    Truncated(PcapError),
    /// A whole record.
    Record(PacketView),
}

/// What stands at offset `at` of `s`. Only an input that ends exactly at
/// `at` counts as the end of the capture; one that ends anywhere inside the
/// record is truncated.
pub open spec fn record_at(s: Seq<u8>, at: int) -> RecordStep {
    if at >= s.len() {
        RecordStep::EndOfCapture
    } else if at + RECORD_HEADER_LEN > s.len() {
        RecordStep::Truncated(PcapError::TruncatedRecordHeader)
    } else if record_end(s, at) > s.len() {
        RecordStep::Truncated(PcapError::TruncatedRecordPayload)
    } else {
        RecordStep::Record(
            PacketView {
                header: header_at(s, at),
                payload: s.subrange(at + RECORD_HEADER_LEN, record_end(s, at)),
            },
        )
    }
}

/// The records that `s` holds from offset `at` to its end, in the order of
/// their offsets, or the reason why the first incomplete record is so.
pub open spec fn records_from(s: Seq<u8>, at: int) -> Result<Seq<PacketView>, PcapError>
    decreases s.len() - at,
{
    match record_at(s, at) {
        RecordStep::EndOfCapture => Ok(Seq::empty()),
        RecordStep::Truncated(e) => Err(e),
        RecordStep::Record(first) => match records_from(s, record_end(s, at)) {
            Ok(rest) => Ok(seq![first] + rest),
            Err(e) => Err(e),
        },
    }
}

/// The capture that `s` holds: its global header and all its records, or
/// the reason why `s` is no capture.
pub open spec fn capture_of(s: Seq<u8>) -> Result<(PcapHeader, Seq<PacketView>), PcapError> {
    if s.len() < GLOBAL_HEADER_LEN {
        Err(PcapError::TruncatedGlobalHeader)
    } else {
        match records_from(s, GLOBAL_HEADER_LEN as int) {
            Ok(records) => Ok((global_header_of(s), records)),
            Err(e) => Err(e),
        }
    }
}

/// The records of `packets`, one for one and in the same order.
pub open spec fn packet_views(packets: Seq<Packet>) -> Seq<PacketView> {
    Seq::new(packets.len(), |i: int| packets[i]@)
}

/// Whether every record has a payload as long as its header announces.
pub open spec fn payloads_as_announced(records: Seq<PacketView>) -> bool {
    forall|i: int|
        0 <= i < records.len() ==> (#[trigger] records[i]).payload.len()
            == records[i].header.incl_len
}

/// `records` behind `front`, where there are any.
pub open spec fn prepend(front: Seq<PacketView>, records: Result<Seq<PacketView>, PcapError>)
    -> Result<Seq<PacketView>, PcapError> {
    match records {
        Ok(rest) => Ok(front + rest),
        Err(e) => Err(e),
    }
}

/// Reading the records from `at` is reading the record at `at` and then the
/// records behind it.
pub proof fn lemma_records_step(s: Seq<u8>, at: int, front: Seq<PacketView>)
    ensures
        match record_at(s, at) {
            RecordStep::EndOfCapture => prepend(front, records_from(s, at)) == Ok::<
                Seq<PacketView>,
                PcapError,
            >(front),
            RecordStep::Truncated(e) => prepend(front, records_from(s, at)) == Err::<
                Seq<PacketView>,
                PcapError,
            >(e),
            RecordStep::Record(first) => prepend(front, records_from(s, at)) == prepend(
                front.push(first),
                records_from(s, record_end(s, at)),
            ),
        },
{
    if record_at(s, at) is Record && records_from(s, record_end(s, at)) is Ok {
        let first = record_at(s, at)->Record_0;
        let rest = records_from(s, record_end(s, at))->Ok_0;
        assert(front + (seq![first] + rest) =~= front.push(first) + rest);
    }
}

} // verus!

//! The capture as a whole, and the functions that read it.

use vstd::prelude::*;
use crate::error::PcapError;
use crate::header::{decode_global_header, global_header_of, lemma_global_header_prefix};
use crate::header::{PcapHeader, GLOBAL_HEADER_LEN};
use crate::laws::law_payload_length_is_incl_len;
use crate::layout::{capture_of, header_at, lemma_records_step, packet_views};
use crate::layout::{payloads_as_announced, prepend, record_at, record_end, records_from};
use crate::layout::RecordStep;
use crate::packet::{decode_packet_header, Packet, PacketHeader, PacketView, RECORD_HEADER_LEN};
use crate::stream::{ByteStream, ReadOutcome};

verus! {

/// What is known of the file that a capture was read from.
#[derive(Clone, Copy, Debug, PartialEq, Eq, Structural)]
pub struct FileMetadata {
    /// The size of the file in bytes.
    pub len: u64,
    /// Whether the file may not be written to.
    pub readonly: bool,
    /// When the file was last modified, in seconds since the Unix epoch,
    /// where that is known.
    pub modified: Option<u64>,
}

/// A capture: its global header, its records in the order in which the
/// file holds them, and what is known of the file.
#[derive(Debug)]
pub struct PcapFile {
    /// The header that opens the capture.
    pub global_header: PcapHeader,
    /// The records, in file order.
    pub packets: Vec<Packet>,
    /// What is known of the file.
    pub metadata: FileMetadata,
}

impl PcapFile {
    /// The records of the capture, in file order.
    pub open spec fn records(&self) -> Seq<PacketView> {
        packet_views(self.packets@)
    }

    /// Whether `result` is what reading `contents` as a capture gives, for a
    /// file described by `metadata`: the whole capture that `contents`
    /// holds, or the reason why it holds none.
    pub open spec fn is_reading_of(
        result: Result<PcapFile, PcapError>,
        contents: Seq<u8>,
        metadata: FileMetadata,
    ) -> bool {
        match capture_of(contents) {
            Ok((header, records)) => {
                &&& result is Ok
                &&& result->Ok_0.global_header == header
                &&& result->Ok_0.records() == records
                &&& result->Ok_0.metadata == metadata
            },
            Err(e) => result is Err && result->Err_0 == e,
        }
    }

    /// Reads a capture from the contents of a file. Either the whole of
    /// `contents` is a capture, and it is returned with `metadata`, or
    /// nothing is returned but the reason.
    pub fn read_file(contents: &[u8], metadata: FileMetadata) -> (result: Result<
        PcapFile,
        PcapError,
    >)
        ensures
            Self::is_reading_of(result, contents@, metadata),
            result is Ok ==> payloads_as_announced(result->Ok_0.records()),
    {
        let mut stream = ByteStream::new(contents);
        let global_header = match Self::read_file_header(&mut stream) {
            Ok(header) => header,
            Err(e) => {
                return Err(e);
            },
        };
        proof {
            lemma_global_header_prefix(contents@, GLOBAL_HEADER_LEN as int);
        }
        match Self::read_packets(&mut stream) {
            Ok(packets) => Ok(PcapFile { global_header, packets, metadata }),
            Err(e) => Err(e),
        }
    }

    /// Reads the global header at the stream's position. With 24 bytes left
    /// they are consumed and decoded; with fewer, the stream is left
    /// exhausted and there is no capture.
    pub fn read_file_header(stream: &mut ByteStream) -> (result: Result<PcapHeader, PcapError>)
        ensures
            final(stream).source() == old(stream).source(),
            old(stream).offset() + GLOBAL_HEADER_LEN <= old(stream).source().len() ==> {
                &&& result == Ok::<PcapHeader, PcapError>(
                    global_header_of(
                        old(stream).source().subrange(
                            old(stream).offset() as int,
                            old(stream).offset() + GLOBAL_HEADER_LEN,
                        ),
                    ),
                )
                &&& final(stream).offset() == old(stream).offset() + GLOBAL_HEADER_LEN
            },
            old(stream).offset() + GLOBAL_HEADER_LEN > old(stream).source().len() ==> {
                &&& result == Err::<PcapHeader, PcapError>(PcapError::TruncatedGlobalHeader)
                &&& final(stream).offset() == old(stream).source().len()
            },
    {
        match stream.read_exact(GLOBAL_HEADER_LEN) {
            ReadOutcome::Full(bytes) => Ok(decode_global_header(bytes)),
            ReadOutcome::Partial => Err(PcapError::TruncatedGlobalHeader),
            ReadOutcome::NoData => Err(PcapError::TruncatedGlobalHeader),
        }
    }

    /// Reads records from the stream's position until the stream ends
    /// exactly behind a record. A stream that ends anywhere else gives the
    /// error of its last, incomplete record, and none of the records before
    /// it.
    pub fn read_packets(stream: &mut ByteStream) -> (result: Result<Vec<Packet>, PcapError>)
        ensures
            final(stream).source() == old(stream).source(),
            final(stream).offset() == old(stream).source().len(),
            match records_from(old(stream).source(), old(stream).offset() as int) {
                Ok(records) => result is Ok && packet_views(result->Ok_0@) == records,
                Err(e) => result is Err && result->Err_0 == e,
            },
            result is Ok ==> payloads_as_announced(packet_views(result->Ok_0@)),
    {
        let mut packets: Vec<Packet> = Vec::new();
        let ghost source = stream.source();
        let ghost start = stream.offset() as int;
        loop
            invariant
                source == old(stream).source(),
                start == old(stream).offset(),
                stream.source() == source,
                records_from(source, start) == prepend(
                    packet_views(packets@),
                    records_from(source, stream.offset() as int),
                ),
            decreases source.len() - stream.offset(),
        {
            let ghost at = stream.offset() as int;
            let ghost before = packet_views(packets@);
            proof {
                lemma_records_step(source, at, before);
            }
            match Self::read_packet(stream) {
                Ok(Some(packet)) => {
                    packets.push(packet);
                    proof {
                        assert(packet_views(packets@) =~= before.push(packet@));
                    }
                },
                Ok(None) => {
                    proof {
                        law_payload_length_is_incl_len(source, start);
                    }
                    return Ok(packets);
                },
                Err(e) => {
                    return Err(e);
                },
            }
        }
    }

    /// Reads the record at the stream's position: a record, `None` where
    /// the stream had nothing left, or the error of a record that the stream
    /// does not hold in full. Only a whole record leaves the stream behind
    /// that record; in the other cases the stream is left exhausted.
    pub fn read_packet(stream: &mut ByteStream) -> (result: Result<Option<Packet>, PcapError>)
        ensures
            final(stream).source() == old(stream).source(),
            match record_at(old(stream).source(), old(stream).offset() as int) {
                RecordStep::EndOfCapture => {
                    &&& result is Ok
                    &&& result->Ok_0 is None
                    &&& final(stream).offset() == old(stream).source().len()
                },
                RecordStep::Truncated(e) => {
                    &&& result is Err
                    &&& result->Err_0 == e
                    &&& final(stream).offset() == old(stream).source().len()
                },
                RecordStep::Record(record) => {
                    &&& result is Ok
                    &&& result->Ok_0 is Some
                    &&& result->Ok_0->Some_0@ == record
                    &&& final(stream).offset() == record_end(
                        old(stream).source(),
                        old(stream).offset() as int,
                    )
                },
            },
    {
        let header = match Self::read_packet_header(stream) {
            Ok(Some(header)) => header,
            Ok(None) => {
                return Ok(None);
            },
            Err(e) => {
                return Err(e);
            },
        };
        match stream.read_exact(header.incl_len as usize) {
            ReadOutcome::Full(bytes) => Ok(Some(Packet::assemble(header, bytes))),
            ReadOutcome::Partial => Err(PcapError::TruncatedRecordPayload),
            ReadOutcome::NoData => Err(PcapError::TruncatedRecordPayload),
        }
    }

    /// Reads the record header at the stream's position: the header where
    /// 16 bytes were left, `None` where none was, and an error where there
    /// were some, but fewer than 16.
    pub fn read_packet_header(stream: &mut ByteStream) -> (result: Result<
        Option<PacketHeader>,
        PcapError,
    >)
        ensures
            final(stream).source() == old(stream).source(),
            old(stream).offset() <= old(stream).source().len(),
            old(stream).offset() + RECORD_HEADER_LEN <= old(stream).source().len() ==> {
                &&& result == Ok::<Option<PacketHeader>, PcapError>(
                    Some(header_at(old(stream).source(), old(stream).offset() as int)),
                )
                &&& final(stream).offset() == old(stream).offset() + RECORD_HEADER_LEN
            },
            old(stream).offset() == old(stream).source().len() ==> {
                &&& result == Ok::<Option<PacketHeader>, PcapError>(None)
                &&& final(stream).offset() == old(stream).source().len()
            },
            old(stream).offset() < old(stream).source().len() < old(stream).offset()
                + RECORD_HEADER_LEN ==> {
                &&& result == Err::<Option<PacketHeader>, PcapError>(
                    PcapError::TruncatedRecordHeader,
                )
                &&& final(stream).offset() == old(stream).source().len()
            },
    {
        match stream.read_exact(RECORD_HEADER_LEN) {
            ReadOutcome::Full(bytes) => Ok(Some(decode_packet_header(bytes))),
            ReadOutcome::Partial => Err(PcapError::TruncatedRecordHeader),
            ReadOutcome::NoData => Ok(None),
        }
    }
}

} // verus!

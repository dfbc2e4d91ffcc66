//! What holds of every capture, proved from the layout.

use vstd::prelude::*;
use crate::error::PcapError;
use crate::file::{FileMetadata, PcapFile};
use crate::header::{global_header_of, lemma_global_header_prefix, PcapHeader, GLOBAL_HEADER_LEN};
use crate::layout::{capture_of, header_at, payloads_as_announced, record_at, record_end};
use crate::layout::{records_from, RecordStep};
use crate::encoding::{capture_bytes, global_header_bytes, packet_header_bytes};
use crate::encoding::{record_bytes, records_bytes};
use crate::encoding::{lemma_global_header_bytes_of, lemma_global_header_round_trip};
use crate::encoding::{lemma_packet_header_bytes_of, lemma_packet_header_round_trip};
use crate::endian::{le_i32, le_u16, le_u32};
use crate::packet::{packet_header_of, PacketView, RECORD_HEADER_LEN};

verus! {

/// The offset at which record `i` of `records` starts when the first of them
/// starts at `start` and each follows directly behind the one before: `start`
/// and the sizes of the records before it, each a 16-byte header and its
/// payload. For `i == records.len()` this is the offset behind the last.
pub open spec fn record_offset(records: Seq<PacketView>, start: int, i: int) -> int
    decreases i,
{
    if i <= 0 {
        start
    } else {
        record_offset(records, start, i - 1) + RECORD_HEADER_LEN
            + records[i - 1].header.incl_len
    }
}

/// The offsets of the records behind a first one are those of the whole
/// sequence, moved by one place.
proof fn lemma_offset_behind_first(first: PacketView, rest: Seq<PacketView>, start: int, i: int)
    requires
        0 <= i <= rest.len(),
    ensures
        record_offset(seq![first] + rest, start, i + 1) == record_offset(
            rest,
            start + RECORD_HEADER_LEN + first.header.incl_len,
            i,
        ),
    decreases i,
{
    let all = seq![first] + rest;
    if i == 0 {
        assert(record_offset(all, start, 0) == start);
    } else {
        lemma_offset_behind_first(first, rest, start, i - 1);
    }
}

/// A record header at `at` that a cut input still holds in full is the one
/// that the whole input has there.
proof fn lemma_header_survives_cut(s: Seq<u8>, at: int, k: int)
    requires
        0 <= at,
        at + RECORD_HEADER_LEN <= k <= s.len(),
    ensures
        header_at(s.take(k), at) == header_at(s, at),
        record_end(s.take(k), at) == record_end(s, at),
{
}

/// No decoded field loses anything of the bytes that it was read from: each
/// is the whole little-endian value of its bytes, `thiszone` the signed one.
pub proof fn law_fields_are_exact(s: Seq<u8>)
    ensures
        global_header_of(s).magic_number == le_u32(s, 0),
        global_header_of(s).version_major == le_u16(s, 4),
        global_header_of(s).version_minor == le_u16(s, 6),
        global_header_of(s).thiszone == le_i32(s, 8),
        global_header_of(s).sigfigs == le_u32(s, 12),
        global_header_of(s).snaplen == le_u32(s, 16),
        global_header_of(s).network == le_u32(s, 20),
        packet_header_of(s).ts_sec == le_u32(s, 0),
        packet_header_of(s).ts_usec == le_u32(s, 4),
        packet_header_of(s).incl_len == le_u32(s, 8),
        packet_header_of(s).orig_len == le_u32(s, 12),
{
}

/// Every record has a payload of exactly the length that its header gives as
/// `incl_len`.
pub proof fn law_payload_length_is_incl_len(s: Seq<u8>, start: int)
    requires
        0 <= start,
        records_from(s, start) is Ok,
    ensures
        payloads_as_announced(records_from(s, start)->Ok_0),
{
    let records = records_from(s, start)->Ok_0;
    assert forall|i: int| 0 <= i < records.len() implies (#[trigger] records[i]).payload.len()
        == records[i].header.incl_len by {
        law_records_in_offset_order(s, start, i);
    }
}

/// The records come in the order of their offsets, with nothing between
/// them: record `i` is the one that the input holds at the offset that the
/// records before it leave, and that offset grows with `i`.
pub proof fn law_records_in_offset_order(s: Seq<u8>, start: int, i: int)
    requires
        0 <= start,
        records_from(s, start) is Ok,
        0 <= i < records_from(s, start)->Ok_0.len(),
    ensures
        ({
            let records = records_from(s, start)->Ok_0;
            let at = record_offset(records, start, i);
            &&& start <= at < record_offset(records, start, i + 1) <= s.len()
            &&& record_offset(records, start, i + 1) == record_end(s, at)
            &&& records[i].header == header_at(s, at)
            &&& records[i].payload == s.subrange(at + RECORD_HEADER_LEN, record_end(s, at))
            &&& records[i].payload.len() == records[i].header.incl_len
        }),
    decreases i,
{
    let records = records_from(s, start)->Ok_0;
    let step = record_at(s, start);
    assert(step is Record);
    let first = step->Record_0;
    let next = record_end(s, start);
    let rest = records_from(s, next)->Ok_0;
    if i == 0 {
        assert(record_offset(records, start, 0) == start);
    } else {
        law_records_in_offset_order(s, next, i - 1);
        lemma_offset_behind_first(first, rest, start, i - 1);
        lemma_offset_behind_first(first, rest, start, i);
    }
}

/// The records leave no byte over: the offset behind the last record is the
/// end of the input.
pub proof fn law_records_cover_input(s: Seq<u8>, start: int)
    requires
        0 <= start <= s.len(),
        records_from(s, start) is Ok,
    ensures
        record_offset(records_from(s, start)->Ok_0, start, records_from(s, start)->Ok_0.len() as int)
            == s.len(),
    decreases s.len() - start,
{
    if record_at(s, start) is Record {
        let first = record_at(s, start)->Record_0;
        let next = record_end(s, start);
        let rest = records_from(s, next)->Ok_0;
        law_records_cover_input(s, next);
        lemma_offset_behind_first(first, rest, start, rest.len() as int);
    }
}

/// An input that is a global header and nothing more is a capture without
/// records.
pub proof fn law_header_alone_is_empty_capture(s: Seq<u8>)
    requires
        s.len() == GLOBAL_HEADER_LEN,
    ensures
        capture_of(s) == Ok::<(PcapHeader, Seq<PacketView>), PcapError>(
            (global_header_of(s), Seq::empty()),
        ),
{
}

/// An input with fewer bytes than a global header is no capture.
pub proof fn law_short_header_is_fatal(s: Seq<u8>)
    requires
        s.len() < GLOBAL_HEADER_LEN,
    ensures
        capture_of(s) == Err::<(PcapHeader, Seq<PacketView>), PcapError>(
            PcapError::TruncatedGlobalHeader,
        ),
{
}

/// Cutting well-formed records anywhere inside record `i` is fatal: inside
/// its header the cut gives `TruncatedRecordHeader`, behind the header and
/// before the end of the payload `TruncatedRecordPayload`. The records before
/// the cut are not handed out.
pub proof fn law_cut_inside_record_is_fatal(s: Seq<u8>, start: int, i: int, k: int)
    requires
        0 <= start,
        records_from(s, start) is Ok,
        0 <= i < records_from(s, start)->Ok_0.len(),
        record_offset(records_from(s, start)->Ok_0, start, i) < k < record_offset(
            records_from(s, start)->Ok_0,
            start,
            i + 1,
        ),
    ensures
        k < record_offset(records_from(s, start)->Ok_0, start, i) + RECORD_HEADER_LEN
            ==> records_from(s.take(k), start) == Err::<Seq<PacketView>, PcapError>(
            PcapError::TruncatedRecordHeader,
        ),
        k >= record_offset(records_from(s, start)->Ok_0, start, i) + RECORD_HEADER_LEN
            ==> records_from(s.take(k), start) == Err::<Seq<PacketView>, PcapError>(
            PcapError::TruncatedRecordPayload,
        ),
    decreases i,
{
    let records = records_from(s, start)->Ok_0;
    let step = record_at(s, start);
    assert(step is Record);
    let first = step->Record_0;
    let next = record_end(s, start);
    let rest = records_from(s, next)->Ok_0;
    assert(records == seq![first] + rest);
    assert(records[0] == first);
    law_records_in_offset_order(s, start, i);
    let cut = s.take(k);
    if i == 0 {
        assert(record_offset(records, start, 0) == start);
        if k >= start + RECORD_HEADER_LEN {
            lemma_header_survives_cut(s, start, k);
        }
    } else {
        lemma_offset_behind_first(first, rest, start, i - 1);
        lemma_offset_behind_first(first, rest, start, i);
        law_records_in_offset_order(s, next, i - 1);
        lemma_header_survives_cut(s, start, k);
        assert(record_at(cut, start) is Record);
        law_cut_inside_record_is_fatal(s, next, i - 1, k);
    }
}

/// Cutting well-formed records exactly where record `i` starts, or behind
/// the last record, leaves a well-formed input: the records before the cut.
pub proof fn law_cut_between_records_is_clean(s: Seq<u8>, start: int, i: int)
    requires
        0 <= start <= s.len(),
        records_from(s, start) is Ok,
        0 <= i <= records_from(s, start)->Ok_0.len(),
    ensures
        start <= record_offset(records_from(s, start)->Ok_0, start, i) <= s.len(),
        records_from(s.take(record_offset(records_from(s, start)->Ok_0, start, i)), start) == Ok::<
            Seq<PacketView>,
            PcapError,
        >(records_from(s, start)->Ok_0.take(i)),
    decreases i,
{
    let records = records_from(s, start)->Ok_0;
    let k = record_offset(records, start, i);
    if i == 0 {
        assert(records.take(0) =~= Seq::<PacketView>::empty());
    } else {
        let step = record_at(s, start);
        assert(step is Record);
        let first = step->Record_0;
        let next = record_end(s, start);
        let rest = records_from(s, next)->Ok_0;
        lemma_offset_behind_first(first, rest, start, i - 1);
        law_cut_between_records_is_clean(s, next, i - 1);
        lemma_header_survives_cut(s, start, k);
        let cut = s.take(k);
        assert(cut.subrange(start + RECORD_HEADER_LEN, next) =~= s.subrange(
            start + RECORD_HEADER_LEN,
            next,
        ));
        assert(seq![first] + rest.take(i - 1) =~= records.take(i));
    }
}

/// A capture cut exactly where record `i` starts, or behind its last record,
/// is a capture: the same global header and the records before the cut.
pub proof fn law_capture_cut_between_records(s: Seq<u8>, i: int)
    requires
        capture_of(s) is Ok,
        0 <= i <= capture_of(s)->Ok_0.1.len(),
    ensures
        GLOBAL_HEADER_LEN <= record_offset(capture_of(s)->Ok_0.1, GLOBAL_HEADER_LEN as int, i)
            <= s.len(),
        capture_of(s.take(record_offset(capture_of(s)->Ok_0.1, GLOBAL_HEADER_LEN as int, i)))
            == Ok::<(PcapHeader, Seq<PacketView>), PcapError>(
            (capture_of(s)->Ok_0.0, capture_of(s)->Ok_0.1.take(i)),
        ),
{
    let k = record_offset(capture_of(s)->Ok_0.1, GLOBAL_HEADER_LEN as int, i);
    law_cut_between_records_is_clean(s, GLOBAL_HEADER_LEN as int, i);
    lemma_global_header_prefix(s, k);
}

/// A capture cut inside one of its records is no capture, and the error
/// tells whether the cut fell inside the record's header or its payload.
pub proof fn law_truncated_capture_is_fatal(s: Seq<u8>, i: int, k: int)
    requires
        capture_of(s) is Ok,
        0 <= i < capture_of(s)->Ok_0.1.len(),
        record_offset(capture_of(s)->Ok_0.1, GLOBAL_HEADER_LEN as int, i) < k < record_offset(
            capture_of(s)->Ok_0.1,
            GLOBAL_HEADER_LEN as int,
            i + 1,
        ),
    ensures
        capture_of(s.take(k)) is Err,
        capture_of(s.take(k))->Err_0 == (if k < record_offset(
            capture_of(s)->Ok_0.1,
            GLOBAL_HEADER_LEN as int,
            i,
        ) + RECORD_HEADER_LEN {
            PcapError::TruncatedRecordHeader
        } else {
            PcapError::TruncatedRecordPayload
        }),
{
    law_records_in_offset_order(s, GLOBAL_HEADER_LEN as int, i);
    law_cut_inside_record_is_fatal(s, GLOBAL_HEADER_LEN as int, i, k);
}

/// The records from `at` on are the records of the bytes from `at` on:
/// what stands before a record has no part in it.
proof fn lemma_records_behind_prefix(s: Seq<u8>, at: int)
    requires
        0 <= at <= s.len(),
    ensures
        records_from(s, at) == records_from(s.skip(at), 0),
    decreases s.len() - at,
{
    let tail = s.skip(at);
    if at + RECORD_HEADER_LEN <= s.len() {
        let next = record_end(s, at);
        if next <= s.len() {
            assert(tail.subrange(RECORD_HEADER_LEN as int, next - at) =~= s.subrange(
                at + RECORD_HEADER_LEN,
                next,
            ));
            lemma_records_behind_prefix(s, next);
            lemma_records_behind_prefix(tail, next - at);
            assert(tail.skip(next - at) =~= s.skip(next));
        }
    }
}

/// Reading the bytes of records gives the records back, whatever they are,
/// as long as each payload has the length that its header announces.
pub proof fn law_records_of_their_bytes(records: Seq<PacketView>)
    requires
        payloads_as_announced(records),
    ensures
        records_from(records_bytes(records), 0) == Ok::<Seq<PacketView>, PcapError>(records),
    decreases records.len(),
{
    let s = records_bytes(records);
    if records.len() == 0 {
        assert(records =~= Seq::<PacketView>::empty());
    } else {
        let first = records[0];
        let rest = records.drop_first();
        let next = RECORD_HEADER_LEN + first.header.incl_len;
        lemma_packet_header_round_trip(first.header);
        assert(s.subrange(RECORD_HEADER_LEN as int, next) =~= first.payload);
        assert(payloads_as_announced(rest));
        law_records_of_their_bytes(rest);
        lemma_records_behind_prefix(s, next);
        assert(s.skip(next) =~= records_bytes(rest));
        assert(seq![first] + rest =~= records);
    }
}

/// The bytes of a record that was read are the bytes that it was read from.
proof fn lemma_record_bytes_at(s: Seq<u8>, at: int)
    requires
        0 <= at,
        record_at(s, at) is Record,
    ensures
        record_bytes(record_at(s, at)->Record_0) == s.subrange(at, record_end(s, at)),
{
    let first = record_at(s, at)->Record_0;
    let head = s.subrange(at, at + RECORD_HEADER_LEN);
    lemma_packet_header_bytes_of(head);
    assert(head + first.payload =~= s.subrange(at, record_end(s, at)));
}

/// Records that were read account for every byte: the bytes from where the
/// first record starts are the bytes of the records, one behind the other.
pub proof fn law_bytes_of_records(s: Seq<u8>, start: int)
    requires
        0 <= start <= s.len(),
        records_from(s, start) is Ok,
    ensures
        s.skip(start) == records_bytes(records_from(s, start)->Ok_0),
    decreases s.len() - start,
{
    let records = records_from(s, start)->Ok_0;
    if record_at(s, start) is Record {
        let first = record_at(s, start)->Record_0;
        let next = record_end(s, start);
        let rest = records_from(s, next)->Ok_0;
        law_bytes_of_records(s, next);
        lemma_record_bytes_at(s, start);
        assert(records == seq![first] + rest);
        assert(records.drop_first() =~= rest);
    }
}

/// Reading the bytes of a capture gives the capture back: any global header
/// and any records whose payloads have the lengths that their headers
/// announce.
pub proof fn law_capture_of_its_bytes(header: PcapHeader, records: Seq<PacketView>)
    requires
        payloads_as_announced(records),
    ensures
        capture_of(capture_bytes(header, records)) == Ok::<
            (PcapHeader, Seq<PacketView>),
            PcapError,
        >((header, records)),
{
    let s = capture_bytes(header, records);
    lemma_global_header_round_trip(header);
    lemma_global_header_prefix(s, GLOBAL_HEADER_LEN as int);
    assert(s.skip(GLOBAL_HEADER_LEN as int) =~= records_bytes(records));
    lemma_records_behind_prefix(s, GLOBAL_HEADER_LEN as int);
    law_records_of_their_bytes(records);
}

/// An input is a capture only if it is, byte for byte, the bytes of that
/// capture: nothing is skipped, nothing is read twice and nothing is left.
pub proof fn law_bytes_of_capture(s: Seq<u8>)
    requires
        capture_of(s) is Ok,
    ensures
        s == capture_bytes(capture_of(s)->Ok_0.0, capture_of(s)->Ok_0.1),
        payloads_as_announced(capture_of(s)->Ok_0.1),
{
    lemma_global_header_bytes_of(s);
    law_bytes_of_records(s, GLOBAL_HEADER_LEN as int);
    law_payload_length_is_incl_len(s, GLOBAL_HEADER_LEN as int);
}

/// Reading is a function of the contents and the metadata: two readings of
/// the same file both succeed or both fail, with the same header, the same
/// records in the same order and the same metadata, or with the same error.
pub proof fn law_reading_is_deterministic(
    contents: Seq<u8>,
    metadata: FileMetadata,
    one: Result<PcapFile, PcapError>,
    other: Result<PcapFile, PcapError>,
)
    requires
        PcapFile::is_reading_of(one, contents, metadata),
        PcapFile::is_reading_of(other, contents, metadata),
    ensures
        one is Ok <==> other is Ok,
        one is Ok ==> {
            &&& one->Ok_0.global_header == other->Ok_0.global_header
            &&& one->Ok_0.records() == other->Ok_0.records()
            &&& one->Ok_0.metadata == other->Ok_0.metadata
        },
        one is Err ==> one->Err_0 == other->Err_0,
{
}

} // verus!

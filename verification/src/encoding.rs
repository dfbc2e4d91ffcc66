//! The bytes that stand for a capture: the layout, written from the values
//! to the bytes.

use vstd::prelude::*;
use crate::endian::{le_i32, le_u16, le_u32};
use crate::header::{global_header_of, PcapHeader, GLOBAL_HEADER_LEN};
use crate::packet::{packet_header_of, PacketHeader, PacketView, RECORD_HEADER_LEN};

verus! {

/// The two bytes of `x`, least significant first.
pub open spec fn u16_bytes(x: u16) -> Seq<u8> {
    seq![(x % 256) as u8, (x / 256) as u8]
}

/// The four bytes of `x`, least significant first.
pub open spec fn u32_bytes(x: u32) -> Seq<u8> {
    seq![
        (x % 256) as u8,
        (x / 256 % 256) as u8,
        (x / 65536 % 256) as u8,
        (x / 16777216) as u8,
    ]
}

/// The four bytes of `x` in two's complement, least significant first.
pub open spec fn i32_bytes(x: i32) -> Seq<u8> {
    if x < 0 {
        u32_bytes((x + 0x1_0000_0000) as u32)
    } else {
        u32_bytes(x as u32)
    }
}

/// The 24 bytes of a global header.
pub open spec fn global_header_bytes(h: PcapHeader) -> Seq<u8> {
    u32_bytes(h.magic_number) + u16_bytes(h.version_major) + u16_bytes(h.version_minor)
        + i32_bytes(h.thiszone) + u32_bytes(h.sigfigs) + u32_bytes(h.snaplen) + u32_bytes(
        h.network,
    )
}

/// The 16 bytes of a record header.
pub open spec fn packet_header_bytes(h: PacketHeader) -> Seq<u8> {
    u32_bytes(h.ts_sec) + u32_bytes(h.ts_usec) + u32_bytes(h.incl_len) + u32_bytes(h.orig_len)
}

/// The bytes of a record: its header, then its payload.
pub open spec fn record_bytes(r: PacketView) -> Seq<u8> {
    packet_header_bytes(r.header) + r.payload
}

/// The bytes of records that follow one another.
pub open spec fn records_bytes(records: Seq<PacketView>) -> Seq<u8>
    decreases records.len(),
{
    if records.len() == 0 {
        Seq::empty()
    } else {
        record_bytes(records[0]) + records_bytes(records.drop_first())
    }
}

/// The bytes of a capture: its global header, then its records.
pub open spec fn capture_bytes(h: PcapHeader, records: Seq<PacketView>) -> Seq<u8> {
    global_header_bytes(h) + records_bytes(records)
}

/// Decoding the bytes of a global header gives the header back.
pub proof fn lemma_global_header_round_trip(h: PcapHeader)
    ensures
        global_header_bytes(h).len() == GLOBAL_HEADER_LEN,
        global_header_of(global_header_bytes(h)) == h,
{
    let b = global_header_bytes(h);
    assert(b.subrange(0, 4) =~= u32_bytes(h.magic_number));
    assert(b.subrange(4, 6) =~= u16_bytes(h.version_major));
    assert(b.subrange(6, 8) =~= u16_bytes(h.version_minor));
    assert(b.subrange(8, 12) =~= i32_bytes(h.thiszone));
    assert(b.subrange(12, 16) =~= u32_bytes(h.sigfigs));
    assert(b.subrange(16, 20) =~= u32_bytes(h.snaplen));
    assert(b.subrange(20, 24) =~= u32_bytes(h.network));
    lemma_field_values(b, 0);
    lemma_field_values(b, 4);
    lemma_field_values(b, 6);
    lemma_field_values(b, 8);
    lemma_field_values(b, 12);
    lemma_field_values(b, 16);
    lemma_field_values(b, 20);
}

/// The bytes of the global header that `s` encodes are its first 24 bytes.
pub proof fn lemma_global_header_bytes_of(s: Seq<u8>)
    requires
        s.len() >= GLOBAL_HEADER_LEN,
    ensures
        global_header_bytes(global_header_of(s)) == s.take(GLOBAL_HEADER_LEN as int),
{
    lemma_field_bytes(s, 0);
    lemma_field_bytes(s, 4);
    lemma_field_bytes(s, 6);
    lemma_field_bytes(s, 8);
    lemma_field_bytes(s, 12);
    lemma_field_bytes(s, 16);
    lemma_field_bytes(s, 20);
}

/// Decoding the bytes of a record header gives the header back.
pub proof fn lemma_packet_header_round_trip(h: PacketHeader)
    ensures
        packet_header_bytes(h).len() == RECORD_HEADER_LEN,
        packet_header_of(packet_header_bytes(h)) == h,
{
    let b = packet_header_bytes(h);
    assert(b.subrange(0, 4) =~= u32_bytes(h.ts_sec));
    assert(b.subrange(4, 8) =~= u32_bytes(h.ts_usec));
    assert(b.subrange(8, 12) =~= u32_bytes(h.incl_len));
    assert(b.subrange(12, 16) =~= u32_bytes(h.orig_len));
    lemma_field_values(b, 0);
    lemma_field_values(b, 4);
    lemma_field_values(b, 8);
    lemma_field_values(b, 12);
}

/// The bytes of the record header that `s` encodes are its first 16 bytes.
pub proof fn lemma_packet_header_bytes_of(s: Seq<u8>)
    requires
        s.len() >= RECORD_HEADER_LEN,
    ensures
        packet_header_bytes(packet_header_of(s)) == s.take(RECORD_HEADER_LEN as int),
{
    lemma_field_bytes(s, 0);
    lemma_field_bytes(s, 4);
    lemma_field_bytes(s, 8);
    lemma_field_bytes(s, 12);
}

/// Where the bytes at `at` are the bytes of a value, that value is what is
/// read there.
proof fn lemma_field_values(s: Seq<u8>, at: int)
    requires
        0 <= at,
    ensures
        forall|x: u16|
            at + 2 <= s.len() && s.subrange(at, at + 2) == #[trigger] u16_bytes(x) ==> le_u16(
                s,
                at,
            ) == x,
        forall|x: u32|
            at + 4 <= s.len() && s.subrange(at, at + 4) == #[trigger] u32_bytes(x) ==> le_u32(
                s,
                at,
            ) == x,
        forall|x: i32|
            at + 4 <= s.len() && s.subrange(at, at + 4) == #[trigger] i32_bytes(x) ==> le_i32(
                s,
                at,
            ) == x,
{
    assert forall|x: u16|
        at + 2 <= s.len() && s.subrange(at, at + 2) == #[trigger] u16_bytes(x) implies le_u16(
        s,
        at,
    ) == x by {
        let f = s.subrange(at, at + 2);
        assert(s[at] == f[0] && s[at + 1] == f[1]);
    }
    assert forall|x: u32|
        at + 4 <= s.len() && s.subrange(at, at + 4) == #[trigger] u32_bytes(x) implies le_u32(
        s,
        at,
    ) == x by {
        let f = s.subrange(at, at + 4);
        assert(s[at] == f[0] && s[at + 1] == f[1] && s[at + 2] == f[2] && s[at + 3] == f[3]);
    }
    assert forall|x: i32|
        at + 4 <= s.len() && s.subrange(at, at + 4) == #[trigger] i32_bytes(x) implies le_i32(
        s,
        at,
    ) == x by {
        let f = s.subrange(at, at + 4);
        assert(s[at] == f[0] && s[at + 1] == f[1] && s[at + 2] == f[2] && s[at + 3] == f[3]);
    }
}

/// The bytes of a little-endian number are its digits to the base 256.
proof fn lemma_digits(b0: u8, b1: u8, b2: u8, b3: u8)
    ensures
        (b0 + 256 * b1) % 256 == b0,
        (b0 + 256 * b1) / 256 == b1,
        (b0 + 256 * b1 + 65536 * b2 + 16777216 * b3) % 256 == b0,
        (b0 + 256 * b1 + 65536 * b2 + 16777216 * b3) / 256 % 256 == b1,
        (b0 + 256 * b1 + 65536 * b2 + 16777216 * b3) / 65536 % 256 == b2,
        (b0 + 256 * b1 + 65536 * b2 + 16777216 * b3) / 16777216 == b3,
{
}

/// The bytes of the value that is read at `at` are the bytes at `at`.
proof fn lemma_field_bytes(s: Seq<u8>, at: int)
    requires
        0 <= at,
    ensures
        at + 2 <= s.len() ==> u16_bytes(le_u16(s, at) as u16) == s.subrange(at, at + 2),
        at + 4 <= s.len() ==> u32_bytes(le_u32(s, at) as u32) == s.subrange(at, at + 4),
        at + 4 <= s.len() ==> i32_bytes(le_i32(s, at) as i32) == s.subrange(at, at + 4),
{
    if at + 2 <= s.len() {
        lemma_digits(s[at], s[at + 1], 0, 0);
        assert(u16_bytes(le_u16(s, at) as u16) =~= s.subrange(at, at + 2));
    }
    if at + 4 <= s.len() {
        lemma_digits(s[at], s[at + 1], s[at + 2], s[at + 3]);
        let unsigned = le_u32(s, at);
        let signed = le_i32(s, at) as i32;
        assert(u32_bytes(unsigned as u32) =~= s.subrange(at, at + 4));
        if signed < 0 {
            assert((signed + 0x1_0000_0000) as u32 == unsigned);
        } else {
            assert(signed as u32 == unsigned);
        }
    }
}

} // verus!

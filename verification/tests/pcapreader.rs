use rust_pcap::endian::{read_le_i32, read_le_u16, read_le_u32};
use rust_pcap::header::{decode_global_header, GLOBAL_HEADER_LEN};
use rust_pcap::packet::{decode_packet_header, RECORD_HEADER_LEN};
use rust_pcap::{ByteStream, FileMetadata, Packet, PacketHeader, PcapError, PcapFile, PcapHeader};
use rust_pcap::ReadOutcome;

/// The global header of an Ethernet capture, format 2.4, snapshot length 65535.
fn global_header_bytes() -> Vec<u8> {
    vec![
        0xD4, 0xC3, 0xB2, 0xA1, // magic_number
        0x02, 0x00, // version_major
        0x04, 0x00, // version_minor
        0x00, 0x00, 0x00, 0x00, // thiszone
        0x00, 0x00, 0x00, 0x00, // sigfigs
        0xFF, 0xFF, 0x00, 0x00, // snaplen
        0x01, 0x00, 0x00, 0x00, // network
    ]
}

fn push_u32(out: &mut Vec<u8>, value: u32) {
    out.push((value & 0xFF) as u8);
    out.push(((value >> 8) & 0xFF) as u8);
    out.push(((value >> 16) & 0xFF) as u8);
    out.push(((value >> 24) & 0xFF) as u8);
}

fn push_record(out: &mut Vec<u8>, ts_sec: u32, ts_usec: u32, orig_len: u32, payload: &[u8]) {
    push_u32(out, ts_sec);
    push_u32(out, ts_usec);
    push_u32(out, payload.len() as u32);
    push_u32(out, orig_len);
    out.extend_from_slice(payload);
}

/// The payload of the `i`-th record of `capture_bytes`: `i % 7 + 1` bytes.
fn payload_of(i: u32) -> Vec<u8> {
    let mut payload = Vec::new();
    let mut j = 0;
    while j < i % 7 + 1 {
        payload.push((i * 3 + j) as u8);
        j += 1;
    }
    payload
}

/// A well-formed capture of `count` records.
fn capture_bytes(count: u32) -> Vec<u8> {
    let mut out = global_header_bytes();
    let mut i = 0;
    while i < count {
        let payload = payload_of(i);
        push_record(&mut out, 1_700_000_000 + i, i * 10, 100 + i, &payload);
        i += 1;
    }
    out
}

fn metadata_for(contents: &[u8]) -> FileMetadata {
    FileMetadata { len: contents.len() as u64, readonly: false, modified: Some(1_700_000_500) }
}

fn read(contents: &[u8]) -> Result<PcapFile, PcapError> {
    PcapFile::read_file(contents, metadata_for(contents))
}

#[test]
fn test_packet_count() {
    let contents = capture_bytes(141);
    let pcap_file = read(&contents).unwrap();
    assert_eq!(141, pcap_file.packets.len());
}

#[test]
fn test_header() {
    let contents = capture_bytes(141);
    let pcap_file = read(&contents).unwrap();
    let test_header = PcapHeader {
        magic_number: 0xA1B2C3D4,
        version_major: 2,
        version_minor: 4,
        thiszone: 0,
        sigfigs: 0,
        snaplen: 65535,
        network: 1,
    };
    assert_eq!(test_header, pcap_file.global_header);
}

#[test]
fn every_payload_has_the_announced_length() {
    let contents = capture_bytes(141);
    let pcap_file = read(&contents).unwrap();
    for (i, packet) in pcap_file.packets.iter().enumerate() {
        assert_eq!(packet.data().len(), packet.incl_len() as usize);
        assert_eq!(packet.data().len(), i % 7 + 1);
    }
}

#[test]
fn records_come_in_file_order() {
    let contents = capture_bytes(20);
    let pcap_file = read(&contents).unwrap();
    assert_eq!(pcap_file.packets.len(), 20);
    for (i, packet) in pcap_file.packets.iter().enumerate() {
        let i = i as u32;
        assert_eq!(
            packet.header(),
            PacketHeader {
                ts_sec: 1_700_000_000 + i,
                ts_usec: i * 10,
                incl_len: i % 7 + 1,
                orig_len: 100 + i,
            }
        );
        assert_eq!(packet.ts_sec(), 1_700_000_000 + i);
        assert_eq!(packet.ts_usec(), i * 10);
        assert_eq!(packet.orig_len(), 100 + i);
        assert_eq!(packet.data(), &payload_of(i)[..]);
    }
}

#[test]
fn header_alone_is_an_empty_capture() {
    let contents = global_header_bytes();
    assert_eq!(contents.len(), 24);
    let pcap_file = read(&contents).unwrap();
    assert!(pcap_file.packets.is_empty());
    assert_eq!(pcap_file.global_header.snaplen, 65535);
}

#[test]
fn metadata_is_handed_through() {
    let contents = capture_bytes(2);
    let metadata = FileMetadata { len: 77, readonly: true, modified: None };
    let pcap_file = PcapFile::read_file(&contents, metadata).unwrap();
    assert_eq!(pcap_file.metadata, metadata);
}

#[test]
fn empty_input_has_no_global_header() {
    assert_eq!(read(&[]).err(), Some(PcapError::TruncatedGlobalHeader));
}

#[test]
fn short_global_header_is_fatal() {
    let contents = global_header_bytes();
    for k in 0..24 {
        assert_eq!(read(&contents[..k]).err(), Some(PcapError::TruncatedGlobalHeader));
    }
}

#[test]
fn cut_inside_a_record_header_is_fatal() {
    let two = capture_bytes(2);
    let three = capture_bytes(3);
    for present in 1..16 {
        let cut = &three[..two.len() + present];
        assert_eq!(read(cut).err(), Some(PcapError::TruncatedRecordHeader));
    }
}

#[test]
fn cut_inside_a_payload_is_fatal() {
    let mut contents = capture_bytes(2);
    let whole = contents.len();
    push_record(&mut contents, 5, 6, 9, &[1, 2, 3, 4, 5, 6, 7, 8, 9]);
    for present in 0..9 {
        let cut = &contents[..whole + 16 + present];
        assert_eq!(read(cut).err(), Some(PcapError::TruncatedRecordPayload));
    }
    assert_eq!(read(&contents).unwrap().packets.len(), 3);
}

#[test]
fn cut_between_records_keeps_the_records_before() {
    let three = capture_bytes(3);
    let five = capture_bytes(5);
    let pcap_file = read(&five[..three.len()]).unwrap();
    assert_eq!(pcap_file.packets.len(), 3);
    assert_eq!(pcap_file.packets[2].data(), &payload_of(2)[..]);
}

#[test]
fn any_cut_of_a_capture_is_clean_only_between_records() {
    let contents = capture_bytes(6);
    let mut boundaries = vec![24usize];
    for i in 0..6u32 {
        let last = *boundaries.last().unwrap();
        boundaries.push(last + 16 + (i % 7 + 1) as usize);
    }
    assert_eq!(*boundaries.last().unwrap(), contents.len());
    for k in 24..=contents.len() {
        let result = read(&contents[..k]);
        match boundaries.iter().position(|b| *b == k) {
            Some(i) => assert_eq!(result.unwrap().packets.len(), i),
            None => assert!(result.is_err()),
        }
    }
}

#[test]
fn oversized_length_field_is_a_truncated_payload() {
    let mut contents = global_header_bytes();
    push_u32(&mut contents, 1);
    push_u32(&mut contents, 2);
    push_u32(&mut contents, 0xFFFF_FFFF);
    push_u32(&mut contents, 3);
    contents.extend_from_slice(&[0u8; 40]);
    assert_eq!(read(&contents).err(), Some(PcapError::TruncatedRecordPayload));
}

#[test]
fn record_without_payload_is_a_record() {
    let mut contents = global_header_bytes();
    push_record(&mut contents, 9, 8, 60, &[]);
    push_record(&mut contents, 10, 0, 1, &[0xAB]);
    let pcap_file = read(&contents).unwrap();
    assert_eq!(pcap_file.packets.len(), 2);
    assert_eq!(pcap_file.packets[0].incl_len(), 0);
    assert_eq!(pcap_file.packets[0].orig_len(), 60);
    assert!(pcap_file.packets[0].data().is_empty());
    assert_eq!(pcap_file.packets[1].data(), &[0xAB]);
}

#[test]
fn incl_len_may_exceed_orig_len_and_snaplen() {
    let mut contents = global_header_bytes();
    contents[16] = 2;
    contents[17] = 0;
    push_record(&mut contents, 1, 1, 1, &[1, 2, 3, 4, 5]);
    let pcap_file = read(&contents).unwrap();
    assert_eq!(pcap_file.global_header.snaplen, 2);
    assert_eq!(pcap_file.packets[0].incl_len(), 5);
    assert_eq!(pcap_file.packets[0].orig_len(), 1);
}

#[test]
fn reading_twice_gives_equal_results() {
    let contents = capture_bytes(30);
    let one = read(&contents).unwrap();
    let other = read(&contents).unwrap();
    assert_eq!(one.global_header, other.global_header);
    assert_eq!(one.metadata, other.metadata);
    assert_eq!(one.packets.len(), other.packets.len());
    for i in 0..one.packets.len() {
        assert_eq!(one.packets[i].header(), other.packets[i].header());
        assert_eq!(one.packets[i].data(), other.packets[i].data());
    }
    let cut = &contents[..contents.len() - 1];
    assert_eq!(read(cut).err(), read(cut).err());
}

#[test]
fn swapped_magic_is_still_read_little_endian() {
    let mut contents = global_header_bytes();
    contents[0] = 0xA1;
    contents[1] = 0xB2;
    contents[2] = 0xC3;
    contents[3] = 0xD4;
    let pcap_file = read(&contents).unwrap();
    assert_eq!(pcap_file.global_header.magic_number, 0xD4C3B2A1);
    assert_eq!(pcap_file.global_header.version_major, 2);
    assert_eq!(pcap_file.global_header.snaplen, 65535);
}

#[test]
fn global_header_fields_by_offset() {
    let bytes: Vec<u8> = (1..=24).collect();
    assert_eq!(bytes.len(), GLOBAL_HEADER_LEN);
    let header = decode_global_header(&bytes);
    assert_eq!(
        header,
        PcapHeader {
            magic_number: 0x04030201,
            version_major: 0x0605,
            version_minor: 0x0807,
            thiszone: 0x0C0B0A09,
            sigfigs: 0x100F0E0D,
            snaplen: 0x14131211,
            network: 0x18171615,
        }
    );
}

#[test]
fn negative_thiszone() {
    let mut contents = global_header_bytes();
    // -3600 is 0xFFFFF1F0 in two's complement.
    contents[8] = 0xF0;
    contents[9] = 0xF1;
    contents[10] = 0xFF;
    contents[11] = 0xFF;
    assert_eq!(read(&contents).unwrap().global_header.thiszone, -3600);
}

#[test]
fn record_header_fields_by_offset() {
    let bytes: Vec<u8> = (0x21..=0x30).collect();
    assert_eq!(bytes.len(), RECORD_HEADER_LEN);
    assert_eq!(
        decode_packet_header(&bytes),
        PacketHeader {
            ts_sec: 0x24232221,
            ts_usec: 0x28272625,
            incl_len: 0x2C2B2A29,
            orig_len: 0x302F2E2D,
        }
    );
}

#[test]
fn little_endian_values() {
    let bytes = [0x34, 0x12, 0xFF, 0xFF, 0xFF, 0x7F, 0x00, 0x00, 0x00, 0x80];
    assert_eq!(read_le_u16(&bytes, 0), 0x1234);
    assert_eq!(read_le_u16(&bytes, 2), 0xFFFF);
    assert_eq!(read_le_u32(&bytes, 0), 0xFFFF1234);
    assert_eq!(read_le_u32(&bytes, 2), 0x7FFFFFFF);
    assert_eq!(read_le_i32(&bytes, 2), i32::MAX);
    assert_eq!(read_le_i32(&bytes, 6), i32::MIN);
    assert_eq!(read_le_i32(&bytes, 1), -238);
    assert_eq!(read_le_u32(&[0xFF, 0xFF, 0xFF, 0xFF], 0), u32::MAX);
    assert_eq!(read_le_i32(&[0xFF, 0xFF, 0xFF, 0xFF], 0), -1);
    assert_eq!(read_le_i32(&[0, 0, 0, 0], 0), 0);
}

#[test]
fn exact_read_tells_three_outcomes() {
    let bytes = [1u8, 2, 3, 4, 5];
    let mut stream = ByteStream::new(&bytes);
    assert_eq!(stream.position(), 0);
    assert_eq!(stream.remaining(), 5);
    match stream.read_exact(2) {
        ReadOutcome::Full(chunk) => assert_eq!(chunk, &[1, 2]),
        _ => panic!("two bytes were there"),
    }
    assert_eq!(stream.position(), 2);
    assert!(matches!(stream.read_exact(4), ReadOutcome::Partial));
    assert_eq!(stream.position(), 5);
    assert_eq!(stream.remaining(), 0);
    assert!(matches!(stream.read_exact(1), ReadOutcome::NoData));
    match stream.read_exact(0) {
        ReadOutcome::Full(chunk) => assert!(chunk.is_empty()),
        _ => panic!("no byte was asked for"),
    }
    assert_eq!(stream.position(), 5);
}

#[test]
fn exact_read_of_everything() {
    let bytes = [9u8, 8, 7];
    let mut stream = ByteStream::new(&bytes);
    match stream.read_exact(3) {
        ReadOutcome::Full(chunk) => assert_eq!(chunk, &[9, 8, 7]),
        _ => panic!("three bytes were there"),
    }
    assert_eq!(stream.remaining(), 0);
}

#[test]
fn file_header_is_read_where_the_stream_stands() {
    let mut contents = vec![0xEE, 0xEE];
    contents.extend_from_slice(&global_header_bytes());
    let mut stream = ByteStream::new(&contents);
    assert!(matches!(stream.read_exact(2), ReadOutcome::Full(_)));
    let header = PcapFile::read_file_header(&mut stream).unwrap();
    assert_eq!(header.magic_number, 0xA1B2C3D4);
    assert_eq!(header.network, 1);
    assert_eq!(stream.position(), 26);
    assert_eq!(
        PcapFile::read_file_header(&mut stream),
        Err(PcapError::TruncatedGlobalHeader)
    );
}

#[test]
fn short_file_header_exhausts_the_stream() {
    let contents = [0u8; 10];
    let mut stream = ByteStream::new(&contents);
    assert_eq!(
        PcapFile::read_file_header(&mut stream),
        Err(PcapError::TruncatedGlobalHeader)
    );
    assert_eq!(stream.remaining(), 0);
}

#[test]
fn packet_header_read_has_three_outcomes() {
    let mut contents = Vec::new();
    push_record(&mut contents, 7, 8, 10, &[]);
    contents.extend_from_slice(&[1, 2, 3]);
    let mut stream = ByteStream::new(&contents);
    assert_eq!(
        PcapFile::read_packet_header(&mut stream),
        Ok(Some(PacketHeader { ts_sec: 7, ts_usec: 8, incl_len: 0, orig_len: 10 }))
    );
    assert_eq!(stream.position(), 16);
    assert_eq!(
        PcapFile::read_packet_header(&mut stream),
        Err(PcapError::TruncatedRecordHeader)
    );
    assert_eq!(stream.position(), 19);
    assert_eq!(PcapFile::read_packet_header(&mut stream), Ok(None));
}

#[test]
fn packet_read_consumes_one_record() {
    let mut contents = Vec::new();
    push_record(&mut contents, 1, 2, 3, &[0xAA, 0xBB, 0xCC]);
    push_record(&mut contents, 4, 5, 6, &[0xDD]);
    let mut stream = ByteStream::new(&contents);
    let first = PcapFile::read_packet(&mut stream).unwrap().unwrap();
    assert_eq!(first.header(), PacketHeader { ts_sec: 1, ts_usec: 2, incl_len: 3, orig_len: 3 });
    assert_eq!(first.data(), &[0xAA, 0xBB, 0xCC]);
    assert_eq!(stream.position(), 19);
    let second = PcapFile::read_packet(&mut stream).unwrap().unwrap();
    assert_eq!(second.data(), &[0xDD]);
    assert_eq!(stream.position(), 36);
    assert!(PcapFile::read_packet(&mut stream).unwrap().is_none());
    assert!(PcapFile::read_packet(&mut stream).unwrap().is_none());
}

#[test]
fn packet_read_of_a_short_payload() {
    let mut contents = Vec::new();
    push_record(&mut contents, 1, 2, 3, &[0xAA, 0xBB, 0xCC]);
    contents.pop();
    let mut stream = ByteStream::new(&contents);
    assert_eq!(
        PcapFile::read_packet(&mut stream).err(),
        Some(PcapError::TruncatedRecordPayload)
    );
    assert_eq!(stream.remaining(), 0);
}

#[test]
fn packet_read_of_a_header_without_payload() {
    let mut contents = Vec::new();
    push_record(&mut contents, 1, 2, 3, &[0xAA]);
    contents.pop();
    let mut stream = ByteStream::new(&contents);
    assert_eq!(
        PcapFile::read_packet(&mut stream).err(),
        Some(PcapError::TruncatedRecordPayload)
    );
}

#[test]
fn packets_are_read_to_the_end() {
    let contents = capture_bytes(4);
    let mut stream = ByteStream::new(&contents);
    PcapFile::read_file_header(&mut stream).unwrap();
    let packets = PcapFile::read_packets(&mut stream).unwrap();
    assert_eq!(packets.len(), 4);
    assert_eq!(stream.remaining(), 0);
    assert_eq!(stream.position(), contents.len());
    assert!(PcapFile::read_packets(&mut stream).unwrap().is_empty());
}

#[test]
fn packets_before_a_truncated_one_are_not_returned() {
    let mut contents = capture_bytes(4);
    contents.extend_from_slice(&[0, 0, 0, 0, 0]);
    let mut stream = ByteStream::new(&contents);
    PcapFile::read_file_header(&mut stream).unwrap();
    assert_eq!(
        PcapFile::read_packets(&mut stream).err(),
        Some(PcapError::TruncatedRecordHeader)
    );
}

#[test]
fn packet_is_built_only_with_the_announced_length() {
    let header = PacketHeader { ts_sec: 1, ts_usec: 2, incl_len: 3, orig_len: 4 };
    let packet = Packet::new(header, &[7, 8, 9]).unwrap();
    assert_eq!(packet.header(), header);
    assert_eq!(packet.incl_len(), 3);
    assert_eq!(packet.data(), &[7, 8, 9]);
    assert!(Packet::new(header, &[7, 8]).is_none());
    assert!(Packet::new(header, &[7, 8, 9, 10]).is_none());
    assert!(Packet::new(header, &[]).is_none());
}

#[test]
fn defaults_are_all_zero() {
    assert_eq!(
        PcapHeader::default(),
        PcapHeader {
            magic_number: 0,
            version_major: 0,
            version_minor: 0,
            thiszone: 0,
            sigfigs: 0,
            snaplen: 0,
            network: 0,
        }
    );
    assert_eq!(
        PacketHeader::default(),
        PacketHeader { ts_sec: 0, ts_usec: 0, incl_len: 0, orig_len: 0 }
    );
    let packet = Packet::default();
    assert_eq!(packet.header(), PacketHeader::default());
    assert!(packet.data().is_empty());
}

use nfl::layout::{Header, SegmentDescriptor, SegmentDirectory, SegmentKind, HEADER_SIZE, NFL_MAGIC};
use nfl::{align_up, is_aligned, Error};

fn expected_checksum(bytes: &[u8]) -> u64 {
    let mut acc = 0u64;
    for i in 0..6 {
        let mut word = [0u8; 8];
        word.copy_from_slice(&bytes[8 * i..8 * i + 8]);
        acc = acc.wrapping_add(u64::from_le_bytes(word));
    }
    acc.rotate_left(13).wrapping_add(0x9e37_79b9_7f4a_7c15)
}

#[test]
fn header_round_trip() {
    let entries = [SegmentDescriptor::new(SegmentKind::Schema, 0, 4096, 1024, 0x1234_5678_9abc_def0)];
    let (directory_offset, directory_length) = SegmentDirectory::layout(&entries);
    let header = Header::new(directory_offset, directory_length, entries.len() as u32);

    let mut buffer = [0u8; HEADER_SIZE];
    header.write_to(&mut buffer).expect("write header");
    let parsed = Header::parse(&buffer).expect("parse header");

    assert_eq!(parsed, header);
    assert_eq!(parsed.segment_directory_offset(), directory_offset);
}

#[test]
fn segment_directory_parse_and_validate() {
    let descriptor = SegmentDescriptor::new(SegmentKind::Data, 0, 8192, 2048, 0xdead_beef_cafe_babe);
    let mut buffer = vec![0u8; SegmentDescriptor::SIZE];
    descriptor.write_to(&mut buffer).expect("write descriptor");

    let directory = SegmentDirectory::parse(&buffer, 32_768).expect("parse directory");
    assert_eq!(directory.entries.len(), 1);
    assert_eq!(directory.entries[0], descriptor);
}

#[test]
fn reject_invalid_magic() {
    let mut buffer = [0u8; HEADER_SIZE];
    buffer[0..8].copy_from_slice(b"BADMAGIC");
    assert!(matches!(Header::parse(&buffer), Err(Error::InvalidMagic)));
}

#[test]
fn align_up_and_is_aligned_values() {
    assert_eq!(align_up(48, 4096), 4096);
    assert_eq!(align_up(0, 4096), 0);
    assert_eq!(align_up(4096, 4096), 4096);
    assert_eq!(align_up(4097, 4096), 8192);
    assert_eq!(align_up(5, 1), 5);
    assert!(is_aligned(8192, 4096));
    assert!(!is_aligned(8193, 4096));
    assert!(!is_aligned(8192, 0));
    assert!(is_aligned(align_up(12_345, 512), 512));
    assert_eq!(align_up(5, 3), 6);
    assert_eq!(align_up(6, 3), 6);
    assert_eq!(align_up(100, 7), 105);
    assert!(is_aligned(6, 3));
    assert!(!is_aligned(7, 3));
    assert!(is_aligned(0, 5));
}

#[test]
fn io_errors_convert() {
    let io = std::io::Error::new(std::io::ErrorKind::NotFound, "missing");
    let e: Error = io.into();
    assert!(matches!(e, Error::Io(ref inner) if inner.kind() == std::io::ErrorKind::NotFound));
}

#[test]
fn header_layout_and_bytes() {
    let header = Header::new(4096, 64, 2);
    let mut buffer = [0xffu8; 50];
    header.write_to(&mut buffer).expect("write header");
    assert_eq!(&buffer[0..8], &NFL_MAGIC);
    assert_eq!(&buffer[0..8], b"NFLFMT01");
    assert_eq!(u32::from_le_bytes(buffer[8..12].try_into().unwrap()), 1);
    assert_eq!(u32::from_le_bytes(buffer[12..16].try_into().unwrap()), 48);
    assert_eq!(u64::from_le_bytes(buffer[16..24].try_into().unwrap()), 4096);
    assert_eq!(u64::from_le_bytes(buffer[24..32].try_into().unwrap()), 64);
    assert_eq!(u32::from_le_bytes(buffer[32..36].try_into().unwrap()), 2);
    assert_eq!(u32::from_le_bytes(buffer[36..40].try_into().unwrap()), 0);
    assert_eq!(buffer[48..50], [0xff, 0xff]);
    let stored = u64::from_le_bytes(buffer[40..48].try_into().unwrap());
    let mut zeroed = buffer;
    zeroed[40..48].copy_from_slice(&[0; 8]);
    assert_eq!(stored, expected_checksum(&zeroed[..48]));
    assert_eq!(header.checksum(), stored);
    assert_eq!(header.segment_directory_length(), 64);
    assert_eq!(header.segment_count(), 2);
}

#[test]
fn header_write_to_short_buffer() {
    let header = Header::new(4096, 32, 1);
    let mut buffer = [7u8; HEADER_SIZE - 1];
    assert!(matches!(header.write_to(&mut buffer), Err(Error::InsufficientData)));
    assert_eq!(buffer, [7u8; HEADER_SIZE - 1]);
}

fn written(header: &Header) -> [u8; HEADER_SIZE] {
    let mut buffer = [0u8; HEADER_SIZE];
    header.write_to(&mut buffer).expect("write header");
    buffer
}

#[test]
fn header_parse_errors() {
    assert!(matches!(Header::parse(&[0u8; 47]), Err(Error::InsufficientData)));

    let good = written(&Header::new(4096, 32, 1));
    let mut bad_version = good;
    bad_version[8] = 2;
    assert!(matches!(Header::parse(&bad_version), Err(Error::UnsupportedVersion(2))));

    let mut bad_size = good;
    bad_size[12] = 49;
    assert!(matches!(Header::parse(&bad_size), Err(Error::Corrupted("unexpected header size"))));

    let misaligned = written(&Header::new(4000, 32, 1));
    assert!(matches!(
        Header::parse(&misaligned),
        Err(Error::MisalignedSegment { offset: 4000, alignment: 4096 })
    ));

    let mut corrupted = good;
    corrupted[33] ^= 0x10;
    match Header::parse(&corrupted) {
        Err(Error::ChecksumMismatch { expected, actual }) => {
            assert_eq!(expected, Header::new(4096, 32, 1).checksum());
            assert_ne!(expected, actual);
        }
        other => panic!("unexpected result {:?}", other),
    }
}

#[test]
fn header_parse_ignores_trailing_bytes() {
    let header = Header::new(8192, 96, 3);
    let mut buffer = vec![0xaau8; 100];
    header.write_to(&mut buffer).expect("write header");
    assert_eq!(Header::parse(&buffer).expect("parse header"), header);
}

#[test]
fn descriptor_round_trip_and_fields() {
    let descriptor = SegmentDescriptor::new(SegmentKind::Index, 0x0102, 4096, 77, 0x1122_3344_5566_7788);
    let mut buffer = [0u8; 32];
    descriptor.write_to(&mut buffer).expect("write descriptor");
    assert_eq!(buffer[0..2], [3, 0]);
    assert_eq!(buffer[2..4], [0x02, 0x01]);
    assert_eq!(buffer[4..8], [0, 0, 0, 0]);
    assert_eq!(buffer[8..16], 4096u64.to_le_bytes());
    assert_eq!(buffer[16..24], 77u64.to_le_bytes());
    assert_eq!(buffer[24..32], 0x1122_3344_5566_7788u64.to_le_bytes());
    let parsed = SegmentDescriptor::parse(&buffer).expect("parse descriptor");
    assert_eq!(parsed, descriptor);
    assert_eq!(parsed.offset(), 4096);
    assert_eq!(parsed.length(), 77);
    assert_eq!(parsed.checksum(), 0x1122_3344_5566_7788);
    assert_eq!(parsed.kind(), SegmentKind::Index);
    assert!(matches!(SegmentDescriptor::parse(&buffer[..31]), Err(Error::InsufficientData)));
    assert!(matches!(descriptor.write_to(&mut [0u8; 31]), Err(Error::InsufficientData)));
}

#[test]
fn descriptor_validate_errors() {
    let ok = SegmentDescriptor::new(SegmentKind::Data, 0, 8192, 4096, 0);
    assert!(ok.validate(12_288).is_ok());
    assert!(matches!(
        ok.validate(12_287),
        Err(Error::Corrupted("segment extends past file bounds"))
    ));
    let misaligned = SegmentDescriptor::new(SegmentKind::Data, 0, 100, 1, 0);
    assert!(matches!(
        misaligned.validate(1 << 20),
        Err(Error::MisalignedSegment { offset: 100, alignment: 4096 })
    ));
    let overflowing = SegmentDescriptor::new(SegmentKind::Data, 0, 4096, u64::MAX, 0);
    assert!(matches!(
        overflowing.validate(u64::MAX),
        Err(Error::Corrupted("segment extends past file bounds"))
    ));
}

#[test]
fn segment_kind_tags() {
    let kinds = [
        SegmentKind::Schema,
        SegmentKind::Data,
        SegmentKind::Index,
        SegmentKind::Mvcc,
        SegmentKind::Footer,
        SegmentKind::Custom,
    ];
    let tags = [1u16, 2, 3, 4, 5, 0x8000];
    for (kind, tag) in kinds.iter().zip(tags.iter()) {
        assert_eq!(kind.tag(), *tag);
        assert_eq!(SegmentKind::from(*tag), *kind);
    }
    assert_eq!(SegmentKind::from(0), SegmentKind::Custom);
    assert_eq!(SegmentKind::from(6), SegmentKind::Custom);
    assert_eq!(SegmentKind::from(0x8001), SegmentKind::Custom);
}

#[test]
fn directory_round_trip_and_errors() {
    let entries = vec![
        SegmentDescriptor::new(SegmentKind::Schema, 0, 4096, 100, 1),
        SegmentDescriptor::new(SegmentKind::Data, 1, 8192, 4096, 2),
        SegmentDescriptor::new(SegmentKind::Footer, 0, 12_288, 0, 3),
    ];
    let (offset, length) = SegmentDirectory::layout(&entries);
    assert_eq!((offset, length), (4096, 96));
    let directory = SegmentDirectory { entries: entries.clone() };
    let mut buffer = vec![0x55u8; 100];
    directory.write_to(&mut buffer).expect("write directory");
    assert_eq!(buffer[96..100], [0x55; 4]);
    let parsed = SegmentDirectory::parse(&buffer[..96], 12_288).expect("parse directory");
    assert_eq!(parsed.entries, entries);

    assert!(matches!(directory.write_to(&mut [0u8; 95]), Err(Error::InsufficientData)));
    assert!(matches!(
        SegmentDirectory::parse(&buffer[..95], 12_288),
        Err(Error::InvalidSegmentDirectory)
    ));
    assert!(matches!(
        SegmentDirectory::parse(&buffer[..96], 12_287),
        Err(Error::Corrupted("segment extends past file bounds"))
    ));
    assert_eq!(SegmentDirectory::parse(&[], 0).expect("empty directory").entries.len(), 0);
}

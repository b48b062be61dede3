use memmap2::{Mmap, MmapMut};
use nfl::layout::{Header, SegmentDescriptor, SegmentDirectory, SegmentKind, HEADER_SIZE};
use nfl::mmap::NflFile;
use nfl::schema::{Field, FieldType, Schema};
use nfl::Error;

fn map(bytes: &[u8]) -> Mmap {
    let mut m = MmapMut::map_anon(bytes.len()).expect("anonymous map");
    m.copy_from_slice(bytes);
    m.make_read_only().expect("read-only map")
}

fn open(bytes: &[u8]) -> Result<NflFile, Error> {
    NflFile::from_mmap(map(bytes), bytes.len() as u64)
}

fn file_with(entries: &[SegmentDescriptor], size: usize) -> Vec<u8> {
    let (directory_offset, directory_length) = SegmentDirectory::layout(entries);
    let header = Header::new(directory_offset, directory_length, entries.len() as u32);
    let mut buffer = vec![0u8; size.max(directory_offset as usize + directory_length as usize)];
    header.write_to(&mut buffer[..HEADER_SIZE]).expect("write header");
    for (i, entry) in entries.iter().enumerate() {
        entry
            .write_to(&mut buffer[directory_offset as usize + 32 * i..])
            .expect("write descriptor");
    }
    buffer
}

#[test]
fn open_reads_header_and_directory() {
    let entries = [SegmentDescriptor::new(SegmentKind::Schema, 0, 4096, 64, 0)];
    let buffer = file_with(&entries, 4096 + 64);
    let (directory_offset, directory_length) = SegmentDirectory::layout(&entries);
    let header = Header::new(directory_offset, directory_length, entries.len() as u32);

    let nft = open(&buffer).expect("open nfl file");

    assert_eq!(nft.header(), &header);
    assert_eq!(nft.directory().entries.len(), 1);
    assert_eq!(nft.directory().entries[0], entries[0]);
}

#[test]
fn segment_by_kind_is_none_without_that_kind() {
    let entries = [SegmentDescriptor::new(SegmentKind::Data, 0, 4096, 64, 0)];
    let buffer = file_with(&entries, 4096 + 64);
    let nfl = open(&buffer).expect("open nfl file");
    let segment = nfl.segment_by_kind(SegmentKind::Schema).expect("query kind");
    assert!(segment.is_none());
}

#[test]
fn read_schema_segment_from_mapped_file() {
    let schema = Schema::new(vec![
        Field::new("id", FieldType::Int64, false),
        Field::new("payload", FieldType::Utf8, true),
    ]);
    let schema_bytes = schema.serialize();
    let segment_offset = 8192;
    let descriptor =
        SegmentDescriptor::new(SegmentKind::Schema, 0, segment_offset, schema_bytes.len() as u64, 0);
    let entries = [descriptor];
    let mut buffer = file_with(&entries, segment_offset as usize + schema_bytes.len());
    let start = descriptor.offset() as usize;
    buffer[start..start + schema_bytes.len()].copy_from_slice(&schema_bytes);

    let nfl = open(&buffer).expect("open nfl file");
    let parsed = nfl.schema().expect("schema parse").expect("schema exists");
    assert_eq!(parsed, schema);
}

#[test]
fn segment_views_are_the_mapped_bytes() {
    let entries = [
        SegmentDescriptor::new(SegmentKind::Data, 0, 4096, 4, 0),
        SegmentDescriptor::new(SegmentKind::Index, 0, 8192, 3, 0),
        SegmentDescriptor::new(SegmentKind::Data, 0, 8192, 2, 0),
    ];
    let mut buffer = file_with(&entries, 8192 + 3);
    buffer[8192..8195].copy_from_slice(&[9, 8, 7]);
    let nfl = open(&buffer).expect("open nfl file");

    let first_data = nfl.segment_by_kind(SegmentKind::Data).expect("query").expect("present");
    assert_eq!(first_data.descriptor(), &entries[0]);
    assert_eq!(first_data.kind(), SegmentKind::Data);
    assert_eq!(first_data.data(), &buffer[4096..4100]);

    let index = nfl.segment_by_index(1).expect("index segment");
    assert_eq!(index.kind(), SegmentKind::Index);
    assert_eq!(index.data(), &[9, 8, 7]);
    assert!(matches!(
        nfl.segment_by_index(3),
        Err(Error::Corrupted("segment index out of range"))
    ));
    assert!(nfl.schema().expect("no schema").is_none());
}

#[test]
fn open_rejects_bad_files() {
    assert!(matches!(open(&[0u8; 40]), Err(Error::InsufficientData)));

    let mut bad_magic = file_with(&[], 0);
    bad_magic[0] = b'X';
    assert!(matches!(open(&bad_magic), Err(Error::InvalidMagic)));

    let entries = [SegmentDescriptor::new(SegmentKind::Data, 0, 4096, 64, 0)];
    let buffer = file_with(&entries, 4096 + 64);
    assert!(matches!(
        open(&buffer[..4100]),
        Err(Error::Corrupted("segment directory extends past file bounds"))
    ));
    assert!(matches!(
        NflFile::from_mmap(map(&buffer), 4100),
        Err(Error::Corrupted("segment extends past file bounds"))
    ));
}

#[test]
fn segment_past_mapped_file_is_refused() {
    let entries = [SegmentDescriptor::new(SegmentKind::Data, 0, 4096, 64, 0)];
    let buffer = file_with(&entries, 0);
    // The reported file size admits the segment, the mapped bytes do not.
    let nfl = NflFile::from_mmap(map(&buffer), 1 << 20).expect("open");
    assert!(matches!(
        nfl.segment_by_index(0),
        Err(Error::Corrupted("segment extends past mapped file"))
    ));
}

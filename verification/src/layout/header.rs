//! The fixed-size file header placed at offset 0 of every NFL file.
use crate::align::is_aligned;
use crate::error::Error;
use crate::le::{lemma_le_lengths, read_u32_at, read_u64_at, write_u32_at, write_u64_at};
use vstd::bytes::*;
use vstd::prelude::*;

verus! {

/// NFL format magic bytes anchored at the file start: `NFLFMT01`.
pub const NFL_MAGIC: [u8; 8] = [78, 70, 76, 70, 77, 84, 48, 49];

/// Current on-disk format version.
pub const CURRENT_FORMAT_VERSION: u32 = 1;

/// Header size in bytes for the compact NFL file header.
pub const HEADER_SIZE: usize = 48;

/// The magic bytes `NFLFMT01` as a sequence.
pub open spec fn spec_magic() -> Seq<u8> {
    seq![78u8, 70u8, 76u8, 70u8, 77u8, 84u8, 48u8, 49u8]
}

proof fn lemma_magic_const()
    ensures
        NFL_MAGIC@ == spec_magic(),
{
    assert(NFL_MAGIC@ =~= spec_magic());
}

/// A fixed-length file header placed at the beginning of every NFL file.
///
/// The header itself is located at offset 0 and the segment directory starts
/// at a 4K-aligned offset after the header region.
#[derive(Clone, Copy, Debug, PartialEq, Eq)]
pub struct Header {
    magic: [u8; 8],
    version: u32,
    header_size: u32,
    segment_directory_offset: u64,
    segment_directory_length: u64,
    segment_count: u32,
    reserved: u32,
    checksum: u64,
}

/// The fields of a header as mathematical values.
pub struct HeaderView {
    pub magic: Seq<u8>,
    pub version: u32,
    pub header_size: u32,
    pub directory_offset: u64,
    pub directory_length: u64,
    pub segment_count: u32,
    pub reserved: u32,
    pub checksum: u64,
}

impl View for Header {
    type V = HeaderView;

    closed spec fn view(&self) -> HeaderView {
        HeaderView {
            magic: self.magic@,
            version: self.version,
            header_size: self.header_size,
            directory_offset: self.segment_directory_offset,
            directory_length: self.segment_directory_length,
            segment_count: self.segment_count,
            reserved: self.reserved,
            checksum: self.checksum,
        }
    }
}

/// The 48 on-disk bytes of a header: the magic, then each field in
/// little-endian order.
pub open spec fn spec_header_bytes(h: HeaderView) -> Seq<u8> {
    h.magic + spec_u32_to_le_bytes(h.version) + spec_u32_to_le_bytes(h.header_size)
        + spec_u64_to_le_bytes(h.directory_offset) + spec_u64_to_le_bytes(h.directory_length)
        + spec_u32_to_le_bytes(h.segment_count) + spec_u32_to_le_bytes(h.reserved)
        + spec_u64_to_le_bytes(h.checksum)
}

/// The header fields read from the first 48 bytes of `b`.
pub open spec fn spec_header_from_bytes(b: Seq<u8>) -> HeaderView {
    HeaderView {
        magic: b.subrange(0, 8),
        version: spec_u32_from_le_bytes(b.subrange(8, 12)),
        header_size: spec_u32_from_le_bytes(b.subrange(12, 16)),
        directory_offset: spec_u64_from_le_bytes(b.subrange(16, 24)),
        directory_length: spec_u64_from_le_bytes(b.subrange(24, 32)),
        segment_count: spec_u32_from_le_bytes(b.subrange(32, 36)),
        reserved: spec_u32_from_le_bytes(b.subrange(36, 40)),
        checksum: spec_u64_from_le_bytes(b.subrange(40, 48)),
    }
}

/// The `i`-th little-endian 64-bit word of `b`.
pub open spec fn spec_word(b: Seq<u8>, i: int) -> u64 {
    spec_u64_from_le_bytes(b.subrange(8 * i, 8 * i + 8))
}

/// The wrapping sum of the first `n` little-endian 64-bit words of `b`.
pub open spec fn spec_word_sum(b: Seq<u8>, n: nat) -> u64
    decreases n,
{
    if n == 0 {
        0
    } else {
        spec_word_sum(b, (n - 1) as nat).wrapping_add(spec_word(b, n - 1))
    }
}

/// Rotation of a 64-bit word left by 13 bits.
pub open spec fn spec_rotl13(x: u64) -> u64 {
    (x << 13u64) | (x >> 51u64)
}

/// The header checksum function over the 48 header bytes: the wrapping sum
/// of its six little-endian words, rotated left by 13 bits, plus a fixed
/// odd constant.
pub open spec fn spec_checksum_of_bytes(b: Seq<u8>) -> u64 {
    spec_rotl13(spec_word_sum(b, 6)).wrapping_add(0x9e3779b97f4a7c15u64)
}

/// `h` with its checksum field set to zero.
pub open spec fn spec_zero_checksum(h: HeaderView) -> HeaderView {
    HeaderView { checksum: 0, ..h }
}

/// The checksum of a header: computed over its bytes with the checksum field zeroed.
pub open spec fn spec_header_checksum(h: HeaderView) -> u64 {
    spec_checksum_of_bytes(spec_header_bytes(spec_zero_checksum(h)))
}

/// What parsing the header at the start of `b` gives, error by error in the
/// order in which they are checked.
pub open spec fn spec_parse_header(b: Seq<u8>) -> Result<HeaderView, Error> {
    if b.len() < 48 {
        Err(Error::InsufficientData)
    } else {
        let h = spec_header_from_bytes(b);
        if h.magic != spec_magic() {
            Err(Error::InvalidMagic)
        } else if h.version != 1 {
            Err(Error::UnsupportedVersion(h.version))
        } else if h.header_size != 48 {
            Err(Error::Corrupted("unexpected header size"))
        } else if h.directory_offset % 4096 != 0 {
            Err(Error::MisalignedSegment { offset: h.directory_offset, alignment: 4096 })
        } else if spec_header_checksum(h) != h.checksum {
            Err(Error::ChecksumMismatch { expected: h.checksum, actual: spec_header_checksum(h) })
        } else {
            Ok(h)
        }
    }
}

/// The header that `Header::new` builds for a directory layout.
pub open spec fn spec_new_header(
    directory_offset: u64,
    directory_length: u64,
    segment_count: u32,
) -> HeaderView {
    let h = HeaderView {
        magic: spec_magic(),
        version: 1,
        header_size: 48,
        directory_offset,
        directory_length,
        segment_count,
        reserved: 0,
        checksum: 0,
    };
    HeaderView { checksum: spec_header_checksum(h), ..h }
}

impl Header {
    /// Build a new header for the given directory layout.
    pub fn new(directory_offset: u64, directory_length: u64, segment_count: u32) -> (h: Self)
        ensures
            h@ == spec_new_header(directory_offset, directory_length, segment_count),
    {
        let mut header = Header {
            magic: NFL_MAGIC,
            version: CURRENT_FORMAT_VERSION,
            header_size: 48,
            segment_directory_offset: directory_offset,
            segment_directory_length: directory_length,
            segment_count,
            reserved: 0,
            checksum: 0,
        };
        proof {
            lemma_magic_const();
        }
        header.checksum = header.compute_checksum();
        header
    }

    /// Serialize the header into a fixed-size output buffer.
    pub fn write_to(&self, out: &mut [u8]) -> (r: Result<(), Error>)
        ensures
            old(out)@.len() < 48 ==> (r matches Err(Error::InsufficientData)) && final(out)@
                == old(out)@,
            old(out)@.len() >= 48 ==> r is Ok && final(out)@ == spec_header_bytes(self@)
                + old(out)@.subrange(48, old(out)@.len() as int),
    {
        if out.len() < HEADER_SIZE {
            return Err(Error::InsufficientData);
        }
        let ghost original = out@;
        let mut i: usize = 0;
        while i < 8
            invariant
                i <= 8,
                out@.len() == original.len(),
                original.len() >= 48,
                out@ == self.magic@.subrange(0, i as int) + original.subrange(
                    i as int,
                    original.len() as int,
                ),
            decreases 8 - i,
        {
            out[i] = self.magic[i];
            i += 1;
        }
        proof {
            lemma_le_lengths();
        }
        write_u32_at(out, 8, self.version);
        write_u32_at(out, 12, self.header_size);
        write_u64_at(out, 16, self.segment_directory_offset);
        write_u64_at(out, 24, self.segment_directory_length);
        write_u32_at(out, 32, self.segment_count);
        write_u32_at(out, 36, self.reserved);
        write_u64_at(out, 40, self.checksum);
        proof {
            lemma_le_lengths();
            assert(out@ =~= spec_header_bytes(self@) + original.subrange(48, original.len() as int));
        }
        Ok(())
    }

    /// Parse a header in-place from a byte slice.
    pub fn parse(bytes: &[u8]) -> (r: Result<Self, Error>)
        ensures
            match r {
                Ok(h) => spec_parse_header(bytes@) == Ok::<HeaderView, Error>(h@),
                Err(e) => spec_parse_header(bytes@) == Err::<HeaderView, Error>(e),
            },
    {
        if bytes.len() < HEADER_SIZE {
            return Err(Error::InsufficientData);
        }
        let mut magic = [0u8; 8];
        let mut i: usize = 0;
        while i < 8
            invariant
                i <= 8,
                bytes@.len() >= 48,
                forall|k: int| 0 <= k < i ==> magic@[k] == bytes@[k],
            decreases 8 - i,
        {
            magic[i] = bytes[i];
            i += 1;
        }
        let header = Header {
            magic,
            version: read_u32_at(bytes, 8),
            header_size: read_u32_at(bytes, 12),
            segment_directory_offset: read_u64_at(bytes, 16),
            segment_directory_length: read_u64_at(bytes, 24),
            segment_count: read_u32_at(bytes, 32),
            reserved: read_u32_at(bytes, 36),
            checksum: read_u64_at(bytes, 40),
        };
        proof {
            assert(header@.magic =~= bytes@.subrange(0, 8));
            assert(header@ == spec_header_from_bytes(bytes@));
        }
        if !is_nfl_magic(&header.magic) {
            return Err(Error::InvalidMagic);
        }
        if header.version != CURRENT_FORMAT_VERSION {
            return Err(Error::UnsupportedVersion(header.version));
        }
        if header.header_size != 48 {
            return Err(Error::Corrupted("unexpected header size"));
        }
        if !is_aligned(header.segment_directory_offset, 4096) {
            return Err(
                Error::MisalignedSegment {
                    offset: header.segment_directory_offset,
                    alignment: 4096,
                },
            );
        }
        let actual_checksum = header.compute_checksum();
        if actual_checksum != header.checksum {
            return Err(
                Error::ChecksumMismatch { expected: header.checksum, actual: actual_checksum },
            );
        }
        Ok(header)
    }

    /// The offset where the segment directory begins.
    pub fn segment_directory_offset(&self) -> (r: u64)
        ensures
            r == self@.directory_offset,
    {
        self.segment_directory_offset
    }

    /// The segment directory length in bytes.
    pub fn segment_directory_length(&self) -> (r: u64)
        ensures
            r == self@.directory_length,
    {
        self.segment_directory_length
    }

    /// The number of segment descriptors in the directory.
    pub fn segment_count(&self) -> (r: u32)
        ensures
            r == self@.segment_count,
    {
        self.segment_count
    }

    /// Compute the header checksum with the checksum field zeroed.
    pub fn checksum(&self) -> (r: u64)
        ensures
            r == spec_header_checksum(self@),
    {
        let mut temporary = *self;
        temporary.checksum = 0;
        proof {
            assert(spec_zero_checksum(temporary@) == spec_zero_checksum(self@));
        }
        temporary.compute_checksum()
    }

    /// The checksum over the header's bytes with its checksum field zeroed:
    /// the six little-endian words of the 48 bytes (which leave no partial
    /// trailing word) summed with wrapping, rotated left by 13 bits, plus a
    /// fixed constant.
    fn compute_checksum(&self) -> (r: u64)
        ensures
            r == spec_header_checksum(self@),
    {
        let mut buffer = [0u8; 48];
        let mut temporary = *self;
        temporary.checksum = 0;
        temporary.write_to(&mut buffer).expect("header buffer is sufficient");
        proof {
            lemma_le_lengths();
            assert(temporary@ == spec_zero_checksum(self@));
            assert(buffer@ =~= spec_header_bytes(temporary@));
        }
        let mut accumulator: u64 = 0;
        let mut i: usize = 0;
        while i < 6
            invariant
                i <= 6,
                buffer@.len() == 48,
                buffer@ == spec_header_bytes(spec_zero_checksum(self@)),
                accumulator == spec_word_sum(buffer@, i as nat),
            decreases 6 - i,
        {
            accumulator = accumulator.wrapping_add(read_u64_at(&buffer, 8 * i));
            i += 1;
        }
        let rotated = (accumulator << 13u32) | (accumulator >> 51u32);
        rotated.wrapping_add(0x9e3779b97f4a7c15)
    }
}

/// Whether `magic` holds the NFL magic bytes.
fn is_nfl_magic(magic: &[u8; 8]) -> (b: bool)
    ensures
        b == (magic@ == spec_magic()),
{
    proof {
        lemma_magic_const();
    }
    let mut i: usize = 0;
    while i < 8
        invariant
            i <= 8,
            NFL_MAGIC@ == spec_magic(),
            forall|k: int| 0 <= k < i ==> magic@[k] == spec_magic()[k],
        decreases 8 - i,
    {
        if magic[i] != NFL_MAGIC[i] {
            return false;
        }
        i += 1;
    }
    assert(magic@ =~= spec_magic());
    true
}

/// The header fields of `h` are what its 48 on-disk bytes hold.
pub proof fn lemma_header_bytes_roundtrip(h: HeaderView)
    requires
        h.magic.len() == 8,
    ensures
        spec_header_bytes(h).len() == 48,
        spec_header_from_bytes(spec_header_bytes(h)) == h,
{
    lemma_le_lengths();
    lemma_auto_spec_u32_to_from_le_bytes();
    lemma_auto_spec_u64_to_from_le_bytes();
    let b = spec_header_bytes(h);
    assert(b.subrange(0, 8) =~= h.magic);
    assert(b.subrange(8, 12) =~= spec_u32_to_le_bytes(h.version));
    assert(b.subrange(12, 16) =~= spec_u32_to_le_bytes(h.header_size));
    assert(b.subrange(16, 24) =~= spec_u64_to_le_bytes(h.directory_offset));
    assert(b.subrange(24, 32) =~= spec_u64_to_le_bytes(h.directory_length));
    assert(b.subrange(32, 36) =~= spec_u32_to_le_bytes(h.segment_count));
    assert(b.subrange(36, 40) =~= spec_u32_to_le_bytes(h.reserved));
    assert(b.subrange(40, 48) =~= spec_u64_to_le_bytes(h.checksum));
}

/// Writing the fields read from 48 bytes gives those bytes back.
pub proof fn lemma_header_from_bytes_roundtrip(b: Seq<u8>)
    requires
        b.len() >= 48,
    ensures
        spec_header_bytes(spec_header_from_bytes(b)) == b.subrange(0, 48),
{
    lemma_le_lengths();
    lemma_auto_spec_u32_to_from_le_bytes();
    lemma_auto_spec_u64_to_from_le_bytes();
    let h = spec_header_from_bytes(b);
    assert(spec_u32_to_le_bytes(h.version) == b.subrange(8, 12));
    assert(spec_u32_to_le_bytes(h.header_size) == b.subrange(12, 16));
    assert(spec_u64_to_le_bytes(h.directory_offset) == b.subrange(16, 24));
    assert(spec_u64_to_le_bytes(h.directory_length) == b.subrange(24, 32));
    assert(spec_u32_to_le_bytes(h.segment_count) == b.subrange(32, 36));
    assert(spec_u32_to_le_bytes(h.reserved) == b.subrange(36, 40));
    assert(spec_u64_to_le_bytes(h.checksum) == b.subrange(40, 48));
    assert(spec_header_bytes(h) =~= b.subrange(0, 48));
}

/// The header read from bytes depends on their first 48 bytes only.
pub proof fn lemma_header_from_prefix(b: Seq<u8>, c: Seq<u8>)
    requires
        b.len() >= 48,
        c.len() >= 48,
        b.subrange(0, 48) == c.subrange(0, 48),
    ensures
        spec_header_from_bytes(b) == spec_header_from_bytes(c),
{
    let p = c.subrange(0, 48);
    assert forall|i: int, j: int| 0 <= i <= j <= 48 implies #[trigger] b.subrange(i, j)
        == c.subrange(i, j) by {
        assert(b.subrange(i, j) =~= p.subrange(i, j));
        assert(c.subrange(i, j) =~= p.subrange(i, j));
    }
}

/// A header is accepted by the reader: right magic, version and size, a
/// 4K-aligned directory offset, and a stored checksum that matches.
pub open spec fn spec_header_is_valid(h: HeaderView) -> bool {
    &&& h.magic == spec_magic()
    &&& h.version == 1
    &&& h.header_size == 48
    &&& h.directory_offset % 4096 == 0
    &&& h.checksum == spec_header_checksum(h)
}

/// Round trip: a valid header that is written and then parsed comes back
/// unchanged, whatever bytes follow it; and a header that is not valid is
/// refused.
pub proof fn law_header_write_then_parse(h: Header, rest: Seq<u8>)
    ensures
        spec_header_is_valid(h@) ==> spec_parse_header(spec_header_bytes(h@) + rest) == Ok::<
            HeaderView,
            Error,
        >(h@),
        !spec_header_is_valid(h@) ==> spec_parse_header(spec_header_bytes(h@) + rest) is Err,
{
    let b = spec_header_bytes(h@) + rest;
    lemma_header_bytes_roundtrip(h@);
    assert(b.subrange(0, 48) =~= spec_header_bytes(h@));
    assert(b.subrange(0, 48) =~= spec_header_bytes(h@).subrange(0, 48));
    lemma_header_from_prefix(b, spec_header_bytes(h@));
}

/// Round trip the other way: bytes that parse are exactly the bytes that the
/// parsed header writes.
pub proof fn law_header_parse_then_write(b: Seq<u8>)
    ensures
        spec_parse_header(b) matches Ok(h) ==> spec_header_bytes(h) == b.subrange(0, 48)
            && spec_header_is_valid(h),
{
    if b.len() >= 48 {
        lemma_header_from_bytes_roundtrip(b);
    }
}

/// A header built by `Header::new` carries a matching checksum, so written
/// and parsed back it is accepted exactly when its directory offset is
/// 4K-aligned.
pub proof fn law_new_header_parses(
    directory_offset: u64,
    directory_length: u64,
    segment_count: u32,
    rest: Seq<u8>,
)
    ensures
        ({
            let h = spec_new_header(directory_offset, directory_length, segment_count);
            &&& h.checksum == spec_header_checksum(h)
            &&& spec_parse_header(spec_header_bytes(h) + rest) == if directory_offset % 4096
                == 0 {
                Ok::<HeaderView, Error>(h)
            } else {
                Err::<HeaderView, Error>(
                    Error::MisalignedSegment { offset: directory_offset, alignment: 4096 },
                )
            }
        }),
{
    let h = spec_new_header(directory_offset, directory_length, segment_count);
    let b = spec_header_bytes(h) + rest;
    assert(spec_zero_checksum(h) == spec_zero_checksum(
        HeaderView { checksum: 0, ..h },
    ));
    lemma_header_bytes_roundtrip(h);
    assert(b.subrange(0, 48) =~= spec_header_bytes(h).subrange(0, 48));
    lemma_header_from_prefix(b, spec_header_bytes(h));
}

} // verus!

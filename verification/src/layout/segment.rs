//! Segment kinds and the fixed-size segment descriptor.
use crate::align::is_aligned;
use crate::error::Error;
use crate::le::{lemma_le_lengths, read_u16_at, read_u32_at, read_u64_at, write_u16_at, write_u32_at, write_u64_at};
use vstd::bytes::*;
use vstd::prelude::*;

verus! {

/// Segment kinds used in NFL's immutable file layout.
#[derive(Clone, Copy, Debug, PartialEq, Eq, Structural)]
pub enum SegmentKind {
    Schema,
    Data,
    Index,
    Mvcc,
    Footer,
    Custom,
}

/// The on-disk tag of a segment kind.
pub open spec fn spec_kind_tag(k: SegmentKind) -> u16 {
    match k {
        SegmentKind::Schema => 1,
        SegmentKind::Data => 2,
        SegmentKind::Index => 3,
        SegmentKind::Mvcc => 4,
        SegmentKind::Footer => 5,
        SegmentKind::Custom => 0x8000,
    }
}

/// The kind that an on-disk tag stands for; tags outside the known kinds are
/// read as `Custom`.
pub open spec fn spec_kind_from_tag(v: u16) -> SegmentKind {
    if v == 1 {
        SegmentKind::Schema
    } else if v == 2 {
        SegmentKind::Data
    } else if v == 3 {
        SegmentKind::Index
    } else if v == 4 {
        SegmentKind::Mvcc
    } else if v == 5 {
        SegmentKind::Footer
    } else {
        SegmentKind::Custom
    }
}

impl SegmentKind {
    /// The on-disk tag of this kind.
    pub fn tag(self) -> (r: u16)
        ensures
            r == spec_kind_tag(self),
    {
        match self {
            SegmentKind::Schema => 1,
            SegmentKind::Data => 2,
            SegmentKind::Index => 3,
            SegmentKind::Mvcc => 4,
            SegmentKind::Footer => 5,
            SegmentKind::Custom => 0x8000,
        }
    }
}

impl From<u16> for SegmentKind {
    fn from(value: u16) -> (k: Self) {
        match value {
            1 => SegmentKind::Schema,
            2 => SegmentKind::Data,
            3 => SegmentKind::Index,
            4 => SegmentKind::Mvcc,
            5 => SegmentKind::Footer,
            _ => SegmentKind::Custom,
        }
    }
}

impl vstd::std_specs::convert::FromSpecImpl<u16> for SegmentKind {
    open spec fn obeys_from_spec() -> bool {
        true
    }

    open spec fn from_spec(v: u16) -> Self {
        spec_kind_from_tag(v)
    }
}

/// Every kind survives the trip through its on-disk tag; a tag survives the
/// trip through its kind exactly when it is the tag of a known kind.
pub proof fn law_kind_tag_roundtrip(k: SegmentKind, v: u16)
    ensures
        spec_kind_from_tag(spec_kind_tag(k)) == k,
        spec_kind_tag(spec_kind_from_tag(v)) == v <==> (1 <= v <= 5 || v == 0x8000),
{
}

/// The on-disk tags of the segment kinds: Schema 1, Data 2, Index 3, Mvcc 4,
/// Footer 5, Custom 0x8000; every other tag is read as Custom, so readers
/// treat unknown kinds as opaque custom segments.
pub proof fn law_segment_kind_tags(k: SegmentKind, v: u16)
    ensures
        (k == SegmentKind::Schema) == (spec_kind_tag(k) == 1),
        (k == SegmentKind::Data) == (spec_kind_tag(k) == 2),
        (k == SegmentKind::Index) == (spec_kind_tag(k) == 3),
        (k == SegmentKind::Mvcc) == (spec_kind_tag(k) == 4),
        (k == SegmentKind::Footer) == (spec_kind_tag(k) == 5),
        (k == SegmentKind::Custom) == (spec_kind_tag(k) == 0x8000),
        1 <= v <= 5 ==> spec_kind_tag(spec_kind_from_tag(v)) == v,
        !(1 <= v <= 5) ==> spec_kind_from_tag(v) == SegmentKind::Custom,
{
}

/// Metadata for a single segment in the NFL file.
#[derive(Clone, Copy, Debug, PartialEq, Eq)]
pub struct SegmentDescriptor {
    kind: u16,
    flags: u16,
    reserved: u32,
    offset: u64,
    length: u64,
    checksum: u64,
}

/// The fields of a segment descriptor as values.
pub struct SegmentDescriptorView {
    pub kind: u16,
    pub flags: u16,
    pub reserved: u32,
    pub offset: u64,
    pub length: u64,
    pub checksum: u64,
}

impl View for SegmentDescriptor {
    type V = SegmentDescriptorView;

    closed spec fn view(&self) -> SegmentDescriptorView {
        SegmentDescriptorView {
            kind: self.kind,
            flags: self.flags,
            reserved: self.reserved,
            offset: self.offset,
            length: self.length,
            checksum: self.checksum,
        }
    }
}

/// The 32 on-disk bytes of a descriptor, each field in little-endian order.
pub open spec fn spec_descriptor_bytes(d: SegmentDescriptorView) -> Seq<u8> {
    spec_u16_to_le_bytes(d.kind) + spec_u16_to_le_bytes(d.flags) + spec_u32_to_le_bytes(
        d.reserved,
    ) + spec_u64_to_le_bytes(d.offset) + spec_u64_to_le_bytes(d.length) + spec_u64_to_le_bytes(
        d.checksum,
    )
}

/// The descriptor fields read from the first 32 bytes of `b`.
pub open spec fn spec_descriptor_from_bytes(b: Seq<u8>) -> SegmentDescriptorView {
    SegmentDescriptorView {
        kind: spec_u16_from_le_bytes(b.subrange(0, 2)),
        flags: spec_u16_from_le_bytes(b.subrange(2, 4)),
        reserved: spec_u32_from_le_bytes(b.subrange(4, 8)),
        offset: spec_u64_from_le_bytes(b.subrange(8, 16)),
        length: spec_u64_from_le_bytes(b.subrange(16, 24)),
        checksum: spec_u64_from_le_bytes(b.subrange(24, 32)),
    }
}

/// What parsing a descriptor at the start of `b` gives.
pub open spec fn spec_parse_descriptor(b: Seq<u8>) -> Result<SegmentDescriptorView, Error> {
    if b.len() < 32 {
        Err(Error::InsufficientData)
    } else {
        Ok(spec_descriptor_from_bytes(b))
    }
}

/// The validation of a descriptor against a file of `file_size` bytes: the
/// segment starts on a 4K boundary and ends inside the file.
pub open spec fn spec_validate(d: SegmentDescriptorView, file_size: u64) -> Result<(), Error> {
    if d.offset % 4096 != 0 {
        Err(Error::MisalignedSegment { offset: d.offset, alignment: 4096 })
    } else if d.offset + d.length > file_size {
        Err(Error::Corrupted("segment extends past file bounds"))
    } else {
        Ok(())
    }
}

/// The fields of a descriptor are what its 32 on-disk bytes hold.
pub proof fn lemma_descriptor_bytes_roundtrip(d: SegmentDescriptorView)
    ensures
        spec_descriptor_bytes(d).len() == 32,
        spec_descriptor_from_bytes(spec_descriptor_bytes(d)) == d,
{
    lemma_le_lengths();
    lemma_auto_spec_u16_to_from_le_bytes();
    lemma_auto_spec_u32_to_from_le_bytes();
    lemma_auto_spec_u64_to_from_le_bytes();
    let b = spec_descriptor_bytes(d);
    assert(b.subrange(0, 2) =~= spec_u16_to_le_bytes(d.kind));
    assert(b.subrange(2, 4) =~= spec_u16_to_le_bytes(d.flags));
    assert(b.subrange(4, 8) =~= spec_u32_to_le_bytes(d.reserved));
    assert(b.subrange(8, 16) =~= spec_u64_to_le_bytes(d.offset));
    assert(b.subrange(16, 24) =~= spec_u64_to_le_bytes(d.length));
    assert(b.subrange(24, 32) =~= spec_u64_to_le_bytes(d.checksum));
}

/// The descriptor read from bytes depends on their first 32 bytes only.
pub proof fn lemma_descriptor_from_prefix(b: Seq<u8>, c: Seq<u8>)
    requires
        b.len() >= 32,
        c.len() >= 32,
        b.subrange(0, 32) == c.subrange(0, 32),
    ensures
        spec_descriptor_from_bytes(b) == spec_descriptor_from_bytes(c),
{
    let p = c.subrange(0, 32);
    assert forall|i: int, j: int| 0 <= i <= j <= 32 implies #[trigger] b.subrange(i, j)
        == c.subrange(i, j) by {
        assert(b.subrange(i, j) =~= p.subrange(i, j));
        assert(c.subrange(i, j) =~= p.subrange(i, j));
    }
}

/// Round trip: a descriptor written and parsed back is unchanged, whatever
/// bytes follow it.
pub proof fn law_descriptor_write_then_parse(d: SegmentDescriptorView, rest: Seq<u8>)
    ensures
        spec_parse_descriptor(spec_descriptor_bytes(d) + rest) == Ok::<
            SegmentDescriptorView,
            Error,
        >(d),
{
    lemma_descriptor_bytes_roundtrip(d);
    let b = spec_descriptor_bytes(d) + rest;
    assert(b.subrange(0, 32) =~= spec_descriptor_bytes(d).subrange(0, 32));
    lemma_descriptor_from_prefix(b, spec_descriptor_bytes(d));
}

/// Round trip the other way: bytes that parse as a descriptor are the bytes
/// that the descriptor writes.
pub proof fn law_descriptor_parse_then_write(b: Seq<u8>)
    ensures
        spec_parse_descriptor(b) matches Ok(d) ==> spec_descriptor_bytes(d) == b.subrange(0, 32),
{
    if b.len() >= 32 {
        lemma_le_lengths();
        lemma_auto_spec_u16_to_from_le_bytes();
        lemma_auto_spec_u32_to_from_le_bytes();
        lemma_auto_spec_u64_to_from_le_bytes();
        let d = spec_descriptor_from_bytes(b);
        assert(spec_u16_to_le_bytes(d.kind) == b.subrange(0, 2));
        assert(spec_u16_to_le_bytes(d.flags) == b.subrange(2, 4));
        assert(spec_u32_to_le_bytes(d.reserved) == b.subrange(4, 8));
        assert(spec_u64_to_le_bytes(d.offset) == b.subrange(8, 16));
        assert(spec_u64_to_le_bytes(d.length) == b.subrange(16, 24));
        assert(spec_u64_to_le_bytes(d.checksum) == b.subrange(24, 32));
        assert(spec_descriptor_bytes(d) =~= b.subrange(0, 32));
    }
}

impl SegmentDescriptor {
    /// Number of bytes used by a descriptor on disk.
    pub const SIZE: usize = 32;

    /// Build a new descriptor with an explicit kind tag and checksum.
    pub fn new(kind: SegmentKind, flags: u16, offset: u64, length: u64, checksum: u64) -> (d: Self)
        ensures
            d@ == (SegmentDescriptorView {
                kind: spec_kind_tag(kind),
                flags,
                reserved: 0,
                offset,
                length,
                checksum,
            }),
    {
        SegmentDescriptor { kind: kind.tag(), flags, reserved: 0, offset, length, checksum }
    }

    /// Parse a descriptor from a byte slice.
    pub fn parse(bytes: &[u8]) -> (r: Result<Self, Error>)
        ensures
            match r {
                Ok(d) => spec_parse_descriptor(bytes@) == Ok::<SegmentDescriptorView, Error>(d@),
                Err(e) => spec_parse_descriptor(bytes@) == Err::<SegmentDescriptorView, Error>(e),
            },
    {
        if bytes.len() < Self::SIZE {
            return Err(Error::InsufficientData);
        }
        Ok(
            SegmentDescriptor {
                kind: read_u16_at(bytes, 0),
                flags: read_u16_at(bytes, 2),
                reserved: read_u32_at(bytes, 4),
                offset: read_u64_at(bytes, 8),
                length: read_u64_at(bytes, 16),
                checksum: read_u64_at(bytes, 24),
            },
        )
    }

    /// Serialize the descriptor to a byte buffer.
    pub fn write_to(&self, out: &mut [u8]) -> (r: Result<(), Error>)
        ensures
            old(out)@.len() < 32 ==> (r matches Err(Error::InsufficientData)) && final(out)@
                == old(out)@,
            old(out)@.len() >= 32 ==> r is Ok && final(out)@ == spec_descriptor_bytes(self@)
                + old(out)@.subrange(32, old(out)@.len() as int),
    {
        if out.len() < Self::SIZE {
            return Err(Error::InsufficientData);
        }
        self.write_at(out, 0);
        proof {
            lemma_le_lengths();
            assert(old(out)@.subrange(0, 0) + spec_descriptor_bytes(self@) =~= spec_descriptor_bytes(
                self@,
            ));
        }
        Ok(())
    }

    /// Write the 32 bytes of this descriptor at `pos` in `out`, leaving the
    /// other bytes as they were.
    pub(crate) fn write_at(&self, out: &mut [u8], pos: usize)
        requires
            pos + 32 <= old(out)@.len(),
        ensures
            final(out)@ == old(out)@.subrange(0, pos as int) + spec_descriptor_bytes(self@)
                + old(out)@.subrange(pos + 32, old(out)@.len() as int),
    {
        proof {
            lemma_le_lengths();
        }
        let ghost original = out@;
        assert(out@.len() == out.len());
        write_u16_at(out, pos, self.kind);
        write_u16_at(out, pos + 2, self.flags);
        write_u32_at(out, pos + 4, self.reserved);
        write_u64_at(out, pos + 8, self.offset);
        write_u64_at(out, pos + 16, self.length);
        write_u64_at(out, pos + 24, self.checksum);
        assert(out@ =~= original.subrange(0, pos as int) + spec_descriptor_bytes(self@)
            + original.subrange(pos + 32, original.len() as int));
    }

    /// The segment offset in the file.
    pub fn offset(&self) -> (r: u64)
        ensures
            r == self@.offset,
    {
        self.offset
    }

    /// The segment length in bytes.
    pub fn length(&self) -> (r: u64)
        ensures
            r == self@.length,
    {
        self.length
    }

    /// The descriptor checksum, if present.
    pub fn checksum(&self) -> (r: u64)
        ensures
            r == self@.checksum,
    {
        self.checksum
    }

    /// Validate that the segment descriptor obeys NFL alignment and bounds checks.
    pub fn validate(&self, file_size: u64) -> (r: Result<(), Error>)
        ensures
            r == spec_validate(self@, file_size),
    {
        if !is_aligned(self.offset, 4096) {
            return Err(Error::MisalignedSegment { offset: self.offset, alignment: 4096 });
        }
        let past_end = match self.offset.checked_add(self.length) {
            None => true,
            Some(end) => end > file_size,
        };
        if past_end {
            return Err(Error::Corrupted("segment extends past file bounds"));
        }
        Ok(())
    }

    /// Interpret the stored kind tag.
    pub fn kind(&self) -> (k: SegmentKind)
        ensures
            k == spec_kind_from_tag(self@.kind),
    {
        SegmentKind::from(self.kind)
    }
}

} // verus!

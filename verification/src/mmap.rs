//! Zero-copy segment access over a read-only memory-mapped NFL file.
use crate::error::Error;
use crate::layout::directory::{
    law_directory_parse_then_write, spec_directory_bytes, spec_parse_directory, SegmentDirectory,
};
use crate::layout::header::{
    law_header_parse_then_write, spec_header_bytes, spec_header_is_valid, spec_parse_header, Header,
    HeaderView, HEADER_SIZE,
};
use crate::layout::segment::{
    spec_kind_from_tag, SegmentDescriptor, SegmentDescriptorView, SegmentKind,
};
use crate::schema::{spec_parse_schema, FieldView, Schema};
use memmap2::Mmap;
use vstd::prelude::*;
use vstd::slice::slice_subrange;

verus! {

/// `memmap2::Mmap`, a read-only memory map of a file.
#[verifier::external_type_specification]
#[verifier::external_body]
pub struct ExMmap(memmap2::Mmap);

/// The bytes that a memory map holds.
pub uninterp spec fn mapped_bytes(m: Mmap) -> Seq<u8>;

/// Calls `<memmap2::Mmap as Deref>::deref`, which gives the mapped bytes as a
/// slice. Claims: the slice holds `mapped_bytes(*m)`; two calls on the same
/// map see the same bytes, which holds while the mapped file is not changed
/// underneath the map (the reader maps files that are immutable once written).
#[verifier::external_body]
fn mmap_bytes(m: &Mmap) -> (r: &[u8])
    ensures
        r@ == mapped_bytes(*m),
{
    &m[..]
}

/// A zero-copy view into a segment inside an NFL file.
#[derive(Debug)]
pub struct SegmentView<'a> {
    descriptor: SegmentDescriptor,
    data: &'a [u8],
}

impl<'a> View for SegmentView<'a> {
    type V = (SegmentDescriptorView, Seq<u8>);

    closed spec fn view(&self) -> (SegmentDescriptorView, Seq<u8>) {
        (self.descriptor@, self.data@)
    }
}

impl<'a> SegmentView<'a> {
    /// The descriptor for this segment.
    pub fn descriptor(&self) -> (d: &SegmentDescriptor)
        ensures
            d@ == self@.0,
    {
        &self.descriptor
    }

    /// The mapped payload bytes for this segment.
    pub fn data(&self) -> (d: &'a [u8])
        ensures
            d@ == self@.1,
    {
        self.data
    }

    /// The kind of segment.
    pub fn kind(&self) -> (k: SegmentKind)
        ensures
            k == spec_kind_from_tag(self@.0.kind),
    {
        self.descriptor.kind()
    }
}

/// What opening the mapped bytes `b` of a file of `file_size` bytes gives:
/// the header parsed from the first bytes, then the directory parsed from
/// the range that the header names and validated against the file size.
pub open spec fn spec_open(b: Seq<u8>, file_size: u64) -> Result<
    (HeaderView, Seq<SegmentDescriptorView>),
    Error,
> {
    if b.len() < 48 {
        Err(Error::InsufficientData)
    } else {
        match spec_parse_header(b.subrange(0, 48)) {
            Err(e) => Err(e),
            Ok(h) => {
                if h.directory_offset + h.directory_length > b.len() {
                    Err(Error::Corrupted("segment directory extends past file bounds"))
                } else {
                    match spec_parse_directory(
                        b.subrange(
                            h.directory_offset as int,
                            h.directory_offset + h.directory_length,
                        ),
                        file_size,
                    ) {
                        Err(e) => Err(e),
                        Ok(ds) => Ok((h, ds)),
                    }
                }
            },
        }
    }
}

/// The bytes of the segment that `d` describes, in the mapped bytes `b`.
pub open spec fn spec_segment(b: Seq<u8>, d: SegmentDescriptorView) -> Result<Seq<u8>, Error> {
    if d.offset + d.length > u64::MAX {
        Err(Error::Corrupted("segment length overflow"))
    } else if d.offset + d.length > b.len() {
        Err(Error::Corrupted("segment extends past mapped file"))
    } else {
        Ok(b.subrange(d.offset as int, d.offset + d.length))
    }
}

/// The first index of a descriptor of kind `kind` in `ds`.
pub open spec fn spec_is_first_of_kind(
    ds: Seq<SegmentDescriptorView>,
    kind: SegmentKind,
    i: int,
) -> bool {
    &&& 0 <= i < ds.len()
    &&& spec_kind_from_tag(ds[i].kind) == kind
    &&& forall|j: int| 0 <= j < i ==> spec_kind_from_tag(#[trigger] ds[j].kind) != kind
}

/// An opened file is consistent: its header is a valid header (right magic,
/// version and size, aligned directory, matching checksum) that is exactly
/// the first 48 mapped bytes; its directory lies inside the mapped bytes and
/// is exactly the bytes its entries write; and every entry starts on a 4K
/// boundary and ends inside the file.
pub proof fn law_open_file_is_consistent(b: Seq<u8>, file_size: u64)
    ensures
        spec_open(b, file_size) matches Ok((h, ds)) ==> {
            &&& spec_header_is_valid(h)
            &&& spec_header_bytes(h) == b.subrange(0, 48)
            &&& h.directory_offset + h.directory_length <= b.len()
            &&& spec_directory_bytes(ds) == b.subrange(
                h.directory_offset as int,
                h.directory_offset + h.directory_length,
            )
            &&& forall|i: int|
                0 <= i < ds.len() ==> (#[trigger] ds[i]).offset % 4096 == 0 && ds[i].offset
                    + ds[i].length <= file_size
        },
{
    if b.len() >= 48 {
        law_header_parse_then_write(b.subrange(0, 48));
        assert(b.subrange(0, 48).subrange(0, 48) =~= b.subrange(0, 48));
        if let Ok(h) = spec_parse_header(b.subrange(0, 48)) {
            if h.directory_offset + h.directory_length <= b.len() {
                law_directory_parse_then_write(
                    b.subrange(h.directory_offset as int, h.directory_offset + h.directory_length),
                    file_size,
                );
            }
        }
    }
}

/// A read-only NFL file mapped into memory.
#[derive(Debug)]
pub struct NflFile {
    mmap: Mmap,
    header: Header,
    directory: SegmentDirectory,
}

/// An opened file as values: its mapped bytes, its header and its directory
/// entries.
pub struct NflFileView {
    pub bytes: Seq<u8>,
    pub header: HeaderView,
    pub entries: Seq<SegmentDescriptorView>,
}

impl View for NflFile {
    type V = NflFileView;

    closed spec fn view(&self) -> NflFileView {
        NflFileView {
            bytes: mapped_bytes(self.mmap),
            header: self.header@,
            entries: self.directory.entries_view(),
        }
    }
}

impl NflFile {
    /// Take a read-only map of a file of `file_size` bytes, parse its header
    /// and directory, and validate every directory entry against the file
    /// size.
    pub fn from_mmap(mmap: Mmap, file_size: u64) -> (r: Result<Self, Error>)
        ensures
            match r {
                Ok(f) => f@.bytes == mapped_bytes(mmap) && spec_open(mapped_bytes(mmap), file_size)
                    == Ok::<(HeaderView, Seq<SegmentDescriptorView>), Error>(
                    (f@.header, f@.entries),
                ),
                Err(e) => spec_open(mapped_bytes(mmap), file_size) == Err::<
                    (HeaderView, Seq<SegmentDescriptorView>),
                    Error,
                >(e),
            },
    {
        let bytes = mmap_bytes(&mmap);
        if bytes.len() < HEADER_SIZE {
            return Err(Error::InsufficientData);
        }
        let header = match Header::parse(slice_subrange(bytes, 0, HEADER_SIZE)) {
            Ok(h) => h,
            Err(e) => return Err(e),
        };
        let directory_offset = header.segment_directory_offset();
        let directory_length = header.segment_directory_length();
        let past_end = match directory_offset.checked_add(directory_length) {
            None => true,
            Some(end) => end > bytes.len() as u64,
        };
        if past_end {
            return Err(Error::Corrupted("segment directory extends past file bounds"));
        }
        let start = directory_offset as usize;
        let end = (directory_offset + directory_length) as usize;
        let directory = match SegmentDirectory::parse(
            slice_subrange(bytes, start, end),
            file_size,
        ) {
            Ok(d) => d,
            Err(e) => return Err(e),
        };
        Ok(NflFile { mmap, header, directory })
    }

    /// Access the parsed file header.
    pub fn header(&self) -> (h: &Header)
        ensures
            h@ == self@.header,
    {
        &self.header
    }

    /// Access the parsed segment directory.
    pub fn directory(&self) -> (d: &SegmentDirectory)
        ensures
            d.entries_view() == self@.entries,
    {
        &self.directory
    }

    /// Return the first segment matching the requested kind.
    pub fn segment_by_kind(&self, kind: SegmentKind) -> (r: Result<Option<SegmentView<'_>>, Error>)
        ensures
            match r {
                Ok(None) => forall|i: int|
                    0 <= i < self@.entries.len() ==> spec_kind_from_tag(
                        #[trigger] self@.entries[i].kind,
                    ) != kind,
                Ok(Some(v)) => exists|i: int|
                    spec_is_first_of_kind(self@.entries, kind, i) && v@.0 == self@.entries[i]
                        && spec_segment(self@.bytes, self@.entries[i]) == Ok::<Seq<u8>, Error>(
                        v@.1,
                    ),
                Err(e) => exists|i: int|
                    spec_is_first_of_kind(self@.entries, kind, i) && spec_segment(
                        self@.bytes,
                        self@.entries[i],
                    ) == Err::<Seq<u8>, Error>(e),
            },
    {
        let mut i: usize = 0;
        while i < self.directory.entries.len()
            invariant
                i <= self@.entries.len(),
                self@.entries == self.directory.entries_view(),
                forall|j: int| 0 <= j < i ==> spec_kind_from_tag(#[trigger] self@.entries[j].kind)
                    != kind,
            decreases self@.entries.len() - i,
        {
            let descriptor = &self.directory.entries[i];
            if descriptor.kind() == kind {
                assert(spec_is_first_of_kind(self@.entries, kind, i as int));
                return match self.segment_by_descriptor(descriptor) {
                    Ok(v) => Ok(Some(v)),
                    Err(e) => Err(e),
                };
            }
            i += 1;
        }
        Ok(None)
    }

    /// Read the schema segment if present and parse it.
    pub fn schema(&self) -> (r: Result<Option<Schema>, Error>)
        ensures
            match r {
                Ok(None) => forall|i: int|
                    0 <= i < self@.entries.len() ==> spec_kind_from_tag(
                        #[trigger] self@.entries[i].kind,
                    ) != SegmentKind::Schema,
                Ok(Some(s)) => exists|i: int|
                    spec_is_first_of_kind(self@.entries, SegmentKind::Schema, i) && (spec_segment(
                        self@.bytes,
                        self@.entries[i],
                    ) matches Ok(data) && spec_parse_schema(data) == Ok::<Seq<FieldView>, Error>(
                        s@,
                    )),
                Err(e) => exists|i: int|
                    spec_is_first_of_kind(self@.entries, SegmentKind::Schema, i) && match spec_segment(
                        self@.bytes,
                        self@.entries[i],
                    ) {
                        Err(e2) => e2 == e,
                        Ok(data) => spec_parse_schema(data) == Err::<Seq<FieldView>, Error>(e),
                    },
            },
    {
        match self.segment_by_kind(SegmentKind::Schema) {
            Ok(Some(segment)) => match Schema::parse(segment.data()) {
                Ok(s) => Ok(Some(s)),
                Err(e) => Err(e),
            },
            Ok(None) => Ok(None),
            Err(e) => Err(e),
        }
    }

    /// Return a segment view by descriptor index.
    pub fn segment_by_index(&self, index: usize) -> (r: Result<SegmentView<'_>, Error>)
        ensures
            index >= self@.entries.len() ==> (r matches Err(Error::Corrupted(m)) && m
                == "segment index out of range"),
            index < self@.entries.len() ==> match r {
                Ok(v) => v@.0 == self@.entries[index as int] && spec_segment(
                    self@.bytes,
                    self@.entries[index as int],
                ) == Ok::<Seq<u8>, Error>(v@.1),
                Err(e) => spec_segment(self@.bytes, self@.entries[index as int]) == Err::<
                    Seq<u8>,
                    Error,
                >(e),
            },
    {
        if index >= self.directory.entries.len() {
            return Err(Error::Corrupted("segment index out of range"));
        }
        self.segment_by_descriptor(&self.directory.entries[index])
    }

    fn segment_by_descriptor(&self, descriptor: &SegmentDescriptor) -> (r: Result<
        SegmentView<'_>,
        Error,
    >)
        ensures
            match r {
                Ok(v) => v@.0 == descriptor@ && spec_segment(self@.bytes, descriptor@) == Ok::<
                    Seq<u8>,
                    Error,
                >(v@.1),
                Err(e) => spec_segment(self@.bytes, descriptor@) == Err::<Seq<u8>, Error>(e),
            },
    {
        let bytes = mmap_bytes(&self.mmap);
        let offset = descriptor.offset();
        let length = descriptor.length();
        let end = match offset.checked_add(length) {
            Some(end) => end,
            None => return Err(Error::Corrupted("segment length overflow")),
        };
        if end > bytes.len() as u64 {
            return Err(Error::Corrupted("segment extends past mapped file"));
        }
        let data = slice_subrange(bytes, offset as usize, end as usize);
        Ok(SegmentView { descriptor: *descriptor, data })
    }
}

} // verus!

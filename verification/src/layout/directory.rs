//! The segment directory: a contiguous array of segment descriptors.
use crate::align::{align_up, SEGMENT_ALIGNMENT};
use crate::error::{spec_prefixed, Error};
use crate::layout::header::HEADER_SIZE;
use crate::layout::segment::{
    law_descriptor_parse_then_write, lemma_descriptor_bytes_roundtrip, lemma_descriptor_from_prefix,
    spec_descriptor_bytes,
    spec_descriptor_from_bytes, spec_validate, SegmentDescriptor, SegmentDescriptorView,
};
use vstd::prelude::*;
use vstd::slice::slice_subrange;

verus! {

/// A compact, typed segment directory for immutable NFL files.
#[derive(Debug)]
pub struct SegmentDirectory {
    pub entries: Vec<SegmentDescriptor>,
}

/// The views of a sequence of descriptors.
pub open spec fn spec_views(ds: Seq<SegmentDescriptor>) -> Seq<SegmentDescriptorView> {
    ds.map_values(|d: SegmentDescriptor| d@)
}

impl SegmentDirectory {
    /// The descriptors of the directory, as values.
    pub open spec fn entries_view(&self) -> Seq<SegmentDescriptorView> {
        spec_views(self.entries@)
    }
}

/// What parsing a directory from `b` gives: one descriptor per 32 bytes, each
/// validated against the file size, failing at the first incomplete or
/// invalid entry.
pub open spec fn spec_parse_directory(b: Seq<u8>, file_size: u64) -> Result<
    Seq<SegmentDescriptorView>,
    Error,
>
    decreases b.len(),
{
    if b.len() == 0 {
        Ok(Seq::empty())
    } else if b.len() < 32 {
        Err(Error::InvalidSegmentDirectory)
    } else {
        let d = spec_descriptor_from_bytes(b.subrange(0, 32));
        match spec_validate(d, file_size) {
            Err(e) => Err(e),
            Ok(_) => spec_prefixed(seq![d], spec_parse_directory(b.skip(32), file_size)),
        }
    }
}

/// The on-disk bytes of a directory: the descriptors' bytes one after another.
pub open spec fn spec_directory_bytes(ds: Seq<SegmentDescriptorView>) -> Seq<u8>
    decreases ds.len(),
{
    if ds.len() == 0 {
        Seq::empty()
    } else {
        spec_descriptor_bytes(ds[0]) + spec_directory_bytes(ds.drop_first())
    }
}

/// A directory's bytes are 32 per descriptor, and appending a descriptor
/// appends its bytes.
pub proof fn lemma_directory_bytes_push(ds: Seq<SegmentDescriptorView>, d: SegmentDescriptorView)
    ensures
        spec_directory_bytes(ds).len() == 32 * ds.len(),
        spec_directory_bytes(ds.push(d)) == spec_directory_bytes(ds) + spec_descriptor_bytes(d),
    decreases ds.len(),
{
    lemma_descriptor_bytes_roundtrip(d);
    if ds.len() == 0 {
        assert(ds.push(d).drop_first() =~= Seq::<SegmentDescriptorView>::empty());
        assert(ds.push(d)[0] == d);
        assert(spec_directory_bytes(ds.push(d).drop_first()) == Seq::<u8>::empty());
        assert(spec_directory_bytes(ds) == Seq::<u8>::empty());
        assert(spec_directory_bytes(ds.push(d)) =~= spec_descriptor_bytes(d));
    } else {
        lemma_descriptor_bytes_roundtrip(ds[0]);
        lemma_directory_bytes_push(ds.drop_first(), d);
        assert(ds.push(d).drop_first() =~= ds.drop_first().push(d));
        assert(spec_directory_bytes(ds.push(d)) =~= spec_directory_bytes(ds)
            + spec_descriptor_bytes(d));
    }
}

/// Round trip: a directory of entries that all validate against the file
/// size, written and parsed back, gives the same entries; a directory with an
/// entry that does not validate is refused.
pub proof fn law_directory_write_then_parse(ds: Seq<SegmentDescriptorView>, file_size: u64)
    ensures
        (forall|i: int| 0 <= i < ds.len() ==> spec_validate(#[trigger] ds[i], file_size) is Ok)
            ==> spec_parse_directory(spec_directory_bytes(ds), file_size) == Ok::<
            Seq<SegmentDescriptorView>,
            Error,
        >(ds),
        (exists|i: int| 0 <= i < ds.len() && spec_validate(#[trigger] ds[i], file_size) is Err)
            ==> spec_parse_directory(spec_directory_bytes(ds), file_size) is Err,
    decreases ds.len(),
{
    if ds.len() > 0 {
        let b = spec_directory_bytes(ds);
        let tail = ds.drop_first();
        lemma_descriptor_bytes_roundtrip(ds[0]);
        lemma_directory_bytes_push(tail, ds[0]);
        assert(b.subrange(0, 32) =~= spec_descriptor_bytes(ds[0]));
        assert(b.skip(32) =~= spec_directory_bytes(tail));
        law_directory_write_then_parse(tail, file_size);
        if forall|i: int| 0 <= i < ds.len() ==> spec_validate(#[trigger] ds[i], file_size) is Ok {
            assert(spec_validate(ds[0], file_size) is Ok);
            assert forall|i: int| 0 <= i < tail.len() implies spec_validate(
                #[trigger] tail[i],
                file_size,
            ) is Ok by {
                assert(tail[i] == ds[i + 1]);
            }
            assert(seq![ds[0]] + tail =~= ds);
        }
        if exists|i: int| 0 <= i < ds.len() && spec_validate(#[trigger] ds[i], file_size) is Err {
            let i = choose|i: int| 0 <= i < ds.len() && spec_validate(#[trigger] ds[i], file_size) is Err;
            if i > 0 {
                assert(tail[i - 1] == ds[i]);
                assert(spec_validate(tail[i - 1], file_size) is Err);
            }
        }
    } else {
        assert(ds =~= Seq::<SegmentDescriptorView>::empty());
    }
}

/// Round trip the other way, and the directory's invariant: bytes that parse
/// as a directory are exactly the bytes its entries write, 32 per entry, and
/// every parsed entry starts on a 4K boundary and ends inside the file.
pub proof fn law_directory_parse_then_write(b: Seq<u8>, file_size: u64)
    ensures
        spec_parse_directory(b, file_size) matches Ok(ds) ==> {
            &&& spec_directory_bytes(ds) == b
            &&& b.len() == 32 * ds.len()
            &&& forall|i: int|
                0 <= i < ds.len() ==> (#[trigger] ds[i]).offset % 4096 == 0 && ds[i].offset
                    + ds[i].length <= file_size
        },
    decreases b.len(),
{
    if b.len() >= 32 {
        let d = spec_descriptor_from_bytes(b.subrange(0, 32));
        law_directory_parse_then_write(b.skip(32), file_size);
        if let Ok(ds) = spec_parse_directory(b, file_size) {
            let rest = spec_parse_directory(b.skip(32), file_size)->Ok_0;
            assert(ds == seq![d] + rest);
            assert(ds[0] == d);
            assert(ds.drop_first() =~= rest);
            law_descriptor_parse_then_write(b.subrange(0, 32));
            assert(b.subrange(0, 32).subrange(0, 32) =~= b.subrange(0, 32));
            assert(spec_descriptor_bytes(d) == b.subrange(0, 32));
            assert(b =~= b.subrange(0, 32) + b.skip(32));
            lemma_directory_bytes_push(rest, d);
            assert forall|i: int| 0 <= i < ds.len() implies (#[trigger] ds[i]).offset % 4096
                == 0 && ds[i].offset + ds[i].length <= file_size by {
                if i > 0 {
                    assert(ds[i] == rest[i - 1]);
                }
            }
        }
    } else if b.len() == 0 {
        if let Ok(ds) = spec_parse_directory(b, file_size) {
            assert(ds.len() == 0);
            assert(spec_directory_bytes(ds) == Seq::<u8>::empty());
            assert(b =~= Seq::<u8>::empty());
        }
    }
}

impl SegmentDirectory {
    /// Parse a directory from raw bytes.
    pub fn parse(bytes: &[u8], file_size: u64) -> (r: Result<Self, Error>)
        ensures
            match r {
                Ok(dir) => spec_parse_directory(bytes@, file_size) == Ok::<
                    Seq<SegmentDescriptorView>,
                    Error,
                >(dir.entries_view()),
                Err(e) => spec_parse_directory(bytes@, file_size) == Err::<
                    Seq<SegmentDescriptorView>,
                    Error,
                >(e),
            },
    {
        let mut entries: Vec<SegmentDescriptor> = Vec::new();
        let mut pos: usize = 0;
        proof {
            assert(bytes@.skip(0) =~= bytes@);
            if let Ok(s) = spec_parse_directory(bytes@, file_size) {
                assert(spec_views(entries@) + s =~= s);
            }
        }
        while pos < bytes.len()
            invariant
                pos <= bytes@.len(),
                spec_parse_directory(bytes@, file_size) == spec_prefixed(
                    spec_views(entries@),
                    spec_parse_directory(bytes@.skip(pos as int), file_size),
                ),
            decreases bytes@.len() - pos,
        {
            let ghost rest = bytes@.skip(pos as int);
            if bytes.len() - pos < SegmentDescriptor::SIZE {
                return Err(Error::InvalidSegmentDirectory);
            }
            let descriptor = match SegmentDescriptor::parse(
                slice_subrange(bytes, pos, pos + SegmentDescriptor::SIZE),
            ) {
                Ok(d) => d,
                Err(e) => return Err(e),
            };
            proof {
                assert(rest.subrange(0, 32) =~= bytes@.subrange(pos as int, pos + 32));
                lemma_descriptor_from_prefix(
                    rest.subrange(0, 32),
                    bytes@.subrange(pos as int, pos + 32),
                );
                assert(rest.subrange(0, 32).subrange(0, 32) =~= rest.subrange(0, 32));
            }
            match descriptor.validate(file_size) {
                Ok(()) => {},
                Err(e) => return Err(e),
            }
            let ghost before = spec_views(entries@);
            entries.push(descriptor);
            pos += SegmentDescriptor::SIZE;
            proof {
                assert(rest.skip(32) =~= bytes@.skip(pos as int));
                assert(spec_views(entries@) =~= before.push(descriptor@));
                match spec_parse_directory(bytes@.skip(pos as int), file_size) {
                    Ok(s) => {
                        assert(before + (seq![descriptor@] + s) =~= spec_views(entries@) + s);
                    },
                    Err(_) => {},
                }
            }
        }
        proof {
            assert(bytes@.skip(pos as int) =~= Seq::<u8>::empty());
            assert(spec_views(entries@) + Seq::<SegmentDescriptorView>::empty() =~= spec_views(
                entries@,
            ));
        }
        Ok(SegmentDirectory { entries })
    }

    /// Serialize the directory into the provided buffer.
    pub fn write_to(&self, out: &mut [u8]) -> (r: Result<(), Error>)
        requires
            self.entries@.len() * 32 <= usize::MAX,
        ensures
            old(out)@.len() < self.entries@.len() * 32 ==> (r matches Err(
                Error::InsufficientData,
            )) && final(out)@ == old(out)@,
            old(out)@.len() >= self.entries@.len() * 32 ==> r is Ok && final(out)@
                == spec_directory_bytes(self.entries_view()) + old(out)@.subrange(
                self.entries@.len() * 32 as int,
                old(out)@.len() as int,
            ),
    {
        let required = self.entries.len() * SegmentDescriptor::SIZE;
        if out.len() < required {
            return Err(Error::InsufficientData);
        }
        let ghost original = out@;
        let ghost ds = self.entries_view();
        let mut i: usize = 0;
        while i < self.entries.len()
            invariant
                i <= self.entries@.len(),
                self.entries@.len() * 32 <= original.len(),
                self.entries@.len() * 32 <= usize::MAX,
                ds == self.entries_view(),
                out@.len() == original.len(),
                out@ == spec_directory_bytes(ds.take(i as int)) + original.subrange(
                    i * 32,
                    original.len() as int,
                ),
            decreases self.entries@.len() - i,
        {
            proof {
                assert((i + 1) * 32 <= self.entries@.len() * 32) by (nonlinear_arith)
                    requires
                        i + 1 <= self.entries@.len(),
                ;
                lemma_directory_bytes_push(ds.take(i as int), ds[i as int]);
                lemma_descriptor_bytes_roundtrip(ds[i as int]);
            }
            let start = i * SegmentDescriptor::SIZE;
            self.entries[i].write_at(out, start);
            proof {
                assert(ds.take(i as int).push(ds[i as int]) =~= ds.take(i + 1));
                assert(out@ =~= spec_directory_bytes(ds.take(i + 1)) + original.subrange(
                    (i + 1) * 32,
                    original.len() as int,
                ));
            }
            i += 1;
        }
        proof {
            assert(ds.take(i as int) =~= ds);
        }
        Ok(())
    }

    /// Layout the directory using 4K segment alignment: the directory starts
    /// at the first 4K boundary after the header and holds 32 bytes per entry.
    pub fn layout(entries: &[SegmentDescriptor]) -> (r: (u64, u64))
        requires
            entries@.len() * 32 <= usize::MAX,
        ensures
            r.0 == 4096,
            r.1 == entries@.len() * 32,
    {
        let directory_size = (entries.len() * SegmentDescriptor::SIZE) as u64;
        let directory_offset = align_up(HEADER_SIZE as u64, SEGMENT_ALIGNMENT as u64);
        (directory_offset, directory_size)
    }
}

} // verus!

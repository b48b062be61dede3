//! NFL: an immutable, segment-oriented storage file format.
//!
//! The library holds the verified logic of the format: alignment arithmetic,
//! the fixed-size file header with its checksum, segment descriptors and the
//! segment directory, the compact schema encoding, the mapping between schema
//! field types and Arrow data types, and the zero-copy segment reader over a
//! memory-mapped file.
#![allow(unused_imports)]

pub mod align;
pub mod arrow;
pub mod error;
pub mod layout;
mod le;
pub mod mmap;
pub mod schema;

pub use align::{align_up, is_aligned, SEGMENT_ALIGNMENT};
pub use arrow::{ArrowSchemaArrowExt, SchemaArrowExt};
pub use error::Error;
pub use layout::{Header, SegmentDescriptor, SegmentDirectory, SegmentKind};
pub use mmap::{NflFile, SegmentView};
pub use schema::{Field, FieldType, Schema};

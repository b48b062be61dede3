//! NFL file format: the file header, segment descriptors and the segment directory.
pub mod directory;
pub mod header;
pub mod segment;

pub use header::{Header, HeaderView, CURRENT_FORMAT_VERSION, HEADER_SIZE, NFL_MAGIC};
pub use segment::{SegmentDescriptor, SegmentDescriptorView, SegmentKind};
pub use directory::SegmentDirectory;

# nfl

NFL is an immutable, segment-oriented storage file format built for
memory-mapped, zero-copy reads. This crate is its verified core:

- `src/align.rs` — 4K alignment arithmetic (`align_up`, `is_aligned`).
- `src/layout/` — the 48-byte file header and its checksum, the 32-byte
  segment descriptor, segment kinds, and the segment directory, each with
  parse/write round-trip laws.
- `src/schema.rs` — field types and the compact schema encoding.
- `src/arrow.rs` — the mapping between schemas and Arrow schema descriptions.
- `src/mmap.rs` — opening a memory-mapped file and zero-copy segment views.
- `src/le.rs` — little-endian access through the `byteorder` crate.

`app/` holds what is not verified: opening and mapping files from disk, the
error type with display messages, and conversion to and from `arrow2` schemas.

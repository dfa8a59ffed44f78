//! Decoding of the section-header table of an executable-and-linking object
//! file from an in-memory byte buffer.
//!
//! The on-disk layout varies along two axes: the addressing class (32- or
//! 64-bit, which widens five address-sized fields and the flags field) and
//! the byte order (little- or big-endian). Every record decodes to one
//! canonical in-memory representation, [`section::SectionHeader`].
//!
//! A single record is decoded with [`section::SectionHeader::parse_at`]; a
//! whole table is enumerated lazily with [`section::SectionHeaderIterator`],
//! which treats a trailing partial record as clean exhaustion rather than an
//! error.

pub mod gabi;
pub mod parse;
pub mod section;

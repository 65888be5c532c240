//! A verified reader for single-file, page-structured databases in the
//! on-disk layout popularized by SQLite: a fixed 100-byte file header,
//! fixed-size pages, and leaf b-tree pages holding variable-length records
//! encoded with a type-tagged column format.
//!
//! The crate covers the binary decoding pipeline — file-header parsing,
//! varint decoding, page and cell-pointer parsing, record and serial-type
//! decoding — together with the schema catalog built from the root page and
//! a table scanner that projects requested columns. File I/O, command
//! dispatch and output formatting live outside the library; callers hand in
//! raw page bytes and receive typed values back.

pub mod binary;
pub mod catalog;
pub mod error;
pub mod page;
pub mod parser;
pub mod record;
pub mod strutil;
pub mod value;
pub mod varint;

//! Error kinds of the decoding pipeline.
//!
//! Every decoding operation returns a `Result` with one of these kinds
//! rather than aborting; only a consuming application decides whether an
//! error terminates the process. I/O failures happen outside the library
//! (the library only ever sees byte buffers), and the two text-fragment
//! parsers report their own parse errors as messages.

use vstd::prelude::*;

verus! {

#[derive(Clone, Copy, Debug, PartialEq, Eq, Structural)]
pub enum DbError {
    /// The file header names a text encoding other than UTF-8.
    UnsupportedTextEncoding,
    /// A page is neither a leaf-table nor a leaf-index page.
    UnsupportedPageType,
    /// A record's serial types, lengths and payload do not agree, or a text
    /// column holds invalid UTF-8.
    MalformedRecord,
    /// A schema row's table name differs from the name in its `CREATE TABLE`
    /// text.
    SchemaInconsistency,
    /// No catalog entry carries the requested table name.
    TableNotFound,
    /// No column of the resolved table carries a requested column name.
    ColumnNotFound,
}

} // verus!

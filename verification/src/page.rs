//! File-header and page parsing.
//!
//! The file starts with a 100-byte header: the page size is the big-endian
//! 16-bit field at offset 16, the text encoding the big-endian 32-bit field
//! at offset 56, and only the UTF-8 code (1) is supported. Pages are
//! `page_size` bytes each. A page's header occupies its first 8 bytes —
//! except on the first page, where the file header shifts it to bytes
//! 100..108 — and is followed by the cell-pointer array of big-endian
//! 16-bit offsets. Cell offsets always count from the start of the full
//! page buffer, on the first page too.

use crate::binary::{be_uint, lemma_be_uint_bound, read_be_uint};
use crate::error::DbError;
use vstd::arithmetic::power2::lemma2_to64;
use vstd::prelude::*;

verus! {

/// The fields of the 100-byte file header that the pipeline consumes.
#[derive(Clone, Copy, Debug, PartialEq, Eq, Structural)]
pub struct DbInfo {
    pub page_size: u16,
    pub text_encoding: u32,
}

/// Parse the fixed file header. Fails, before any page is read, on every
/// text encoding other than the UTF-8 code.
pub fn parse_dbinfo(header: &[u8]) -> (r: Result<DbInfo, DbError>)
    requires
        header@.len() >= 100,
    ensures
        r is Ok <==> be_uint(header@.subrange(56, 60)) == 1,
        r is Err ==> r == Err::<DbInfo, DbError>(DbError::UnsupportedTextEncoding),
        r is Ok ==> r == Ok::<DbInfo, DbError>(
            DbInfo {
                page_size: be_uint(header@.subrange(16, 18)) as u16,
                text_encoding: 1u32,
            },
        ),
{
    let enc = read_be_uint(header, 56, 4);
    if enc != 1 {
        return Err(DbError::UnsupportedTextEncoding);
    }
    let ps = read_be_uint(header, 16, 2);
    proof {
        lemma_be_uint_bound(header@.subrange(16, 18));
        lemma2_to64();
    }
    Ok(DbInfo { page_size: ps as u16, text_encoding: 1 })
}

/// Offset of the page header within the page buffer: the first page starts
/// with the 100-byte file header.
pub open spec fn spec_page_base(first: bool) -> int {
    if first {
        100
    } else {
        0
    }
}

/// The page's cell count: the big-endian 16-bit field at page-header
/// offset 3.
pub open spec fn spec_cell_count(data: Seq<u8>, first: bool) -> int {
    be_uint(data.subrange(spec_page_base(first) + 3, spec_page_base(first) + 5))
}

/// One decoded page: the parsed header fields, the cell-pointer array, and
/// the owned raw page bytes that cell offsets point into.
#[derive(Debug)]
pub struct Page {
    pub page_type: u8,
    pub freeblock_start: u16,
    pub cell_count: u16,
    pub cell_content_area: u16,
    pub cell_offsets: Vec<u16>,
    pub data: Vec<u8>,
}

/// Parse one page from its raw bytes. `first` marks the page at file offset
/// zero. Only the two leaf page types (0x0d leaf table, 0x0a leaf index)
/// are accepted; interior pages are out of scope.
pub fn parse_page(data: Vec<u8>, first: bool) -> (r: Result<Page, DbError>)
    requires
        spec_page_base(first) + 8 <= data@.len(),
        spec_page_base(first) + 8 + 2 * spec_cell_count(data@, first) <= data@.len(),
    ensures
        r is Ok <==> (data@[spec_page_base(first)] == 0x0a || data@[spec_page_base(first)]
            == 0x0d),
        r is Err ==> r == Err::<Page, DbError>(DbError::UnsupportedPageType),
        match r {
            Ok(p) => {
                let base = spec_page_base(first);
                &&& p.page_type == data@[base]
                &&& p.freeblock_start == be_uint(data@.subrange(base + 1, base + 3))
                &&& p.cell_count == spec_cell_count(data@, first)
                &&& p.cell_content_area == be_uint(data@.subrange(base + 5, base + 7))
                &&& p.cell_offsets@.len() == p.cell_count
                &&& (forall|j: int|
                    0 <= j < p.cell_offsets@.len() ==> p.cell_offsets@[j] == be_uint(
                        data@.subrange(base + 8 + 2 * j, base + 10 + 2 * j),
                    ))
                &&& p.data@ == data@
            },
            Err(_) => true,
        },
{
    let n = data.len();
    let base: usize = if first {
        100
    } else {
        0
    };
    let page_type = data[base];
    if !(page_type == 0x0a || page_type == 0x0d) {
        return Err(DbError::UnsupportedPageType);
    }
    proof {
        lemma2_to64();
        lemma_be_uint_bound(data@.subrange(base + 1, base + 3));
        lemma_be_uint_bound(data@.subrange(base + 3, base + 5));
        lemma_be_uint_bound(data@.subrange(base + 5, base + 7));
    }
    let freeblock_start = read_be_uint(data.as_slice(), base + 1, 2) as u16;
    let cell_count = read_be_uint(data.as_slice(), base + 3, 2) as u16;
    let cell_content_area = read_be_uint(data.as_slice(), base + 5, 2) as u16;
    let mut cell_offsets: Vec<u16> = Vec::new();
    let mut j: usize = 0;
    while j < cell_count as usize
        invariant
            j <= cell_count,
            n == data@.len(),
            spec_page_base(first) == base,
            cell_count == spec_cell_count(data@, first),
            base + 8 + 2 * (cell_count as int) <= n,
            cell_offsets@.len() == j,
            forall|i: int|
                0 <= i < j ==> cell_offsets@[i] == be_uint(
                    data@.subrange(base + 8 + 2 * i, base + 10 + 2 * i),
                ),
        decreases cell_count - j,
    {
        proof {
            lemma2_to64();
            lemma_be_uint_bound(data@.subrange(base + 8 + 2 * j, base + 10 + 2 * j));
        }
        let off = read_be_uint(data.as_slice(), base + 8 + 2 * j, 2) as u16;
        cell_offsets.push(off);
        j = j + 1;
    }
    Ok(
        Page {
            page_type,
            freeblock_start,
            cell_count,
            cell_content_area,
            cell_offsets,
            data,
        },
    )
}

} // verus!

//! Record (row) decoding.
//!
//! A cell holds, in order: the total payload length (varint, recorded but
//! not validated further), the row id (varint), the record-header length
//! `H` (varint, counting its own bytes), the serial-type list (varints
//! filling exactly `H` minus the length varint's own size), and the record
//! body, one value per serial type in column order. Any disagreement
//! between the header length, the serial types and the available bytes is
//! a malformed record, as is invalid UTF-8 in a text column; a malformed
//! cell aborts the scan of its page rather than being skipped.

use crate::error::DbError;
use crate::page::Page;
use crate::value::{
    col_value, serial_type_size64, spec_col_value, spec_col_value_ok, spec_serial_size,
    valid_serial_type, ColType, SpecValue,
};
use crate::varint::{decode_varint, lemma_varint_len_bounds, spec_varint_len, spec_varint_value};
use vstd::prelude::*;
use vstd::slice::slice_subrange;

verus! {

/// One decoded record: the row id and the ordered column values.
pub struct Record {
    pub rowid: i64,
    pub values: Vec<ColType>,
}

/// The mathematical shape of a record.
pub struct SpecRecord {
    pub rowid: i64,
    pub values: Seq<SpecValue>,
}

/// The records of a vector, as mathematical values.
pub open spec fn view_records(rs: Seq<Record>) -> Seq<SpecRecord> {
    rs.map_values(|r: Record| r@)
}

/// The values of a column vector, as mathematical values.
pub open spec fn view_values(vs: Seq<ColType>) -> Seq<SpecValue> {
    vs.map_values(|c: ColType| c@)
}

impl View for Record {
    type V = SpecRecord;

    open spec fn view(&self) -> SpecRecord {
        SpecRecord { rowid: self.rowid, values: view_values(self.values@) }
    }
}

/// The serial types read from `b` starting at `pos`, where the list must
/// occupy exactly `remaining` bytes; `None` on any mismatch.
pub open spec fn spec_parse_serials(b: Seq<u8>, pos: int, remaining: int) -> Option<Seq<i64>>
    decreases remaining,
    when remaining >= 0
    via spec_parse_serials_dec
{
    if remaining == 0 {
        Some(Seq::empty())
    } else if pos >= b.len() || pos < 0 {
        None
    } else {
        let rest = b.subrange(pos, b.len() as int);
        let len = spec_varint_len(rest);
        let v = spec_varint_value(rest);
        if len > remaining {
            None
        } else {
            match spec_parse_serials(b, pos + len, remaining - len) {
                Some(tail) => Some(seq![v as i64] + tail),
                None => None,
            }
        }
    }
}

#[via_fn]
proof fn spec_parse_serials_dec(b: Seq<u8>, pos: int, remaining: int) {
    if remaining > 0 && 0 <= pos < b.len() {
        lemma_varint_len_bounds(b.subrange(pos, b.len() as int));
    }
}

/// The column values read from `b` at `pos` under the serial types in
/// order; `None` if a serial type is invalid, a value overruns the buffer,
/// or a text column holds invalid UTF-8.
pub open spec fn spec_decode_values(b: Seq<u8>, pos: int, serials: Seq<i64>) -> Option<
    Seq<SpecValue>,
>
    decreases serials.len(),
{
    if serials.len() == 0 {
        Some(Seq::empty())
    } else {
        let t = serials[0] as int;
        if !valid_serial_type(t) {
            None
        } else if pos < 0 || pos + spec_serial_size(t) > b.len() {
            None
        } else if !spec_col_value_ok(t, b, pos) {
            None
        } else {
            match spec_decode_values(b, pos + spec_serial_size(t), serials.drop_first()) {
                Some(vs) => Some(seq![spec_col_value(t, b, pos)] + vs),
                None => None,
            }
        }
    }
}

/// Positions fixed by a cell's three leading varints: the start of the
/// serial-type list, the byte count the list must fill (negative when the
/// header length is shorter than its own varint), and the row id.
pub open spec fn spec_record_parts(cell: Seq<u8>) -> (int, int, int) {
    let l1 = spec_varint_len(cell);
    let rest1 = cell.subrange(l1, cell.len() as int);
    let rowid = spec_varint_value(rest1);
    let p2 = l1 + spec_varint_len(rest1);
    let rest2 = cell.subrange(p2, cell.len() as int);
    let hlen = spec_varint_value(rest2);
    let j = spec_varint_len(rest2);
    (p2 + j, hlen - j, rowid)
}

/// The record decoded from the cell starting at byte `start` of `b`, or
/// `None` if the cell is malformed.
pub open spec fn spec_decode_record(b: Seq<u8>, start: int) -> Option<SpecRecord> {
    if start > b.len() || start < 0 {
        None
    } else {
        let cell = b.subrange(start, b.len() as int);
        let (p3, rem, rowid) = spec_record_parts(cell);
        if rem < 0 {
            None
        } else {
            match spec_parse_serials(cell, p3, rem) {
                None => None,
                Some(serials) => match spec_decode_values(cell, p3 + rem, serials) {
                    None => None,
                    Some(vals) => Some(SpecRecord { rowid: rowid as i64, values: vals }),
                },
            }
        }
    }
}

/// Decode the record of the cell starting at `offset`. Returns
/// `MalformedRecord` exactly when the cell does not decode.
pub fn decode_record(page: &[u8], offset: usize) -> (r: Result<Record, DbError>)
    ensures
        match spec_decode_record(page@, offset as int) {
            Some(rec) => r matches Ok(rr) && rr@ == rec,
            None => r == Err::<Record, DbError>(DbError::MalformedRecord),
        },
{
    let n = page.len();
    if offset > n {
        return Err(DbError::MalformedRecord);
    }
    let cell = slice_subrange(page, offset, n);
    let cn = cell.len();
    let ghost cellv = cell@;
    let (_payload, l1) = decode_varint(cell);
    let rest1 = slice_subrange(cell, l1, cn);
    let (rowid, l2) = decode_varint(rest1);
    let p2 = l1 + l2;
    let rest2 = slice_subrange(cell, p2, cn);
    let (hlen, j) = decode_varint(rest2);
    let p3 = p2 + j;
    if hlen < j as i64 {
        return Err(DbError::MalformedRecord);
    }
    let ghost rem0 = hlen - j as int;

    // Serial-type list: must fill exactly `hlen - j` bytes.
    let mut rem: i64 = hlen - j as i64;
    let mut pos: usize = p3;
    let mut serials: Vec<i64> = Vec::new();
    proof {
        match spec_parse_serials(cellv, p3 as int, rem0) {
            Some(tail) => {
                assert(serials@ + tail =~= tail);
            },
            None => {},
        }
    }
    while rem > 0
        invariant
            p3 <= pos <= cn,
            cn == cellv.len(),
            cellv == cell@,
            0 <= offset <= page@.len(),
            cell@ == page@.subrange(offset as int, page@.len() as int),
            spec_record_parts(cellv) == (p3 as int, rem0, spec_record_parts(cellv).2),
            0 <= rem,
            pos - p3 == rem0 - rem,
            0 <= rem0,
            match spec_parse_serials(cellv, pos as int, rem as int) {
                Some(tail) => spec_parse_serials(cellv, p3 as int, rem0) == Some(serials@ + tail),
                None => spec_parse_serials(cellv, p3 as int, rem0) is None,
            },
        decreases rem,
    {
        if pos >= cn {
            proof {
                assert(spec_parse_serials(cellv, pos as int, rem as int) is None);
            }
            return Err(DbError::MalformedRecord);
        }
        let rest = slice_subrange(cell, pos, cn);
        let (v, len) = decode_varint(rest);
        if (len as i64) > rem {
            proof {
                assert(spec_parse_serials(cellv, pos as int, rem as int) is None);
            }
            return Err(DbError::MalformedRecord);
        }
        let ghost old_serials = serials@;
        serials.push(v);
        pos = pos + len;
        rem = rem - len as i64;
        proof {
            match spec_parse_serials(cellv, pos as int, rem as int) {
                Some(tail) => {
                    assert(old_serials + (seq![v] + tail) =~= serials@ + tail);
                },
                None => {},
            }
        }
    }
    proof {
        assert(spec_parse_serials(cellv, pos as int, 0) == Some(Seq::<i64>::empty()));
        assert(serials@ + Seq::<i64>::empty() =~= serials@);
        assert(spec_parse_serials(cellv, p3 as int, rem0) == Some(serials@));
    }

    // Record body: one value per serial type, in column order.
    let ghost vpos0 = pos as int;
    let mut values: Vec<ColType> = Vec::new();
    let mut k: usize = 0;
    let nserials = serials.len();
    proof {
        assert(serials@.skip(0) =~= serials@);
        match spec_decode_values(cellv, vpos0, serials@) {
            Some(vs) => {
                assert(view_values(values@) + vs =~= vs);
            },
            None => {},
        }
    }
    while k < nserials
        invariant
            0 <= k <= nserials,
            nserials == serials@.len(),
            pos <= cn,
            cn == cellv.len(),
            cellv == cell@,
            0 <= offset <= page@.len(),
            cell@ == page@.subrange(offset as int, page@.len() as int),
            spec_record_parts(cellv) == (p3 as int, rem0, spec_record_parts(cellv).2),
            0 <= rem0,
            vpos0 == p3 + rem0,
            spec_parse_serials(cellv, p3 as int, rem0) == Some(serials@),
            values@.len() == k,
            match spec_decode_values(cellv, pos as int, serials@.skip(k as int)) {
                Some(vs) => spec_decode_values(cellv, vpos0, serials@) == Some(
                    view_values(values@) + vs,
                ),
                None => spec_decode_values(cellv, vpos0, serials@) is None,
            },
        decreases nserials - k,
    {
        let t = serials[k];
        proof {
            assert(serials@.skip(k as int)[0] == serials@[k as int]);
        }
        if !((0 <= t && t <= 9) || t >= 12) {
            return Err(DbError::MalformedRecord);
        }
        let w64 = serial_type_size64(t);
        if w64 > (cn - pos) as u64 {
            return Err(DbError::MalformedRecord);
        }
        let w = w64 as usize;
        let ghost old_values = values@;
        match col_value(t, cell, pos) {
            Ok(v) => {
                values.push(v);
            },
            Err(_) => {
                return Err(DbError::MalformedRecord);
            },
        }
        pos = pos + w;
        k = k + 1;
        proof {
            assert(serials@.skip(k - 1).drop_first() =~= serials@.skip(k as int));
            match spec_decode_values(cellv, pos as int, serials@.skip(k as int)) {
                Some(vs) => {
                    assert(view_values(values@) =~= view_values(old_values).push(
                        spec_col_value(t as int, cellv, pos - w),
                    ));
                    assert(view_values(old_values) + (seq![
                        spec_col_value(t as int, cellv, pos - w),
                    ] + vs) =~= view_values(values@) + vs);
                },
                None => {},
            }
        }
    }
    proof {
        assert(serials@.skip(nserials as int) =~= Seq::<i64>::empty());
        assert(view_values(values@) + Seq::<SpecValue>::empty() =~= view_values(values@));
    }
    Ok(Record { rowid, values })
}

/// Decode every cell of a page, in cell-pointer order. Succeeds exactly
/// when every cell decodes; one malformed cell fails the whole page.
pub fn parse_cell_as_rows(p: &Page) -> (r: Result<Vec<Record>, DbError>)
    ensures
        r is Ok <==> (forall|i: int|
            0 <= i < p.cell_offsets@.len() ==> spec_decode_record(
                p.data@,
                p.cell_offsets@[i] as int,
            ) is Some),
        r is Err ==> r == Err::<Vec<Record>, DbError>(DbError::MalformedRecord),
        match r {
            Ok(rows) => {
                &&& rows@.len() == p.cell_offsets@.len()
                &&& (forall|i: int|
                    0 <= i < rows@.len() ==> #[trigger] rows@[i]@ == spec_decode_record(
                        p.data@,
                        p.cell_offsets@[i] as int,
                    ).unwrap())
            },
            Err(_) => true,
        },
{
    let ncells = p.cell_offsets.len();
    let mut rows: Vec<Record> = Vec::new();
    let mut i: usize = 0;
    while i < ncells
        invariant
            0 <= i <= ncells,
            ncells == p.cell_offsets@.len(),
            rows@.len() == i,
            forall|q: int|
                0 <= q < i ==> spec_decode_record(p.data@, p.cell_offsets@[q] as int) is Some,
            forall|q: int|
                0 <= q < i ==> #[trigger] rows@[q]@ == spec_decode_record(
                    p.data@,
                    p.cell_offsets@[q] as int,
                ).unwrap(),
        decreases ncells - i,
    {
        let off = p.cell_offsets[i];
        match decode_record(p.data.as_slice(), off as usize) {
            Ok(rec) => {
                rows.push(rec);
            },
            Err(_) => {
                proof {
                    assert(spec_decode_record(p.data@, p.cell_offsets@[i as int] as int) is None);
                }
                return Err(DbError::MalformedRecord);
            },
        }
        i = i + 1;
    }
    Ok(rows)
}

} // verus!

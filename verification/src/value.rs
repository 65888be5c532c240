//! Typed column values and the serial-type table.
//!
//! Each column of a record is tagged by one "serial type" integer that
//! selects both the variant of the value and its byte width in the record
//! body. The table is closed: serial types 10 and 11 are reserved and every
//! other value outside the table marks a corrupt record.
//!
//! A float column is held as the raw bits of its big-endian 64-bit IEEE-754
//! payload; consumers that want to display it reinterpret the bits outside
//! the library.

use crate::binary::{be_int, be_uint, lemma_be_int_bound, lemma_be_uint_bound, read_be_int, read_be_uint};
use crate::error::DbError;
use crate::strutil::string_from_utf8;
use vstd::prelude::*;
use vstd::arithmetic::power2::{lemma2_to64, lemma2_to64_rest};
use vstd::slice::{slice_subrange, slice_to_vec};
use vstd::utf8::{decode_utf8, valid_utf8};

verus! {

/// One decoded column value.
#[derive(Debug)]
pub enum ColType {
    Null,
    Integer(i64),
    /// Raw bits of a big-endian 64-bit IEEE-754 value.
    Float(u64),
    /// Reserved serial types 10 and 11 carry no decodable value; the record
    /// decoder rejects them, so this variant never leaves a successful
    /// decode.
    Reserved,
    /// A blob records only its length; the bytes stay in the page buffer.
    Blob(usize),
    Text(String),
}

/// The mathematical shape of a column value.
pub enum SpecValue {
    Null,
    Integer(i64),
    Float(u64),
    Reserved,
    Blob(nat),
    Text(Seq<char>),
}

impl View for ColType {
    type V = SpecValue;

    open spec fn view(&self) -> SpecValue {
        match self {
            ColType::Null => SpecValue::Null,
            ColType::Integer(v) => SpecValue::Integer(*v),
            ColType::Float(bits) => SpecValue::Float(*bits),
            ColType::Reserved => SpecValue::Reserved,
            ColType::Blob(len) => SpecValue::Blob(*len as nat),
            ColType::Text(s) => SpecValue::Text(s@),
        }
    }
}

impl Clone for ColType {
    fn clone(&self) -> (r: Self)
        ensures
            r == *self,
    {
        match self {
            ColType::Null => ColType::Null,
            ColType::Integer(v) => ColType::Integer(*v),
            ColType::Float(bits) => ColType::Float(*bits),
            ColType::Reserved => ColType::Reserved,
            ColType::Blob(len) => ColType::Blob(*len),
            ColType::Text(s) => ColType::Text(s.clone()),
        }
    }
}

/// Serial types the decoder accepts: 10 and 11 are reserved, negative and
/// in-between values do not occur in the table.
pub open spec fn valid_serial_type(t: int) -> bool {
    0 <= t <= 9 || 12 <= t
}

pub open spec fn is_text_serial(t: int) -> bool {
    13 <= t && t % 2 == 1
}

/// Byte width of a column with serial type `t` in the record body.
pub open spec fn spec_serial_size(t: int) -> int
    recommends
        valid_serial_type(t),
{
    if t == 0 {
        0
    } else if t == 1 {
        1
    } else if t == 2 {
        2
    } else if t == 3 {
        3
    } else if t == 4 {
        4
    } else if t == 5 {
        6
    } else if t == 6 {
        8
    } else if t == 7 {
        8
    } else if t == 8 || t == 9 {
        0
    } else if t % 2 == 0 {
        (t - 12) / 2
    } else {
        (t - 13) / 2
    }
}

/// Whether the bytes at `pos` decode under serial type `t`: only a text
/// column can fail, on invalid UTF-8.
pub open spec fn spec_col_value_ok(t: int, b: Seq<u8>, pos: int) -> bool {
    is_text_serial(t) ==> valid_utf8(b.subrange(pos, pos + spec_serial_size(t)))
}

/// The value encoded at `pos` under serial type `t`. Serial types 8 and 9
/// consume no bytes and denote the constants 0 and 1.
pub open spec fn spec_col_value(t: int, b: Seq<u8>, pos: int) -> SpecValue
    recommends
        valid_serial_type(t),
{
    if t == 0 {
        SpecValue::Null
    } else if 1 <= t <= 6 {
        SpecValue::Integer(be_int(b.subrange(pos, pos + spec_serial_size(t))) as i64)
    } else if t == 7 {
        SpecValue::Float(be_uint(b.subrange(pos, pos + 8)) as u64)
    } else if t == 8 {
        SpecValue::Integer(0)
    } else if t == 9 {
        SpecValue::Integer(1)
    } else if t % 2 == 0 {
        SpecValue::Blob(((t - 12) / 2) as nat)
    } else {
        SpecValue::Text(decode_utf8(b.subrange(pos, pos + spec_serial_size(t))))
    }
}

/// Byte width of serial type `serial_type` per the closed table.
pub fn serial_type_size(serial_type: i64) -> (s: usize)
    requires
        valid_serial_type(serial_type as int),
        spec_serial_size(serial_type as int) <= usize::MAX,
    ensures
        s == spec_serial_size(serial_type as int),
{
    serial_type_size64(serial_type) as usize
}

/// Byte width of serial type `serial_type`, wide enough for every valid
/// serial type.
pub fn serial_type_size64(serial_type: i64) -> (s: u64)
    requires
        valid_serial_type(serial_type as int),
    ensures
        s == spec_serial_size(serial_type as int),
{
    if serial_type == 0 {
        0
    } else if serial_type == 1 {
        1
    } else if serial_type == 2 {
        2
    } else if serial_type == 3 {
        3
    } else if serial_type == 4 {
        4
    } else if serial_type == 5 {
        6
    } else if serial_type == 6 {
        8
    } else if serial_type == 7 {
        8
    } else if serial_type == 8 || serial_type == 9 {
        0
    } else if serial_type % 2 == 0 {
        ((serial_type - 12) / 2) as u64
    } else {
        ((serial_type - 13) / 2) as u64
    }
}

/// Decode the column value with serial type `serial_type` at `start`.
/// Only a text column can fail, on invalid UTF-8.
pub fn col_value(serial_type: i64, buf: &[u8], start: usize) -> (r: Result<ColType, DbError>)
    requires
        valid_serial_type(serial_type as int),
        spec_serial_size(serial_type as int) <= usize::MAX,
        start + spec_serial_size(serial_type as int) <= buf@.len(),
    ensures
        match r {
            Ok(v) => spec_col_value_ok(serial_type as int, buf@, start as int) && v@
                == spec_col_value(serial_type as int, buf@, start as int),
            Err(e) => !spec_col_value_ok(serial_type as int, buf@, start as int) && e
                == DbError::MalformedRecord,
        },
{
    if serial_type == 0 {
        Ok(ColType::Null)
    } else if serial_type >= 1 && serial_type <= 6 {
        let w = serial_type_size(serial_type);
        let v = read_be_int(buf, start, w);
        proof {
            lemma_be_int_bound(buf@.subrange(start as int, start + w));
            lemma2_to64();
            lemma2_to64_rest();
        }
        Ok(ColType::Integer(v))
    } else if serial_type == 7 {
        let bits = read_be_uint(buf, start, 8);
        proof {
            lemma_be_uint_bound(buf@.subrange(start as int, start + 8));
            lemma2_to64();
            lemma2_to64_rest();
        }
        Ok(ColType::Float(bits))
    } else if serial_type == 8 {
        Ok(ColType::Integer(0))
    } else if serial_type == 9 {
        Ok(ColType::Integer(1))
    } else if serial_type % 2 == 0 {
        let len = serial_type_size(serial_type);
        Ok(ColType::Blob(len))
    } else {
        let len = serial_type_size(serial_type);
        let total = buf.len();
        proof {
            assert(start + len <= total);
        }
        let bytes = slice_to_vec(slice_subrange(buf, start, start + len));
        match string_from_utf8(bytes) {
            Some(s) => Ok(ColType::Text(s)),
            None => Err(DbError::MalformedRecord),
        }
    }
}

} // verus!

//! The table-map event, which describes the columns of a table that
//! later row events refer to.
use vstd::prelude::*;
use vstd::slice::slice_subrange;

use crate::error::ParseError;
use crate::events::{out_view, rest_is, Event, Header};
use crate::utils::{
    avail, field_text, le16, le32, le48, lenenc_at, lenenc_error, lenenc_value, lenenc_width,
    read_bytes, read_u16, read_u32, read_u48, read_u8, string_fixed,
};

verus! {

/// The number of bytes of a bitmap with one bit per column: the column
/// count divided by eight, rounded up.
pub open spec fn bitmap_len(n: int) -> int {
    (n + 7) / 8
}

/// Computes `bitmap_len` without overflow.
pub fn bitmap_bytes(n: u64) -> (r: u64)
    ensures
        r == bitmap_len(n as int),
{
    n / 8 + if n % 8 == 0 {
        0
    } else {
        1
    }
}

/// How the body `s` of a table map event with header `h` decodes: the
/// error met first, or the decoded event and the input after it.
pub open spec fn table_map_decoded(s: Seq<u8>, h: Header, r: Result<(Seq<u8>, Event), ParseError>) -> bool {
    let sl = s[8] as int;
    let t0 = 10 + sl;
    let tl = s[t0] as int;
    let c0 = t0 + 2 + tl;
    let cw = lenenc_width(s, c0);
    let cc = lenenc_value(s, c0) as int;
    let m0 = c0 + cw + cc;
    let mw = lenenc_width(s, m0);
    let mv = lenenc_value(s, m0) as int;
    let x = m0 + mw + mv;
    let bm = bitmap_len(cc);
    if !avail(s, 0, 9) || !avail(s, 9, sl + 1) {
        r == Err::<(Seq<u8>, Event), _>(ParseError::InsufficientData)
    } else if s[9 + sl] != 0 {
        r == Err::<(Seq<u8>, Event), _>(ParseError::InvariantViolation)
    } else if !avail(s, t0, 1) || !avail(s, t0 + 1, tl + 1) {
        r == Err::<(Seq<u8>, Event), _>(ParseError::InsufficientData)
    } else if s[t0 + 1 + tl] != 0 {
        r == Err::<(Seq<u8>, Event), _>(ParseError::InvariantViolation)
    } else if lenenc_error(s, c0) is Some {
        r == Err::<(Seq<u8>, Event), _>(lenenc_error(s, c0)->0)
    } else if !avail(s, c0 + cw, cc) {
        r == Err::<(Seq<u8>, Event), _>(ParseError::InsufficientData)
    } else if lenenc_error(s, m0) is Some {
        r == Err::<(Seq<u8>, Event), _>(lenenc_error(s, m0)->0)
    } else if !avail(s, m0 + mw, mv) || !avail(s, x, bm + 4) {
        r == Err::<(Seq<u8>, Event), _>(ParseError::InsufficientData)
    } else {
        match r {
            Ok(
                (
                    rest,
                    Event::TableMap {
                        header,
                        table_id,
                        flags,
                        schema_length,
                        schema,
                        table_name_length,
                        table_name,
                        column_count,
                        columns_type,
                        column_meta_def,
                        null_bits,
                        checksum,
                    },
                ),
            ) => {
                &&& header == h
                &&& table_id == le48(s, 0)
                &&& flags == le16(s, 6)
                &&& schema_length == s[8]
                &&& schema@ == field_text(s.subrange(9, 9 + sl))
                &&& table_name_length == s[t0]
                &&& table_name@ == field_text(s.subrange(t0 + 1, t0 + 1 + tl))
                &&& column_count == cc
                &&& columns_type@ == s.subrange(c0 + cw, c0 + cw + cc)
                &&& column_meta_def@ == s.subrange(m0 + mw, x)
                &&& null_bits@ == s.subrange(x, x + bm)
                &&& checksum == le32(s, x + bm)
                &&& rest_is(s, x + bm + 4, rest)
            },
            _ => false,
        }
    }
}

/// Reads a length-encoded count at `p` and then that many bytes; returns
/// the count, the bytes and the position after them.
fn lenenc_bytes(s: &[u8], p: usize) -> (r: Result<(u64, Vec<u8>, usize), ParseError>)
    requires
        p <= s@.len(),
    ensures
        match r {
            Ok((v, b, q)) => {
                let w = lenenc_width(s@, p as int);
                &&& lenenc_error(s@, p as int) is None
                &&& v == lenenc_value(s@, p as int)
                &&& avail(s@, p + w, v as int)
                &&& q == p + w + v
                &&& b@ == s@.subrange(p + w, q as int)
            },
            Err(e) => if lenenc_error(s@, p as int) is Some {
                lenenc_error(s@, p as int) == Some(e)
            } else {
                !avail(s@, p + lenenc_width(s@, p as int), lenenc_value(s@, p as int) as int) && e
                    == ParseError::InsufficientData
            },
        },
{
    let (v, w) = lenenc_at(s, p)?;
    if ((s.len() - (p + w)) as u64) < v {
        return Err(ParseError::InsufficientData);
    }
    let b = read_bytes(s, p + w, v as usize)?;
    Ok((v, b, p + w + v as usize))
}

/// Decodes a table-map event: table id, flags, the schema and table names
/// (each length-prefixed and NUL-terminated), the column count, one type
/// code per column, the column metadata, the null bitmap of
/// `ceil(column_count / 8)` bytes, and the checksum.
pub fn parse_table_map<'a>(input: &'a [u8], header: Header) -> (r: Result<(&'a [u8], Event), ParseError>)
    ensures
        table_map_decoded(input@, header, out_view(r)),
{
    let table_id = read_u48(input, 0)?;
    let flags = read_u16(input, 6)?;
    let (schema_length, schema) = string_fixed(input, 8)?;
    let p = 9 + schema_length as usize;
    let term = read_u8(input, p)?;
    if term != 0 {
        return Err(ParseError::InvariantViolation);
    }
    let (table_name_length, table_name) = string_fixed(input, p + 1)?;
    let p = p + 2 + table_name_length as usize;
    let term = read_u8(input, p)?;
    if term != 0 {
        return Err(ParseError::InvariantViolation);
    }
    let (column_count, columns_type, m0) = lenenc_bytes(input, p + 1)?;
    let (_, column_meta_def, x) = lenenc_bytes(input, m0)?;
    let bm = bitmap_bytes(column_count) as usize;
    if input.len() - x < bm || input.len() - x - bm < 4 {
        return Err(ParseError::InsufficientData);
    }
    let null_bits = read_bytes(input, x, bm)?;
    let checksum = read_u32(input, x + bm)?;
    Ok(
        (
            slice_subrange(input, x + bm + 4, input.len()),
            Event::TableMap {
                header,
                table_id,
                flags,
                schema_length,
                schema,
                table_name_length,
                table_name,
                column_count,
                columns_type,
                column_meta_def,
                null_bits,
                checksum,
            },
        ),
    )
}

/// The null bitmap of a decoded table map has one bit for each column:
/// `ceil(column_count / 8)` bytes.
pub proof fn lemma_table_map_null_bitmap(s: Seq<u8>, h: Header, rest: Seq<u8>, e: Event)
    requires
        table_map_decoded(s, h, Ok((rest, e))),
    ensures
        e is TableMap,
        8 * e->TableMap_null_bits@.len() >= e->TableMap_column_count,
        8 * e->TableMap_null_bits@.len() < e->TableMap_column_count + 8,
{
}

} // verus!

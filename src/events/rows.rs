//! Parts shared by the row events: their flags and extra data.
use vstd::prelude::*;

use crate::error::ParseError;
use crate::events::table_map::{bitmap_bytes, bitmap_len};
use crate::events::{bit, out_view, rest_is, tail, tail_len, Event, Header};
use crate::utils::{
    avail, le16, le32, le48, lenenc_at, lenenc_error, lenenc_value, lenenc_width, read_bytes,
    read_u16, read_u32, read_u48,
};
use vstd::slice::slice_subrange;

verus! {

/// The flags of a row event. Foreign-key checks and unique-key checks are
/// enabled when their bit is clear; the other two flags when it is set.
#[derive(Debug, Clone, Copy, PartialEq, Eq, Structural)]
pub struct Flags {
    pub end_of_stmt: bool,
    pub foreign_key_checks: bool,
    pub unique_key_checks: bool,
    pub has_columns: bool,
}

/// The flags held in the 16-bit word `f`.
pub open spec fn flags_of(f: u16) -> Flags {
    Flags {
        end_of_stmt: bit(f as int, 1),
        foreign_key_checks: !bit(f as int, 2),
        unique_key_checks: !bit(f as int, 4),
        has_columns: bit(f as int, 8),
    }
}

pub fn flags_from(f: u16) -> (r: Flags)
    ensures
        r == flags_of(f),
{
    Flags {
        end_of_stmt: f % 2 == 1,
        foreign_key_checks: !((f / 2) % 2 == 1),
        unique_key_checks: !((f / 4) % 2 == 1),
        has_columns: (f / 8) % 2 == 1,
    }
}

/// One tagged record of a row event's extra data: a tag byte, a length
/// byte that counts itself and the format byte, a format byte, and the
/// payload.
#[derive(Debug, Clone, PartialEq, Eq)]
pub struct ExtraData {
    pub d_type: u8,
    pub format: u8,
    pub payload: Vec<u8>,
}

/// Why the extra-data record at `p` of the region `r` is refused, if it
/// is: its length byte is below 2 or it runs past the region. Every tag
/// is read alike.
pub open spec fn extra_error(r: Seq<u8>, p: int) -> Option<ParseError> {
    if !avail(r, p, 3) || r[p + 1] < 2 || !avail(r, p, 1 + r[p + 1] as int) {
        Some(ParseError::MalformedLength)
    } else {
        None
    }
}

/// `x` is the value of the well-formed extra-data record at `p`.
pub open spec fn extra_decoded(r: Seq<u8>, p: int, x: ExtraData) -> bool {
    &&& x.d_type == r[p]
    &&& x.format == r[p + 2]
    &&& x.payload@ == r.subrange(p + 3, p + 1 + r[p + 1] as int)
}

/// Decodes the extra-data record at `p` of the region `r`; returns it and
/// the position after it.
pub fn parse_extra_data(r: &[u8], p: usize) -> (res: Result<(ExtraData, usize), ParseError>)
    requires
        p < r@.len(),
    ensures
        match res {
            Ok((x, e)) => extra_error(r@, p as int) is None && e == p + 1 + r@[p + 1]
                && extra_decoded(r@, p as int, x) && p < e <= r@.len(),
            Err(err) => extra_error(r@, p as int) == Some(err),
        },
{
    if r.len() - p < 3 || r[p + 1] < 2 || r.len() - p < 1 + r[p + 1] as usize {
        return Err(ParseError::MalformedLength);
    }
    let n = r[p + 1] as usize;
    let payload = match read_bytes(r, p + 3, n - 2) {
        Ok(b) => b,
        Err(_) => return Err(ParseError::MalformedLength),
    };
    Ok((ExtraData { d_type: r[p], format: r[p + 2], payload }, p + 1 + n))
}

/// Where the `i`-th extra-data record of the region `r` starts, if the
/// ones before it are well formed.
pub open spec fn extra_pos(r: Seq<u8>, i: nat) -> Option<int>
    decreases i,
{
    if i == 0 {
        Some(0)
    } else {
        match extra_pos(r, (i - 1) as nat) {
            Some(p) => if 0 <= p < r.len() && extra_error(r, p) is None {
                Some(p + 1 + r[p + 1] as int)
            } else {
                None
            },
            None => None,
        }
    }
}

/// The `i`-th extra-data record of `r` is well formed and has the value `x`.
pub open spec fn extra_at(r: Seq<u8>, i: int, x: ExtraData) -> bool {
    &&& extra_pos(r, i as nat) is Some
    &&& extra_pos(r, i as nat)->0 < r.len()
    &&& extra_decoded(r, extra_pos(r, i as nat)->0, x)
}

/// The region `r` is a run of well-formed extra-data records, and `xs`
/// are their values in order.
pub open spec fn extras_decoded(r: Seq<u8>, xs: Seq<ExtraData>) -> bool {
    &&& extra_pos(r, xs.len()) == Some(r.len() as int)
    &&& forall|i: int| 0 <= i < xs.len() ==> extra_at(r, i, #[trigger] xs[i])
}

/// Some extra-data record of `r`, after well-formed ones, is refused with
/// the error `e`.
pub open spec fn extras_refused(r: Seq<u8>, e: ParseError) -> bool {
    exists|i: nat|
        #[trigger] extra_pos(r, i) is Some && 0 <= extra_pos(r, i)->0 < r.len() && extra_error(
            r,
            extra_pos(r, i)->0,
        ) == Some(e)
}

/// Decodes a self-contained region of extra-data records, which must be
/// consumed exactly.
pub fn parse_extra_region(r: &[u8]) -> (res: Result<Vec<ExtraData>, ParseError>)
    ensures
        match res {
            Ok(xs) => extras_decoded(r@, xs@),
            Err(e) => extras_refused(r@, e),
        },
{
    let mut xs: Vec<ExtraData> = Vec::new();
    let mut p: usize = 0;
    let len = r.len();
    while p < len
        invariant
            p <= len == r@.len(),
            extra_pos(r@, xs@.len() as nat) == Some(p as int),
            forall|i: int| 0 <= i < xs@.len() ==> extra_at(r@, i, #[trigger] xs@[i]),
        decreases len - p,
    {
        match parse_extra_data(r, p) {
            Ok((x, e)) => {
                let ghost old_xs = xs@;
                proof {
                    assert(extra_pos(r@, (xs@.len() + 1) as nat) == Some(e as int));
                }
                xs.push(x);
                proof {
                    assert forall|i: int| 0 <= i < xs@.len() implies extra_at(
                        r@,
                        i,
                        #[trigger] xs@[i],
                    ) by {
                        if i < old_xs.len() {
                            assert(xs@[i] == old_xs[i]);
                        }
                    }
                }
                p = e;
            },
            Err(err) => {
                proof {
                    assert(extra_pos(r@, xs@.len() as nat)->0 == p);
                }
                return Err(err);
            },
        }
    }
    Ok(xs)
}

proof fn lemma_extra_pos_none_after(r: Seq<u8>, i: nat, j: nat)
    requires
        extra_pos(r, i) is None,
        i <= j,
    ensures
        extra_pos(r, j) is None,
    decreases j - i,
{
    if i < j {
        lemma_extra_pos_none_after(r, i + 1, j);
    }
}

/// A region that decodes as a run of extra-data records is refused with
/// no error.
proof fn lemma_extras_exclusive(r: Seq<u8>, xs: Seq<ExtraData>)
    requires
        extras_decoded(r, xs),
    ensures
        forall|e: ParseError| !extras_refused(r, e),
{
    assert forall|e: ParseError| !extras_refused(r, e) by {
        if extras_refused(r, e) {
            let i = choose|i: nat|
                #[trigger] extra_pos(r, i) is Some && 0 <= extra_pos(r, i)->0 < r.len()
                    && extra_error(r, extra_pos(r, i)->0) == Some(e);
            assert(extra_pos(r, i + 1) is None);
            if i < xs.len() {
                lemma_extra_pos_none_after(r, i + 1, xs.len());
            } else if i > xs.len() {
                assert(extra_pos(r, xs.len() + 1) is None);
                lemma_extra_pos_none_after(r, xs.len() + 1, i);
            }
        }
    }
}

/// A region of extra data is refused with one error at most.
pub proof fn lemma_extras_refused_unique(r: Seq<u8>, e1: ParseError, e2: ParseError)
    requires
        extras_refused(r, e1),
        extras_refused(r, e2),
    ensures
        e1 == e2,
{
    let i = choose|i: nat|
        #[trigger] extra_pos(r, i) is Some && 0 <= extra_pos(r, i)->0 < r.len() && extra_error(
            r,
            extra_pos(r, i)->0,
        ) == Some(e1);
    let j = choose|j: nat|
        #[trigger] extra_pos(r, j) is Some && 0 <= extra_pos(r, j)->0 < r.len() && extra_error(
            r,
            extra_pos(r, j)->0,
        ) == Some(e2);
    assert(extra_pos(r, i + 1) is None);
    assert(extra_pos(r, j + 1) is None);
    if i < j {
        lemma_extra_pos_none_after(r, i + 1, j);
    } else if j < i {
        lemma_extra_pos_none_after(r, j + 1, i);
    }
}

/// The extra-data region of a row event body `s`.
pub open spec fn extra_region(s: Seq<u8>) -> Seq<u8> {
    s.subrange(10, 8 + le16(s, 8) as int)
}

/// Where the column count of a row event body starts.
pub open spec fn count_pos(s: Seq<u8>) -> int {
    8 + le16(s, 8) as int
}

/// Where the column bitmaps of a row event body start.
pub open spec fn bitmaps_pos(s: Seq<u8>) -> int {
    count_pos(s) + lenenc_width(s, count_pos(s))
}

/// The length of one column bitmap of a row event body.
pub open spec fn bitmap_size(s: Seq<u8>) -> int {
    bitmap_len(lenenc_value(s, count_pos(s)) as int)
}

/// Where the row image of a row event body with `k` bitmaps starts.
pub open spec fn image_pos(s: Seq<u8>, k: int) -> int {
    bitmaps_pos(s) + if k == 2 {
        bitmap_size(s) + bitmap_size(s)
    } else {
        bitmap_size(s)
    }
}

/// The length of the row image of a row event body with `k` bitmaps.
pub open spec fn image_len(s: Seq<u8>, h: Header, k: int) -> int {
    tail(h, image_pos(s, k), 4)
}

/// The part common to all row events decodes: table id, flags, the
/// extra-data length (which counts itself) and region, and the column
/// count.
pub open spec fn prefix_ok(s: Seq<u8>) -> bool {
    &&& avail(s, 0, 10)
    &&& le16(s, 8) >= 2
    &&& avail(s, 10, le16(s, 8) - 2)
    &&& forall|e: ParseError| !extras_refused(extra_region(s), e)
    &&& lenenc_error(s, count_pos(s)) is None
}

/// The common part of a row event body `s` is refused with `e`.
pub open spec fn prefix_refused(s: Seq<u8>, e: ParseError) -> bool {
    if !avail(s, 0, 10) {
        e == ParseError::InsufficientData
    } else if le16(s, 8) < 2 {
        e == ParseError::MalformedLength
    } else if !avail(s, 10, le16(s, 8) - 2) {
        e == ParseError::InsufficientData
    } else if exists|x: ParseError| extras_refused(extra_region(s), x) {
        extras_refused(extra_region(s), e)
    } else {
        lenenc_error(s, count_pos(s)) == Some(e)
    }
}

/// How decoding a row event body with `k` bitmaps ends: which error, or
/// success with what remains.
pub open spec fn rows_outcome(s: Seq<u8>, h: Header, k: int, r: Result<(Seq<u8>, Event), ParseError>) -> bool {
    if !prefix_ok(s) {
        r is Err && prefix_refused(s, r->Err_0)
    } else if !avail(s, bitmaps_pos(s), image_pos(s, k) - bitmaps_pos(s)) {
        r == Err::<(Seq<u8>, Event), _>(ParseError::InsufficientData)
    } else if image_len(s, h, k) < 0 {
        r == Err::<(Seq<u8>, Event), _>(ParseError::MalformedLength)
    } else if !avail(s, image_pos(s, k), image_len(s, h, k) + 4) {
        r == Err::<(Seq<u8>, Event), _>(ParseError::InsufficientData)
    } else {
        r is Ok && rest_is(s, image_pos(s, k) + image_len(s, h, k) + 4, r->Ok_0.0)
    }
}

/// The fields common to all row events hold what `s` holds.
pub open spec fn rows_common(
    s: Seq<u8>,
    h: Header,
    header: Header,
    table_id: u64,
    flags: Flags,
    extra_data_len: u16,
    extra_data: Seq<ExtraData>,
    column_count: u64,
) -> bool {
    &&& header == h
    &&& table_id == le48(s, 0)
    &&& flags == flags_of(le16(s, 6))
    &&& extra_data_len == le16(s, 8)
    &&& extras_decoded(extra_region(s), extra_data)
    &&& column_count == lenenc_value(s, count_pos(s))
}

/// The `j`-th column bitmap of `s`.
pub open spec fn bitmap_at(s: Seq<u8>, j: int) -> Seq<u8> {
    s.subrange(bitmaps_pos(s) + j * bitmap_size(s), bitmaps_pos(s) + (j + 1) * bitmap_size(s))
}

/// The row image and the checksum hold what `s` holds.
pub open spec fn rows_tail(s: Seq<u8>, h: Header, k: int, rows: Seq<u8>, checksum: u32) -> bool {
    &&& rows == s.subrange(image_pos(s, k), image_pos(s, k) + image_len(s, h, k))
    &&& checksum == le32(s, image_pos(s, k) + image_len(s, h, k))
}

/// Decodes the part common to all row events; returns table id, flags,
/// extra-data length, extra data, column count and where the bitmaps
/// start.
fn parse_half_row(input: &[u8]) -> (r: Result<(u64, Flags, u16, Vec<ExtraData>, u64, usize), ParseError>)
    ensures
        match r {
            Ok((table_id, flags, extra_data_len, extra_data, column_count, p)) => {
                &&& prefix_ok(input@)
                &&& table_id == le48(input@, 0)
                &&& flags == flags_of(le16(input@, 6))
                &&& extra_data_len == le16(input@, 8)
                &&& extras_decoded(extra_region(input@), extra_data@)
                &&& column_count == lenenc_value(input@, count_pos(input@))
                &&& p == bitmaps_pos(input@)
                &&& p <= input@.len()
            },
            Err(e) => !prefix_ok(input@) && prefix_refused(input@, e),
        },
{
    let table_id = read_u48(input, 0)?;
    let flags = flags_from(read_u16(input, 6)?);
    let extra_data_len = read_u16(input, 8)?;
    if extra_data_len < 2 {
        return Err(ParseError::MalformedLength);
    }
    let el = extra_data_len as usize - 2;
    if input.len() - 10 < el {
        return Err(ParseError::InsufficientData);
    }
    let region = slice_subrange(input, 10, 10 + el);
    assert(region@ == extra_region(input@));
    let extra_data = match parse_extra_region(region) {
        Ok(xs) => xs,
        Err(e) => {
            proof {
                assert(exists|x: ParseError| extras_refused(extra_region(input@), x));
            }
            return Err(e);
        },
    };
    proof {
        lemma_extras_exclusive(region@, extra_data@);
    }
    let (column_count, w) = lenenc_at(input, 10 + el)?;
    Ok((table_id, flags, extra_data_len, extra_data, column_count, 10 + el + w))
}

/// How the body `s` of a write rows event with header `h` decodes: the
/// error met first, or the decoded event and the input after it.
pub open spec fn write_rows_decoded(s: Seq<u8>, h: Header, r: Result<(Seq<u8>, Event), ParseError>) -> bool {
    &&& rows_outcome(s, h, 1, r)
    &&& r is Ok ==> match r->Ok_0.1 {
        Event::WriteRowsV2 {
            header,
            table_id,
            flags,
            extra_data_len,
            extra_data,
            column_count,
            inserted_image_bits,
            rows,
            checksum,
        } => rows_common(s, h, header, table_id, flags, extra_data_len, extra_data@, column_count)
            && inserted_image_bits@ == bitmap_at(s, 0) && rows_tail(s, h, 1, rows@, checksum),
        _ => false,
    }
}

/// How the body `s` of a delete rows event with header `h` decodes: the
/// error met first, or the decoded event and the input after it.
pub open spec fn delete_rows_decoded(s: Seq<u8>, h: Header, r: Result<(Seq<u8>, Event), ParseError>) -> bool {
    &&& rows_outcome(s, h, 1, r)
    &&& r is Ok ==> match r->Ok_0.1 {
        Event::DeleteRowsV2 {
            header,
            table_id,
            flags,
            extra_data_len,
            extra_data,
            column_count,
            deleted_image_bits,
            rows,
            checksum,
        } => rows_common(s, h, header, table_id, flags, extra_data_len, extra_data@, column_count)
            && deleted_image_bits@ == bitmap_at(s, 0) && rows_tail(s, h, 1, rows@, checksum),
        _ => false,
    }
}

/// How the body `s` of a update rows event with header `h` decodes: the
/// error met first, or the decoded event and the input after it.
pub open spec fn update_rows_decoded(s: Seq<u8>, h: Header, r: Result<(Seq<u8>, Event), ParseError>) -> bool {
    &&& rows_outcome(s, h, 2, r)
    &&& r is Ok ==> match r->Ok_0.1 {
        Event::UpdateRowsV2 {
            header,
            table_id,
            flags,
            extra_data_len,
            extra_data,
            column_count,
            before_image_bits,
            after_image_bits,
            rows,
            checksum,
        } => rows_common(s, h, header, table_id, flags, extra_data_len, extra_data@, column_count)
            && before_image_bits@ == bitmap_at(s, 0) && after_image_bits@ == bitmap_at(s, 1)
            && rows_tail(s, h, 2, rows@, checksum),
        _ => false,
    }
}

/// Reads the row image that fills the declared size from `q`, and the
/// checksum after it; returns both and the position after them.
fn parse_row_image(input: &[u8], header: &Header, q: usize) -> (r: Result<(Vec<u8>, u32, usize), ParseError>)
    requires
        q <= input@.len(),
    ensures
        match r {
            Ok((rows, checksum, e)) => {
                let n = tail(*header, q as int, 4);
                &&& n >= 0 && avail(input@, q as int, n + 4)
                &&& rows@ == input@.subrange(q as int, q + n)
                &&& checksum == le32(input@, q + n)
                &&& e == q + n + 4
            },
            Err(e) => if tail(*header, q as int, 4) < 0 {
                e == ParseError::MalformedLength
            } else {
                !avail(input@, q as int, tail(*header, q as int, 4) + 4) && e
                    == ParseError::InsufficientData
            },
        },
{
    let n = tail_len(header, q, 4)?;
    if input.len() - q < n || input.len() - q - n < 4 {
        return Err(ParseError::InsufficientData);
    }
    let rows = read_bytes(input, q, n)?;
    let checksum = read_u32(input, q + n)?;
    Ok((rows, checksum, q + n + 4))
}

/// Decodes a write-rows (v2) event: the common part, the bitmap of
/// inserted columns, the row image and the checksum.
pub fn parse_write_rows_v2<'a>(input: &'a [u8], header: Header) -> (r: Result<(&'a [u8], Event), ParseError>)
    ensures
        write_rows_decoded(input@, header, out_view(r)),
{
    let (table_id, flags, extra_data_len, extra_data, column_count, p) = parse_half_row(input)?;
    let bm = bitmap_bytes(column_count);
    if ((input.len() - p) as u64) < bm {
        return Err(ParseError::InsufficientData);
    }
    let inserted_image_bits = read_bytes(input, p, bm as usize)?;
    let (rows, checksum, e) = parse_row_image(input, &header, p + bm as usize)?;
    Ok(
        (
            slice_subrange(input, e, input.len()),
            Event::WriteRowsV2 {
                header,
                table_id,
                flags,
                extra_data_len,
                extra_data,
                column_count,
                inserted_image_bits,
                rows,
                checksum,
            },
        ),
    )
}

/// Decodes a delete-rows (v2) event: the common part, the bitmap of
/// deleted columns, the row image and the checksum.
pub fn parse_delete_rows_v2<'a>(input: &'a [u8], header: Header) -> (r: Result<(&'a [u8], Event), ParseError>)
    ensures
        delete_rows_decoded(input@, header, out_view(r)),
{
    let (table_id, flags, extra_data_len, extra_data, column_count, p) = parse_half_row(input)?;
    let bm = bitmap_bytes(column_count);
    if ((input.len() - p) as u64) < bm {
        return Err(ParseError::InsufficientData);
    }
    let deleted_image_bits = read_bytes(input, p, bm as usize)?;
    let (rows, checksum, e) = parse_row_image(input, &header, p + bm as usize)?;
    Ok(
        (
            slice_subrange(input, e, input.len()),
            Event::DeleteRowsV2 {
                header,
                table_id,
                flags,
                extra_data_len,
                extra_data,
                column_count,
                deleted_image_bits,
                rows,
                checksum,
            },
        ),
    )
}

/// Decodes an update-rows (v2) event: the common part, the before-image
/// and after-image column bitmaps, the row image and the checksum.
pub fn parse_update_rows_v2<'a>(input: &'a [u8], header: Header) -> (r: Result<(&'a [u8], Event), ParseError>)
    ensures
        update_rows_decoded(input@, header, out_view(r)),
{
    let (table_id, flags, extra_data_len, extra_data, column_count, p) = parse_half_row(input)?;
    let bm = bitmap_bytes(column_count);
    if ((input.len() - p) as u64) < bm || ((input.len() - p) as u64) - bm < bm {
        return Err(ParseError::InsufficientData);
    }
    let before_image_bits = read_bytes(input, p, bm as usize)?;
    let after_image_bits = read_bytes(input, p + bm as usize, bm as usize)?;
    let (rows, checksum, e) = parse_row_image(input, &header, p + 2 * bm as usize)?;
    Ok(
        (
            slice_subrange(input, e, input.len()),
            Event::UpdateRowsV2 {
                header,
                table_id,
                flags,
                extra_data_len,
                extra_data,
                column_count,
                before_image_bits,
                after_image_bits,
                rows,
                checksum,
            },
        ),
    )
}

/// Two runs of extra-data records agree one by one, payloads compared by
/// their bytes.
pub open spec fn extras_agree(a: Seq<ExtraData>, b: Seq<ExtraData>) -> bool {
    &&& a.len() == b.len()
    &&& forall|i: int|
        0 <= i < a.len() ==> (#[trigger] a[i]).d_type == b[i].d_type && a[i].format == b[i].format
            && a[i].payload@ == b[i].payload@
}

/// A region decodes to extra-data records in one way only.
pub proof fn lemma_extras_decoded_agree(r: Seq<u8>, a: Seq<ExtraData>, b: Seq<ExtraData>)
    requires
        extras_decoded(r, a),
        extras_decoded(r, b),
    ensures
        extras_agree(a, b),
{
    if a.len() < b.len() {
        assert(extra_pos(r, a.len() + 1) is None);
        lemma_extra_pos_none_after(r, a.len() + 1, b.len());
    } else if b.len() < a.len() {
        assert(extra_pos(r, b.len() + 1) is None);
        lemma_extra_pos_none_after(r, b.len() + 1, a.len());
    }
    assert forall|i: int| 0 <= i < a.len() implies (#[trigger] a[i]).d_type == b[i].d_type
        && a[i].format == b[i].format && a[i].payload@ == b[i].payload@ by {
        assert(extra_at(r, i, a[i]));
        assert(extra_at(r, i, b[i]));
    }
}

} // verus!

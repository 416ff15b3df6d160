//! The LOAD DATA family of events: load and new-load.
use vstd::prelude::*;
use vstd::slice::slice_subrange;

use crate::error::ParseError;
use crate::events::{bit, out_view, rest_is, tail, tail_len, EmptyFlags, Event, Header, OptFlags};
use crate::utils::{
    avail, extract_string, field_text, le32, lossy_at, lossy_text, read_bytes, read_u32, read_u8,
    string_fixed,
};

verus! {

/// The option flags held in the byte `f`.
pub open spec fn opt_flags_of(f: u8) -> OptFlags {
    OptFlags {
        dump_file: bit(f as int, 1),
        opt_enclosed: bit(f as int, 2),
        replace: bit(f as int, 4),
        ignore: bit(f as int, 8),
    }
}

/// The empty-field flags held in the byte `f`.
pub open spec fn empty_flags_of(f: u8) -> EmptyFlags {
    EmptyFlags {
        field_term_empty: bit(f as int, 1),
        enclosed_empty: bit(f as int, 2),
        line_term_empty: bit(f as int, 4),
        line_start_empty: bit(f as int, 8),
        escape_empty: bit(f as int, 16),
    }
}

fn opt_flags_from(f: u8) -> (r: OptFlags)
    ensures
        r == opt_flags_of(f),
{
    OptFlags {
        dump_file: f % 2 == 1,
        opt_enclosed: (f / 2) % 2 == 1,
        replace: (f / 4) % 2 == 1,
        ignore: (f / 8) % 2 == 1,
    }
}

fn empty_flags_from(f: u8) -> (r: EmptyFlags)
    ensures
        r == empty_flags_of(f),
{
    EmptyFlags {
        field_term_empty: f % 2 == 1,
        enclosed_empty: (f / 2) % 2 == 1,
        line_term_empty: (f / 4) % 2 == 1,
        line_start_empty: (f / 8) % 2 == 1,
        escape_empty: (f / 16) % 2 == 1,
    }
}

/// The sum of the bytes of `b`.
pub open spec fn seq_sum(b: Seq<u8>) -> int
    decreases b.len(),
{
    if b.len() == 0 {
        0
    } else {
        seq_sum(b.drop_last()) + b.last() as int
    }
}

proof fn lemma_seq_sum_step(b: Seq<u8>, i: int)
    requires
        0 <= i < b.len(),
    ensures
        seq_sum(b.subrange(0, i + 1)) == seq_sum(b.subrange(0, i)) + b[i],
{
    assert(b.subrange(0, i + 1).drop_last() =~= b.subrange(0, i));
}

proof fn lemma_seq_sum_prefix(b: Seq<u8>, i: int, j: int)
    requires
        0 <= i <= j <= b.len(),
    ensures
        seq_sum(b.subrange(0, i)) <= seq_sum(b.subrange(0, j)),
    decreases j - i,
{
    if i < j {
        lemma_seq_sum_step(b, j - 1);
        lemma_seq_sum_prefix(b, i, j - 1);
    }
}

/// Where the `i`-th field name starts: after the names before it, each
/// with its terminator.
pub open spec fn name_start(lens: Seq<u8>, base: int, i: int) -> int {
    base + seq_sum(lens.subrange(0, i)) + i
}

/// Every field name of the run at `base` is followed by its NUL.
pub open spec fn names_terminated(s: Seq<u8>, lens: Seq<u8>, base: int) -> bool {
    forall|i: int| 0 <= i < lens.len() ==> s[#[trigger] name_start(lens, base, i) + lens[i]] == 0
}

/// `names` are the field names of the run at `base`, their lengths given
/// by `lens`.
pub open spec fn names_decoded(s: Seq<u8>, lens: Seq<u8>, base: int, names: Seq<String>) -> bool {
    &&& names.len() == lens.len()
    &&& forall|i: int|
        0 <= i < lens.len() ==> (#[trigger] names[i])@ == lossy_text(
            s.subrange(name_start(lens, base, i), name_start(lens, base, i) + lens[i]),
        )
}

/// Sums the name lengths.
fn names_total(lengths: &Vec<u8>) -> (r: u64)
    requires
        lengths@.len() <= 0xffff_ffff,
    ensures
        r == seq_sum(lengths@),
        r <= 255 * lengths@.len(),
{
    let ghost lens = lengths@;
    let mut sum: u64 = 0;
    let mut i: usize = 0;
    while i < lengths.len()
        invariant
            i <= lens.len() <= 0xffff_ffff,
            lengths@ == lens,
            sum == seq_sum(lens.subrange(0, i as int)),
            sum <= 255 * i,
        decreases lens.len() - i,
    {
        proof {
            lemma_seq_sum_step(lens, i as int);
        }
        sum = sum + lengths[i] as u64;
        i = i + 1;
    }
    assert(lens.subrange(0, lens.len() as int) =~= lens);
    sum
}

/// Reads the field names at `base`, each of the given length and followed
/// by a NUL.
fn read_field_names(s: &[u8], base: usize, lengths: &Vec<u8>) -> (r: Result<Vec<String>, ParseError>)
    requires
        base + seq_sum(lengths@) + lengths@.len() <= s@.len(),
    ensures
        match r {
            Ok(names) => names_terminated(s@, lengths@, base as int) && names_decoded(
                s@,
                lengths@,
                base as int,
                names@,
            ),
            Err(e) => !names_terminated(s@, lengths@, base as int) && e
                == ParseError::InvariantViolation,
        },
{
    let ghost lens = lengths@;
    let len = s.len();
    let mut names: Vec<String> = Vec::new();
    let mut off = base;
    let mut i: usize = 0;
    while i < lengths.len()
        invariant
            i <= lens.len(),
            lengths@ == lens,
            base + seq_sum(lens) + lens.len() <= len == s@.len(),
            off == name_start(lens, base as int, i as int),
            names@.len() == i,
            forall|j: int|
                0 <= j < i ==> s@[#[trigger] name_start(lens, base as int, j) + lens[j]] == 0,
            forall|j: int|
                0 <= j < i ==> (#[trigger] names@[j])@ == lossy_text(
                    s@.subrange(
                        name_start(lens, base as int, j),
                        name_start(lens, base as int, j) + lens[j],
                    ),
                ),
        decreases lens.len() - i,
    {
        proof {
            lemma_seq_sum_step(lens, i as int);
            lemma_seq_sum_prefix(lens, i + 1, lens.len() as int);
            assert(lens.subrange(0, lens.len() as int) =~= lens);
        }
        let n = lengths[i] as usize;
        if s[off + n] != 0 {
            proof {
                assert(s@[name_start(lens, base as int, i as int) + lens[i as int]] != 0);
            }
            return Err(ParseError::InvariantViolation);
        }
        let name = lossy_at(s, off, n);
        names.push(name);
        off = off + n + 1;
        i = i + 1;
    }
    Ok(names)
}

/// Why the field-name list and the names after it, at `p` of `s`, do not
/// decode, if they do not.
pub open spec fn fields_error(s: Seq<u8>, p: int, h: Header, nf: int, tl: int, sl: int) -> Option<
    ParseError,
> {
    let lens = s.subrange(p, p + nf);
    let base = p + nf;
    let t = base + seq_sum(lens) + nf;
    let f = t + tl + sl + 2;
    let n = tail(h, f, 4);
    if !avail(s, p, nf) || !avail(s, base, seq_sum(lens) + nf) {
        Some(ParseError::InsufficientData)
    } else if !names_terminated(s, lens, base) {
        Some(ParseError::InvariantViolation)
    } else if !avail(s, t, tl + sl + 2) {
        Some(ParseError::InsufficientData)
    } else if n < 0 {
        Some(ParseError::MalformedLength)
    } else if !avail(s, f, n + 4) {
        Some(ParseError::InsufficientData)
    } else {
        None
    }
}

/// Where the file name of a well-formed field list at `p` starts.
pub open spec fn file_start(s: Seq<u8>, p: int, nf: int, tl: int, sl: int) -> int {
    p + nf + seq_sum(s.subrange(p, p + nf)) + nf + tl + sl + 2
}

/// Where a well-formed field list at `p`, with what follows it, ends.
pub open spec fn fields_end(s: Seq<u8>, p: int, h: Header, nf: int, tl: int, sl: int) -> int {
    let f = file_start(s, p, nf, tl, sl);
    f + tail(h, f, 4) + 4
}

/// The values of a well-formed field list at `p`: the name lengths, the
/// names (each followed by a NUL), the table and schema names (each with
/// one byte after it), the file name that fills the declared size, and
/// the checksum.
pub open spec fn fields_decoded(
    s: Seq<u8>,
    p: int,
    h: Header,
    nf: int,
    tl: int,
    sl: int,
    lengths: Seq<u8>,
    names: Seq<String>,
    table: Seq<char>,
    schema: Seq<char>,
    file: Seq<char>,
    checksum: u32,
) -> bool {
    let lens = s.subrange(p, p + nf);
    let base = p + nf;
    let t = base + seq_sum(lens) + nf;
    let f = t + tl + sl + 2;
    let n = tail(h, f, 4);
    &&& lengths == lens
    &&& names_decoded(s, lens, base, names)
    &&& table == field_text(s.subrange(t, t + tl + 1))
    &&& schema == field_text(s.subrange(t + tl + 1, t + tl + sl + 2))
    &&& file == field_text(s.subrange(f, f + n))
    &&& checksum == le32(s, f + n)
}

/// Decodes the field list shared by the load events, from `p`: `nf` name
/// lengths, the names, the table and schema names, the file name and the
/// checksum; returns them and the position after them.
fn extract_many_fields(s: &[u8], p: usize, h: &Header, nf: u32, tl: u8, sl: u8) -> (r: Result<
    (Vec<u8>, Vec<String>, String, String, String, u32, usize),
    ParseError,
>)
    requires
        p <= s@.len(),
    ensures
        match r {
            Ok((lengths, names, table, schema, file, checksum, q)) => {
                &&& fields_error(s@, p as int, *h, nf as int, tl as int, sl as int) is None
                &&& fields_decoded(
                    s@,
                    p as int,
                    *h,
                    nf as int,
                    tl as int,
                    sl as int,
                    lengths@,
                    names@,
                    table@,
                    schema@,
                    file@,
                    checksum,
                )
                &&& q == fields_end(s@, p as int, *h, nf as int, tl as int, sl as int)
            },
            Err(e) => fields_error(s@, p as int, *h, nf as int, tl as int, sl as int) == Some(e),
        },
{
    let len = s.len();
    if ((len - p) as u64) < nf as u64 {
        return Err(ParseError::InsufficientData);
    }
    let nfu = nf as usize;
    let lengths = read_bytes(s, p, nfu)?;
    let ghost lens = s@.subrange(p as int, p + nfu);
    let base = p + nfu;
    let sum = names_total(&lengths);
    if ((len - base) as u64) < sum + nf as u64 {
        return Err(ParseError::InsufficientData);
    }
    let total = (sum + nf as u64) as usize;
    let names = read_field_names(s, base, &lengths)?;
    let t = base + total;
    if len - t < tl as usize + sl as usize + 2 {
        return Err(ParseError::InsufficientData);
    }
    let table = extract_string(s, t, tl as usize + 1);
    let schema = extract_string(s, t + tl as usize + 1, sl as usize + 1);
    let f = t + tl as usize + sl as usize + 2;
    let n = tail_len(h, f, 4)?;
    if len - f < n || len - f - n < 4 {
        return Err(ParseError::InsufficientData);
    }
    let file = extract_string(s, f, n);
    let checksum = read_u32(s, f + n)?;
    Ok((lengths, names, table, schema, file, checksum, f + n + 4))
}

/// How the body `s` of a load event with header `h` decodes: the
/// error met first, or the decoded event and the input after it.
pub open spec fn load_decoded(s: Seq<u8>, h: Header, r: Result<(Seq<u8>, Event), ParseError>) -> bool {
    let nf = le32(s, 14) as int;
    let tl = s[12] as int;
    let sl = s[13] as int;
    if !avail(s, 0, 25) {
        r == Err::<(Seq<u8>, Event), _>(ParseError::InsufficientData)
    } else if fields_error(s, 25, h, nf, tl, sl) is Some {
        r == Err::<(Seq<u8>, Event), _>(fields_error(s, 25, h, nf, tl, sl)->0)
    } else {
        match r {
            Ok(
                (
                    rest,
                    Event::Load {
                        header,
                        thread_id,
                        execution_time,
                        skip_lines,
                        table_name_length,
                        schema_length,
                        num_fields,
                        field_term,
                        enclosed_by,
                        line_term,
                        line_start,
                        escaped_by,
                        opt_flags,
                        empty_flags,
                        field_name_lengths,
                        field_names,
                        table_name,
                        schema_name,
                        file_name,
                        checksum,
                    },
                ),
            ) => {
                &&& header == h
                &&& thread_id == le32(s, 0)
                &&& execution_time == le32(s, 4)
                &&& skip_lines == le32(s, 8)
                &&& table_name_length == s[12]
                &&& schema_length == s[13]
                &&& num_fields == nf
                &&& field_term == s[18]
                &&& enclosed_by == s[19]
                &&& line_term == s[20]
                &&& line_start == s[21]
                &&& escaped_by == s[22]
                &&& opt_flags == opt_flags_of(s[23])
                &&& empty_flags == empty_flags_of(s[24])
                &&& fields_decoded(
                    s,
                    25,
                    h,
                    nf,
                    tl,
                    sl,
                    field_name_lengths@,
                    field_names@,
                    table_name@,
                    schema_name@,
                    file_name@,
                    checksum,
                )
                &&& rest_is(s, fields_end(s, 25, h, nf, tl, sl), rest)
            },
            _ => false,
        }
    }
}

/// Decodes a load event: its fixed fields with one-byte delimiters, the
/// option and empty-field flags, then the field list.
pub fn parse_load<'a>(input: &'a [u8], header: Header) -> (r: Result<(&'a [u8], Event), ParseError>)
    ensures
        load_decoded(input@, header, out_view(r)),
{
    if input.len() < 25 {
        return Err(ParseError::InsufficientData);
    }
    let thread_id = read_u32(input, 0)?;
    let execution_time = read_u32(input, 4)?;
    let skip_lines = read_u32(input, 8)?;
    let table_name_length = read_u8(input, 12)?;
    let schema_length = read_u8(input, 13)?;
    let num_fields = read_u32(input, 14)?;
    let field_term = read_u8(input, 18)?;
    let enclosed_by = read_u8(input, 19)?;
    let line_term = read_u8(input, 20)?;
    let line_start = read_u8(input, 21)?;
    let escaped_by = read_u8(input, 22)?;
    let opt_flags = opt_flags_from(read_u8(input, 23)?);
    let empty_flags = empty_flags_from(read_u8(input, 24)?);
    let (field_name_lengths, field_names, table_name, schema_name, file_name, checksum, q) =
        extract_many_fields(input, 25, &header, num_fields, table_name_length, schema_length)?;
    Ok(
        (
            slice_subrange(input, q, input.len()),
            Event::Load {
                header,
                thread_id,
                execution_time,
                skip_lines,
                table_name_length,
                schema_length,
                num_fields,
                field_term,
                enclosed_by,
                line_term,
                line_start,
                escaped_by,
                opt_flags,
                empty_flags,
                field_name_lengths,
                field_names,
                table_name,
                schema_name,
                file_name,
                checksum,
            },
        ),
    )
}

/// Where the delimiter after the one-byte-length delimiter at `d` starts.
pub open spec fn next_delim(s: Seq<u8>, d: int) -> int {
    d + 1 + s[d] as int
}

/// The text of the one-byte-length delimiter at `d`.
pub open spec fn delim_text(s: Seq<u8>, d: int) -> Seq<char> {
    field_text(s.subrange(d + 1, d + 1 + s[d] as int))
}

/// The one-byte-length delimiter at `d` lies within `s`.
pub open spec fn delim_fits(s: Seq<u8>, d: int) -> bool {
    avail(s, d, 1) && avail(s, d + 1, s[d] as int)
}

/// How the body `s` of a new load event with header `h` decodes: the
/// error met first, or the decoded event and the input after it.
pub open spec fn new_load_decoded(s: Seq<u8>, h: Header, r: Result<(Seq<u8>, Event), ParseError>) -> bool {
    let nf = le32(s, 14) as int;
    let tl = s[12] as int;
    let sl = s[13] as int;
    let d0 = 18;
    let d1 = next_delim(s, d0);
    let d2 = next_delim(s, d1);
    let d3 = next_delim(s, d2);
    let d4 = next_delim(s, d3);
    let d5 = next_delim(s, d4);
    if !(avail(s, 0, 18) && delim_fits(s, d0) && delim_fits(s, d1) && delim_fits(s, d2)
        && delim_fits(s, d3) && delim_fits(s, d4) && avail(s, d5, 1)) {
        r == Err::<(Seq<u8>, Event), _>(ParseError::InsufficientData)
    } else if fields_error(s, d5 + 1, h, nf, tl, sl) is Some {
        r == Err::<(Seq<u8>, Event), _>(fields_error(s, d5 + 1, h, nf, tl, sl)->0)
    } else {
        match r {
            Ok(
                (
                    rest,
                    Event::NewLoad {
                        header,
                        thread_id,
                        execution_time,
                        skip_lines,
                        table_name_length,
                        schema_length,
                        num_fields,
                        field_term_length,
                        field_term,
                        enclosed_by_length,
                        enclosed_by,
                        line_term_length,
                        line_term,
                        line_start_length,
                        line_start,
                        escaped_by_length,
                        escaped_by,
                        opt_flags,
                        field_name_lengths,
                        field_names,
                        table_name,
                        schema_name,
                        file_name,
                        checksum,
                    },
                ),
            ) => {
                &&& header == h
                &&& thread_id == le32(s, 0)
                &&& execution_time == le32(s, 4)
                &&& skip_lines == le32(s, 8)
                &&& table_name_length == s[12]
                &&& schema_length == s[13]
                &&& num_fields == nf
                &&& field_term_length == s[d0] && field_term@ == delim_text(s, d0)
                &&& enclosed_by_length == s[d1] && enclosed_by@ == delim_text(s, d1)
                &&& line_term_length == s[d2] && line_term@ == delim_text(s, d2)
                &&& line_start_length == s[d3] && line_start@ == delim_text(s, d3)
                &&& escaped_by_length == s[d4] && escaped_by@ == delim_text(s, d4)
                &&& opt_flags == opt_flags_of(s[d5])
                &&& fields_decoded(
                    s,
                    d5 + 1,
                    h,
                    nf,
                    tl,
                    sl,
                    field_name_lengths@,
                    field_names@,
                    table_name@,
                    schema_name@,
                    file_name@,
                    checksum,
                )
                &&& rest_is(s, fields_end(s, d5 + 1, h, nf, tl, sl), rest)
            },
            _ => false,
        }
    }
}

/// Decodes a new-load event: as a load event, but each delimiter is a
/// one-byte-length string, and there are no empty-field flags.
pub fn parse_new_load<'a>(input: &'a [u8], header: Header) -> (r: Result<(&'a [u8], Event), ParseError>)
    ensures
        new_load_decoded(input@, header, out_view(r)),
{
    if input.len() < 18 {
        return Err(ParseError::InsufficientData);
    }
    let thread_id = read_u32(input, 0)?;
    let execution_time = read_u32(input, 4)?;
    let skip_lines = read_u32(input, 8)?;
    let table_name_length = read_u8(input, 12)?;
    let schema_length = read_u8(input, 13)?;
    let num_fields = read_u32(input, 14)?;
    let (field_term_length, field_term) = string_fixed(input, 18)?;
    let d1 = 19 + field_term_length as usize;
    let (enclosed_by_length, enclosed_by) = string_fixed(input, d1)?;
    let d2 = d1 + 1 + enclosed_by_length as usize;
    let (line_term_length, line_term) = string_fixed(input, d2)?;
    let d3 = d2 + 1 + line_term_length as usize;
    let (line_start_length, line_start) = string_fixed(input, d3)?;
    let d4 = d3 + 1 + line_start_length as usize;
    let (escaped_by_length, escaped_by) = string_fixed(input, d4)?;
    let d5 = d4 + 1 + escaped_by_length as usize;
    let opt_flags = opt_flags_from(read_u8(input, d5)?);
    let (field_name_lengths, field_names, table_name, schema_name, file_name, checksum, q) =
        extract_many_fields(input, d5 + 1, &header, num_fields, table_name_length, schema_length)?;
    Ok(
        (
            slice_subrange(input, q, input.len()),
            Event::NewLoad {
                header,
                thread_id,
                execution_time,
                skip_lines,
                table_name_length,
                schema_length,
                num_fields,
                field_term_length,
                field_term,
                enclosed_by_length,
                enclosed_by,
                line_term_length,
                line_term,
                line_start_length,
                line_start,
                escaped_by_length,
                escaped_by,
                opt_flags,
                field_name_lengths,
                field_names,
                table_name,
                schema_name,
                file_name,
                checksum,
            },
        ),
    )
}

/// A field list that decodes in `s` either decodes to the same end in a
/// prefix of `s`, or fails there for want of data.
pub proof fn lemma_fields_prefix(s: Seq<u8>, m: int, p: int, h: Header, nf: int, tl: int, sl: int)
    requires
        0 <= m <= s.len(),
        0 <= p,
        0 <= nf,
        fields_error(s, p, h, nf, tl, sl) is None,
    ensures
        fields_error(s.subrange(0, m), p, h, nf, tl, sl) is None ==> fields_end(
            s.subrange(0, m),
            p,
            h,
            nf,
            tl,
            sl,
        ) == fields_end(s, p, h, nf, tl, sl) <= m,
        fields_error(s.subrange(0, m), p, h, nf, tl, sl) is Some ==> fields_error(
            s.subrange(0, m),
            p,
            h,
            nf,
            tl,
            sl,
        ) == Some(ParseError::InsufficientData),
{
    let t = s.subrange(0, m);
    if avail(t, p, nf) {
        let lens = s.subrange(p, p + nf);
        assert(t.subrange(p, p + nf) =~= lens);
        let base = p + nf;
        if avail(t, base, seq_sum(lens) + nf) {
            assert forall|i: int| 0 <= i < lens.len() implies t[#[trigger] name_start(
                lens,
                base,
                i,
            ) + lens[i]] == 0 by {
                lemma_seq_sum_step(lens, i);
                lemma_seq_sum_prefix(lens, i + 1, nf);
                assert(lens.subrange(0, nf) =~= lens);
                assert(names_terminated(s, lens, base));
                assert(s[name_start(lens, base, i) + lens[i]] == 0);
                assert(name_start(lens, base, i) + lens[i] < m);
                lemma_seq_sum_prefix(lens, 0, i);
                assert(seq_sum(lens.subrange(0, 0)) == 0);
                assert(t[name_start(lens, base, i) + lens[i]] == s[name_start(lens, base, i)
                    + lens[i]]);
            }
        }
    }
}

} // verus!

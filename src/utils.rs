use vstd::prelude::*;
use vstd::slice::slice_subrange;
use vstd::slice::slice_to_vec;

use crate::error::ParseError;

verus! {

// ---------------------------------------------------------------------
// Fixed-width little-endian integers
// ---------------------------------------------------------------------

/// Two bytes at `p`, little-endian.
pub open spec fn le16(s: Seq<u8>, p: int) -> u16 {
    (s[p] as int + 256 * s[p + 1] as int) as u16
}

/// Three bytes at `p`, little-endian, zero-extended.
pub open spec fn le24(s: Seq<u8>, p: int) -> u32 {
    (le16(s, p) as int + 65536 * s[p + 2] as int) as u32
}

/// Four bytes at `p`, little-endian.
pub open spec fn le32(s: Seq<u8>, p: int) -> u32 {
    (le16(s, p) as int + 65536 * le16(s, p + 2) as int) as u32
}

/// Six bytes at `p`, little-endian, zero-extended to eight.
pub open spec fn le48(s: Seq<u8>, p: int) -> u64 {
    (le32(s, p) as int + 4294967296 * le16(s, p + 4) as int) as u64
}

/// Eight bytes at `p`, little-endian.
pub open spec fn le64(s: Seq<u8>, p: int) -> u64 {
    (le32(s, p) as int + 4294967296 * le32(s, p + 4) as int) as u64
}

/// `n` bytes are available at `p`.
pub open spec fn avail(s: Seq<u8>, p: int, n: int) -> bool {
    p + n <= s.len()
}

pub fn read_u8(s: &[u8], p: usize) -> (r: Result<u8, ParseError>)
    requires
        p <= s@.len(),
    ensures
        match r {
            Ok(v) => avail(s@, p as int, 1) && v == s@[p as int],
            Err(e) => !avail(s@, p as int, 1) && e == ParseError::InsufficientData,
        },
{
    if s.len() - p < 1 {
        return Err(ParseError::InsufficientData);
    }
    Ok(s[p])
}

pub fn read_u16(s: &[u8], p: usize) -> (r: Result<u16, ParseError>)
    requires
        p <= s@.len(),
    ensures
        match r {
            Ok(v) => avail(s@, p as int, 2) && v == le16(s@, p as int),
            Err(e) => !avail(s@, p as int, 2) && e == ParseError::InsufficientData,
        },
{
    if s.len() - p < 2 {
        return Err(ParseError::InsufficientData);
    }
    Ok(s[p] as u16 + 256 * (s[p + 1] as u16))
}

pub fn read_u24(s: &[u8], p: usize) -> (r: Result<u32, ParseError>)
    requires
        p <= s@.len(),
    ensures
        match r {
            Ok(v) => avail(s@, p as int, 3) && v == le24(s@, p as int),
            Err(e) => !avail(s@, p as int, 3) && e == ParseError::InsufficientData,
        },
{
    if s.len() - p < 3 {
        return Err(ParseError::InsufficientData);
    }
    let lo = read_u16(s, p)?;
    Ok(lo as u32 + 65536 * (s[p + 2] as u32))
}

pub fn read_u32(s: &[u8], p: usize) -> (r: Result<u32, ParseError>)
    requires
        p <= s@.len(),
    ensures
        match r {
            Ok(v) => avail(s@, p as int, 4) && v == le32(s@, p as int),
            Err(e) => !avail(s@, p as int, 4) && e == ParseError::InsufficientData,
        },
{
    if s.len() - p < 4 {
        return Err(ParseError::InsufficientData);
    }
    let lo = read_u16(s, p)?;
    let hi = read_u16(s, p + 2)?;
    Ok(lo as u32 + 65536 * (hi as u32))
}

pub fn read_u48(s: &[u8], p: usize) -> (r: Result<u64, ParseError>)
    requires
        p <= s@.len(),
    ensures
        match r {
            Ok(v) => avail(s@, p as int, 6) && v == le48(s@, p as int),
            Err(e) => !avail(s@, p as int, 6) && e == ParseError::InsufficientData,
        },
{
    if s.len() - p < 6 {
        return Err(ParseError::InsufficientData);
    }
    let lo = read_u32(s, p)?;
    let hi = read_u16(s, p + 4)?;
    Ok(lo as u64 + 4294967296 * (hi as u64))
}

pub fn read_u64(s: &[u8], p: usize) -> (r: Result<u64, ParseError>)
    requires
        p <= s@.len(),
    ensures
        match r {
            Ok(v) => avail(s@, p as int, 8) && v == le64(s@, p as int),
            Err(e) => !avail(s@, p as int, 8) && e == ParseError::InsufficientData,
        },
{
    if s.len() - p < 8 {
        return Err(ParseError::InsufficientData);
    }
    let lo = read_u32(s, p)?;
    let hi = read_u32(s, p + 4)?;
    Ok(lo as u64 + 4294967296 * (hi as u64))
}

pub fn read_i64(s: &[u8], p: usize) -> (r: Result<i64, ParseError>)
    requires
        p <= s@.len(),
    ensures
        match r {
            Ok(v) => avail(s@, p as int, 8) && v == le64(s@, p as int) as i64,
            Err(e) => !avail(s@, p as int, 8) && e == ParseError::InsufficientData,
        },
{
    let v = read_u64(s, p)?;
    Ok(v as i64)
}

/// The `n` bytes at `p`, copied out.
pub fn read_bytes(s: &[u8], p: usize, n: usize) -> (r: Result<Vec<u8>, ParseError>)
    requires
        p <= s@.len(),
    ensures
        match r {
            Ok(v) => avail(s@, p as int, n as int) && v@ == s@.subrange(p as int, p + n),
            Err(e) => !avail(s@, p as int, n as int) && e == ParseError::InsufficientData,
        },
{
    if s.len() - p < n {
        return Err(ParseError::InsufficientData);
    }
    Ok(slice_to_vec(slice_subrange(s, p, p + n)))
}

// ---------------------------------------------------------------------
// Text
// ---------------------------------------------------------------------

/// What `String::from_utf8_lossy` makes of these bytes: valid sequences
/// decoded, each invalid one replaced by U+FFFD.
pub uninterp spec fn lossy_text(b: Seq<u8>) -> Seq<char>;

/// Relies on `String::from_utf8_lossy`: decodes the bytes as UTF-8,
/// substituting U+FFFD for invalid sequences; it never fails, and the
/// empty input gives the empty string.
#[verifier::external_body]
fn lossy_string(b: &[u8]) -> (r: String)
    ensures
        r@ == lossy_text(b@),
        b@.len() == 0 ==> r@.len() == 0,
{
    String::from_utf8_lossy(b).into_owned()
}

/// Decodes the `n` bytes at `p` leniently, NUL bytes included.
pub fn lossy_at(s: &[u8], p: usize, n: usize) -> (r: String)
    requires
        avail(s@, p as int, n as int),
    ensures
        r@ == lossy_text(s@.subrange(p as int, p + n)),
{
    // p + n, taken from the length so that no overflow is possible
    let end = s.len() - (s.len() - p - n);
    lossy_string(slice_subrange(s, p, end))
}

/// `k` is where the text of `b` ends: at its first NUL byte, or at its end.
pub open spec fn is_text_end(b: Seq<u8>, k: int) -> bool {
    &&& 0 <= k <= b.len()
    &&& forall|j: int| 0 <= j < k ==> b[j] != 0
    &&& k < b.len() ==> b[k] == 0
}

/// The length of the text in `b`: the bytes before its first NUL.
pub open spec fn text_end(b: Seq<u8>) -> int {
    if exists|k: int| is_text_end(b, k) {
        choose|k: int| is_text_end(b, k)
    } else {
        b.len() as int
    }
}

/// The text of a fixed-size field: the bytes up to its first NUL,
/// decoded leniently.
pub open spec fn field_text(b: Seq<u8>) -> Seq<char> {
    lossy_text(b.subrange(0, text_end(b)))
}

pub proof fn lemma_text_end_unique(b: Seq<u8>, k: int)
    requires
        is_text_end(b, k),
    ensures
        text_end(b) == k,
{
    let c = choose|c: int| is_text_end(b, c);
    assert(is_text_end(b, c));
    if c < k {
        assert(b[c] != 0);
    } else if k < c {
        assert(b[k] != 0);
    }
}

/// Decodes the text of the `n` bytes at `p`: up to the first NUL,
/// leniently.
pub fn extract_string(s: &[u8], p: usize, n: usize) -> (r: String)
    requires
        avail(s@, p as int, n as int),
    ensures
        r@ == field_text(s@.subrange(p as int, p + n)),
{
    let ghost b = s@.subrange(p as int, p + n);
    let len = s.len();
    let mut k: usize = 0;
    while k < n && s[p + k] != 0
        invariant
            k <= n,
            p + n <= len == s@.len(),
            avail(s@, p as int, n as int),
            b == s@.subrange(p as int, p + n),
            forall|j: int| 0 <= j < k ==> b[j] != 0,
        decreases n - k,
    {
        k = k + 1;
    }
    proof {
        lemma_text_end_unique(b, k as int);
        assert(b.subrange(0, k as int) =~= s@.subrange(p as int, p + k));
    }
    lossy_string(slice_subrange(s, p, p + k))
}

// ---------------------------------------------------------------------
// Length-encoded integers and strings
// ---------------------------------------------------------------------

/// How many bytes the length-encoded integer at `p` takes, its prefix
/// byte included; 0 for the reserved prefix `0xff`.
pub open spec fn lenenc_width(s: Seq<u8>, p: int) -> int {
    let b = s[p];
    if b < 0xfb {
        1
    } else if b == 0xfb || b == 0xfc {
        3
    } else if b == 0xfd {
        4
    } else if b == 0xfe {
        9
    } else {
        0
    }
}

/// The value of the length-encoded integer at `p`.
pub open spec fn lenenc_value(s: Seq<u8>, p: int) -> u64 {
    let b = s[p];
    if b < 0xfb {
        b as u64
    } else if b == 0xfb || b == 0xfc {
        le16(s, p + 1) as u64
    } else if b == 0xfd {
        le24(s, p + 1) as u64
    } else {
        le64(s, p + 1)
    }
}

/// The error, if any, in reading a length-encoded integer at `p`.
pub open spec fn lenenc_error(s: Seq<u8>, p: int) -> Option<ParseError> {
    if !avail(s, p, 1) {
        Some(ParseError::InsufficientData)
    } else if lenenc_width(s, p) == 0 {
        Some(ParseError::MalformedLength)
    } else if !avail(s, p, lenenc_width(s, p)) {
        Some(ParseError::InsufficientData)
    } else {
        None
    }
}

/// Reads the length-encoded integer at `p`: its value and its width.
pub fn lenenc_at(s: &[u8], p: usize) -> (r: Result<(u64, usize), ParseError>)
    requires
        p <= s@.len(),
    ensures
        match r {
            Ok((v, w)) => lenenc_error(s@, p as int) is None && v == lenenc_value(s@, p as int)
                && w == lenenc_width(s@, p as int),
            Err(e) => lenenc_error(s@, p as int) == Some(e),
        },
{
    if s.len() - p < 1 {
        return Err(ParseError::InsufficientData);
    }
    let b = s[p];
    // p + 1, taken from the length so that no overflow is possible
    let q = s.len() - (s.len() - p - 1);
    if b < 0xfb {
        Ok((b as u64, 1))
    } else if b == 0xfb || b == 0xfc {
        let v = read_u16(s, q)?;
        Ok((v as u64, 3))
    } else if b == 0xfd {
        let v = read_u24(s, q)?;
        Ok((v as u64, 4))
    } else if b == 0xfe {
        let v = read_u64(s, q)?;
        Ok((v, 9))
    } else {
        Err(ParseError::MalformedLength)
    }
}

/// Decodes a length-encoded integer at the start of `input`, returning
/// the bytes after it and its value.
pub fn parse_lenenc_int<'a>(input: &'a [u8]) -> (r: Result<(&'a [u8], u64), ParseError>)
    ensures
        match r {
            Ok((rest, v)) => lenenc_error(input@, 0) is None && v == lenenc_value(input@, 0)
                && rest@ == input@.subrange(lenenc_width(input@, 0), input@.len() as int),
            Err(e) => lenenc_error(input@, 0) == Some(e),
        },
{
    let (v, w) = lenenc_at(input, 0)?;
    Ok((slice_subrange(input, w, input.len()), v))
}

/// The error, if any, in reading a length-encoded string at `p`.
pub open spec fn lenenc_str_error(s: Seq<u8>, p: int) -> Option<ParseError> {
    if lenenc_error(s, p) is Some {
        lenenc_error(s, p)
    } else if !avail(s, p + lenenc_width(s, p), lenenc_value(s, p) as int) {
        Some(ParseError::InsufficientData)
    } else {
        None
    }
}

/// Decodes a length-encoded string at the start of `input`: a
/// length-encoded integer, then that many bytes read as UTF-8 with
/// lenient substitution of invalid sequences.
pub fn parse_lenenc_str<'a>(input: &'a [u8]) -> (r: Result<(&'a [u8], String), ParseError>)
    ensures
        match r {
            Ok((rest, t)) => {
                let w = lenenc_width(input@, 0);
                let n = lenenc_value(input@, 0) as int;
                &&& lenenc_str_error(input@, 0) is None
                &&& t@ == lossy_text(input@.subrange(w, w + n))
                &&& rest@ == input@.subrange(w + n, input@.len() as int)
            },
            Err(e) => lenenc_str_error(input@, 0) == Some(e),
        },
{
    let (v, w) = lenenc_at(input, 0)?;
    if ((input.len() - w) as u64) < v {
        return Err(ParseError::InsufficientData);
    }
    let n = v as usize;
    let t = lossy_string(slice_subrange(input, w, w + n));
    Ok((slice_subrange(input, w + n, input.len()), t))
}

/// Reads a one-byte length, then that many bytes of text (up to the first
/// NUL); returns the length and the text.
pub fn string_fixed(s: &[u8], p: usize) -> (r: Result<(u8, String), ParseError>)
    requires
        p <= s@.len(),
    ensures
        match r {
            Ok((n, t)) => avail(s@, p as int, 1) && n == s@[p as int]
                && avail(s@, p + 1, n as int)
                && t@ == field_text(s@.subrange(p + 1, p + 1 + n)),
            Err(e) => e == ParseError::InsufficientData && (!avail(s@, p as int, 1) || !avail(
                s@,
                p + 1,
                s@[p as int] as int,
            )),
        },
{
    let n = read_u8(s, p)?;
    if s.len() - (p + 1) < n as usize {
        return Err(ParseError::InsufficientData);
    }
    let t = extract_string(s, p + 1, n as usize);
    Ok((n, t))
}

} // verus!

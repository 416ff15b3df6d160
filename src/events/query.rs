//! Status variables of query events.
use vstd::prelude::*;
use vstd::slice::slice_subrange;

use crate::error::ParseError;
use crate::events::{bit, strings_agree, out_view, rest_is, tail, tail_len, Event, Header};
use crate::utils::{
    avail, extract_string, field_text, is_text_end, lemma_text_end_unique, le16, le24, le32, le64,
    lossy_text, lossy_at, read_bytes, read_u16, read_u24, read_u32, read_u64, read_u8,
    text_end,
};

verus! {

/// The session flags carried by a `Q_FLAGS2_CODE` variable.
#[allow(non_camel_case_types)]
#[derive(Debug, Clone, Copy, PartialEq, Eq, Structural)]
pub struct Q_FLAGS2_CODE_VAL {
    pub auto_is_null: bool,
    pub auto_commit: bool,
    pub foreign_key_checks: bool,
    pub unique_checks: bool,
}

/// The SQL mode carried by a `Q_SQL_MODE_CODE` variable, one flag per bit.
#[allow(non_camel_case_types)]
#[derive(Debug, Clone, Copy, PartialEq, Eq, Structural)]
pub struct Q_SQL_MODE_CODE_VAL {
    pub real_as_float: bool,
    pub pipes_as_concat: bool,
    pub ansi_quotes: bool,
    pub ignore_space: bool,
    pub not_used: bool,
    pub only_full_group_by: bool,
    pub no_unsigned_subtraction: bool,
    pub no_dir_in_create: bool,
    pub postgresql: bool,
    pub oracle: bool,
    pub mssql: bool,
    pub db2: bool,
    pub maxdb: bool,
    pub no_key_options: bool,
    pub no_table_options: bool,
    pub no_field_options: bool,
    pub mysql323: bool,
    pub mysql40: bool,
    pub ansi: bool,
    pub no_auto_value_on_zero: bool,
    pub no_backslash_escapes: bool,
    pub strict_trans_tables: bool,
    pub strict_all_tables: bool,
    pub no_zero_in_date: bool,
    pub no_zero_date: bool,
    pub invalid_dates: bool,
    pub error_for_division_by_zero: bool,
    pub traditional: bool,
    pub no_auto_create_user: bool,
    pub high_not_precedence: bool,
    pub no_engine_substitution: bool,
    pub pad_char_to_full_length: bool,
}

/// One status variable of a query event, by its one-byte code.
#[allow(non_camel_case_types)]
#[derive(Debug, Clone, PartialEq, Eq)]
pub enum QueryStatusVar {
    /// Code 0: four bytes of session flags.
    Q_FLAGS2_CODE(Q_FLAGS2_CODE_VAL),
    /// Code 1: eight bytes of SQL mode.
    Q_SQL_MODE_CODE(Q_SQL_MODE_CODE_VAL),
    /// Code 2: a length-prefixed catalog name; a NUL byte right after it,
    /// if there is one, belongs to it.
    Q_CATALOG_CODE(String),
    /// Code 3: auto-increment increment and offset.
    Q_AUTO_INCREMENT(u16, u16),
    /// Code 4: client charset, connection collation, server collation.
    Q_CHARSET_CODE(u16, u16, u16),
    /// Code 5: a length-prefixed time zone name.
    Q_TIME_ZONE_CODE(String),
    /// Code 6: a length-prefixed catalog name.
    Q_CATALOG_NZ_CODE(String),
    /// Code 7: the locale of time names.
    Q_LC_TIME_NAMES_CODE(u16),
    /// Code 8: the default collation of the database.
    Q_CHARSET_DATABASE_CODE(u16),
    /// Code 9: the bitmap of tables to update.
    Q_TABLE_MAP_FOR_UPDATE_CODE(u64),
    /// Code 10: the length of the event as the master wrote it.
    Q_MASTER_DATA_WRITTEN_CODE(u32),
    /// Code 11: length-prefixed user and host of the invoker.
    Q_INVOKERS(String, String),
    /// Code 12: a one-byte count, then that many NUL-terminated names.
    Q_UPDATED_DB_NAMES(Vec<String>),
    /// Code 13: three bytes of microseconds.
    Q_MICROSECONDS(u32),
    /// Any other code: a length-prefixed opaque payload.
    Q_UNMODELED(u8, Vec<u8>),
}

/// The session flags held in `f`; three of them are set when their bit
/// is clear.
pub open spec fn flags2_of(f: u32) -> Q_FLAGS2_CODE_VAL {
    Q_FLAGS2_CODE_VAL {
        auto_is_null: bit(f as int, 0x4000),
        auto_commit: !bit(f as int, 0x80000),
        foreign_key_checks: !bit(f as int, 0x4000000),
        unique_checks: !bit(f as int, 0x8000000),
    }
}

/// The SQL mode held in `m`: bit `i` gives the `i`-th flag.
pub open spec fn sql_mode_of(m: u64) -> Q_SQL_MODE_CODE_VAL {
    let x = m as int;
    Q_SQL_MODE_CODE_VAL {
        real_as_float: bit(x, 0x1),
        pipes_as_concat: bit(x, 0x2),
        ansi_quotes: bit(x, 0x4),
        ignore_space: bit(x, 0x8),
        not_used: bit(x, 0x10),
        only_full_group_by: bit(x, 0x20),
        no_unsigned_subtraction: bit(x, 0x40),
        no_dir_in_create: bit(x, 0x80),
        postgresql: bit(x, 0x100),
        oracle: bit(x, 0x200),
        mssql: bit(x, 0x400),
        db2: bit(x, 0x800),
        maxdb: bit(x, 0x1000),
        no_key_options: bit(x, 0x2000),
        no_table_options: bit(x, 0x4000),
        no_field_options: bit(x, 0x8000),
        mysql323: bit(x, 0x10000),
        mysql40: bit(x, 0x20000),
        ansi: bit(x, 0x40000),
        no_auto_value_on_zero: bit(x, 0x80000),
        no_backslash_escapes: bit(x, 0x100000),
        strict_trans_tables: bit(x, 0x200000),
        strict_all_tables: bit(x, 0x400000),
        no_zero_in_date: bit(x, 0x800000),
        no_zero_date: bit(x, 0x1000000),
        invalid_dates: bit(x, 0x2000000),
        error_for_division_by_zero: bit(x, 0x4000000),
        traditional: bit(x, 0x8000000),
        no_auto_create_user: bit(x, 0x10000000),
        high_not_precedence: bit(x, 0x20000000),
        no_engine_substitution: bit(x, 0x40000000),
        pad_char_to_full_length: bit(x, 0x80000000),
    }
}

fn flags2_from(f: u32) -> (r: Q_FLAGS2_CODE_VAL)
    ensures
        r == flags2_of(f),
{
    Q_FLAGS2_CODE_VAL {
        auto_is_null: (f / 0x4000) % 2 == 1,
        auto_commit: !((f / 0x80000) % 2 == 1),
        foreign_key_checks: !((f / 0x4000000) % 2 == 1),
        unique_checks: !((f / 0x8000000) % 2 == 1),
    }
}

fn sql_mode_from(x: u64) -> (r: Q_SQL_MODE_CODE_VAL)
    ensures
        r == sql_mode_of(x),
{
    Q_SQL_MODE_CODE_VAL {
        real_as_float: (x / 0x1) % 2 == 1,
        pipes_as_concat: (x / 0x2) % 2 == 1,
        ansi_quotes: (x / 0x4) % 2 == 1,
        ignore_space: (x / 0x8) % 2 == 1,
        not_used: (x / 0x10) % 2 == 1,
        only_full_group_by: (x / 0x20) % 2 == 1,
        no_unsigned_subtraction: (x / 0x40) % 2 == 1,
        no_dir_in_create: (x / 0x80) % 2 == 1,
        postgresql: (x / 0x100) % 2 == 1,
        oracle: (x / 0x200) % 2 == 1,
        mssql: (x / 0x400) % 2 == 1,
        db2: (x / 0x800) % 2 == 1,
        maxdb: (x / 0x1000) % 2 == 1,
        no_key_options: (x / 0x2000) % 2 == 1,
        no_table_options: (x / 0x4000) % 2 == 1,
        no_field_options: (x / 0x8000) % 2 == 1,
        mysql323: (x / 0x10000) % 2 == 1,
        mysql40: (x / 0x20000) % 2 == 1,
        ansi: (x / 0x40000) % 2 == 1,
        no_auto_value_on_zero: (x / 0x80000) % 2 == 1,
        no_backslash_escapes: (x / 0x100000) % 2 == 1,
        strict_trans_tables: (x / 0x200000) % 2 == 1,
        strict_all_tables: (x / 0x400000) % 2 == 1,
        no_zero_in_date: (x / 0x800000) % 2 == 1,
        no_zero_date: (x / 0x1000000) % 2 == 1,
        invalid_dates: (x / 0x2000000) % 2 == 1,
        error_for_division_by_zero: (x / 0x4000000) % 2 == 1,
        traditional: (x / 0x8000000) % 2 == 1,
        no_auto_create_user: (x / 0x10000000) % 2 == 1,
        high_not_precedence: (x / 0x20000000) % 2 == 1,
        no_engine_substitution: (x / 0x40000000) % 2 == 1,
        pad_char_to_full_length: (x / 0x80000000) % 2 == 1,
    }
}

/// Width of a field of `n` bytes at `q`, if it fits in `r`.
pub open spec fn fixed_width(r: Seq<u8>, q: int, n: int) -> Option<int> {
    if avail(r, q, n) {
        Some(n)
    } else {
        None
    }
}

/// Width of a one-byte length and its payload at `q`, if it fits in `r`.
pub open spec fn prefixed_width(r: Seq<u8>, q: int) -> Option<int> {
    if avail(r, q, 1) && avail(r, q + 1, r[q] as int) {
        Some(1 + r[q] as int)
    } else {
        None
    }
}

/// The payload of the one-byte-length-prefixed field at `q`.
pub open spec fn prefixed_bytes(r: Seq<u8>, q: int) -> Seq<u8> {
    r.subrange(q + 1, q + 1 + r[q] as int)
}

/// Where the `i`-th of a run of NUL-terminated names that starts at `p0`
/// begins, if the names before it are all terminated within `r`.
pub open spec fn name_pos(r: Seq<u8>, p0: int, i: nat) -> Option<int>
    decreases i,
{
    if i == 0 {
        Some(p0)
    } else {
        match name_pos(r, p0, (i - 1) as nat) {
            Some(p) => if 0 <= p < r.len() && p + text_end(r.subrange(p, r.len() as int)) < r.len() {
                Some(p + text_end(r.subrange(p, r.len() as int)) + 1)
            } else {
                None
            },
            None => None,
        }
    }
}

/// Width of the status variable at `p` (its code byte included), if it is
/// well formed and lies within the region `r`.
pub open spec fn var_width(r: Seq<u8>, p: int) -> Option<int> {
    let q = p + 1;
    let w = match r[p] {
        0 => fixed_width(r, q, 4),
        1 => fixed_width(r, q, 8),
        2 => match prefixed_width(r, q) {
            Some(a) => if avail(r, q + a, 1) && r[q + a] == 0 {
                Some(a + 1)
            } else {
                Some(a)
            },
            None => None,
        },
        3 => fixed_width(r, q, 4),
        4 => fixed_width(r, q, 6),
        7 | 8 => fixed_width(r, q, 2),
        9 => fixed_width(r, q, 8),
        10 => fixed_width(r, q, 4),
        11 => match prefixed_width(r, q) {
            Some(a) => match prefixed_width(r, q + a) {
                Some(b) => Some(a + b),
                None => None,
            },
            None => None,
        },
        12 => if avail(r, q, 1) {
            match name_pos(r, q + 1, r[q] as nat) {
                Some(e) => Some(e - q),
                None => None,
            }
        } else {
            None
        },
        13 => fixed_width(r, q, 3),
        _ => prefixed_width(r, q),
    };
    match w {
        Some(n) => Some(1 + n),
        None => None,
    }
}

/// `v` is the value of the well-formed status variable at `p`.
pub open spec fn var_decoded(r: Seq<u8>, p: int, v: QueryStatusVar) -> bool {
    let q = p + 1;
    match v {
        QueryStatusVar::Q_FLAGS2_CODE(f) => r[p] == 0 && f == flags2_of(le32(r, q)),
        QueryStatusVar::Q_SQL_MODE_CODE(m) => r[p] == 1 && m == sql_mode_of(le64(r, q)),
        QueryStatusVar::Q_CATALOG_CODE(s) => r[p] == 2 && s@ == lossy_text(prefixed_bytes(r, q)),
        QueryStatusVar::Q_AUTO_INCREMENT(a, b) => r[p] == 3 && a == le16(r, q) && b == le16(
            r,
            q + 2,
        ),
        QueryStatusVar::Q_CHARSET_CODE(a, b, c) => r[p] == 4 && a == le16(r, q) && b == le16(
            r,
            q + 2,
        ) && c == le16(r, q + 4),
        QueryStatusVar::Q_TIME_ZONE_CODE(s) => r[p] == 5 && s@ == lossy_text(
            prefixed_bytes(r, q),
        ),
        QueryStatusVar::Q_CATALOG_NZ_CODE(s) => r[p] == 6 && s@ == lossy_text(
            prefixed_bytes(r, q),
        ),
        QueryStatusVar::Q_LC_TIME_NAMES_CODE(a) => r[p] == 7 && a == le16(r, q),
        QueryStatusVar::Q_CHARSET_DATABASE_CODE(a) => r[p] == 8 && a == le16(r, q),
        QueryStatusVar::Q_TABLE_MAP_FOR_UPDATE_CODE(a) => r[p] == 9 && a == le64(r, q),
        QueryStatusVar::Q_MASTER_DATA_WRITTEN_CODE(a) => r[p] == 10 && a == le32(r, q),
        QueryStatusVar::Q_INVOKERS(u, h) => r[p] == 11 && u@ == lossy_text(prefixed_bytes(r, q))
            && h@ == lossy_text(prefixed_bytes(r, q + 1 + r[q] as int)),
        QueryStatusVar::Q_UPDATED_DB_NAMES(ns) => {
            &&& r[p] == 12
            &&& ns@.len() == r[q]
            &&& forall|i: int|
                0 <= i < ns@.len() ==> #[trigger] ns@[i]@ == field_text(
                    r.subrange(name_pos(r, q + 1, i as nat)->0, r.len() as int),
                )
        },
        QueryStatusVar::Q_MICROSECONDS(a) => r[p] == 13 && a == le24(r, q),
        QueryStatusVar::Q_UNMODELED(c, b) => c == r[p] && 14 <= c && b@ == prefixed_bytes(r, q),
    }
}

/// Reads the NUL-terminated name at `p` of the region `r`.
fn read_name(r: &[u8], p: usize) -> (res: Result<(String, usize), ParseError>)
    requires
        p <= r@.len(),
    ensures
        match res {
            Ok((t, q)) => {
                let k = text_end(r@.subrange(p as int, r@.len() as int));
                &&& p + k < r@.len()
                &&& q == p + k + 1
                &&& t@ == field_text(r@.subrange(p as int, r@.len() as int))
            },
            Err(e) => p + text_end(r@.subrange(p as int, r@.len() as int)) >= r@.len(),
        },
{
    let ghost b = r@.subrange(p as int, r@.len() as int);
    let len = r.len();
    let mut k: usize = 0;
    while p + k < len && r[p + k] != 0
        invariant
            p + k <= len == r@.len(),
            b == r@.subrange(p as int, r@.len() as int),
            forall|j: int| 0 <= j < k ==> b[j] != 0,
        decreases len - p - k,
    {
        k = k + 1;
    }
    proof {
        assert(is_text_end(b, k as int));
        lemma_text_end_unique(b, k as int);
    }
    if p + k == len {
        return Err(ParseError::InvariantViolation);
    }
    let t = extract_string(r, p, len - p);
    Ok((t, p + k + 1))
}

/// Reads `c` NUL-terminated names starting at `p0`.
fn read_names(r: &[u8], p0: usize, c: u8) -> (res: Result<(Vec<String>, usize), ParseError>)
    requires
        p0 <= r@.len(),
    ensures
        match res {
            Ok((ns, q)) => {
                &&& name_pos(r@, p0 as int, c as nat) == Some(q as int)
                &&& p0 <= q <= r@.len()
                &&& ns@.len() == c
                &&& forall|i: int|
                    0 <= i < c ==> #[trigger] ns@[i]@ == field_text(
                        r@.subrange(name_pos(r@, p0 as int, i as nat)->0, r@.len() as int),
                    )
            },
            Err(e) => name_pos(r@, p0 as int, c as nat) is None,
        },
{
    let mut ns: Vec<String> = Vec::new();
    let mut p = p0;
    let mut i: u8 = 0;
    while i < c
        invariant
            i <= c,
            p0 <= p <= r@.len(),
            ns@.len() == i,
            name_pos(r@, p0 as int, i as nat) == Some(p as int),
            forall|j: int|
                0 <= j < i ==> #[trigger] ns@[j]@ == field_text(
                    r@.subrange(name_pos(r@, p0 as int, j as nat)->0, r@.len() as int),
                ),
        decreases c - i,
    {
        match read_name(r, p) {
            Ok((t, q)) => {
                ns.push(t);
                p = q;
            },
            Err(e) => {
                proof {
                    lemma_name_pos_none_after(r@, p0 as int, (i + 1) as nat, c as nat);
                }
                return Err(e);
            },
        }
        i = i + 1;
    }
    Ok((ns, p))
}

proof fn lemma_name_pos_none_after(r: Seq<u8>, p0: int, i: nat, c: nat)
    requires
        name_pos(r, p0, i) is None,
        i <= c,
    ensures
        name_pos(r, p0, c) is None,
    decreases c - i,
{
    if i < c {
        lemma_name_pos_none_after(r, p0, i + 1, c);
    }
}

/// Reads the one-byte-length-prefixed text at `q`; returns it and the
/// position after it.
fn read_prefixed_text(r: &[u8], q: usize) -> (res: Result<(String, usize), ParseError>)
    requires
        q <= r@.len(),
    ensures
        match res {
            Ok((t, e)) => prefixed_width(r@, q as int) == Some(e - q) && t@ == lossy_text(
                prefixed_bytes(r@, q as int),
            ),
            Err(_) => prefixed_width(r@, q as int) is None,
        },
{
    let n = read_u8(r, q)?;
    if r.len() - (q + 1) < n as usize {
        return Err(ParseError::InsufficientData);
    }
    let t = lossy_at(r, q + 1, n as usize);
    Ok((t, q + 1 + n as usize))
}

/// Decodes the status variable at `p` of the region `r`; returns it and
/// the position after it. Fails with `InvariantViolation` exactly when the
/// variable is malformed or runs past the region.
pub fn parse_status_var(r: &[u8], p: usize) -> (res: Result<(QueryStatusVar, usize), ParseError>)
    requires
        p < r@.len(),
    ensures
        match res {
            Ok((v, e)) => var_width(r@, p as int) == Some(e - p) && var_decoded(r@, p as int, v)
                && p < e <= r@.len(),
            Err(e) => var_width(r@, p as int) is None && e == ParseError::InvariantViolation,
        },
{
    match status_var_at(r, p) {
        Ok(x) => Ok(x),
        Err(_) => Err(ParseError::InvariantViolation),
    }
}

fn status_var_at(r: &[u8], p: usize) -> (res: Result<(QueryStatusVar, usize), ParseError>)
    requires
        p < r@.len(),
    ensures
        match res {
            Ok((v, e)) => var_width(r@, p as int) == Some(e - p) && var_decoded(r@, p as int, v)
                && p < e <= r@.len(),
            Err(_) => var_width(r@, p as int) is None,
        },
{
    let code = r[p];
    let q = p + 1;
    if code == 0 {
        let f = read_u32(r, q)?;
        Ok((QueryStatusVar::Q_FLAGS2_CODE(flags2_from(f)), q + 4))
    } else if code == 1 {
        let m = read_u64(r, q)?;
        Ok((QueryStatusVar::Q_SQL_MODE_CODE(sql_mode_from(m)), q + 8))
    } else if code == 2 {
        let (t, e) = read_prefixed_text(r, q)?;
        if e < r.len() && r[e] == 0 {
            Ok((QueryStatusVar::Q_CATALOG_CODE(t), e + 1))
        } else {
            Ok((QueryStatusVar::Q_CATALOG_CODE(t), e))
        }
    } else if code == 3 {
        let a = read_u16(r, q)?;
        let b = read_u16(r, q + 2)?;
        Ok((QueryStatusVar::Q_AUTO_INCREMENT(a, b), q + 4))
    } else if code == 4 {
        let a = read_u16(r, q)?;
        let b = read_u16(r, q + 2)?;
        let c = read_u16(r, q + 4)?;
        Ok((QueryStatusVar::Q_CHARSET_CODE(a, b, c), q + 6))
    } else if code == 5 {
        let (t, e) = read_prefixed_text(r, q)?;
        Ok((QueryStatusVar::Q_TIME_ZONE_CODE(t), e))
    } else if code == 6 {
        let (t, e) = read_prefixed_text(r, q)?;
        Ok((QueryStatusVar::Q_CATALOG_NZ_CODE(t), e))
    } else if code == 7 {
        let a = read_u16(r, q)?;
        Ok((QueryStatusVar::Q_LC_TIME_NAMES_CODE(a), q + 2))
    } else if code == 8 {
        let a = read_u16(r, q)?;
        Ok((QueryStatusVar::Q_CHARSET_DATABASE_CODE(a), q + 2))
    } else if code == 9 {
        let a = read_u64(r, q)?;
        Ok((QueryStatusVar::Q_TABLE_MAP_FOR_UPDATE_CODE(a), q + 8))
    } else if code == 10 {
        let a = read_u32(r, q)?;
        Ok((QueryStatusVar::Q_MASTER_DATA_WRITTEN_CODE(a), q + 4))
    } else if code == 11 {
        let (u, e1) = read_prefixed_text(r, q)?;
        let (h, e2) = read_prefixed_text(r, e1)?;
        Ok((QueryStatusVar::Q_INVOKERS(u, h), e2))
    } else if code == 12 {
        let c = read_u8(r, q)?;
        let (ns, e) = read_names(r, q + 1, c)?;
        Ok((QueryStatusVar::Q_UPDATED_DB_NAMES(ns), e))
    } else if code == 13 {
        let a = read_u24(r, q)?;
        Ok((QueryStatusVar::Q_MICROSECONDS(a), q + 3))
    } else {
        let n = read_u8(r, q)?;
        let b = read_bytes(r, q + 1, n as usize)?;
        Ok((QueryStatusVar::Q_UNMODELED(code, b), q + 1 + n as usize))
    }
}

/// Where the `i`-th status variable of the region `r` starts, if the ones
/// before it are well formed.
pub open spec fn var_pos(r: Seq<u8>, i: nat) -> Option<int>
    decreases i,
{
    if i == 0 {
        Some(0)
    } else {
        match var_pos(r, (i - 1) as nat) {
            Some(p) => if 0 <= p < r.len() {
                match var_width(r, p) {
                    Some(w) => Some(p + w),
                    None => None,
                }
            } else {
                None
            },
            None => None,
        }
    }
}

/// The `i`-th status variable of the region `r` is well formed and has
/// the value `v`.
pub open spec fn var_at(r: Seq<u8>, i: int, v: QueryStatusVar) -> bool {
    &&& var_pos(r, i as nat) is Some
    &&& var_pos(r, i as nat)->0 < r.len()
    &&& var_decoded(r, var_pos(r, i as nat)->0, v)
}

/// The region `r` is a run of well-formed status variables, and `vs`
/// are their values in order.
pub open spec fn vars_decoded(r: Seq<u8>, vs: Seq<QueryStatusVar>) -> bool {
    &&& var_pos(r, vs.len()) == Some(r.len() as int)
    &&& forall|i: int| 0 <= i < vs.len() ==> var_at(r, i, #[trigger] vs[i])
}

/// Some status variable of the region `r`, after well-formed ones, is
/// malformed or runs past the end of the region.
pub open spec fn vars_malformed(r: Seq<u8>) -> bool {
    exists|i: nat|
        #[trigger] var_pos(r, i) is Some && 0 <= var_pos(r, i)->0 < r.len() && var_width(
            r,
            var_pos(r, i)->0,
        ) is None
}

/// Decodes a self-contained region of status variables, which must be
/// consumed exactly.
pub fn parse_status_vars(r: &[u8]) -> (res: Result<Vec<QueryStatusVar>, ParseError>)
    ensures
        match res {
            Ok(vs) => vars_decoded(r@, vs@),
            Err(e) => e == ParseError::InvariantViolation && vars_malformed(r@),
        },
{
    let mut vs: Vec<QueryStatusVar> = Vec::new();
    let mut p: usize = 0;
    let len = r.len();
    while p < len
        invariant
            p <= len == r@.len(),
            var_pos(r@, vs@.len() as nat) == Some(p as int),
            forall|i: int| 0 <= i < vs@.len() ==> var_at(r@, i, #[trigger] vs@[i]),
        decreases len - p,
    {
        match parse_status_var(r, p) {
            Ok((v, e)) => {
                let ghost old_vs = vs@;
                proof {
                    assert(var_pos(r@, (vs@.len() + 1) as nat) == Some(e as int));
                }
                vs.push(v);
                proof {
                    assert forall|i: int| 0 <= i < vs@.len() implies var_at(
                        r@,
                        i,
                        #[trigger] vs@[i],
                    ) by {
                        if i < old_vs.len() {
                            assert(vs@[i] == old_vs[i]);
                        }
                    }
                }
                p = e;
            },
            Err(_) => {
                proof {
                    assert(var_pos(r@, vs@.len() as nat)->0 == p);
                }
                return Err(ParseError::InvariantViolation);
            },
        }
    }
    Ok(vs)
}

proof fn lemma_var_pos_none_after(r: Seq<u8>, i: nat, j: nat)
    requires
        var_pos(r, i) is None,
        i <= j,
    ensures
        var_pos(r, j) is None,
    decreases j - i,
{
    if i < j {
        lemma_var_pos_none_after(r, i + 1, j);
    }
}

/// A region that decodes as a run of status variables is not malformed.
proof fn lemma_vars_exclusive(r: Seq<u8>, vs: Seq<QueryStatusVar>)
    requires
        vars_decoded(r, vs),
    ensures
        !vars_malformed(r),
{
    if vars_malformed(r) {
        let i = choose|i: nat|
            #[trigger] var_pos(r, i) is Some && 0 <= var_pos(r, i)->0 < r.len() && var_width(
                r,
                var_pos(r, i)->0,
            ) is None;
        assert(var_pos(r, i + 1) is None);
        if i < vs.len() {
            lemma_var_pos_none_after(r, i + 1, vs.len());
        } else if i > vs.len() {
            assert(var_pos(r, vs.len() + 1) is None);
            lemma_var_pos_none_after(r, vs.len() + 1, i);
        }
    }
}

/// How the body `s` of a query event with header `h` decodes: the
/// error met first, or the decoded event and the input after it.
pub open spec fn query_decoded(s: Seq<u8>, h: Header, r: Result<(Seq<u8>, Event), ParseError>) -> bool {
    let sl = s[8] as int;
    let svl = le16(s, 11) as int;
    let a = 13 + svl;
    let b = a + sl + 1;
    let n = tail(h, b, 4);
    if !avail(s, 0, 13) || !avail(s, 13, svl) {
        r == Err::<(Seq<u8>, Event), _>(ParseError::InsufficientData)
    } else if vars_malformed(s.subrange(13, a)) {
        r == Err::<(Seq<u8>, Event), _>(ParseError::InvariantViolation)
    } else if !avail(s, a, sl + 1) {
        r == Err::<(Seq<u8>, Event), _>(ParseError::InsufficientData)
    } else if n < 0 {
        r == Err::<(Seq<u8>, Event), _>(ParseError::MalformedLength)
    } else if !avail(s, b, n + 4) {
        r == Err::<(Seq<u8>, Event), _>(ParseError::InsufficientData)
    } else {
        match r {
            Ok(
                (
                    rest,
                    Event::Query {
                        header,
                        slave_proxy_id,
                        execution_time,
                        schema_length,
                        error_code,
                        status_vars_length,
                        status_vars,
                        schema,
                        query,
                        checksum,
                    },
                ),
            ) => {
                &&& header == h
                &&& slave_proxy_id == le32(s, 0)
                &&& execution_time == le32(s, 4)
                &&& schema_length == s[8]
                &&& error_code == le16(s, 9)
                &&& status_vars_length == le16(s, 11)
                &&& vars_decoded(s.subrange(13, a), status_vars@)
                &&& schema@ == lossy_text(s.subrange(a, a + sl))
                &&& query@ == field_text(s.subrange(b, b + n))
                &&& checksum == le32(s, b + n)
                &&& rest_is(s, b + n + 4, rest)
            },
            _ => false,
        }
    }
}

/// Decodes a query event: thread id, execution time, schema length, error
/// code, the status-variable region, the schema name, a separator byte,
/// the query text that fills the declared size, and the checksum. A
/// region that is not exactly a run of status variables is
/// `InvariantViolation`. The schema name is decoded leniently, as all
/// text is.
pub fn parse_query<'a>(input: &'a [u8], header: Header) -> (r: Result<(&'a [u8], Event), ParseError>)
    ensures
        query_decoded(input@, header, out_view(r)),
{
    if input.len() < 13 {
        return Err(ParseError::InsufficientData);
    }
    let slave_proxy_id = read_u32(input, 0)?;
    let execution_time = read_u32(input, 4)?;
    let schema_length = read_u8(input, 8)?;
    let error_code = read_u16(input, 9)?;
    let status_vars_length = read_u16(input, 11)?;
    let svl = status_vars_length as usize;
    if input.len() - 13 < svl {
        return Err(ParseError::InsufficientData);
    }
    let region = slice_subrange(input, 13, 13 + svl);
    let status_vars = parse_status_vars(region)?;
    proof {
        lemma_vars_exclusive(region@, status_vars@);
    }
    let a = 13 + svl;
    let sl = schema_length as usize;
    if input.len() - a < sl + 1 {
        return Err(ParseError::InsufficientData);
    }
    let schema = lossy_at(input, a, sl);
    let b = a + sl + 1;
    let n = tail_len(&header, b, 4)?;
    if input.len() - b < n || input.len() - b - n < 4 {
        return Err(ParseError::InsufficientData);
    }
    let query = extract_string(input, b, n);
    let checksum = read_u32(input, b + n)?;
    Ok(
        (
            slice_subrange(input, b + n + 4, input.len()),
            Event::Query {
                header,
                slave_proxy_id,
                execution_time,
                schema_length,
                error_code,
                status_vars_length,
                status_vars,
                schema,
                query,
                checksum,
            },
        ),
    )
}

/// Two status variables are the same variable with the same value,
/// strings compared by their characters.
pub open spec fn var_agrees(a: QueryStatusVar, b: QueryStatusVar) -> bool {
    match (a, b) {
        (QueryStatusVar::Q_FLAGS2_CODE(x), QueryStatusVar::Q_FLAGS2_CODE(y)) => x == y,
        (QueryStatusVar::Q_SQL_MODE_CODE(x), QueryStatusVar::Q_SQL_MODE_CODE(y)) => x == y,
        (QueryStatusVar::Q_CATALOG_CODE(x), QueryStatusVar::Q_CATALOG_CODE(y)) => x@ == y@,
        (QueryStatusVar::Q_AUTO_INCREMENT(x1, x2), QueryStatusVar::Q_AUTO_INCREMENT(y1, y2)) => x1
            == y1 && x2 == y2,
        (QueryStatusVar::Q_CHARSET_CODE(x1, x2, x3), QueryStatusVar::Q_CHARSET_CODE(y1, y2, y3)) =>
            x1 == y1 && x2 == y2 && x3 == y3,
        (QueryStatusVar::Q_TIME_ZONE_CODE(x), QueryStatusVar::Q_TIME_ZONE_CODE(y)) => x@ == y@,
        (QueryStatusVar::Q_CATALOG_NZ_CODE(x), QueryStatusVar::Q_CATALOG_NZ_CODE(y)) => x@ == y@,
        (QueryStatusVar::Q_LC_TIME_NAMES_CODE(x), QueryStatusVar::Q_LC_TIME_NAMES_CODE(y)) => x
            == y,
        (
            QueryStatusVar::Q_CHARSET_DATABASE_CODE(x),
            QueryStatusVar::Q_CHARSET_DATABASE_CODE(y),
        ) => x == y,
        (
            QueryStatusVar::Q_TABLE_MAP_FOR_UPDATE_CODE(x),
            QueryStatusVar::Q_TABLE_MAP_FOR_UPDATE_CODE(y),
        ) => x == y,
        (
            QueryStatusVar::Q_MASTER_DATA_WRITTEN_CODE(x),
            QueryStatusVar::Q_MASTER_DATA_WRITTEN_CODE(y),
        ) => x == y,
        (QueryStatusVar::Q_INVOKERS(x1, x2), QueryStatusVar::Q_INVOKERS(y1, y2)) => x1@ == y1@
            && x2@ == y2@,
        (QueryStatusVar::Q_UPDATED_DB_NAMES(x), QueryStatusVar::Q_UPDATED_DB_NAMES(y)) =>
            strings_agree(x@, y@),
        (QueryStatusVar::Q_MICROSECONDS(x), QueryStatusVar::Q_MICROSECONDS(y)) => x == y,
        (QueryStatusVar::Q_UNMODELED(c1, x), QueryStatusVar::Q_UNMODELED(c2, y)) => c1 == c2 && x@
            == y@,
        _ => false,
    }
}

/// Two runs of status variables agree one by one.
pub open spec fn vars_agree(a: Seq<QueryStatusVar>, b: Seq<QueryStatusVar>) -> bool {
    &&& a.len() == b.len()
    &&& forall|i: int| 0 <= i < a.len() ==> var_agrees(#[trigger] a[i], b[i])
}

proof fn lemma_var_decoded_agree(r: Seq<u8>, p: int, a: QueryStatusVar, b: QueryStatusVar)
    requires
        var_decoded(r, p, a),
        var_decoded(r, p, b),
    ensures
        var_agrees(a, b),
{
    if let QueryStatusVar::Q_UPDATED_DB_NAMES(x) = a {
        if let QueryStatusVar::Q_UPDATED_DB_NAMES(y) = b {
            assert forall|i: int| 0 <= i < x@.len() implies (#[trigger] x@[i])@ == y@[i]@ by {
                assert(y@[i]@ == field_text(
                    r.subrange(name_pos(r, p + 2, i as nat)->0, r.len() as int),
                ));
            }
        }
    }
}

/// A region decodes to status variables in one way only.
pub proof fn lemma_vars_decoded_agree(r: Seq<u8>, a: Seq<QueryStatusVar>, b: Seq<QueryStatusVar>)
    requires
        vars_decoded(r, a),
        vars_decoded(r, b),
    ensures
        vars_agree(a, b),
{
    if a.len() < b.len() {
        assert(var_pos(r, a.len() + 1) is None);
        lemma_var_pos_none_after(r, a.len() + 1, b.len());
    } else if b.len() < a.len() {
        assert(var_pos(r, b.len() + 1) is None);
        lemma_var_pos_none_after(r, b.len() + 1, a.len());
    }
    assert forall|i: int| 0 <= i < a.len() implies var_agrees(#[trigger] a[i], b[i]) by {
        assert(var_at(r, i, a[i]));
        assert(var_at(r, i, b[i]));
        lemma_var_decoded_agree(r, var_pos(r, i as nat)->0, a[i], b[i]);
    }
}

} // verus!

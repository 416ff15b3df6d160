//! Laws about whole records: decoding is a function of the bytes, and a
//! record cut short fails for want of data.
use vstd::prelude::*;

use crate::error::ParseError;
use crate::events::load::{lemma_fields_prefix, load_decoded, new_load_decoded, next_delim};
use crate::events::query::{lemma_vars_decoded_agree, query_decoded};
use crate::events::rows::{
    delete_rows_decoded, extra_region, extras_refused, lemma_extras_decoded_agree,
    lemma_extras_refused_unique, prefix_ok,
    update_rows_decoded, write_rows_decoded,
};
use crate::events::table_map::table_map_decoded;
use crate::events::{
    anonymous_gtid_decoded, append_file_decoded, begin_load_query_decoded, body_decoded,
    create_file_decoded, delete_file_decoded, event_decoded, exec_load_decoded,
    execute_load_query_decoded, format_desc_decoded, header_error, header_of, incident_decoded,
    intvar_decoded, previous_gtids_decoded, rand_decoded, rotate_decoded, row_query_decoded,
    unknown_decoded, user_var_decoded, xid_decoded, event_agrees, Event, Header,
};
use crate::utils::{avail, le16, le32};

verus! {

proof fn lemma_unknown_truncated(
    s: Seq<u8>,
    h: Header,
    rest: Seq<u8>,
    e: Event,
    m: int,
    r: Result<(Seq<u8>, Event), ParseError>,
)
    requires
        unknown_decoded(s, h, Ok((rest, e))),
        rest.len() <= s.len(),
        0 <= m < s.len() - rest.len(),
        unknown_decoded(s.subrange(0, m), h, r),
    ensures
        r == Err::<(Seq<u8>, Event), _>(ParseError::InsufficientData),
{
    let t = s.subrange(0, m);
    assert forall|i: int| 0 <= i < m implies t[i] == s[i] by {}
}

proof fn lemma_query_truncated(
    s: Seq<u8>,
    h: Header,
    rest: Seq<u8>,
    e: Event,
    m: int,
    r: Result<(Seq<u8>, Event), ParseError>,
)
    requires
        query_decoded(s, h, Ok((rest, e))),
        rest.len() <= s.len(),
        0 <= m < s.len() - rest.len(),
        query_decoded(s.subrange(0, m), h, r),
    ensures
        r == Err::<(Seq<u8>, Event), _>(ParseError::InsufficientData),
{
    let t = s.subrange(0, m);
    assert forall|i: int| 0 <= i < m implies t[i] == s[i] by {}
    let svl = le16(s, 11) as int;
    if avail(t, 0, 13) && avail(t, 13, svl) {
        assert(t.subrange(13, 13 + svl) =~= s.subrange(13, 13 + svl));
    }
}

proof fn lemma_rotate_truncated(
    s: Seq<u8>,
    h: Header,
    rest: Seq<u8>,
    e: Event,
    m: int,
    r: Result<(Seq<u8>, Event), ParseError>,
)
    requires
        rotate_decoded(s, h, Ok((rest, e))),
        rest.len() <= s.len(),
        0 <= m < s.len() - rest.len(),
        rotate_decoded(s.subrange(0, m), h, r),
    ensures
        r == Err::<(Seq<u8>, Event), _>(ParseError::InsufficientData),
{
    let t = s.subrange(0, m);
    assert forall|i: int| 0 <= i < m implies t[i] == s[i] by {}
}

proof fn lemma_intvar_truncated(
    s: Seq<u8>,
    h: Header,
    rest: Seq<u8>,
    e: Event,
    m: int,
    r: Result<(Seq<u8>, Event), ParseError>,
)
    requires
        intvar_decoded(s, h, Ok((rest, e))),
        rest.len() <= s.len(),
        0 <= m < s.len() - rest.len(),
        intvar_decoded(s.subrange(0, m), h, r),
    ensures
        r == Err::<(Seq<u8>, Event), _>(ParseError::InsufficientData),
{
    let t = s.subrange(0, m);
    assert forall|i: int| 0 <= i < m implies t[i] == s[i] by {}
}

proof fn lemma_load_truncated(
    s: Seq<u8>,
    h: Header,
    rest: Seq<u8>,
    e: Event,
    m: int,
    r: Result<(Seq<u8>, Event), ParseError>,
)
    requires
        load_decoded(s, h, Ok((rest, e))),
        rest.len() <= s.len(),
        0 <= m < s.len() - rest.len(),
        load_decoded(s.subrange(0, m), h, r),
    ensures
        r == Err::<(Seq<u8>, Event), _>(ParseError::InsufficientData),
{
    let t = s.subrange(0, m);
    assert forall|i: int| 0 <= i < m implies t[i] == s[i] by {}
    if avail(t, 0, 25) {
        lemma_fields_prefix(s, m, 25, h, le32(s, 14) as int, s[12] as int, s[13] as int);
    }
}

proof fn lemma_create_file_truncated(
    s: Seq<u8>,
    h: Header,
    rest: Seq<u8>,
    e: Event,
    m: int,
    r: Result<(Seq<u8>, Event), ParseError>,
)
    requires
        create_file_decoded(s, h, Ok((rest, e))),
        rest.len() <= s.len(),
        0 <= m < s.len() - rest.len(),
        create_file_decoded(s.subrange(0, m), h, r),
    ensures
        r == Err::<(Seq<u8>, Event), _>(ParseError::InsufficientData),
{
    let t = s.subrange(0, m);
    assert forall|i: int| 0 <= i < m implies t[i] == s[i] by {}
}

proof fn lemma_append_file_truncated(
    s: Seq<u8>,
    h: Header,
    rest: Seq<u8>,
    e: Event,
    m: int,
    r: Result<(Seq<u8>, Event), ParseError>,
)
    requires
        append_file_decoded(s, h, Ok((rest, e))),
        rest.len() <= s.len(),
        0 <= m < s.len() - rest.len(),
        append_file_decoded(s.subrange(0, m), h, r),
    ensures
        r == Err::<(Seq<u8>, Event), _>(ParseError::InsufficientData),
{
    let t = s.subrange(0, m);
    assert forall|i: int| 0 <= i < m implies t[i] == s[i] by {}
}

proof fn lemma_exec_load_truncated(
    s: Seq<u8>,
    h: Header,
    rest: Seq<u8>,
    e: Event,
    m: int,
    r: Result<(Seq<u8>, Event), ParseError>,
)
    requires
        exec_load_decoded(s, h, Ok((rest, e))),
        rest.len() <= s.len(),
        0 <= m < s.len() - rest.len(),
        exec_load_decoded(s.subrange(0, m), h, r),
    ensures
        r == Err::<(Seq<u8>, Event), _>(ParseError::InsufficientData),
{
    let t = s.subrange(0, m);
    assert forall|i: int| 0 <= i < m implies t[i] == s[i] by {}
}

proof fn lemma_delete_file_truncated(
    s: Seq<u8>,
    h: Header,
    rest: Seq<u8>,
    e: Event,
    m: int,
    r: Result<(Seq<u8>, Event), ParseError>,
)
    requires
        delete_file_decoded(s, h, Ok((rest, e))),
        rest.len() <= s.len(),
        0 <= m < s.len() - rest.len(),
        delete_file_decoded(s.subrange(0, m), h, r),
    ensures
        r == Err::<(Seq<u8>, Event), _>(ParseError::InsufficientData),
{
    let t = s.subrange(0, m);
    assert forall|i: int| 0 <= i < m implies t[i] == s[i] by {}
}

proof fn lemma_new_load_truncated(
    s: Seq<u8>,
    h: Header,
    rest: Seq<u8>,
    e: Event,
    m: int,
    r: Result<(Seq<u8>, Event), ParseError>,
)
    requires
        new_load_decoded(s, h, Ok((rest, e))),
        rest.len() <= s.len(),
        0 <= m < s.len() - rest.len(),
        new_load_decoded(s.subrange(0, m), h, r),
    ensures
        r == Err::<(Seq<u8>, Event), _>(ParseError::InsufficientData),
{
    let t = s.subrange(0, m);
    assert forall|i: int| 0 <= i < m implies t[i] == s[i] by {}
    let d1 = next_delim(s, 18);
    let d2 = next_delim(s, d1);
    let d3 = next_delim(s, d2);
    let d4 = next_delim(s, d3);
    let d5 = next_delim(s, d4);
    if avail(t, 0, 18) && avail(t, d5, 1) {
        lemma_fields_prefix(s, m, d5 + 1, h, le32(s, 14) as int, s[12] as int, s[13] as int);
    }
}

proof fn lemma_rand_truncated(
    s: Seq<u8>,
    h: Header,
    rest: Seq<u8>,
    e: Event,
    m: int,
    r: Result<(Seq<u8>, Event), ParseError>,
)
    requires
        rand_decoded(s, h, Ok((rest, e))),
        rest.len() <= s.len(),
        0 <= m < s.len() - rest.len(),
        rand_decoded(s.subrange(0, m), h, r),
    ensures
        r == Err::<(Seq<u8>, Event), _>(ParseError::InsufficientData),
{
    let t = s.subrange(0, m);
    assert forall|i: int| 0 <= i < m implies t[i] == s[i] by {}
}

proof fn lemma_user_var_truncated(
    s: Seq<u8>,
    h: Header,
    rest: Seq<u8>,
    e: Event,
    m: int,
    r: Result<(Seq<u8>, Event), ParseError>,
)
    requires
        user_var_decoded(s, h, Ok((rest, e))),
        rest.len() <= s.len(),
        0 <= m < s.len() - rest.len(),
        user_var_decoded(s.subrange(0, m), h, r),
    ensures
        r == Err::<(Seq<u8>, Event), _>(ParseError::InsufficientData),
{
    let t = s.subrange(0, m);
    assert forall|i: int| 0 <= i < m implies t[i] == s[i] by {}
}

proof fn lemma_format_desc_truncated(
    s: Seq<u8>,
    h: Header,
    rest: Seq<u8>,
    e: Event,
    m: int,
    r: Result<(Seq<u8>, Event), ParseError>,
)
    requires
        format_desc_decoded(s, h, Ok((rest, e))),
        rest.len() <= s.len(),
        0 <= m < s.len() - rest.len(),
        format_desc_decoded(s.subrange(0, m), h, r),
    ensures
        r == Err::<(Seq<u8>, Event), _>(ParseError::InsufficientData),
{
    let t = s.subrange(0, m);
    assert forall|i: int| 0 <= i < m implies t[i] == s[i] by {}
}

proof fn lemma_xid_truncated(
    s: Seq<u8>,
    h: Header,
    rest: Seq<u8>,
    e: Event,
    m: int,
    r: Result<(Seq<u8>, Event), ParseError>,
)
    requires
        xid_decoded(s, h, Ok((rest, e))),
        rest.len() <= s.len(),
        0 <= m < s.len() - rest.len(),
        xid_decoded(s.subrange(0, m), h, r),
    ensures
        r == Err::<(Seq<u8>, Event), _>(ParseError::InsufficientData),
{
    let t = s.subrange(0, m);
    assert forall|i: int| 0 <= i < m implies t[i] == s[i] by {}
}

proof fn lemma_begin_load_query_truncated(
    s: Seq<u8>,
    h: Header,
    rest: Seq<u8>,
    e: Event,
    m: int,
    r: Result<(Seq<u8>, Event), ParseError>,
)
    requires
        begin_load_query_decoded(s, h, Ok((rest, e))),
        rest.len() <= s.len(),
        0 <= m < s.len() - rest.len(),
        begin_load_query_decoded(s.subrange(0, m), h, r),
    ensures
        r == Err::<(Seq<u8>, Event), _>(ParseError::InsufficientData),
{
    let t = s.subrange(0, m);
    assert forall|i: int| 0 <= i < m implies t[i] == s[i] by {}
}

proof fn lemma_execute_load_query_truncated(
    s: Seq<u8>,
    h: Header,
    rest: Seq<u8>,
    e: Event,
    m: int,
    r: Result<(Seq<u8>, Event), ParseError>,
)
    requires
        execute_load_query_decoded(s, h, Ok((rest, e))),
        rest.len() <= s.len(),
        0 <= m < s.len() - rest.len(),
        execute_load_query_decoded(s.subrange(0, m), h, r),
    ensures
        r == Err::<(Seq<u8>, Event), _>(ParseError::InsufficientData),
{
    let t = s.subrange(0, m);
    assert forall|i: int| 0 <= i < m implies t[i] == s[i] by {}
}

proof fn lemma_table_map_truncated(
    s: Seq<u8>,
    h: Header,
    rest: Seq<u8>,
    e: Event,
    m: int,
    r: Result<(Seq<u8>, Event), ParseError>,
)
    requires
        table_map_decoded(s, h, Ok((rest, e))),
        rest.len() <= s.len(),
        0 <= m < s.len() - rest.len(),
        table_map_decoded(s.subrange(0, m), h, r),
    ensures
        r == Err::<(Seq<u8>, Event), _>(ParseError::InsufficientData),
{
    let t = s.subrange(0, m);
    assert forall|i: int| 0 <= i < m implies t[i] == s[i] by {}
}

proof fn lemma_incident_truncated(
    s: Seq<u8>,
    h: Header,
    rest: Seq<u8>,
    e: Event,
    m: int,
    r: Result<(Seq<u8>, Event), ParseError>,
)
    requires
        incident_decoded(s, h, Ok((rest, e))),
        rest.len() <= s.len(),
        0 <= m < s.len() - rest.len(),
        incident_decoded(s.subrange(0, m), h, r),
    ensures
        r == Err::<(Seq<u8>, Event), _>(ParseError::InsufficientData),
{
    let t = s.subrange(0, m);
    assert forall|i: int| 0 <= i < m implies t[i] == s[i] by {}
}

proof fn lemma_row_query_truncated(
    s: Seq<u8>,
    h: Header,
    rest: Seq<u8>,
    e: Event,
    m: int,
    r: Result<(Seq<u8>, Event), ParseError>,
)
    requires
        row_query_decoded(s, h, Ok((rest, e))),
        rest.len() <= s.len(),
        0 <= m < s.len() - rest.len(),
        row_query_decoded(s.subrange(0, m), h, r),
    ensures
        r == Err::<(Seq<u8>, Event), _>(ParseError::InsufficientData),
{
    let t = s.subrange(0, m);
    assert forall|i: int| 0 <= i < m implies t[i] == s[i] by {}
}

proof fn lemma_write_rows_truncated(
    s: Seq<u8>,
    h: Header,
    rest: Seq<u8>,
    e: Event,
    m: int,
    r: Result<(Seq<u8>, Event), ParseError>,
)
    requires
        write_rows_decoded(s, h, Ok((rest, e))),
        rest.len() <= s.len(),
        0 <= m < s.len() - rest.len(),
        write_rows_decoded(s.subrange(0, m), h, r),
    ensures
        r == Err::<(Seq<u8>, Event), _>(ParseError::InsufficientData),
{
    let t = s.subrange(0, m);
    assert forall|i: int| 0 <= i < m implies t[i] == s[i] by {}
    if avail(t, 0, 10) && le16(t, 8) >= 2 && avail(t, 10, le16(t, 8) - 2) {
        assert(extra_region(t) =~= extra_region(s));
    }
}

proof fn lemma_update_rows_truncated(
    s: Seq<u8>,
    h: Header,
    rest: Seq<u8>,
    e: Event,
    m: int,
    r: Result<(Seq<u8>, Event), ParseError>,
)
    requires
        update_rows_decoded(s, h, Ok((rest, e))),
        rest.len() <= s.len(),
        0 <= m < s.len() - rest.len(),
        update_rows_decoded(s.subrange(0, m), h, r),
    ensures
        r == Err::<(Seq<u8>, Event), _>(ParseError::InsufficientData),
{
    let t = s.subrange(0, m);
    assert forall|i: int| 0 <= i < m implies t[i] == s[i] by {}
    if avail(t, 0, 10) && le16(t, 8) >= 2 && avail(t, 10, le16(t, 8) - 2) {
        assert(extra_region(t) =~= extra_region(s));
    }
}

proof fn lemma_delete_rows_truncated(
    s: Seq<u8>,
    h: Header,
    rest: Seq<u8>,
    e: Event,
    m: int,
    r: Result<(Seq<u8>, Event), ParseError>,
)
    requires
        delete_rows_decoded(s, h, Ok((rest, e))),
        rest.len() <= s.len(),
        0 <= m < s.len() - rest.len(),
        delete_rows_decoded(s.subrange(0, m), h, r),
    ensures
        r == Err::<(Seq<u8>, Event), _>(ParseError::InsufficientData),
{
    let t = s.subrange(0, m);
    assert forall|i: int| 0 <= i < m implies t[i] == s[i] by {}
    if avail(t, 0, 10) && le16(t, 8) >= 2 && avail(t, 10, le16(t, 8) - 2) {
        assert(extra_region(t) =~= extra_region(s));
    }
}

proof fn lemma_anonymous_gtid_truncated(
    s: Seq<u8>,
    h: Header,
    rest: Seq<u8>,
    e: Event,
    m: int,
    r: Result<(Seq<u8>, Event), ParseError>,
)
    requires
        anonymous_gtid_decoded(s, h, Ok((rest, e))),
        rest.len() <= s.len(),
        0 <= m < s.len() - rest.len(),
        anonymous_gtid_decoded(s.subrange(0, m), h, r),
    ensures
        r == Err::<(Seq<u8>, Event), _>(ParseError::InsufficientData),
{
    let t = s.subrange(0, m);
    assert forall|i: int| 0 <= i < m implies t[i] == s[i] by {}
}

proof fn lemma_previous_gtids_truncated(
    s: Seq<u8>,
    h: Header,
    rest: Seq<u8>,
    e: Event,
    m: int,
    r: Result<(Seq<u8>, Event), ParseError>,
)
    requires
        previous_gtids_decoded(s, h, Ok((rest, e))),
        rest.len() <= s.len(),
        0 <= m < s.len() - rest.len(),
        previous_gtids_decoded(s.subrange(0, m), h, r),
    ensures
        r == Err::<(Seq<u8>, Event), _>(ParseError::InsufficientData),
{
    let t = s.subrange(0, m);
    assert forall|i: int| 0 <= i < m implies t[i] == s[i] by {}
}

/// Decoding a body that decoded before, cut short before its end, fails
/// with `InsufficientData`.
proof fn lemma_body_truncated(
    s: Seq<u8>,
    h: Header,
    rest: Seq<u8>,
    e: Event,
    m: int,
    r: Result<(Seq<u8>, Event), ParseError>,
)
    requires
        body_decoded(s, h, Ok((rest, e))),
        rest.len() <= s.len(),
        0 <= m < s.len() - rest.len(),
        body_decoded(s.subrange(0, m), h, r),
    ensures
        r == Err::<(Seq<u8>, Event), _>(ParseError::InsufficientData),
{
    if h.event_type == 0x00 {
        lemma_unknown_truncated(s, h, rest, e, m, r);
    } else if h.event_type == 0x02 {
        lemma_query_truncated(s, h, rest, e, m, r);
    } else if h.event_type == 0x04 {
        lemma_rotate_truncated(s, h, rest, e, m, r);
    } else if h.event_type == 0x05 {
        lemma_intvar_truncated(s, h, rest, e, m, r);
    } else if h.event_type == 0x06 {
        lemma_load_truncated(s, h, rest, e, m, r);
    } else if h.event_type == 0x08 {
        lemma_create_file_truncated(s, h, rest, e, m, r);
    } else if h.event_type == 0x09 {
        lemma_append_file_truncated(s, h, rest, e, m, r);
    } else if h.event_type == 0x0a {
        lemma_exec_load_truncated(s, h, rest, e, m, r);
    } else if h.event_type == 0x0b {
        lemma_delete_file_truncated(s, h, rest, e, m, r);
    } else if h.event_type == 0x0c {
        lemma_new_load_truncated(s, h, rest, e, m, r);
    } else if h.event_type == 0x0d {
        lemma_rand_truncated(s, h, rest, e, m, r);
    } else if h.event_type == 0x0e {
        lemma_user_var_truncated(s, h, rest, e, m, r);
    } else if h.event_type == 0x0f {
        lemma_format_desc_truncated(s, h, rest, e, m, r);
    } else if h.event_type == 0x10 {
        lemma_xid_truncated(s, h, rest, e, m, r);
    } else if h.event_type == 0x11 {
        lemma_begin_load_query_truncated(s, h, rest, e, m, r);
    } else if h.event_type == 0x12 {
        lemma_execute_load_query_truncated(s, h, rest, e, m, r);
    } else if h.event_type == 0x13 {
        lemma_table_map_truncated(s, h, rest, e, m, r);
    } else if h.event_type == 0x1a {
        lemma_incident_truncated(s, h, rest, e, m, r);
    } else if h.event_type == 0x1d {
        lemma_row_query_truncated(s, h, rest, e, m, r);
    } else if h.event_type == 0x1e {
        lemma_write_rows_truncated(s, h, rest, e, m, r);
    } else if h.event_type == 0x1f {
        lemma_update_rows_truncated(s, h, rest, e, m, r);
    } else if h.event_type == 0x20 {
        lemma_delete_rows_truncated(s, h, rest, e, m, r);
    } else if h.event_type == 0x22 {
        lemma_anonymous_gtid_truncated(s, h, rest, e, m, r);
    } else if h.event_type == 0x23 {
        lemma_previous_gtids_truncated(s, h, rest, e, m, r);
    }
}

/// A record that decodes, consuming exactly its declared event size,
/// fails with `InsufficientData` when cut short anywhere before its end:
/// never with another error, and never with a value.
pub proof fn lemma_truncated_record(
    s: Seq<u8>,
    rest: Seq<u8>,
    e: Event,
    k: int,
    r: Result<(Seq<u8>, Event), ParseError>,
)
    requires
        event_decoded(s, Ok((rest, e))),
        s.len() - rest.len() == header_of(s).event_size,
        0 <= k < header_of(s).event_size,
        event_decoded(s.subrange(0, k), r),
    ensures
        r == Err::<(Seq<u8>, Event), _>(ParseError::InsufficientData),
{
    let t = s.subrange(0, k);
    if k >= 19 {
        assert forall|i: int| 0 <= i < k implies t[i] == s[i] by {}
        assert(header_of(t) == header_of(s));
        let sb = s.subrange(19, s.len() as int);
        assert(t.subrange(19, k) =~= sb.subrange(0, k - 19));
        lemma_body_truncated(sb, header_of(s), rest, e, k - 19, r);
    }
}

/// The header of a decoded event.
pub open spec fn event_header(e: Event) -> Header {
    match e {
        Event::Unknown { header, .. } => header,
        Event::Query { header, .. } => header,
        Event::Stop { header, .. } => header,
        Event::Rotate { header, .. } => header,
        Event::IntVar { header, .. } => header,
        Event::Load { header, .. } => header,
        Event::Slave { header, .. } => header,
        Event::CreateFile { header, .. } => header,
        Event::AppendFile { header, .. } => header,
        Event::ExecLoad { header, .. } => header,
        Event::DeleteFile { header, .. } => header,
        Event::NewLoad { header, .. } => header,
        Event::Rand { header, .. } => header,
        Event::UserVar { header, .. } => header,
        Event::FormatDesc { header, .. } => header,
        Event::XID { header, .. } => header,
        Event::BeginLoadQuery { header, .. } => header,
        Event::ExecuteLoadQueryEvent { header, .. } => header,
        Event::TableMap { header, .. } => header,
        Event::Incident { header, .. } => header,
        Event::Heartbeat { header, .. } => header,
        Event::RowQuery { header, .. } => header,
        Event::AnonymousGtid { header, .. } => header,
        Event::PreviousGtids { header, .. } => header,
        Event::WriteRowsV2 { header, .. } => header,
        Event::UpdateRowsV2 { header, .. } => header,
        Event::DeleteRowsV2 { header, .. } => header,
    }
}

/// Two results end the same way: both fail with one error, or both
/// succeed with the same remaining input and agreeing events (the same
/// variant, every field the same, text and bytes compared by content).
pub open spec fn same_outcome(
    r1: Result<(Seq<u8>, Event), ParseError>,
    r2: Result<(Seq<u8>, Event), ParseError>,
) -> bool {
    &&& r1 is Ok <==> r2 is Ok
    &&& r1 is Err ==> r1 == r2
    &&& r1 is Ok ==> r1->Ok_0.0 == r2->Ok_0.0 && event_agrees(r1->Ok_0.1, r2->Ok_0.1)
}

proof fn lemma_unknown_deterministic(
    s: Seq<u8>,
    h: Header,
    r1: Result<(Seq<u8>, Event), ParseError>,
    r2: Result<(Seq<u8>, Event), ParseError>,
)
    requires
        unknown_decoded(s, h, r1),
        unknown_decoded(s, h, r2),
    ensures
        same_outcome(r1, r2),
{
}

proof fn lemma_query_deterministic(
    s: Seq<u8>,
    h: Header,
    r1: Result<(Seq<u8>, Event), ParseError>,
    r2: Result<(Seq<u8>, Event), ParseError>,
)
    requires
        query_decoded(s, h, r1),
        query_decoded(s, h, r2),
    ensures
        same_outcome(r1, r2),
{
    if r1 is Ok && r2 is Ok {
        if let (Event::Query { status_vars: v1, .. }, Event::Query { status_vars: v2, .. }) = (
            r1->Ok_0.1,
            r2->Ok_0.1,
        ) {
            lemma_vars_decoded_agree(s.subrange(13, 13 + le16(s, 11) as int), v1@, v2@);
        }
    }
}

proof fn lemma_rotate_deterministic(
    s: Seq<u8>,
    h: Header,
    r1: Result<(Seq<u8>, Event), ParseError>,
    r2: Result<(Seq<u8>, Event), ParseError>,
)
    requires
        rotate_decoded(s, h, r1),
        rotate_decoded(s, h, r2),
    ensures
        same_outcome(r1, r2),
{
}

proof fn lemma_intvar_deterministic(
    s: Seq<u8>,
    h: Header,
    r1: Result<(Seq<u8>, Event), ParseError>,
    r2: Result<(Seq<u8>, Event), ParseError>,
)
    requires
        intvar_decoded(s, h, r1),
        intvar_decoded(s, h, r2),
    ensures
        same_outcome(r1, r2),
{
}

proof fn lemma_load_deterministic(
    s: Seq<u8>,
    h: Header,
    r1: Result<(Seq<u8>, Event), ParseError>,
    r2: Result<(Seq<u8>, Event), ParseError>,
)
    requires
        load_decoded(s, h, r1),
        load_decoded(s, h, r2),
    ensures
        same_outcome(r1, r2),
{
}

proof fn lemma_create_file_deterministic(
    s: Seq<u8>,
    h: Header,
    r1: Result<(Seq<u8>, Event), ParseError>,
    r2: Result<(Seq<u8>, Event), ParseError>,
)
    requires
        create_file_decoded(s, h, r1),
        create_file_decoded(s, h, r2),
    ensures
        same_outcome(r1, r2),
{
}

proof fn lemma_append_file_deterministic(
    s: Seq<u8>,
    h: Header,
    r1: Result<(Seq<u8>, Event), ParseError>,
    r2: Result<(Seq<u8>, Event), ParseError>,
)
    requires
        append_file_decoded(s, h, r1),
        append_file_decoded(s, h, r2),
    ensures
        same_outcome(r1, r2),
{
}

proof fn lemma_exec_load_deterministic(
    s: Seq<u8>,
    h: Header,
    r1: Result<(Seq<u8>, Event), ParseError>,
    r2: Result<(Seq<u8>, Event), ParseError>,
)
    requires
        exec_load_decoded(s, h, r1),
        exec_load_decoded(s, h, r2),
    ensures
        same_outcome(r1, r2),
{
}

proof fn lemma_delete_file_deterministic(
    s: Seq<u8>,
    h: Header,
    r1: Result<(Seq<u8>, Event), ParseError>,
    r2: Result<(Seq<u8>, Event), ParseError>,
)
    requires
        delete_file_decoded(s, h, r1),
        delete_file_decoded(s, h, r2),
    ensures
        same_outcome(r1, r2),
{
}

proof fn lemma_new_load_deterministic(
    s: Seq<u8>,
    h: Header,
    r1: Result<(Seq<u8>, Event), ParseError>,
    r2: Result<(Seq<u8>, Event), ParseError>,
)
    requires
        new_load_decoded(s, h, r1),
        new_load_decoded(s, h, r2),
    ensures
        same_outcome(r1, r2),
{
}

proof fn lemma_rand_deterministic(
    s: Seq<u8>,
    h: Header,
    r1: Result<(Seq<u8>, Event), ParseError>,
    r2: Result<(Seq<u8>, Event), ParseError>,
)
    requires
        rand_decoded(s, h, r1),
        rand_decoded(s, h, r2),
    ensures
        same_outcome(r1, r2),
{
}

proof fn lemma_user_var_deterministic(
    s: Seq<u8>,
    h: Header,
    r1: Result<(Seq<u8>, Event), ParseError>,
    r2: Result<(Seq<u8>, Event), ParseError>,
)
    requires
        user_var_decoded(s, h, r1),
        user_var_decoded(s, h, r2),
    ensures
        same_outcome(r1, r2),
{
}

proof fn lemma_format_desc_deterministic(
    s: Seq<u8>,
    h: Header,
    r1: Result<(Seq<u8>, Event), ParseError>,
    r2: Result<(Seq<u8>, Event), ParseError>,
)
    requires
        format_desc_decoded(s, h, r1),
        format_desc_decoded(s, h, r2),
    ensures
        same_outcome(r1, r2),
{
}

proof fn lemma_xid_deterministic(
    s: Seq<u8>,
    h: Header,
    r1: Result<(Seq<u8>, Event), ParseError>,
    r2: Result<(Seq<u8>, Event), ParseError>,
)
    requires
        xid_decoded(s, h, r1),
        xid_decoded(s, h, r2),
    ensures
        same_outcome(r1, r2),
{
}

proof fn lemma_begin_load_query_deterministic(
    s: Seq<u8>,
    h: Header,
    r1: Result<(Seq<u8>, Event), ParseError>,
    r2: Result<(Seq<u8>, Event), ParseError>,
)
    requires
        begin_load_query_decoded(s, h, r1),
        begin_load_query_decoded(s, h, r2),
    ensures
        same_outcome(r1, r2),
{
}

proof fn lemma_execute_load_query_deterministic(
    s: Seq<u8>,
    h: Header,
    r1: Result<(Seq<u8>, Event), ParseError>,
    r2: Result<(Seq<u8>, Event), ParseError>,
)
    requires
        execute_load_query_decoded(s, h, r1),
        execute_load_query_decoded(s, h, r2),
    ensures
        same_outcome(r1, r2),
{
}

proof fn lemma_table_map_deterministic(
    s: Seq<u8>,
    h: Header,
    r1: Result<(Seq<u8>, Event), ParseError>,
    r2: Result<(Seq<u8>, Event), ParseError>,
)
    requires
        table_map_decoded(s, h, r1),
        table_map_decoded(s, h, r2),
    ensures
        same_outcome(r1, r2),
{
}

proof fn lemma_incident_deterministic(
    s: Seq<u8>,
    h: Header,
    r1: Result<(Seq<u8>, Event), ParseError>,
    r2: Result<(Seq<u8>, Event), ParseError>,
)
    requires
        incident_decoded(s, h, r1),
        incident_decoded(s, h, r2),
    ensures
        same_outcome(r1, r2),
{
}

proof fn lemma_row_query_deterministic(
    s: Seq<u8>,
    h: Header,
    r1: Result<(Seq<u8>, Event), ParseError>,
    r2: Result<(Seq<u8>, Event), ParseError>,
)
    requires
        row_query_decoded(s, h, r1),
        row_query_decoded(s, h, r2),
    ensures
        same_outcome(r1, r2),
{
}

proof fn lemma_write_rows_deterministic(
    s: Seq<u8>,
    h: Header,
    r1: Result<(Seq<u8>, Event), ParseError>,
    r2: Result<(Seq<u8>, Event), ParseError>,
)
    requires
        write_rows_decoded(s, h, r1),
        write_rows_decoded(s, h, r2),
    ensures
        same_outcome(r1, r2),
{
    if r1 is Ok && r2 is Ok {
        if let (Event::WriteRowsV2 { extra_data: x1, .. }, Event::WriteRowsV2 { extra_data: x2, .. }) = (
            r1->Ok_0.1,
            r2->Ok_0.1,
        ) {
            lemma_extras_decoded_agree(extra_region(s), x1@, x2@);
        }
    }
    if r1 is Err && r2 is Err && !prefix_ok(s) && avail(s, 0, 10) && le16(
        s,
        8,
    ) >= 2 && avail(s, 10, le16(s, 8) - 2) && (exists|x: ParseError|
        extras_refused(extra_region(s), x)) {
        lemma_extras_refused_unique(extra_region(s), r1->Err_0, r2->Err_0);
    }
}

proof fn lemma_update_rows_deterministic(
    s: Seq<u8>,
    h: Header,
    r1: Result<(Seq<u8>, Event), ParseError>,
    r2: Result<(Seq<u8>, Event), ParseError>,
)
    requires
        update_rows_decoded(s, h, r1),
        update_rows_decoded(s, h, r2),
    ensures
        same_outcome(r1, r2),
{
    if r1 is Ok && r2 is Ok {
        if let (Event::UpdateRowsV2 { extra_data: x1, .. }, Event::UpdateRowsV2 { extra_data: x2, .. }) = (
            r1->Ok_0.1,
            r2->Ok_0.1,
        ) {
            lemma_extras_decoded_agree(extra_region(s), x1@, x2@);
        }
    }
    if r1 is Err && r2 is Err && !prefix_ok(s) && avail(s, 0, 10) && le16(
        s,
        8,
    ) >= 2 && avail(s, 10, le16(s, 8) - 2) && (exists|x: ParseError|
        extras_refused(extra_region(s), x)) {
        lemma_extras_refused_unique(extra_region(s), r1->Err_0, r2->Err_0);
    }
}

proof fn lemma_delete_rows_deterministic(
    s: Seq<u8>,
    h: Header,
    r1: Result<(Seq<u8>, Event), ParseError>,
    r2: Result<(Seq<u8>, Event), ParseError>,
)
    requires
        delete_rows_decoded(s, h, r1),
        delete_rows_decoded(s, h, r2),
    ensures
        same_outcome(r1, r2),
{
    if r1 is Ok && r2 is Ok {
        if let (Event::DeleteRowsV2 { extra_data: x1, .. }, Event::DeleteRowsV2 { extra_data: x2, .. }) = (
            r1->Ok_0.1,
            r2->Ok_0.1,
        ) {
            lemma_extras_decoded_agree(extra_region(s), x1@, x2@);
        }
    }
    if r1 is Err && r2 is Err && !prefix_ok(s) && avail(s, 0, 10) && le16(
        s,
        8,
    ) >= 2 && avail(s, 10, le16(s, 8) - 2) && (exists|x: ParseError|
        extras_refused(extra_region(s), x)) {
        lemma_extras_refused_unique(extra_region(s), r1->Err_0, r2->Err_0);
    }
}

proof fn lemma_anonymous_gtid_deterministic(
    s: Seq<u8>,
    h: Header,
    r1: Result<(Seq<u8>, Event), ParseError>,
    r2: Result<(Seq<u8>, Event), ParseError>,
)
    requires
        anonymous_gtid_decoded(s, h, r1),
        anonymous_gtid_decoded(s, h, r2),
    ensures
        same_outcome(r1, r2),
{
}

proof fn lemma_previous_gtids_deterministic(
    s: Seq<u8>,
    h: Header,
    r1: Result<(Seq<u8>, Event), ParseError>,
    r2: Result<(Seq<u8>, Event), ParseError>,
)
    requires
        previous_gtids_decoded(s, h, r1),
        previous_gtids_decoded(s, h, r2),
    ensures
        same_outcome(r1, r2),
{
}

/// Decoding is a function of the bytes alone: decoding one record twice
/// ends the same way, with the same error, or with the same remaining
/// input and agreeing events (same variant, every field the same, text
/// and bytes compared by content), whose header has an event size of at
/// least 19.
pub proof fn lemma_decode_deterministic(
    s: Seq<u8>,
    r1: Result<(Seq<u8>, Event), ParseError>,
    r2: Result<(Seq<u8>, Event), ParseError>,
)
    requires
        event_decoded(s, r1),
        event_decoded(s, r2),
    ensures
        same_outcome(r1, r2),
        r1 is Ok ==> event_header(r1->Ok_0.1).event_size >= 19,
{
    if header_error(s) is None {
        let h = header_of(s);
        let s = s.subrange(19, s.len() as int);
        if h.event_type == 0x00 {
        lemma_unknown_deterministic(s, h, r1, r2);
    } else if h.event_type == 0x02 {
        lemma_query_deterministic(s, h, r1, r2);
    } else if h.event_type == 0x04 {
        lemma_rotate_deterministic(s, h, r1, r2);
    } else if h.event_type == 0x05 {
        lemma_intvar_deterministic(s, h, r1, r2);
    } else if h.event_type == 0x06 {
        lemma_load_deterministic(s, h, r1, r2);
    } else if h.event_type == 0x08 {
        lemma_create_file_deterministic(s, h, r1, r2);
    } else if h.event_type == 0x09 {
        lemma_append_file_deterministic(s, h, r1, r2);
    } else if h.event_type == 0x0a {
        lemma_exec_load_deterministic(s, h, r1, r2);
    } else if h.event_type == 0x0b {
        lemma_delete_file_deterministic(s, h, r1, r2);
    } else if h.event_type == 0x0c {
        lemma_new_load_deterministic(s, h, r1, r2);
    } else if h.event_type == 0x0d {
        lemma_rand_deterministic(s, h, r1, r2);
    } else if h.event_type == 0x0e {
        lemma_user_var_deterministic(s, h, r1, r2);
    } else if h.event_type == 0x0f {
        lemma_format_desc_deterministic(s, h, r1, r2);
    } else if h.event_type == 0x10 {
        lemma_xid_deterministic(s, h, r1, r2);
    } else if h.event_type == 0x11 {
        lemma_begin_load_query_deterministic(s, h, r1, r2);
    } else if h.event_type == 0x12 {
        lemma_execute_load_query_deterministic(s, h, r1, r2);
    } else if h.event_type == 0x13 {
        lemma_table_map_deterministic(s, h, r1, r2);
    } else if h.event_type == 0x1a {
        lemma_incident_deterministic(s, h, r1, r2);
    } else if h.event_type == 0x1d {
        lemma_row_query_deterministic(s, h, r1, r2);
    } else if h.event_type == 0x1e {
        lemma_write_rows_deterministic(s, h, r1, r2);
    } else if h.event_type == 0x1f {
        lemma_update_rows_deterministic(s, h, r1, r2);
    } else if h.event_type == 0x20 {
        lemma_delete_rows_deterministic(s, h, r1, r2);
    } else if h.event_type == 0x22 {
        lemma_anonymous_gtid_deterministic(s, h, r1, r2);
    } else if h.event_type == 0x23 {
        lemma_previous_gtids_deterministic(s, h, r1, r2);
        }
    }
}

} // verus!

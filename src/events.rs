use vstd::prelude::*;
use vstd::slice::slice_subrange;

use crate::error::ParseError;
use crate::events::load::{load_decoded, new_load_decoded};
use crate::events::query::query_decoded;
use crate::events::rows::{delete_rows_decoded, update_rows_decoded, write_rows_decoded};
use crate::events::table_map::table_map_decoded;
use crate::utils::{
    avail, extract_string, field_text, le16, le32, le64, read_bytes, read_i64, read_u16, read_u32,
    read_u64, read_u8,
};

pub mod consistency;
pub mod load;
pub mod query;
pub mod rows;
pub mod table_map;

pub use load::{parse_load, parse_new_load};
pub use query::parse_query;
pub use rows::{parse_delete_rows_v2, parse_update_rows_v2, parse_write_rows_v2};
pub use table_map::parse_table_map;

verus! {

/// Size of the common header that starts every event record.
pub const HEADER_LEN: u32 = 19;

/// The ten flag bits of an event header.
#[derive(Debug, Clone, Copy, PartialEq, Eq, Structural)]
pub struct EventFlag {
    pub in_use: bool,
    pub forced_rotate: bool,
    pub thread_specific: bool,
    pub suppress_use: bool,
    pub update_table_map_version: bool,
    pub artificial: bool,
    pub relay_log: bool,
    pub ignorable: bool,
    pub no_filter: bool,
    pub mts_isolate: bool,
}

/// The common header of an event record.
#[derive(Debug, Clone, Copy, PartialEq, Eq, Structural)]
pub struct Header {
    pub timestamp: u32,
    pub event_type: u8,
    pub server_id: u32,
    /// Total length of the record: header, body and trailer.
    pub event_size: u32,
    pub log_pos: u32,
    pub flags: EventFlag,
}

/// Bit `i` of the flag word is set, for `i` given as `2^i`.
pub open spec fn bit(f: int, pow: int) -> bool {
    (f / pow) % 2 == 1
}

/// The flag set held in the 16-bit flag word `f`; bits 10 and above are
/// ignored.
pub open spec fn flags_of(f: u16) -> EventFlag {
    EventFlag {
        in_use: bit(f as int, 1),
        forced_rotate: bit(f as int, 2),
        thread_specific: bit(f as int, 4),
        suppress_use: bit(f as int, 8),
        update_table_map_version: bit(f as int, 16),
        artificial: bit(f as int, 32),
        relay_log: bit(f as int, 64),
        ignorable: bit(f as int, 128),
        no_filter: bit(f as int, 256),
        mts_isolate: bit(f as int, 512),
    }
}

/// The header held in the first 19 bytes of `s`.
pub open spec fn header_of(s: Seq<u8>) -> Header {
    Header {
        timestamp: le32(s, 0),
        event_type: s[4],
        server_id: le32(s, 5),
        event_size: le32(s, 9),
        log_pos: le32(s, 13),
        flags: flags_of(le16(s, 17)),
    }
}

/// Why no header can be decoded from `s`, if it cannot.
pub open spec fn header_error(s: Seq<u8>) -> Option<ParseError> {
    if s.len() < 19 {
        Some(ParseError::InsufficientData)
    } else if header_of(s).event_size < 19 {
        Some(ParseError::MalformedLength)
    } else {
        None
    }
}

fn flags_from(f: u16) -> (r: EventFlag)
    ensures
        r == flags_of(f),
{
    EventFlag {
        in_use: f % 2 == 1,
        forced_rotate: (f / 2) % 2 == 1,
        thread_specific: (f / 4) % 2 == 1,
        suppress_use: (f / 8) % 2 == 1,
        update_table_map_version: (f / 16) % 2 == 1,
        artificial: (f / 32) % 2 == 1,
        relay_log: (f / 64) % 2 == 1,
        ignorable: (f / 128) % 2 == 1,
        no_filter: (f / 256) % 2 == 1,
        mts_isolate: (f / 512) % 2 == 1,
    }
}

/// Decodes the common 19-byte event header. A header that declares an
/// event size below 19 is refused, so every decoded header has
/// `event_size >= 19`.
pub fn parse_header<'a>(input: &'a [u8]) -> (r: Result<(&'a [u8], Header), ParseError>)
    ensures
        match r {
            Ok((rest, h)) => {
                &&& header_error(input@) is None
                &&& h == header_of(input@)
                &&& h.event_size >= 19
                &&& rest@ == input@.subrange(19, input@.len() as int)
            },
            Err(e) => header_error(input@) == Some(e),
        },
{
    let timestamp = read_u32(input, 0)?;
    let event_type = read_u8(input, 4)?;
    let server_id = read_u32(input, 5)?;
    let event_size = read_u32(input, 9)?;
    let log_pos = read_u32(input, 13)?;
    let f = read_u16(input, 17)?;
    if event_size < HEADER_LEN {
        return Err(ParseError::MalformedLength);
    }
    let h = Header {
        timestamp,
        event_type,
        server_id,
        event_size,
        log_pos,
        flags: flags_from(f),
    };
    Ok((slice_subrange(input, 19, input.len()), h))
}

/// The binlog file signature `0xFE 'b' 'i' 'n'`.
pub open spec fn magic() -> Seq<u8> {
    seq![254u8, 98u8, 105u8, 110u8]
}

/// Checks that `i` starts with the binlog file signature; returns the
/// bytes after it and the signature itself.
pub fn check_start<'a>(i: &'a [u8]) -> (r: Result<(&'a [u8], &'a [u8]), ParseError>)
    ensures
        match r {
            Ok((rest, sig)) => i@.len() >= 4 && i@.subrange(0, 4) == magic() && sig@ == magic()
                && rest@ == i@.subrange(4, i@.len() as int),
            Err(e) => if i@.len() < 4 {
                e == ParseError::InsufficientData
            } else {
                i@.subrange(0, 4) != magic() && e == ParseError::InvariantViolation
            },
        },
{
    if i.len() < 4 {
        return Err(ParseError::InsufficientData);
    }
    if i[0] != 254 || i[1] != 98 || i[2] != 105 || i[3] != 110 {
        proof {
            assert(magic()[0] == 254 && magic()[1] == 98 && magic()[2] == 105 && magic()[3] == 110);
            if i@.subrange(0, 4) == magic() {
                assert(i@.subrange(0, 4)[0] == i@[0]);
            }
        }
        return Err(ParseError::InvariantViolation);
    }
    let sig = slice_subrange(i, 0, 4);
    assert(sig@ =~= magic());
    Ok((slice_subrange(i, 4, i.len()), sig))
}

/// A decoded event record; each variant owns all of its fields.
#[derive(Debug, Clone, PartialEq, Eq)]
pub enum Event {
    Unknown { header: Header, checksum: u32 },
    Query {
        header: Header,
        slave_proxy_id: u32,
        execution_time: u32,
        schema_length: u8,
        error_code: u16,
        status_vars_length: u16,
        status_vars: Vec<query::QueryStatusVar>,
        schema: String,
        query: String,
        checksum: u32,
    },
    Stop { header: Header },
    Rotate { header: Header, position: u64, next_binlog: String },
    IntVar { header: Header, e_type: IntVarEventType, value: u64 },
    Load {
        header: Header,
        thread_id: u32,
        execution_time: u32,
        skip_lines: u32,
        table_name_length: u8,
        schema_length: u8,
        num_fields: u32,
        field_term: u8,
        enclosed_by: u8,
        line_term: u8,
        line_start: u8,
        escaped_by: u8,
        opt_flags: OptFlags,
        empty_flags: EmptyFlags,
        field_name_lengths: Vec<u8>,
        field_names: Vec<String>,
        table_name: String,
        schema_name: String,
        file_name: String,
        checksum: u32,
    },
    Slave { header: Header },
    CreateFile { header: Header, file_id: u32, block_data: String },
    AppendFile { header: Header, file_id: u32, block_data: String },
    ExecLoad { header: Header, file_id: u16 },
    DeleteFile { header: Header, file_id: u16 },
    NewLoad {
        header: Header,
        thread_id: u32,
        execution_time: u32,
        skip_lines: u32,
        table_name_length: u8,
        schema_length: u8,
        num_fields: u32,
        field_term_length: u8,
        field_term: String,
        enclosed_by_length: u8,
        enclosed_by: String,
        line_term_length: u8,
        line_term: String,
        line_start_length: u8,
        line_start: String,
        escaped_by_length: u8,
        escaped_by: String,
        opt_flags: OptFlags,
        field_name_lengths: Vec<u8>,
        field_names: Vec<String>,
        table_name: String,
        schema_name: String,
        file_name: String,
        checksum: u32,
    },
    Rand { header: Header, seed1: u64, seed2: u64 },
    /// The body is kept whole: its layout is not decoded.
    UserVar { header: Header, unknown: Vec<u8> },
    FormatDesc {
        header: Header,
        binlog_version: u16,
        mysql_server_version: String,
        create_timestamp: u32,
        event_header_length: u8,
        supported_types: Vec<u8>,
        checksum_alg: u8,
        checksum: u32,
    },
    XID { header: Header, xid: u64, checksum: u32 },
    BeginLoadQuery { header: Header, file_id: u32, block_data: String },
    ExecuteLoadQueryEvent {
        header: Header,
        thread_id: u32,
        execution_time: u32,
        schema_length: u8,
        error_code: u16,
        status_vars_length: u16,
        file_id: u32,
        start_pos: u32,
        end_pos: u32,
        dup_handling_flags: DupHandlingFlags,
    },
    TableMap {
        header: Header,
        table_id: u64,
        flags: u16,
        schema_length: u8,
        schema: String,
        table_name_length: u8,
        table_name: String,
        column_count: u64,
        /// Raw column type codes, one per column, for a column-type
        /// catalog to interpret.
        columns_type: Vec<u8>,
        column_meta_def: Vec<u8>,
        null_bits: Vec<u8>,
        checksum: u32,
    },
    Incident { header: Header, d_type: IncidentEventType, message_length: u8, message: String },
    Heartbeat { header: Header },
    RowQuery { header: Header, length: u8, query_text: String },
    AnonymousGtid {
        header: Header,
        rbr_only: bool,
        encoded_sig_length: u32,
        encoded_gno_length: u32,
        unknown: Vec<u8>,
        last_committed: i64,
        sequence_number: i64,
        checksum: u32,
    },
    PreviousGtids { header: Header, gtid_sets: Vec<u8>, buf_size: u32, checksum: u32 },
    WriteRowsV2 {
        header: Header,
        table_id: u64,
        flags: rows::Flags,
        extra_data_len: u16,
        extra_data: Vec<rows::ExtraData>,
        column_count: u64,
        inserted_image_bits: Vec<u8>,
        rows: Vec<u8>,
        checksum: u32,
    },
    UpdateRowsV2 {
        header: Header,
        table_id: u64,
        flags: rows::Flags,
        extra_data_len: u16,
        extra_data: Vec<rows::ExtraData>,
        column_count: u64,
        before_image_bits: Vec<u8>,
        after_image_bits: Vec<u8>,
        rows: Vec<u8>,
        checksum: u32,
    },
    DeleteRowsV2 {
        header: Header,
        table_id: u64,
        flags: rows::Flags,
        extra_data_len: u16,
        extra_data: Vec<rows::ExtraData>,
        column_count: u64,
        deleted_image_bits: Vec<u8>,
        rows: Vec<u8>,
        checksum: u32,
    },
}

/// The subtype of an int-var event: codes 0, 1 and 2.
#[derive(Debug, Clone, Copy, PartialEq, Eq, Structural)]
pub enum IntVarEventType {
    InvalidIntEvent,
    LastInsertIdEvent,
    InsertIdEvent,
}

/// Which delimiters of a load event are empty, one bit each.
#[derive(Debug, Clone, Copy, PartialEq, Eq, Structural)]
pub struct EmptyFlags {
    pub field_term_empty: bool,
    pub enclosed_empty: bool,
    pub line_term_empty: bool,
    pub line_start_empty: bool,
    pub escape_empty: bool,
}

/// The options of a load event, one bit each.
#[derive(Debug, Clone, Copy, PartialEq, Eq, Structural)]
pub struct OptFlags {
    pub dump_file: bool,
    pub opt_enclosed: bool,
    pub replace: bool,
    pub ignore: bool,
}

/// How an execute-load-query event handles duplicates: codes 0, 1 and 2.
#[derive(Debug, Clone, Copy, PartialEq, Eq, Structural)]
pub enum DupHandlingFlags {
    Error,
    Ignore,
    Replace,
}

/// The subtype of an incident event: code 0 (no incident) or 1 (lost
/// events).
#[derive(Debug, Clone, Copy, PartialEq, Eq, Structural)]
pub enum IncidentEventType {
    NoIncident,
    LostEvents,
}

/// Two runs of strings hold the same characters, one by one.
pub open spec fn strings_agree(a: Seq<String>, b: Seq<String>) -> bool {
    &&& a.len() == b.len()
    &&& forall|i: int| 0 <= i < a.len() ==> (#[trigger] a[i])@ == b[i]@
}

/// Two events are the same variant with the same fields, strings and byte
/// vectors compared by their contents.
pub open spec fn event_agrees(e1: Event, e2: Event) -> bool {
    match (e1, e2) {
        (
            Event::Unknown {
                header: header1,
                checksum: checksum1,
            },
            Event::Unknown {
                header: header2,
                checksum: checksum2,
            },
        ) => {
            &&& header1 == header2
            &&& checksum1 == checksum2
        },
        (
            Event::Query {
                header: header1,
                slave_proxy_id: slave_proxy_id1,
                execution_time: execution_time1,
                schema_length: schema_length1,
                error_code: error_code1,
                status_vars_length: status_vars_length1,
                status_vars: status_vars1,
                schema: schema1,
                query: query1,
                checksum: checksum1,
            },
            Event::Query {
                header: header2,
                slave_proxy_id: slave_proxy_id2,
                execution_time: execution_time2,
                schema_length: schema_length2,
                error_code: error_code2,
                status_vars_length: status_vars_length2,
                status_vars: status_vars2,
                schema: schema2,
                query: query2,
                checksum: checksum2,
            },
        ) => {
            &&& header1 == header2
            &&& slave_proxy_id1 == slave_proxy_id2
            &&& execution_time1 == execution_time2
            &&& schema_length1 == schema_length2
            &&& error_code1 == error_code2
            &&& status_vars_length1 == status_vars_length2
            &&& query::vars_agree(status_vars1@, status_vars2@)
            &&& schema1@ == schema2@
            &&& query1@ == query2@
            &&& checksum1 == checksum2
        },
        (
            Event::Stop {
                header: header1,
            },
            Event::Stop {
                header: header2,
            },
        ) => {
            &&& header1 == header2
        },
        (
            Event::Rotate {
                header: header1,
                position: position1,
                next_binlog: next_binlog1,
            },
            Event::Rotate {
                header: header2,
                position: position2,
                next_binlog: next_binlog2,
            },
        ) => {
            &&& header1 == header2
            &&& position1 == position2
            &&& next_binlog1@ == next_binlog2@
        },
        (
            Event::IntVar {
                header: header1,
                e_type: e_type1,
                value: value1,
            },
            Event::IntVar {
                header: header2,
                e_type: e_type2,
                value: value2,
            },
        ) => {
            &&& header1 == header2
            &&& e_type1 == e_type2
            &&& value1 == value2
        },
        (
            Event::Load {
                header: header1,
                thread_id: thread_id1,
                execution_time: execution_time1,
                skip_lines: skip_lines1,
                table_name_length: table_name_length1,
                schema_length: schema_length1,
                num_fields: num_fields1,
                field_term: field_term1,
                enclosed_by: enclosed_by1,
                line_term: line_term1,
                line_start: line_start1,
                escaped_by: escaped_by1,
                opt_flags: opt_flags1,
                empty_flags: empty_flags1,
                field_name_lengths: field_name_lengths1,
                field_names: field_names1,
                table_name: table_name1,
                schema_name: schema_name1,
                file_name: file_name1,
                checksum: checksum1,
            },
            Event::Load {
                header: header2,
                thread_id: thread_id2,
                execution_time: execution_time2,
                skip_lines: skip_lines2,
                table_name_length: table_name_length2,
                schema_length: schema_length2,
                num_fields: num_fields2,
                field_term: field_term2,
                enclosed_by: enclosed_by2,
                line_term: line_term2,
                line_start: line_start2,
                escaped_by: escaped_by2,
                opt_flags: opt_flags2,
                empty_flags: empty_flags2,
                field_name_lengths: field_name_lengths2,
                field_names: field_names2,
                table_name: table_name2,
                schema_name: schema_name2,
                file_name: file_name2,
                checksum: checksum2,
            },
        ) => {
            &&& header1 == header2
            &&& thread_id1 == thread_id2
            &&& execution_time1 == execution_time2
            &&& skip_lines1 == skip_lines2
            &&& table_name_length1 == table_name_length2
            &&& schema_length1 == schema_length2
            &&& num_fields1 == num_fields2
            &&& field_term1 == field_term2
            &&& enclosed_by1 == enclosed_by2
            &&& line_term1 == line_term2
            &&& line_start1 == line_start2
            &&& escaped_by1 == escaped_by2
            &&& opt_flags1 == opt_flags2
            &&& empty_flags1 == empty_flags2
            &&& field_name_lengths1@ == field_name_lengths2@
            &&& strings_agree(field_names1@, field_names2@)
            &&& table_name1@ == table_name2@
            &&& schema_name1@ == schema_name2@
            &&& file_name1@ == file_name2@
            &&& checksum1 == checksum2
        },
        (
            Event::Slave {
                header: header1,
            },
            Event::Slave {
                header: header2,
            },
        ) => {
            &&& header1 == header2
        },
        (
            Event::CreateFile {
                header: header1,
                file_id: file_id1,
                block_data: block_data1,
            },
            Event::CreateFile {
                header: header2,
                file_id: file_id2,
                block_data: block_data2,
            },
        ) => {
            &&& header1 == header2
            &&& file_id1 == file_id2
            &&& block_data1@ == block_data2@
        },
        (
            Event::AppendFile {
                header: header1,
                file_id: file_id1,
                block_data: block_data1,
            },
            Event::AppendFile {
                header: header2,
                file_id: file_id2,
                block_data: block_data2,
            },
        ) => {
            &&& header1 == header2
            &&& file_id1 == file_id2
            &&& block_data1@ == block_data2@
        },
        (
            Event::ExecLoad {
                header: header1,
                file_id: file_id1,
            },
            Event::ExecLoad {
                header: header2,
                file_id: file_id2,
            },
        ) => {
            &&& header1 == header2
            &&& file_id1 == file_id2
        },
        (
            Event::DeleteFile {
                header: header1,
                file_id: file_id1,
            },
            Event::DeleteFile {
                header: header2,
                file_id: file_id2,
            },
        ) => {
            &&& header1 == header2
            &&& file_id1 == file_id2
        },
        (
            Event::NewLoad {
                header: header1,
                thread_id: thread_id1,
                execution_time: execution_time1,
                skip_lines: skip_lines1,
                table_name_length: table_name_length1,
                schema_length: schema_length1,
                num_fields: num_fields1,
                field_term_length: field_term_length1,
                field_term: field_term1,
                enclosed_by_length: enclosed_by_length1,
                enclosed_by: enclosed_by1,
                line_term_length: line_term_length1,
                line_term: line_term1,
                line_start_length: line_start_length1,
                line_start: line_start1,
                escaped_by_length: escaped_by_length1,
                escaped_by: escaped_by1,
                opt_flags: opt_flags1,
                field_name_lengths: field_name_lengths1,
                field_names: field_names1,
                table_name: table_name1,
                schema_name: schema_name1,
                file_name: file_name1,
                checksum: checksum1,
            },
            Event::NewLoad {
                header: header2,
                thread_id: thread_id2,
                execution_time: execution_time2,
                skip_lines: skip_lines2,
                table_name_length: table_name_length2,
                schema_length: schema_length2,
                num_fields: num_fields2,
                field_term_length: field_term_length2,
                field_term: field_term2,
                enclosed_by_length: enclosed_by_length2,
                enclosed_by: enclosed_by2,
                line_term_length: line_term_length2,
                line_term: line_term2,
                line_start_length: line_start_length2,
                line_start: line_start2,
                escaped_by_length: escaped_by_length2,
                escaped_by: escaped_by2,
                opt_flags: opt_flags2,
                field_name_lengths: field_name_lengths2,
                field_names: field_names2,
                table_name: table_name2,
                schema_name: schema_name2,
                file_name: file_name2,
                checksum: checksum2,
            },
        ) => {
            &&& header1 == header2
            &&& thread_id1 == thread_id2
            &&& execution_time1 == execution_time2
            &&& skip_lines1 == skip_lines2
            &&& table_name_length1 == table_name_length2
            &&& schema_length1 == schema_length2
            &&& num_fields1 == num_fields2
            &&& field_term_length1 == field_term_length2
            &&& field_term1@ == field_term2@
            &&& enclosed_by_length1 == enclosed_by_length2
            &&& enclosed_by1@ == enclosed_by2@
            &&& line_term_length1 == line_term_length2
            &&& line_term1@ == line_term2@
            &&& line_start_length1 == line_start_length2
            &&& line_start1@ == line_start2@
            &&& escaped_by_length1 == escaped_by_length2
            &&& escaped_by1@ == escaped_by2@
            &&& opt_flags1 == opt_flags2
            &&& field_name_lengths1@ == field_name_lengths2@
            &&& strings_agree(field_names1@, field_names2@)
            &&& table_name1@ == table_name2@
            &&& schema_name1@ == schema_name2@
            &&& file_name1@ == file_name2@
            &&& checksum1 == checksum2
        },
        (
            Event::Rand {
                header: header1,
                seed1: seed11,
                seed2: seed21,
            },
            Event::Rand {
                header: header2,
                seed1: seed12,
                seed2: seed22,
            },
        ) => {
            &&& header1 == header2
            &&& seed11 == seed12
            &&& seed21 == seed22
        },
        (
            Event::UserVar {
                header: header1,
                unknown: unknown1,
            },
            Event::UserVar {
                header: header2,
                unknown: unknown2,
            },
        ) => {
            &&& header1 == header2
            &&& unknown1@ == unknown2@
        },
        (
            Event::FormatDesc {
                header: header1,
                binlog_version: binlog_version1,
                mysql_server_version: mysql_server_version1,
                create_timestamp: create_timestamp1,
                event_header_length: event_header_length1,
                supported_types: supported_types1,
                checksum_alg: checksum_alg1,
                checksum: checksum1,
            },
            Event::FormatDesc {
                header: header2,
                binlog_version: binlog_version2,
                mysql_server_version: mysql_server_version2,
                create_timestamp: create_timestamp2,
                event_header_length: event_header_length2,
                supported_types: supported_types2,
                checksum_alg: checksum_alg2,
                checksum: checksum2,
            },
        ) => {
            &&& header1 == header2
            &&& binlog_version1 == binlog_version2
            &&& mysql_server_version1@ == mysql_server_version2@
            &&& create_timestamp1 == create_timestamp2
            &&& event_header_length1 == event_header_length2
            &&& supported_types1@ == supported_types2@
            &&& checksum_alg1 == checksum_alg2
            &&& checksum1 == checksum2
        },
        (
            Event::XID {
                header: header1,
                xid: xid1,
                checksum: checksum1,
            },
            Event::XID {
                header: header2,
                xid: xid2,
                checksum: checksum2,
            },
        ) => {
            &&& header1 == header2
            &&& xid1 == xid2
            &&& checksum1 == checksum2
        },
        (
            Event::BeginLoadQuery {
                header: header1,
                file_id: file_id1,
                block_data: block_data1,
            },
            Event::BeginLoadQuery {
                header: header2,
                file_id: file_id2,
                block_data: block_data2,
            },
        ) => {
            &&& header1 == header2
            &&& file_id1 == file_id2
            &&& block_data1@ == block_data2@
        },
        (
            Event::ExecuteLoadQueryEvent {
                header: header1,
                thread_id: thread_id1,
                execution_time: execution_time1,
                schema_length: schema_length1,
                error_code: error_code1,
                status_vars_length: status_vars_length1,
                file_id: file_id1,
                start_pos: start_pos1,
                end_pos: end_pos1,
                dup_handling_flags: dup_handling_flags1,
            },
            Event::ExecuteLoadQueryEvent {
                header: header2,
                thread_id: thread_id2,
                execution_time: execution_time2,
                schema_length: schema_length2,
                error_code: error_code2,
                status_vars_length: status_vars_length2,
                file_id: file_id2,
                start_pos: start_pos2,
                end_pos: end_pos2,
                dup_handling_flags: dup_handling_flags2,
            },
        ) => {
            &&& header1 == header2
            &&& thread_id1 == thread_id2
            &&& execution_time1 == execution_time2
            &&& schema_length1 == schema_length2
            &&& error_code1 == error_code2
            &&& status_vars_length1 == status_vars_length2
            &&& file_id1 == file_id2
            &&& start_pos1 == start_pos2
            &&& end_pos1 == end_pos2
            &&& dup_handling_flags1 == dup_handling_flags2
        },
        (
            Event::TableMap {
                header: header1,
                table_id: table_id1,
                flags: flags1,
                schema_length: schema_length1,
                schema: schema1,
                table_name_length: table_name_length1,
                table_name: table_name1,
                column_count: column_count1,
                columns_type: columns_type1,
                column_meta_def: column_meta_def1,
                null_bits: null_bits1,
                checksum: checksum1,
            },
            Event::TableMap {
                header: header2,
                table_id: table_id2,
                flags: flags2,
                schema_length: schema_length2,
                schema: schema2,
                table_name_length: table_name_length2,
                table_name: table_name2,
                column_count: column_count2,
                columns_type: columns_type2,
                column_meta_def: column_meta_def2,
                null_bits: null_bits2,
                checksum: checksum2,
            },
        ) => {
            &&& header1 == header2
            &&& table_id1 == table_id2
            &&& flags1 == flags2
            &&& schema_length1 == schema_length2
            &&& schema1@ == schema2@
            &&& table_name_length1 == table_name_length2
            &&& table_name1@ == table_name2@
            &&& column_count1 == column_count2
            &&& columns_type1@ == columns_type2@
            &&& column_meta_def1@ == column_meta_def2@
            &&& null_bits1@ == null_bits2@
            &&& checksum1 == checksum2
        },
        (
            Event::Incident {
                header: header1,
                d_type: d_type1,
                message_length: message_length1,
                message: message1,
            },
            Event::Incident {
                header: header2,
                d_type: d_type2,
                message_length: message_length2,
                message: message2,
            },
        ) => {
            &&& header1 == header2
            &&& d_type1 == d_type2
            &&& message_length1 == message_length2
            &&& message1@ == message2@
        },
        (
            Event::Heartbeat {
                header: header1,
            },
            Event::Heartbeat {
                header: header2,
            },
        ) => {
            &&& header1 == header2
        },
        (
            Event::RowQuery {
                header: header1,
                length: length1,
                query_text: query_text1,
            },
            Event::RowQuery {
                header: header2,
                length: length2,
                query_text: query_text2,
            },
        ) => {
            &&& header1 == header2
            &&& length1 == length2
            &&& query_text1@ == query_text2@
        },
        (
            Event::AnonymousGtid {
                header: header1,
                rbr_only: rbr_only1,
                encoded_sig_length: encoded_sig_length1,
                encoded_gno_length: encoded_gno_length1,
                unknown: unknown1,
                last_committed: last_committed1,
                sequence_number: sequence_number1,
                checksum: checksum1,
            },
            Event::AnonymousGtid {
                header: header2,
                rbr_only: rbr_only2,
                encoded_sig_length: encoded_sig_length2,
                encoded_gno_length: encoded_gno_length2,
                unknown: unknown2,
                last_committed: last_committed2,
                sequence_number: sequence_number2,
                checksum: checksum2,
            },
        ) => {
            &&& header1 == header2
            &&& rbr_only1 == rbr_only2
            &&& encoded_sig_length1 == encoded_sig_length2
            &&& encoded_gno_length1 == encoded_gno_length2
            &&& unknown1@ == unknown2@
            &&& last_committed1 == last_committed2
            &&& sequence_number1 == sequence_number2
            &&& checksum1 == checksum2
        },
        (
            Event::PreviousGtids {
                header: header1,
                gtid_sets: gtid_sets1,
                buf_size: buf_size1,
                checksum: checksum1,
            },
            Event::PreviousGtids {
                header: header2,
                gtid_sets: gtid_sets2,
                buf_size: buf_size2,
                checksum: checksum2,
            },
        ) => {
            &&& header1 == header2
            &&& gtid_sets1@ == gtid_sets2@
            &&& buf_size1 == buf_size2
            &&& checksum1 == checksum2
        },
        (
            Event::WriteRowsV2 {
                header: header1,
                table_id: table_id1,
                flags: flags1,
                extra_data_len: extra_data_len1,
                extra_data: extra_data1,
                column_count: column_count1,
                inserted_image_bits: inserted_image_bits1,
                rows: rows1,
                checksum: checksum1,
            },
            Event::WriteRowsV2 {
                header: header2,
                table_id: table_id2,
                flags: flags2,
                extra_data_len: extra_data_len2,
                extra_data: extra_data2,
                column_count: column_count2,
                inserted_image_bits: inserted_image_bits2,
                rows: rows2,
                checksum: checksum2,
            },
        ) => {
            &&& header1 == header2
            &&& table_id1 == table_id2
            &&& flags1 == flags2
            &&& extra_data_len1 == extra_data_len2
            &&& rows::extras_agree(extra_data1@, extra_data2@)
            &&& column_count1 == column_count2
            &&& inserted_image_bits1@ == inserted_image_bits2@
            &&& rows1@ == rows2@
            &&& checksum1 == checksum2
        },
        (
            Event::UpdateRowsV2 {
                header: header1,
                table_id: table_id1,
                flags: flags1,
                extra_data_len: extra_data_len1,
                extra_data: extra_data1,
                column_count: column_count1,
                before_image_bits: before_image_bits1,
                after_image_bits: after_image_bits1,
                rows: rows1,
                checksum: checksum1,
            },
            Event::UpdateRowsV2 {
                header: header2,
                table_id: table_id2,
                flags: flags2,
                extra_data_len: extra_data_len2,
                extra_data: extra_data2,
                column_count: column_count2,
                before_image_bits: before_image_bits2,
                after_image_bits: after_image_bits2,
                rows: rows2,
                checksum: checksum2,
            },
        ) => {
            &&& header1 == header2
            &&& table_id1 == table_id2
            &&& flags1 == flags2
            &&& extra_data_len1 == extra_data_len2
            &&& rows::extras_agree(extra_data1@, extra_data2@)
            &&& column_count1 == column_count2
            &&& before_image_bits1@ == before_image_bits2@
            &&& after_image_bits1@ == after_image_bits2@
            &&& rows1@ == rows2@
            &&& checksum1 == checksum2
        },
        (
            Event::DeleteRowsV2 {
                header: header1,
                table_id: table_id1,
                flags: flags1,
                extra_data_len: extra_data_len1,
                extra_data: extra_data1,
                column_count: column_count1,
                deleted_image_bits: deleted_image_bits1,
                rows: rows1,
                checksum: checksum1,
            },
            Event::DeleteRowsV2 {
                header: header2,
                table_id: table_id2,
                flags: flags2,
                extra_data_len: extra_data_len2,
                extra_data: extra_data2,
                column_count: column_count2,
                deleted_image_bits: deleted_image_bits2,
                rows: rows2,
                checksum: checksum2,
            },
        ) => {
            &&& header1 == header2
            &&& table_id1 == table_id2
            &&& flags1 == flags2
            &&& extra_data_len1 == extra_data_len2
            &&& rows::extras_agree(extra_data1@, extra_data2@)
            &&& column_count1 == column_count2
            &&& deleted_image_bits1@ == deleted_image_bits2@
            &&& rows1@ == rows2@
            &&& checksum1 == checksum2
        },
        _ => false,
    }
}

/// A decoder's result with the remaining input as a sequence.
pub open spec fn out_view<'a>(r: Result<(&'a [u8], Event), ParseError>) -> Result<
    (Seq<u8>, Event),
    ParseError,
> {
    match r {
        Ok((rest, e)) => Ok((rest@, e)),
        Err(e) => Err(e),
    }
}

/// `rest` is what follows the first `q` bytes of `s`.
pub open spec fn rest_is(s: Seq<u8>, q: int, rest: Seq<u8>) -> bool {
    0 <= q <= s.len() && rest == s.subrange(q, s.len() as int)
}

/// The length left for a body's last variable field: the declared event
/// size, less the header, the `consumed` body bytes before the field and
/// the `trailer` bytes after it. Negative when the record is malformed.
pub open spec fn tail(h: Header, consumed: int, trailer: int) -> int {
    h.event_size - 19 - consumed - trailer
}

/// Computes `tail` without underflow; a negative length is refused.
pub fn tail_len(h: &Header, consumed: usize, trailer: usize) -> (r: Result<usize, ParseError>)
    ensures
        match r {
            Ok(n) => tail(*h, consumed as int, trailer as int) >= 0 && n == tail(
                *h,
                consumed as int,
                trailer as int,
            ),
            Err(e) => tail(*h, consumed as int, trailer as int) < 0 && e
                == ParseError::MalformedLength,
        },
{
    let need: u128 = 19 + consumed as u128 + trailer as u128;
    if (h.event_size as u128) < need {
        return Err(ParseError::MalformedLength);
    }
    Ok((h.event_size as u128 - need) as usize)
}

/// The suffix of `s` after `q` bytes, as a slice.
fn rest_after<'a>(s: &'a [u8], q: usize) -> (r: &'a [u8])
    requires
        q <= s@.len(),
    ensures
        rest_is(s@, q as int, r@),
{
    slice_subrange(s, q, s.len())
}

/// How the body `s` of an unknown event with header `h` decodes: the
/// error met first, or the decoded event and the input after it.
pub open spec fn unknown_decoded(s: Seq<u8>, h: Header, r: Result<(Seq<u8>, Event), ParseError>) -> bool {
    if !avail(s, 0, 4) {
        r == Err::<(Seq<u8>, Event), _>(ParseError::InsufficientData)
    } else {
        match r {
            Ok((rest, Event::Unknown { header, checksum })) => header == h && checksum == le32(s, 0)
                && rest_is(s, 4, rest),
            _ => false,
        }
    }
}

/// Decodes the body of an unknown event: its checksum alone.
pub fn parse_unknown<'a>(input: &'a [u8], header: Header) -> (r: Result<(&'a [u8], Event), ParseError>)
    ensures
        unknown_decoded(input@, header, out_view(r)),
{
    let checksum = read_u32(input, 0)?;
    Ok((rest_after(input, 4), Event::Unknown { header, checksum }))
}

/// Decodes a stop event, which has no body.
pub fn parse_stop<'a>(input: &'a [u8], header: Header) -> (r: Result<(&'a [u8], Event), ParseError>)
    ensures
        out_view(r) == Ok::<_, ParseError>((input@, Event::Stop { header })),
{
    Ok((input, Event::Stop { header }))
}

/// Decodes a slave event, which has no body.
pub fn parse_slave<'a>(input: &'a [u8], header: Header) -> (r: Result<(&'a [u8], Event), ParseError>)
    ensures
        out_view(r) == Ok::<_, ParseError>((input@, Event::Slave { header })),
{
    Ok((input, Event::Slave { header }))
}

/// Decodes a heartbeat event, which has no body.
pub fn parse_heartbeat<'a>(input: &'a [u8], header: Header) -> (r: Result<(&'a [u8], Event), ParseError>)
    ensures
        out_view(r) == Ok::<_, ParseError>((input@, Event::Heartbeat { header })),
{
    Ok((input, Event::Heartbeat { header }))
}

/// How the body `s` of a rotate event with header `h` decodes: the
/// error met first, or the decoded event and the input after it.
pub open spec fn rotate_decoded(s: Seq<u8>, h: Header, r: Result<(Seq<u8>, Event), ParseError>) -> bool {
    let n = tail(h, 8, 0);
    if !avail(s, 0, 8) {
        r == Err::<(Seq<u8>, Event), _>(ParseError::InsufficientData)
    } else if n < 0 {
        r == Err::<(Seq<u8>, Event), _>(ParseError::MalformedLength)
    } else if !avail(s, 8, n) {
        r == Err::<(Seq<u8>, Event), _>(ParseError::InsufficientData)
    } else {
        match r {
            Ok((rest, Event::Rotate { header, position, next_binlog })) => header == h && position
                == le64(s, 0) && next_binlog@ == field_text(s.subrange(8, 8 + n)) && rest_is(
                s,
                8 + n,
                rest,
            ),
            _ => false,
        }
    }
}

/// Decodes a rotate event: the position, then the next file's name, which
/// fills the rest of the declared size.
pub fn parse_rotate<'a>(input: &'a [u8], header: Header) -> (r: Result<(&'a [u8], Event), ParseError>)
    ensures
        rotate_decoded(input@, header, out_view(r)),
{
    let position = read_u64(input, 0)?;
    let n = tail_len(&header, 8, 0)?;
    if input.len() - 8 < n {
        return Err(ParseError::InsufficientData);
    }
    let next_binlog = extract_string(input, 8, n);
    Ok((rest_after(input, 8 + n), Event::Rotate { header, position, next_binlog }))
}

/// The int-var subtype coded by `b`, if it is one.
pub open spec fn int_var_type(b: u8) -> Option<IntVarEventType> {
    if b == 0 {
        Some(IntVarEventType::InvalidIntEvent)
    } else if b == 1 {
        Some(IntVarEventType::LastInsertIdEvent)
    } else if b == 2 {
        Some(IntVarEventType::InsertIdEvent)
    } else {
        None
    }
}

/// How the body `s` of an int-var event with header `h` decodes: the
/// error met first, or the decoded event and the input after it.
pub open spec fn intvar_decoded(s: Seq<u8>, h: Header, r: Result<(Seq<u8>, Event), ParseError>) -> bool {
    if !avail(s, 0, 1) {
        r == Err::<(Seq<u8>, Event), _>(ParseError::InsufficientData)
    } else if int_var_type(s[0]) is None {
        r == Err::<(Seq<u8>, Event), _>(ParseError::UnsupportedEnumValue)
    } else if !avail(s, 0, 9) {
        r == Err::<(Seq<u8>, Event), _>(ParseError::InsufficientData)
    } else {
        r == Ok::<_, ParseError>(
            (
                s.subrange(9, s.len() as int),
                Event::IntVar { header: h, e_type: int_var_type(s[0])->0, value: le64(s, 1) },
            ),
        )
    }
}

/// Decodes an int-var event: a subtype byte, then an 8-byte value.
pub fn parse_intvar<'a>(input: &'a [u8], header: Header) -> (r: Result<(&'a [u8], Event), ParseError>)
    ensures
        intvar_decoded(input@, header, out_view(r)),
{
    let t = read_u8(input, 0)?;
    let e_type = if t == 0 {
        IntVarEventType::InvalidIntEvent
    } else if t == 1 {
        IntVarEventType::LastInsertIdEvent
    } else if t == 2 {
        IntVarEventType::InsertIdEvent
    } else {
        return Err(ParseError::UnsupportedEnumValue);
    };
    let value = read_u64(input, 1)?;
    Ok((rest_after(input, 9), Event::IntVar { header, e_type, value }))
}

/// What a file-data body holds when it decodes: a 4-byte file id, then
/// block data filling the rest of the declared size.
pub open spec fn file_data_error(s: Seq<u8>, h: Header) -> Option<ParseError> {
    if !avail(s, 0, 4) {
        Some(ParseError::InsufficientData)
    } else if tail(h, 4, 0) < 0 {
        Some(ParseError::MalformedLength)
    } else if !avail(s, 4, tail(h, 4, 0)) {
        Some(ParseError::InsufficientData)
    } else {
        None
    }
}

/// The block data of a well-formed file-data body.
pub open spec fn file_block(s: Seq<u8>, h: Header) -> Seq<char> {
    field_text(s.subrange(4, 4 + tail(h, 4, 0)))
}

fn parse_file_data(input: &[u8], header: &Header) -> (r: Result<(u32, String, usize), ParseError>)
    ensures
        match r {
            Ok((id, block, q)) => file_data_error(input@, *header) is None && id == le32(input@, 0)
                && block@ == file_block(input@, *header) && q == 4 + tail(*header, 4, 0),
            Err(e) => file_data_error(input@, *header) == Some(e),
        },
{
    let file_id = read_u32(input, 0)?;
    let n = tail_len(header, 4, 0)?;
    if input.len() - 4 < n {
        return Err(ParseError::InsufficientData);
    }
    let block_data = extract_string(input, 4, n);
    Ok((file_id, block_data, 4 + n))
}

/// How the body `s` of a create file event with header `h` decodes: the
/// error met first, or the decoded event and the input after it.
pub open spec fn create_file_decoded(s: Seq<u8>, h: Header, r: Result<(Seq<u8>, Event), ParseError>) -> bool {
    match file_data_error(s, h) {
        Some(e) => r == Err::<(Seq<u8>, Event), _>(e),
        None => match r {
            Ok((rest, Event::CreateFile { header, file_id, block_data })) => header == h && file_id
                == le32(s, 0) && block_data@ == file_block(s, h) && rest_is(s, 4 + tail(h, 4, 0), rest),
            _ => false,
        },
    }
}

/// How the body `s` of an append-file event with header `h` decodes: the
/// error met first, or the decoded event and the input after it.
pub open spec fn append_file_decoded(s: Seq<u8>, h: Header, r: Result<(Seq<u8>, Event), ParseError>) -> bool {
    match file_data_error(s, h) {
        Some(e) => r == Err::<(Seq<u8>, Event), _>(e),
        None => match r {
            Ok((rest, Event::AppendFile { header, file_id, block_data })) => header == h && file_id
                == le32(s, 0) && block_data@ == file_block(s, h) && rest_is(s, 4 + tail(h, 4, 0), rest),
            _ => false,
        },
    }
}

/// How the body `s` of a begin load query event with header `h` decodes: the
/// error met first, or the decoded event and the input after it.
pub open spec fn begin_load_query_decoded(s: Seq<u8>, h: Header, r: Result<(Seq<u8>, Event), ParseError>) -> bool {
    match file_data_error(s, h) {
        Some(e) => r == Err::<(Seq<u8>, Event), _>(e),
        None => match r {
            Ok((rest, Event::BeginLoadQuery { header, file_id, block_data })) => header == h
                && file_id == le32(s, 0) && block_data@ == file_block(s, h) && rest_is(
                s,
                4 + tail(h, 4, 0),
                rest,
            ),
            _ => false,
        },
    }
}

/// Decodes a create-file event.
pub fn parse_create_file<'a>(input: &'a [u8], header: Header) -> (r: Result<(&'a [u8], Event), ParseError>)
    ensures
        create_file_decoded(input@, header, out_view(r)),
{
    let (file_id, block_data, q) = parse_file_data(input, &header)?;
    Ok((rest_after(input, q), Event::CreateFile { header, file_id, block_data }))
}

/// Decodes an append-file event.
pub fn parse_append_file<'a>(input: &'a [u8], header: Header) -> (r: Result<(&'a [u8], Event), ParseError>)
    ensures
        append_file_decoded(input@, header, out_view(r)),
{
    let (file_id, block_data, q) = parse_file_data(input, &header)?;
    Ok((rest_after(input, q), Event::AppendFile { header, file_id, block_data }))
}

/// Decodes a begin-load-query event.
pub fn parse_begin_load_query<'a>(input: &'a [u8], header: Header) -> (r: Result<(&'a [u8], Event), ParseError>)
    ensures
        begin_load_query_decoded(input@, header, out_view(r)),
{
    let (file_id, block_data, q) = parse_file_data(input, &header)?;
    Ok((rest_after(input, q), Event::BeginLoadQuery { header, file_id, block_data }))
}

/// How the body `s` of a exec load event with header `h` decodes: the
/// error met first, or the decoded event and the input after it.
pub open spec fn exec_load_decoded(s: Seq<u8>, h: Header, r: Result<(Seq<u8>, Event), ParseError>) -> bool {
    if !avail(s, 0, 2) {
        r == Err::<(Seq<u8>, Event), _>(ParseError::InsufficientData)
    } else {
        r == Ok::<_, ParseError>(
            (s.subrange(2, s.len() as int), Event::ExecLoad { header: h, file_id: le16(s, 0) }),
        )
    }
}

/// How the body `s` of a delete file event with header `h` decodes: the
/// error met first, or the decoded event and the input after it.
pub open spec fn delete_file_decoded(s: Seq<u8>, h: Header, r: Result<(Seq<u8>, Event), ParseError>) -> bool {
    if !avail(s, 0, 2) {
        r == Err::<(Seq<u8>, Event), _>(ParseError::InsufficientData)
    } else {
        r == Ok::<_, ParseError>(
            (s.subrange(2, s.len() as int), Event::DeleteFile { header: h, file_id: le16(s, 0) }),
        )
    }
}

/// Decodes an exec-load event: a 2-byte file id.
pub fn parse_exec_load<'a>(input: &'a [u8], header: Header) -> (r: Result<(&'a [u8], Event), ParseError>)
    ensures
        exec_load_decoded(input@, header, out_view(r)),
{
    let file_id = read_u16(input, 0)?;
    Ok((rest_after(input, 2), Event::ExecLoad { header, file_id }))
}

/// Decodes a delete-file event: a 2-byte file id.
pub fn parse_delete_file<'a>(input: &'a [u8], header: Header) -> (r: Result<(&'a [u8], Event), ParseError>)
    ensures
        delete_file_decoded(input@, header, out_view(r)),
{
    let file_id = read_u16(input, 0)?;
    Ok((rest_after(input, 2), Event::DeleteFile { header, file_id }))
}

/// How the body `s` of a rand event with header `h` decodes: the
/// error met first, or the decoded event and the input after it.
pub open spec fn rand_decoded(s: Seq<u8>, h: Header, r: Result<(Seq<u8>, Event), ParseError>) -> bool {
    if !avail(s, 0, 16) {
        r == Err::<(Seq<u8>, Event), _>(ParseError::InsufficientData)
    } else {
        r == Ok::<_, ParseError>(
            (
                s.subrange(16, s.len() as int),
                Event::Rand { header: h, seed1: le64(s, 0), seed2: le64(s, 8) },
            ),
        )
    }
}

/// Decodes a rand event: two 8-byte seeds.
pub fn parse_rand<'a>(input: &'a [u8], header: Header) -> (r: Result<(&'a [u8], Event), ParseError>)
    ensures
        rand_decoded(input@, header, out_view(r)),
{
    let seed1 = read_u64(input, 0)?;
    let seed2 = read_u64(input, 8)?;
    Ok((rest_after(input, 16), Event::Rand { header, seed1, seed2 }))
}

/// How the body `s` of a user var event with header `h` decodes: the
/// error met first, or the decoded event and the input after it.
pub open spec fn user_var_decoded(s: Seq<u8>, h: Header, r: Result<(Seq<u8>, Event), ParseError>) -> bool {
    let n = tail(h, 0, 0);
    if n < 0 {
        r == Err::<(Seq<u8>, Event), _>(ParseError::MalformedLength)
    } else if !avail(s, 0, n) {
        r == Err::<(Seq<u8>, Event), _>(ParseError::InsufficientData)
    } else {
        match r {
            Ok((rest, Event::UserVar { header, unknown })) => header == h && unknown@ == s.subrange(
                0,
                n,
            ) && rest_is(s, n, rest),
            _ => false,
        }
    }
}

/// Decodes a user-var event: the whole body, kept as bytes.
pub fn parse_user_var<'a>(input: &'a [u8], header: Header) -> (r: Result<(&'a [u8], Event), ParseError>)
    ensures
        user_var_decoded(input@, header, out_view(r)),
{
    let n = tail_len(&header, 0, 0)?;
    let unknown = read_bytes(input, 0, n)?;
    Ok((rest_after(input, n), Event::UserVar { header, unknown }))
}

/// How the body `s` of a format desc event with header `h` decodes: the
/// error met first, or the decoded event and the input after it.
pub open spec fn format_desc_decoded(s: Seq<u8>, h: Header, r: Result<(Seq<u8>, Event), ParseError>) -> bool {
    let n = tail(h, 57, 5);
    if !avail(s, 0, 57) {
        r == Err::<(Seq<u8>, Event), _>(ParseError::InsufficientData)
    } else if n < 0 {
        r == Err::<(Seq<u8>, Event), _>(ParseError::MalformedLength)
    } else if !avail(s, 57, n + 5) {
        r == Err::<(Seq<u8>, Event), _>(ParseError::InsufficientData)
    } else {
        match r {
            Ok(
                (
                    rest,
                    Event::FormatDesc {
                        header,
                        binlog_version,
                        mysql_server_version,
                        create_timestamp,
                        event_header_length,
                        supported_types,
                        checksum_alg,
                        checksum,
                    },
                ),
            ) => {
                &&& header == h
                &&& binlog_version == le16(s, 0)
                &&& mysql_server_version@ == field_text(s.subrange(2, 52))
                &&& create_timestamp == le32(s, 52)
                &&& event_header_length == s[56]
                &&& supported_types@ == s.subrange(57, 57 + n)
                &&& checksum_alg == s[57 + n]
                &&& checksum == le32(s, 58 + n)
                &&& rest_is(s, 62 + n, rest)
            },
            _ => false,
        }
    }
}

/// Decodes a format-description event: version, 50-byte server version
/// text, creation time, header length, the supported-type table that
/// fills the rest of the declared size, the checksum algorithm and the
/// checksum.
pub fn parse_format_desc<'a>(input: &'a [u8], header: Header) -> (r: Result<(&'a [u8], Event), ParseError>)
    ensures
        format_desc_decoded(input@, header, out_view(r)),
{
    if input.len() < 57 {
        return Err(ParseError::InsufficientData);
    }
    let binlog_version = read_u16(input, 0)?;
    let mysql_server_version = extract_string(input, 2, 50);
    let create_timestamp = read_u32(input, 52)?;
    let event_header_length = read_u8(input, 56)?;
    let n = tail_len(&header, 57, 5)?;
    if input.len() - 57 < n + 5 {
        return Err(ParseError::InsufficientData);
    }
    let supported_types = read_bytes(input, 57, n)?;
    let checksum_alg = read_u8(input, 57 + n)?;
    let checksum = read_u32(input, 58 + n)?;
    Ok(
        (
            rest_after(input, 62 + n),
            Event::FormatDesc {
                header,
                binlog_version,
                mysql_server_version,
                create_timestamp,
                event_header_length,
                supported_types,
                checksum_alg,
                checksum,
            },
        ),
    )
}

/// How the body `s` of a xid event with header `h` decodes: the
/// error met first, or the decoded event and the input after it.
pub open spec fn xid_decoded(s: Seq<u8>, h: Header, r: Result<(Seq<u8>, Event), ParseError>) -> bool {
    if !avail(s, 0, 12) {
        r == Err::<(Seq<u8>, Event), _>(ParseError::InsufficientData)
    } else {
        r == Ok::<_, ParseError>(
            (
                s.subrange(12, s.len() as int),
                Event::XID { header: h, xid: le64(s, 0), checksum: le32(s, 8) },
            ),
        )
    }
}

/// Decodes an XID event: the 8-byte transaction id and the checksum.
pub fn parse_xid<'a>(input: &'a [u8], header: Header) -> (r: Result<(&'a [u8], Event), ParseError>)
    ensures
        xid_decoded(input@, header, out_view(r)),
{
    let xid = read_u64(input, 0)?;
    let checksum = read_u32(input, 8)?;
    Ok((rest_after(input, 12), Event::XID { header, xid, checksum }))
}

/// The duplicate-handling mode coded by `b`, if it is one.
pub open spec fn dup_handling(b: u8) -> Option<DupHandlingFlags> {
    if b == 0 {
        Some(DupHandlingFlags::Error)
    } else if b == 1 {
        Some(DupHandlingFlags::Ignore)
    } else if b == 2 {
        Some(DupHandlingFlags::Replace)
    } else {
        None
    }
}

/// How the body `s` of an execute-load-query event with header `h` decodes: the
/// error met first, or the decoded event and the input after it.
pub open spec fn execute_load_query_decoded(
    s: Seq<u8>,
    h: Header,
    r: Result<(Seq<u8>, Event), ParseError>,
) -> bool {
    if !avail(s, 0, 26) {
        r == Err::<(Seq<u8>, Event), _>(ParseError::InsufficientData)
    } else if dup_handling(s[25]) is None {
        r == Err::<(Seq<u8>, Event), _>(ParseError::UnsupportedEnumValue)
    } else {
        r == Ok::<_, ParseError>(
            (
                s.subrange(26, s.len() as int),
                Event::ExecuteLoadQueryEvent {
                    header: h,
                    thread_id: le32(s, 0),
                    execution_time: le32(s, 4),
                    schema_length: s[8],
                    error_code: le16(s, 9),
                    status_vars_length: le16(s, 11),
                    file_id: le32(s, 13),
                    start_pos: le32(s, 17),
                    end_pos: le32(s, 21),
                    dup_handling_flags: dup_handling(s[25])->0,
                },
            ),
        )
    }
}

/// Decodes an execute-load-query event: its fixed fields, then a
/// duplicate-handling code in {0, 1, 2}.
pub fn parse_execute_load_query<'a>(input: &'a [u8], header: Header) -> (r: Result<(&'a [u8], Event), ParseError>)
    ensures
        execute_load_query_decoded(input@, header, out_view(r)),
{
    if input.len() < 26 {
        return Err(ParseError::InsufficientData);
    }
    let thread_id = read_u32(input, 0)?;
    let execution_time = read_u32(input, 4)?;
    let schema_length = read_u8(input, 8)?;
    let error_code = read_u16(input, 9)?;
    let status_vars_length = read_u16(input, 11)?;
    let file_id = read_u32(input, 13)?;
    let start_pos = read_u32(input, 17)?;
    let end_pos = read_u32(input, 21)?;
    let d = read_u8(input, 25)?;
    let dup_handling_flags = if d == 0 {
        DupHandlingFlags::Error
    } else if d == 1 {
        DupHandlingFlags::Ignore
    } else if d == 2 {
        DupHandlingFlags::Replace
    } else {
        return Err(ParseError::UnsupportedEnumValue);
    };
    Ok(
        (
            rest_after(input, 26),
            Event::ExecuteLoadQueryEvent {
                header,
                thread_id,
                execution_time,
                schema_length,
                error_code,
                status_vars_length,
                file_id,
                start_pos,
                end_pos,
                dup_handling_flags,
            },
        ),
    )
}

/// The incident subtype coded by `w`, if it is one.
pub open spec fn incident_type(w: u16) -> Option<IncidentEventType> {
    if w == 0 {
        Some(IncidentEventType::NoIncident)
    } else if w == 1 {
        Some(IncidentEventType::LostEvents)
    } else {
        None
    }
}

/// How the body `s` of a incident event with header `h` decodes: the
/// error met first, or the decoded event and the input after it.
pub open spec fn incident_decoded(s: Seq<u8>, h: Header, r: Result<(Seq<u8>, Event), ParseError>) -> bool {
    if !avail(s, 0, 2) {
        r == Err::<(Seq<u8>, Event), _>(ParseError::InsufficientData)
    } else if incident_type(le16(s, 0)) is None {
        r == Err::<(Seq<u8>, Event), _>(ParseError::UnsupportedEnumValue)
    } else if !avail(s, 2, 1) || !avail(s, 3, s[2] as int) {
        r == Err::<(Seq<u8>, Event), _>(ParseError::InsufficientData)
    } else {
        match r {
            Ok((rest, Event::Incident { header, d_type, message_length, message })) => {
                &&& header == h
                &&& d_type == incident_type(le16(s, 0))->0
                &&& message_length == s[2]
                &&& message@ == field_text(s.subrange(3, 3 + s[2] as int))
                &&& rest_is(s, 3 + s[2] as int, rest)
            },
            _ => false,
        }
    }
}

/// Decodes an incident event: a subtype in {0, 1}, then a one-byte-length
/// message.
pub fn parse_incident<'a>(input: &'a [u8], header: Header) -> (r: Result<(&'a [u8], Event), ParseError>)
    ensures
        incident_decoded(input@, header, out_view(r)),
{
    let t = read_u16(input, 0)?;
    let d_type = if t == 0 {
        IncidentEventType::NoIncident
    } else if t == 1 {
        IncidentEventType::LostEvents
    } else {
        return Err(ParseError::UnsupportedEnumValue);
    };
    let (message_length, message) = crate::utils::string_fixed(input, 2)?;
    Ok(
        (
            rest_after(input, 3 + message_length as usize),
            Event::Incident { header, d_type, message_length, message },
        ),
    )
}

/// How the body `s` of a row query event with header `h` decodes: the
/// error met first, or the decoded event and the input after it.
pub open spec fn row_query_decoded(s: Seq<u8>, h: Header, r: Result<(Seq<u8>, Event), ParseError>) -> bool {
    if !avail(s, 0, 1) || !avail(s, 1, s[0] as int) {
        r == Err::<(Seq<u8>, Event), _>(ParseError::InsufficientData)
    } else {
        match r {
            Ok((rest, Event::RowQuery { header, length, query_text })) => {
                &&& header == h
                &&& length == s[0]
                &&& query_text@ == field_text(s.subrange(1, 1 + s[0] as int))
                &&& rest_is(s, 1 + s[0] as int, rest)
            },
            _ => false,
        }
    }
}

/// Decodes a rows-query event: a one-byte-length query text.
pub fn parse_row_query<'a>(input: &'a [u8], header: Header) -> (r: Result<(&'a [u8], Event), ParseError>)
    ensures
        row_query_decoded(input@, header, out_view(r)),
{
    let (length, query_text) = crate::utils::string_fixed(input, 0)?;
    Ok((rest_after(input, 1 + length as usize), Event::RowQuery { header, length, query_text }))
}

/// How the body `s` of an anonymous-GTID event with header `h` decodes: the
/// error met first, or the decoded event and the input after it.
pub open spec fn anonymous_gtid_decoded(s: Seq<u8>, h: Header, r: Result<(Seq<u8>, Event), ParseError>) -> bool {
    let n = tail(h, 9, 20);
    if !avail(s, 0, 9) {
        r == Err::<(Seq<u8>, Event), _>(ParseError::InsufficientData)
    } else if n < 0 {
        r == Err::<(Seq<u8>, Event), _>(ParseError::MalformedLength)
    } else if !avail(s, 9, n + 20) {
        r == Err::<(Seq<u8>, Event), _>(ParseError::InsufficientData)
    } else {
        match r {
            Ok(
                (
                    rest,
                    Event::AnonymousGtid {
                        header,
                        rbr_only,
                        encoded_sig_length,
                        encoded_gno_length,
                        unknown,
                        last_committed,
                        sequence_number,
                        checksum,
                    },
                ),
            ) => {
                &&& header == h
                &&& rbr_only == (s[0] == 0)
                &&& encoded_sig_length == le32(s, 1)
                &&& encoded_gno_length == le32(s, 5)
                &&& unknown@ == s.subrange(9, 9 + n)
                &&& last_committed == le64(s, 9 + n) as i64
                &&& sequence_number == le64(s, 17 + n) as i64
                &&& checksum == le32(s, 25 + n)
                &&& rest_is(s, 29 + n, rest)
            },
            _ => false,
        }
    }
}

/// Decodes an anonymous-GTID event: flag byte, two lengths, filler that
/// fills the declared size, two signed counters and the checksum.
pub fn parse_anonymous_gtid<'a>(input: &'a [u8], header: Header) -> (r: Result<(&'a [u8], Event), ParseError>)
    ensures
        anonymous_gtid_decoded(input@, header, out_view(r)),
{
    if input.len() < 9 {
        return Err(ParseError::InsufficientData);
    }
    let rbr_only = read_u8(input, 0)? == 0;
    let encoded_sig_length = read_u32(input, 1)?;
    let encoded_gno_length = read_u32(input, 5)?;
    let n = tail_len(&header, 9, 20)?;
    if input.len() - 9 < n + 20 {
        return Err(ParseError::InsufficientData);
    }
    let unknown = read_bytes(input, 9, n)?;
    let last_committed = read_i64(input, 9 + n)?;
    let sequence_number = read_i64(input, 17 + n)?;
    let checksum = read_u32(input, 25 + n)?;
    Ok(
        (
            rest_after(input, 29 + n),
            Event::AnonymousGtid {
                header,
                rbr_only,
                encoded_sig_length,
                encoded_gno_length,
                unknown,
                last_committed,
                sequence_number,
                checksum,
            },
        ),
    )
}

/// How the body `s` of a previous gtids event with header `h` decodes: the
/// error met first, or the decoded event and the input after it.
pub open spec fn previous_gtids_decoded(s: Seq<u8>, h: Header, r: Result<(Seq<u8>, Event), ParseError>) -> bool {
    let n = tail(h, 0, 8);
    if n < 0 {
        r == Err::<(Seq<u8>, Event), _>(ParseError::MalformedLength)
    } else if !avail(s, 0, n + 8) {
        r == Err::<(Seq<u8>, Event), _>(ParseError::InsufficientData)
    } else {
        match r {
            Ok((rest, Event::PreviousGtids { header, gtid_sets, buf_size, checksum })) => {
                &&& header == h
                &&& gtid_sets@ == s.subrange(0, n)
                &&& buf_size == le32(s, n)
                &&& checksum == le32(s, n + 4)
                &&& rest_is(s, n + 8, rest)
            },
            _ => false,
        }
    }
}

/// Decodes a previous-GTIDs event: the GTID-set bytes that fill the
/// declared size, a buffer size and the checksum.
pub fn parse_previous_gtids<'a>(input: &'a [u8], header: Header) -> (r: Result<(&'a [u8], Event), ParseError>)
    ensures
        previous_gtids_decoded(input@, header, out_view(r)),
{
    let n = tail_len(&header, 0, 8)?;
    if input.len() < n + 8 {
        return Err(ParseError::InsufficientData);
    }
    let gtid_sets = read_bytes(input, 0, n)?;
    let buf_size = read_u32(input, n)?;
    let checksum = read_u32(input, n + 4)?;
    Ok((rest_after(input, n + 8), Event::PreviousGtids { header, gtid_sets, buf_size, checksum }))
}

/// How the body `s` of a record whose header is `h` decodes: by the
/// decoder of its type code, or as an unsupported type.
pub open spec fn body_decoded(s: Seq<u8>, h: Header, r: Result<(Seq<u8>, Event), ParseError>) -> bool {
    match h.event_type {
        0x00 => unknown_decoded(s, h, r),
        0x02 => query_decoded(s, h, r),
        0x03 => r == Ok::<_, ParseError>((s, Event::Stop { header: h })),
        0x04 => rotate_decoded(s, h, r),
        0x05 => intvar_decoded(s, h, r),
        0x06 => load_decoded(s, h, r),
        0x07 => r == Ok::<_, ParseError>((s, Event::Slave { header: h })),
        0x08 => create_file_decoded(s, h, r),
        0x09 => append_file_decoded(s, h, r),
        0x0a => exec_load_decoded(s, h, r),
        0x0b => delete_file_decoded(s, h, r),
        0x0c => new_load_decoded(s, h, r),
        0x0d => rand_decoded(s, h, r),
        0x0e => user_var_decoded(s, h, r),
        0x0f => format_desc_decoded(s, h, r),
        0x10 => xid_decoded(s, h, r),
        0x11 => begin_load_query_decoded(s, h, r),
        0x12 => execute_load_query_decoded(s, h, r),
        0x13 => table_map_decoded(s, h, r),
        0x1a => incident_decoded(s, h, r),
        0x1b => r == Ok::<_, ParseError>((s, Event::Heartbeat { header: h })),
        0x1d => row_query_decoded(s, h, r),
        0x1e => write_rows_decoded(s, h, r),
        0x1f => update_rows_decoded(s, h, r),
        0x20 => delete_rows_decoded(s, h, r),
        0x22 => anonymous_gtid_decoded(s, h, r),
        0x23 => previous_gtids_decoded(s, h, r),
        _ => r == Err::<(Seq<u8>, Event), _>(ParseError::UnsupportedEventType),
    }
}

/// How a whole record `s` decodes: its header, then its body.
pub open spec fn event_decoded(s: Seq<u8>, r: Result<(Seq<u8>, Event), ParseError>) -> bool {
    match header_error(s) {
        Some(e) => r == Err::<(Seq<u8>, Event), _>(e),
        None => body_decoded(s.subrange(19, s.len() as int), header_of(s), r),
    }
}

impl Event {
    /// Decodes one event record: the header, then the body by the decoder
    /// of its type code. An unknown type code gives
    /// `UnsupportedEventType`; the header alone still decodes, and its
    /// event size tells where the next record starts.
    pub fn parse<'a>(input: &'a [u8]) -> (r: Result<(&'a [u8], Event), ParseError>)
        ensures
            event_decoded(input@, out_view(r)),
    {
        let (body, header) = parse_header(input)?;
        match header.event_type {
            0x00 => parse_unknown(body, header),
            0x02 => parse_query(body, header),
            0x03 => parse_stop(body, header),
            0x04 => parse_rotate(body, header),
            0x05 => parse_intvar(body, header),
            0x06 => parse_load(body, header),
            0x07 => parse_slave(body, header),
            0x08 => parse_create_file(body, header),
            0x09 => parse_append_file(body, header),
            0x0a => parse_exec_load(body, header),
            0x0b => parse_delete_file(body, header),
            0x0c => parse_new_load(body, header),
            0x0d => parse_rand(body, header),
            0x0e => parse_user_var(body, header),
            0x0f => parse_format_desc(body, header),
            0x10 => parse_xid(body, header),
            0x11 => parse_begin_load_query(body, header),
            0x12 => parse_execute_load_query(body, header),
            0x13 => parse_table_map(body, header),
            0x1a => parse_incident(body, header),
            0x1b => parse_heartbeat(body, header),
            0x1d => parse_row_query(body, header),
            0x1e => parse_write_rows_v2(body, header),
            0x1f => parse_update_rows_v2(body, header),
            0x20 => parse_delete_rows_v2(body, header),
            0x22 => parse_anonymous_gtid(body, header),
            0x23 => parse_previous_gtids(body, header),
            _ => Err(ParseError::UnsupportedEventType),
        }
    }
}

} // verus!

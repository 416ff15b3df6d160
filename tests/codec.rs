use binlog_events::error::ParseError;
use binlog_events::events::load::{parse_load, parse_new_load};
use binlog_events::events::query::{parse_status_vars, QueryStatusVar};
use binlog_events::events::rows::{parse_delete_rows_v2, parse_update_rows_v2, parse_write_rows_v2};
use binlog_events::events::table_map::bitmap_bytes;
use binlog_events::events::{
    check_start, parse_execute_load_query, parse_header, parse_incident, parse_intvar,
    parse_rotate, parse_user_var, DupHandlingFlags, Event, Header, IncidentEventType,
    IntVarEventType,
};
use binlog_events::utils::{parse_lenenc_int, parse_lenenc_str};

fn header_bytes(event_type: u8, event_size: u32, flags: u16) -> Vec<u8> {
    let mut v = vec![1, 0, 0, 0, event_type, 7, 0, 0, 0];
    v.extend_from_slice(&event_size.to_le_bytes());
    v.extend_from_slice(&[9, 0, 0, 0]);
    v.extend_from_slice(&flags.to_le_bytes());
    v
}

fn record(event_type: u8, body: &[u8]) -> Vec<u8> {
    let mut v = header_bytes(event_type, 19 + body.len() as u32, 0);
    v.extend_from_slice(body);
    v
}

fn header_of(event_type: u8, body_len: usize) -> Header {
    let v = header_bytes(event_type, 19 + body_len as u32, 0);
    parse_header(&v).unwrap().1
}

#[test]
fn lenenc_int_one_byte() {
    let (rest, v) = parse_lenenc_int(&[0x05]).unwrap();
    assert_eq!(v, 5);
    assert_eq!(rest.len(), 0);
}

#[test]
fn lenenc_int_two_bytes() {
    let (rest, v) = parse_lenenc_int(&[0xfb, 0x00, 0x01]).unwrap();
    assert_eq!(v, 256);
    assert_eq!(rest.len(), 0);
    let (_, v) = parse_lenenc_int(&[0xfc, 0x34, 0x12, 0x99]).unwrap();
    assert_eq!(v, 0x1234);
}

#[test]
fn lenenc_int_three_bytes() {
    let (rest, v) = parse_lenenc_int(&[0xfd, 0x01, 0x00, 0x00]).unwrap();
    assert_eq!(v, 1);
    assert_eq!(rest.len(), 0);
    let (_, v) = parse_lenenc_int(&[0xfd, 0x03, 0x02, 0x01]).unwrap();
    assert_eq!(v, 0x010203);
}

#[test]
fn lenenc_int_eight_bytes() {
    let input = [0xfe, 1, 2, 3, 4, 5, 6, 7, 8, 0xaa];
    let (rest, v) = parse_lenenc_int(&input).unwrap();
    assert_eq!(v, 0x0807060504030201);
    assert_eq!(rest, &[0xaa]);
}

#[test]
fn lenenc_int_errors() {
    assert_eq!(parse_lenenc_int(&[0xff, 0, 0]).unwrap_err(), ParseError::MalformedLength);
    assert_eq!(parse_lenenc_int(&[]).unwrap_err(), ParseError::InsufficientData);
    assert_eq!(parse_lenenc_int(&[0xfe, 1, 2]).unwrap_err(), ParseError::InsufficientData);
}

#[test]
fn lenenc_str_is_lenient() {
    let (rest, s) = parse_lenenc_str(&[3, b'a', 0xff, b'b', 9]).unwrap();
    assert_eq!(s, "a\u{FFFD}b");
    assert_eq!(rest, &[9]);
    assert_eq!(parse_lenenc_str(&[4, b'a']).unwrap_err(), ParseError::InsufficientData);
}

#[test]
fn header_fields_and_flags() {
    let v = header_bytes(0x10, 31, 0b10_0000_0101);
    let (rest, h) = parse_header(&v).unwrap();
    assert_eq!(rest.len(), 0);
    assert_eq!(h.timestamp, 1);
    assert_eq!(h.event_type, 0x10);
    assert_eq!(h.server_id, 7);
    assert_eq!(h.event_size, 31);
    assert_eq!(h.log_pos, 9);
    assert!(h.flags.in_use);
    assert!(!h.flags.forced_rotate);
    assert!(h.flags.thread_specific);
    assert!(h.flags.mts_isolate);
    assert!(!h.flags.no_filter);
}

#[test]
fn header_errors() {
    let v = header_bytes(0x10, 18, 0);
    assert_eq!(parse_header(&v).unwrap_err(), ParseError::MalformedLength);
    assert_eq!(parse_header(&v[..18]).unwrap_err(), ParseError::InsufficientData);
}

#[test]
fn header_decoding_is_deterministic() {
    let v = header_bytes(0x04, 40, 3);
    assert_eq!(parse_header(&v).unwrap(), parse_header(&v.clone()).unwrap());
    let r = record(0x10, &[11, 0, 0, 0, 0, 0, 0, 0, 1, 2, 3, 4]);
    assert_eq!(Event::parse(&r).unwrap(), Event::parse(&r).unwrap());
}

#[test]
fn magic_check() {
    let (rest, sig) = check_start(&[0xfe, b'b', b'i', b'n', 5]).unwrap();
    assert_eq!(sig, &[0xfe, b'b', b'i', b'n']);
    assert_eq!(rest, &[5]);
    assert_eq!(check_start(&[0xfe, b'b', b'i', b'x']).unwrap_err(), ParseError::InvariantViolation);
    assert_eq!(check_start(&[0xfe, b'b']).unwrap_err(), ParseError::InsufficientData);
}

#[test]
fn xid_through_dispatcher() {
    let mut body = 11u64.to_le_bytes().to_vec();
    body.extend_from_slice(&0x86eb78bcu32.to_le_bytes());
    let r = record(0x10, &body);
    let (rest, e) = Event::parse(&r).unwrap();
    assert_eq!(rest.len(), 0);
    match e {
        Event::XID { xid, checksum, header } => {
            assert_eq!(xid, 11);
            assert_eq!(checksum, 0x86eb78bc);
            assert_eq!(header.event_size, 31);
        }
        _ => unreachable!(),
    }
}

#[test]
fn truncated_records_want_more_data() {
    let mut body = 11u64.to_le_bytes().to_vec();
    body.extend_from_slice(&0x86eb78bcu32.to_le_bytes());
    let r = record(0x10, &body);
    for k in 0..r.len() {
        assert_eq!(Event::parse(&r[..k]).unwrap_err(), ParseError::InsufficientData);
    }
}

#[test]
fn unsupported_event_types() {
    for t in [0x01u8, 0x14, 0x19, 0x1c, 0x21, 0x24, 0xff] {
        let r = record(t, &[0, 0, 0, 0]);
        assert_eq!(Event::parse(&r).unwrap_err(), ParseError::UnsupportedEventType);
    }
}

#[test]
fn headers_only_events() {
    for (t, name) in [(0x03u8, "stop"), (0x07, "slave"), (0x1b, "heartbeat")] {
        let r = record(t, &[]);
        let (rest, e) = Event::parse(&r).unwrap();
        assert_eq!(rest.len(), 0, "{}", name);
        match (t, e) {
            (0x03, Event::Stop { .. }) | (0x07, Event::Slave { .. }) | (0x1b, Event::Heartbeat { .. }) => {}
            _ => panic!("wrong variant for {}", name),
        }
    }
}

#[test]
fn intvar_subtypes() {
    let h = header_of(0x05, 9);
    let (_, e) = parse_intvar(&[2, 5, 0, 0, 0, 0, 0, 0, 0], h).unwrap();
    assert_eq!(e, Event::IntVar { header: h, e_type: IntVarEventType::InsertIdEvent, value: 5 });
    assert_eq!(parse_intvar(&[3, 5, 0, 0, 0, 0, 0, 0, 0], h).unwrap_err(), ParseError::UnsupportedEnumValue);
}

#[test]
fn execute_load_query_dup_handling() {
    let h = header_of(0x12, 26);
    let mut body = vec![0u8; 25];
    body.push(1);
    let (rest, e) = parse_execute_load_query(&body, h).unwrap();
    assert_eq!(rest.len(), 0);
    match e {
        Event::ExecuteLoadQueryEvent { dup_handling_flags, .. } => {
            assert_eq!(dup_handling_flags, DupHandlingFlags::Ignore)
        }
        _ => unreachable!(),
    }
    body[25] = 3;
    assert_eq!(parse_execute_load_query(&body, h).unwrap_err(), ParseError::UnsupportedEnumValue);
    assert_eq!(parse_execute_load_query(&body[..25], h).unwrap_err(), ParseError::InsufficientData);
    let mut longer = vec![0u8; 25];
    longer.extend_from_slice(&[0, 5]);
    let (rest, e) = parse_execute_load_query(&longer, h).unwrap();
    assert_eq!(rest, &[5]);
    match e {
        Event::ExecuteLoadQueryEvent { dup_handling_flags, .. } => {
            assert_eq!(dup_handling_flags, DupHandlingFlags::Error)
        }
        _ => unreachable!(),
    }
}

#[test]
fn incident_subtypes() {
    let h = header_of(0x1a, 7);
    let (_, e) = parse_incident(&[1, 0, 4, b'l', b'o', b's', b't'], h).unwrap();
    match e {
        Event::Incident { d_type, message_length, message, .. } => {
            assert_eq!(d_type, IncidentEventType::LostEvents);
            assert_eq!(message_length, 4);
            assert_eq!(message, "lost");
        }
        _ => unreachable!(),
    }
    assert_eq!(parse_incident(&[2, 0, 0], h).unwrap_err(), ParseError::UnsupportedEnumValue);
}

#[test]
fn rotate_name_fills_declared_size() {
    let mut body = 4u64.to_le_bytes().to_vec();
    body.extend_from_slice(b"binlog.000002");
    let h = header_of(0x04, body.len());
    let (rest, e) = parse_rotate(&body, h).unwrap();
    assert_eq!(rest.len(), 0);
    match e {
        Event::Rotate { position, next_binlog, .. } => {
            assert_eq!(position, 4);
            assert_eq!(next_binlog, "binlog.000002");
        }
        _ => unreachable!(),
    }
    let short = header_of(0x04, 7);
    assert_eq!(parse_rotate(&body, short).unwrap_err(), ParseError::MalformedLength);
}

#[test]
fn user_var_keeps_body() {
    let h = header_of(0x0e, 3);
    let (rest, e) = parse_user_var(&[1, 2, 3, 4], h).unwrap();
    assert_eq!(rest, &[4]);
    assert_eq!(e, Event::UserVar { header: h, unknown: vec![1, 2, 3] });
}

#[test]
fn bitmap_length_rounds_up() {
    assert_eq!(bitmap_bytes(0), 0);
    assert_eq!(bitmap_bytes(1), 1);
    assert_eq!(bitmap_bytes(8), 1);
    assert_eq!(bitmap_bytes(9), 2);
    assert_eq!(bitmap_bytes(u64::MAX), 1 << 61);
}

fn table_map_body(columns: u8, schema_term: u8) -> Vec<u8> {
    let mut b = vec![109, 0, 0, 0, 0, 0, 1, 0, 4, b't', b'e', b's', b't', schema_term, 1, b'x', 0];
    b.push(columns);
    b.extend(std::iter::repeat(3u8).take(columns as usize));
    b.push(0);
    b.extend(std::iter::repeat(0xffu8).take((columns as usize + 7) / 8));
    b.extend_from_slice(&[1, 2, 3, 4]);
    b
}

#[test]
fn table_map_null_bitmap_length() {
    for c in [0u8, 1, 7, 8, 9, 17] {
        let body = table_map_body(c, 0);
        let r = record(0x13, &body);
        let (rest, e) = Event::parse(&r).unwrap();
        assert_eq!(rest.len(), 0);
        match e {
            Event::TableMap { column_count, null_bits, columns_type, table_name, checksum, .. } => {
                assert_eq!(column_count, c as u64);
                assert_eq!(null_bits.len(), (c as usize + 7) / 8);
                assert_eq!(columns_type.len(), c as usize);
                assert_eq!(table_name, "x");
                assert_eq!(checksum, 0x04030201);
            }
            _ => unreachable!(),
        }
    }
}

#[test]
fn table_map_terminator_must_be_nul() {
    let r = record(0x13, &table_map_body(2, 7));
    assert_eq!(Event::parse(&r).unwrap_err(), ParseError::InvariantViolation);
}

fn rows_body(bitmaps: usize, extra: &[u8]) -> Vec<u8> {
    let mut b = vec![5, 0, 0, 0, 0, 0, 0x0b, 0];
    b.extend_from_slice(&(2 + extra.len() as u16).to_le_bytes());
    b.extend_from_slice(extra);
    b.push(3);
    for i in 0..bitmaps {
        b.push(0x05 + i as u8);
    }
    b.extend_from_slice(&[0xaa, 0xbb]);
    b.extend_from_slice(&[9, 9, 9, 9]);
    b
}

#[test]
fn update_rows_reads_two_bitmaps() {
    let body = rows_body(2, &[0, 4, 0xff, 0x10, 0x20]);
    let h = header_of(0x1f, body.len());
    let (rest, e) = parse_update_rows_v2(&body, h).unwrap();
    assert_eq!(rest.len(), 0);
    match e {
        Event::UpdateRowsV2 { table_id, flags, extra_data, column_count, before_image_bits, after_image_bits, rows, checksum, .. } => {
            assert_eq!(table_id, 5);
            assert!(flags.end_of_stmt);
            assert!(!flags.foreign_key_checks);
            assert!(flags.unique_key_checks);
            assert!(flags.has_columns);
            assert_eq!(extra_data.len(), 1);
            assert_eq!(extra_data[0].format, 0xff);
            assert_eq!(extra_data[0].payload, vec![0x10, 0x20]);
            assert_eq!(column_count, 3);
            assert_eq!(before_image_bits, vec![0x05]);
            assert_eq!(after_image_bits, vec![0x06]);
            assert_eq!(rows, vec![0xaa, 0xbb]);
            assert_eq!(checksum, 0x09090909);
        }
        _ => unreachable!(),
    }
}

#[test]
fn extra_data_of_any_tag() {
    let body = rows_body(1, &[1, 3, 0x40, 0x77]);
    let h = header_of(0x1e, body.len());
    let (rest, e) = parse_write_rows_v2(&body, h).unwrap();
    assert_eq!(rest.len(), 0);
    match e {
        Event::WriteRowsV2 { extra_data, inserted_image_bits, .. } => {
            assert_eq!(extra_data.len(), 1);
            assert_eq!(extra_data[0].d_type, 1);
            assert_eq!(extra_data[0].format, 0x40);
            assert_eq!(extra_data[0].payload, vec![0x77]);
            assert_eq!(inserted_image_bits, vec![0x05]);
        }
        _ => unreachable!(),
    }
}

#[test]
fn delete_rows_reads_one_bitmap() {
    let body = rows_body(1, &[]);
    let h = header_of(0x20, body.len());
    let (rest, e) = parse_delete_rows_v2(&body, h).unwrap();
    assert_eq!(rest.len(), 0);
    match e {
        Event::DeleteRowsV2 { deleted_image_bits, rows, extra_data, .. } => {
            assert_eq!(deleted_image_bits, vec![0x05]);
            assert_eq!(rows, vec![0xaa, 0xbb]);
            assert!(extra_data.is_empty());
        }
        _ => unreachable!(),
    }
}

#[test]
fn rows_errors() {
    let mut body = rows_body(1, &[]);
    body[8] = 1;
    let h = header_of(0x20, body.len());
    assert_eq!(parse_delete_rows_v2(&body, h).unwrap_err(), ParseError::MalformedLength);
    let body = rows_body(1, &[7, 1, 0]);
    let h = header_of(0x20, body.len());
    assert_eq!(parse_delete_rows_v2(&body, h).unwrap_err(), ParseError::MalformedLength);
    let body = rows_body(1, &[7, 4, 0]);
    let h = header_of(0x20, body.len());
    assert_eq!(parse_delete_rows_v2(&body, h).unwrap_err(), ParseError::MalformedLength);
    let body = rows_body(1, &[]);
    let small = header_of(0x20, 10);
    assert_eq!(parse_delete_rows_v2(&body, small).unwrap_err(), ParseError::MalformedLength);
}

fn field_list() -> Vec<u8> {
    let mut b = vec![1, 2];
    b.extend_from_slice(b"a\0bc\0t\0d\0f.csv");
    b.extend_from_slice(&[4, 3, 2, 1]);
    b
}

#[test]
fn load_event_fields() {
    let mut body = vec![1, 0, 0, 0, 2, 0, 0, 0, 0, 0, 0, 0, 1, 1, 2, 0, 0, 0];
    body.extend_from_slice(&[b',', b'"', b'\n', 0, b'\\', 0b0101, 0b0010]);
    body.extend_from_slice(&field_list());
    let h = header_of(0x06, body.len());
    let (rest, e) = parse_load(&body, h).unwrap();
    assert_eq!(rest.len(), 0);
    match e {
        Event::Load { thread_id, num_fields, field_term, opt_flags, empty_flags, field_name_lengths, field_names, table_name, schema_name, file_name, checksum, .. } => {
            assert_eq!(thread_id, 1);
            assert_eq!(num_fields, 2);
            assert_eq!(field_term, b',');
            assert!(opt_flags.dump_file);
            assert!(!opt_flags.opt_enclosed);
            assert!(opt_flags.replace);
            assert!(empty_flags.enclosed_empty);
            assert!(!empty_flags.field_term_empty);
            assert_eq!(field_name_lengths, vec![1, 2]);
            assert_eq!(field_names, vec!["a".to_string(), "bc".to_string()]);
            assert_eq!(table_name, "t");
            assert_eq!(schema_name, "d");
            assert_eq!(file_name, "f.csv");
            assert_eq!(checksum, 0x01020304);
        }
        _ => unreachable!(),
    }
}

#[test]
fn new_load_event_delimiters() {
    let mut body = vec![1, 0, 0, 0, 2, 0, 0, 0, 0, 0, 0, 0, 1, 1, 2, 0, 0, 0];
    body.extend_from_slice(&[1, b',', 2, b'"', b'\'', 1, b'\n', 0, 1, b'\\', 0b1000]);
    body.extend_from_slice(&field_list());
    let h = header_of(0x0c, body.len());
    let (rest, e) = parse_new_load(&body, h).unwrap();
    assert_eq!(rest.len(), 0);
    match e {
        Event::NewLoad { enclosed_by_length, enclosed_by, line_start_length, line_start, opt_flags, field_names, file_name, .. } => {
            assert_eq!(enclosed_by_length, 2);
            assert_eq!(enclosed_by, "\"'");
            assert_eq!(line_start_length, 0);
            assert_eq!(line_start, "");
            assert!(opt_flags.ignore);
            assert_eq!(field_names, vec!["a".to_string(), "bc".to_string()]);
            assert_eq!(file_name, "f.csv");
        }
        _ => unreachable!(),
    }
}

#[test]
fn load_name_without_terminator() {
    let mut body = vec![1, 0, 0, 0, 2, 0, 0, 0, 0, 0, 0, 0, 1, 1, 2, 0, 0, 0];
    body.extend_from_slice(&[b',', b'"', b'\n', 0, b'\\', 0, 0]);
    let mut fields = field_list();
    fields[3] = b'x';
    body.extend_from_slice(&fields);
    let h = header_of(0x06, body.len());
    assert_eq!(parse_load(&body, h).unwrap_err(), ParseError::InvariantViolation);
}

#[test]
fn status_variables_of_every_shape() {
    let mut r = vec![2, 3, b'd', b'e', b'f', 0];
    r.extend_from_slice(&[3, 1, 0, 2, 0]);
    r.extend_from_slice(&[5, 3, b'U', b'T', b'C']);
    r.extend_from_slice(&[11, 4, b'r', b'o', b'o', b't', 2, b'h', b'1']);
    r.extend_from_slice(&[13, 1, 2, 3]);
    r.extend_from_slice(&[12, 2, b'a', 0, b'b', b'c', 0]);
    r.extend_from_slice(&[20, 2, 7, 8]);
    let vs = parse_status_vars(&r).unwrap();
    assert_eq!(
        vs,
        vec![
            QueryStatusVar::Q_CATALOG_CODE("def".to_string()),
            QueryStatusVar::Q_AUTO_INCREMENT(1, 2),
            QueryStatusVar::Q_TIME_ZONE_CODE("UTC".to_string()),
            QueryStatusVar::Q_INVOKERS("root".to_string(), "h1".to_string()),
            QueryStatusVar::Q_MICROSECONDS(0x030201),
            QueryStatusVar::Q_UPDATED_DB_NAMES(vec!["a".to_string(), "bc".to_string()]),
            QueryStatusVar::Q_UNMODELED(20, vec![7, 8]),
        ]
    );
    assert_eq!(parse_status_vars(&[]).unwrap(), vec![]);
    assert_eq!(parse_status_vars(&[2, 1, b'x', 5]).unwrap_err(), ParseError::InvariantViolation);
    assert_eq!(parse_status_vars(&[0, 1, 2]).unwrap_err(), ParseError::InvariantViolation);
    assert_eq!(
        parse_status_vars(&[2, 1, b'x', 3, 1, 0, 2, 0]).unwrap(),
        vec![QueryStatusVar::Q_CATALOG_CODE("x".to_string()), QueryStatusVar::Q_AUTO_INCREMENT(1, 2)]
    );
    assert_eq!(
        parse_status_vars(&[2, 1, b'x']).unwrap(),
        vec![QueryStatusVar::Q_CATALOG_CODE("x".to_string())]
    );
}

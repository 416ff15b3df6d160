use binlog_events::error::ParseError;
use binlog_events::events::query;
use binlog_events::events::rows;
use binlog_events::events::{
    parse_anonymous_gtid, parse_format_desc, parse_header, parse_previous_gtids, parse_xid, Event,
};
use binlog_events::events::query::parse_query;
use binlog_events::events::rows::parse_write_rows_v2;
use binlog_events::events::table_map::parse_table_map;

#[test]
fn test_anonymous_gtids() {
    let input: Vec<u8> = vec![
        54, 157, 253, 94, 34, 123, 0, 0, 0, 65, 0, 0, 0, 219, 0, 0, 0, 0, 0, 1, 0, 0, 0, 0, 0, 0,
        0, 0, 0, 0, 0, 0, 0, 0, 0, 0, 0, 0, 0, 0, 0, 0, 0, 0, 2, 0, 0, 0, 0, 0, 0, 0, 0, 1, 0, 0,
        0, 0, 0, 0, 0, 10, 21, 198, 18,
    ];
    let (i, header) = parse_header(&input).unwrap();
    let (i, event) = parse_anonymous_gtid(i, header).unwrap();
    match event {
        Event::AnonymousGtid {
            last_committed,
            sequence_number,
            rbr_only,
            ..
        } => {
            assert_eq!(last_committed, 0);
            assert_eq!(sequence_number, 1);
            assert_eq!(rbr_only, false);
            assert_eq!(i.len(), 0);
        }
        _ => unreachable!(),
    }
}

#[test]
fn test_format_desc() {
    let input: Vec<u8> = vec![
        220, 156, 253, 94, 15, 123, 0, 0, 0, 119, 0, 0, 0, 123, 0, 0, 0, 1, 0, 4, 0, 53, 46, 55,
        46, 50, 57, 45, 108, 111, 103, 0, 0, 0, 0, 0, 0, 0, 0, 0, 0, 0, 0, 0, 0, 0, 0, 0, 0, 0, 0,
        0, 0, 0, 0, 0, 0, 0, 0, 0, 0, 0, 0, 0, 0, 0, 0, 0, 0, 0, 0, 220, 156, 253, 94, 19, 56, 13,
        0, 8, 0, 18, 0, 4, 4, 4, 4, 18, 0, 0, 95, 0, 4, 26, 8, 0, 0, 0, 8, 8, 8, 2, 0, 0, 0, 10,
        10, 10, 42, 42, 0, 18, 52, 0, 1, 207, 88, 126, 238,
    ];
    let (i, header) = parse_header(&input).unwrap();
    let (i, event) = parse_format_desc(i, header).unwrap();
    match event {
        Event::FormatDesc {
            binlog_version,
            mysql_server_version,
            create_timestamp,
            ..
        } => {
            assert_eq!(binlog_version, 4);
            assert_eq!(mysql_server_version, "5.7.29-log");
            assert_eq!(create_timestamp, 1593679068);
            assert_eq!(i.len(), 0);
        }
        _ => unreachable!(),
    }
}

#[test]
fn test_xid() {
    let input: Vec<u8> = vec![
        170, 157, 253, 94, 16, 123, 0, 0, 0, 31, 0, 0, 0, 71, 3, 0, 0, 0, 0, 11, 0, 0, 0, 0, 0, 0,
        0, 188, 120, 235, 134,
    ];
    let (i, header) = parse_header(&input).unwrap();
    let (i, e) = parse_xid(i, header).unwrap();
    match e {
        Event::XID { xid, checksum, .. } => {
            assert_eq!(i.len(), 0);
            assert_eq!(xid, 11);
            assert_eq!(checksum, 0x86eb78bc);
        }
        _ => unreachable!(),
    }
}

#[test]
fn test_previous_gtids() {
    let input: Vec<u8> = vec![
        220, 156, 253, 94, 35, 123, 0, 0, 0, 31, 0, 0, 0, 154, 0, 0, 0, 128, 0, 0, 0, 0, 0, 0, 0,
        0, 0, 82, 75, 196, 253,
    ];
    let (i, header) = parse_header(&input).unwrap();
    let (i, _) = parse_previous_gtids(i, header).unwrap();
    assert_eq!(i.len(), 0);
}

#[test]
fn test_table_map() {
    let input: Vec<u8> = vec![
        170, 157, 253, 94, 19, 123, 0, 0, 0, 60, 0, 0, 0, 246, 2, 0, 0, 0, 0, 109, 0, 0, 0, 0, 0,
        1, 0, 4, 116, 101, 115, 116, 0, 10, 114, 117, 110, 111, 111, 98, 95, 116, 98, 108, 0, 4,
        3, 15, 15, 10, 4, 44, 1, 120, 0, 8, 194, 168, 53, 68,
    ];
    let (i, header) = parse_header(&input).unwrap();
    let (i, event) = parse_table_map(i, header).unwrap();
    match event {
        Event::TableMap {
            table_id,
            schema,
            checksum,
            ..
        } => {
            assert_eq!(i.len(), 0);
            assert_eq!(table_id, 109);
            assert_eq!(schema, "test".to_string());
            assert_eq!(checksum, 0x4435a8c2);
        }
        _ => unreachable!(),
    }
}

fn query_record() -> Vec<u8> {
    vec![
        54, 157, 253, 94, 2, 123, 0, 0, 0, 78, 1, 0, 0, 41, 2, 0, 0, 0, 0, 3, 0, 0, 0, 0, 0, 0, 0,
        4, 0, 0, 33, 0, 0, 0, 0, 0, 0, 1, 32, 0, 160, 85, 0, 0, 0, 0, 6, 3, 115, 116, 100, 4, 33,
        0, 33, 0, 224, 0, 12, 1, 116, 101, 115, 116, 0, 116, 101, 115, 116, 0, 67, 82, 69, 65, 84,
        69, 32, 84, 65, 66, 76, 69, 32, 73, 70, 32, 78, 79, 84, 32, 69, 88, 73, 83, 84, 83, 32,
        96, 114, 117, 110, 111, 111, 98, 95, 116, 98, 108, 96, 40, 10, 32, 32, 32, 96, 114, 117,
        110, 111, 111, 98, 95, 105, 100, 96, 32, 73, 78, 84, 32, 85, 78, 83, 73, 71, 78, 69, 68,
        32, 65, 85, 84, 79, 95, 73, 78, 67, 82, 69, 77, 69, 78, 84, 44, 10, 32, 32, 32, 96, 114,
        117, 110, 111, 111, 98, 95, 116, 105, 116, 108, 101, 96, 32, 86, 65, 82, 67, 72, 65, 82,
        40, 49, 48, 48, 41, 32, 78, 79, 84, 32, 78, 85, 76, 76, 44, 10, 32, 32, 32, 96, 114, 117,
        110, 111, 111, 98, 95, 97, 117, 116, 104, 111, 114, 96, 32, 86, 65, 82, 67, 72, 65, 82, 40,
        52, 48, 41, 32, 78, 79, 84, 32, 78, 85, 76, 76, 44, 10, 32, 32, 32, 96, 115, 117, 98, 109,
        105, 115, 115, 105, 111, 110, 95, 100, 97, 116, 101, 96, 32, 68, 65, 84, 69, 44, 10, 32,
        32, 32, 80, 82, 73, 77, 65, 82, 89, 32, 75, 69, 89, 32, 40, 32, 96, 114, 117, 110, 111,
        111, 98, 95, 105, 100, 96, 32, 41, 10, 41, 69, 78, 71, 73, 78, 69, 61, 73, 110, 110, 111,
        68, 66, 32, 68, 69, 70, 65, 85, 76, 84, 32, 67, 72, 65, 82, 83, 69, 84, 61, 117, 116, 102,
        56, 120, 116, 234, 84,
    ]
}

#[test]
fn test_query() {
    let input = query_record();
    let (i, header) = parse_header(&input).unwrap();
    let (i, event) = parse_query(i, header.clone()).unwrap();
    assert_eq!(i.len(), 0);
    assert_eq!(
        event,
        Event::Query {
            header,
            slave_proxy_id: 3,
            execution_time: 0,
            schema_length: 4,
            schema: String::from("test"),
            error_code: 0,
            status_vars_length: 33,
            status_vars: vec![
                query::QueryStatusVar::Q_FLAGS2_CODE(query::Q_FLAGS2_CODE_VAL {
                    auto_is_null: false,
                    auto_commit: true,
                    foreign_key_checks: true,
                    unique_checks: true,
                }),
                query::QueryStatusVar::Q_SQL_MODE_CODE(query::Q_SQL_MODE_CODE_VAL {
                    real_as_float: false,
                    pipes_as_concat: false,
                    ansi_quotes: false,
                    ignore_space: false,
                    not_used: false,
                    only_full_group_by: true,
                    no_unsigned_subtraction: false,
                    no_dir_in_create: false,
                    postgresql: false,
                    oracle: false,
                    mssql: false,
                    db2: false,
                    maxdb: false,
                    no_key_options: false,
                    no_table_options: false,
                    no_field_options: false,
                    mysql323: false,
                    mysql40: false,
                    ansi: false,
                    no_auto_value_on_zero: false,
                    no_backslash_escapes: false,
                    strict_trans_tables: true,
                    strict_all_tables: false,
                    no_zero_in_date: true,
                    no_zero_date: true,
                    invalid_dates: false,
                    error_for_division_by_zero: true,
                    traditional: false,
                    no_auto_create_user: true,
                    high_not_precedence: false,
                    no_engine_substitution: true,
                    pad_char_to_full_length: false
                }),
                query::QueryStatusVar::Q_CATALOG_NZ_CODE("std".to_string()),
                query::QueryStatusVar::Q_CHARSET_CODE(33, 33, 224),
                query::QueryStatusVar::Q_UPDATED_DB_NAMES(vec!["test".to_string()])
            ],
            query: String::from("CREATE TABLE IF NOT EXISTS `runoob_tbl`(\n   `runoob_id` INT UNSIGNED AUTO_INCREMENT,\n   `runoob_title` VARCHAR(100) NOT NULL,\n   `runoob_author` VARCHAR(40) NOT NULL,\n   `submission_date` DATE,\n   PRIMARY KEY ( `runoob_id` )\n)ENGINE=InnoDB DEFAULT CHARSET=utf8"),
            checksum: 1424651384,
        }
    );
}

#[test]
fn test_write_row_v2() {
    let input: Vec<u8> = vec![
        170, 157, 253, 94, 30, 123, 0, 0, 0, 50, 0, 0, 0, 40, 3, 0, 0, 0, 0, 109, 0, 0, 0, 0, 0,
        1, 0, 2, 0, 4, 255, 240, 1, 0, 0, 0, 2, 0, 120, 100, 2, 103, 115, 226, 200, 15, 201, 254,
        227, 34,
    ];
    let (i, header) = parse_header(&input).unwrap();
    let (i, e) = parse_write_rows_v2(&i, header).unwrap();
    match e {
        Event::WriteRowsV2 {
            table_id,
            flags,
            checksum,
            ..
        } => {
            assert_eq!(i.len(), 0);
            assert_eq!(table_id, 109);
            assert_eq!(checksum, 0x22e3fec9);
            assert_eq!(
                flags,
                rows::Flags {
                    end_of_stmt: true,
                    foreign_key_checks: true,
                    unique_key_checks: true,
                    has_columns: false
                }
            )
        }
        _ => unreachable!(),
    }
}

#[test]
fn query_record_through_dispatcher() {
    let input = query_record();
    let (i, event) = Event::parse(&input).unwrap();
    assert_eq!(i.len(), 0);
    match event {
        Event::Query { schema, checksum, status_vars, .. } => {
            assert_eq!(schema, "test");
            assert_eq!(checksum, 1424651384);
            assert_eq!(status_vars.len(), 5);
        }
        _ => unreachable!(),
    }
}

#[test]
fn query_region_with_trailing_garbage_is_invariant_violation() {
    let mut input = query_record();
    // the updated-db-names count claims two names; the second has no NUL
    // inside the region
    input[19 + 13 + 27] = 2;
    assert_eq!(Event::parse(&input).unwrap_err(), ParseError::InvariantViolation);
}

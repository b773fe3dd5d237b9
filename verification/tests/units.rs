use simpledb::engine::{
    prepare_statement, print_constants, process_line, PrepareError, Statement,
};
use simpledb::layout::{EMAIL_SIZE, PAGE_SIZE, ROW_SIZE, USERNAME_SIZE};
use simpledb::node::{leaf_node_cell, leaf_node_key, leaf_node_num_cells, leaf_node_offset, leaf_node_value};
use simpledb::pager::OpenError;
use simpledb::row::Row;
use simpledb::table::{db_close, db_open, ExecutionError, Table};

fn padded(s: &str, width: usize) -> Vec<u8> {
    let mut v = s.as_bytes().to_vec();
    v.resize(width, 0u8);
    v
}

#[test]
fn row_serialize_deserialize_roundtrip() {
    let row = Row {
        id: 3141592653,
        username: padded("user1", USERNAME_SIZE),
        email: padded("person1@example.com", EMAIL_SIZE),
    };
    let mut buf = vec![0u8; ROW_SIZE];
    row.serialize(&mut buf);
    let back = Row::deserialize(&buf);
    assert_eq!(back.id, row.id);
    assert_eq!(back.username, row.username);
    assert_eq!(back.email, row.email);
}

#[test]
fn row_serialize_layout_exact() {
    let row = Row {
        id: 0x04030201,
        username: padded("ab", USERNAME_SIZE),
        email: padded("c", EMAIL_SIZE),
    };
    let mut buf = vec![0u8; ROW_SIZE];
    row.serialize(&mut buf);
    assert_eq!(&buf[0..4], &[0x01, 0x02, 0x03, 0x04]);
    assert_eq!(buf[4], b'a');
    assert_eq!(buf[5], b'b');
    assert_eq!(buf[6], 0);
    assert_eq!(buf[37], b'c');
    assert_eq!(buf[38], 0);
    assert_eq!(buf.len(), 293);
}

#[test]
fn row_render_trims_at_nul() {
    let row = Row {
        id: 7,
        username: padded("user7", USERNAME_SIZE),
        email: padded("person7@example.com", EMAIL_SIZE),
    };
    assert_eq!(row.render(), b"(7, user7, person7@example.com)".to_vec());
}

#[test]
fn prepare_insert_builds_padded_row() {
    let input = b"insert 42 alice alice@example.com".to_vec();
    match prepare_statement(&input) {
        Ok(Statement::Insert(row)) => {
            assert_eq!(row.id, 42);
            assert_eq!(row.username, padded("alice", USERNAME_SIZE));
            assert_eq!(row.email, padded("alice@example.com", EMAIL_SIZE));
        }
        other => panic!("expected an insert statement, got {:?}", other.is_ok()),
    }
}

#[test]
fn prepare_select() {
    let input = b"select".to_vec();
    assert!(matches!(prepare_statement(&input), Ok(Statement::Select)));
}

#[test]
fn prepare_negative_id() {
    let input = b"insert -1 user email".to_vec();
    assert_eq!(prepare_statement(&input).unwrap_err(), PrepareError::NegativeId);
}

#[test]
fn prepare_syntax_errors() {
    let three = b"insert 1 only".to_vec();
    assert_eq!(prepare_statement(&three).unwrap_err(), PrepareError::SyntaxError);
    let bad_id = b"insert x user email".to_vec();
    assert_eq!(prepare_statement(&bad_id).unwrap_err(), PrepareError::SyntaxError);
    let huge_id = b"insert 99999999999999999999 user email".to_vec();
    assert_eq!(prepare_statement(&huge_id).unwrap_err(), PrepareError::SyntaxError);
}

#[test]
fn prepare_unrecognized_keyword() {
    let input = b"update 1 a b".to_vec();
    assert_eq!(
        prepare_statement(&input).unwrap_err(),
        PrepareError::UnrecognizedKeyword(b"update 1 a b".to_vec())
    );
}

#[test]
fn prepare_boundary_lengths() {
    let ok = format!("insert 1 {} {}", "u".repeat(32), "e".repeat(255));
    assert!(prepare_statement(&ok.as_bytes().to_vec()).is_ok());
    let long_user = format!("insert 1 {} e", "u".repeat(33));
    assert_eq!(
        prepare_statement(&long_user.as_bytes().to_vec()).unwrap_err(),
        PrepareError::StringTooLong
    );
    let long_email = format!("insert 1 u {}", "e".repeat(256));
    assert_eq!(
        prepare_statement(&long_email.as_bytes().to_vec()).unwrap_err(),
        PrepareError::StringTooLong
    );
}

#[test]
fn prepare_id_wraps_like_a_u32() {
    let input = b"insert 4294967297 user email".to_vec();
    match prepare_statement(&input) {
        Ok(Statement::Insert(row)) => assert_eq!(row.id, 1),
        _ => panic!("expected an insert statement"),
    }
}

#[test]
fn open_rejects_partial_pages() {
    let file = vec![0u8; PAGE_SIZE + 1];
    assert_eq!(db_open(file).unwrap_err(), OpenError::NotWholePages);
}

#[test]
fn open_rejects_oversized_files() {
    let file = vec![0u8; PAGE_SIZE * 101];
    assert_eq!(db_open(file).unwrap_err(), OpenError::PastMaxPages);
}

#[test]
fn open_rejects_corrupt_cell_count() {
    let mut file = vec![0u8; PAGE_SIZE];
    // A stored cell count past the leaf's capacity.
    file[6] = 200;
    assert_eq!(db_open(file).unwrap_err(), OpenError::CorruptRoot);
}

#[test]
fn open_empty_file_makes_empty_leaf() {
    let mut table: Table = db_open(Vec::new()).unwrap();
    let (out, exit) = process_line(&b"select".to_vec(), &mut table);
    assert!(!exit);
    assert_eq!(out, b"Executed.\n".to_vec());
    let bytes = db_close(table);
    assert_eq!(bytes.len(), PAGE_SIZE);
    assert!(bytes.iter().all(|b| *b == 0));
}

#[test]
fn close_persists_exact_row_bytes() {
    let mut table: Table = db_open(Vec::new()).unwrap();
    let long_username = "u".repeat(32);
    let long_email = "e".repeat(255);
    let line = format!("insert 4000000000 {} {}", long_username, long_email);
    let (out, _) = process_line(&line.as_bytes().to_vec(), &mut table);
    assert_eq!(out, b"Executed.\n".to_vec());
    let bytes = db_close(table);

    // The stored cell: count 1, then key and row at the first cell.
    assert_eq!(&bytes[6..10], &1u32.to_le_bytes());
    assert_eq!(&bytes[10..14], &4000000000u32.to_le_bytes());
    let mut expected_row = vec![0u8; ROW_SIZE];
    Row {
        id: 4000000000,
        username: padded(&long_username, USERNAME_SIZE),
        email: padded(&long_email, EMAIL_SIZE),
    }
    .serialize(&mut expected_row);
    assert_eq!(&bytes[14..14 + ROW_SIZE], expected_row.as_slice());

    // Reopening scans the identical row back.
    let mut table: Table = db_open(bytes).unwrap();
    let (out, _) = process_line(&b"select".to_vec(), &mut table);
    let expected = format!("({}, {}, {})\nExecuted.\n", 4000000000u32, long_username, long_email);
    assert_eq!(out, expected.as_bytes().to_vec());
    db_close(table);
}

#[test]
fn thirteen_inserts_fill_the_leaf() {
    let mut table: Table = db_open(Vec::new()).unwrap();
    for i in 0..13 {
        let line = format!("insert {} user{} person{}@example.com", i, i, i);
        let (out, _) = process_line(&line.as_bytes().to_vec(), &mut table);
        assert_eq!(out, b"Executed.\n".to_vec(), "insert number {}", i);
    }
    let (out, _) = process_line(&b"insert 13 user13 person13@example.com".to_vec(), &mut table);
    assert_eq!(out, b"Error: table full\n".to_vec());
    db_close(table);
}

#[test]
fn unknown_meta_command_reports_both_errors() {
    let mut table: Table = db_open(Vec::new()).unwrap();
    let (out, exit) = process_line(&b".foo".to_vec(), &mut table);
    assert!(!exit);
    assert_eq!(
        out,
        b"Error: unrecognized command '.foo'\nError: unrecognized keyword at start of '.foo'\n"
            .to_vec()
    );
    db_close(table);
}

#[test]
fn execution_error_message() {
    assert_eq!(ExecutionError::TableFull.message(), b"table full".to_vec());
}

#[test]
fn constants_text_exact() {
    assert_eq!(
        print_constants(),
        b"ROW_SIZE: 293\nCOMMON_NODE_HEADER_SIZE: 6\nLEAF_NODE_HEADER_SIZE: 10\nLEAF_NODE_CELL_SIZE: 297\nLEAF_NODE_SPACE_FOR_CELLS: 4086\nLEAF_NODE_MAX_CELLS: 13\n"
            .to_vec()
    );
}

#[test]
fn cell_offsets_follow_the_layout() {
    assert_eq!(leaf_node_offset(0), 10);
    assert_eq!(leaf_node_offset(1), 307);
    assert_eq!(leaf_node_offset(13), 3871);
}

#[test]
fn fresh_leaf_has_no_cells() {
    let table: Table = db_open(Vec::new()).unwrap();
    let bytes = db_close(table);
    assert_eq!(leaf_node_num_cells(&bytes[0..PAGE_SIZE].to_vec()), 0);
}

#[test]
fn ordered_inserts_keep_ordered_keys() {
    let mut table: Table = db_open(Vec::new()).unwrap();
    for i in [1, 2, 3].iter() {
        let line = format!("insert {} user{} person{}@example.com", i, i, i);
        process_line(&line.as_bytes().to_vec(), &mut table);
    }
    let (out, _) = process_line(&b".btree".to_vec(), &mut table);
    assert_eq!(
        out,
        b"Tree:\nleaf (size 3)\n  - 0 : 1\n  - 1 : 2\n  - 2 : 3\n".to_vec()
    );
    db_close(table);
}

#[test]
fn cursor_scan_reads_stored_cells() {
    let mut table: Table = db_open(Vec::new()).unwrap();
    process_line(&b"insert 9 niner nine@example.com".to_vec(), &mut table);
    let cursor = table.table_start();
    assert!(!cursor.end_of_table);
    let bytes = cursor.value(&mut table);
    let row = Row::deserialize(&bytes);
    assert_eq!(row.id, 9);
    assert_eq!(row.username, padded("niner", USERNAME_SIZE));
    db_close(table);
}

#[test]
fn node_accessors_read_the_written_cell() {
    let mut table: Table = db_open(Vec::new()).unwrap();
    process_line(&b"insert 5 five five@example.com".to_vec(), &mut table);
    let page = db_close(table)[0..PAGE_SIZE].to_vec();
    assert_eq!(leaf_node_num_cells(&page), 1);
    assert_eq!(leaf_node_key(&page, 0), 5);
    let cell = leaf_node_cell(&page, 0);
    assert_eq!(cell.len(), 297);
    assert_eq!(&cell[0..4], &5u32.to_le_bytes());
    let value = leaf_node_value(&page, 0);
    assert_eq!(value.len(), ROW_SIZE);
    let row = Row::deserialize(&value);
    assert_eq!(row.id, 5);
    assert_eq!(row.username, padded("five", USERNAME_SIZE));
    assert_eq!(row.email, padded("five@example.com", EMAIL_SIZE));
}

#[test]
fn embedded_nul_displays_truncated() {
    let mut username = padded("ab", USERNAME_SIZE);
    username[2] = 0;
    username[3] = b'c';
    let row = Row {
        id: 1,
        username,
        email: padded("e", EMAIL_SIZE),
    };
    assert_eq!(row.render(), b"(1, ab, e)".to_vec());
}

#[test]
fn plus_signed_id_is_accepted() {
    let input = b"insert +5 user email".to_vec();
    match prepare_statement(&input) {
        Ok(Statement::Insert(row)) => assert_eq!(row.id, 5),
        _ => panic!("expected an insert statement"),
    }
}

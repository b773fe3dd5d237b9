use simpledb::engine::process_line;
use simpledb::table::{db_close, db_open, Table};

/// Feed `input` line by line to a table opened over `file`, collecting
/// the transcript exactly as the command loop prints it: a prompt before
/// each line, then that line's output.  Returns the transcript and the
/// file bytes after closing.
fn run_session(input: &str, file: Vec<u8>) -> (String, Vec<u8>) {
    let mut table: Table = db_open(file).unwrap();
    let mut transcript: Vec<u8> = Vec::new();
    for line in input.lines() {
        transcript.extend_from_slice(b"db > ");
        let (out, exit) = process_line(&line.as_bytes().to_vec(), &mut table);
        if exit {
            break;
        }
        transcript.extend_from_slice(&out);
    }
    let bytes = db_close(table);
    (String::from_utf8(transcript).unwrap(), bytes)
}

#[test]
fn insert_and_retrieve() {
    let (transcript, _) = run_session(
        "insert 1 user1 person1@example.com\n        select\n        .exit\n        ",
        Vec::new(),
    );
    assert_eq!(
        transcript,
        "db > Executed.\ndb > (1, user1, person1@example.com)\nExecuted.\ndb > "
    );
}

#[test]
fn table_full() {
    let mut buf = String::new();
    for i in 0..=1400 {
        buf.push_str(&format!("insert {} user{} person{}@example.com\n", i, i, i));
    }
    buf.push_str(".exit\n");
    let (transcript, _) = run_session(&buf, Vec::new());
    assert!(transcript.ends_with("db > Error: table full\ndb > "));
}

#[test]
fn insert_maximum_length() {
    let long_username = "a".repeat(32);
    let long_email = "a".repeat(255);
    let (transcript, _) = run_session(
        &format!(
            "insert 1 {} {}\n        select\n        .exit\n        ",
            long_username, long_email
        ),
        Vec::new(),
    );
    assert_eq!(
        transcript,
        format!(
            "db > Executed.\ndb > (1, {}, {})\nExecuted.\ndb > ",
            long_username, long_email
        )
    );
}

#[test]
fn insert_too_long() {
    let long_username = "a".repeat(33);
    let long_email = "a".repeat(256);
    let (transcript, _) = run_session(
        &format!(
            "insert 1 {} {}\n        select\n        .exit\n        ",
            long_username, long_email
        ),
        Vec::new(),
    );
    assert!(transcript.starts_with("db > Error: string is too long\ndb > Executed.\ndb > "));
}

#[test]
fn keep_data_after_closing_connection() {
    let (transcript, bytes) = run_session("insert 1 user1 person1@example.com\n.exit", Vec::new());
    assert_eq!(transcript, "db > Executed.\ndb > ");

    let (transcript, _) = run_session("select\n.exit", bytes);
    assert_eq!(
        transcript,
        "db > (1, user1, person1@example.com)\nExecuted.\ndb > "
    );
}

#[test]
fn print_constants() {
    let (transcript, _) = run_session(".constants\n.exit", Vec::new());
    assert_eq!(
        transcript,
        "db > Constants:\nROW_SIZE: 293\nCOMMON_NODE_HEADER_SIZE: 6\nLEAF_NODE_HEADER_SIZE: 10\nLEAF_NODE_CELL_SIZE: 297\nLEAF_NODE_SPACE_FOR_CELLS: 4086\nLEAF_NODE_MAX_CELLS: 13\ndb > "
    );
}

#[test]
fn print_leaf_node() {
    let mut buf = String::new();
    for i in [3, 1, 2].iter() {
        buf.push_str(&format!("insert {} user{} person{}@example.com\n", i, i, i));
    }
    buf.push_str(".btree\n");
    buf.push_str(".exit\n");
    let (transcript, _) = run_session(&buf, Vec::new());
    assert_eq!(
        transcript,
        "db > Executed.\ndb > Executed.\ndb > Executed.\ndb > Tree:\nleaf (size 3)\n  - 0 : 3\n  - 1 : 1\n  - 2 : 2\ndb > "
    );
}

use pipidb::{
    do_meta_command, execute_statement, format_row, parse_id, prepare_statement, process_line,
    split_tokens, ExecuteResult, InputBuffer, InsertResult, MetaCommandResult, PrepareResult,
    Reply, Row, Statement, StatementType, Table, TABLE_MAX_ROWS,
};

fn line(s: &str) -> InputBuffer {
    let mut b = InputBuffer::new();
    b.read_line(s.as_bytes());
    b
}

fn run(t: &mut Table, s: &str) -> Reply {
    process_line(t, &mut line(s))
}

fn selected(t: &mut Table) -> Vec<Vec<u8>> {
    match run(t, "select") {
        Reply::Executed(rows) => rows.iter().map(format_row).collect(),
        _ => panic!("select did not run"),
    }
}

fn row(id: u32, username: &str, email: &str) -> Row {
    Row { id, username: username.as_bytes().to_vec(), email: email.as_bytes().to_vec() }
}

#[test]
fn read_line_strips_terminators() {
    let b = line("select\r\n");
    assert_eq!(b.input_length(), 6);
    let b = line("select\n");
    assert_eq!(b.input_length(), 6);
    let b = line("select");
    assert_eq!(b.input_length(), 6);
    let b = line("\n");
    assert_eq!(b.input_length(), 0);
    let b = line("insert 1 a b\r\n");
    assert_eq!(b.line(), b"insert 1 a b");
    let b = line("x\r");
    assert_eq!(b.line(), b"x\r");
}

#[test]
fn tokens_split_on_blanks() {
    let t = split_tokens(b"  a  bb\tc ");
    assert_eq!(t, vec![b"a".to_vec(), b"bb".to_vec(), b"c".to_vec()]);
    assert!(split_tokens(b"   ").is_empty());
    assert!(split_tokens(b"").is_empty());
}

#[test]
fn parse_id_accepts_decimal_u32_only() {
    assert_eq!(parse_id(&b"42".to_vec()), Some(42));
    assert_eq!(parse_id(&b"007".to_vec()), Some(7));
    assert_eq!(parse_id(&b"4294967295".to_vec()), Some(u32::MAX));
    assert_eq!(parse_id(&b"4294967296".to_vec()), None);
    assert_eq!(parse_id(&b"99999999999999999999".to_vec()), None);
    assert_eq!(parse_id(&b"-1".to_vec()), None);
    assert_eq!(parse_id(&b"1a".to_vec()), None);
    assert_eq!(parse_id(&b"".to_vec()), None);
}

#[test]
fn prepare_insert_fills_statement() {
    let mut st = Statement::new();
    let r = prepare_statement(&mut line("insert 1 alice alice@example.com"), &mut st);
    assert_eq!(r, PrepareResult::PrepareSuccess);
    assert_eq!(st.statement_type, StatementType::StatementInsert);
    assert_eq!(st.row_to_insert.id, 1);
    assert_eq!(st.row_to_insert.username, b"alice".to_vec());
    assert_eq!(st.row_to_insert.email, b"alice@example.com".to_vec());
}

#[test]
fn prepare_select_and_unrecognized() {
    let mut st = Statement::new();
    assert_eq!(prepare_statement(&mut line("select"), &mut st), PrepareResult::PrepareSuccess);
    assert_eq!(st.statement_type, StatementType::StatementSelect);
    let mut st = Statement::new();
    assert_eq!(prepare_statement(&mut line("select "), &mut st), PrepareResult::PrepareUnrecognizedStatement);
    assert_eq!(prepare_statement(&mut line("foo"), &mut st), PrepareResult::PrepareUnrecognizedStatement);
    assert_eq!(prepare_statement(&mut line(""), &mut st), PrepareResult::PrepareUnrecognizedStatement);
    assert_eq!(st.statement_type, StatementType::StatementNone);
}

#[test]
fn prepare_insert_syntax_errors() {
    for s in [
        "insert",
        "insert 1 alice",
        "insert 1 alice a@b extra",
        "insert x alice a@b",
        "insert -1 alice a@b",
        "insert 4294967296 alice a@b",
        "insertx 1 alice a@b",
        "insert 1 al\0ice a@b",
    ] {
        let mut st = Statement::new();
        assert_eq!(prepare_statement(&mut line(s), &mut st), PrepareResult::PrepareSyntaxError, "{}", s);
        assert_eq!(st.statement_type, StatementType::StatementNone);
    }
}

#[test]
fn prepare_field_width_limits() {
    let u32s = "u".repeat(32);
    let u33 = "u".repeat(33);
    let e255 = "e".repeat(255);
    let e256 = "e".repeat(256);
    let mut st = Statement::new();
    let ok = format!("insert 5 {} {}", u32s, e255);
    assert_eq!(prepare_statement(&mut line(&ok), &mut st), PrepareResult::PrepareSuccess);
    let mut st = Statement::new();
    let long_user = format!("insert 5 {} e", u33);
    assert_eq!(prepare_statement(&mut line(&long_user), &mut st), PrepareResult::PrepareFieldTooLong);
    let long_email = format!("insert 5 u {}", e256);
    assert_eq!(prepare_statement(&mut line(&long_email), &mut st), PrepareResult::PrepareFieldTooLong);
    assert_eq!(st.statement_type, StatementType::StatementNone);
}

#[test]
fn meta_commands() {
    assert_eq!(do_meta_command(&mut line(".exit")), MetaCommandResult::MetaCommandExit);
    assert_eq!(do_meta_command(&mut line(".exit\r\n")), MetaCommandResult::MetaCommandExit);
    assert_eq!(do_meta_command(&mut line(".tables")), MetaCommandResult::MetaCommandUnrecognizedCommand);
    assert_eq!(do_meta_command(&mut line(".exit now")), MetaCommandResult::MetaCommandUnrecognizedCommand);
}

#[test]
fn insert_then_select_shows_row() {
    let mut t = Table::new();
    assert!(matches!(run(&mut t, "insert 1 alice alice@example.com"), Reply::Executed(ref r) if r.is_empty()));
    assert_eq!(selected(&mut t), vec![b"(1, alice, alice@example.com)".to_vec()]);
}

#[test]
fn overlong_username_is_rejected_and_table_unchanged() {
    let mut t = Table::new();
    let r = run(&mut t, "insert 1 averyveryveryveryverylongusernamethatexceedsthirtytwobytes x@x.com");
    assert!(matches!(r, Reply::FieldTooLong));
    assert_eq!(t.num_rows(), 0);
    assert!(selected(&mut t).is_empty());
}

#[test]
fn unrecognized_statement_leaves_table() {
    let mut t = Table::new();
    run(&mut t, "insert 3 c c@c");
    assert!(matches!(run(&mut t, "foo"), Reply::UnrecognizedStatement));
    assert!(matches!(run(&mut t, ""), Reply::UnrecognizedStatement));
    assert_eq!(t.num_rows(), 1);
    assert_eq!(selected(&mut t), vec![b"(3, c, c@c)".to_vec()]);
}

#[test]
fn exit_and_unknown_meta_commands() {
    let mut t = Table::new();
    assert!(matches!(run(&mut t, ".exit"), Reply::Exit));
    assert!(matches!(run(&mut t, ".foo"), Reply::UnrecognizedMetaCommand));
    assert!(matches!(run(&mut t, "insert 1"), Reply::SyntaxError));
    assert_eq!(t.num_rows(), 0);
}

#[test]
fn repeated_select_is_identical() {
    let mut t = Table::new();
    run(&mut t, "insert 1 a a@a");
    run(&mut t, "insert 2 b b@b");
    let first = selected(&mut t);
    let second = selected(&mut t);
    assert_eq!(first, second);
    assert_eq!(first.len(), 2);
    assert_eq!(t.num_rows(), 2);
}

#[test]
fn inserts_come_back_in_order() {
    let mut t = Table::new();
    for i in 0..40u32 {
        let r = row(1000 - i, &format!("user{}", i), &format!("u{}@mail.org", i));
        assert_eq!(t.insert(&r), InsertResult::Inserted);
    }
    let rows = t.select();
    assert_eq!(rows.len(), 40);
    for (i, r) in rows.iter().enumerate() {
        assert_eq!(r.id, 1000 - i as u32);
        assert_eq!(r.username, format!("user{}", i).into_bytes());
        assert_eq!(r.email, format!("u{}@mail.org", i).into_bytes());
    }
}

#[test]
fn table_full_after_capacity() {
    let mut t = Table::default();
    for i in 0..TABLE_MAX_ROWS {
        assert_eq!(t.insert(&row(i as u32, "n", "e")), InsertResult::Inserted);
    }
    assert_eq!(t.num_rows(), TABLE_MAX_ROWS);
    assert_eq!(t.insert(&row(9999, "late", "late@x")), InsertResult::TableFull);
    assert_eq!(t.num_rows(), TABLE_MAX_ROWS);
    assert!(matches!(run(&mut t, "insert 1 a b"), Reply::TableFull));
    let rows = t.select();
    assert_eq!(rows.len(), TABLE_MAX_ROWS);
    assert_eq!(rows[TABLE_MAX_ROWS - 1].id, (TABLE_MAX_ROWS - 1) as u32);
    assert_eq!(rows[14].id, 14);
}

#[test]
fn execute_statement_dispatches() {
    let mut t = Table::new();
    let mut st = Statement::new();
    assert!(matches!(execute_statement(&st, &mut t), ExecuteResult::ExecuteSuccess(ref r) if r.is_empty()));
    st.statement_type = StatementType::StatementInsert;
    st.row_to_insert = row(8, "h", "h@h");
    assert!(matches!(execute_statement(&st, &mut t), ExecuteResult::ExecuteSuccess(ref r) if r.is_empty()));
    st.statement_type = StatementType::StatementSelect;
    match execute_statement(&st, &mut t) {
        ExecuteResult::ExecuteSuccess(rows) => {
            assert_eq!(rows.len(), 1);
            assert_eq!(format_row(&rows[0]), b"(8, h, h@h)".to_vec());
        }
        ExecuteResult::ExecuteTableFull => panic!("table is not full"),
    }
}

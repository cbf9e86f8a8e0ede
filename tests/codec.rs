use pipidb::{
    deserialize_row, format_row, row_slot, serialize_row, PageStore, Row, COLUMN_EMAIL_SIZE,
    COLUMN_USERNAME_SIZE, EMAIL_OFFSET, PAGE_SIZE, ROWS_PER_PAGE, ROW_SIZE, TABLE_MAX_PAGES,
    TABLE_MAX_ROWS, USER_NAME_OFFSET,
};

fn row(id: u32, username: &str, email: &str) -> Row {
    Row { id, username: username.as_bytes().to_vec(), email: email.as_bytes().to_vec() }
}

#[test]
fn geometry_constants() {
    assert_eq!(ROW_SIZE, 291);
    assert_eq!(USER_NAME_OFFSET, 4);
    assert_eq!(EMAIL_OFFSET, 36);
    assert_eq!(ROWS_PER_PAGE, 14);
    assert_eq!(TABLE_MAX_ROWS, 1400);
    assert_eq!(PAGE_SIZE, 4096);
    assert_eq!(TABLE_MAX_PAGES, 100);
}

#[test]
fn serialize_lays_out_fields_at_fixed_offsets() {
    let b = serialize_row(&row(0x0102_0304, "bob", "b@x.io"));
    assert_eq!(b.len(), ROW_SIZE);
    assert_eq!(&b[0..4], &[4u8, 3, 2, 1]);
    assert_eq!(&b[4..7], b"bob");
    assert!(b[7..36].iter().all(|&x| x == 0));
    assert_eq!(&b[36..42], b"b@x.io");
    assert!(b[42..].iter().all(|&x| x == 0));
}

#[test]
fn round_trip_keeps_record() {
    let r = row(7, "alice", "alice@example.com");
    let back = deserialize_row(&serialize_row(&r));
    assert_eq!(back.id, 7);
    assert_eq!(back.username, b"alice".to_vec());
    assert_eq!(back.email, b"alice@example.com".to_vec());
}

#[test]
fn round_trip_full_width_fields() {
    let u = "u".repeat(COLUMN_USERNAME_SIZE);
    let e = "e".repeat(COLUMN_EMAIL_SIZE);
    let r = row(u32::MAX, &u, &e);
    let back = deserialize_row(&serialize_row(&r));
    assert_eq!(back.id, u32::MAX);
    assert_eq!(back.username, u.as_bytes().to_vec());
    assert_eq!(back.email, e.as_bytes().to_vec());
}

#[test]
fn round_trip_empty_fields() {
    let back = deserialize_row(&serialize_row(&row(0, "", "")));
    assert_eq!(back.id, 0);
    assert!(back.username.is_empty());
    assert!(back.email.is_empty());
}

#[test]
fn new_row_is_empty() {
    let r = Row::new();
    assert_eq!(r.id, 0);
    assert!(r.username.is_empty());
    assert!(r.email.is_empty());
}

#[test]
fn row_slots_follow_page_arithmetic() {
    assert_eq!(row_slot(0), (0, 0));
    assert_eq!(row_slot(1), (0, 291));
    assert_eq!(row_slot(13), (0, 13 * 291));
    assert_eq!(row_slot(14), (1, 0));
    assert_eq!(row_slot(29), (2, 291));
    assert_eq!(row_slot(1399), (99, 13 * 291));
}

#[test]
fn row_slots_never_overlap() {
    let mut seen = std::collections::HashSet::new();
    for i in 0..TABLE_MAX_ROWS {
        let (p, off) = row_slot(i);
        assert!(off + ROW_SIZE <= PAGE_SIZE);
        for k in off..off + ROW_SIZE {
            assert!(seen.insert((p, k)));
        }
    }
}

#[test]
fn page_store_writes_and_reads_rows() {
    let mut store = PageStore::new();
    let a = serialize_row(&row(1, "a", "a@a"));
    let b = serialize_row(&row(2, "b", "b@b"));
    store.write_row(14, &a);
    store.write_row(15, &b);
    store.write_row(0, &b);
    assert_eq!(store.read_row(14), a);
    assert_eq!(store.read_row(15), b);
    assert_eq!(store.read_row(0), b);
}

#[test]
fn format_row_gives_tuple_text() {
    let t = format_row(&row(1, "alice", "alice@example.com"));
    assert_eq!(t, b"(1, alice, alice@example.com)".to_vec());
    let t = format_row(&row(4294967295, "x", "y"));
    assert_eq!(t, b"(4294967295, x, y)".to_vec());
    let t = format_row(&row(0, "", ""));
    assert_eq!(t, b"(0, , )".to_vec());
}

#[test]
fn fresh_page_is_zero_outside_written_row() {
    let mut store = PageStore::new();
    let a = serialize_row(&row(3, "c", "c@c"));
    store.write_row(15, &a);
    assert_eq!(store.read_row(15), a);
    assert_eq!(store.read_row(14), vec![0u8; ROW_SIZE]);
    assert_eq!(store.read_row(27), vec![0u8; ROW_SIZE]);
}

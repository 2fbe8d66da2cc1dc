use minidb::errors::ErrorKind;
use minidb::row::Row;
use minidb::table::{Table, TABLE_MAX_ROWS};

fn row(id: i32, username: &str, email: &str) -> Row {
    Row { id, username: username.as_bytes().to_vec(), email: email.as_bytes().to_vec() }
}

#[test]
fn insert_then_scan_one_row() {
    let mut t = Table::new();
    assert_eq!(t.row_count(), 0);
    t.insert(&row(1, "alice", "alice@example.com")).unwrap();
    assert_eq!(t.row_count(), 1);
    let rows = t.scan();
    assert_eq!(rows.len(), 1);
    assert_eq!(rows[0].id, 1);
    assert_eq!(rows[0].username, b"alice".to_vec());
    assert_eq!(rows[0].email, b"alice@example.com".to_vec());
}

#[test]
fn scan_yields_insertion_order_not_sorted() {
    let mut t = Table::new();
    for id in [5, 1, 9] {
        t.insert(&row(id, "u", "e")).unwrap();
    }
    let ids: Vec<i32> = t.scan().iter().map(|r| r.id).collect();
    assert_eq!(ids, vec![5, 1, 9]);
}

#[test]
fn scan_is_restartable_and_read_only() {
    let mut t = Table::new();
    t.insert(&row(3, "u", "e")).unwrap();
    t.insert(&row(4, "v", "f")).unwrap();
    let first: Vec<i32> = t.scan().iter().map(|r| r.id).collect();
    let second: Vec<i32> = t.scan().iter().map(|r| r.id).collect();
    assert_eq!(first, second);
    assert_eq!(t.row_count(), 2);
}

#[test]
fn capacity_fills_then_table_full() {
    let mut t = Table::new();
    for i in 0..TABLE_MAX_ROWS {
        t.insert(&row(i as i32, "u", "e")).unwrap();
    }
    assert_eq!(t.row_count(), TABLE_MAX_ROWS);
    assert_eq!(t.insert(&row(-1, "u", "e")), Err(ErrorKind::TableFull));
    assert_eq!(t.row_count(), TABLE_MAX_ROWS);
    let rows = t.scan();
    assert_eq!(rows.len(), TABLE_MAX_ROWS);
    assert_eq!(rows[0].id, 0);
    assert_eq!(rows[TABLE_MAX_ROWS - 1].id, (TABLE_MAX_ROWS - 1) as i32);
}

#[test]
fn username_32_bytes_inserts_33_fails() {
    let mut t = Table::new();
    let exact = "x".repeat(32);
    assert!(t.insert(&row(1, &exact, "e")).is_ok());
    let over = "x".repeat(33);
    assert_eq!(t.insert(&row(2, &over, "e")), Err(ErrorKind::FieldTooLong));
    assert_eq!(t.row_count(), 1);
}

#[test]
fn duplicate_ids_are_allowed() {
    let mut t = Table::new();
    t.insert(&row(7, "a", "e")).unwrap();
    t.insert(&row(7, "b", "f")).unwrap();
    let rows = t.scan();
    assert_eq!(rows.len(), 2);
    assert_eq!(rows[0].username, b"a".to_vec());
    assert_eq!(rows[1].username, b"b".to_vec());
}

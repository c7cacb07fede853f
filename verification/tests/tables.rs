use pixelchart::{Admin, ConnectedUser, Identity, Pixel, StoreError, Table, Timestamp};

fn key(n: u128) -> Identity {
    Identity { hi: 0, lo: n }
}

fn cell(position: u32, color: &str, micros: i64) -> Pixel {
    Pixel {
        position,
        color: color.to_string(),
        last_modified_by: key(1),
        timestamp: Timestamp { micros },
    }
}

#[test]
fn new_table_is_empty() {
    let table: Table<Pixel> = Table::new();
    assert_eq!(table.len(), 0);
    assert!(table.is_empty());
    assert!(table.scan().is_empty());
    assert!(table.get(&0).is_none());
    assert!(!table.contains(&0));
}

#[test]
fn insert_then_get_returns_the_row() {
    let mut table: Table<Pixel> = Table::new();
    assert_eq!(table.insert(cell(7, "#00ff00", 3)), Ok(()));
    assert_eq!(table.len(), 1);
    assert!(!table.is_empty());
    assert!(table.contains(&7));
    assert_eq!(table.get(&7), Some(&cell(7, "#00ff00", 3)));
    assert_eq!(table.get(&8), None);
}

#[test]
fn insert_of_an_existing_key_fails_with_duplicate_key() {
    let mut table: Table<Pixel> = Table::new();
    assert_eq!(table.insert(cell(7, "#00ff00", 3)), Ok(()));
    assert_eq!(table.insert(cell(7, "#0000ff", 4)), Err(StoreError::DuplicateKey));
    assert_eq!(table.len(), 1);
    assert_eq!(table.get(&7), Some(&cell(7, "#00ff00", 3)));
}

#[test]
fn update_of_a_missing_key_fails_with_not_found() {
    let mut table: Table<Pixel> = Table::new();
    assert_eq!(table.update(cell(7, "#00ff00", 3)), Err(StoreError::NotFound));
    assert_eq!(table.len(), 0);
    assert_eq!(table.insert(cell(8, "#00ff00", 3)), Ok(()));
    assert_eq!(table.update(cell(7, "#00ff00", 3)), Err(StoreError::NotFound));
    assert_eq!(table.len(), 1);
    assert_eq!(table.get(&7), None);
}

#[test]
fn update_replaces_the_row_of_its_key() {
    let mut table: Table<Pixel> = Table::new();
    assert_eq!(table.insert(cell(1, "#111111", 1)), Ok(()));
    assert_eq!(table.insert(cell(2, "#222222", 2)), Ok(()));
    assert_eq!(table.update(cell(1, "#aaaaaa", 9)), Ok(()));
    assert_eq!(table.len(), 2);
    assert_eq!(table.get(&1), Some(&cell(1, "#aaaaaa", 9)));
    assert_eq!(table.get(&2), Some(&cell(2, "#222222", 2)));
}

#[test]
fn upsert_inserts_first_and_replaces_after() {
    let mut table: Table<ConnectedUser> = Table::new();
    let first = ConnectedUser { identity: key(5), connected_at: Timestamp { micros: 1 } };
    let second = ConnectedUser { identity: key(5), connected_at: Timestamp { micros: 2 } };
    assert!(!table.upsert(first));
    assert_eq!(table.get(&key(5)), Some(&first));
    assert!(table.upsert(second));
    assert_eq!(table.len(), 1);
    assert_eq!(table.get(&key(5)), Some(&second));
}

#[test]
fn delete_reports_whether_a_row_was_removed() {
    let mut table: Table<Admin> = Table::new();
    assert!(!table.delete(&key(1)));
    assert_eq!(table.insert(Admin { identity: key(1) }), Ok(()));
    assert_eq!(table.insert(Admin { identity: key(2) }), Ok(()));
    assert_eq!(table.insert(Admin { identity: key(3) }), Ok(()));
    assert!(table.delete(&key(2)));
    assert!(!table.delete(&key(2)));
    assert_eq!(table.len(), 2);
    assert!(table.contains(&key(1)));
    assert!(!table.contains(&key(2)));
    assert!(table.contains(&key(3)));
}

#[test]
fn keys_differ_in_either_half() {
    let mut table: Table<Admin> = Table::new();
    assert_eq!(table.insert(Admin { identity: Identity { hi: 1, lo: 0 } }), Ok(()));
    assert_eq!(table.insert(Admin { identity: Identity { hi: 0, lo: 1 } }), Ok(()));
    assert_eq!(
        table.insert(Admin { identity: Identity { hi: 1, lo: 0 } }),
        Err(StoreError::DuplicateKey)
    );
    assert_eq!(table.len(), 2);
    assert!(!table.contains(&Identity { hi: 1, lo: 1 }));
}

#[test]
fn scan_yields_each_row_once() {
    let mut table: Table<Pixel> = Table::new();
    for position in [9u32, 3, 6] {
        assert_eq!(table.insert(cell(position, "#123456", 1)), Ok(()));
    }
    assert!(table.upsert(cell(3, "#654321", 2)));
    let mut seen: Vec<u32> = table.scan().iter().map(|row| row.position).collect();
    assert_eq!(seen.len(), 3);
    seen.sort();
    assert_eq!(seen, vec![3, 6, 9]);
    let again: Vec<u32> = table.scan().iter().map(|row| row.position).collect();
    let first: Vec<u32> = table.scan().iter().map(|row| row.position).collect();
    assert_eq!(first, again);
}

#[test]
fn clear_removes_every_row() {
    let mut table: Table<Pixel> = Table::new();
    assert_eq!(table.insert(cell(1, "#111111", 1)), Ok(()));
    assert_eq!(table.insert(cell(2, "#222222", 2)), Ok(()));
    table.clear();
    assert_eq!(table.len(), 0);
    assert!(table.is_empty());
    assert_eq!(table.get(&1), None);
    assert_eq!(table.insert(cell(1, "#333333", 3)), Ok(()));
    assert_eq!(table.get(&1), Some(&cell(1, "#333333", 3)));
}

#[test]
fn timestamps_compare_by_their_microseconds() {
    let early = Timestamp { micros: -5 };
    let late = Timestamp { micros: 5 };
    assert!(early.not_after(&late));
    assert!(early.not_after(&early));
    assert!(!late.not_after(&early));
}

#[test]
fn copies_of_rows_are_equal_to_them() {
    let row = cell(4, "#abcdef", 8);
    assert_eq!(row.clone(), row);
    let profile = pixelchart::User {
        identity: key(2),
        clerk_id: "acct-2".to_string(),
        email: Some("b@x.org".to_string()),
        username: None,
        last_active: Timestamp { micros: 4 },
    };
    assert_eq!(profile.clone(), profile);
}

use pixelchart::{
    add_admin, check_position, clear_grid, identity_connected, identity_disconnected, is_admin,
    is_present, may_bootstrap, paint, remove_admin, sync_clerk_user, view_at_time, Admin,
    AuthError, Change, ConnectedUser, Identity, Pixel, ReducerContext, Store, Table, Timestamp,
    User, ValidationError, GRID_CELLS, GRID_SIZE,
};

fn ident(n: u128) -> Identity {
    Identity { hi: 0, lo: n }
}

fn at(micros: i64) -> Timestamp {
    Timestamp { micros }
}

fn fresh(sender: Identity, micros: i64) -> ReducerContext {
    ReducerContext { sender, timestamp: at(micros), db: Store::new() }
}

fn text(s: &str) -> Option<String> {
    Some(s.to_string())
}

/// A store in which `sender` is connected and has a profile, with an empty journal.
fn painter(sender: Identity) -> ReducerContext {
    let mut ctx = fresh(sender, 1);
    identity_connected(&mut ctx);
    assert_eq!(sync_clerk_user(&mut ctx, "acct-1".to_string(), None, None), Ok(()));
    ctx.db.take_changes();
    ctx
}

fn red(position: u32, by: Identity, micros: i64) -> Pixel {
    Pixel {
        position,
        color: "#ff0000".to_string(),
        last_modified_by: by,
        timestamp: at(micros),
    }
}

#[test]
fn grid_has_1024_cells() {
    assert_eq!(GRID_SIZE, 32);
    assert_eq!(GRID_CELLS, GRID_SIZE * GRID_SIZE);
}

#[test]
fn check_position_accepts_the_grid_only() {
    assert_eq!(check_position(0), Ok(()));
    assert_eq!(check_position(1023), Ok(()));
    assert_eq!(check_position(1024), Err(ValidationError::PositionOutOfRange));
    assert_eq!(check_position(u32::MAX), Err(ValidationError::PositionOutOfRange));
}

#[test]
fn connect_inserts_a_presence_row() {
    let a = ident(1);
    let mut ctx = fresh(a, 10);
    assert!(!is_present(&ctx.db, &a));
    identity_connected(&mut ctx);
    assert!(is_present(&ctx.db, &a));
    assert!(!is_present(&ctx.db, &ident(2)));
    let row = ConnectedUser { identity: a, connected_at: at(10) };
    assert_eq!(ctx.db.connected_user().get(&a), Some(&row));
    assert_eq!(ctx.db.user().len(), 0);
    assert_eq!(ctx.db.changes(), &vec![Change::ConnectedUserInserted(row)]);
}

#[test]
fn connecting_again_replaces_the_presence_row() {
    let a = ident(1);
    let mut ctx = fresh(a, 10);
    identity_connected(&mut ctx);
    ctx.timestamp = at(20);
    identity_connected(&mut ctx);
    assert_eq!(ctx.db.connected_user().len(), 1);
    let row = ConnectedUser { identity: a, connected_at: at(20) };
    assert_eq!(ctx.db.connected_user().get(&a), Some(&row));
    assert_eq!(
        ctx.db.changes(),
        &vec![
            Change::ConnectedUserInserted(ConnectedUser { identity: a, connected_at: at(10) }),
            Change::ConnectedUserUpdated(row),
        ]
    );
}

#[test]
fn connect_marks_an_existing_profile_as_active() {
    let a = ident(1);
    let mut ctx = fresh(a, 10);
    assert_eq!(sync_clerk_user(&mut ctx, "acct-1".to_string(), text("a@x.org"), None), Ok(()));
    ctx.timestamp = at(30);
    identity_connected(&mut ctx);
    let profile = User {
        identity: a,
        clerk_id: "acct-1".to_string(),
        email: text("a@x.org"),
        username: None,
        last_active: at(30),
    };
    assert_eq!(ctx.db.user().get(&a), Some(&profile));
    assert_eq!(ctx.db.changes().len(), 3);
    assert_eq!(ctx.db.changes()[2], Change::UserUpdated(profile));
}

#[test]
fn disconnect_deletes_the_presence_row() {
    let a = ident(1);
    let mut ctx = fresh(a, 10);
    identity_connected(&mut ctx);
    ctx.db.take_changes();
    identity_disconnected(&mut ctx);
    assert!(!is_present(&ctx.db, &a));
    assert_eq!(ctx.db.connected_user().len(), 0);
    assert_eq!(ctx.db.changes(), &vec![Change::ConnectedUserDeleted(a)]);
}

#[test]
fn disconnect_without_presence_does_nothing() {
    let a = ident(1);
    let mut ctx = fresh(ident(2), 10);
    identity_connected(&mut ctx);
    ctx.db.take_changes();
    ctx.sender = a;
    identity_disconnected(&mut ctx);
    assert!(is_present(&ctx.db, &ident(2)));
    assert!(ctx.db.changes().is_empty());
}

#[test]
fn sync_refuses_an_empty_account_id() {
    let a = ident(1);
    let mut ctx = fresh(a, 10);
    assert_eq!(
        sync_clerk_user(&mut ctx, String::new(), text("a@x.org"), text("ann")),
        Err(ValidationError::EmptyAccountId)
    );
    assert_eq!(ctx.db.user().len(), 0);
    assert!(ctx.db.changes().is_empty());
}

#[test]
fn sync_creates_the_profile() {
    let a = ident(1);
    let mut ctx = fresh(a, 10);
    assert_eq!(sync_clerk_user(&mut ctx, "acct-1".to_string(), text("a@x.org"), None), Ok(()));
    let profile = User {
        identity: a,
        clerk_id: "acct-1".to_string(),
        email: text("a@x.org"),
        username: None,
        last_active: at(10),
    };
    assert_eq!(ctx.db.user().len(), 1);
    assert_eq!(ctx.db.user().get(&a), Some(&profile));
    assert_eq!(ctx.db.changes(), &vec![Change::UserInserted(profile)]);
}

#[test]
fn sync_keeps_what_an_absent_value_would_clear() {
    let a = ident(1);
    let mut ctx = fresh(a, 10);
    assert_eq!(
        sync_clerk_user(&mut ctx, "acct-1".to_string(), text("a@x.org"), text("ann")),
        Ok(())
    );
    ctx.timestamp = at(20);
    assert_eq!(sync_clerk_user(&mut ctx, "acct-2".to_string(), None, text("anna")), Ok(()));
    let profile = User {
        identity: a,
        clerk_id: "acct-2".to_string(),
        email: text("a@x.org"),
        username: text("anna"),
        last_active: at(20),
    };
    assert_eq!(ctx.db.user().len(), 1);
    assert_eq!(ctx.db.user().get(&a), Some(&profile));
    assert_eq!(ctx.db.changes()[1], Change::UserUpdated(profile));
}

#[test]
fn sync_keeps_what_an_empty_value_would_clear() {
    let a = ident(1);
    let mut ctx = fresh(a, 10);
    assert_eq!(
        sync_clerk_user(&mut ctx, "acct-1".to_string(), text("a@x.io"), text("ann")),
        Ok(())
    );
    ctx.timestamp = at(20);
    assert_eq!(sync_clerk_user(&mut ctx, "acct-1".to_string(), text(""), text("")), Ok(()));
    let kept = User {
        identity: a,
        clerk_id: "acct-1".to_string(),
        email: text("a@x.io"),
        username: text("ann"),
        last_active: at(20),
    };
    assert_eq!(ctx.db.user().get(&a), Some(&kept));
    assert_eq!(ctx.db.changes()[1], Change::UserUpdated(kept));
    ctx.timestamp = at(30);
    assert_eq!(sync_clerk_user(&mut ctx, "acct-1".to_string(), text(""), text("anna")), Ok(()));
    assert_eq!(ctx.db.user().get(&a).unwrap().email, text("a@x.io"));
    assert_eq!(ctx.db.user().get(&a).unwrap().username, text("anna"));
    assert_eq!(ctx.db.user().get(&a).unwrap().last_active, at(30));
}

#[test]
fn sync_replaces_what_a_given_value_names() {
    let a = ident(1);
    let mut ctx = fresh(a, 10);
    assert_eq!(
        sync_clerk_user(&mut ctx, "acct-1".to_string(), text("a@x.io"), text("ann")),
        Ok(())
    );
    ctx.timestamp = at(20);
    assert_eq!(
        sync_clerk_user(&mut ctx, "acct-1".to_string(), text("b@x.io"), text("bea")),
        Ok(())
    );
    assert_eq!(ctx.db.user().get(&a).unwrap().email, text("b@x.io"));
    assert_eq!(ctx.db.user().get(&a).unwrap().username, text("bea"));
}

#[test]
fn sync_of_a_new_profile_stores_the_values_as_given() {
    let a = ident(1);
    let mut ctx = fresh(a, 10);
    assert_eq!(sync_clerk_user(&mut ctx, "acct-1".to_string(), text(""), None), Ok(()));
    assert_eq!(ctx.db.user().get(&a).unwrap().email, text(""));
    assert_eq!(ctx.db.user().get(&a).unwrap().username, None);
    ctx.timestamp = at(20);
    assert_eq!(sync_clerk_user(&mut ctx, "acct-1".to_string(), None, text("")), Ok(()));
    assert_eq!(ctx.db.user().get(&a).unwrap().email, text(""));
    assert_eq!(ctx.db.user().get(&a).unwrap().username, None);
}

#[test]
fn sync_with_an_empty_account_id_leaves_the_profile() {
    let a = ident(1);
    let mut ctx = fresh(a, 10);
    assert_eq!(sync_clerk_user(&mut ctx, "acct-1".to_string(), None, None), Ok(()));
    ctx.timestamp = at(20);
    assert_eq!(
        sync_clerk_user(&mut ctx, String::new(), text("a@x.org"), None),
        Err(ValidationError::EmptyAccountId)
    );
    assert_eq!(ctx.db.user().get(&a).unwrap().email, None);
    assert_eq!(ctx.db.user().get(&a).unwrap().last_active, at(10));
    assert_eq!(ctx.db.changes().len(), 1);
}

#[test]
fn anyone_may_name_the_first_admin_and_only_admins_the_next() {
    let a = ident(1);
    let b = ident(2);
    let c = ident(3);
    let mut ctx = fresh(a, 10);
    assert!(may_bootstrap(&ctx.db));
    assert!(!is_admin(&ctx.db, &a));
    assert_eq!(add_admin(&mut ctx, b), Ok(()));
    assert!(!may_bootstrap(&ctx.db));
    assert_eq!(ctx.db.admin().len(), 1);
    assert!(is_admin(&ctx.db, &b));
    assert!(!is_admin(&ctx.db, &a));
    assert_eq!(add_admin(&mut ctx, a), Err(AuthError::Unauthorized));
    assert_eq!(add_admin(&mut ctx, c), Err(AuthError::Unauthorized));
    assert_eq!(ctx.db.admin().len(), 1);
    ctx.sender = b;
    assert_eq!(add_admin(&mut ctx, c), Ok(()));
    assert_eq!(ctx.db.admin().len(), 2);
    assert!(is_admin(&ctx.db, &c));
    assert_eq!(
        ctx.db.changes(),
        &vec![
            Change::AdminInserted(Admin { identity: b }),
            Change::AdminInserted(Admin { identity: c }),
        ]
    );
}

#[test]
fn naming_an_admin_again_changes_nothing() {
    let a = ident(1);
    let mut ctx = fresh(a, 10);
    assert_eq!(add_admin(&mut ctx, a), Ok(()));
    assert_eq!(add_admin(&mut ctx, a), Ok(()));
    assert_eq!(ctx.db.admin().len(), 1);
    assert_eq!(ctx.db.changes().len(), 1);
}

#[test]
fn only_an_admin_may_remove_an_admin() {
    let a = ident(1);
    let b = ident(2);
    let mut ctx = fresh(a, 10);
    assert_eq!(remove_admin(&mut ctx, a), Err(AuthError::Unauthorized));
    assert_eq!(add_admin(&mut ctx, a), Ok(()));
    ctx.sender = b;
    assert_eq!(remove_admin(&mut ctx, a), Err(AuthError::Unauthorized));
    assert_eq!(remove_admin(&mut ctx, b), Err(AuthError::Unauthorized));
    assert!(is_admin(&ctx.db, &a));
    assert_eq!(ctx.db.changes().len(), 1);
}

#[test]
fn the_last_admin_cannot_be_removed() {
    let a = ident(1);
    let mut ctx = fresh(a, 10);
    assert_eq!(add_admin(&mut ctx, a), Ok(()));
    assert_eq!(remove_admin(&mut ctx, a), Err(AuthError::LastAdminProtected));
    assert!(is_admin(&ctx.db, &a));
    assert_eq!(ctx.db.admin().len(), 1);
    assert_eq!(ctx.db.changes().len(), 1);
}

#[test]
fn one_of_two_admins_can_be_removed() {
    let a = ident(1);
    let b = ident(2);
    let mut ctx = fresh(a, 10);
    assert_eq!(add_admin(&mut ctx, a), Ok(()));
    assert_eq!(add_admin(&mut ctx, b), Ok(()));
    assert_eq!(remove_admin(&mut ctx, b), Ok(()));
    assert_eq!(ctx.db.admin().len(), 1);
    assert!(is_admin(&ctx.db, &a));
    assert!(!is_admin(&ctx.db, &b));
    assert_eq!(ctx.db.changes()[2], Change::AdminDeleted(b));
    assert_eq!(remove_admin(&mut ctx, a), Err(AuthError::LastAdminProtected));
}

#[test]
fn an_admin_may_remove_itself_while_another_is_left() {
    let a = ident(1);
    let b = ident(2);
    let mut ctx = fresh(a, 10);
    assert_eq!(add_admin(&mut ctx, a), Ok(()));
    assert_eq!(add_admin(&mut ctx, b), Ok(()));
    assert_eq!(remove_admin(&mut ctx, a), Ok(()));
    assert!(!is_admin(&ctx.db, &a));
    assert!(is_admin(&ctx.db, &b));
    assert!(!may_bootstrap(&ctx.db));
}

#[test]
fn removing_an_identity_that_is_no_admin_changes_nothing() {
    let a = ident(1);
    let mut ctx = fresh(a, 10);
    assert_eq!(add_admin(&mut ctx, a), Ok(()));
    assert_eq!(remove_admin(&mut ctx, ident(9)), Ok(()));
    assert_eq!(ctx.db.admin().len(), 1);
    assert_eq!(ctx.db.changes().len(), 1);
}

#[test]
fn paint_then_read_in_every_cell() {
    let a = ident(1);
    let mut ctx = painter(a);
    for position in 0..GRID_CELLS {
        ctx.timestamp = at(100 + position as i64);
        paint(&mut ctx, vec![position], text("#ff0000"));
        assert_eq!(ctx.db.pixel().get(&position), Some(&red(position, a, 100 + position as i64)));
    }
    assert_eq!(ctx.db.pixel().len(), 1024);
}

#[test]
fn paint_without_a_colour_removes_the_row() {
    let a = ident(1);
    let mut ctx = painter(a);
    paint(&mut ctx, vec![4, 5], text("#ff0000"));
    ctx.db.take_changes();
    paint(&mut ctx, vec![5, 6], None);
    assert_eq!(ctx.db.pixel().len(), 1);
    assert!(ctx.db.pixel().get(&5).is_none());
    assert_eq!(ctx.db.pixel().get(&4), Some(&red(4, a, 1)));
    assert_eq!(ctx.db.changes().len(), 2);
    assert_eq!(ctx.db.changes()[1], Change::PixelDeleted(5));
}

#[test]
fn paint_over_a_cell_keeps_the_last_write_only() {
    let a = ident(1);
    let b = ident(2);
    let mut ctx = painter(a);
    paint(&mut ctx, vec![5], text("#ff0000"));
    ctx.sender = b;
    ctx.timestamp = at(2);
    identity_connected(&mut ctx);
    assert_eq!(sync_clerk_user(&mut ctx, "acct-2".to_string(), None, None), Ok(()));
    ctx.timestamp = at(3);
    paint(&mut ctx, vec![5], text("#0000ff"));
    assert_eq!(ctx.db.pixel().len(), 1);
    let blue = Pixel {
        position: 5,
        color: "#0000ff".to_string(),
        last_modified_by: b,
        timestamp: at(3),
    };
    assert_eq!(ctx.db.pixel().get(&5), Some(&blue));
    assert_eq!(ctx.db.changes().last(), Some(&Change::PixelUpdated(blue)));
}

#[test]
fn paint_without_a_profile_writes_nothing() {
    let a = ident(1);
    let mut ctx = fresh(a, 10);
    identity_connected(&mut ctx);
    ctx.db.take_changes();
    paint(&mut ctx, vec![0, 1, 2], text("#ff0000"));
    assert_eq!(ctx.db.pixel().len(), 0);
    assert_eq!(ctx.db.user().len(), 0);
    assert!(ctx.db.changes().is_empty());
    paint(&mut ctx, vec![0], None);
    assert!(ctx.db.changes().is_empty());
}

#[test]
fn paint_without_presence_writes_nothing() {
    let a = ident(1);
    let mut ctx = fresh(a, 10);
    assert_eq!(sync_clerk_user(&mut ctx, "acct-1".to_string(), None, None), Ok(()));
    ctx.db.take_changes();
    ctx.timestamp = at(20);
    paint(&mut ctx, vec![0, 1, 2], text("#ff0000"));
    assert_eq!(ctx.db.pixel().len(), 0);
    assert_eq!(ctx.db.user().get(&a).unwrap().last_active, at(10));
    assert!(ctx.db.changes().is_empty());
}

#[test]
fn paint_after_disconnect_writes_nothing() {
    let a = ident(1);
    let mut ctx = painter(a);
    identity_disconnected(&mut ctx);
    ctx.db.take_changes();
    paint(&mut ctx, vec![0], text("#ff0000"));
    assert_eq!(ctx.db.pixel().len(), 0);
    assert!(ctx.db.changes().is_empty());
}

#[test]
fn paint_skips_addresses_outside_the_grid() {
    let a = ident(1);
    let mut ctx = painter(a);
    ctx.timestamp = at(7);
    paint(&mut ctx, vec![1024, 3, u32::MAX, 1023, 5000], text("#ff0000"));
    assert_eq!(ctx.db.pixel().len(), 2);
    assert_eq!(ctx.db.pixel().get(&3), Some(&red(3, a, 7)));
    assert_eq!(ctx.db.pixel().get(&1023), Some(&red(1023, a, 7)));
    assert!(ctx.db.pixel().get(&1024).is_none());
    assert!(ctx.db.pixel().get(&5000).is_none());
    assert_eq!(ctx.db.user().get(&a).unwrap().last_active, at(7));
}

#[test]
fn paint_with_no_address_in_the_grid_writes_nothing() {
    let a = ident(1);
    let mut ctx = painter(a);
    ctx.timestamp = at(50);
    paint(&mut ctx, vec![], text("#ff0000"));
    assert!(ctx.db.changes().is_empty());
    paint(&mut ctx, vec![1024, 4096], text("#ff0000"));
    assert!(ctx.db.changes().is_empty());
    assert_eq!(ctx.db.pixel().len(), 0);
    assert_eq!(ctx.db.user().get(&a).unwrap().last_active, at(1));
}

#[test]
fn paint_marks_the_painter_active_once_for_the_batch() {
    let a = ident(1);
    let mut ctx = painter(a);
    ctx.timestamp = at(9);
    paint(&mut ctx, vec![0, 1, 2, 1], text("#ff0000"));
    let changes = ctx.db.take_changes();
    let touched = User {
        identity: a,
        clerk_id: "acct-1".to_string(),
        email: None,
        username: None,
        last_active: at(9),
    };
    assert_eq!(
        changes,
        vec![
            Change::UserUpdated(touched),
            Change::PixelInserted(red(0, a, 9)),
            Change::PixelInserted(red(1, a, 9)),
            Change::PixelInserted(red(2, a, 9)),
            Change::PixelUpdated(red(1, a, 9)),
        ]
    );
    assert!(ctx.db.changes().is_empty());
    assert_eq!(ctx.db.pixel().len(), 3);
}

#[test]
fn erasing_an_unpainted_cell_journals_no_pixel_change() {
    let a = ident(1);
    let mut ctx = painter(a);
    ctx.timestamp = at(9);
    paint(&mut ctx, vec![7], None);
    assert_eq!(ctx.db.pixel().len(), 0);
    assert_eq!(ctx.db.changes().len(), 1);
    assert!(matches!(ctx.db.changes()[0], Change::UserUpdated(_)));
}

#[test]
fn a_batch_is_seen_whole_or_not_at_all() {
    let a = ident(1);
    let batch = vec![10, 11, 12, 13];
    let mut refused = fresh(a, 10);
    paint(&mut refused, batch.clone(), text("#ff0000"));
    let written: Vec<bool> = batch.iter().map(|p| refused.db.pixel().contains(p)).collect();
    assert_eq!(written, vec![false, false, false, false]);
    let mut accepted = painter(a);
    paint(&mut accepted, batch.clone(), text("#ff0000"));
    let written: Vec<bool> = batch.iter().map(|p| accepted.db.pixel().contains(p)).collect();
    assert_eq!(written, vec![true, true, true, true]);
}

#[test]
fn clear_grid_needs_an_admin() {
    let a = ident(1);
    let mut ctx = painter(a);
    paint(&mut ctx, vec![0, 1, 2], text("#ff0000"));
    ctx.db.take_changes();
    assert_eq!(clear_grid(&mut ctx), Err(AuthError::Unauthorized));
    assert_eq!(ctx.db.pixel().len(), 3);
    assert!(ctx.db.changes().is_empty());
}

#[test]
fn clear_grid_deletes_every_pixel() {
    let a = ident(1);
    let mut ctx = painter(a);
    paint(&mut ctx, vec![0, 1, 2], text("#ff0000"));
    assert_eq!(add_admin(&mut ctx, a), Ok(()));
    ctx.db.take_changes();
    assert_eq!(clear_grid(&mut ctx), Ok(()));
    assert_eq!(ctx.db.pixel().len(), 0);
    let mut deleted: Vec<u32> = Vec::new();
    for change in ctx.db.changes() {
        match change {
            Change::PixelDeleted(position) => deleted.push(*position),
            other => panic!("unexpected change {:?}", other),
        }
    }
    deleted.sort();
    assert_eq!(deleted, vec![0, 1, 2]);
    assert_eq!(clear_grid(&mut ctx), Ok(()));
    assert_eq!(ctx.db.changes().len(), 3);
}

#[test]
fn view_at_time_yields_the_pixels_written_by_then() {
    let a = ident(1);
    let mut ctx = painter(a);
    ctx.timestamp = at(10);
    paint(&mut ctx, vec![1], text("#111111"));
    ctx.timestamp = at(20);
    paint(&mut ctx, vec![2], text("#222222"));
    ctx.timestamp = at(30);
    paint(&mut ctx, vec![3], text("#333333"));
    assert_eq!(view_at_time(&ctx, at(9)), vec![]);
    let mut by_20 = view_at_time(&ctx, at(20));
    by_20.sort();
    assert_eq!(by_20, vec![(1, "#111111".to_string()), (2, "#222222".to_string())]);
    let mut all = view_at_time(&ctx, at(i64::MAX));
    all.sort();
    assert_eq!(
        all,
        vec![
            (1, "#111111".to_string()),
            (2, "#222222".to_string()),
            (3, "#333333".to_string()),
        ]
    );
    assert_eq!(ctx.db.pixel().len(), 3);
}

#[test]
fn view_at_time_knows_the_last_write_only() {
    let a = ident(1);
    let mut ctx = painter(a);
    ctx.timestamp = at(1);
    paint(&mut ctx, vec![5], text("red"));
    ctx.timestamp = at(2);
    paint(&mut ctx, vec![5], text("blue"));
    assert_eq!(view_at_time(&ctx, at(2)), vec![(5, "blue".to_string())]);
    assert_eq!(view_at_time(&ctx, at(3)), vec![(5, "blue".to_string())]);
    assert_eq!(view_at_time(&ctx, at(1)), vec![]);
}

#[test]
fn view_at_time_forgets_an_erased_cell() {
    let a = ident(1);
    let mut ctx = painter(a);
    ctx.timestamp = at(1);
    paint(&mut ctx, vec![5], text("red"));
    ctx.timestamp = at(2);
    paint(&mut ctx, vec![5], None);
    assert_eq!(view_at_time(&ctx, at(1)), vec![]);
    assert_eq!(view_at_time(&ctx, at(2)), vec![]);
}

#[test]
fn example_scenario() {
    let a = ident(0xA);
    let mut ctx = fresh(a, 1);
    identity_connected(&mut ctx);
    assert_eq!(sync_clerk_user(&mut ctx, "acct-1".to_string(), None, None), Ok(()));
    paint(&mut ctx, vec![0, 1, 2], text("#ff0000"));
    assert_eq!(ctx.db.pixel().len(), 3);
    for row in ctx.db.pixel().scan() {
        assert_eq!(row.color, "#ff0000");
        assert_eq!(row.last_modified_by, a);
    }
    for position in [0u32, 1, 2] {
        assert_eq!(ctx.db.pixel().get(&position), Some(&red(position, a, 1)));
    }
    assert_eq!(clear_grid(&mut ctx), Err(AuthError::Unauthorized));
    assert_eq!(ctx.db.pixel().len(), 3);
    assert_eq!(add_admin(&mut ctx, a), Ok(()));
    assert_eq!(clear_grid(&mut ctx), Ok(()));
    assert_eq!(ctx.db.pixel().len(), 0);
    assert!(ctx.db.pixel().is_empty());
}

#[test]
fn take_changes_hands_out_the_journal_and_keeps_the_tables() {
    let a = ident(1);
    let mut ctx = fresh(a, 10);
    identity_connected(&mut ctx);
    assert_eq!(add_admin(&mut ctx, a), Ok(()));
    let changes = ctx.db.take_changes();
    assert_eq!(
        changes,
        vec![
            Change::ConnectedUserInserted(ConnectedUser { identity: a, connected_at: at(10) }),
            Change::AdminInserted(Admin { identity: a }),
        ]
    );
    assert!(ctx.db.changes().is_empty());
    assert!(ctx.db.take_changes().is_empty());
    assert!(is_present(&ctx.db, &a));
    assert!(is_admin(&ctx.db, &a));
    assert_eq!(changes[0].clone(), changes[0]);
}

#[test]
fn a_store_can_be_built_from_tables() {
    let a = ident(1);
    let mut pixels: Table<Pixel> = Table::new();
    assert_eq!(pixels.insert(red(8, a, 3)), Ok(()));
    let mut admins: Table<Admin> = Table::new();
    assert_eq!(admins.insert(Admin { identity: a }), Ok(()));
    let db = Store::from_tables(Table::new(), pixels, Table::new(), admins);
    let mut ctx = ReducerContext { sender: a, timestamp: at(5), db };
    assert!(ctx.db.changes().is_empty());
    assert!(is_admin(&ctx.db, &a));
    assert_eq!(view_at_time(&ctx, at(3)), vec![(8, "#ff0000".to_string())]);
    assert_eq!(clear_grid(&mut ctx), Ok(()));
    assert_eq!(ctx.db.changes(), &vec![Change::PixelDeleted(8)]);
}

/// Applies `changes` to tables that mirror the store, and fails where a
/// change does not find the table as it must.
fn mirror(
    changes: Vec<Change>,
    present: &mut Table<ConnectedUser>,
    pixels: &mut Table<Pixel>,
    users: &mut Table<User>,
    admins: &mut Table<Admin>,
) {
    for change in changes {
        match change {
            Change::ConnectedUserInserted(row) => assert_eq!(present.insert(row), Ok(())),
            Change::ConnectedUserUpdated(row) => assert_eq!(present.update(row), Ok(())),
            Change::ConnectedUserDeleted(identity) => assert!(present.delete(&identity)),
            Change::PixelInserted(row) => assert_eq!(pixels.insert(row), Ok(())),
            Change::PixelUpdated(row) => assert_eq!(pixels.update(row), Ok(())),
            Change::PixelDeleted(position) => assert!(pixels.delete(&position)),
            Change::UserInserted(row) => assert_eq!(users.insert(row), Ok(())),
            Change::UserUpdated(row) => assert_eq!(users.update(row), Ok(())),
            Change::AdminInserted(row) => assert_eq!(admins.insert(row), Ok(())),
            Change::AdminDeleted(identity) => assert!(admins.delete(&identity)),
        }
    }
}

#[test]
fn the_journal_replays_to_the_same_tables() {
    let a = ident(1);
    let b = ident(2);
    let mut present: Table<ConnectedUser> = Table::new();
    let mut pixels: Table<Pixel> = Table::new();
    let mut users: Table<User> = Table::new();
    let mut admins: Table<Admin> = Table::new();
    let mut ctx = fresh(a, 1);
    for step in 0..12 {
        ctx.timestamp = at(10 + step);
        match step {
            0 => identity_connected(&mut ctx),
            1 => assert_eq!(sync_clerk_user(&mut ctx, "acct-1".to_string(), None, None), Ok(())),
            2 => paint(&mut ctx, vec![0, 1, 2, 1, 4000], text("#ff0000")),
            3 => paint(&mut ctx, vec![2, 3], None),
            4 => identity_connected(&mut ctx),
            5 => assert_eq!(add_admin(&mut ctx, a), Ok(())),
            6 => assert_eq!(add_admin(&mut ctx, b), Ok(())),
            7 => assert_eq!(
                sync_clerk_user(&mut ctx, "acct-9".to_string(), text("a@x.org"), None),
                Ok(())
            ),
            8 => assert_eq!(remove_admin(&mut ctx, a), Ok(())),
            9 => {
                ctx.sender = b;
                assert_eq!(clear_grid(&mut ctx), Ok(()));
            }
            10 => paint(&mut ctx, vec![7], text("#00ff00")),
            _ => {
                ctx.sender = a;
                identity_disconnected(&mut ctx);
            }
        }
        mirror(ctx.db.take_changes(), &mut present, &mut pixels, &mut users, &mut admins);
        assert_eq!(present.len(), ctx.db.connected_user().len());
        for row in present.scan() {
            assert_eq!(ctx.db.connected_user().get(&row.identity), Some(row));
        }
        assert_eq!(pixels.len(), ctx.db.pixel().len());
        for row in pixels.scan() {
            assert_eq!(ctx.db.pixel().get(&row.position), Some(row));
        }
        assert_eq!(users.len(), ctx.db.user().len());
        for row in users.scan() {
            assert_eq!(ctx.db.user().get(&row.identity), Some(row));
        }
        assert_eq!(admins.len(), ctx.db.admin().len());
        for row in admins.scan() {
            assert_eq!(ctx.db.admin().get(&row.identity), Some(row));
        }
    }
    assert_eq!(pixels.len(), 0);
    assert_eq!(admins.len(), 1);
    assert_eq!(users.len(), 1);
    assert_eq!(present.len(), 0);
}

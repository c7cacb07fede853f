//! The operations that change the canvas and its access list. Each one is a
//! single step from the store before the call to the store after it.

use vstd::prelude::*;
use crate::auth::{is_admin, may_bootstrap};
use crate::presence::is_present;
use crate::store::{Change, ReducerContext, StoreModel};
use crate::types::{AuthError, Identity, Pixel, Timestamp, User, ValidationError, GRID_CELLS};

verus! {

/// `position` addresses a cell of the grid.
pub open spec fn in_grid(position: u32) -> bool {
    position < GRID_CELLS
}

/// A batch of `positions` writes to the cell `position`.
pub open spec fn addressed(positions: Seq<u32>, position: u32) -> bool {
    in_grid(position) && positions.contains(position)
}

/// The row that a paint of `color` at `position` stores.
pub open spec fn painted_pixel(position: u32, color: String, by: Identity, at: Timestamp) -> Pixel {
    Pixel { position, color, last_modified_by: by, timestamp: at }
}

/// The pixel table after a batch: each addressed cell holds the new row, or
/// none where `color` is absent; every other cell is as it was.
pub open spec fn painted_pixels(
    before: Map<u32, Pixel>,
    positions: Seq<u32>,
    color: Option<String>,
    by: Identity,
    at: Timestamp,
) -> Map<u32, Pixel> {
    Map::new(
        |p: u32|
            if addressed(positions, p) {
                color is Some
            } else {
                before.contains_key(p)
            },
        |p: u32|
            if addressed(positions, p) {
                painted_pixel(p, color.unwrap(), by, at)
            } else {
                before[p]
            },
    )
}

/// The changes that one address of a batch causes in the pixel table `before`.
pub open spec fn cell_changes(
    before: Map<u32, Pixel>,
    position: u32,
    color: Option<String>,
    by: Identity,
    at: Timestamp,
) -> Seq<Change> {
    if !in_grid(position) {
        Seq::empty()
    } else {
        match color {
            Some(c) => seq![
                if before.contains_key(position) {
                    Change::PixelUpdated(painted_pixel(position, c, by, at))
                } else {
                    Change::PixelInserted(painted_pixel(position, c, by, at))
                },
            ],
            None => if before.contains_key(position) {
                seq![Change::PixelDeleted(position)]
            } else {
                Seq::empty()
            },
        }
    }
}

/// The changes that a batch causes, address by address in the order given.
pub open spec fn paint_changes(
    before: Map<u32, Pixel>,
    positions: Seq<u32>,
    color: Option<String>,
    by: Identity,
    at: Timestamp,
) -> Seq<Change>
    decreases positions.len(),
{
    if positions.len() == 0 {
        Seq::empty()
    } else {
        paint_changes(before, positions.drop_last(), color, by, at) + cell_changes(
            painted_pixels(before, positions.drop_last(), color, by, at),
            positions.last(),
            color,
            by,
            at,
        )
    }
}

/// `text` is given and is not empty.
pub open spec fn has_text(text: Option<String>) -> bool {
    text is Some && text.unwrap()@.len() > 0
}

/// What a sync stores for a text of a profile that exists: the incoming
/// text if it is given and not empty, else the stored one.
pub open spec fn merged_text(incoming: Option<String>, stored: Option<String>) -> Option<String> {
    if has_text(incoming) {
        incoming
    } else {
        stored
    }
}

/// The profile that a sync stores: the account id and the time are always
/// taken over, an absent or empty e-mail or user name leaves the stored one
/// in place. Without a stored profile, the incoming values are taken as
/// they are.
pub open spec fn merged_user(
    stored: Option<User>,
    identity: Identity,
    clerk_id: String,
    email: Option<String>,
    username: Option<String>,
    now: Timestamp,
) -> User {
    User {
        identity,
        clerk_id,
        email: if stored is Some {
            merged_text(email, stored.unwrap().email)
        } else {
            email
        },
        username: if stored is Some {
            merged_text(username, stored.unwrap().username)
        } else {
            username
        },
        last_active: now,
    }
}

impl StoreModel {
    /// The profile of `identity`, if there is one.
    pub open spec fn profile(self, identity: Identity) -> Option<User> {
        if self.user.contains_key(identity) {
            Some(self.user[identity])
        } else {
            None
        }
    }

    /// The store after `sender` syncs its profile; unchanged if the account
    /// id is empty.
    pub open spec fn sync_user(
        self,
        sender: Identity,
        now: Timestamp,
        clerk_id: String,
        email: Option<String>,
        username: Option<String>,
    ) -> StoreModel {
        if clerk_id@.len() == 0 {
            self
        } else {
            self.put_user(merged_user(self.profile(sender), sender, clerk_id, email, username, now))
        }
    }

    /// `caller` may add an administrator: it is one, or there is none yet.
    pub open spec fn may_add_admin(self, caller: Identity) -> bool {
        self.is_admin(caller) || self.may_bootstrap()
    }

    /// The store after `caller` asks to make `target` an administrator.
    pub open spec fn add_admin(self, caller: Identity, target: Identity) -> StoreModel {
        if self.may_add_admin(caller) {
            self.insert_admin(target)
        } else {
            self
        }
    }

    /// Why `caller` may not remove `target` from the administrators, if so.
    pub open spec fn remove_admin_refusal(self, caller: Identity, target: Identity) -> Option<
        AuthError,
    > {
        if !self.is_admin(caller) {
            Some(AuthError::Unauthorized)
        } else if self.is_admin(target) && self.admin.dom().len() == 1 {
            Some(AuthError::LastAdminProtected)
        } else {
            None
        }
    }

    /// The store after `caller` asks to remove `target` from the administrators.
    pub open spec fn remove_admin(self, caller: Identity, target: Identity) -> StoreModel {
        if self.remove_admin_refusal(caller, target) is None {
            self.delete_admin(target)
        } else {
            self
        }
    }

    /// The store after `caller` asks to clear the grid, whose pixels a scan
    /// yields in the order `scan`.
    pub open spec fn clear_grid(self, caller: Identity, scan: Seq<Pixel>) -> StoreModel {
        if self.is_admin(caller) {
            self.clear_pixels(scan)
        } else {
            self
        }
    }

    /// A paint by `sender` is carried out: `sender` has a profile, is
    /// connected, and at least one address of the batch lies in the grid.
    pub open spec fn paint_applies(self, sender: Identity, positions: Seq<u32>) -> bool {
        &&& self.user.contains_key(sender)
        &&& self.is_present(sender)
        &&& exists|i: int| 0 <= i < positions.len() && in_grid(#[trigger] positions[i])
    }

    /// The store after `sender` paints the batch `positions` at `now`.
    pub open spec fn paint(
        self,
        sender: Identity,
        now: Timestamp,
        positions: Seq<u32>,
        color: Option<String>,
    ) -> StoreModel {
        if !self.paint_applies(sender, positions) {
            self
        } else {
            let touched = self.touch_user(sender, now);
            StoreModel {
                pixel: painted_pixels(self.pixel, positions, color, sender, now),
                changes: touched.changes + paint_changes(self.pixel, positions, color, sender, now),
                ..touched
            }
        }
    }
}

/// One more address of a batch: what it adds to the changes, and what it
/// does to the pixel table.
pub proof fn lemma_paint_step(
    before: Map<u32, Pixel>,
    positions: Seq<u32>,
    i: int,
    color: Option<String>,
    by: Identity,
    at: Timestamp,
)
    requires
        0 <= i < positions.len(),
    ensures
        paint_changes(before, positions.take(i + 1), color, by, at) == paint_changes(
            before,
            positions.take(i),
            color,
            by,
            at,
        ) + cell_changes(
            painted_pixels(before, positions.take(i), color, by, at),
            positions[i],
            color,
            by,
            at,
        ),
        !in_grid(positions[i]) ==> painted_pixels(before, positions.take(i + 1), color, by, at)
            == painted_pixels(before, positions.take(i), color, by, at),
        in_grid(positions[i]) && color is Some ==> painted_pixels(
            before,
            positions.take(i + 1),
            color,
            by,
            at,
        ) == painted_pixels(before, positions.take(i), color, by, at).insert(
            positions[i],
            painted_pixel(positions[i], color.unwrap(), by, at),
        ),
        in_grid(positions[i]) && color is None ==> painted_pixels(
            before,
            positions.take(i + 1),
            color,
            by,
            at,
        ) == painted_pixels(before, positions.take(i), color, by, at).remove(positions[i]),
{
    let done = positions.take(i);
    let next = positions.take(i + 1);
    let p = positions[i];
    assert(next.drop_last() == done);
    assert(next.last() == p);
    assert forall|q: u32| next.contains(q) <==> (done.contains(q) || q == p) by {
        if next.contains(q) {
            let j = choose|j: int| 0 <= j < next.len() && next[j] == q;
            if j < i {
                assert(done[j] == q);
            }
        }
        if done.contains(q) {
            let j = choose|j: int| 0 <= j < done.len() && done[j] == q;
            assert(next[j] == q);
        }
        if q == p {
            assert(next[i] == q);
        }
    }
    let mid = painted_pixels(before, done, color, by, at);
    let after = painted_pixels(before, next, color, by, at);
    if !in_grid(p) {
        assert(after =~= mid);
    } else if color is Some {
        assert(after =~= mid.insert(p, painted_pixel(p, color.unwrap(), by, at)));
    } else {
        assert(after =~= mid.remove(p));
    }
}

/// Whether `position` addresses a cell of the grid.
pub fn check_position(position: u32) -> (res: Result<(), ValidationError>)
    ensures
        in_grid(position) ==> res == Ok::<(), ValidationError>(()),
        !in_grid(position) ==> res == Err::<(), ValidationError>(
            ValidationError::PositionOutOfRange,
        ),
{
    if position < GRID_CELLS {
        Ok(())
    } else {
        Err(ValidationError::PositionOutOfRange)
    }
}

/// Whether some address of the batch lies in the grid.
fn any_in_grid(positions: &Vec<u32>) -> (b: bool)
    ensures
        b == exists|i: int| 0 <= i < positions@.len() && in_grid(#[trigger] positions@[i]),
{
    let mut i: usize = 0;
    while i < positions.len()
        invariant
            i <= positions@.len(),
            forall|j: int| 0 <= j < i ==> !in_grid(#[trigger] positions@[j]),
        decreases positions@.len() - i,
    {
        if check_position(positions[i]).is_ok() {
            return true;
        }
        i += 1;
    }
    false
}

/// The incoming text where it is given and not empty, else a copy of the
/// stored text.
fn merge_text(incoming: Option<String>, stored: &Option<String>) -> (merged: Option<String>)
    ensures
        merged == merged_text(incoming, *stored),
{
    match incoming {
        Some(text) => {
            if text.as_str().is_empty() {
                crate::types::copy_text(stored)
            } else {
                Some(text)
            }
        },
        None => crate::types::copy_text(stored),
    }
}

/// Creates or updates the caller's profile. An empty account id is refused
/// and changes nothing. An absent or empty e-mail or user name keeps the
/// stored one.
pub fn sync_clerk_user(
    ctx: &mut ReducerContext,
    clerk_id: String,
    email: Option<String>,
    username: Option<String>,
) -> (res: Result<(), ValidationError>)
    ensures
        clerk_id@.len() == 0 ==> res == Err::<(), ValidationError>(ValidationError::EmptyAccountId),
        clerk_id@.len() != 0 ==> res == Ok::<(), ValidationError>(()),
        final(ctx).sender == old(ctx).sender,
        final(ctx).timestamp == old(ctx).timestamp,
        final(ctx).db@ == old(ctx).db@.sync_user(
            old(ctx).sender,
            old(ctx).timestamp,
            clerk_id,
            email,
            username,
        ),
        final(ctx).db.pixel_scan() == old(ctx).db.pixel_scan(),
{
    if clerk_id.as_str().is_empty() {
        return Err(ValidationError::EmptyAccountId);
    }
    let sender = ctx.sender;
    let now = ctx.timestamp;
    let row = match ctx.db.user().get(&sender) {
        Some(stored) => User {
            identity: sender,
            clerk_id,
            email: merge_text(email, &stored.email),
            username: merge_text(username, &stored.username),
            last_active: now,
        },
        None => User { identity: sender, clerk_id, email, username, last_active: now },
    };
    ctx.db.put_user(row);
    Ok(())
}

/// Makes `new_admin` an administrator. Only an administrator may do so,
/// except that anyone may name the first one. Naming an administrator again
/// succeeds and changes nothing.
pub fn add_admin(ctx: &mut ReducerContext, new_admin: Identity) -> (res: Result<(), AuthError>)
    ensures
        old(ctx).db@.may_add_admin(old(ctx).sender) ==> res == Ok::<(), AuthError>(()),
        !old(ctx).db@.may_add_admin(old(ctx).sender) ==> res == Err::<(), AuthError>(
            AuthError::Unauthorized,
        ),
        final(ctx).sender == old(ctx).sender,
        final(ctx).timestamp == old(ctx).timestamp,
        final(ctx).db@ == old(ctx).db@.add_admin(old(ctx).sender, new_admin),
        final(ctx).db.pixel_scan() == old(ctx).db.pixel_scan(),
{
    let sender = ctx.sender;
    if !is_admin(&ctx.db, &sender) && !may_bootstrap(&ctx.db) {
        return Err(AuthError::Unauthorized);
    }
    ctx.db.insert_admin(new_admin);
    Ok(())
}

/// Takes the administrator's rights from `admin_to_remove`. Only an
/// administrator may do so, and not from the only administrator there is.
/// Removing an identity that is no administrator succeeds and changes nothing.
pub fn remove_admin(ctx: &mut ReducerContext, admin_to_remove: Identity) -> (res: Result<
    (),
    AuthError,
>)
    ensures
        match old(ctx).db@.remove_admin_refusal(old(ctx).sender, admin_to_remove) {
            Some(refusal) => res == Err::<(), AuthError>(refusal),
            None => res == Ok::<(), AuthError>(()),
        },
        final(ctx).sender == old(ctx).sender,
        final(ctx).timestamp == old(ctx).timestamp,
        final(ctx).db@ == old(ctx).db@.remove_admin(old(ctx).sender, admin_to_remove),
        final(ctx).db.pixel_scan() == old(ctx).db.pixel_scan(),
{
    let sender = ctx.sender;
    if !is_admin(&ctx.db, &sender) {
        return Err(AuthError::Unauthorized);
    }
    if is_admin(&ctx.db, &admin_to_remove) && ctx.db.admin().len() == 1 {
        return Err(AuthError::LastAdminProtected);
    }
    ctx.db.delete_admin(&admin_to_remove);
    Ok(())
}

/// Deletes every pixel. Only an administrator may do so.
pub fn clear_grid(ctx: &mut ReducerContext) -> (res: Result<(), AuthError>)
    ensures
        old(ctx).db@.is_admin(old(ctx).sender) ==> res == Ok::<(), AuthError>(()),
        !old(ctx).db@.is_admin(old(ctx).sender) ==> res == Err::<(), AuthError>(
            AuthError::Unauthorized,
        ),
        final(ctx).sender == old(ctx).sender,
        final(ctx).timestamp == old(ctx).timestamp,
        final(ctx).db@ == old(ctx).db@.clear_grid(old(ctx).sender, old(ctx).db.pixel_scan()),
        res is Ok ==> final(ctx).db@.pixel == Map::<u32, Pixel>::empty(),
        res is Ok ==> final(ctx).db.pixel_scan() == Seq::<Pixel>::empty(),
        res is Err ==> final(ctx).db.pixel_scan() == old(ctx).db.pixel_scan(),
{
    let sender = ctx.sender;
    if !is_admin(&ctx.db, &sender) {
        return Err(AuthError::Unauthorized);
    }
    ctx.db.clear_pixels();
    Ok(())
}

/// Paints the cells at `positions` with `color`, or erases them where
/// `color` is absent. A caller without a profile or without a connection is
/// ignored, and so is a batch with no address in the grid. Addresses outside
/// the grid are skipped; the others are written in the order given.
pub fn paint(ctx: &mut ReducerContext, positions: Vec<u32>, color: Option<String>)
    ensures
        final(ctx).sender == old(ctx).sender,
        final(ctx).timestamp == old(ctx).timestamp,
        final(ctx).db@ == old(ctx).db@.paint(
            old(ctx).sender,
            old(ctx).timestamp,
            positions@,
            color,
        ),
{
    let sender = ctx.sender;
    let now = ctx.timestamp;
    if !ctx.db.user().contains(&sender) {
        return ;
    }
    if !is_present(&ctx.db, &sender) {
        return ;
    }
    if !any_in_grid(&positions) {
        return ;
    }
    let ghost before = ctx.db@.pixel;
    ctx.db.touch_user(&sender, now);
    let ghost touched = ctx.db@;
    assert(painted_pixels(before, positions@.take(0), color, sender, now) =~= before);
    assert(touched.changes + paint_changes(before, positions@.take(0), color, sender, now)
        =~= touched.changes);
    let mut i: usize = 0;
    while i < positions.len()
        invariant
            i <= positions@.len(),
            ctx.sender == old(ctx).sender,
            ctx.timestamp == old(ctx).timestamp,
            sender == old(ctx).sender,
            now == old(ctx).timestamp,
            ctx.db@ == (StoreModel {
                pixel: painted_pixels(before, positions@.take(i as int), color, sender, now),
                changes: touched.changes + paint_changes(
                    before,
                    positions@.take(i as int),
                    color,
                    sender,
                    now,
                ),
                ..touched
            }),
        decreases positions@.len() - i,
    {
        let position = positions[i];
        proof {
            lemma_paint_step(before, positions@, i as int, color, sender, now);
        }
        let ghost journal = ctx.db@.changes;
        let ghost cell = cell_changes(ctx.db@.pixel, position, color, sender, now);
        if check_position(position).is_ok() {
            match &color {
                Some(c) => {
                    ctx.db.put_pixel(
                        Pixel {
                            position,
                            color: c.clone(),
                            last_modified_by: sender,
                            timestamp: now,
                        },
                    );
                },
                None => {
                    ctx.db.delete_pixel(position);
                },
            }
        }
        assert(ctx.db@.changes =~= journal + cell);
        assert(ctx.db@.pixel == painted_pixels(
            before,
            positions@.take(i + 1),
            color,
            sender,
            now,
        ));
        assert(ctx.db@.changes == touched.changes + paint_changes(
            before,
            positions@.take(i + 1),
            color,
            sender,
            now,
        ));
        i += 1;
    }
    assert(positions@.take(positions@.len() as int) == positions@);
}

} // verus!

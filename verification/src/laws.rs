//! What holds of the operations, whatever the store and whoever the caller.

use vstd::prelude::*;
use crate::canvas::{
    addressed, cell_changes, has_text, in_grid, lemma_paint_step, paint_changes, painted_pixel,
    painted_pixels,
};
use crate::store::{deletions, scans, Change, StoreModel};
use crate::table::{holds_key, Row};
use crate::types::{AuthError, Identity, Pixel, Timestamp};

verus! {

/// One call of an operation, with its arguments.
pub enum Call {
    Connect,
    Disconnect,
    SyncUser { clerk_id: String, email: Option<String>, username: Option<String> },
    AddAdmin { target: Identity },
    RemoveAdmin { target: Identity },
    ClearGrid { scan: Seq<Pixel> },
    Paint { positions: Seq<u32>, color: Option<String> },
}

impl StoreModel {
    /// The store after `sender` makes the call `call` at `now`.
    pub open spec fn apply(self, sender: Identity, now: Timestamp, call: Call) -> StoreModel {
        match call {
            Call::Connect => self.connect(sender, now),
            Call::Disconnect => self.disconnect(sender),
            Call::SyncUser { clerk_id, email, username } => self.sync_user(
                sender,
                now,
                clerk_id,
                email,
                username,
            ),
            Call::AddAdmin { target } => self.add_admin(sender, target),
            Call::RemoveAdmin { target } => self.remove_admin(sender, target),
            Call::ClearGrid { scan } => self.clear_grid(sender, scan),
            Call::Paint { positions, color } => self.paint(sender, now, positions, color),
        }
    }
}

/// The addresses of a batch that lie in the grid, in their order.
pub open spec fn in_grid_only(positions: Seq<u32>) -> Seq<u32>
    decreases positions.len(),
{
    if positions.len() == 0 {
        Seq::empty()
    } else if in_grid(positions.last()) {
        in_grid_only(positions.drop_last()).push(positions.last())
    } else {
        in_grid_only(positions.drop_last())
    }
}

/// A painted batch shows in every cell that it addresses: the cell holds the
/// colour of the batch, the painter, and the time of the call.
pub proof fn paint_then_read(
    s: StoreModel,
    sender: Identity,
    now: Timestamp,
    positions: Seq<u32>,
    color: String,
    position: u32,
)
    requires
        s.user.contains_key(sender),
        s.is_present(sender),
        in_grid(position),
        positions.contains(position),
    ensures
        s.paint(sender, now, positions, Some(color)).pixel.contains_key(position),
        s.paint(sender, now, positions, Some(color)).pixel[position] == (Pixel {
            position,
            color,
            last_modified_by: sender,
            timestamp: now,
        }),
{
    let i = choose|i: int| 0 <= i < positions.len() && positions[i] == position;
    assert(in_grid(positions[i]));
}

/// A batch without a colour removes the row of every cell that it
/// addresses, also where an earlier batch had painted the cell.
pub proof fn erase_after_paint(
    s: StoreModel,
    painter: Identity,
    painted_at: Timestamp,
    painted: Seq<u32>,
    color: String,
    eraser: Identity,
    erased_at: Timestamp,
    erased: Seq<u32>,
    position: u32,
)
    requires
        s.user.contains_key(painter),
        s.is_present(painter),
        s.user.contains_key(eraser),
        s.is_present(eraser),
        in_grid(position),
        painted.contains(position),
        erased.contains(position),
    ensures
        s.paint(painter, painted_at, painted, Some(color)).pixel.contains_key(position),
        !s.paint(painter, painted_at, painted, Some(color)).paint(
            eraser,
            erased_at,
            erased,
            None,
        ).pixel.contains_key(position),
{
    let i = choose|i: int| 0 <= i < painted.len() && painted[i] == position;
    assert(in_grid(painted[i]));
    let j = choose|j: int| 0 <= j < erased.len() && erased[j] == position;
    assert(in_grid(erased[j]));
    let mid = s.paint(painter, painted_at, painted, Some(color));
    assert(mid.user.contains_key(eraser));
    assert(mid.paint_applies(eraser, erased));
}

/// A paint by an identity without a profile, or without a presence row,
/// writes nothing: no row changes and no change is journalled.
pub proof fn paint_without_profile_or_presence(
    s: StoreModel,
    sender: Identity,
    now: Timestamp,
    positions: Seq<u32>,
    color: Option<String>,
)
    requires
        !s.user.contains_key(sender) || !s.is_present(sender),
    ensures
        s.paint(sender, now, positions, color) == s,
{
}

/// A batch is carried out as a whole or not at all: either the store is
/// left exactly as it was, or every cell that the batch addresses shows it.
pub proof fn paint_is_all_or_nothing(
    s: StoreModel,
    sender: Identity,
    now: Timestamp,
    positions: Seq<u32>,
    color: Option<String>,
)
    ensures
        s.paint(sender, now, positions, color) == s || forall|p: u32|
            addressed(positions, p) ==> (match color {
                Some(c) => s.paint(sender, now, positions, color).pixel.contains_key(p) && s.paint(
                    sender,
                    now,
                    positions,
                    color,
                ).pixel[p] == painted_pixel(p, c, sender, now),
                None => !s.paint(sender, now, positions, color).pixel.contains_key(p),
            }),
{
}

/// An address is in the grid-only batch exactly if the batch addresses it.
proof fn lemma_in_grid_only(positions: Seq<u32>)
    ensures
        forall|p: u32| #[trigger] in_grid_only(positions).contains(p) <==> addressed(positions, p),
    decreases positions.len(),
{
    if positions.len() > 0 {
        let init = positions.drop_last();
        let last = positions.last();
        lemma_in_grid_only(init);
        let kept = in_grid_only(init);
        let all = in_grid_only(positions);
        assert forall|p: u32| #[trigger] all.contains(p) <==> addressed(positions, p) by {
            assert(kept.contains(p) <==> addressed(init, p));
            if all.contains(p) {
                let i = choose|i: int| 0 <= i < all.len() && all[i] == p;
                if i < kept.len() {
                    assert(kept[i] == p);
                    let j = choose|j: int| 0 <= j < init.len() && init[j] == p;
                    assert(positions[j] == p);
                } else {
                    assert(positions[positions.len() - 1] == p);
                }
            }
            if addressed(positions, p) {
                let j = choose|j: int| 0 <= j < positions.len() && positions[j] == p;
                if j < init.len() {
                    assert(init[j] == p);
                    let i = choose|i: int| 0 <= i < kept.len() && kept[i] == p;
                    assert(all[i] == p);
                } else {
                    assert(all[all.len() - 1] == p);
                }
            }
        }
    }
}

/// Leaving out the addresses outside the grid changes neither the pixels
/// nor the changes that a batch makes.
proof fn lemma_grid_only_paints_alike(
    before: Map<u32, Pixel>,
    positions: Seq<u32>,
    color: Option<String>,
    by: Identity,
    at: Timestamp,
)
    ensures
        painted_pixels(before, in_grid_only(positions), color, by, at) == painted_pixels(
            before,
            positions,
            color,
            by,
            at,
        ),
        paint_changes(before, in_grid_only(positions), color, by, at) == paint_changes(
            before,
            positions,
            color,
            by,
            at,
        ),
    decreases positions.len(),
{
    lemma_in_grid_only(positions);
    assert(painted_pixels(before, in_grid_only(positions), color, by, at) =~= painted_pixels(
        before,
        positions,
        color,
        by,
        at,
    ));
    if positions.len() > 0 {
        let init = positions.drop_last();
        let last = positions.last();
        lemma_grid_only_paints_alike(before, init, color, by, at);
        if in_grid(last) {
            let all = in_grid_only(positions);
            assert(all.drop_last() == in_grid_only(init));
            assert(all.last() == last);
        } else {
            assert(cell_changes(
                painted_pixels(before, init, color, by, at),
                last,
                color,
                by,
                at,
            ) == Seq::<Change>::empty());
            assert(paint_changes(before, positions, color, by, at) =~= paint_changes(
                before,
                init,
                color,
                by,
                at,
            ));
        }
    }
}

/// Addresses outside the grid are skipped and the rest of the batch is
/// carried out: the batch does exactly what it would do without them, and
/// no cell outside the grid gains or loses a row.
pub proof fn paint_skips_out_of_range(
    s: StoreModel,
    sender: Identity,
    now: Timestamp,
    positions: Seq<u32>,
    color: Option<String>,
)
    ensures
        s.paint(sender, now, positions, color) == s.paint(
            sender,
            now,
            in_grid_only(positions),
            color,
        ),
        forall|p: u32|
            !in_grid(p) ==> (#[trigger] s.paint(sender, now, positions, color).pixel.contains_key(p)
                <==> s.pixel.contains_key(p)),
{
    let kept = in_grid_only(positions);
    lemma_in_grid_only(positions);
    lemma_grid_only_paints_alike(s.pixel, positions, color, sender, now);
    if s.paint_applies(sender, positions) {
        let i = choose|i: int| 0 <= i < positions.len() && in_grid(#[trigger] positions[i]);
        assert(addressed(positions, positions[i]));
        assert(kept.contains(positions[i]));
        let j = choose|j: int| 0 <= j < kept.len() && kept[j] == positions[i];
        assert(in_grid(kept[j]));
        assert(s.paint_applies(sender, kept));
    }
    if s.paint_applies(sender, kept) {
        let j = choose|j: int| 0 <= j < kept.len() && in_grid(#[trigger] kept[j]);
        assert(kept.contains(kept[j]));
        assert(addressed(positions, kept[j]));
        let i = choose|i: int| 0 <= i < positions.len() && positions[i] == kept[j];
        assert(in_grid(positions[i]));
        assert(s.paint_applies(sender, positions));
    }
}

/// While there is no administrator, any caller may name one, and the one
/// named is then the only administrator.
pub proof fn first_admin(s: StoreModel, caller: Identity, target: Identity)
    requires
        s.may_bootstrap(),
    ensures
        s.may_add_admin(caller),
        s.add_admin(caller, target).admin.dom() == set![target],
        !s.add_admin(caller, target).may_bootstrap(),
{
    let after = s.add_admin(caller, target);
    assert(after.admin.dom() =~= set![target]);
    assert(after.admin.contains_key(target));
}

/// Once there is an administrator, only an administrator may name another:
/// the request of anyone else is refused and changes nothing.
pub proof fn later_admins_need_an_admin(s: StoreModel, caller: Identity, target: Identity)
    requires
        !s.may_bootstrap(),
    ensures
        s.may_add_admin(caller) <==> s.is_admin(caller),
        !s.is_admin(caller) ==> s.add_admin(caller, target) == s,
        s.is_admin(caller) ==> s.add_admin(caller, target).is_admin(target),
{
}

/// The only administrator cannot be removed: the request is refused and
/// changes nothing.
pub proof fn last_admin_is_protected(s: StoreModel, caller: Identity, target: Identity)
    requires
        s.is_admin(caller),
        s.admin.dom() == set![target],
    ensures
        s.remove_admin_refusal(caller, target) == Some(AuthError::LastAdminProtected),
        s.remove_admin(caller, target) == s,
{
    assert(set![target].contains(target));
    assert(set![target].len() == 1) by {
        assert(Set::<Identity>::empty().insert(target).len() == 1);
    }
}

/// Of two administrators one can be removed, and one is left.
pub proof fn one_of_two_admins_can_go(s: StoreModel, caller: Identity, target: Identity)
    requires
        s.well_formed(),
        s.admin.dom().len() == 2,
        s.is_admin(caller),
        s.is_admin(target),
    ensures
        s.remove_admin_refusal(caller, target) is None,
        s.remove_admin(caller, target).admin.dom().len() == 1,
        !s.remove_admin(caller, target).is_admin(target),
{
    assert(s.remove_admin(caller, target).admin.dom() =~= s.admin.dom().remove(target));
}

/// No operation takes the last administrator away: a store that had an
/// administrator before a call has one after it.
pub proof fn admins_never_run_out(s: StoreModel, sender: Identity, now: Timestamp, call: Call)
    requires
        s.well_formed(),
        !s.may_bootstrap(),
    ensures
        !s.apply(sender, now, call).may_bootstrap(),
{
    let after = s.apply(sender, now, call);
    let some = choose|identity: Identity| s.admin.contains_key(identity);
    match call {
        Call::RemoveAdmin { target } => {
            if s.remove_admin_refusal(sender, target) is None && s.is_admin(target) {
                assert(after.admin.dom() =~= s.admin.dom().remove(target));
                if after.may_bootstrap() {
                    assert(after.admin.dom() =~= Set::<Identity>::empty());
                }
            } else {
                assert(after.admin.contains_key(some));
            }
        },
        _ => {
            assert(after.admin.contains_key(some));
        },
    }
}

/// The pixel table after a batch is finite if it was before.
proof fn lemma_painted_pixels_finite(
    before: Map<u32, Pixel>,
    positions: Seq<u32>,
    color: Option<String>,
    by: Identity,
    at: Timestamp,
)
    requires
        before.dom().finite(),
    ensures
        painted_pixels(before, positions, color, by, at).dom().finite(),
    decreases positions.len(),
{
    if positions.len() == 0 {
        assert(painted_pixels(before, positions, color, by, at) =~= before);
    } else {
        let n = positions.len() as int;
        lemma_painted_pixels_finite(before, positions.drop_last(), color, by, at);
        lemma_paint_step(before, positions, n - 1, color, by, at);
        assert(positions.take(n) == positions);
        assert(positions.take(n - 1) == positions.drop_last());
    }
}

/// Every operation leaves the store well formed: each table finite, each
/// row under its own key.
pub proof fn store_stays_well_formed(s: StoreModel, sender: Identity, now: Timestamp, call: Call)
    requires
        s.well_formed(),
    ensures
        s.apply(sender, now, call).well_formed(),
{
    match call {
        Call::Paint { positions, color } => {
            lemma_painted_pixels_finite(s.pixel, positions, color, sender, now);
        },
        _ => {},
    }
}

/// Every operation keeps the rows valid: no pixel outside the grid is ever
/// stored, and no profile without an account id.
pub proof fn rows_stay_valid(s: StoreModel, sender: Identity, now: Timestamp, call: Call)
    requires
        s.valid(),
    ensures
        s.apply(sender, now, call).valid(),
{
}

/// Every operation only adds to the journal.
pub proof fn journal_only_grows(s: StoreModel, sender: Identity, now: Timestamp, call: Call)
    ensures
        s.changes.is_prefix_of(s.apply(sender, now, call).changes),
{
}

/// Each table changes only through the operations that are made for it,
/// and no operation deletes a profile.
pub proof fn tables_change_only_by_their_operations(
    s: StoreModel,
    sender: Identity,
    now: Timestamp,
    call: Call,
)
    ensures
        !(call is Connect || call is Disconnect) ==> s.apply(sender, now, call).connected_user
            == s.connected_user,
        !(call is AddAdmin || call is RemoveAdmin) ==> s.apply(sender, now, call).admin == s.admin,
        !(call is Paint || call is ClearGrid) ==> s.apply(sender, now, call).pixel == s.pixel,
        !(call is Connect || call is SyncUser || call is Paint) ==> s.apply(sender, now, call).user
            == s.user,
        forall|identity: Identity|
            s.user.contains_key(identity) ==> #[trigger] s.apply(
                sender,
                now,
                call,
            ).user.contains_key(identity),
{
}

/// Presence follows the connection: an identity is present after it
/// connects and absent after it disconnects, and nobody else's presence
/// changes with it.
pub proof fn presence_follows_the_connection(
    s: StoreModel,
    sender: Identity,
    now: Timestamp,
    other: Identity,
)
    ensures
        s.connect(sender, now).is_present(sender),
        s.connect(sender, now).connected_user[sender].connected_at == now,
        !s.disconnect(sender).is_present(sender),
        other != sender ==> s.connect(sender, now).is_present(other) == s.is_present(other),
        other != sender ==> s.disconnect(sender).is_present(other) == s.is_present(other),
        s.connect(sender, now).user.dom() == s.user.dom(),
{
    assert(s.connect(sender, now).user.dom() =~= s.user.dom());
}

/// A sync never clears what is stored: the account id and the time of the
/// call are taken over; an e-mail or user name that is given and not empty
/// replaces the stored one; one that is absent or empty leaves the stored
/// one in place. Where no profile is stored yet, the incoming values are
/// stored as they are.
pub proof fn sync_merges_the_profile(
    s: StoreModel,
    sender: Identity,
    now: Timestamp,
    clerk_id: String,
    email: Option<String>,
    username: Option<String>,
)
    requires
        clerk_id@.len() > 0,
    ensures
        s.sync_user(sender, now, clerk_id, email, username).user.contains_key(sender),
        s.sync_user(sender, now, clerk_id, email, username).user[sender].identity == sender,
        s.sync_user(sender, now, clerk_id, email, username).user[sender].clerk_id == clerk_id,
        s.sync_user(sender, now, clerk_id, email, username).user[sender].last_active == now,
        has_text(email) || !s.user.contains_key(sender) ==> s.sync_user(
            sender,
            now,
            clerk_id,
            email,
            username,
        ).user[sender].email == email,
        has_text(username) || !s.user.contains_key(sender) ==> s.sync_user(
            sender,
            now,
            clerk_id,
            email,
            username,
        ).user[sender].username == username,
        !has_text(email) && s.user.contains_key(sender) ==> s.sync_user(
            sender,
            now,
            clerk_id,
            email,
            username,
        ).user[sender].email == s.user[sender].email,
        !has_text(username) && s.user.contains_key(sender) ==> s.sync_user(
            sender,
            now,
            clerk_id,
            email,
            username,
        ).user[sender].username == s.user[sender].username,
        s.user.contains_key(sender) && has_text(s.user[sender].email) ==> has_text(
            s.sync_user(sender, now, clerk_id, email, username).user[sender].email,
        ),
        s.user.contains_key(sender) && has_text(s.user[sender].username) ==> has_text(
            s.sync_user(sender, now, clerk_id, email, username).user[sender].username,
        ),
{
}

/// Applying one more change after `changes`.
proof fn lemma_applied_push(s: StoreModel, changes: Seq<Change>, change: Change)
    ensures
        s.applied_all(changes.push(change)) == s.applied_all(changes).applied(change),
        s.admits_all(changes.push(change)) == (s.admits_all(changes) && s.applied_all(
            changes,
        ).admits(change)),
{
    assert(changes.push(change).drop_last() == changes);
}

/// Applying `first` and then `then` is applying the two in a row.
proof fn lemma_applied_concat(s: StoreModel, first: Seq<Change>, then: Seq<Change>)
    ensures
        s.applied_all(first + then) == s.applied_all(first).applied_all(then),
        s.admits_all(first + then) == (s.admits_all(first) && s.applied_all(first).admits_all(
            then,
        )),
    decreases then.len(),
{
    if then.len() == 0 {
        assert(first + then == first);
    } else {
        lemma_applied_concat(s, first, then.drop_last());
        assert(first + then == (first + then.drop_last()).push(then.last()));
        lemma_applied_push(s, first + then.drop_last(), then.last());
    }
}

/// The changes of a batch, applied to tables whose pixels are `before`, give
/// the pixels after the batch, and each change finds the table as it must.
proof fn lemma_paint_changes_replay(
    t: StoreModel,
    positions: Seq<u32>,
    n: int,
    color: Option<String>,
    by: Identity,
    at: Timestamp,
)
    requires
        0 <= n <= positions.len(),
    ensures
        t.admits_all(paint_changes(t.pixel, positions.take(n), color, by, at)),
        t.applied_all(paint_changes(t.pixel, positions.take(n), color, by, at)) == (StoreModel {
            pixel: painted_pixels(t.pixel, positions.take(n), color, by, at),
            ..t
        }),
    decreases n,
{
    if n == 0 {
        assert(painted_pixels(t.pixel, positions.take(0), color, by, at) =~= t.pixel);
    } else {
        lemma_paint_changes_replay(t, positions, n - 1, color, by, at);
        lemma_paint_step(t.pixel, positions, n - 1, color, by, at);
        let earlier = paint_changes(t.pixel, positions.take(n - 1), color, by, at);
        let mid = painted_pixels(t.pixel, positions.take(n - 1), color, by, at);
        let position = positions[n - 1];
        let cell = cell_changes(mid, position, color, by, at);
        let all = paint_changes(t.pixel, positions.take(n), color, by, at);
        let after = painted_pixels(t.pixel, positions.take(n), color, by, at);
        if cell.len() == 0 {
            assert(all == earlier);
            assert(after =~= mid);
        } else {
            assert(all == earlier.push(cell[0]));
            lemma_applied_push(t, earlier, cell[0]);
            assert(t.applied_all(earlier).applied(cell[0]).pixel =~= after);
        }
        assert(t.applied_all(all) == (StoreModel { pixel: after, ..t }));
    }
}

/// The pixels of `pixel` that `scan` does not list.
spec fn unlisted(pixel: Map<u32, Pixel>, scan: Seq<Pixel>) -> Map<u32, Pixel> {
    Map::new(|p: u32| pixel.contains_key(p) && !holds_key(scan, p), |p: u32| pixel[p])
}

/// The deletions of the first `n` rows of a scan remove exactly those rows,
/// and each of them finds its row.
proof fn lemma_deletions_replay(s: StoreModel, scan: Seq<Pixel>, n: int)
    requires
        scans(scan, s.pixel),
        0 <= n <= scan.len(),
    ensures
        s.admits_all(deletions(scan.take(n))),
        s.applied_all(deletions(scan.take(n))) == (StoreModel {
            pixel: unlisted(s.pixel, scan.take(n)),
            ..s
        }),
    decreases n,
{
    if n == 0 {
        assert(deletions(scan.take(0)) == Seq::<Change>::empty());
        assert(unlisted(s.pixel, scan.take(0)) =~= s.pixel);
    } else {
        lemma_deletions_replay(s, scan, n - 1);
        let done = scan.take(n - 1);
        let next = scan.take(n);
        let gone = scan[n - 1].position;
        assert(deletions(next) == deletions(done).push(Change::PixelDeleted(gone)));
        lemma_applied_push(s, deletions(done), Change::PixelDeleted(gone));
        assert(!holds_key(done, gone)) by {
            if holds_key(done, gone) {
                let i = choose|i: int| 0 <= i < done.len() && #[trigger] done[i].key() == gone;
                assert(scan[i].key() != scan[n - 1].key());
            }
        }
        assert forall|p: u32| holds_key(next, p) <==> (holds_key(done, p) || p == gone) by {
            if holds_key(next, p) {
                let i = choose|i: int| 0 <= i < next.len() && #[trigger] next[i].key() == p;
                if i < n - 1 {
                    assert(done[i].key() == p);
                }
            }
            if holds_key(done, p) {
                let i = choose|i: int| 0 <= i < done.len() && #[trigger] done[i].key() == p;
                assert(next[i].key() == p);
            }
            if p == gone {
                assert(next[n - 1].key() == p);
            }
        }
        assert(unlisted(s.pixel, next) =~= unlisted(s.pixel, done).remove(gone));
    }
}

/// The journal tells the whole step: the changes that a call adds to the
/// journal, applied in their order to the tables before the call, give the
/// tables after it, and each change finds the tables as it must (no
/// insertion over a row, no update or deletion of a missing one).
pub proof fn journal_tells_the_step(s: StoreModel, sender: Identity, now: Timestamp, call: Call)
    requires
        call matches Call::ClearGrid { scan } ==> scans(scan, s.pixel),
    ensures
        s.changes.is_prefix_of(s.apply(sender, now, call).changes),
        s.admits_all(s.apply(sender, now, call).changes.skip(s.changes.len() as int)),
        s.applied_all(s.apply(sender, now, call).changes.skip(s.changes.len() as int)).with_changes(
            s.apply(sender, now, call).changes,
        ) == s.apply(sender, now, call),
{
    let after = s.apply(sender, now, call);
    let told = after.changes.skip(s.changes.len() as int);
    let none = Seq::<Change>::empty();
    match call {
        Call::Connect => {
            let mid = s.put_connected_user(
                crate::types::ConnectedUser { identity: sender, connected_at: now },
            );
            let first = mid.changes.skip(s.changes.len() as int);
            assert(first == seq![mid.changes.last()]);
            lemma_applied_push(s, none, first[0]);
            assert(none.push(first[0]) == first);
            if mid.user.contains_key(sender) {
                assert(told == first.push(after.changes.last()));
                lemma_applied_push(s, first, after.changes.last());
            } else {
                assert(told == first);
            }
            assert(s.applied_all(told).with_changes(after.changes) =~= after);
        },
        Call::ClearGrid { scan } => {
            if s.is_admin(sender) {
                assert(told == deletions(scan));
                lemma_deletions_replay(s, scan, scan.len() as int);
                assert(scan.take(scan.len() as int) == scan);
                assert(unlisted(s.pixel, scan) =~= Map::<u32, Pixel>::empty());
            } else {
                assert(told == none);
            }
        },
        Call::Paint { positions, color } => {
            if s.paint_applies(sender, positions) {
                let touched = s.touch_user(sender, now);
                let first = seq![touched.changes.last()];
                let batch = paint_changes(s.pixel, positions, color, sender, now);
                assert(told == first + batch);
                lemma_applied_push(s, none, first[0]);
                assert(none.push(first[0]) == first);
                let t = s.applied_all(first);
                lemma_paint_changes_replay(t, positions, positions.len() as int, color, sender, now);
                assert(positions.take(positions.len() as int) == positions);
                lemma_applied_concat(s, first, batch);
                assert(s.applied_all(told).with_changes(after.changes) =~= after);
            } else {
                assert(told == none);
            }
        },
        _ => {
            if after == s {
                assert(told == none);
            } else {
                assert(told == seq![after.changes.last()]);
                lemma_applied_push(s, none, told[0]);
                assert(none.push(told[0]) == told);
                assert(s.applied_all(told).with_changes(after.changes) =~= after);
            }
        },
    }
}

/// A call that is refused changes nothing.
pub proof fn refusal_changes_nothing(s: StoreModel, sender: Identity, now: Timestamp, call: Call)
    ensures
        match call {
            Call::SyncUser { clerk_id, .. } => clerk_id@.len() == 0 ==> s.apply(sender, now, call)
                == s,
            Call::AddAdmin { .. } => !s.may_add_admin(sender) ==> s.apply(sender, now, call) == s,
            Call::RemoveAdmin { target } => s.remove_admin_refusal(sender, target) is Some
                ==> s.apply(sender, now, call) == s,
            Call::ClearGrid { .. } => !s.is_admin(sender) ==> s.apply(sender, now, call) == s,
            _ => true,
        },
{
}

} // verus!

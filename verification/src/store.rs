//! The entity store: the four tables, and the journal of every row change
//! in the order in which it was applied.

use vstd::prelude::*;
use crate::table::{
    distinct_keys, holds_key, keyed, lemma_keyed_finite, row_index, Row, Table,
};
use crate::types::{copy_text, Admin, ConnectedUser, Identity, Pixel, Timestamp, User, GRID_CELLS};

verus! {

/// One change of one row, as subscribers are told of it.
#[derive(Debug, PartialEq, Eq)]
pub enum Change {
    ConnectedUserInserted(ConnectedUser),
    ConnectedUserUpdated(ConnectedUser),
    ConnectedUserDeleted(Identity),
    PixelInserted(Pixel),
    PixelUpdated(Pixel),
    PixelDeleted(u32),
    UserInserted(User),
    UserUpdated(User),
    AdminInserted(Admin),
    AdminDeleted(Identity),
}

impl Clone for Change {
    fn clone(&self) -> (copy: Self)
        ensures
            copy == *self,
    {
        match self {
            Change::ConnectedUserInserted(row) => Change::ConnectedUserInserted(*row),
            Change::ConnectedUserUpdated(row) => Change::ConnectedUserUpdated(*row),
            Change::ConnectedUserDeleted(identity) => Change::ConnectedUserDeleted(*identity),
            Change::PixelInserted(row) => Change::PixelInserted(row.clone()),
            Change::PixelUpdated(row) => Change::PixelUpdated(row.clone()),
            Change::PixelDeleted(position) => Change::PixelDeleted(*position),
            Change::UserInserted(row) => Change::UserInserted(row.clone()),
            Change::UserUpdated(row) => Change::UserUpdated(row.clone()),
            Change::AdminInserted(row) => Change::AdminInserted(*row),
            Change::AdminDeleted(identity) => Change::AdminDeleted(*identity),
        }
    }
}

/// One deletion for each of `rows`, in their order.
pub open spec fn deletions(rows: Seq<Pixel>) -> Seq<Change> {
    Seq::new(rows.len(), |i: int| Change::PixelDeleted(rows[i].position))
}

/// `scan` lists the rows of `pixel`, each of them once.
pub open spec fn scans(scan: Seq<Pixel>, pixel: Map<u32, Pixel>) -> bool {
    &&& distinct_keys(scan)
    &&& forall|i: int| 0 <= i < scan.len() ==> pixel.contains_key(#[trigger] scan[i].position)
    &&& forall|p: u32| pixel.contains_key(p) ==> holds_key(scan, p)
}

/// The store as mathematics: each table a map from key to row, and the
/// journal a sequence.
pub struct StoreModel {
    pub connected_user: Map<Identity, ConnectedUser>,
    pub pixel: Map<u32, Pixel>,
    pub user: Map<Identity, User>,
    pub admin: Map<Identity, Admin>,
    pub changes: Seq<Change>,
}

impl StoreModel {
    /// The store with no row and no change.
    pub open spec fn empty() -> StoreModel {
        StoreModel {
            connected_user: Map::empty(),
            pixel: Map::empty(),
            user: Map::empty(),
            admin: Map::empty(),
            changes: Seq::empty(),
        }
    }

    /// Every table is finite and holds each row under the row's own key.
    pub open spec fn well_formed(self) -> bool {
        &&& self.connected_user.dom().finite()
        &&& self.pixel.dom().finite()
        &&& self.user.dom().finite()
        &&& self.admin.dom().finite()
        &&& forall|id: Identity| #[trigger]
            self.connected_user.contains_key(id) ==> self.connected_user[id].identity == id
        &&& forall|p: u32| #[trigger] self.pixel.contains_key(p) ==> self.pixel[p].position == p
        &&& forall|id: Identity| #[trigger]
            self.user.contains_key(id) ==> self.user[id].identity == id
        &&& forall|id: Identity| #[trigger]
            self.admin.contains_key(id) ==> self.admin[id].identity == id
    }

    /// What must hold of the rows themselves: no pixel outside the grid, no
    /// profile without an account id.
    pub open spec fn valid(self) -> bool {
        &&& forall|p: u32| #[trigger] self.pixel.contains_key(p) ==> p < GRID_CELLS
        &&& forall|id: Identity| #[trigger]
            self.user.contains_key(id) ==> self.user[id].clerk_id@.len() > 0
    }

    /// `change` finds the tables as it must: an insertion finds no row of its
    /// key, an update or a deletion finds one.
    pub open spec fn admits(self, change: Change) -> bool {
        match change {
            Change::ConnectedUserInserted(row) => !self.connected_user.contains_key(row.identity),
            Change::ConnectedUserUpdated(row) => self.connected_user.contains_key(row.identity),
            Change::ConnectedUserDeleted(identity) => self.connected_user.contains_key(identity),
            Change::PixelInserted(row) => !self.pixel.contains_key(row.position),
            Change::PixelUpdated(row) => self.pixel.contains_key(row.position),
            Change::PixelDeleted(position) => self.pixel.contains_key(position),
            Change::UserInserted(row) => !self.user.contains_key(row.identity),
            Change::UserUpdated(row) => self.user.contains_key(row.identity),
            Change::AdminInserted(row) => !self.admin.contains_key(row.identity),
            Change::AdminDeleted(identity) => self.admin.contains_key(identity),
        }
    }

    /// The tables after `change` is applied to them. The journal stays as it is.
    pub open spec fn applied(self, change: Change) -> StoreModel {
        match change {
            Change::ConnectedUserInserted(row) => StoreModel {
                connected_user: self.connected_user.insert(row.identity, row),
                ..self
            },
            Change::ConnectedUserUpdated(row) => StoreModel {
                connected_user: self.connected_user.insert(row.identity, row),
                ..self
            },
            Change::ConnectedUserDeleted(identity) => StoreModel {
                connected_user: self.connected_user.remove(identity),
                ..self
            },
            Change::PixelInserted(row) => StoreModel {
                pixel: self.pixel.insert(row.position, row),
                ..self
            },
            Change::PixelUpdated(row) => StoreModel {
                pixel: self.pixel.insert(row.position, row),
                ..self
            },
            Change::PixelDeleted(position) => StoreModel {
                pixel: self.pixel.remove(position),
                ..self
            },
            Change::UserInserted(row) => StoreModel {
                user: self.user.insert(row.identity, row),
                ..self
            },
            Change::UserUpdated(row) => StoreModel {
                user: self.user.insert(row.identity, row),
                ..self
            },
            Change::AdminInserted(row) => StoreModel {
                admin: self.admin.insert(row.identity, row),
                ..self
            },
            Change::AdminDeleted(identity) => StoreModel {
                admin: self.admin.remove(identity),
                ..self
            },
        }
    }

    /// The tables after `changes` are applied one after the other.
    pub open spec fn applied_all(self, changes: Seq<Change>) -> StoreModel
        decreases changes.len(),
    {
        if changes.len() == 0 {
            self
        } else {
            self.applied_all(changes.drop_last()).applied(changes.last())
        }
    }

    /// Each of `changes`, applied in turn, finds the tables as it must.
    pub open spec fn admits_all(self, changes: Seq<Change>) -> bool
        decreases changes.len(),
    {
        changes.len() == 0 || (self.admits_all(changes.drop_last()) && self.applied_all(
            changes.drop_last(),
        ).admits(changes.last()))
    }

    /// The same tables with another journal.
    pub open spec fn with_changes(self, changes: Seq<Change>) -> StoreModel {
        StoreModel { changes, ..self }
    }

    /// The store after `row` is inserted, or replaces the row of its identity.
    pub open spec fn put_connected_user(self, row: ConnectedUser) -> StoreModel {
        StoreModel {
            connected_user: self.connected_user.insert(row.identity, row),
            changes: self.changes.push(
                if self.connected_user.contains_key(row.identity) {
                    Change::ConnectedUserUpdated(row)
                } else {
                    Change::ConnectedUserInserted(row)
                },
            ),
            ..self
        }
    }

    /// The store after the presence row of `identity`, if any, is deleted.
    pub open spec fn delete_connected_user(self, identity: Identity) -> StoreModel {
        if self.connected_user.contains_key(identity) {
            StoreModel {
                connected_user: self.connected_user.remove(identity),
                changes: self.changes.push(Change::ConnectedUserDeleted(identity)),
                ..self
            }
        } else {
            self
        }
    }

    /// The store after `row` is inserted, or replaces the row of its position.
    pub open spec fn put_pixel(self, row: Pixel) -> StoreModel {
        StoreModel {
            pixel: self.pixel.insert(row.position, row),
            changes: self.changes.push(
                if self.pixel.contains_key(row.position) {
                    Change::PixelUpdated(row)
                } else {
                    Change::PixelInserted(row)
                },
            ),
            ..self
        }
    }

    /// The store after the pixel at `position`, if any, is deleted.
    pub open spec fn delete_pixel(self, position: u32) -> StoreModel {
        if self.pixel.contains_key(position) {
            StoreModel {
                pixel: self.pixel.remove(position),
                changes: self.changes.push(Change::PixelDeleted(position)),
                ..self
            }
        } else {
            self
        }
    }

    /// The store after every pixel is deleted, one by one in the order `scan`.
    pub open spec fn clear_pixels(self, scan: Seq<Pixel>) -> StoreModel {
        StoreModel { pixel: Map::empty(), changes: self.changes + deletions(scan), ..self }
    }

    /// The store after `row` is inserted, or replaces the row of its identity.
    pub open spec fn put_user(self, row: User) -> StoreModel {
        StoreModel {
            user: self.user.insert(row.identity, row),
            changes: self.changes.push(
                if self.user.contains_key(row.identity) {
                    Change::UserUpdated(row)
                } else {
                    Change::UserInserted(row)
                },
            ),
            ..self
        }
    }

    /// The store after the profile of `identity`, if there is one, is marked
    /// as active at `now`.
    pub open spec fn touch_user(self, identity: Identity, now: Timestamp) -> StoreModel {
        if self.user.contains_key(identity) {
            self.put_user(User { identity, last_active: now, ..self.user[identity] })
        } else {
            self
        }
    }

    /// The store after `identity` is made an administrator, unless it is one.
    pub open spec fn insert_admin(self, identity: Identity) -> StoreModel {
        if self.admin.contains_key(identity) {
            self
        } else {
            StoreModel {
                admin: self.admin.insert(identity, Admin { identity }),
                changes: self.changes.push(Change::AdminInserted(Admin { identity })),
                ..self
            }
        }
    }

    /// The store after `identity`, if an administrator, ceases to be one.
    pub open spec fn delete_admin(self, identity: Identity) -> StoreModel {
        if self.admin.contains_key(identity) {
            StoreModel {
                admin: self.admin.remove(identity),
                changes: self.changes.push(Change::AdminDeleted(identity)),
                ..self
            }
        } else {
            self
        }
    }
}

/// The four tables and the journal. Only the operations of this crate change
/// a store; everyone else reads it.
pub struct Store {
    connected_user: Table<ConnectedUser>,
    pixel: Table<Pixel>,
    user: Table<User>,
    admin: Table<Admin>,
    changes: Vec<Change>,
}

impl View for Store {
    type V = StoreModel;

    closed spec fn view(&self) -> StoreModel {
        StoreModel {
            connected_user: self.connected_user@,
            pixel: self.pixel@,
            user: self.user@,
            admin: self.admin@,
            changes: self.changes@,
        }
    }
}

/// Each row of a keyed map sits under its own key.
proof fn lemma_keyed_own_key<R: Row>(rows: Seq<R>)
    ensures
        forall|k: R::Key| #[trigger] keyed(rows).contains_key(k) ==> keyed(rows)[k].key() == k,
{
    assert forall|k: R::Key| #[trigger] keyed(rows).contains_key(k) implies keyed(rows)[k].key()
        == k by {
        assert(holds_key(rows, k));
        let i = row_index(rows, k);
        assert(rows[i].key() == k);
    }
}

impl Store {
    /// The pixel rows in the order in which a scan yields them.
    pub closed spec fn pixel_scan(&self) -> Seq<Pixel> {
        self.pixel.rows()
    }

    /// The view of any store is well formed.
    pub proof fn lemma_well_formed(&self)
        ensures
            self@.well_formed(),
    {
        lemma_keyed_finite(self.connected_user.rows());
        lemma_keyed_finite(self.pixel.rows());
        lemma_keyed_finite(self.user.rows());
        lemma_keyed_finite(self.admin.rows());
        lemma_keyed_own_key(self.connected_user.rows());
        lemma_keyed_own_key(self.pixel.rows());
        lemma_keyed_own_key(self.user.rows());
        lemma_keyed_own_key(self.admin.rows());
    }

    /// A store without rows and without changes; a scan of its pixels
    /// yields nothing.
    pub fn new() -> (store: Self)
        ensures
            store@ == StoreModel::empty(),
            store.pixel_scan() == Seq::<Pixel>::empty(),
    {
        Store {
            connected_user: Table::new(),
            pixel: Table::new(),
            user: Table::new(),
            admin: Table::new(),
            changes: Vec::new(),
        }
    }

    /// A store that holds the given tables, with an empty journal.
    pub fn from_tables(
        connected_user: Table<ConnectedUser>,
        pixel: Table<Pixel>,
        user: Table<User>,
        admin: Table<Admin>,
    ) -> (store: Self)
        ensures
            store@ == (StoreModel {
                connected_user: connected_user@,
                pixel: pixel@,
                user: user@,
                admin: admin@,
                changes: Seq::empty(),
            }),
            store.pixel_scan() == pixel.rows(),
    {
        Store { connected_user, pixel, user, admin, changes: Vec::new() }
    }

    /// The table of connected identities.
    pub fn connected_user(&self) -> (table: &Table<ConnectedUser>)
        ensures
            table@ == self@.connected_user,
    {
        &self.connected_user
    }

    /// The table of painted cells.
    pub fn pixel(&self) -> (table: &Table<Pixel>)
        ensures
            table@ == self@.pixel,
            table.rows() == self.pixel_scan(),
            scans(self.pixel_scan(), self@.pixel),
    {
        let rows = self.pixel.scan();
        assert forall|i: int| 0 <= i < rows@.len() implies self@.pixel.contains_key(
            #[trigger] rows@[i].position,
        ) by {
            assert(self@.pixel.contains_key(rows@[i].key()));
        }
        &self.pixel
    }

    /// The table of profiles.
    pub fn user(&self) -> (table: &Table<User>)
        ensures
            table@ == self@.user,
    {
        &self.user
    }

    /// The table of administrators.
    pub fn admin(&self) -> (table: &Table<Admin>)
        ensures
            table@ == self@.admin,
    {
        &self.admin
    }

    /// The changes journalled so far, oldest first.
    pub fn changes(&self) -> (changes: &Vec<Change>)
        ensures
            changes@ == self@.changes,
    {
        &self.changes
    }

    /// Hands out the journal and leaves it empty; the tables stay as they are.
    pub fn take_changes(&mut self) -> (changes: Vec<Change>)
        ensures
            changes@ == old(self)@.changes,
            final(self)@ == old(self)@.with_changes(Seq::empty()),
            final(self).pixel_scan() == old(self).pixel_scan(),
    {
        let mut changes: Vec<Change> = Vec::new();
        std::mem::swap(&mut changes, &mut self.changes);
        changes
    }

    /// Stores the presence row `row` and journals the insertion or the update.
    pub(crate) fn put_connected_user(&mut self, row: ConnectedUser)
        ensures
            final(self)@ == old(self)@.put_connected_user(row),
            final(self).pixel_scan() == old(self).pixel_scan(),
    {
        let replaced = self.connected_user.upsert(row);
        if replaced {
            self.changes.push(Change::ConnectedUserUpdated(row));
        } else {
            self.changes.push(Change::ConnectedUserInserted(row));
        }
    }

    /// Deletes the presence row of `identity`, if any, and journals the deletion.
    pub(crate) fn delete_connected_user(&mut self, identity: &Identity)
        ensures
            final(self)@ == old(self)@.delete_connected_user(*identity),
            final(self).pixel_scan() == old(self).pixel_scan(),
    {
        let removed = self.connected_user.delete(identity);
        if removed {
            self.changes.push(Change::ConnectedUserDeleted(*identity));
        }
    }

    /// Stores the pixel `row` and journals the insertion or the update.
    pub(crate) fn put_pixel(&mut self, row: Pixel)
        ensures
            final(self)@ == old(self)@.put_pixel(row),
    {
        let copy = row.clone();
        let replaced = self.pixel.upsert(row);
        if replaced {
            self.changes.push(Change::PixelUpdated(copy));
        } else {
            self.changes.push(Change::PixelInserted(copy));
        }
    }

    /// Deletes the pixel at `position`, if any, and journals the deletion.
    pub(crate) fn delete_pixel(&mut self, position: u32)
        ensures
            final(self)@ == old(self)@.delete_pixel(position),
    {
        let removed = self.pixel.delete(&position);
        if removed {
            self.changes.push(Change::PixelDeleted(position));
        }
    }

    /// Deletes every pixel and journals the deletions in scan order.
    pub(crate) fn clear_pixels(&mut self)
        ensures
            final(self)@ == old(self)@.clear_pixels(old(self).pixel_scan()),
            final(self).pixel_scan() == Seq::<Pixel>::empty(),
    {
        let n = self.pixel.len();
        let mut i: usize = 0;
        while i < n
            invariant
                i <= n,
                n == self.pixel.rows().len(),
                self.pixel == old(self).pixel,
                self.connected_user == old(self).connected_user,
                self.user == old(self).user,
                self.admin == old(self).admin,
                self.changes@ == old(self).changes@ + deletions(old(self).pixel.rows().take(i as int)),
            decreases n - i,
        {
            let position = self.pixel.scan()[i].position;
            self.changes.push(Change::PixelDeleted(position));
            assert(old(self).pixel.rows().take(i + 1) == old(self).pixel.rows().take(
                i as int,
            ).push(old(self).pixel.rows()[i as int]));
            i += 1;
        }
        assert(old(self).pixel.rows().take(n as int) == old(self).pixel.rows());
        self.pixel.clear();
    }

    /// Stores the profile `row` and journals the insertion or the update.
    pub(crate) fn put_user(&mut self, row: User)
        ensures
            final(self)@ == old(self)@.put_user(row),
            final(self).pixel_scan() == old(self).pixel_scan(),
    {
        let copy = row.clone();
        let replaced = self.user.upsert(row);
        if replaced {
            self.changes.push(Change::UserUpdated(copy));
        } else {
            self.changes.push(Change::UserInserted(copy));
        }
    }

    /// Marks the profile of `identity`, if there is one, as active at `now`.
    pub(crate) fn touch_user(&mut self, identity: &Identity, now: Timestamp)
        ensures
            final(self)@ == old(self)@.touch_user(*identity, now),
            final(self).pixel_scan() == old(self).pixel_scan(),
    {
        let touched = match self.user.get(identity) {
            Some(found) => Some(
                User {
                    identity: found.identity,
                    clerk_id: found.clerk_id.clone(),
                    email: copy_text(&found.email),
                    username: copy_text(&found.username),
                    last_active: now,
                },
            ),
            None => None,
        };
        if let Some(row) = touched {
            self.put_user(row);
        }
    }

    /// Makes `identity` an administrator, unless it is one, and journals the insertion.
    pub(crate) fn insert_admin(&mut self, identity: Identity)
        ensures
            final(self)@ == old(self)@.insert_admin(identity),
            final(self).pixel_scan() == old(self).pixel_scan(),
    {
        let row = Admin { identity };
        if self.admin.insert(row).is_ok() {
            self.changes.push(Change::AdminInserted(row));
        }
    }

    /// Takes the administrator's rights from `identity`, if it has them, and journals the deletion.
    pub(crate) fn delete_admin(&mut self, identity: &Identity)
        ensures
            final(self)@ == old(self)@.delete_admin(*identity),
            final(self).pixel_scan() == old(self).pixel_scan(),
    {
        let removed = self.admin.delete(identity);
        if removed {
            self.changes.push(Change::AdminDeleted(*identity));
        }
    }
}

/// What a caller hands to each operation: who calls, when, and the store.
pub struct ReducerContext {
    /// The identity of the caller.
    pub sender: Identity,
    /// The time at which the operation was started.
    pub timestamp: Timestamp,
    /// The store that the operation reads and changes.
    pub db: Store,
}

} // verus!

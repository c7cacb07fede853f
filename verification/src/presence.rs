//! Who is connected: a presence row exists from connect to disconnect.

use vstd::prelude::*;
use crate::store::{ReducerContext, Store, StoreModel};
use crate::types::{ConnectedUser, Identity, Timestamp};

verus! {

impl StoreModel {
    /// `identity` is connected.
    pub open spec fn is_present(self, identity: Identity) -> bool {
        self.connected_user.contains_key(identity)
    }

    /// The store after `sender` connects at `now`: its presence row is set,
    /// and its profile, if it has one, is marked as active.
    pub open spec fn connect(self, sender: Identity, now: Timestamp) -> StoreModel {
        self.put_connected_user(ConnectedUser { identity: sender, connected_at: now }).touch_user(
            sender,
            now,
        )
    }

    /// The store after `sender` disconnects: its presence row is gone.
    pub open spec fn disconnect(self, sender: Identity) -> StoreModel {
        self.delete_connected_user(sender)
    }
}

/// Whether `identity` is connected.
pub fn is_present(store: &Store, identity: &Identity) -> (b: bool)
    ensures
        b == store@.is_present(*identity),
{
    store.connected_user().contains(identity)
}

/// The caller has connected. Connecting again without a disconnect in
/// between replaces the presence row.
pub fn identity_connected(ctx: &mut ReducerContext)
    ensures
        final(ctx).sender == old(ctx).sender,
        final(ctx).timestamp == old(ctx).timestamp,
        final(ctx).db@ == old(ctx).db@.connect(old(ctx).sender, old(ctx).timestamp),
        final(ctx).db.pixel_scan() == old(ctx).db.pixel_scan(),
{
    let sender = ctx.sender;
    let now = ctx.timestamp;
    ctx.db.put_connected_user(ConnectedUser { identity: sender, connected_at: now });
    ctx.db.touch_user(&sender, now);
}

/// The caller has disconnected. Nothing happens if it was not connected.
pub fn identity_disconnected(ctx: &mut ReducerContext)
    ensures
        final(ctx).sender == old(ctx).sender,
        final(ctx).timestamp == old(ctx).timestamp,
        final(ctx).db@ == old(ctx).db@.disconnect(old(ctx).sender),
        final(ctx).db.pixel_scan() == old(ctx).db.pixel_scan(),
{
    let sender = ctx.sender;
    ctx.db.delete_connected_user(&sender);
}

} // verus!

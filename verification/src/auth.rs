//! Who may do what: the administrator test and the first-administrator rule.

use vstd::prelude::*;
use crate::store::{Store, StoreModel};
use crate::types::Identity;

verus! {

impl StoreModel {
    /// `identity` is an administrator.
    pub open spec fn is_admin(self, identity: Identity) -> bool {
        self.admin.contains_key(identity)
    }

    /// There is no administrator yet, so anyone may name the first.
    pub open spec fn may_bootstrap(self) -> bool {
        forall|identity: Identity| !self.admin.contains_key(identity)
    }
}

/// Whether `identity` is an administrator.
pub fn is_admin(store: &Store, identity: &Identity) -> (b: bool)
    ensures
        b == store@.is_admin(*identity),
{
    store.admin().contains(identity)
}

/// Whether the table of administrators is empty.
pub fn may_bootstrap(store: &Store) -> (b: bool)
    ensures
        b == store@.may_bootstrap(),
{
    let b = store.admin().is_empty();
    proof {
        if store@.may_bootstrap() {
            assert(store@.admin =~= Map::<Identity, crate::types::Admin>::empty());
        }
    }
    b
}

} // verus!

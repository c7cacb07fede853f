//! Plain values that the tables hold: identities, timestamps, rows and errors.

use vstd::prelude::*;
use crate::table::Row;

verus! {

/// Side length of the square grid.
pub const GRID_SIZE: u32 = 32;

/// Number of addressable cells; a cell address lies in `[0, GRID_CELLS)`.
pub const GRID_CELLS: u32 = GRID_SIZE * GRID_SIZE;

/// A caller's stable 256-bit credential, as two 128-bit halves.
#[derive(Clone, Copy, Debug, PartialEq, Eq, Structural, Hash)]
pub struct Identity {
    pub hi: u128,
    pub lo: u128,
}

/// A point in time, in microseconds since the Unix epoch.
#[derive(Clone, Copy, Debug, PartialEq, Eq, Structural, Hash)]
pub struct Timestamp {
    pub micros: i64,
}

impl Timestamp {
    /// Whether this point in time is at or before `other`.
    pub fn not_after(&self, other: &Timestamp) -> (b: bool)
        ensures
            b == (self.micros <= other.micros),
    {
        self.micros <= other.micros
    }
}

/// Why a request was turned down before it touched any table.
#[derive(Clone, Copy, Debug, PartialEq, Eq, Structural)]
pub enum ValidationError {
    /// The account id of a profile was empty.
    EmptyAccountId,
    /// A cell address was not below `GRID_CELLS`.
    PositionOutOfRange,
}

/// Why an administrative request was turned down.
#[derive(Clone, Copy, Debug, PartialEq, Eq, Structural)]
pub enum AuthError {
    /// The caller lacks the right that the operation needs.
    Unauthorized,
    /// The removal would leave no administrator.
    LastAdminProtected,
}

/// A table operation that its key rules forbid.
#[derive(Clone, Copy, Debug, PartialEq, Eq, Structural)]
pub enum StoreError {
    /// A row with this key exists already.
    DuplicateKey,
    /// No row with this key exists.
    NotFound,
}

/// An identity that is connected right now.
#[derive(Clone, Copy, Debug, PartialEq, Eq, Structural)]
pub struct ConnectedUser {
    pub identity: Identity,
    pub connected_at: Timestamp,
}

/// A painted cell. A cell without a row is unpainted.
#[derive(Debug, PartialEq, Eq)]
pub struct Pixel {
    /// `y * GRID_SIZE + x`
    pub position: u32,
    /// Hex colour.
    pub color: String,
    pub last_modified_by: Identity,
    pub timestamp: Timestamp,
}

/// What is known of the account behind an identity.
#[derive(Debug, PartialEq, Eq)]
pub struct User {
    pub identity: Identity,
    /// The account's id at the external account provider; never empty.
    pub clerk_id: String,
    pub email: Option<String>,
    pub username: Option<String>,
    pub last_active: Timestamp,
}

/// An identity with administrative rights.
#[derive(Clone, Copy, Debug, PartialEq, Eq, Structural)]
pub struct Admin {
    pub identity: Identity,
}

/// A copy of an optional string.
pub(crate) fn copy_text(text: &Option<String>) -> (copy: Option<String>)
    ensures
        copy == *text,
{
    match text {
        Some(s) => Some(s.clone()),
        None => None,
    }
}

impl Clone for Pixel {
    fn clone(&self) -> (copy: Self)
        ensures
            copy == *self,
    {
        Pixel {
            position: self.position,
            color: self.color.clone(),
            last_modified_by: self.last_modified_by,
            timestamp: self.timestamp,
        }
    }
}

impl Clone for User {
    fn clone(&self) -> (copy: Self)
        ensures
            copy == *self,
    {
        User {
            identity: self.identity,
            clerk_id: self.clerk_id.clone(),
            email: copy_text(&self.email),
            username: copy_text(&self.username),
            last_active: self.last_active,
        }
    }
}

impl Row for ConnectedUser {
    type Key = Identity;

    open spec fn key(&self) -> Identity {
        self.identity
    }

    fn get_key(&self) -> (k: Identity) {
        self.identity
    }

    fn key_eq(a: &Identity, b: &Identity) -> (e: bool) {
        *a == *b
    }
}

impl Row for Pixel {
    type Key = u32;

    open spec fn key(&self) -> u32 {
        self.position
    }

    fn get_key(&self) -> (k: u32) {
        self.position
    }

    fn key_eq(a: &u32, b: &u32) -> (e: bool) {
        *a == *b
    }
}

impl Row for User {
    type Key = Identity;

    open spec fn key(&self) -> Identity {
        self.identity
    }

    fn get_key(&self) -> (k: Identity) {
        self.identity
    }

    fn key_eq(a: &Identity, b: &Identity) -> (e: bool) {
        *a == *b
    }
}

impl Row for Admin {
    type Key = Identity;

    open spec fn key(&self) -> Identity {
        self.identity
    }

    fn get_key(&self) -> (k: Identity) {
        self.identity
    }

    fn key_eq(a: &Identity, b: &Identity) -> (e: bool) {
        *a == *b
    }
}

} // verus!

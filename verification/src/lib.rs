//! State engine of a shared pixel canvas: four keyed tables, the operations
//! that change them, and the laws those operations obey.

pub mod auth;
pub mod canvas;
pub mod laws;
pub mod presence;
pub mod projection;
pub mod store;
pub mod table;
pub mod types;

pub use auth::{is_admin, may_bootstrap};
pub use canvas::{add_admin, check_position, clear_grid, paint, remove_admin, sync_clerk_user};
pub use presence::{identity_connected, identity_disconnected, is_present};
pub use projection::view_at_time;
pub use store::{Change, ReducerContext, Store};
pub use table::{Row, Table};
pub use types::{
    Admin, AuthError, ConnectedUser, Identity, Pixel, StoreError, Timestamp, User,
    ValidationError, GRID_CELLS, GRID_SIZE,
};

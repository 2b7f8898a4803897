//! A hierarchical, type-safe key/value board.
//!
//! A board holds entries under keys. Each entry has a value of one of the
//! stored types and a sequence id that counts its changes. Boards form
//! hierarchies: a key asked on a board may lead to an entry of an ancestor,
//! by a remapping rule, by the board's autoremap flag or by the `@` prefix.
//!
//! - [`key`]: the syntax of keys and of remapping targets.
//! - [`remappings`]: the table of remapping rules of a board.
//! - [`value`]: the values that entries hold.
//! - [`entry`]: one entry with its lock, and the guards that hold the lock.
//! - [`database`]: the entries of one board.
//! - [`hierarchy`]: boards with their parents, and the routing of keys.
//! - [`databoard`]: one board of a hierarchy that threads share.
//! - [`laws`]: what holds of the routing and the operations in general.
//! - [`text`]: the order of strings and the text forms that the others share.

pub mod database;
pub mod databoard;
pub mod entry;
pub mod error;
pub mod hierarchy;
pub mod key;
pub mod laws;
pub mod remappings;
pub mod text;
pub mod value;

pub use database::Database;
pub use databoard::Databoard;
pub use entry::{Entry, EntryData, EntryReadGuard, EntryWriteGuard};
pub use error::Error;
pub use hierarchy::{DataboardInner, DataboardPtr, Hierarchy, Route};
pub use key::{
    check_board_pointer, check_local_key, check_local_pointer, check_top_level_key,
    check_top_level_pointer, is_board_pointer, is_const_assignment, is_local_pointer,
    is_top_level_pointer, strip_board_pointer, strip_local_pointer, strip_top_level_pointer,
};
pub use remappings::Remappings;
pub use value::{Opaque, Storable, Value};

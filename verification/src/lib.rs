//! A handle-based bridge between a managed host runtime and a native ordered
//! key-value index engine with read-only snapshots and writable forks.
//!
//! The host holds integers. Behind each stands an object that the bridge
//! owns: a database, a view of it, a map index on a view, or an iterator
//! over an index. The modules, leaf first:
//!
//! - [`lex`]: byte-lexicographic order on byte strings;
//! - [`table`]: one ordered table, and the cursor that walks it;
//! - [`store`]: the tables of one view, one for each namespace;
//! - [`db`]: the database root, snapshots and forks;
//! - [`handle`]: handles and the table that owns what they name;
//! - [`error`]: the conditions reported to the host, and how a result
//!   crosses the boundary;
//! - [`index`]: what the bridge keeps for an index and for an iterator;
//! - [`model`]: the mapping that an index shows, and what a write makes of
//!   it;
//! - [`bridge`]: the operations, by handle, with results;
//! - [`memorydb`], [`map_index`]: the calls as the host makes them;
//! - [`laws`]: what holds of the operations taken together.

pub mod bridge;
pub mod db;
pub mod error;
pub mod handle;
pub mod index;
pub mod laws;
pub mod lex;
pub mod map_index;
pub mod memorydb;
pub mod model;
pub mod store;
pub mod table;

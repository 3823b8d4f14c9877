//! A transaction log kept as a doubly linked list.
//!
//! Entries are appended at the tail and removed at the head, both in constant
//! time, and can be walked in either direction through a cursor.  The nodes
//! live in an index-addressed arena, so the two links of a node are plain
//! slot numbers and no node owns another.
//!
//! * [`model`] says, on mathematical sequences, what the operations mean to
//!   a user of the log, and proves the laws that relate them.
//! * [`links`] describes the list as a graph of linked nodes, states its
//!   consistency, and proves what appending, popping and walking do to it.
//! * [`doubly_linked_list`] is the executable list and its cursor, verified
//!   against both.

pub mod doubly_linked_list;
pub mod links;
pub mod model;

pub use doubly_linked_list::{BetterTransactionLog, ListIterator};

//! Interface address management over a netlink snapshot.
//!
//! The kernel's address and link tables are taken as plain records; this
//! crate decides, from such a snapshot, which addresses an interface holds,
//! which assignments a replace operation must delete, and at which interface
//! index the replacement address is added.

pub mod laws;
pub mod listing;
pub mod records;
pub mod replace;

//! The interface model: interfaces, their identity, keyed collections of
//! them, and the descriptions they are read from.

pub mod builders;
pub mod error;
pub mod iface;
pub mod ifaces;
pub mod key;
pub mod schema;
pub mod text;

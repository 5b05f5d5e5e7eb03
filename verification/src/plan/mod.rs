//! Building a plan: preparing and merging the two collections, resolving
//! membership, checking the controller graph and assigning the order.

pub mod claims;
pub mod enroll;
pub mod merge;
pub mod merged;
pub mod nesting;
pub mod order;
pub mod prepare;
pub mod resolve;
pub mod topology;

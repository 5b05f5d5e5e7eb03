//! What is proved of the plan beyond the contracts of the functions that
//! build it.

pub mod agreement;
pub mod creation;
pub mod laws;
pub mod preparation;
pub mod reorder;
pub mod reorder_prepare;
pub mod same_graph;
pub mod sound;

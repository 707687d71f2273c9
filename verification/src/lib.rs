//! Linked-list containers with machine-checked contracts.
//!
//! * [`fourth`]: a deque kept as a doubly linked chain of nodes.
//! * [`second`]: a stack kept as a singly linked chain of owned nodes, with
//!   three ways of walking it.
//! * [`model`]: the sequence model that the contracts of both speak of, and
//!   the laws of that model.

pub mod fourth;
pub mod model;
pub mod second;

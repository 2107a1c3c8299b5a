//! Merkle commitments over election audit data, and the decisions taken while
//! a commitment's root is anchored in a chain transaction.
//!
//! The library collects leaves, pads them to a power of two, hashes them into a
//! binary tree, frames the tree as bytes for storage, and drives the anchoring
//! protocol as a state machine. Reading files and talking to a node are left to
//! the caller.

pub mod anchor;
pub mod commit;
pub mod encoding;
pub mod hash;
pub mod inclusion;
pub mod keys;
pub mod leaves;
pub mod merkle;
pub mod storage;

//! Epoch-based reclamation: the protocol by which a thread defers the
//! destruction of an object that it has unlinked from a shared structure
//! until no other thread can still be looking at it.
//!
//! The library holds the protocol as a state machine over plain values. The
//! registry of thread slots and each thread's own context are handed to every
//! operation, and an operation that reclaims hands the reclaimed objects back
//! to its caller, who owns them from then on.

pub mod ebr;
pub mod garbage;
pub mod laws;
pub mod registry;
pub mod ring_buffer;

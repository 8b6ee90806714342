//! Epoch-based reclamation.
//!
//! A thread that unlinks a node from a shared structure cannot free it at
//! once: another thread may still read it. Here the node is retired instead.
//! Participants announce, by pinning, the epoch under which they read;
//! retired payloads wait in bags that are parked under the epoch of the pin;
//! and the coordinator destroys the bags of an epoch only when no participant
//! announces that epoch any more. Three epochs are enough.
//!
//! The engine is a state machine on exclusive borrows: each operation takes
//! `&mut` to what it changes and is one indivisible step. Its states and
//! steps are spelled out in [`gc::model`] and [`gc::history`], where the
//! properties of every run are proved; the contracts of the operations in
//! [`gc::gc`] say which step each of them takes. To share a coordinator
//! between threads, put it behind a lock.

pub mod gc;

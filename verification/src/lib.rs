//! Guarded containers for secrets held in memory.
//!
//! A secret lives on pages of its own that are inaccessible unless it is
//! borrowed. This crate holds the rules of that scheme: how a guarded
//! allocation is laid out, which requests the operating system has to be
//! sent and in which order, how the borrow count of a guard moves, and what
//! the containers hold. It touches no memory outside its own values: every
//! request to the operating system is handed to the caller as a value.
//!
//! - `pages`: page ranges, allocations, guarded allocations, and the requests.
//! - `memory`: what the requests do to the protection of addresses.
//! - `allocator`: the sensitive allocator, step by step.
//! - `refs`, `shared`, `protocol`: the state word of a guard, for one owner
//!   and for threads, and the order of the steps that threads take on it.
//! - `guard`, `traits`: the access guard and what it asks of its value.
//! - `boxed`, `vec`, `string`: the containers.
//! - `auxiliary`: wiping of buffers.

pub mod allocator;
pub mod auxiliary;
pub mod boxed;
pub mod guard;
pub mod memory;
pub mod pages;
pub mod protocol;
pub mod refs;
pub mod shared;
pub mod string;
pub mod traits;
pub mod vec;

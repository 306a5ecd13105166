//! Matching-and-leasing engine for named pools of shared resources.
//!
//! Clients describe the pool they need; the inventory leases them the first
//! free pool that matches, and a request that finds its pool in use can
//! wait for a release until its timeout runs out. The engine is
//! synchronous and does no I/O: locking, waiting and transport are the
//! caller's.

pub mod client;
pub mod demo;
pub mod inventory;
pub mod matcher;
pub mod query;
pub mod reply;
pub mod session;
pub mod text;

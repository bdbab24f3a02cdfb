//! A persistent, ordered key-value store's core: a typed codec whose byte
//! order follows the values' natural order, and the ownership protocol of
//! the handles that share one engine resource.
//!
//! - [`codec`]: values to tagged bytes and back ([`integer`], [`order`]).
//! - [`holder`]: the single owner of the engine resource and its handles.
//! - [`cursor`]: the state machine of a cursor over the key space.
//! - [`batch`]: multi-get results and write batches.
//! - [`config`], [`store`]: the record kept beside a store, snapshots, and the
//!   decisions of the store's operations.


pub mod order;
pub mod integer;
pub mod codec;
pub mod holder;
pub mod cursor;
pub mod batch;
pub mod config;
pub mod store;


//! A registry of vehicle records kept under strict capacity and length limits.
//!
//! The library is split in layers:
//! - [`codec`]: validated byte values whose length is checked against a bound;
//! - [`config`]: the limits a registry is assembled with;
//! - [`record`]: vehicle records and their ordered sets of identifiers;
//! - [`store`]: a key-indexed, bounded map from vehicle keys to records;
//! - [`registry`]: the state machine that registers, updates and deregisters
//!   vehicles, keeps an event log, and rejects failed transitions atomically;
//! - [`laws`]: properties that relate several transitions.

pub mod codec;
pub mod config;
pub mod laws;
pub mod record;
pub mod registry;
pub mod store;

pub use codec::{bind, bytes_equal, BoundedValue, CodecError};
pub use config::Config;
pub use record::{RecordView, VehicleRecord};
pub use registry::{Change, ChangeView, Event, EventView, Registry, RegistryError};
pub use store::{StoreError, VehicleStore};

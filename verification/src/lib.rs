//! Bridge between a managed front end and a native engine module.
//!
//! The engine exposes a table of C-callable operations; this crate verifies
//! everything the bridge itself contributes: converting owned strings and
//! collections to and from the engine's null-terminated flat representations,
//! accounting for every engine-owned allocation, publishing the capability
//! table exactly once, translating status bytes into a uniform result type,
//! and relaying leveled native log events.
//!
//! The platform-specific work that cannot be reasoned about here — loading
//! the native binary, calling through raw function pointers, running calls on
//! a worker pool — lives in a thin unverified layer around this crate; an
//! in-memory engine with the same capability surface stands in for the native
//! module wherever behaviour is stated or tested.

pub mod bridge;
pub mod config;
pub mod dispatch;
pub mod engine;
pub mod loader;
pub mod logrelay;
pub mod marshal;
pub mod ownership;
pub mod task;

pub use marshal::STATUS_INTERNAL;

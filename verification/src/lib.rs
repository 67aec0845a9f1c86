//! A change-detection and history engine for externally owned, mutable image
//! resources (an account's avatar, a community's icon).
//!
//! Each tracked entity is observed periodically. The engine fingerprints the
//! observed bytes, decides whether a new history row is warranted, and decides
//! whether previously archived content can be reused instead of re-archiving
//! identical bytes. Image history and display-name history are append-only and
//! cascade-deleted with their owning entity.

pub mod model;
pub mod repository;
pub mod fingerprint;
pub mod engine;
pub mod scheduler;
pub mod stats;
pub mod pagination;
pub mod config;
pub mod imgbb;

//! The cache store of an edge server.
//!
//! Objects are held in memory while they are fresh from the origin, then
//! written to disk, from where they are served after that. A body that is
//! still coming in can be followed by other readers.
//!
//! This library makes every decision of the store and keeps all of its books;
//! it performs no I/O. What has to happen on disk it hands out as plans, whose
//! effect on the files is part of what is proved here.
//!
//! - [`config`]: the settings, and the builder;
//! - [`storage`]: the store, with lookup, admission, purge and update;
//! - [`miss`]: the handler of a write in progress;
//! - [`hit`]: the readers;
//! - [`disk`], [`probe`], [`layout`]: plans for the disk, opening an entry, and
//!   where it lives;
//! - [`uring`], [`paths`]: the bookkeeping of an io_uring instance, and when two
//!   paths are one;
//! - [`state`], [`files`]: the store and the disk as mathematical values;
//! - [`laws`], [`history`]: what the operations add up to, and what holds after
//!   any series of them;
//! - [`effects`], [`reading`], [`naming`]: what each operation changes and leaves
//!   alone, what readers are given, and what names and numbers stand for.

pub mod chunk;
pub mod config;
pub mod disk;
pub mod effects;
pub mod error;
pub mod files;
pub mod history;
pub mod hit;
pub mod laws;
pub mod layout;
pub mod maps;
pub mod metrics;
pub mod miss;
pub mod naming;
pub mod paths;
pub mod probe;
pub mod reading;
pub mod record;
pub mod state;
pub mod storage;
pub mod text;
pub mod uring;

pub use config::{EdgeMemoryStorageBuilder, EdgeStoreConfig, DEFAULT_DISK_ROOT};
pub use error::{ErrorKind, StoreError};
pub use hit::{CompleteHitHandler, DiskHitHandler, PartialHitHandler};
pub use metrics::StoreMetrics;
pub use miss::EdgeMissHandler;
pub use record::MetaBytes;
pub use state::PurgeType;
pub use storage::EdgeMemoryStorage;
pub use uring::{IoUringManager, IoUringRequest};

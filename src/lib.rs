//! A URL shortener core: a deterministic code generator, a write-through
//! dual cache, an in-memory durable store and the protocol that keeps the
//! caches coherent with the store.

pub mod codegen;
pub mod service;
pub mod store;
pub mod table;

pub use codegen::{cool_shortener, hex16};
pub use service::{
    accept_long_url, after_insert, settle_by_long, settle_by_short, shorten_start, AfterInsert, ServiceError,
    Shortener, ShortenPlan,
};
pub use store::{Mapping, MemStore, StoreError};
pub use table::Table;

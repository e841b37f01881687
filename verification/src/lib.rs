//! Control-plane library for tracking streaming clusters and topic
//! subscriptions: per-cluster metadata pollers behind a lifecycle-managed
//! registry, a cache of typed metadata entries, a sibling scheduler for
//! subscription workers, and the persistence and identifier machinery they
//! rely on.

pub mod api;
pub mod cluster;
pub mod config;
pub mod consumer;
pub mod error;
pub mod id;
pub mod idmap;
pub mod manager;
pub mod metadata;
pub mod order;
pub mod scheduler;
pub mod server;
pub mod shutdown;
pub mod store;
pub mod streams;
pub mod strings;
pub mod subscription;
mod time;

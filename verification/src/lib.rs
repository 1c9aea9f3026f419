//! A time-series storage engine core: configuration, shard placement,
//! tiering, compaction and merge planning, downsampling, caching,
//! scheduling, consensus state and the wire formats, with their contracts.

pub mod text;
pub mod config;
pub mod error;
pub mod tssp;
pub mod compaction;
pub mod clock;
pub mod keyed;
pub mod raft;
pub mod merge;
pub mod handles;
pub mod shard;
pub mod schema;
pub mod scheduler;
pub mod api;
pub mod downsample;
pub mod cache;
pub mod tiered_storage;
pub mod block_index;
pub mod bloom;
pub mod ttl;
pub mod chars;
pub mod numbers;
pub mod influxql;
pub mod arrow_flight;
pub mod prometheus;
pub mod stats;
pub mod otel;
pub mod line_protocol;
pub mod http;
pub mod dispatch;
pub mod query;
pub mod filter;
pub mod metaclient;
pub mod index;
pub mod syscontrol;
pub mod tssp_manager;
pub mod tssp_format;
pub mod memtable;
pub mod engine;
pub mod wal;
pub mod snapshot;
pub mod backup;

//! Counters that the engine reports about itself and about a query.

use vstd::prelude::*;

verus! {

/// What a query read.
#[derive(Debug, Clone, Copy)]
pub struct QueryStats {
    pub files_read: usize,
    pub rows_scanned: usize,
    pub bytes_read: usize,
    pub execution_time_ms: u64,
    pub series_count: usize,
}

impl Default for QueryStats {
    fn default() -> (r: Self)
        ensures
            r.files_read == 0 && r.rows_scanned == 0 && r.bytes_read == 0 && r.execution_time_ms == 0 && r.series_count == 0,
    {
        QueryStats { files_read: 0, rows_scanned: 0, bytes_read: 0, execution_time_ms: 0, series_count: 0 }
    }
}

/// The size of the engine's state.
#[derive(Debug, Clone, Copy)]
pub struct EngineStats {
    pub series_count: usize,
    pub memtable_size: u64,
    pub memtable_row_count: u64,
    pub tssp_file_count: usize,
    pub wal_entries: usize,
    pub shard_count: usize,
}

impl Default for EngineStats {
    fn default() -> (r: Self)
        ensures
            r.series_count == 0 && r.memtable_size == 0 && r.memtable_row_count == 0 && r.tssp_file_count == 0
                && r.wal_entries == 0 && r.shard_count == 0,
    {
        EngineStats { series_count: 0, memtable_size: 0, memtable_row_count: 0, tssp_file_count: 0, wal_entries: 0, shard_count: 0 }
    }
}

/// A range of time, in nanoseconds.
#[derive(Debug, Clone, Copy)]
pub struct TimeRange {
    pub start: i64,
    pub end: i64,
}

} // verus!

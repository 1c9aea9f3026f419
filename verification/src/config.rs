//! Engine configuration: directories, sizes and switches, with the
//! documented defaults.

use vstd::prelude::*;

verus! {

/// The whole configuration file.
#[derive(Debug, Clone)]
pub struct Config {
    pub engine: EngineConfig,
}

/// Configuration of one storage engine.
#[derive(Debug, Clone)]
pub struct EngineConfig {
    pub data_dir: String,
    pub wal: WalConfig,
    pub memtable: MemTableConfig,
    pub tssp: TsspConfig,
    pub compaction: CompactionConfig,
}

/// Write-ahead log configuration.
#[derive(Debug, Clone)]
pub struct WalConfig {
    pub dir: String,
    pub file_size: u64,
    pub sync_enabled: bool,
}

impl Default for WalConfig {
    fn default() -> (r: Self)
        ensures
            r.dir@ == "wal"@,
            r.file_size == 64 * 1024 * 1024,
            r.sync_enabled,
    {
        WalConfig { dir: String::from_str("wal"), file_size: 64 * 1024 * 1024, sync_enabled: true }
    }
}

/// In-memory table configuration.
#[derive(Debug, Clone)]
pub struct MemTableConfig {
    pub max_size: u64,
    pub flush_interval_ms: u64,
}

impl Default for MemTableConfig {
    fn default() -> (r: Self)
        ensures
            r.max_size == 64 * 1024 * 1024,
            r.flush_interval_ms == 1000,
    {
        MemTableConfig { max_size: 64 * 1024 * 1024, flush_interval_ms: 1000 }
    }
}

/// Columnar file configuration.
#[derive(Debug, Clone)]
pub struct TsspConfig {
    pub data_dir: String,
    pub max_file_size: u64,
    pub compression: CompressionType,
}

impl Default for TsspConfig {
    fn default() -> (r: Self)
        ensures
            r.data_dir@ == "data"@,
            r.max_file_size == 256 * 1024 * 1024,
            r.compression == CompressionType::Snappy,
    {
        TsspConfig {
            data_dir: String::from_str("data"),
            max_file_size: 256 * 1024 * 1024,
            compression: CompressionType::Snappy,
        }
    }
}

/// Block compression of columnar files.
#[derive(Debug, Clone, Copy, PartialEq, Eq, Structural)]
pub enum CompressionType {
    Uncompressed,
    Snappy,
    Zstd,
    Lz4,
}

/// The file-name extension that goes with a compression type.
pub open spec fn compression_extension(c: CompressionType) -> Seq<char> {
    match c {
        CompressionType::Uncompressed => ""@,
        CompressionType::Snappy => ".snappy"@,
        CompressionType::Zstd => ".zstd"@,
        CompressionType::Lz4 => ".lz4"@,
    }
}

impl CompressionType {
    /// The file-name extension of this compression type.
    pub fn extension(&self) -> (r: &'static str)
        ensures
            r@ == compression_extension(*self),
    {
        match self {
            CompressionType::Uncompressed => "",
            CompressionType::Snappy => ".snappy",
            CompressionType::Zstd => ".zstd",
            CompressionType::Lz4 => ".lz4",
        }
    }
}

/// Background compaction configuration.
#[derive(Debug, Clone)]
pub struct CompactionConfig {
    pub enabled: bool,
    pub max_concurrent: usize,
    pub trigger_interval_ms: u64,
    pub max_file_age_hours: u64,
}

impl Default for CompactionConfig {
    fn default() -> (r: Self)
        ensures
            r.enabled,
            r.max_concurrent == 4,
            r.trigger_interval_ms == 300_000,
            r.max_file_age_hours == 24,
    {
        CompactionConfig {
            enabled: true,
            max_concurrent: 4,
            trigger_interval_ms: 300_000,
            max_file_age_hours: 24,
        }
    }
}

} // verus!

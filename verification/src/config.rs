//! Fixed configuration for the storage engine and the transfer path.
//!
//! The profile is assembled once at startup and never mutated; it describes
//! how the persistent engine is opened (durability/buffering/IO tuning) and
//! how stored values are read back.

use vstd::prelude::*;

verus! {

/// Default upper bound on the size of one transfer chunk, in bytes.
pub const DEFAULT_CHUNK_SIZE: usize = 10 * 1024 * 1024;

/// How the persistent engine is opened and read.
///
/// Values are large and mostly read sequentially in full, so the recommended
/// profile enables direct IO and read-ahead on the compaction path, bounds
/// the write buffer, and keeps background jobs few so compaction does not
/// crowd out foreground reads.
pub struct StoreProfile {
    /// Create the on-disk store if none exists at the given path.
    pub create_if_missing: bool,
    /// Bypass the OS page cache when reading data files.
    pub direct_reads: bool,
    /// Bypass the OS page cache for flushes and compaction writes.
    pub direct_io_for_flush_and_compaction: bool,
    /// Number of background compaction/flush jobs.
    pub max_background_jobs: i32,
    /// Read-ahead applied during compaction, in bytes.
    pub compaction_readahead_bytes: usize,
    /// Upper bound on a writable file's buffer, in bytes.
    pub write_buffer_max_bytes: u64,
    /// Whether a point read populates the engine's block cache.
    pub read_fill_cache: bool,
    /// Read-ahead applied to point reads, in bytes.
    pub read_readahead_bytes: usize,
}

/// The fixed profile this cache is tuned for: large values, read-heavy
/// traffic. Create the store if missing; bypass the page cache for reads
/// and for flush/compaction writes; two background jobs; 2 MiB compaction
/// read-ahead; 1 MiB write-buffer cap; point reads with 2 MiB read-ahead
/// that leave the block cache alone.
pub open spec fn recommended_profile() -> StoreProfile {
    StoreProfile {
        create_if_missing: true,
        direct_reads: true,
        direct_io_for_flush_and_compaction: true,
        max_background_jobs: 2,
        compaction_readahead_bytes: (2 * 1024 * 1024) as usize,
        write_buffer_max_bytes: (1024 * 1024) as u64,
        read_fill_cache: false,
        read_readahead_bytes: (2 * 1024 * 1024) as usize,
    }
}

impl StoreProfile {
    /// The profile this cache is tuned for: large values, read-heavy traffic.
    pub fn recommended() -> (p: StoreProfile)
        ensures
            p == recommended_profile(),
    {
        StoreProfile {
            create_if_missing: true,
            direct_reads: true,
            direct_io_for_flush_and_compaction: true,
            max_background_jobs: 2,
            compaction_readahead_bytes: 2 * 1024 * 1024,
            write_buffer_max_bytes: 1024 * 1024,
            read_fill_cache: false,
            read_readahead_bytes: 2 * 1024 * 1024,
        }
    }
}

} // verus!

//! Query execution limits.

use vstd::prelude::*;

verus! {

/// Memory and fan-out limits for the grace hash join.
#[derive(Clone, Copy, Debug)]
pub struct JoinConfig {
    /// Write buffer per partition file.
    pub partition_memory: usize,
    /// Per-partition ceiling on disk.
    pub partition_disk: usize,
    /// Memory ceiling of the build side: a larger partition is repartitioned instead.
    pub build_budget: usize,
    /// Buckets per partitioning pass.
    pub hash_partitions: usize,
}

/// Eight gibibytes: what a machine is taken to have where that cannot be told.
pub const FALLBACK_MEMORY: u64 = 8_589_934_592;

/// What `sysinfo::System` says of the machine's memory: `total_memory` after `refresh_memory`,
/// in bytes; zero where `System::new` fails. Nothing is claimed of the number, which is the
/// machine's.
#[verifier::external_body]
fn total_memory() -> u64 {
    match sysinfo::System::new() {
        Ok(mut system) => {
            system.refresh_memory();
            system.total_memory()
        },
        Err(_) => 0,
    }
}

/// Four gibibytes, or all that can be addressed where that is less.
pub open spec fn partition_ceiling() -> usize {
    if 4_294_967_296 <= usize::MAX {
        4_294_967_296int as usize
    } else {
        usize::MAX
    }
}

fn largest_partition() -> (r: usize)
    ensures
        r == partition_ceiling(),
{
    let ceiling: u64 = 4_294_967_296;
    if ceiling <= usize::MAX as u64 {
        ceiling as usize
    } else {
        usize::MAX
    }
}

impl JoinConfig {
    /// The limits for a machine with `total` bytes of memory: a quarter is query scratch, and
    /// a quarter of that is for hash tables.
    pub open spec fn for_memory(total: int) -> JoinConfig {
        JoinConfig {
            partition_memory: 4_194_304,
            partition_disk: partition_ceiling(),
            build_budget: (total / 4 / 4) as usize,
            hash_partitions: 32,
        }
    }

    /// Derive limits from the machine's total memory.
    pub fn from_system_memory(total_bytes: usize) -> (r: Self)
        ensures
            r == Self::for_memory(total_bytes as int),
            r.build_budget == total_bytes / 16,
    {
        let scratch: usize = total_bytes / 4;
        JoinConfig {
            partition_memory: 4_194_304,
            partition_disk: largest_partition(),
            build_budget: scratch / 4,
            hash_partitions: 32,
        }
    }

    /// The limits for a detected amount of memory; those of [`FALLBACK_MEMORY`] where
    /// detection came back empty, or with more than can be addressed.
    pub open spec fn detected(total: u64) -> JoinConfig {
        if 0 < total <= usize::MAX {
            Self::for_memory(total as int)
        } else {
            Self::for_memory(FALLBACK_MEMORY as int)
        }
    }

    /// Derive limits from this machine's memory, whatever it is.
    pub fn from_system() -> (r: Self)
        ensures
            exists|total: u64| r == #[trigger] Self::detected(total),
    {
        Self::from_detected(total_memory())
    }

    /// Derive limits from a detected amount of memory.
    pub fn from_detected(total: u64) -> (r: Self)
        ensures
            r == Self::detected(total),
    {
        if total > 0 && total <= usize::MAX as u64 {
            Self::from_system_memory(total as usize)
        } else {
            Self::default()
        }
    }
}

impl Default for JoinConfig {
    /// The limits for a machine with eight gibibytes.
    fn default() -> (r: Self)
        ensures
            r == Self::for_memory(FALLBACK_MEMORY as int),
    {
        JoinConfig {
            partition_memory: 4_194_304,
            partition_disk: largest_partition(),
            build_budget: 536_870_912,
            hash_partitions: 32,
        }
    }
}

} // verus!

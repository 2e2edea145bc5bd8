use crate::layout::ieee754::{lemma_percentage_of_whole, percentage, percentage_bits, HUNDRED};
use std::time::Duration;
use vstd::prelude::*;

verus! {

/// What one built block takes up.
#[derive(Debug, Clone)]
pub struct BlockStat {
    pub name: String,
    pub start_address: u32,
    pub allocated_size: u32,
    pub used_size: u32,
    pub crc_value: u32,
}

/// The blocks of one build with their totals.
#[derive(Debug)]
pub struct BuildStats {
    pub blocks_processed: usize,
    pub total_allocated: usize,
    pub total_used: usize,
    pub total_duration: Duration,
    pub block_stats: Vec<BlockStat>,
}

/// The length of a span of time in nanoseconds.
pub uninterp spec fn duration_nanos(duration: Duration) -> nat;

/// `Duration::from_secs` of 0: a span of no time.
#[verifier::external_body]
fn no_time() -> (duration: Duration)
    ensures
        duration_nanos(duration) == 0,
{
    Duration::from_secs(0)
}

/// The sum of the allocated sizes of the first `upto` blocks.
pub open spec fn allocated_sum(blocks: Seq<BlockStat>, upto: int) -> nat
    decreases upto,
{
    if upto <= 0 || upto > blocks.len() {
        0
    } else {
        allocated_sum(blocks, upto - 1) + blocks[upto - 1].allocated_size as nat
    }
}

/// The sum of the used sizes of the first `upto` blocks.
pub open spec fn used_sum(blocks: Seq<BlockStat>, upto: int) -> nat
    decreases upto,
{
    if upto <= 0 || upto > blocks.len() {
        0
    } else {
        used_sum(blocks, upto - 1) + blocks[upto - 1].used_size as nat
    }
}

impl Default for BuildStats {
    fn default() -> (stats: Self)
        ensures
            stats.blocks_processed == 0,
            stats.total_allocated == 0,
            stats.total_used == 0,
            stats.block_stats@.len() == 0,
            stats.consistent(),
    {
        Self::new()
    }
}

impl BuildStats {
    /// The totals are those of the listed blocks.
    pub open spec fn consistent(self) -> bool {
        &&& self.blocks_processed == self.block_stats@.len()
        &&& self.total_allocated == allocated_sum(self.block_stats@, self.block_stats@.len() as int)
        &&& self.total_used == used_sum(self.block_stats@, self.block_stats@.len() as int)
    }

    /// Statistics of no blocks.
    pub fn new() -> (stats: Self)
        ensures
            stats.blocks_processed == 0,
            stats.total_allocated == 0,
            stats.total_used == 0,
            stats.block_stats@.len() == 0,
            duration_nanos(stats.total_duration) == 0,
            stats.consistent(),
    {
        Self {
            blocks_processed: 0,
            total_allocated: 0,
            total_used: 0,
            total_duration: no_time(),
            block_stats: Vec::new(),
        }
    }

    /// The used share of the allocated memory in percent, as the bit pattern
    /// of a binary64 number; 0 where nothing is allocated.
    pub fn space_efficiency(&self) -> (bits: u64)
        ensures
            bits == percentage_bits(self.total_used as nat, self.total_allocated as nat),
    {
        percentage(self.total_used as u64, self.total_allocated as u64)
    }

    /// Counts one more block.
    pub fn add_block(&mut self, stat: BlockStat)
        requires
            old(self).blocks_processed < usize::MAX,
            old(self).total_allocated + stat.allocated_size <= usize::MAX,
            old(self).total_used + stat.used_size <= usize::MAX,
        ensures
            final(self).blocks_processed == old(self).blocks_processed + 1,
            final(self).total_allocated == old(self).total_allocated + stat.allocated_size,
            final(self).total_used == old(self).total_used + stat.used_size,
            final(self).block_stats@ == old(self).block_stats@.push(stat),
            final(self).total_duration == old(self).total_duration,
            old(self).consistent() ==> final(self).consistent(),
    {
        self.blocks_processed = self.blocks_processed + 1;
        self.total_allocated = self.total_allocated + stat.allocated_size as usize;
        self.total_used = self.total_used + stat.used_size as usize;
        self.block_stats.push(stat);
        proof {
            let before = old(self).block_stats@;
            let after = self.block_stats@;
            lemma_sums_of_prefix(before, after, before.len() as int);
        }
    }
}

/// Sums over a common prefix of two lists are equal.
proof fn lemma_sums_of_prefix(a: Seq<BlockStat>, b: Seq<BlockStat>, upto: int)
    requires
        0 <= upto <= a.len() <= b.len(),
        forall|i: int| 0 <= i < upto ==> a[i] == b[i],
    ensures
        allocated_sum(a, upto) == allocated_sum(b, upto),
        used_sum(a, upto) == used_sum(b, upto),
    decreases upto,
{
    if upto > 0 {
        lemma_sums_of_prefix(a, b, upto - 1);
    }
}

/// Statistics of nothing allocated have a space efficiency of exactly 0,
/// and statistics whose blocks use all that they are allocated have one of
/// exactly 100.
pub proof fn lemma_space_efficiency_ends(stats: BuildStats)
    ensures
        stats.total_allocated == 0 ==> percentage_bits(
            stats.total_used as nat,
            stats.total_allocated as nat,
        ) == 0,
        stats.total_allocated > 0 && stats.total_used == stats.total_allocated ==> percentage_bits(
            stats.total_used as nat,
            stats.total_allocated as nat,
        ) == HUNDRED,
{
    lemma_percentage_of_whole(stats.total_allocated as nat);
}

} // verus!

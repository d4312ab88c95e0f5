//! The staking ledger: an append-only, densely indexed log of staking facts,
//! and the reference a withdrawal waits on while its unlock period runs.

use vstd::prelude::*;

use crate::types::{AnchorError, BlockHeight, IndexRange, StakingFact, StakingHistory, Timestamp};

verus! {

/// A pointer into the staking ledger recording that a withdrawal becomes
/// eligible once the referenced era's unlock period elapses.
#[derive(Clone, Copy, PartialEq, Eq, Structural, Debug)]
pub struct UnbondedStakeReference {
    /// The era whose start the unlock clock is measured from.
    pub era_number: u64,
    /// The index of the corresponding staking history entry.
    pub staking_history_index: u64,
}

/// The append-only staking ledger. Entries are stored in a densely packed,
/// zero-based, monotonically increasing index space and are never mutated
/// or deleted.
pub struct StakingHistories {
    histories: Vec<StakingHistory>,
    start_index: u64,
    end_index: u64,
}

impl StakingHistories {
    /// The stored records, in index order.
    pub closed spec fn records(self) -> Seq<StakingHistory> {
        self.histories@
    }

    /// The ledger's indices are dense: record `i` carries index `i`, the
    /// start index is pinned at zero and the end index points at the last
    /// record (or zero while the ledger is empty).
    pub closed spec fn well_formed(self) -> bool {
        &&& self.start_index == 0
        &&& self.histories@.len() <= u64::MAX
        &&& self.end_index == if self.histories@.len() == 0 {
            0int
        } else {
            self.histories@.len() - 1
        }
        &&& forall|i: int|
            0 <= i < self.histories@.len() ==> (#[trigger] self.histories@[i]).index == i
    }

    /// An empty ledger.
    pub fn new() -> (r: Self)
        ensures
            r.well_formed(),
            r.records() =~= Seq::<StakingHistory>::empty(),
    {
        Self { histories: Vec::new(), start_index: 0, end_index: 0 }
    }

    /// Returns the record stored at `index`, or `None` past the end.
    pub fn get(&self, index: &u64) -> (r: Option<StakingHistory>)
        ensures
            r == if *index < self.records().len() {
                Some(self.records()[*index as int])
            } else {
                None::<StakingHistory>
            },
    {
        if *index < self.histories.len() as u64 {
            Some(self.histories[*index as usize])
        } else {
            None
        }
    }

    /// The number of stored records.
    pub fn count(&self) -> (r: u64)
        requires
            self.well_formed(),
        ensures
            r == self.records().len(),
    {
        self.histories.len() as u64
    }

    /// The range of valid indices, `[start_index, end_index]`.
    pub fn index_range(&self) -> (r: IndexRange)
        ensures
            r.start_index == self.start_index(),
            r.end_index == self.end_index(),
    {
        IndexRange { start_index: self.start_index, end_index: self.end_index }
    }

    /// The first valid index.
    pub closed spec fn start_index(self) -> u64 {
        self.start_index
    }

    /// The last valid index (zero while the ledger is empty).
    pub closed spec fn end_index(self) -> u64 {
        self.end_index
    }

    /// Appends `staking_fact`, assigning the next sequential index and
    /// stamping the moment of recording; returns the stored record.
    pub fn append(
        &mut self,
        staking_fact: StakingFact,
        block_height: BlockHeight,
        timestamp: Timestamp,
    ) -> (r: StakingHistory)
        requires
            old(self).well_formed(),
            old(self).records().len() < u64::MAX,
        ensures
            final(self).well_formed(),
            r == (StakingHistory {
                staking_fact,
                block_height,
                timestamp,
                index: old(self).records().len() as u64,
            }),
            final(self).records() == old(self).records().push(r),
    {
        let index: u64 = self.histories.len() as u64;
        let record = StakingHistory { staking_fact, block_height, timestamp, index };
        self.histories.push(record);
        self.end_index = index;
        record
    }
}

/// The ledger's indices are exactly `0 .. N-1` with no gaps: after any
/// sequence of appends, the record stored at position `i` carries index `i`,
/// the valid range starts at zero, and the end index points at the last
/// record.
pub proof fn lemma_ledger_indices_dense(h: StakingHistories)
    requires
        h.well_formed(),
    ensures
        h.start_index() == 0,
        h.records().len() <= u64::MAX,
        h.end_index() == if h.records().len() == 0 {
            0int
        } else {
            h.records().len() - 1
        },
        forall|i: int| 0 <= i < h.records().len() ==> (#[trigger] h.records()[i]).index == i,
{
}

} // verus!

//! Checkpoint compaction: when a checkpoint is due, and the writing of it.

use crate::error::TableError;
use crate::log::{state_at, LogStore, TableState};
use vstd::prelude::*;

verus! {
/// Whether a compactor of cadence `every` checkpoints `version`: every version
/// that `every` divides, and none where `every` is 0.
pub open spec fn is_due(every: u64, version: u64) -> bool {
    every > 0 && version % every == 0
}

/// Writes checkpoints on a cadence chosen by the operator.
#[derive(Clone, Copy, Debug)]
pub struct CheckpointCompactor {
    every: u64,
}

impl CheckpointCompactor {
    /// A compactor that checkpoints every version divisible by `every`: each one
    /// for 1, none for 0.
    pub fn new(every: u64) -> (c: CheckpointCompactor)
        ensures
            c.cadence() == every,
    {
        CheckpointCompactor { every }
    }

    /// The cadence this compactor was made with.
    pub closed spec fn cadence(&self) -> u64 {
        self.every
    }

    /// Whether `version` is to be checkpointed.
    pub fn due(&self, version: u64) -> (b: bool)
        ensures
            b == is_due(self.cadence(), version),
    {
        self.every > 0 && version % self.every == 0
    }

    /// Checkpoints `version` if it is due: writes the table's schema and live files
    /// as of that version beside the log's versions, and hands the checkpoint out.
    ///
    /// The versions recorded are never touched, so a commit stays valid whatever
    /// happens here. A checkpoint written before is not written again. Where
    /// `version` is due but not recorded the answer is `CheckpointError`, which the
    /// caller reports and otherwise ignores.
    pub fn maybe_checkpoint(&self, log: &mut LogStore, version: u64) -> (r: Result<
        Option<TableState>,
        TableError,
    >)
        ensures
            final(log)@.commits == old(log)@.commits,
            match r {
                Ok(Some(cp)) => {
                    &&& is_due(self.cadence(), version)
                    &&& version < old(log)@.commits.len()
                    &&& cp@ == state_at(old(log)@.commits, version as int)
                    &&& final(log)@.checkpoints.contains(cp@)
                    &&& (final(log)@.checkpoints == old(log)@.checkpoints
                        || final(log)@.checkpoints == old(log)@.checkpoints.push(cp@))
                },
                Ok(None) => !is_due(self.cadence(), version) && final(log)@ == old(log)@,
                Err(TableError::CheckpointError) => is_due(self.cadence(), version) && version
                    >= old(log)@.commits.len() && final(log)@ == old(log)@,
                Err(_) => false,
            },
            old(log)@.checkpoints.contains(state_at(old(log)@.commits, version as int))
                ==> final(log)@ == old(log)@,
    {
        if !self.due(version) {
            return Ok(None);
        }
        match log.checkpoint(version) {
            Some(cp) => Ok(Some(cp)),
            None => Err(TableError::CheckpointError),
        }
    }
}

} // verus!

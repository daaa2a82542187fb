//! The decisions of moving a document to another partition: which partition
//! it leaves, and which bytes go to the target.
use vstd::prelude::*;
use crate::partition_key::PartitionId;

verus! {

/// What moving a document to a target partition comes to.
#[derive(Debug, Clone, Copy, PartialEq, Eq)]
pub enum MigrateAction {
    /// Remove the document from this partition, then write it (or the new
    /// bytes, where given) to the target.
    MoveFrom(PartitionId),
    /// No other partition holds it: write the new bytes to the target.
    WriteGiven,
    /// No other partition holds it and there are no new bytes: nothing.
    Nothing,
}

/// Whether the document is to be moved out of a partition while the
/// partitions are searched: the partition holds it and is not the target.
pub fn is_migration_source(holds: bool, id: PartitionId, target: PartitionId) -> (r: bool)
    ensures
        r == (holds && id@ != target@),
{
    holds && id.value() != target.value()
}

/// What to do, given the first partition found that holds the document and
/// is not the target (if any) and whether new bytes are given.
pub fn migrate_action(holder: Option<PartitionId>, buffer_given: bool) -> (r: MigrateAction)
    ensures
        r == (match holder {
            Some(h) => MigrateAction::MoveFrom(h),
            None => if buffer_given {
                MigrateAction::WriteGiven
            } else {
                MigrateAction::Nothing
            },
        }),
{
    match holder {
        Some(h) => MigrateAction::MoveFrom(h),
        None => if buffer_given {
            MigrateAction::WriteGiven
        } else {
            MigrateAction::Nothing
        },
    }
}

/// The bytes written to the target when a document moves: the new bytes
/// where given, else those removed from the partition that held it.
pub fn migrated_doc(removed: Vec<u8>, buffer: Option<Vec<u8>>) -> (r: Vec<u8>)
    ensures
        r@ == (match buffer {
            Some(b) => b@,
            None => removed@,
        }),
{
    match buffer {
        Some(b) => b,
        None => removed,
    }
}

} // verus!

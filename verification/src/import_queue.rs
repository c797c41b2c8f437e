//! Blocks import queue: what it decides and what it keeps count of.
//!
//! Importing a block is a conversation with the chain: is the block known,
//! then, will the chain take it. What to do at each turn, and what to tell
//! the sync once a block is done with, is decided here. Talking to the chain
//! and to the sync, and the thread and the locks around the queue, are the
//! caller's.

use std::collections::HashSet;
use std::hash::Hash;
use vstd::prelude::*;
use vstd::std_specs::hash::obeys_key_model;

verus! {

/// The peer that a block came from.
pub type PeerId = usize;

/// Import queue status. It isn't completely accurate.
pub struct ImportQueueStatus {
    /// Number of blocks that are currently in the queue.
    pub importing_count: usize,
    /// The number of the best block that was ever in the queue since
    /// start/last failure.
    pub best_importing_number: u64,
}

/// What the chain knows of a block before it is handed over for import.
#[derive(Debug, PartialEq, Eq, Clone, Copy)]
pub enum BlockStatus {
    /// The block is part of the chain already.
    InChain,
    /// Anything else.
    NotInChain,
}

/// What the chain made of a block that was handed over for import.
#[derive(Debug, PartialEq, Eq, Clone, Copy)]
pub enum ImportResult {
    /// Added to the import queue.
    Queued,
    /// Already in the import queue.
    AlreadyQueued,
    /// Already in the blockchain.
    AlreadyInChain,
    /// Block or parent is known to be bad.
    KnownBad,
    /// Block parent is not in the chain.
    UnknownParent,
}

/// Block import successful result.
#[derive(Debug, PartialEq)]
pub enum BlockImportResult<H, N> {
    /// Block is not imported.
    NotImported(H, N),
    /// Imported known block.
    ImportedKnown(H, N),
    /// Imported unknown block.
    ImportedUnknown(H, N),
}

/// Block import error.
#[derive(Debug, PartialEq)]
pub enum BlockImportError {
    /// Disconnect from peer and continue import of next bunch of blocks.
    Disconnect(PeerId),
    /// Disconnect from peer and restart sync.
    DisconnectAndRestart(PeerId),
    /// Restart sync.
    Restart,
}

/// Where the import of one block stands.
#[derive(Debug, PartialEq)]
pub enum ImportStep<H, N> {
    /// The chain is to be asked for the status of the block.
    AskStatus(H, N),
    /// The block is to be handed to the chain for import.
    Import(H, N),
    /// The import is over.
    Done(Result<BlockImportResult<H, N>, BlockImportError>),
}

/// What the sync is to be told once a block is done with.
#[derive(Debug, PartialEq)]
pub enum LinkAction<H> {
    /// Nothing.
    Nothing,
    /// A block with this hash and number was imported.
    BlockImported(H, u64),
    /// Disconnect from the peer.
    Disconnect(PeerId),
    /// Disconnect from the peer and restart the sync.
    DisconnectAndRestart(PeerId),
    /// Restart the sync.
    Restart,
}

/// How the import of a bunch of blocks goes on after one of them.
#[derive(Debug, PartialEq, Eq, Clone, Copy)]
pub enum BatchStep {
    /// The next block is imported.
    Next,
    /// The bunch is abandoned; the queue goes on with the next bunch, having
    /// forgotten the best number.
    Abandon,
    /// The queue is stopping: nothing more is imported.
    Stop,
}

/// The first step in importing a block: a block that came without its
/// header or without its justification is not imported, and the peer it came
/// from is to be disconnected. `header` is the hash and the number of the
/// block, taken from its header.
pub fn begin_import<H, N>(header: Option<(H, N)>, has_justification: bool, origin: PeerId) -> (step:
    ImportStep<H, N>)
    ensures
        step == match header {
            Some((hash, number)) if has_justification => ImportStep::AskStatus(hash, number),
            _ => ImportStep::Done(Err(BlockImportError::Disconnect(origin))),
        },
{
    match header {
        Some((hash, number)) => {
            if has_justification {
                ImportStep::AskStatus(hash, number)
            } else {
                ImportStep::Done(Err(BlockImportError::Disconnect(origin)))
            }
        },
        None => ImportStep::Done(Err(BlockImportError::Disconnect(origin))),
    }
}

/// The step after the chain was asked for the status of a block. A block
/// that is in the chain is not imported again. `status` is `None` if the
/// chain failed to answer: the sync is to be restarted.
pub fn after_status<H, N>(hash: H, number: N, status: Option<BlockStatus>) -> (step: ImportStep<
    H,
    N,
>)
    ensures
        step == match status {
            Some(BlockStatus::InChain) => ImportStep::Done(
                Ok(BlockImportResult::NotImported(hash, number)),
            ),
            Some(BlockStatus::NotInChain) => ImportStep::Import(hash, number),
            None => ImportStep::Done(Err(BlockImportError::Restart)),
        },
{
    match status {
        Some(BlockStatus::InChain) => ImportStep::Done(
            Ok(BlockImportResult::NotImported(hash, number)),
        ),
        Some(BlockStatus::NotInChain) => ImportStep::Import(hash, number),
        None => ImportStep::Done(Err(BlockImportError::Restart)),
    }
}

/// The outcome of importing a block, from what the chain made of it.
/// `result` is `None` if the chain failed: the sync is to be restarted, as
/// it is if the parent of the block is unknown. A block that is known to be
/// bad also costs the peer it came from its connection.
pub fn after_import<H, N>(hash: H, number: N, origin: PeerId, result: Option<ImportResult>) -> (outcome:
    Result<BlockImportResult<H, N>, BlockImportError>)
    ensures
        outcome == match result {
            Some(ImportResult::AlreadyInChain) | Some(ImportResult::AlreadyQueued) => Ok(
                BlockImportResult::ImportedKnown(hash, number),
            ),
            Some(ImportResult::Queued) => Ok(BlockImportResult::ImportedUnknown(hash, number)),
            Some(ImportResult::UnknownParent) => Err(BlockImportError::Restart),
            Some(ImportResult::KnownBad) => Err(BlockImportError::DisconnectAndRestart(origin)),
            None => Err(BlockImportError::Restart),
        },
{
    match result {
        Some(ImportResult::AlreadyInChain) => Ok(BlockImportResult::ImportedKnown(hash, number)),
        Some(ImportResult::AlreadyQueued) => Ok(BlockImportResult::ImportedKnown(hash, number)),
        Some(ImportResult::Queued) => Ok(BlockImportResult::ImportedUnknown(hash, number)),
        Some(ImportResult::UnknownParent) => Err(BlockImportError::Restart),
        Some(ImportResult::KnownBad) => Err(BlockImportError::DisconnectAndRestart(origin)),
        None => Err(BlockImportError::Restart),
    }
}

/// Process single block import result: how many blocks it adds to the count
/// of those imported, and what the sync is to be told.
pub fn process_import_result<H>(
    result: Result<BlockImportResult<H, u64>, BlockImportError>,
) -> (counted: (usize, LinkAction<H>))
    ensures
        counted == match result {
            Ok(BlockImportResult::NotImported(_, _)) => (0usize, LinkAction::Nothing),
            Ok(BlockImportResult::ImportedKnown(hash, number)) => (
                0usize,
                LinkAction::BlockImported(hash, number),
            ),
            Ok(BlockImportResult::ImportedUnknown(hash, number)) => (
                1usize,
                LinkAction::BlockImported(hash, number),
            ),
            Err(BlockImportError::Disconnect(peer_id)) => (0usize, LinkAction::Disconnect(peer_id)),
            Err(BlockImportError::DisconnectAndRestart(peer_id)) => (
                0usize,
                LinkAction::DisconnectAndRestart(peer_id),
            ),
            Err(BlockImportError::Restart) => (0usize, LinkAction::Restart),
        },
{
    match result {
        Ok(BlockImportResult::NotImported(_, _)) => (0, LinkAction::Nothing),
        Ok(BlockImportResult::ImportedKnown(hash, number)) => (
            0,
            LinkAction::BlockImported(hash, number),
        ),
        Ok(BlockImportResult::ImportedUnknown(hash, number)) => (
            1,
            LinkAction::BlockImported(hash, number),
        ),
        Err(BlockImportError::Disconnect(peer_id)) => (0, LinkAction::Disconnect(peer_id)),
        Err(BlockImportError::DisconnectAndRestart(peer_id)) => (
            0,
            LinkAction::DisconnectAndRestart(peer_id),
        ),
        Err(BlockImportError::Restart) => (0, LinkAction::Restart),
    }
}

/// How the import of a bunch of blocks goes on after one of them: a failed
/// import ends the bunch, whether or not the queue is stopping; else a queue
/// that is stopping imports no more.
pub fn after_block(import_failed: bool, stopping: bool) -> (step: BatchStep)
    ensures
        step == if import_failed {
            BatchStep::Abandon
        } else if stopping {
            BatchStep::Stop
        } else {
            BatchStep::Next
        },
{
    if import_failed {
        BatchStep::Abandon
    } else if stopping {
        BatchStep::Stop
    } else {
        BatchStep::Next
    }
}

/// The best importing number once a bunch of blocks has joined the queue:
/// the greater of the number so far and the number of the last block of the
/// bunch. `last_number` is `None` if the bunch is empty or its last block
/// came without a header, and then counts as zero.
pub fn best_importing_number(so_far: u64, last_number: Option<u64>) -> (best: u64)
    ensures
        best == match last_number {
            Some(number) if number > so_far => number,
            _ => so_far,
        },
{
    let new_best_importing_number = match last_number {
        Some(number) => number,
        None => 0,
    };
    if new_best_importing_number > so_far {
        new_best_importing_number
    } else {
        so_far
    }
}

/// The blocks of a bunch join those that are in the queue.
pub fn note_queued<H: Hash + Eq>(queue_blocks: &mut HashSet<H>, hashes: Vec<H>)
    requires
        obeys_key_model::<H>(),
    ensures
        final(queue_blocks)@ == old(queue_blocks)@.union(hashes@.to_set()),
{
    let mut hashes = hashes;
    let ghost all = hashes@;
    while hashes.len() > 0
        invariant
            obeys_key_model::<H>(),
            hashes@.len() <= all.len(),
            hashes@ == all.take(hashes@.len() as int),
            queue_blocks@ == old(queue_blocks)@.union(all.skip(hashes@.len() as int).to_set()),
        decreases hashes.len(),
    {
        let ghost before = queue_blocks@;
        let ghost n = hashes@.len() as int;
        let hash = hashes.pop().unwrap();
        queue_blocks.insert(hash);
        proof {
            assert(hash == all[n - 1]);
            assert(hashes@ =~= all.take(n - 1));
            let longer = all.skip(n - 1);
            let shorter = all.skip(n);
            assert(longer.to_set() =~= shorter.to_set().insert(hash)) by {
                assert forall|h: H| longer.contains(h) <==> (h == hash || shorter.contains(h)) by {
                    if longer.contains(h) {
                        let i = choose|i: int| 0 <= i < longer.len() && longer[i] == h;
                        if i > 0 {
                            assert(shorter[i - 1] == h);
                        }
                    }
                    if shorter.contains(h) {
                        let i = choose|i: int| 0 <= i < shorter.len() && shorter[i] == h;
                        assert(longer[i + 1] == h);
                    }
                    if h == hash {
                        assert(longer[0] == h);
                    }
                }
            }
            assert(queue_blocks@ =~= old(queue_blocks)@.union(all.skip(n - 1).to_set()));
        }
    }
    proof {
        assert(all.skip(0) =~= all);
    }
}

/// The blocks of a bunch that has been imported leave those that are in the
/// queue.
pub fn note_imported<H: Hash + Eq>(queue_blocks: &mut HashSet<H>, hashes: &Vec<H>)
    requires
        obeys_key_model::<H>(),
    ensures
        final(queue_blocks)@ == old(queue_blocks)@.difference(hashes@.to_set()),
{
    let mut i: usize = 0;
    while i < hashes.len()
        invariant
            obeys_key_model::<H>(),
            i <= hashes.len(),
            queue_blocks@ == old(queue_blocks)@.difference(hashes@.take(i as int).to_set()),
        decreases hashes.len() - i,
    {
        queue_blocks.remove(&hashes[i]);
        proof {
            let done = hashes@.take(i as int);
            let more = hashes@.take(i + 1);
            assert(more =~= done.push(hashes@[i as int]));
            assert(more.to_set() =~= done.to_set().insert(hashes@[i as int])) by {
                assert forall|h: H| more.contains(h) <==> (h == hashes@[i as int] || done.contains(
                    h,
                )) by {
                    if more.contains(h) {
                        let k = choose|k: int| 0 <= k < more.len() && more[k] == h;
                        if k < i {
                            assert(done[k] == h);
                        }
                    }
                    if done.contains(h) {
                        let k = choose|k: int| 0 <= k < done.len() && done[k] == h;
                        assert(more[k] == h);
                    }
                    if h == hashes@[i as int] {
                        assert(more[i as int] == h);
                    }
                }
            }
            assert(queue_blocks@ =~= old(queue_blocks)@.difference(more.to_set()));
        }
        i = i + 1;
    }
    proof {
        assert(hashes@.take(hashes@.len() as int) =~= hashes@);
    }
}

/// Get queue status, from the blocks that are in the queue and the best
/// importing number.
pub fn queue_status<H>(queue_blocks: &HashSet<H>, best_importing_number: u64) -> (status:
    ImportQueueStatus)
    requires
        obeys_key_model::<H>(),
    ensures
        status.importing_count == queue_blocks@.len(),
        status.best_importing_number == best_importing_number,
{
    ImportQueueStatus { importing_count: queue_blocks.len(), best_importing_number }
}

} // verus!

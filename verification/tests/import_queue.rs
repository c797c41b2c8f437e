use candidate_agreement::import_queue::{
    after_block, after_import, after_status, begin_import, best_importing_number, note_imported,
    note_queued, process_import_result, queue_status, BatchStep, BlockImportError,
    BlockImportResult, BlockStatus, ImportResult, ImportStep, LinkAction, PeerId,
};
use std::collections::HashSet;

type Hash = [u8; 4];

#[derive(Default)]
struct TestLink {
    imported: usize,
    maintains: usize,
    disconnects: usize,
    restarts: usize,
}

impl TestLink {
    fn total(&self) -> usize {
        self.imported + self.maintains + self.disconnects + self.restarts
    }

    fn block_imported(&mut self, _hash: &Hash, _number: u64) {
        self.imported += 1;
    }

    fn maintain_sync(&mut self) {
        self.maintains += 1;
    }

    fn disconnect(&mut self, _peer_id: PeerId) {
        self.disconnects += 1;
    }

    fn disconnect_and_restart(&mut self, _peer_id: PeerId) {
        self.disconnects += 1;
        self.restarts += 1;
    }

    fn restart(&mut self) {
        self.restarts += 1;
    }

    // tell the link what the queue decided
    fn tell(&mut self, action: LinkAction<Hash>) {
        match action {
            LinkAction::Nothing => {}
            LinkAction::BlockImported(hash, number) => self.block_imported(&hash, number),
            LinkAction::Disconnect(peer_id) => self.disconnect(peer_id),
            LinkAction::DisconnectAndRestart(peer_id) => self.disconnect_and_restart(peer_id),
            LinkAction::Restart => self.restart(),
        }
    }
}

// a chain that answers as it is told to
struct TestChain {
    status: Option<BlockStatus>,
    result: Option<ImportResult>,
}

struct TestBlock {
    hash: Hash,
    header: Option<u64>,
    has_justification: bool,
    origin: PeerId,
}

fn prepare_good_block() -> (Hash, u64, TestBlock) {
    let hash = [1, 2, 3, 4];
    (hash, 1, TestBlock { hash, header: Some(1), has_justification: true, origin: 0 })
}

// a chain that has not seen the block
fn new_chain() -> TestChain {
    TestChain { status: Some(BlockStatus::NotInChain), result: Some(ImportResult::Queued) }
}

// a chain that holds the block
fn chain_with_block() -> TestChain {
    TestChain { status: Some(BlockStatus::InChain), result: Some(ImportResult::AlreadyInChain) }
}

fn import_single_block(
    chain: &TestChain,
    block: TestBlock,
) -> Result<BlockImportResult<Hash, u64>, BlockImportError> {
    let origin = block.origin;
    let header = block.header.map(|number| (block.hash, number));
    let mut step = begin_import(header, block.has_justification, origin);
    loop {
        step = match step {
            ImportStep::AskStatus(hash, number) => after_status(hash, number, chain.status),
            ImportStep::Import(hash, number) => {
                ImportStep::Done(after_import(hash, number, origin, chain.result))
            }
            ImportStep::Done(outcome) => return outcome,
        }
    }
}

fn import_many_blocks(
    link: &mut TestLink,
    chain: &TestChain,
    stopping: bool,
    blocks: Vec<TestBlock>,
) -> bool {
    for block in blocks {
        let import_result = import_single_block(chain, block);
        let is_import_failed = import_result.is_err();
        let (_, action) = process_import_result(import_result);
        link.tell(action);
        match after_block(is_import_failed, stopping) {
            BatchStep::Abandon => return true,
            BatchStep::Stop => return false,
            BatchStep::Next => {}
        }
    }
    link.maintain_sync();
    true
}

#[test]
fn import_single_good_block_works() {
    let (hash, number, block) = prepare_good_block();
    assert_eq!(
        import_single_block(&new_chain(), block),
        Ok(BlockImportResult::ImportedUnknown(hash, number))
    );
}

#[test]
fn import_single_good_known_block_is_ignored() {
    let (hash, number, block) = prepare_good_block();
    assert_eq!(
        import_single_block(&chain_with_block(), block),
        Ok(BlockImportResult::NotImported(hash, number))
    );
}

#[test]
fn import_single_good_block_without_header_fails() {
    let (_, _, mut block) = prepare_good_block();
    block.header = None;
    assert_eq!(import_single_block(&new_chain(), block), Err(BlockImportError::Disconnect(0)));
}

#[test]
fn import_single_good_block_without_justification_fails() {
    let (_, _, mut block) = prepare_good_block();
    block.has_justification = false;
    assert_eq!(import_single_block(&new_chain(), block), Err(BlockImportError::Disconnect(0)));
}

#[test]
fn process_import_result_works() {
    let mut link = TestLink::default();
    let (count, action) =
        process_import_result::<Hash>(Ok(BlockImportResult::NotImported(Default::default(), 0)));
    link.tell(action);
    assert_eq!(count, 0);
    assert_eq!(link.total(), 0);

    let mut link = TestLink::default();
    let (count, action) =
        process_import_result::<Hash>(Ok(BlockImportResult::ImportedKnown(Default::default(), 0)));
    link.tell(action);
    assert_eq!(count, 0);
    assert_eq!(link.total(), 1);
    assert_eq!(link.imported, 1);

    let mut link = TestLink::default();
    let (count, action) = process_import_result::<Hash>(Ok(BlockImportResult::ImportedUnknown(
        Default::default(),
        0,
    )));
    link.tell(action);
    assert_eq!(count, 1);
    assert_eq!(link.total(), 1);
    assert_eq!(link.imported, 1);

    let mut link = TestLink::default();
    let (count, action) = process_import_result::<Hash>(Err(BlockImportError::Disconnect(0)));
    link.tell(action);
    assert_eq!(count, 0);
    assert_eq!(link.total(), 1);
    assert_eq!(link.disconnects, 1);

    let mut link = TestLink::default();
    let (count, action) =
        process_import_result::<Hash>(Err(BlockImportError::DisconnectAndRestart(0)));
    link.tell(action);
    assert_eq!(count, 0);
    assert_eq!(link.total(), 2);
    assert_eq!(link.disconnects, 1);
    assert_eq!(link.restarts, 1);

    let mut link = TestLink::default();
    let (count, action) = process_import_result::<Hash>(Err(BlockImportError::Restart));
    link.tell(action);
    assert_eq!(count, 0);
    assert_eq!(link.total(), 1);
    assert_eq!(link.restarts, 1);
}

#[test]
fn import_many_blocks_stops_when_stopping() {
    let (_, _, block) = prepare_good_block();
    let (_, _, other) = prepare_good_block();
    assert!(!import_many_blocks(&mut TestLink::default(), &new_chain(), true, vec![block, other]));
}

#[test]
fn import_many_blocks_goes_on_until_one_fails() {
    let blocks = || {
        let (_, _, first) = prepare_good_block();
        let (_, _, mut second) = prepare_good_block();
        let (_, _, third) = prepare_good_block();
        second.header = None;
        vec![first, second, third]
    };
    let mut link = TestLink::default();
    assert!(import_many_blocks(&mut link, &new_chain(), false, blocks()));
    // one block imported, one peer disconnected, and the sync left alone
    assert_eq!((link.imported, link.disconnects, link.restarts, link.maintains), (1, 1, 0, 0));

    let mut link = TestLink::default();
    let (_, _, first) = prepare_good_block();
    let (_, _, second) = prepare_good_block();
    assert!(import_many_blocks(&mut link, &new_chain(), false, vec![first, second]));
    assert_eq!((link.imported, link.disconnects, link.restarts, link.maintains), (2, 0, 0, 1));

    // a failure ends the bunch even when the queue is stopping
    assert_eq!(after_block(true, true), BatchStep::Abandon);
    assert_eq!(after_block(true, false), BatchStep::Abandon);
    assert_eq!(after_block(false, true), BatchStep::Stop);
    assert_eq!(after_block(false, false), BatchStep::Next);
}

#[test]
fn each_answer_of_the_chain_has_its_outcome() {
    let h: Hash = [9; 4];
    assert_eq!(after_status(h, 5u64, None), ImportStep::Done(Err(BlockImportError::Restart)));
    assert_eq!(after_status(h, 5u64, Some(BlockStatus::NotInChain)), ImportStep::Import(h, 5));
    assert_eq!(
        after_status(h, 5u64, Some(BlockStatus::InChain)),
        ImportStep::Done(Ok(BlockImportResult::NotImported(h, 5)))
    );

    let known = Ok(BlockImportResult::ImportedKnown(h, 5u64));
    assert_eq!(after_import(h, 5u64, 3, Some(ImportResult::AlreadyInChain)), known);
    assert_eq!(after_import(h, 5u64, 3, Some(ImportResult::AlreadyQueued)), known);
    assert_eq!(
        after_import(h, 5u64, 3, Some(ImportResult::Queued)),
        Ok(BlockImportResult::ImportedUnknown(h, 5))
    );
    assert_eq!(
        after_import(h, 5u64, 3, Some(ImportResult::UnknownParent)),
        Err(BlockImportError::Restart)
    );
    assert_eq!(
        after_import(h, 5u64, 3, Some(ImportResult::KnownBad)),
        Err(BlockImportError::DisconnectAndRestart(3))
    );
    assert_eq!(after_import(h, 5u64, 3, None), Err(BlockImportError::Restart));

    assert_eq!(
        begin_import(Some((h, 5u64)), false, 8),
        ImportStep::Done(Err(BlockImportError::Disconnect(8)))
    );
    assert_eq!(
        begin_import(None::<(Hash, u64)>, true, 8),
        ImportStep::Done(Err(BlockImportError::Disconnect(8)))
    );
    assert_eq!(begin_import(Some((h, 5u64)), true, 8), ImportStep::AskStatus(h, 5));
}

#[test]
fn best_importing_number_never_falls() {
    assert_eq!(best_importing_number(0, None), 0);
    assert_eq!(best_importing_number(7, None), 7);
    assert_eq!(best_importing_number(7, Some(3)), 7);
    assert_eq!(best_importing_number(7, Some(7)), 7);
    assert_eq!(best_importing_number(7, Some(8)), 8);
    assert_eq!(best_importing_number(0, Some(u64::MAX)), u64::MAX);
}

#[test]
fn queue_keeps_count_of_its_blocks() {
    let mut queue_blocks: HashSet<u64> = HashSet::new();
    note_queued(&mut queue_blocks, vec![1, 2, 3]);
    note_queued(&mut queue_blocks, vec![3, 4]);
    note_queued(&mut queue_blocks, vec![]);
    let status = queue_status(&queue_blocks, 4);
    assert_eq!(status.importing_count, 4);
    assert_eq!(status.best_importing_number, 4);
    assert!(queue_blocks.contains(&3));

    note_imported(&mut queue_blocks, &vec![1, 2, 3, 9]);
    let status = queue_status(&queue_blocks, 0);
    assert_eq!(status.importing_count, 1);
    assert_eq!(status.best_importing_number, 0);
    assert!(queue_blocks.contains(&4));
    assert!(!queue_blocks.contains(&3));
}

use chain_sync::cycle::{CycleStage, SyncAction, SyncActor};
use chain_sync::types::{
    Block, BlockBody, BlockHeader, DataType, HashWithBlockHeader, HashWithNumber, SyncError,
};

fn tip_at(hash: u64, number: u64) -> HashWithBlockHeader {
    HashWithBlockHeader {
        hash,
        header: BlockHeader { id: hash, parent_hash: hash - 1, number },
    }
}

#[test]
fn announcement_from_ahead_peer_opens_cycle() {
    let mut actor = SyncActor::new(1000, 1000);
    let action = actor.handle_announcement(7, tip_at(0xa8, 8), 5);
    match action {
        Some(SyncAction::SendHashRequest { peer, request }) => {
            assert_eq!(peer, 7);
            let expect: Vec<u64> = (0..=8).collect();
            assert_eq!(request.numbers, expect);
        }
        other => panic!("expected a hash request, got {:?}", action_name(&other)),
    }
    assert!(matches!(actor.stage, CycleStage::AwaitingHashBatch { peer: 7 }));
}

#[test]
fn announcement_from_behind_peer_stays_idle() {
    let mut actor = SyncActor::new(1000, 1000);
    let action = actor.handle_announcement(7, tip_at(0xa8, 8), 8);
    assert!(action.is_none());
    assert!(matches!(actor.stage, CycleStage::Idle));
}

#[test]
fn response_in_wrong_stage_is_protocol_error() {
    let mut actor = SyncActor::new(1000, 1000);
    let action = actor.handle_hash_batch(vec![], vec![], 0);
    assert!(matches!(
        action,
        Some(SyncAction::ReportError { error: SyncError::ProtocolMismatch })
    ));
    assert!(matches!(actor.stage, CycleStage::Idle));
}

#[test]
fn step_failure_ends_cycle_and_allows_a_new_one() {
    let mut actor = SyncActor::new(1000, 1000);
    assert!(actor.handle_announcement(7, tip_at(0xa8, 8), 5).is_some());
    assert!(actor.handle_step_failed().is_none());
    assert!(matches!(actor.stage, CycleStage::Idle));
    assert!(actor.handle_announcement(7, tip_at(0xa8, 8), 5).is_some());
}

#[test]
fn new_block_bypasses_pipeline() {
    let mut actor = SyncActor::new(1000, 1000);
    assert!(actor.handle_announcement(7, tip_at(0xa8, 8), 5).is_some());
    let block = Block {
        header: BlockHeader { id: 5, parent_hash: 4, number: 2 },
        transactions: vec![42],
    };
    match actor.handle_new_block(block) {
        Some(SyncAction::SubmitDirect { block }) => {
            assert_eq!(block.header.id, 5);
            assert_eq!(block.transactions, vec![42]);
        }
        other => panic!("expected a direct submission, got {:?}", action_name(&other)),
    }
    assert!(matches!(actor.stage, CycleStage::AwaitingHashBatch { .. }));
}

#[test]
fn failed_connect_skips_dependent_blocks() {
    let mut actor = SyncActor::new(1000, 1000);
    assert!(actor.handle_announcement(7, tip_at(1003, 3), 0).is_some());
    let batch: Vec<HashWithNumber> =
        (0..=3u64).map(|n| HashWithNumber { hash: 1000 + n, number: n }).collect();
    let known = vec![true, false, false, false];
    assert!(actor.handle_hash_batch(batch, known, 0).is_some());
    let headers: Vec<HashWithBlockHeader> = (1..=3u64).map(|n| tip_at(1000 + n, n)).collect();
    assert!(actor.handle_headers(headers, 0).is_some());
    let bodies: Vec<BlockBody> =
        (1..=3u64).map(|n| BlockBody { hash: 1000 + n, transactions: vec![n] }).collect();
    let first = actor.handle_bodies(bodies);
    assert!(matches!(first, Some(SyncAction::SubmitBatchBlock { .. })));
    let report = actor.handle_connect_result(false, 0);
    match report {
        Some(SyncAction::ReportConnectFailure { skipped }) => assert_eq!(skipped, 2),
        other => panic!("expected a connect-failure report, got {:?}", action_name(&other)),
    }
    assert!(matches!(actor.stage, CycleStage::Idle));
}

/// End to end: peer A announces tip at height 50; the local chain holds
/// only genesis. The hash-range response carries 51 pairs of which only
/// genesis is locally known, so genesis is the ancestor, 50 hashes are
/// queued, one header and one body round each move at most 100, and 50
/// blocks reach the chain reader in ascending order.
#[test]
fn end_to_end_fifty_blocks_in_order() {
    let mut actor = SyncActor::new(1_000_000, 1000);
    let tip = tip_at(1050, 50);

    let action = actor.handle_announcement(1, tip, 0);
    let numbers = match action {
        Some(SyncAction::SendHashRequest { peer, request }) => {
            assert_eq!(peer, 1);
            request.numbers
        }
        other => panic!("expected a hash request, got {:?}", action_name(&other)),
    };
    let expect: Vec<u64> = (0..=50).collect();
    assert_eq!(numbers, expect);

    let batch: Vec<HashWithNumber> =
        numbers.iter().map(|n| HashWithNumber { hash: 1000 + n, number: *n }).collect();
    let known: Vec<bool> = numbers.iter().map(|n| *n == 0).collect();
    let action = actor.handle_hash_batch(batch, known, 0);
    let header_hashes = match action {
        Some(SyncAction::SendDataRequest { peer, request }) => {
            assert_eq!(peer, 1);
            assert_eq!(request.data_type, DataType::Header);
            request.hashes
        }
        other => panic!("expected a header request, got {:?}", action_name(&other)),
    };
    let expect_hashes: Vec<u64> = (1..=50u64).map(|n| 1000 + n).collect();
    assert_eq!(header_hashes, expect_hashes);

    let headers: Vec<HashWithBlockHeader> =
        header_hashes.iter().map(|h| tip_at(*h, h - 1000)).collect();
    let action = actor.handle_headers(headers, 0);
    let body_hashes = match action {
        Some(SyncAction::SendDataRequest { peer, request }) => {
            assert_eq!(peer, 1);
            assert_eq!(request.data_type, DataType::Body);
            request.hashes
        }
        other => panic!("expected a body request, got {:?}", action_name(&other)),
    };
    assert_eq!(body_hashes, expect_hashes);

    let bodies: Vec<BlockBody> = body_hashes
        .iter()
        .map(|h| BlockBody { hash: *h, transactions: vec![*h - 1000] })
        .collect();
    let mut action = actor.handle_bodies(bodies);

    let mut submitted: Vec<u64> = Vec::new();
    loop {
        match action {
            Some(SyncAction::SubmitBatchBlock { block }) => {
                submitted.push(block.header.number);
                action = actor.handle_connect_result(true, 0);
            }
            None => break,
            other => panic!("unexpected action {:?}", action_name(&other)),
        }
    }
    let expect_numbers: Vec<u64> = (1..=50).collect();
    assert_eq!(submitted, expect_numbers);
    assert!(matches!(actor.stage, CycleStage::Idle));
}

/// Two peers announce near-simultaneously; the actor serializes them. The
/// second announcement lands mid-cycle: it is recorded but triggers no
/// request, so no hash is requested twice and peer B's rounds cannot
/// interleave with peer A's.
#[test]
fn concurrent_announcements_do_not_interleave() {
    let mut actor = SyncActor::new(1_000_000, 1000);

    let first = actor.handle_announcement(1, tip_at(1050, 50), 0);
    assert!(matches!(first, Some(SyncAction::SendHashRequest { peer: 1, .. })));

    let second = actor.handle_announcement(2, tip_at(2040, 40), 0);
    assert!(second.is_none());
    assert!(matches!(actor.stage, CycleStage::AwaitingHashBatch { peer: 1 }));
    assert_eq!(actor.downloader.peers.len(), 2);

    let batch: Vec<HashWithNumber> =
        (0..=50u64).map(|n| HashWithNumber { hash: 1000 + n, number: n }).collect();
    let known: Vec<bool> = (0..=50u64).map(|n| n == 0).collect();
    let action = actor.handle_hash_batch(batch, known, 0);
    match action {
        Some(SyncAction::SendDataRequest { peer, request }) => {
            assert_eq!(peer, 1);
            let mut sorted = request.hashes.clone();
            sorted.sort();
            sorted.dedup();
            assert_eq!(sorted.len(), request.hashes.len());
            assert!(request.hashes.iter().all(|h| (1001..=1050).contains(h)));
        }
        other => panic!("expected a header request, got {:?}", action_name(&other)),
    }
}

fn action_name(a: &Option<SyncAction>) -> &'static str {
    match a {
        None => "no action",
        Some(SyncAction::SendHashRequest { .. }) => "SendHashRequest",
        Some(SyncAction::SendDataRequest { .. }) => "SendDataRequest",
        Some(SyncAction::SubmitBatchBlock { .. }) => "SubmitBatchBlock",
        Some(SyncAction::SubmitDirect { .. }) => "SubmitDirect",
        Some(SyncAction::ReportError { .. }) => "ReportError",
        Some(SyncAction::ReportConnectFailure { .. }) => "ReportConnectFailure",
    }
}

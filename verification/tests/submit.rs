use chain_sync::submit::{SubmissionBatch, assemble_blocks};
use chain_sync::types::{Block, BlockBody, BlockHeader, HashWithBlockHeader, SyncError};

fn header_at(hash: u64, number: u64) -> HashWithBlockHeader {
    HashWithBlockHeader {
        hash,
        header: BlockHeader { id: hash, parent_hash: hash - 1, number },
    }
}

fn body_for(hash: u64, tx: u64) -> BlockBody {
    BlockBody { hash, transactions: vec![tx] }
}

#[test]
fn assemble_pairs_headers_with_their_bodies() {
    let headers = vec![header_at(11, 1), header_at(12, 2)];
    let bodies = vec![body_for(11, 101), body_for(12, 102)];
    let blocks = assemble_blocks(headers, bodies).expect("aligned batch");
    assert_eq!(blocks.len(), 2);
    assert_eq!(blocks[0].header.id, 11);
    assert_eq!(blocks[0].transactions, vec![101]);
    assert_eq!(blocks[1].header.id, 12);
    assert_eq!(blocks[1].transactions, vec![102]);
}

#[test]
fn assemble_refuses_count_mismatch() {
    let headers = vec![header_at(11, 1), header_at(12, 2)];
    let bodies = vec![body_for(11, 101)];
    assert_eq!(assemble_blocks(headers, bodies), Err(SyncError::ProtocolMismatch));
}

#[test]
fn assemble_refuses_misaligned_hashes() {
    let headers = vec![header_at(11, 1), header_at(12, 2)];
    let bodies = vec![body_for(12, 102), body_for(11, 101)];
    assert_eq!(assemble_blocks(headers, bodies), Err(SyncError::ProtocolMismatch));
}

#[test]
fn assemble_of_empty_batch_is_empty() {
    let blocks = assemble_blocks(vec![], vec![]).expect("aligned batch");
    assert!(blocks.is_empty());
}

#[test]
fn batch_submits_strictly_in_order() {
    let headers = vec![header_at(11, 1), header_at(12, 2)];
    let bodies = vec![body_for(11, 101), body_for(12, 102)];
    let blocks = assemble_blocks(headers, bodies).expect("aligned batch");
    let mut batch = SubmissionBatch::new(blocks);

    let first = batch.next_to_submit().expect("first block owed");
    assert_eq!(first.header.id, 11);
    batch.record_outcome(true);

    let second = batch.next_to_submit().expect("second block owed");
    assert_eq!(second.header.id, 12);
    batch.record_outcome(true);

    assert!(batch.next_to_submit().is_none());
    assert_eq!(batch.remaining_count(), 0);
}

#[test]
fn second_block_needs_first_to_connect() {
    let headers = vec![header_at(11, 1), header_at(12, 2)];
    let bodies = vec![body_for(11, 101), body_for(12, 102)];
    let blocks = assemble_blocks(headers, bodies).expect("aligned batch");
    let mut batch = SubmissionBatch::new(blocks);

    let first = batch.next_to_submit().expect("first block owed");
    assert_eq!(first.header.id, 11);
    batch.record_outcome(false);

    assert!(batch.next_to_submit().is_none());
    assert_eq!(batch.remaining_count(), 2);
}

#[test]
fn direct_block_keeps_its_contents() {
    let block = Block { header: BlockHeader { id: 9, parent_hash: 8, number: 3 }, transactions: vec![7, 8] };
    let mut batch = SubmissionBatch::new(vec![block]);
    let out = batch.next_to_submit().expect("block owed");
    assert_eq!(out.header.id, 9);
    assert_eq!(out.transactions, vec![7, 8]);
    batch.record_outcome(true);
    assert!(batch.next_to_submit().is_none());
}

use chain_sync::downloader::Downloader;
use chain_sync::types::{BlockHeader, DataType, HashWithBlockHeader, HashWithNumber};

fn tip_at(hash: u64, number: u64) -> HashWithBlockHeader {
    HashWithBlockHeader {
        hash,
        header: BlockHeader { id: hash, parent_hash: hash.wrapping_sub(1), number },
    }
}

#[test]
fn no_peer_means_nothing_to_sync() {
    let d = Downloader::new(1000, 1000);
    assert_eq!(d.select_best_peer(), None);
    assert_eq!(d.plan_hash_request(0), None);
}

#[test]
fn best_peer_has_greatest_height() {
    let mut d = Downloader::new(1000, 1000);
    d.record_peer_announcement(1, tip_at(0xa1, 10));
    d.record_peer_announcement(2, tip_at(0xa2, 50));
    d.record_peer_announcement(3, tip_at(0xa3, 30));
    assert_eq!(d.select_best_peer(), Some(2));
}

#[test]
fn best_peer_tie_goes_to_most_recent() {
    let mut d = Downloader::new(1000, 1000);
    d.record_peer_announcement(1, tip_at(0xa1, 50));
    d.record_peer_announcement(2, tip_at(0xa2, 50));
    assert_eq!(d.select_best_peer(), Some(2));
    d.record_peer_announcement(1, tip_at(0xb1, 50));
    assert_eq!(d.select_best_peer(), Some(1));
}

#[test]
fn reannouncement_overwrites_peer_entry() {
    let mut d = Downloader::new(1000, 1000);
    d.record_peer_announcement(1, tip_at(0xa1, 10));
    d.record_peer_announcement(1, tip_at(0xb1, 60));
    assert_eq!(d.peers.len(), 1);
    assert_eq!(d.peers[0].tip.header.number, 60);
}

#[test]
fn plan_covers_whole_short_chain() {
    let mut d = Downloader::new(1000, 1000);
    d.record_peer_announcement(7, tip_at(0xa7, 8));
    let (peer, msg) = d.plan_hash_request(5).expect("peer is ahead");
    assert_eq!(peer, 7);
    let expect: Vec<u64> = (0..=8).collect();
    assert_eq!(msg.numbers, expect);
}

#[test]
fn plan_covers_recent_window_of_long_chain() {
    let mut d = Downloader::new(1000, 1000);
    d.record_peer_announcement(7, tip_at(0xa7, 250));
    let (peer, msg) = d.plan_hash_request(5).expect("peer is ahead");
    assert_eq!(peer, 7);
    assert_eq!(msg.numbers.len(), 100);
    assert_eq!(msg.numbers[0], 151);
    assert_eq!(msg.numbers[99], 250);
}

#[test]
fn plan_window_boundary_heights() {
    let mut d = Downloader::new(1000, 1000);
    d.record_peer_announcement(7, tip_at(0xa7, 99));
    let (_, msg) = d.plan_hash_request(0).expect("peer is ahead");
    let expect: Vec<u64> = (0..=99).collect();
    assert_eq!(msg.numbers, expect);

    d.record_peer_announcement(7, tip_at(0xb7, 100));
    let (_, msg) = d.plan_hash_request(0).expect("peer is ahead");
    let expect: Vec<u64> = (1..=100).collect();
    assert_eq!(msg.numbers, expect);
}

#[test]
fn plan_is_none_when_peer_not_ahead() {
    let mut d = Downloader::new(1000, 1000);
    d.record_peer_announcement(7, tip_at(0xa7, 8));
    assert_eq!(d.plan_hash_request(8), None);
    assert_eq!(d.plan_hash_request(9), None);
}

#[test]
fn resolve_ancestor_finds_highest_known_and_queues_rest() {
    let mut d = Downloader::new(1000, 1000);
    let batch: Vec<HashWithNumber> =
        (0..6u64).map(|n| HashWithNumber { hash: 1000 + n, number: n }).collect();
    let known = vec![true, true, false, false, false, false];
    let ancestor = d.resolve_ancestor(9, &batch, &known, 0);
    assert_eq!(ancestor, Some(HashWithNumber { hash: 1001, number: 1 }));
    let req = d.drain_hashes_for_header_request(100, 0).expect("hashes queued");
    assert_eq!(req.data_type, DataType::Header);
    assert_eq!(req.hashes, vec![1002, 1003, 1004, 1005]);
}

#[test]
fn resolve_ancestor_none_queues_nothing() {
    let mut d = Downloader::new(1000, 1000);
    let batch: Vec<HashWithNumber> =
        (0..6u64).map(|n| HashWithNumber { hash: 1000 + n, number: n }).collect();
    let known = vec![false; 6];
    assert_eq!(d.resolve_ancestor(9, &batch, &known, 0), None);
    assert!(d.drain_hashes_for_header_request(100, 0).is_none());
}

#[test]
fn drain_hashes_respects_max() {
    let mut d = Downloader::new(1000, 1000);
    let batch: Vec<HashWithNumber> =
        (0..6u64).map(|n| HashWithNumber { hash: 1000 + n, number: n }).collect();
    let known = vec![true, false, false, false, false, false];
    d.resolve_ancestor(9, &batch, &known, 0);
    let req = d.drain_hashes_for_header_request(3, 0).expect("hashes queued");
    assert_eq!(req.hashes, vec![1001, 1002, 1003]);
    let rest = d.drain_hashes_for_header_request(3, 0).expect("more queued");
    assert_eq!(rest.hashes, vec![1004, 1005]);
    assert!(d.drain_hashes_for_header_request(3, 0).is_none());
}

#[test]
fn recorded_headers_drain_into_aligned_body_request() {
    let mut d = Downloader::new(1000, 1000);
    let headers: Vec<HashWithBlockHeader> = (1..4u64).map(|n| tip_at(2000 + n, n)).collect();
    d.record_headers(9, &headers, 0);
    let plan = d.drain_headers_for_body_request(100, 0).expect("headers queued");
    assert_eq!(plan.request.data_type, DataType::Body);
    assert_eq!(plan.request.hashes, vec![2001, 2002, 2003]);
    assert_eq!(plan.headers.len(), 3);
    for (h, hash) in plan.headers.iter().zip(plan.request.hashes.iter()) {
        assert_eq!(h.hash, *hash);
    }
    assert!(d.drain_headers_for_body_request(100, 0).is_none());
}

#[test]
fn rerecorded_header_number_keeps_most_recent() {
    let mut d = Downloader::new(1000, 1000);
    d.record_headers(9, &vec![tip_at(0xaa, 4)], 0);
    d.record_headers(9, &vec![tip_at(0xbb, 4)], 1);
    let plan = d.drain_headers_for_body_request(100, 1).expect("header queued");
    assert_eq!(plan.request.hashes, vec![0xbb]);
}

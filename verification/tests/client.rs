//! Polling scenarios against a deterministic in-memory node.
use std::collections::HashMap;

use near_indexer_client::{
    check_fetched_block, BlockHash, Checkpoint, Client, Error, Finality, Header, PayloadSummary,
    PollSession, Request, Update,
};

fn hash(id: u8) -> BlockHash {
    BlockHash([id; 32])
}

fn checkpoint(id: u8, height: u64) -> Checkpoint {
    Checkpoint { hash: hash(id), height }
}

/// Why a driven poll ended without an update.
#[derive(Debug, PartialEq)]
enum Failure {
    Client(Error),
    Rpc(&'static str),
}

struct Node {
    head: BlockHash,
    headers: HashMap<u8, Header>,
    payloads: HashMap<u8, PayloadSummary>,
    unavailable: Option<BlockHash>,
    indexer_requests: usize,
}

impl Node {
    fn new() -> Node {
        let mut headers = HashMap::new();
        let mut payloads = HashMap::new();
        for (id, parent, height) in [(1, 0, 1), (2, 1, 3), (3, 2, 4), (4, 1, 3), (5, 4, 4), (6, 5, 6)] {
            let header = Header {
                hash: hash(id),
                prev_hash: hash(parent),
                height,
                last_final_block: hash(0),
            };
            headers.insert(id, header);
            payloads.insert(
                id,
                PayloadSummary {
                    header,
                    chunk_shards: vec![0, 1, 2, 3],
                    tracked_shards: vec![0, 1, 2, 3],
                    shard_ids: vec![0, 1, 2, 3],
                },
            );
        }
        Node { head: hash(3), headers, payloads, unavailable: None, indexer_requests: 0 }
    }

    fn id(hash: &BlockHash) -> u8 {
        hash.0[0]
    }

    fn header(&self, hash: &BlockHash) -> Result<Header, Failure> {
        self.headers.get(&Node::id(hash)).copied().ok_or(Failure::Rpc("UNKNOWN_BLOCK"))
    }

    fn payload(&mut self, hash: &BlockHash) -> Result<PayloadSummary, Failure> {
        self.indexer_requests += 1;
        if self.unavailable == Some(*hash) {
            return Err(Failure::Rpc("DATA_UNAVAILABLE"));
        }
        self.payloads.get(&Node::id(hash)).cloned().ok_or(Failure::Rpc("DATA_UNAVAILABLE"))
    }
}

/// Performs what the session asks for until it completes or fails.
fn drive(node: &mut Node, mut session: PollSession<u8>) -> Result<Update<u8>, Failure> {
    loop {
        match session.next_request() {
            Request::HeadAt(_) => {
                let head = node.head;
                let header = node.header(&head)?;
                session.on_header(header).map_err(Failure::Client)?;
            }
            Request::HeaderOf(hash) => {
                let header = node.header(&hash)?;
                session.on_header(header).map_err(Failure::Client)?;
            }
            Request::BlockOf(hash) => {
                let payload = node.payload(&hash)?;
                let id = Node::id(&payload.header.hash);
                session.on_block(&payload, id).map_err(Failure::Client)?;
            }
            Request::Complete => return Ok(session.finish()),
        }
    }
}

fn poll(node: &mut Node, client: &Client<()>, cp: Option<&Checkpoint>) -> Result<Update<u8>, Failure> {
    let session = client.start_poll(cp).map_err(Failure::Client)?;
    drive(node, session)
}

fn update_to(
    node: &mut Node,
    client: &Client<()>,
    cp: Option<&Checkpoint>,
    target: BlockHash,
) -> Result<Update<u8>, Failure> {
    let session = client.start_update_to(cp, target).map_err(Failure::Client)?;
    drive(node, session)
}

fn hashes(rollback: &[Header]) -> Vec<BlockHash> {
    rollback.iter().map(|h| h.hash).collect()
}

#[test]
fn explicit_target_stays_pinned_and_does_not_claim_finality() {
    let mut node = Node::new();
    let client = Client::new((), Finality::Final, 10);
    node.head = hash(6);
    let update = update_to(&mut node, &client, Some(&checkpoint(1, 1)), hash(3)).unwrap();
    assert_eq!(update.blocks, vec![2, 3]);
    assert_eq!(update.next_checkpoint, checkpoint(3, 4));
    assert_eq!(update.finality, Finality::Optimistic);
}

#[test]
fn explicit_target_rejects_wrong_header_and_excessive_ancestry() {
    let mut node = Node::new();
    let client = Client::new((), Finality::Optimistic, 1);
    assert_eq!(
        update_to(&mut node, &client, Some(&checkpoint(1, 1)), hash(3)).unwrap_err(),
        Failure::Client(Error::AncestryLimit(1))
    );
    node.headers.get_mut(&3).unwrap().hash = hash(5);
    assert!(matches!(
        update_to(&mut node, &client, None, hash(3)),
        Err(Failure::Client(Error::InvalidData(_)))
    ));
}

#[test]
fn catches_up_by_hash_across_skipped_heights() {
    let mut node = Node::new();
    let client = Client::new((), Finality::Final, 10);
    let update = poll(&mut node, &client, Some(&checkpoint(1, 1))).unwrap();
    assert!(update.rollback.is_empty());
    assert_eq!(update.blocks, vec![2, 3]);
    assert_eq!(update.next_checkpoint, checkpoint(3, 4));
    assert_eq!(update.finality, Finality::Final);
    assert_eq!(update.head.last_final_block, hash(0));
}

#[test]
fn same_height_fork_replays_after_unacknowledged_restart() {
    let mut node = Node::new();
    let client = Client::new((), Finality::Optimistic, 10);
    node.head = hash(5);
    let saved = checkpoint(3, 4);
    for _ in 0..2 {
        let update = poll(&mut node, &client, Some(&saved)).unwrap();
        assert_eq!(hashes(&update.rollback), [hash(3), hash(2)]);
        assert_eq!(update.blocks, vec![4, 5]);
    }
    node.head = hash(6);
    let update = poll(&mut node, &client, Some(&checkpoint(5, 4))).unwrap();
    assert!(update.rollback.is_empty());
    assert_eq!(update.blocks, vec![6]);
}

#[test]
fn unchanged_head_and_initial_head() {
    let mut node = Node::new();
    let client = Client::new((), Finality::Final, 10);
    let empty = poll(&mut node, &client, Some(&checkpoint(3, 4))).unwrap();
    assert!(empty.rollback.is_empty() && empty.blocks.is_empty());
    assert_eq!(node.indexer_requests, 0);
    assert_eq!(poll(&mut node, &client, None).unwrap().blocks, vec![3]);
}

#[test]
fn finalized_mode_rejects_branch_replacement_before_fetching_payloads() {
    let mut node = Node::new();
    let client = Client::new((), Finality::Final, 10);
    node.head = hash(5);
    assert_eq!(
        poll(&mut node, &client, Some(&checkpoint(3, 4))).unwrap_err(),
        Failure::Client(Error::FinalityViolation)
    );
    assert_eq!(node.indexer_requests, 0);
}

#[test]
fn exhausted_missing_data_returns_no_partial_update() {
    let mut node = Node::new();
    let client = Client::new((), Finality::Final, 10);
    node.unavailable = Some(hash(3));
    let checkpoint = checkpoint(1, 1);
    assert!(matches!(poll(&mut node, &client, Some(&checkpoint)), Err(Failure::Rpc(_))));
    assert_eq!(checkpoint.hash, hash(1));
    node.unavailable = None;
    assert_eq!(poll(&mut node, &client, Some(&checkpoint)).unwrap().blocks, vec![2, 3]);
}

#[test]
fn incomplete_coverage_and_hash_mismatch_fail_closed() {
    let node = Node::new();
    let original = node.payloads[&3].clone();
    assert_eq!(check_fetched_block(&hash(3), &original), Ok(()));
    for mutation in 0..4 {
        let mut block = original.clone();
        match mutation {
            0 => block.tracked_shards = vec![],
            1 => {
                block.shard_ids.pop();
            }
            2 => {
                let shard = block.shard_ids[0];
                block.shard_ids.push(shard);
            }
            _ => block.header.hash = hash(6),
        }
        assert!(matches!(check_fetched_block(&hash(3), &block), Err(Error::InvalidData(_))));
    }
}

#[test]
fn bounded_or_missing_ancestry_and_bad_checkpoint_fail_closed() {
    let mut node = Node::new();
    let client = Client::new((), Finality::Optimistic, 2);
    node.head = hash(6);
    assert_eq!(
        poll(&mut node, &client, Some(&checkpoint(3, 4))).unwrap_err(),
        Failure::Client(Error::AncestryLimit(2))
    );
    assert!(matches!(
        poll(&mut node, &client, Some(&checkpoint(3, 99))),
        Err(Failure::Client(Error::InvalidData(_)))
    ));
    node.headers.remove(&3);
    assert!(matches!(poll(&mut node, &client, Some(&checkpoint(3, 4))), Err(Failure::Rpc(_))));
    let zero = Client::new((), Finality::Final, 0);
    assert_eq!(poll(&mut node, &zero, None).unwrap_err(), Failure::Client(Error::AncestryLimit(0)));
}

//! The library's promises, checked on concrete chains.
use near_indexer_client::{
    check_fetched_block, check_parent, BlockHash, Checkpoint, Client, Error, Finality, Header,
    PayloadSummary, PollSession, Request,
};

fn hash(id: u8) -> BlockHash {
    BlockHash([id; 32])
}

fn header(id: u8, parent: u8, height: u64) -> Header {
    Header { hash: hash(id), prev_hash: hash(parent), height, last_final_block: hash(0) }
}

fn summary(h: Header) -> PayloadSummary {
    PayloadSummary { header: h, chunk_shards: vec![3, 1], tracked_shards: vec![1, 3], shard_ids: vec![1, 3] }
}

/// Answers every request from `chain` (headers by first byte) with `head` as the head.
fn run(
    mut s: PollSession<u8>,
    chain: &[Header],
    head: Header,
) -> Result<near_indexer_client::Update<u8>, Error> {
    let find = |h: BlockHash| *chain.iter().find(|x| x.hash == h).unwrap();
    loop {
        match s.next_request() {
            Request::HeadAt(_) => s.on_header(head)?,
            Request::HeaderOf(h) => s.on_header(find(h))?,
            Request::BlockOf(h) => {
                let hd = find(h);
                s.on_block(&summary(hd), h.0[0])?
            }
            Request::Complete => return Ok(s.finish()),
        }
    }
}

/// 1 <- 2 <- 3 on one branch, 1 <- 4 <- 5 on the other.
fn fork() -> Vec<Header> {
    vec![header(1, 0, 1), header(2, 1, 3), header(3, 2, 4), header(4, 1, 3), header(5, 4, 4)]
}

#[test]
fn rollback_is_newest_first_and_apply_oldest_first() {
    let chain = fork();
    let client = Client::new((), Finality::Optimistic, 10);
    let cp = chain[2].checkpoint();
    let u = run(client.start_poll(Some(&cp)).unwrap(), &chain, chain[4]).unwrap();
    assert_eq!(u.rollback, vec![chain[2], chain[1]]);
    assert_eq!(u.rollback[0].checkpoint(), cp);
    assert_eq!(u.rollback[0].prev_hash, u.rollback[1].hash);
    assert_eq!(u.rollback[1].prev_hash, hash(1));
    assert_eq!(u.blocks, vec![4, 5]);
    assert_eq!(u.next_checkpoint, chain[4].checkpoint());
    assert_eq!(u.head, chain[4]);
}

#[test]
fn bound_counts_rollback_plus_apply() {
    let chain = fork();
    let cp = chain[2].checkpoint();
    let exact = Client::new((), Finality::Optimistic, 4);
    assert!(run(exact.start_poll(Some(&cp)).unwrap(), &chain, chain[4]).is_ok());
    let short = Client::new((), Finality::Optimistic, 3);
    assert_eq!(
        run(short.start_poll(Some(&cp)).unwrap(), &chain, chain[4]).unwrap_err(),
        Error::AncestryLimit(3)
    );
}

#[test]
fn zero_bound_rejects_every_poll() {
    let client = Client::new((), Finality::Optimistic, 0);
    assert_eq!(client.start_poll::<u8>(None).err(), Some(Error::AncestryLimit(0)));
    assert_eq!(client.start_update_to::<u8>(None, hash(1)).err(), Some(Error::AncestryLimit(0)));
}

#[test]
fn first_requests_follow_the_mode() {
    let client = Client::new((), Finality::Final, 5);
    let s = client.start_poll::<u8>(None).unwrap();
    assert!(matches!(s.next_request(), Request::HeadAt(Finality::Final)));
    let t = client.start_update_to::<u8>(None, hash(7)).unwrap();
    assert!(matches!(t.next_request(), Request::HeaderOf(h) if h == hash(7)));
    let mut c = client.start_poll::<u8>(Some(&Checkpoint { hash: hash(2), height: 3 })).unwrap();
    c.on_header(header(3, 2, 4)).unwrap();
    assert!(matches!(c.next_request(), Request::HeaderOf(h) if h == hash(2)));
}

#[test]
fn walk_steps_the_higher_side_first() {
    let chain = fork();
    let client = Client::new((), Finality::Optimistic, 10);
    let mut s = client.start_poll::<u8>(Some(&chain[1].checkpoint())).unwrap();
    s.on_header(chain[4]).unwrap();
    s.on_header(chain[1]).unwrap();
    // base 2 at height 3, head 5 at height 4: the head's side is higher.
    assert!(matches!(s.next_request(), Request::HeaderOf(h) if h == hash(4)));
    s.on_header(chain[3]).unwrap();
    // both at height 3: the checkpoint's side steps.
    assert!(matches!(s.next_request(), Request::HeaderOf(h) if h == hash(1)));
}

#[test]
fn broken_parent_links_are_refused() {
    let child = header(3, 2, 4);
    assert_eq!(check_parent(&child, &header(2, 1, 3)), Ok(()));
    assert_eq!(
        check_parent(&child, &header(9, 1, 3)),
        Err(Error::InvalidData("broken ancestry or no common ancestor"))
    );
    assert_eq!(
        check_parent(&child, &header(2, 1, 4)),
        Err(Error::InvalidData("broken ancestry or no common ancestor"))
    );
}

#[test]
fn each_error_of_a_poll() {
    let chain = fork();
    let client = Client::new((), Finality::Optimistic, 10);
    // The checkpoint's block has another height on the node.
    let mut s = client.start_poll::<u8>(Some(&Checkpoint { hash: hash(2), height: 9 })).unwrap();
    s.on_header(chain[2]).unwrap();
    assert_eq!(
        s.on_header(chain[1]),
        Err(Error::InvalidData("checkpoint does not match node history"))
    );
    // A pinned target answered by another block.
    let mut t = client.start_update_to::<u8>(None, hash(3)).unwrap();
    assert_eq!(
        t.on_header(chain[4]),
        Err(Error::InvalidData("requested hash differs from returned header"))
    );
    // The head and the checkpoint share a hash but not a height.
    let mut u = client.start_poll::<u8>(Some(&Checkpoint { hash: hash(3), height: 4 })).unwrap();
    u.on_header(header(3, 2, 5)).unwrap();
    assert_eq!(
        u.on_header(header(3, 2, 4)),
        Err(Error::InvalidData("same hash returned inconsistent headers"))
    );
    // A payload whose header disagrees with the planned one.
    let mut v = client.start_poll::<u8>(None).unwrap();
    v.on_header(chain[2]).unwrap();
    let mut wrong = summary(chain[2]);
    wrong.header.last_final_block = hash(1);
    assert_eq!(
        v.on_block(&wrong, 3),
        Err(Error::InvalidData("indexer payload differs from ancestry header"))
    );
    let mut short = summary(chain[2]);
    short.tracked_shards = vec![1];
    assert_eq!(
        v.on_block(&short, 3),
        Err(Error::InvalidData("node must supply every block shard exactly once"))
    );
    assert_eq!(
        v.on_block(&summary(chain[1]), 3),
        Err(Error::InvalidData("requested hash differs from returned block"))
    );
}

#[test]
fn final_poll_refuses_rollback_but_optimistic_target_allows_it() {
    let chain = fork();
    let cp = chain[2].checkpoint();
    let client = Client::new((), Finality::Final, 10);
    assert_eq!(
        run(client.start_poll(Some(&cp)).unwrap(), &chain, chain[4]).unwrap_err(),
        Error::FinalityViolation
    );
    let u = run(client.start_update_to(Some(&cp), hash(5)).unwrap(), &chain, chain[4]).unwrap();
    assert_eq!(u.finality, Finality::Optimistic);
    assert_eq!(u.rollback.len(), 2);
}

#[test]
fn checkpoint_and_hash_values() {
    let h = header(3, 2, 4);
    assert_eq!(h.checkpoint(), Checkpoint { hash: hash(3), height: 4 });
    let mut bytes = [5u8; 32];
    bytes[31] = 6;
    assert_ne!(BlockHash(bytes), hash(5));
    assert_eq!(BlockHash([5u8; 32]), hash(5));
}

#[test]
fn coverage_needs_each_shard_exactly_once() {
    let h = header(1, 0, 1);
    let ok = summary(h);
    assert_eq!(check_fetched_block(&hash(1), &ok), Ok(()));
    let mut dup = summary(h);
    dup.chunk_shards = vec![1, 3, 3];
    assert!(check_fetched_block(&hash(1), &dup).is_err());
    let mut extra = summary(h);
    extra.shard_ids = vec![1, 3, 4];
    assert!(check_fetched_block(&hash(1), &extra).is_err());
    let empty = PayloadSummary { header: h, chunk_shards: vec![], tracked_shards: vec![], shard_ids: vec![] };
    assert_eq!(check_fetched_block(&hash(1), &empty), Ok(()));
}

#[test]
fn catching_up_in_two_steps_applies_what_one_step_does() {
    let chain = vec![header(1, 0, 1), header(2, 1, 3), header(3, 2, 4), header(6, 3, 9)];
    let client = Client::new((), Finality::Final, 3);
    let start = chain[0].checkpoint();
    let first = run(client.start_poll(Some(&start)).unwrap(), &chain, chain[1]).unwrap();
    let second = run(client.start_poll(Some(&first.next_checkpoint)).unwrap(), &chain, chain[3]).unwrap();
    let both = run(client.start_poll(Some(&start)).unwrap(), &chain, chain[3]).unwrap();
    let mut joined = first.blocks.clone();
    joined.extend(second.blocks.iter().copied());
    assert_eq!(first.blocks, vec![2]);
    assert_eq!(second.blocks, vec![3, 6]);
    assert_eq!(both.blocks, joined);
    assert!(both.rollback.is_empty());
}

#[test]
fn walk_stops_at_the_latest_common_ancestor() {
    // 1 <- 2 <- 3 <- 4 and 3 <- 5: the branches meet at 3, not at 2 or 1.
    let chain = vec![header(1, 0, 1), header(2, 1, 2), header(3, 2, 3), header(4, 3, 4), header(5, 3, 4)];
    let client = Client::new((), Finality::Optimistic, 10);
    let u = run(client.start_poll(Some(&chain[3].checkpoint())).unwrap(), &chain, chain[4]).unwrap();
    assert_eq!(u.rollback, vec![chain[3]]);
    assert_eq!(u.blocks, vec![5]);
    assert!(u.rollback.iter().all(|r| r.hash != hash(3)));
}

#[test]
fn one_payload_per_applied_block() {
    let chain = fork();
    let client = Client::new((), Finality::Optimistic, 10);
    let u = run(client.start_poll(Some(&chain[0].checkpoint())).unwrap(), &chain, chain[4]).unwrap();
    assert!(u.rollback.is_empty());
    assert_eq!(u.blocks, vec![4, 5]);
}

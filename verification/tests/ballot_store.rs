use vote_api::data::Vote;
use vote_api::store::BallotStore;
use vote_api::store::StoreError;

fn ballot(addr: &str, candidate_slug: &str, category_slug: &str) -> Vote {
    Vote {
        time_ms: 1,
        addr: addr.to_string(),
        msg: "00".to_string(),
        signature: "11".to_string(),
        random: String::new(),
        sig_format: "plain".to_string(),
        candidate_slug: candidate_slug.to_string(),
        category_slug: category_slug.to_string(),
        extra: None,
    }
}

fn listed(store: &BallotStore, addr: &str) -> Vec<(String, String)> {
    let mut keys: Vec<(String, String)> = store
        .get_addr_votes(addr)
        .into_iter()
        .map(|v| (v.category_slug, v.candidate_slug))
        .collect();
    keys.sort();
    keys
}

#[test]
fn empty_store_has_no_ballot() {
    let store = BallotStore::new();
    assert_eq!(store.len(), 0);
    assert!(!store.vote_exist(&ballot("A1", "alice", "2024")));
    assert_eq!(store.get_addr_votes("A1").len(), 0);
}

#[test]
fn persisted_ballot_exists() {
    let mut store = BallotStore::new();
    assert_eq!(store.persist_vote(ballot("A1", "alice", "2024")), Ok(()));
    assert!(store.vote_exist(&ballot("A1", "alice", "2024")));
    assert!(store.vote_exist(&ballot("A1", "bob", "2024")));
    assert!(!store.vote_exist(&ballot("A1", "alice", "2025")));
    assert!(!store.vote_exist(&ballot("A2", "alice", "2024")));
}

#[test]
fn second_write_under_one_key_is_refused() {
    let mut store = BallotStore::new();
    assert_eq!(store.persist_vote(ballot("A1", "alice", "2024")), Ok(()));
    assert_eq!(store.persist_vote(ballot("A1", "bob", "2024")), Err(StoreError::KeyTaken));
    assert_eq!(store.len(), 1);
    assert_eq!(listed(&store, "A1"), vec![("2024".to_string(), "alice".to_string())]);
    assert_eq!(store.persist_vote(ballot("A1", "bob", "2025")), Ok(()));
    assert_eq!(store.len(), 2);
}

#[test]
fn listing_holds_exactly_the_ballots_of_the_address() {
    let mut store = BallotStore::new();
    assert_eq!(store.persist_vote(ballot("A1", "alice", "2024")), Ok(()));
    assert_eq!(store.persist_vote(ballot("A10", "bob", "2024")), Ok(()));
    assert_eq!(store.persist_vote(ballot("B", "bob", "2024")), Ok(()));
    assert_eq!(store.persist_vote(ballot("A1", "bob", "2025")), Ok(()));
    assert_eq!(
        listed(&store, "A1"),
        vec![("2024".to_string(), "alice".to_string()), ("2025".to_string(), "bob".to_string())]
    );
    assert_eq!(listed(&store, "A10"), vec![("2024".to_string(), "bob".to_string())]);
    assert_eq!(listed(&store, "A"), Vec::<(String, String)>::new());
}

#[test]
fn listing_does_not_depend_on_the_order_of_writes() {
    let mut forward = BallotStore::new();
    let mut backward = BallotStore::new();
    let ballots = vec![
        ballot("A1", "alice", "2024"),
        ballot("B", "bob", "2024"),
        ballot("A1", "bob", "2025"),
        ballot("A1", "carol", "2026"),
    ];
    for v in ballots.iter() {
        assert_eq!(forward.persist_vote(v.clone()), Ok(()));
    }
    for v in ballots.iter().rev() {
        assert_eq!(backward.persist_vote(v.clone()), Ok(()));
    }
    assert_eq!(listed(&forward, "A1"), listed(&backward, "A1"));
    assert_eq!(listed(&forward, "A1").len(), 3);
    assert_eq!(listed(&forward, "B"), listed(&backward, "B"));
}

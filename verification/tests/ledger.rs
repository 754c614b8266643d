use hello_near::{HelloNear, Messenger, ValidationError};

fn record(owner: &str, mess: &str, donate: u128, time: u64) -> Messenger {
    Messenger { owner_id: owner.to_string(), mess: mess.to_string(), donate, time }
}

fn update(
    ledger: &mut HelloNear,
    owner: &str,
    mess: &str,
    deposit: u128,
    now: u64,
) -> Result<Messenger, ValidationError> {
    ledger.add_mess_and_donate(owner.to_string(), mess.to_string(), deposit, now)
}

#[test]
fn new_ledger_is_empty() {
    let ledger = HelloNear::new();
    assert_eq!(ledger.len(), 0);
    assert_eq!(ledger.total_mess(), 0);
    assert_eq!(ledger.get_leaderboard_donate(), Vec::<Messenger>::new());
    assert_eq!(ledger.get(&"alice".to_string()), None);
}

#[test]
fn default_ledger_is_empty() {
    let ledger = HelloNear::default();
    assert_eq!(ledger.len(), 0);
    assert_eq!(ledger.total_mess(), 0);
    assert!(ledger.get_leaderboard_donate().is_empty());
}

#[test]
fn first_update_creates_one_record() {
    let mut ledger = HelloNear::new();
    let stored = update(&mut ledger, "alice", "hi", 5, 100);
    assert_eq!(stored, Ok(record("alice", "hi", 5, 100)));
    assert_eq!(ledger.len(), 1);
    assert_eq!(ledger.get_leaderboard_donate(), vec![record("alice", "hi", 5, 100)]);
    assert_eq!(ledger.get(&"alice".to_string()), Some(&record("alice", "hi", 5, 100)));
}

#[test]
fn later_update_adds_amount_and_replaces_message() {
    let mut ledger = HelloNear::new();
    update(&mut ledger, "alice", "first", 7, 1).unwrap();
    let stored = update(&mut ledger, "alice", "second", 11, 2);
    assert_eq!(stored, Ok(record("alice", "second", 18, 2)));
    assert_eq!(ledger.get_leaderboard_donate(), vec![record("alice", "second", 18, 2)]);
    assert_eq!(ledger.len(), 1);
    assert_eq!(ledger.total_mess(), 2);
}

#[test]
fn empty_message_is_rejected_and_changes_nothing() {
    let mut ledger = HelloNear::new();
    update(&mut ledger, "alice", "hi", 5, 1).unwrap();
    let before = ledger.get_leaderboard_donate();
    assert_eq!(update(&mut ledger, "alice", "", 3, 2), Err(ValidationError::EmptyMessage));
    assert_eq!(update(&mut ledger, "dave", "", 0, 3), Err(ValidationError::EmptyMessage));
    assert_eq!(ledger.get_leaderboard_donate(), before);
    assert_eq!(ledger.total_mess(), 1);
    assert_eq!(ledger.len(), 1);
    assert_eq!(ledger.get(&"dave".to_string()), None);
}

#[test]
fn listing_has_one_record_per_owner_and_never_shrinks() {
    let mut ledger = HelloNear::new();
    let calls = [
        ("a1", "x", 1u128),
        ("b2", "y", 2),
        ("a1", "z", 3),
        ("c3", "", 4),
        ("c3", "w", 5),
        ("b2", "v", 6),
        ("a1", "", 7),
    ];
    let expected_len = [1usize, 2, 2, 2, 3, 3, 3];
    let mut last_len = 0;
    for (k, (owner, mess, deposit)) in calls.iter().enumerate() {
        let _ = update(&mut ledger, owner, mess, *deposit, k as u64);
        let listing = ledger.get_leaderboard_donate();
        assert!(listing.len() >= last_len);
        assert_eq!(listing.len(), expected_len[k]);
        assert_eq!(ledger.len(), expected_len[k]);
        last_len = listing.len();
    }
    assert_eq!(ledger.total_mess(), 5);
    assert_eq!(
        ledger.get_leaderboard_donate(),
        vec![record("a1", "z", 4, 2), record("b2", "v", 8, 5), record("c3", "w", 5, 4)]
    );
}

#[test]
fn owners_stay_in_order_of_first_update() {
    let mut ledger = HelloNear::new();
    update(&mut ledger, "zed", "one", 1, 1).unwrap();
    update(&mut ledger, "amy", "two", 100, 2).unwrap();
    for round in 0..5u64 {
        update(&mut ledger, "amy", "more", 1000, 10 + round).unwrap();
        update(&mut ledger, "zed", "again", 0, 20 + round).unwrap();
        let owners: Vec<String> =
            ledger.get_leaderboard_donate().into_iter().map(|r| r.owner_id).collect();
        assert_eq!(owners, vec!["zed".to_string(), "amy".to_string()]);
    }
    assert_eq!(
        ledger.get_leaderboard_donate(),
        vec![record("zed", "again", 1, 24), record("amy", "more", 5100, 14)]
    );
}

#[test]
fn listing_is_not_ranked_by_amount() {
    let mut ledger = HelloNear::new();
    update(&mut ledger, "small", "s", 1, 1).unwrap();
    update(&mut ledger, "large", "l", 1_000_000, 2).unwrap();
    let listing = ledger.get_leaderboard_donate();
    assert_eq!(listing[0].owner_id, "small");
    assert_eq!(listing[1].owner_id, "large");
}

#[test]
fn zero_amount_update_keeps_accumulated() {
    let mut ledger = HelloNear::new();
    update(&mut ledger, "alice", "hi", 42, 1).unwrap();
    let stored = update(&mut ledger, "alice", "changed", 0, 9);
    assert_eq!(stored, Ok(record("alice", "changed", 42, 9)));
    assert_eq!(ledger.get(&"alice".to_string()), Some(&record("alice", "changed", 42, 9)));
}

#[test]
fn zero_amount_first_update_is_accepted() {
    let mut ledger = HelloNear::new();
    assert_eq!(update(&mut ledger, "alice", "hi", 0, 3), Ok(record("alice", "hi", 0, 3)));
    assert_eq!(ledger.len(), 1);
    assert_eq!(ledger.total_mess(), 1);
}

#[test]
fn scenario_alice_bob_alice() {
    let mut ledger = HelloNear::new();
    update(&mut ledger, "alice", "hi", 5, 11).unwrap();
    assert_eq!(ledger.len(), 1);
    assert_eq!(ledger.get_leaderboard_donate(), vec![record("alice", "hi", 5, 11)]);
    update(&mut ledger, "bob", "yo", 2, 22).unwrap();
    assert_eq!(
        ledger.get_leaderboard_donate(),
        vec![record("alice", "hi", 5, 11), record("bob", "yo", 2, 22)]
    );
    update(&mut ledger, "alice", "hey", 3, 33).unwrap();
    assert_eq!(
        ledger.get_leaderboard_donate(),
        vec![record("alice", "hey", 8, 33), record("bob", "yo", 2, 22)]
    );
}

#[test]
fn scenario_carol_empty_message() {
    let mut ledger = HelloNear::new();
    assert_eq!(update(&mut ledger, "carol", "", 10, 5), Err(ValidationError::EmptyMessage));
    assert_eq!(ledger.get_leaderboard_donate(), Vec::<Messenger>::new());
    assert_eq!(ledger.total_mess(), 0);
}

#[test]
fn listing_is_a_snapshot() {
    let mut ledger = HelloNear::new();
    update(&mut ledger, "alice", "hi", 5, 1).unwrap();
    let snapshot = ledger.get_leaderboard_donate();
    update(&mut ledger, "alice", "later", 5, 2).unwrap();
    update(&mut ledger, "bob", "new", 1, 3).unwrap();
    assert_eq!(snapshot, vec![record("alice", "hi", 5, 1)]);
    assert_eq!(ledger.get_leaderboard_donate().len(), 2);
}

#[test]
fn counter_counts_accepted_updates_not_owners() {
    let mut ledger = HelloNear::new();
    for k in 0..4u64 {
        update(&mut ledger, "alice", "m", 1, k).unwrap();
    }
    update(&mut ledger, "bob", "", 1, 9).unwrap_err();
    assert_eq!(ledger.total_mess(), 4);
    assert_eq!(ledger.len(), 1);
}

#[test]
fn two_ledgers_are_independent() {
    let mut left = HelloNear::new();
    let mut right = HelloNear::new();
    update(&mut left, "alice", "l", 1, 1).unwrap();
    update(&mut right, "alice", "r", 2, 2).unwrap();
    assert_eq!(left.get_leaderboard_donate(), vec![record("alice", "l", 1, 1)]);
    assert_eq!(right.get_leaderboard_donate(), vec![record("alice", "r", 2, 2)]);
}

#[test]
fn owners_differing_in_case_are_distinct() {
    let mut ledger = HelloNear::new();
    update(&mut ledger, "alice", "a", 1, 1).unwrap();
    update(&mut ledger, "Alice", "b", 2, 2).unwrap();
    assert_eq!(ledger.len(), 2);
}

#[test]
fn largest_amount_is_kept_exactly() {
    let mut ledger = HelloNear::new();
    update(&mut ledger, "alice", "a", u128::MAX - 1, 1).unwrap();
    let stored = update(&mut ledger, "alice", "b", 1, u64::MAX);
    assert_eq!(stored, Ok(record("alice", "b", u128::MAX, u64::MAX)));
}

#[test]
fn updated_without_previous_record() {
    let made = Messenger::updated(None, "alice".to_string(), "hi".to_string(), 5, 7);
    assert_eq!(made, Ok(record("alice", "hi", 5, 7)));
}

#[test]
fn updated_with_previous_record() {
    let previous = record("alice", "old", 10, 1);
    let made = Messenger::updated(Some(&previous), "alice".to_string(), "new".to_string(), 5, 7);
    assert_eq!(made, Ok(record("alice", "new", 15, 7)));
}

#[test]
fn updated_rejects_empty_message() {
    let previous = record("alice", "old", 10, 1);
    assert_eq!(
        Messenger::updated(Some(&previous), "alice".to_string(), String::new(), 5, 7),
        Err(ValidationError::EmptyMessage)
    );
    assert_eq!(
        Messenger::updated(None, "alice".to_string(), String::new(), 5, 7),
        Err(ValidationError::EmptyMessage)
    );
}

#[test]
fn one_space_is_a_message() {
    assert_eq!(
        Messenger::updated(None, "alice".to_string(), " ".to_string(), 0, 0),
        Ok(record("alice", " ", 0, 0))
    );
}

#[test]
fn error_text() {
    assert_eq!(ValidationError::EmptyMessage.message(), "message must not be empty");
}

#[test]
fn clone_keeps_all_fields() {
    let first = record("alice", "hi", 5, 7);
    assert_eq!(first.clone(), first);
}

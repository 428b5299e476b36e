use chc::chain::{validate_chain, ChainHead, Item};
use chc::error::ChcError;
use chc::local::{LocalChc, SharedChc, Transaction};

fn hash_of(x: u32) -> Vec<u8> {
    x.to_be_bytes().to_vec()
}

/// An item whose hash stands for `x`, whose parent is `x - 1`, at position `x`.
fn item(x: u32) -> Item {
    Item {
        hash: hash_of(x),
        prev_hash: if x > 0 { Some(hash_of(x - 1)) } else { None },
        position: x,
    }
}

fn items(xs: &[u32]) -> Vec<Item> {
    xs.iter().map(|x| item(*x)).collect()
}

fn head_hash(chc: &LocalChc) -> Option<Vec<u8>> {
    chc.head().map(|h| h.hash)
}

#[test]
fn test_add_actions() {
    let mut chc = LocalChc::new();
    assert_eq!(head_hash(&chc), None);

    let t0 = items(&[0, 1, 2]);
    let t1 = items(&[3, 4, 5]);
    let t2 = items(&[6, 7, 8]);
    let t99 = items(&[99]);

    chc.add_actions(t0.clone()).unwrap();
    assert_eq!(head_hash(&chc), Some(hash_of(2)));
    chc.add_actions(t1.clone()).unwrap();
    assert_eq!(head_hash(&chc), Some(hash_of(5)));

    // last_hash doesn't match
    assert!(chc.add_actions(t0.clone()).is_err());
    assert!(chc.add_actions(t1.clone()).is_err());
    assert!(chc.add_actions(t99).is_err());
    assert_eq!(head_hash(&chc), Some(hash_of(5)));

    chc.add_actions(t2.clone()).unwrap();
    assert_eq!(head_hash(&chc), Some(hash_of(8)));

    assert_eq!(
        chc.get_actions_since_hash(&hash_of(0)),
        items(&[0, 1, 2, 3, 4, 5, 6, 7, 8])
    );
    assert_eq!(
        chc.get_actions_since_hash(&hash_of(3)),
        items(&[3, 4, 5, 6, 7, 8])
    );
    assert_eq!(chc.get_actions_since_hash(&hash_of(8)), items(&[8]));
    assert_eq!(chc.get_actions_since_hash(&hash_of(9)), items(&[]));
}

#[test]
fn nine_items_in_three_transactions() {
    let mut chc = LocalChc::new();
    let t0 = items(&[0, 1, 2]);
    let t1 = items(&[3, 4, 5]);
    let t2 = items(&[6, 7, 8]);
    assert_eq!(chc.add_transaction(0, t0.clone()), Ok(()));
    assert_eq!(chc.add_transaction(1, t1.clone()), Ok(()));
    assert_eq!(chc.add_transaction(2, t2.clone()), Ok(()));
    assert_eq!(chc.next_transaction_id(), 3);
    assert_eq!(
        chc.get_transactions_since_id(1),
        vec![
            Transaction { id: 1, items: t1.clone() },
            Transaction { id: 2, items: t2.clone() },
        ]
    );
    assert_eq!(chc.add_transaction(0, t0.clone()), Err(ChcError::WrongTransactionId));
    assert_eq!(chc.add_transaction(1, t1.clone()), Err(ChcError::WrongTransactionId));
    assert_eq!(chc.add_transaction(3, items(&[99])), Err(ChcError::HashMismatch));
    assert_eq!(chc.next_transaction_id(), 3);
    assert_eq!(chc.get_transactions_since_id(0).len(), 3);
}

#[test]
fn appended_in_order_all_listed() {
    let mut chc = LocalChc::new();
    let batches = vec![items(&[0]), items(&[1, 2]), items(&[3]), items(&[4, 5, 6])];
    for (i, b) in batches.iter().enumerate() {
        assert_eq!(chc.add_transaction(i as u64, b.clone()), Ok(()));
    }
    assert_eq!(chc.next_transaction_id(), 4);
    let all = chc.get_transactions_since_id(0);
    let expected: Vec<Transaction> = batches
        .iter()
        .enumerate()
        .map(|(i, b)| Transaction { id: i as u64, items: b.clone() })
        .collect();
    assert_eq!(all, expected);
}

#[test]
fn wrong_id_too_small_or_too_large() {
    let mut chc = LocalChc::new();
    assert_eq!(chc.add_transaction(1, items(&[0])), Err(ChcError::WrongTransactionId));
    assert_eq!(chc.add_transaction(u64::MAX, items(&[0])), Err(ChcError::WrongTransactionId));
    assert_eq!(chc.add_transaction(0, items(&[0])), Ok(()));
    assert_eq!(chc.add_transaction(0, items(&[1])), Err(ChcError::WrongTransactionId));
    assert_eq!(chc.add_transaction(2, items(&[1])), Err(ChcError::WrongTransactionId));
    assert_eq!(chc.next_transaction_id(), 1);
}

#[test]
fn hash_mismatch_leaves_log() {
    let mut chc = LocalChc::new();
    chc.add_transaction(0, items(&[0, 1])).unwrap();
    let mut bad = item(2);
    bad.prev_hash = Some(hash_of(0));
    assert_eq!(chc.add_transaction(1, vec![bad]), Err(ChcError::HashMismatch));
    let mut orphan = item(2);
    orphan.prev_hash = None;
    assert_eq!(chc.add_transaction(1, vec![orphan]), Err(ChcError::HashMismatch));
    assert_eq!(chc.next_transaction_id(), 1);
    assert_eq!(chc.get_transactions_since_id(0), vec![Transaction { id: 0, items: items(&[0, 1]) }]);
}

#[test]
fn empty_batch_refused() {
    let mut chc = LocalChc::new();
    assert_eq!(chc.add_transaction(0, vec![]), Err(ChcError::InvalidChain(0)));
    assert_eq!(chc.add_transaction_strict(0, vec![]), Err(ChcError::InvalidChain(0)));
    assert_eq!(chc.add_actions(vec![]), Err(ChcError::InvalidChain(0)));
    assert_eq!(chc.next_transaction_id(), 0);
}

#[test]
fn boundary_only_check_is_lenient_inside() {
    let mut chc = LocalChc::new();
    // Items inside a batch are not checked against each other.
    let loose = vec![item(0), item(5)];
    assert_eq!(chc.add_transaction(0, loose), Ok(()));
    // The strict form refuses the same batch at the offending index.
    let mut strict = LocalChc::new();
    assert_eq!(strict.add_transaction_strict(0, vec![item(0), item(5)]), Err(ChcError::InvalidChain(1)));
    assert_eq!(strict.next_transaction_id(), 0);
    assert_eq!(strict.add_transaction_strict(0, items(&[0, 1])), Ok(()));
    assert_eq!(strict.add_transaction_strict(0, items(&[2])), Err(ChcError::WrongTransactionId));
    assert_eq!(strict.add_transaction_strict(1, items(&[3])), Err(ChcError::InvalidChain(0)));
    assert_eq!(strict.add_transaction_strict(1, items(&[2, 3])), Ok(()));
    assert_eq!(strict.head(), Some(ChainHead { hash: hash_of(3), position: 3 }));
}

#[test]
fn since_past_end_is_empty() {
    let mut chc = LocalChc::new();
    assert!(chc.get_transactions_since_id(0).is_empty());
    chc.add_transaction(0, items(&[0])).unwrap();
    assert!(chc.get_transactions_since_id(1).is_empty());
    assert!(chc.get_transactions_since_id(7).is_empty());
    assert!(chc.get_transactions_since_id(u64::MAX).is_empty());
}

#[test]
fn validate_chain_cases() {
    assert_eq!(validate_chain(&items(&[0, 1, 2]), &None), Ok(()));
    assert_eq!(validate_chain(&[], &None), Ok(()));
    assert_eq!(validate_chain(&items(&[1, 2]), &None), Err(ChcError::InvalidChain(0)));
    let mut no_parent_at_one = item(1);
    no_parent_at_one.position = 0;
    no_parent_at_one.prev_hash = None;
    assert_eq!(validate_chain(&[no_parent_at_one], &None), Ok(()));
    assert_eq!(validate_chain(&items(&[0, 1, 3, 4]), &None), Err(ChcError::InvalidChain(2)));
    let head = Some(ChainHead { hash: hash_of(2), position: 2 });
    assert_eq!(validate_chain(&items(&[3, 4]), &head), Ok(()));
    assert_eq!(validate_chain(&items(&[4, 5]), &head), Err(ChcError::InvalidChain(0)));
    let mut wrong_position = item(3);
    wrong_position.position = 7;
    assert_eq!(validate_chain(&[wrong_position], &head), Err(ChcError::InvalidChain(0)));
    let top = Some(ChainHead { hash: hash_of(2), position: u32::MAX });
    assert_eq!(validate_chain(&items(&[3]), &top), Err(ChcError::InvalidChain(0)));
}

#[test]
fn shared_coordinator_operations() {
    let chc = SharedChc::new();
    assert_eq!(chc.next_transaction_id(), 0);
    assert_eq!(chc.head(), None);
    assert_eq!(chc.add_transaction(0, items(&[0, 1])), Ok(()));
    assert_eq!(chc.add_transaction(0, items(&[2])), Err(ChcError::WrongTransactionId));
    assert_eq!(chc.add_transaction_strict(1, items(&[2, 3])), Ok(()));
    assert_eq!(chc.add_transaction(2, items(&[9])), Err(ChcError::HashMismatch));
    assert_eq!(chc.next_transaction_id(), 2);
    assert_eq!(chc.head(), Some(ChainHead { hash: hash_of(3), position: 3 }));
    assert_eq!(
        chc.get_transactions_since_id(1),
        vec![Transaction { id: 1, items: items(&[2, 3]) }]
    );
}

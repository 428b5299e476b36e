use chc::chain::{ChainHead, Item};
use chc::error::ChcError;
use chc::local::Transaction;
use chc::remote::{
    add_transaction_from_reply, add_transaction_request, check_strict, head_from_reply, head_request,
    next_transaction_id_from_reply, next_transaction_id_request, transactions_from_reply,
    transactions_since_request, ChcRemote, Endpoint, Method, Reply,
};
use chc::wire::{encode_error, encode_head, encode_transactions};

#[test]
fn endpoints_and_methods() {
    assert_eq!(Endpoint::Head.path(), "/head");
    assert_eq!(Endpoint::AddTransaction.path(), "/add_transaction");
    assert_eq!(Endpoint::TransactionsSince.path(), "/transactions_since");
    assert_eq!(Endpoint::Head.method(), Method::Get);
    assert_eq!(Endpoint::AddTransaction.method(), Method::Post);
    assert_eq!(Endpoint::TransactionsSince.method(), Method::Post);
}

#[test]
fn requests_carry_their_bodies() {
    let r = head_request();
    assert_eq!(r.endpoint, Endpoint::Head);
    assert!(r.body.is_empty());
    let r = transactions_since_request(4);
    assert_eq!(r.endpoint, Endpoint::TransactionsSince);
    assert_eq!(r.body, vec![4, 0, 0, 0, 0, 0, 0, 0]);
    let r = next_transaction_id_request();
    assert_eq!(r.body, vec![0; 8]);
    let r = add_transaction_request(1, &[Item { hash: vec![2], prev_hash: Some(vec![1]), position: 1 }]);
    assert_eq!(r.endpoint, Endpoint::AddTransaction);
    assert_eq!(r.body.len(), 8 + 8 + 9 + 1 + 9 + 4);
}

#[test]
fn endpoint_urls() {
    let remote = ChcRemote::new("http://localhost:40000/chc/ns/abc".to_string());
    let u = remote.endpoint_url(Endpoint::Head).unwrap();
    assert_eq!(u.as_str(), "http://localhost:40000/chc/ns/abc/head");
    let u = remote.endpoint_url(Endpoint::TransactionsSince).unwrap();
    assert_eq!(u.path(), "/chc/ns/abc/transactions_since");
    let bad = ChcRemote::new("not a url".to_string());
    assert_eq!(bad.endpoint_url(Endpoint::Head).err(), Some(ChcError::ServiceUnreachable(None)));
}

#[test]
fn reply_errors_map_to_taxonomy() {
    assert_eq!(add_transaction_from_reply(Reply::NoAnswer), Err(ChcError::ServiceUnreachable(None)));
    assert_eq!(
        add_transaction_from_reply(Reply::Answer(500, b"oops".to_vec())),
        Err(ChcError::ServiceUnreachable(Some(500)))
    );
    let conflict = encode_error(ChcError::WrongTransactionId).unwrap();
    assert_eq!(
        add_transaction_from_reply(Reply::Answer(409, conflict)),
        Err(ChcError::WrongTransactionId)
    );
    let mismatch = encode_error(ChcError::HashMismatch).unwrap();
    assert_eq!(add_transaction_from_reply(Reply::Answer(400, mismatch)), Err(ChcError::HashMismatch));
    let broken = encode_error(ChcError::InvalidChain(3)).unwrap();
    assert_eq!(add_transaction_from_reply(Reply::Answer(422, broken)), Err(ChcError::InvalidChain(3)));
    assert_eq!(add_transaction_from_reply(Reply::Answer(200, vec![1, 2, 3])), Ok(()));
    assert_eq!(add_transaction_from_reply(Reply::Answer(204, vec![])), Ok(()));
}

#[test]
fn head_reply() {
    let h = Some(ChainHead { hash: vec![5, 5], position: 9 });
    assert_eq!(head_from_reply(Reply::Answer(200, encode_head(&h))), Ok(h));
    assert_eq!(head_from_reply(Reply::Answer(200, vec![0])), Ok(None));
    assert_eq!(head_from_reply(Reply::Answer(200, vec![7])), Err(ChcError::DeserializationError));
    assert_eq!(head_from_reply(Reply::Answer(503, vec![])), Err(ChcError::ServiceUnreachable(Some(503))));
    assert_eq!(head_from_reply(Reply::NoAnswer), Err(ChcError::ServiceUnreachable(None)));
}

#[test]
fn transactions_reply() {
    let ts = vec![
        Transaction { id: 0, items: vec![Item { hash: vec![0], prev_hash: None, position: 0 }] },
        Transaction { id: 1, items: vec![Item { hash: vec![1], prev_hash: Some(vec![0]), position: 1 }] },
    ];
    let body = encode_transactions(&ts);
    assert_eq!(transactions_from_reply(Reply::Answer(200, body.clone())), Ok(ts));
    assert_eq!(next_transaction_id_from_reply(Reply::Answer(200, body)), Ok(2));
    assert_eq!(
        transactions_from_reply(Reply::Answer(200, vec![1, 0, 0])),
        Err(ChcError::DeserializationError)
    );
    assert_eq!(next_transaction_id_from_reply(Reply::NoAnswer), Err(ChcError::ServiceUnreachable(None)));
}

#[test]
fn strict_precheck() {
    let a = Item { hash: vec![1], prev_hash: None, position: 0 };
    let b = Item { hash: vec![2], prev_hash: Some(vec![1]), position: 1 };
    let c = Item { hash: vec![3], prev_hash: Some(vec![9]), position: 2 };
    assert_eq!(check_strict(&[], &None), Err(ChcError::InvalidChain(0)));
    assert_eq!(check_strict(&[a.clone(), b.clone()], &None), Ok(()));
    assert_eq!(check_strict(&[a.clone(), b.clone(), c], &None), Err(ChcError::InvalidChain(2)));
    let head = Some(ChainHead { hash: vec![1], position: 0 });
    assert_eq!(check_strict(&[b], &head), Ok(()));
    assert_eq!(check_strict(&[a], &head), Err(ChcError::InvalidChain(0)));
}

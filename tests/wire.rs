use chc::chain::{ChainHead, Item};
use chc::error::ChcError;
use chc::local::Transaction;
use chc::wire::{
    decode_error, decode_head, decode_item, decode_transaction, decode_transactions,
    encode_add_request, encode_error, encode_head, encode_item, encode_transaction,
    encode_transactions, encode_txn_id,
};

fn sample_item(x: u8) -> Item {
    Item {
        hash: vec![x, x.wrapping_add(1), 0xff],
        prev_hash: if x > 0 { Some(vec![x - 1]) } else { None },
        position: x as u32 * 1000,
    }
}

#[test]
fn item_bytes_exact() {
    let it = Item { hash: vec![0xaa, 0xbb], prev_hash: None, position: 5 };
    assert_eq!(
        encode_item(&it),
        vec![2, 0, 0, 0, 0, 0, 0, 0, 0xaa, 0xbb, 0, 5, 0, 0, 0]
    );
    let it = Item { hash: vec![0xaa, 0xbb], prev_hash: Some(vec![1]), position: 0x01020304 };
    assert_eq!(
        encode_item(&it),
        vec![2, 0, 0, 0, 0, 0, 0, 0, 0xaa, 0xbb, 1, 1, 0, 0, 0, 0, 0, 0, 0, 1, 4, 3, 2, 1]
    );
}

#[test]
fn item_round_trip() {
    for x in [0u8, 1, 7, 200] {
        let it = sample_item(x);
        assert_eq!(decode_item(&encode_item(&it)), Ok(it));
    }
    let empty_hash = Item { hash: vec![], prev_hash: Some(vec![]), position: u32::MAX };
    assert_eq!(decode_item(&encode_item(&empty_hash)), Ok(empty_hash));
}

#[test]
fn item_decode_refuses_malformed() {
    let bytes = encode_item(&sample_item(3));
    assert_eq!(decode_item(&bytes[..bytes.len() - 1]), Err(ChcError::DeserializationError));
    let mut longer = bytes.clone();
    longer.push(0);
    assert_eq!(decode_item(&longer), Err(ChcError::DeserializationError));
    let mut bad_tag = encode_item(&Item { hash: vec![], prev_hash: None, position: 0 });
    bad_tag[8] = 2;
    assert_eq!(decode_item(&bad_tag), Err(ChcError::DeserializationError));
    assert_eq!(decode_item(&[]), Err(ChcError::DeserializationError));
    let huge_len = vec![0xff; 12];
    assert_eq!(decode_item(&huge_len), Err(ChcError::DeserializationError));
}

#[test]
fn transaction_round_trip() {
    let t = Transaction { id: 42, items: vec![sample_item(1), sample_item(2)] };
    assert_eq!(decode_transaction(&encode_transaction(&t)), Ok(t));
    let empty = Transaction { id: 0, items: vec![] };
    let bytes = encode_transaction(&empty);
    assert_eq!(bytes, vec![0u8; 16]);
    assert_eq!(decode_transaction(&bytes), Ok(empty));
}

#[test]
fn transaction_list_round_trip() {
    let ts = vec![
        Transaction { id: 0, items: vec![sample_item(0)] },
        Transaction { id: 1, items: vec![sample_item(1), sample_item(2), sample_item(3)] },
    ];
    assert_eq!(decode_transactions(&encode_transactions(&ts)), Ok(ts));
    assert_eq!(decode_transactions(&encode_transactions(&[])), Ok(vec![]));
    let mut short = encode_transactions(&[Transaction { id: 5, items: vec![] }]);
    short[0] = 2;
    assert_eq!(decode_transactions(&short), Err(ChcError::DeserializationError));
}

#[test]
fn head_round_trip() {
    assert_eq!(encode_head(&None), vec![0]);
    assert_eq!(decode_head(&[0]), Ok(None));
    let h = Some(ChainHead { hash: vec![9, 8, 7], position: 12 });
    assert_eq!(
        encode_head(&h),
        vec![1, 3, 0, 0, 0, 0, 0, 0, 0, 9, 8, 7, 12, 0, 0, 0]
    );
    assert_eq!(decode_head(&encode_head(&h)), Ok(h));
    assert_eq!(decode_head(&[0, 0]), Err(ChcError::DeserializationError));
    assert_eq!(decode_head(&[3]), Err(ChcError::DeserializationError));
}

#[test]
fn request_bodies() {
    assert_eq!(encode_txn_id(0x0102), vec![2, 1, 0, 0, 0, 0, 0, 0]);
    let body = encode_add_request(3, &[Item { hash: vec![7], prev_hash: None, position: 1 }]);
    assert_eq!(
        body,
        vec![
            3, 0, 0, 0, 0, 0, 0, 0, // transaction id
            1, 0, 0, 0, 0, 0, 0, 0, // one item
            1, 0, 0, 0, 0, 0, 0, 0, 7, 0, 1, 0, 0, 0,
        ]
    );
}

#[test]
fn error_round_trip() {
    for e in [ChcError::WrongTransactionId, ChcError::HashMismatch, ChcError::InvalidChain(17)] {
        let bytes = encode_error(e).unwrap();
        assert_eq!(decode_error(&bytes), Some(e));
    }
    assert_eq!(encode_error(ChcError::WrongTransactionId), Some(vec![0]));
    assert_eq!(encode_error(ChcError::ServiceUnreachable(None)), None);
    assert_eq!(encode_error(ChcError::DeserializationError), None);
    assert_eq!(decode_error(&[0, 0]), None);
    assert_eq!(decode_error(&[9]), None);
}

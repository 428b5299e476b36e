//! The binary schema of the networked coordinator.
//!
//! Integers are little-endian, a position in 4 bytes and every other integer
//! (lengths, counts, transaction ids) in 8. A byte string is its length then
//! its bytes; an absent value is the tag 0 and a present one the tag 1
//! followed by the value. An item is its hash, its optional parent hash and
//! its position, in that order; a sequence is its count then its elements.
use vstd::prelude::*;
use vstd::bytes::{
    lemma_auto_spec_u32_to_from_le_bytes, lemma_auto_spec_u64_to_from_le_bytes,
    spec_u32_from_le_bytes, spec_u32_to_le_bytes, spec_u64_from_le_bytes, spec_u64_to_le_bytes,
    u32_from_le_bytes, u32_to_le_bytes, u64_from_le_bytes, u64_to_le_bytes,
};
use vstd::slice::{slice_subrange, slice_to_vec};

use crate::chain::{items_view, lemma_items_view_push, Item, ItemView};
use crate::chain::{head_view, ChainHead, HeadView};
use crate::error::ChcError;
use crate::local::{lemma_transactions_view_push, transactions_view, Transaction, TransactionView};

verus! {

// ---- encoding, as sequences of bytes ----

pub open spec fn enc_u32(x: u32) -> Seq<u8> {
    spec_u32_to_le_bytes(x)
}

pub open spec fn enc_u64(x: u64) -> Seq<u8> {
    spec_u64_to_le_bytes(x)
}

pub open spec fn enc_bytes(b: Seq<u8>) -> Seq<u8> {
    enc_u64(b.len() as u64) + b
}

pub open spec fn enc_opt_bytes(o: Option<Seq<u8>>) -> Seq<u8> {
    match o {
        None => seq![0u8],
        Some(b) => seq![1u8] + enc_bytes(b),
    }
}

pub open spec fn enc_item(v: ItemView) -> Seq<u8> {
    enc_bytes(v.hash) + enc_opt_bytes(v.prev_hash) + enc_u32(v.position)
}

pub open spec fn enc_items_body(vs: Seq<ItemView>) -> Seq<u8>
    decreases vs.len(),
{
    if vs.len() == 0 {
        Seq::empty()
    } else {
        enc_items_body(vs.drop_last()) + enc_item(vs.last())
    }
}

pub open spec fn enc_item_list(vs: Seq<ItemView>) -> Seq<u8> {
    enc_u64(vs.len() as u64) + enc_items_body(vs)
}


pub open spec fn enc_transaction(t: TransactionView) -> Seq<u8> {
    enc_u64(t.id) + enc_item_list(t.items)
}

pub open spec fn enc_transactions_body(ts: Seq<TransactionView>) -> Seq<u8>
    decreases ts.len(),
{
    if ts.len() == 0 {
        Seq::empty()
    } else {
        enc_transactions_body(ts.drop_last()) + enc_transaction(ts.last())
    }
}

pub open spec fn enc_transaction_list(ts: Seq<TransactionView>) -> Seq<u8> {
    enc_u64(ts.len() as u64) + enc_transactions_body(ts)
}

pub open spec fn enc_head(h: Option<HeadView>) -> Seq<u8> {
    match h {
        None => seq![0u8],
        Some(h) => seq![1u8] + enc_bytes(h.hash) + enc_u32(h.position),
    }
}

/// The body of an append request: the transaction id, then the items.
pub open spec fn enc_add_request(txn_id: u64, items: Seq<ItemView>) -> Seq<u8> {
    enc_u64(txn_id) + enc_item_list(items)
}

/// The errors that a coordinating service reports in the body of a refusal.
pub open spec fn enc_error(e: ChcError) -> Option<Seq<u8>> {
    match e {
        ChcError::WrongTransactionId => Some(seq![0u8]),
        ChcError::HashMismatch => Some(seq![1u8]),
        ChcError::InvalidChain(i) => Some(seq![2u8] + enc_u64(i as u64)),
        _ => None,
    }
}

// ---- decoding: the value read from the front of `s`, and the bytes it took ----

pub open spec fn parse_u32(s: Seq<u8>) -> Option<(u32, int)> {
    if s.len() >= 4 {
        Some((spec_u32_from_le_bytes(s.take(4)), 4))
    } else {
        None
    }
}

pub open spec fn parse_u64(s: Seq<u8>) -> Option<(u64, int)> {
    if s.len() >= 8 {
        Some((spec_u64_from_le_bytes(s.take(8)), 8))
    } else {
        None
    }
}

pub open spec fn parse_bytes(s: Seq<u8>) -> Option<(Seq<u8>, int)> {
    match parse_u64(s) {
        Some((n, k)) => if n as int <= s.len() - k {
            Some((s.subrange(k, k + n), k + n))
        } else {
            None
        },
        None => None,
    }
}

pub open spec fn parse_opt_bytes(s: Seq<u8>) -> Option<(Option<Seq<u8>>, int)> {
    if s.len() == 0 {
        None
    } else if s[0] == 0 {
        Some((None, 1))
    } else if s[0] == 1 {
        match parse_bytes(s.skip(1)) {
            Some((b, k)) => Some((Some(b), 1 + k)),
            None => None,
        }
    } else {
        None
    }
}

pub open spec fn parse_item(s: Seq<u8>) -> Option<(ItemView, int)> {
    match parse_bytes(s) {
        Some((hash, k1)) => match parse_opt_bytes(s.skip(k1)) {
            Some((prev_hash, k2)) => match parse_u32(s.skip(k1 + k2)) {
                Some((position, k3)) => Some((ItemView { hash, prev_hash, position }, k1 + k2 + k3)),
                None => None,
            },
            None => None,
        },
        None => None,
    }
}

/// `n` items, one after another.
pub open spec fn parse_items_n(s: Seq<u8>, n: nat) -> Option<(Seq<ItemView>, int)>
    decreases n,
{
    if n == 0 {
        Some((Seq::empty(), 0))
    } else {
        match parse_items_n(s, (n - 1) as nat) {
            Some((vs, k)) => match parse_item(s.skip(k)) {
                Some((v, k2)) => Some((vs.push(v), k + k2)),
                None => None,
            },
            None => None,
        }
    }
}

proof fn lemma_items_n_stays_none(s: Seq<u8>, m: nat, n: nat)
    requires
        m <= n,
        parse_items_n(s, m) is None,
    ensures
        parse_items_n(s, n) is None,
    decreases n,
{
    if m < n {
        lemma_items_n_stays_none(s, m, (n - 1) as nat);
    }
}

pub open spec fn parse_item_list(s: Seq<u8>) -> Option<(Seq<ItemView>, int)> {
    match parse_u64(s) {
        Some((n, k)) => match parse_items_n(s.skip(k), n as nat) {
            Some((vs, k2)) => Some((vs, k + k2)),
            None => None,
        },
        None => None,
    }
}

/// A value read from the whole of a payload, with nothing left over.
pub open spec fn whole<T>(p: Option<(T, int)>, len: int) -> Option<T> {
    match p {
        Some((v, k)) => if k == len {
            Some(v)
        } else {
            None
        },
        None => None,
    }
}

/// The lengths that the schema's 8-byte counts can carry.
pub open spec fn item_sized(v: ItemView) -> bool {
    &&& v.hash.len() <= u64::MAX
    &&& v.prev_hash matches Some(p) ==> p.len() <= u64::MAX
}

pub open spec fn items_sized(vs: Seq<ItemView>) -> bool {
    &&& vs.len() <= u64::MAX
    &&& forall|i: int| 0 <= i < vs.len() ==> item_sized(#[trigger] vs[i])
}


pub open spec fn parse_transaction(s: Seq<u8>) -> Option<(TransactionView, int)> {
    match parse_u64(s) {
        Some((id, k)) => match parse_item_list(s.skip(k)) {
            Some((items, k2)) => Some((TransactionView { id, items }, k + k2)),
            None => None,
        },
        None => None,
    }
}

/// `n` transactions, one after another.
pub open spec fn parse_transactions_n(s: Seq<u8>, n: nat) -> Option<(Seq<TransactionView>, int)>
    decreases n,
{
    if n == 0 {
        Some((Seq::empty(), 0))
    } else {
        match parse_transactions_n(s, (n - 1) as nat) {
            Some((ts, k)) => match parse_transaction(s.skip(k)) {
                Some((t, k2)) => Some((ts.push(t), k + k2)),
                None => None,
            },
            None => None,
        }
    }
}

pub open spec fn parse_transaction_list(s: Seq<u8>) -> Option<(Seq<TransactionView>, int)> {
    match parse_u64(s) {
        Some((n, k)) => match parse_transactions_n(s.skip(k), n as nat) {
            Some((ts, k2)) => Some((ts, k + k2)),
            None => None,
        },
        None => None,
    }
}

pub open spec fn parse_head(s: Seq<u8>) -> Option<(Option<HeadView>, int)> {
    if s.len() == 0 {
        None
    } else if s[0] == 0 {
        Some((None, 1))
    } else if s[0] == 1 {
        match parse_bytes(s.skip(1)) {
            Some((hash, k1)) => match parse_u32(s.skip(1 + k1)) {
                Some((position, k2)) => Some((Some(HeadView { hash, position }), 1 + k1 + k2)),
                None => None,
            },
            None => None,
        }
    } else {
        None
    }
}

pub open spec fn parse_error(s: Seq<u8>) -> Option<(ChcError, int)> {
    if s.len() == 0 {
        None
    } else if s[0] == 0 {
        Some((ChcError::WrongTransactionId, 1))
    } else if s[0] == 1 {
        Some((ChcError::HashMismatch, 1))
    } else if s[0] == 2 {
        match parse_u64(s.skip(1)) {
            Some((i, k)) => if i <= usize::MAX {
                Some((ChcError::InvalidChain(i as usize), 1 + k))
            } else {
                None
            },
            None => None,
        }
    } else {
        None
    }
}

/// The transaction id and the items of an append request.
pub open spec fn parse_add_request(s: Seq<u8>) -> Option<((u64, Seq<ItemView>), int)> {
    match parse_u64(s) {
        Some((id, k)) => match parse_item_list(s.skip(k)) {
            Some((items, k2)) => Some(((id, items), k + k2)),
            None => None,
        },
        None => None,
    }
}

pub open spec fn transaction_sized(t: TransactionView) -> bool {
    items_sized(t.items)
}

pub open spec fn transactions_sized(ts: Seq<TransactionView>) -> bool {
    &&& ts.len() <= u64::MAX
    &&& forall|i: int| 0 <= i < ts.len() ==> transaction_sized(#[trigger] ts[i])
}

// ---- round trips on the sequence level ----

proof fn lemma_u32_round_trip(x: u32, rest: Seq<u8>)
    ensures
        enc_u32(x).len() == 4,
        parse_u32(enc_u32(x) + rest) == Some((x, 4int)),
{
    lemma_auto_spec_u32_to_from_le_bytes();
    assert((enc_u32(x) + rest).take(4) =~= enc_u32(x));
}

proof fn lemma_u64_round_trip(x: u64, rest: Seq<u8>)
    ensures
        enc_u64(x).len() == 8,
        parse_u64(enc_u64(x) + rest) == Some((x, 8int)),
{
    lemma_auto_spec_u64_to_from_le_bytes();
    assert((enc_u64(x) + rest).take(8) =~= enc_u64(x));
}

proof fn lemma_bytes_round_trip(b: Seq<u8>, rest: Seq<u8>)
    requires
        b.len() <= u64::MAX,
    ensures
        parse_bytes(enc_bytes(b) + rest) == Some((b, enc_bytes(b).len() as int)),
{
    let n = b.len() as u64;
    lemma_u64_round_trip(n, b + rest);
    assert(enc_bytes(b) + rest =~= enc_u64(n) + (b + rest));
    assert((enc_bytes(b) + rest).subrange(8, 8 + b.len() as int) =~= b);
}

proof fn lemma_opt_bytes_round_trip(o: Option<Seq<u8>>, rest: Seq<u8>)
    requires
        o matches Some(b) ==> b.len() <= u64::MAX,
    ensures
        parse_opt_bytes(enc_opt_bytes(o) + rest) == Some((o, enc_opt_bytes(o).len() as int)),
{
    match o {
        None => {},
        Some(b) => {
            lemma_bytes_round_trip(b, rest);
            assert((enc_opt_bytes(o) + rest).skip(1) =~= enc_bytes(b) + rest);
        },
    }
}

proof fn lemma_item_parse(v: ItemView, rest: Seq<u8>)
    requires
        item_sized(v),
    ensures
        parse_item(enc_item(v) + rest) == Some((v, enc_item(v).len() as int)),
{
    let a = enc_bytes(v.hash);
    let b = enc_opt_bytes(v.prev_hash);
    let c = enc_u32(v.position);
    let s = enc_item(v) + rest;
    assert(s =~= a + (b + c + rest));
    lemma_bytes_round_trip(v.hash, b + c + rest);
    assert(s.skip(a.len() as int) =~= b + (c + rest));
    lemma_opt_bytes_round_trip(v.prev_hash, c + rest);
    assert(s.skip((a.len() + b.len()) as int) =~= c + rest);
    lemma_u32_round_trip(v.position, rest);
}

proof fn lemma_items_n_parse(vs: Seq<ItemView>, rest: Seq<u8>)
    requires
        forall|i: int| 0 <= i < vs.len() ==> item_sized(#[trigger] vs[i]),
    ensures
        parse_items_n(enc_items_body(vs) + rest, vs.len()) == Some((vs, enc_items_body(vs).len() as int)),
    decreases vs.len(),
{
    if vs.len() > 0 {
        let init = vs.drop_last();
        let last = vs.last();
        let s = enc_items_body(vs) + rest;
        assert(s =~= enc_items_body(init) + (enc_item(last) + rest));
        assert forall|i: int| 0 <= i < init.len() implies item_sized(#[trigger] init[i]) by {
            assert(init[i] == vs[i]);
        }
        lemma_items_n_parse(init, enc_item(last) + rest);
        assert(s.skip(enc_items_body(init).len() as int) =~= enc_item(last) + rest);
        assert(item_sized(vs[vs.len() - 1]));
        lemma_item_parse(last, rest);
        assert(init.push(last) =~= vs);
    }
}

proof fn lemma_item_list_parse(vs: Seq<ItemView>, rest: Seq<u8>)
    requires
        items_sized(vs),
    ensures
        parse_item_list(enc_item_list(vs) + rest) == Some((vs, enc_item_list(vs).len() as int)),
{
    let s = enc_item_list(vs) + rest;
    assert(s =~= enc_u64(vs.len() as u64) + (enc_items_body(vs) + rest));
    lemma_u64_round_trip(vs.len() as u64, enc_items_body(vs) + rest);
    assert(s.skip(8) =~= enc_items_body(vs) + rest);
    lemma_items_n_parse(vs, rest);
}

/// Decoding the encoding of an item gives the item back.
pub proof fn lemma_item_round_trip(v: ItemView)
    requires
        item_sized(v),
    ensures
        whole(parse_item(enc_item(v)), enc_item(v).len() as int) == Some(v),
{
    lemma_item_parse(v, Seq::empty());
    assert(enc_item(v) + Seq::empty() =~= enc_item(v));
}


proof fn lemma_transaction_parse(t: TransactionView, rest: Seq<u8>)
    requires
        transaction_sized(t),
    ensures
        parse_transaction(enc_transaction(t) + rest) == Some((t, enc_transaction(t).len() as int)),
{
    let s = enc_transaction(t) + rest;
    assert(s =~= enc_u64(t.id) + (enc_item_list(t.items) + rest));
    lemma_u64_round_trip(t.id, enc_item_list(t.items) + rest);
    assert(s.skip(8) =~= enc_item_list(t.items) + rest);
    lemma_item_list_parse(t.items, rest);
}

proof fn lemma_transactions_n_parse(ts: Seq<TransactionView>, rest: Seq<u8>)
    requires
        forall|i: int| 0 <= i < ts.len() ==> transaction_sized(#[trigger] ts[i]),
    ensures
        parse_transactions_n(enc_transactions_body(ts) + rest, ts.len())
            == Some((ts, enc_transactions_body(ts).len() as int)),
    decreases ts.len(),
{
    if ts.len() > 0 {
        let init = ts.drop_last();
        let last = ts.last();
        let s = enc_transactions_body(ts) + rest;
        assert(s =~= enc_transactions_body(init) + (enc_transaction(last) + rest));
        assert forall|i: int| 0 <= i < init.len() implies transaction_sized(#[trigger] init[i]) by {
            assert(init[i] == ts[i]);
        }
        lemma_transactions_n_parse(init, enc_transaction(last) + rest);
        assert(s.skip(enc_transactions_body(init).len() as int) =~= enc_transaction(last) + rest);
        assert(transaction_sized(ts[ts.len() - 1]));
        lemma_transaction_parse(last, rest);
        assert(init.push(last) =~= ts);
    }
}

proof fn lemma_transaction_list_parse(ts: Seq<TransactionView>, rest: Seq<u8>)
    requires
        transactions_sized(ts),
    ensures
        parse_transaction_list(enc_transaction_list(ts) + rest) == Some((ts, enc_transaction_list(ts).len() as int)),
{
    let s = enc_transaction_list(ts) + rest;
    assert(s =~= enc_u64(ts.len() as u64) + (enc_transactions_body(ts) + rest));
    lemma_u64_round_trip(ts.len() as u64, enc_transactions_body(ts) + rest);
    assert(s.skip(8) =~= enc_transactions_body(ts) + rest);
    lemma_transactions_n_parse(ts, rest);
}

/// Decoding the encoding of a transaction gives the transaction back.
pub proof fn lemma_transaction_round_trip(t: TransactionView)
    requires
        transaction_sized(t),
    ensures
        whole(parse_transaction(enc_transaction(t)), enc_transaction(t).len() as int) == Some(t),
{
    lemma_transaction_parse(t, Seq::empty());
    assert(enc_transaction(t) + Seq::empty() =~= enc_transaction(t));
}

/// Decoding the body of an append request gives back its transaction id and
/// every field of its items.
pub proof fn lemma_add_request_round_trip(txn_id: u64, items: Seq<ItemView>)
    requires
        items_sized(items),
    ensures
        whole(parse_add_request(enc_add_request(txn_id, items)), enc_add_request(txn_id, items).len() as int)
            == Some((txn_id, items)),
{
    let s = enc_add_request(txn_id, items);
    lemma_u64_round_trip(txn_id, enc_item_list(items));
    assert(s.skip(8) =~= enc_item_list(items) + Seq::empty());
    lemma_item_list_parse(items, Seq::empty());
}

/// Decoding the encoding of a sequence of transactions gives it back.
pub proof fn lemma_transaction_list_round_trip(ts: Seq<TransactionView>)
    requires
        transactions_sized(ts),
    ensures
        whole(parse_transaction_list(enc_transaction_list(ts)), enc_transaction_list(ts).len() as int) == Some(ts),
{
    lemma_transaction_list_parse(ts, Seq::empty());
    assert(enc_transaction_list(ts) + Seq::empty() =~= enc_transaction_list(ts));
}

/// Decoding the encoding of a head, or of its absence, gives it back.
pub proof fn lemma_head_round_trip(h: Option<HeadView>)
    requires
        h matches Some(h) ==> h.hash.len() <= u64::MAX,
    ensures
        whole(parse_head(enc_head(h)), enc_head(h).len() as int) == Some(h),
{
    if let Some(hv) = h {
        let s = enc_head(h);
        let rest = enc_u32(hv.position);
        assert(s.skip(1) =~= enc_bytes(hv.hash) + rest);
        lemma_bytes_round_trip(hv.hash, rest);
        assert(s.skip(1 + enc_bytes(hv.hash).len() as int) =~= rest + Seq::empty());
        lemma_u32_round_trip(hv.position, Seq::empty());
    }
}

/// Decoding the encoding of an error that a service reports gives it back.
pub proof fn lemma_error_round_trip(e: ChcError)
    requires
        enc_error(e) is Some,
    ensures
        whole(parse_error(enc_error(e)->0), enc_error(e)->0.len() as int) == Some(e),
{
    if let ChcError::InvalidChain(i) = e {
        let s = enc_error(e)->0;
        assert(s.skip(1) =~= enc_u64(i as u64) + Seq::empty());
        lemma_u64_round_trip(i as u64, Seq::empty());
    }
}

// ---- exec encoders ----

fn put_u32(out: &mut Vec<u8>, x: u32)
    ensures
        final(out)@ == old(out)@ + enc_u32(x),
{
    let mut b = u32_to_le_bytes(x);
    out.append(&mut b);
}

fn put_u64(out: &mut Vec<u8>, x: u64)
    ensures
        final(out)@ == old(out)@ + enc_u64(x),
{
    let mut b = u64_to_le_bytes(x);
    out.append(&mut b);
}

fn put_bytes(out: &mut Vec<u8>, b: &[u8])
    ensures
        final(out)@ == old(out)@ + enc_bytes(b@),
{
    put_u64(out, b.len() as u64);
    let mut c = slice_to_vec(b);
    out.append(&mut c);
    assert(out@ =~= old(out)@ + enc_bytes(b@));
}

fn put_item(out: &mut Vec<u8>, item: &Item)
    ensures
        final(out)@ == old(out)@ + enc_item(item@),
{
    put_bytes(out, item.hash.as_slice());
    match &item.prev_hash {
        None => out.push(0u8),
        Some(p) => {
            out.push(1u8);
            put_bytes(out, p.as_slice());
        },
    }
    put_u32(out, item.position);
    assert(out@ =~= old(out)@ + enc_item(item@));
}

fn put_item_list(out: &mut Vec<u8>, items: &[Item])
    ensures
        final(out)@ == old(out)@ + enc_item_list(items_view(items@)),
{
    let ghost vs = items_view(items@);
    put_u64(out, items.len() as u64);
    let ghost start = out@;
    let mut i: usize = 0;
    while i < items.len()
        invariant
            vs == items_view(items@),
            0 <= i <= items@.len(),
            out@ == start + enc_items_body(vs.take(i as int)),
            start == old(out)@ + enc_u64(items@.len() as u64),
        decreases items@.len() - i,
    {
        put_item(out, &items[i]);
        assert(vs.take(i + 1).drop_last() =~= vs.take(i as int));
        assert(out@ =~= start + enc_items_body(vs.take(i + 1)));
        i += 1;
    }
    assert(vs.take(items@.len() as int) =~= vs);
    assert(out@ =~= old(out)@ + enc_item_list(vs));
}

/// The schema's bytes for one item.
pub fn encode_item(item: &Item) -> (r: Vec<u8>)
    ensures
        r@ == enc_item(item@),
{
    let mut r: Vec<u8> = Vec::new();
    put_item(&mut r, item);
    assert(r@ =~= enc_item(item@));
    r
}


fn put_transaction(out: &mut Vec<u8>, t: &Transaction)
    ensures
        final(out)@ == old(out)@ + enc_transaction(t@),
{
    put_u64(out, t.id);
    put_item_list(out, t.items.as_slice());
    assert(out@ =~= old(out)@ + enc_transaction(t@));
}

/// The schema's bytes for one transaction.
pub fn encode_transaction(t: &Transaction) -> (r: Vec<u8>)
    ensures
        r@ == enc_transaction(t@),
{
    let mut r: Vec<u8> = Vec::new();
    put_transaction(&mut r, t);
    assert(r@ =~= enc_transaction(t@));
    r
}

/// The schema's bytes for a sequence of transactions.
pub fn encode_transactions(ts: &[Transaction]) -> (r: Vec<u8>)
    ensures
        r@ == enc_transaction_list(transactions_view(ts@)),
{
    let ghost vs = transactions_view(ts@);
    let mut r: Vec<u8> = Vec::new();
    put_u64(&mut r, ts.len() as u64);
    let ghost start = r@;
    let mut i: usize = 0;
    while i < ts.len()
        invariant
            vs == transactions_view(ts@),
            0 <= i <= ts@.len(),
            r@ == start + enc_transactions_body(vs.take(i as int)),
            start == Seq::<u8>::empty() + enc_u64(ts@.len() as u64),
        decreases ts@.len() - i,
    {
        put_transaction(&mut r, &ts[i]);
        assert(vs.take(i + 1).drop_last() =~= vs.take(i as int));
        assert(r@ =~= start + enc_transactions_body(vs.take(i + 1)));
        i += 1;
    }
    assert(vs.take(ts@.len() as int) =~= vs);
    assert(r@ =~= enc_transaction_list(vs));
    r
}

/// The schema's bytes for a head, or for its absence.
pub fn encode_head(head: &Option<ChainHead>) -> (r: Vec<u8>)
    ensures
        r@ == enc_head(head_view(*head)),
{
    let mut r: Vec<u8> = Vec::new();
    match head {
        None => r.push(0u8),
        Some(h) => {
            r.push(1u8);
            put_bytes(&mut r, h.hash.as_slice());
            put_u32(&mut r, h.position);
        },
    }
    assert(r@ =~= enc_head(head_view(*head)));
    r
}

/// The body of an append request: the transaction id, then the items.
pub fn encode_add_request(txn_id: u64, items: &[Item]) -> (r: Vec<u8>)
    ensures
        r@ == enc_add_request(txn_id, items_view(items@)),
{
    let mut r: Vec<u8> = Vec::new();
    put_u64(&mut r, txn_id);
    put_item_list(&mut r, items);
    assert(r@ =~= enc_add_request(txn_id, items_view(items@)));
    r
}

/// The schema's bytes for a transaction id.
pub fn encode_txn_id(txn_id: u64) -> (r: Vec<u8>)
    ensures
        r@ == enc_u64(txn_id),
{
    let mut r: Vec<u8> = Vec::new();
    put_u64(&mut r, txn_id);
    assert(r@ =~= enc_u64(txn_id));
    r
}

/// The body in which a service reports an error; `None` for the errors that
/// only a client meets (transport and decoding).
pub fn encode_error(e: ChcError) -> (r: Option<Vec<u8>>)
    ensures
        match enc_error(e) {
            Some(b) => r matches Some(v) && v@ == b,
            None => r is None,
        },
{
    let mut r: Vec<u8> = Vec::new();
    match e {
        ChcError::WrongTransactionId => r.push(0u8),
        ChcError::HashMismatch => r.push(1u8),
        ChcError::InvalidChain(i) => {
            r.push(2u8);
            put_u64(&mut r, i as u64);
        },
        _ => return None,
    }
    assert(r@ =~= enc_error(e)->0);
    Some(r)
}

// ---- exec decoders: each reads from `pos` on and says where it stopped ----

fn read_u32(s: &[u8], pos: usize) -> (r: Option<(u32, usize)>)
    requires
        pos <= s@.len(),
    ensures
        r matches Some((_, p)) ==> pos <= p <= s@.len(),
        match parse_u32(s@.skip(pos as int)) {
            Some((v, k)) => r matches Some((x, p)) && x == v && p == pos + k,
            None => r is None,
        },
{
    if s.len() - pos < 4 {
        return None;
    }
    let x = u32_from_le_bytes(slice_subrange(s, pos, pos + 4));
    assert(s@.skip(pos as int).take(4) =~= s@.subrange(pos as int, pos + 4));
    Some((x, pos + 4))
}

fn read_u64(s: &[u8], pos: usize) -> (r: Option<(u64, usize)>)
    requires
        pos <= s@.len(),
    ensures
        r matches Some((_, p)) ==> pos <= p <= s@.len(),
        match parse_u64(s@.skip(pos as int)) {
            Some((v, k)) => r matches Some((x, p)) && x == v && p == pos + k,
            None => r is None,
        },
{
    if s.len() - pos < 8 {
        return None;
    }
    let x = u64_from_le_bytes(slice_subrange(s, pos, pos + 8));
    assert(s@.skip(pos as int).take(8) =~= s@.subrange(pos as int, pos + 8));
    Some((x, pos + 8))
}

fn read_bytes(s: &[u8], pos: usize) -> (r: Option<(Vec<u8>, usize)>)
    requires
        pos <= s@.len(),
    ensures
        r matches Some((_, p)) ==> pos <= p <= s@.len(),
        match parse_bytes(s@.skip(pos as int)) {
            Some((v, k)) => r matches Some((b, p)) && b@ == v && p == pos + k,
            None => r is None,
        },
{
    match read_u64(s, pos) {
        None => None,
        Some((n, p)) => {
            if n > (s.len() - p) as u64 {
                return None;
            }
            let end = p + n as usize;
            let b = slice_to_vec(slice_subrange(s, p, end));
            assert(b@ =~= s@.skip(pos as int).subrange(8, 8 + n));
            Some((b, end))
        },
    }
}

fn read_opt_bytes(s: &[u8], pos: usize) -> (r: Option<(Option<Vec<u8>>, usize)>)
    requires
        pos <= s@.len(),
    ensures
        r matches Some((_, p)) ==> pos <= p <= s@.len(),
        match parse_opt_bytes(s@.skip(pos as int)) {
            Some((v, k)) => r matches Some((o, p)) && crate::chain::opt_bytes_view(o) == v && p == pos + k,
            None => r is None,
        },
{
    if pos == s.len() {
        return None;
    }
    let tag = s[pos];
    if tag == 0 {
        Some((None, pos + 1))
    } else if tag == 1 {
        assert(s@.skip(pos as int).skip(1) =~= s@.skip(pos + 1));
        match read_bytes(s, pos + 1) {
            Some((b, p)) => Some((Some(b), p)),
            None => None,
        }
    } else {
        None
    }
}

fn read_item(s: &[u8], pos: usize) -> (r: Option<(Item, usize)>)
    requires
        pos <= s@.len(),
    ensures
        r matches Some((_, p)) ==> pos <= p <= s@.len(),
        match parse_item(s@.skip(pos as int)) {
            Some((v, k)) => r matches Some((it, p)) && it@ == v && p == pos + k,
            None => r is None,
        },
{
    let ghost t = s@.skip(pos as int);
    let (hash, p1) = match read_bytes(s, pos) {
        Some(x) => x,
        None => return None,
    };
    assert(t.skip(p1 - pos) =~= s@.skip(p1 as int));
    let (prev_hash, p2) = match read_opt_bytes(s, p1) {
        Some(x) => x,
        None => return None,
    };
    assert(t.skip(p2 - pos) =~= s@.skip(p2 as int));
    let (position, p3) = match read_u32(s, p2) {
        Some(x) => x,
        None => return None,
    };
    let it = Item { hash, prev_hash, position };
    Some((it, p3))
}

fn read_items_n(s: &[u8], pos: usize, n: u64) -> (r: Option<(Vec<Item>, usize)>)
    requires
        pos <= s@.len(),
    ensures
        r matches Some((_, p)) ==> pos <= p <= s@.len(),
        match parse_items_n(s@.skip(pos as int), n as nat) {
            Some((vs, k)) => r matches Some((items, p)) && items_view(items@) == vs && p == pos + k,
            None => r is None,
        },
{
    let ghost t = s@.skip(pos as int);
    let mut items: Vec<Item> = Vec::new();
    let mut p = pos;
    let mut i: u64 = 0;
    assert(items_view(items@) =~= Seq::<ItemView>::empty());
    while i < n
        invariant
            t == s@.skip(pos as int),
            pos <= p <= s@.len(),
            i <= n,
            parse_items_n(t, i as nat) == Some((items_view(items@), p - pos)),
        decreases n - i,
    {
        assert(t.skip(p - pos) =~= s@.skip(p as int));
        match read_item(s, p) {
            Some((it, q)) => {
                proof {
                    lemma_items_view_push(items@, it);
                }
                items.push(it);
                p = q;
            },
            None => {
                proof {
                    lemma_items_n_stays_none(t, (i + 1) as nat, n as nat);
                }
                return None;
            },
        }
        i += 1;
    }
    Some((items, p))
}

fn read_item_list(s: &[u8], pos: usize) -> (r: Option<(Vec<Item>, usize)>)
    requires
        pos <= s@.len(),
    ensures
        r matches Some((_, p)) ==> pos <= p <= s@.len(),
        match parse_item_list(s@.skip(pos as int)) {
            Some((vs, k)) => r matches Some((items, p)) && items_view(items@) == vs && p == pos + k,
            None => r is None,
        },
{
    match read_u64(s, pos) {
        None => None,
        Some((n, p)) => {
            assert(p == pos + 8);
            assert(s@.skip(pos as int).skip(8) =~= s@.skip(p as int));
            read_items_n(s, p, n)
        },
    }
}

/// Reads one item from the whole of `bytes`.
pub fn decode_item(bytes: &[u8]) -> (r: Result<Item, ChcError>)
    ensures
        match whole(parse_item(bytes@), bytes@.len() as int) {
            Some(v) => r matches Ok(it) && it@ == v,
            None => r == Err::<Item, ChcError>(ChcError::DeserializationError),
        },
{
    assert(bytes@.skip(0) =~= bytes@);
    match read_item(bytes, 0) {
        Some((it, p)) => if p == bytes.len() {
            Ok(it)
        } else {
            Err(ChcError::DeserializationError)
        },
        None => Err(ChcError::DeserializationError),
    }
}


fn read_transaction(s: &[u8], pos: usize) -> (r: Option<(Transaction, usize)>)
    requires
        pos <= s@.len(),
    ensures
        r matches Some((_, p)) ==> pos <= p <= s@.len(),
        match parse_transaction(s@.skip(pos as int)) {
            Some((v, k)) => r matches Some((t, p)) && t@ == v && p == pos + k,
            None => r is None,
        },
{
    match read_u64(s, pos) {
        None => None,
        Some((id, p)) => {
            assert(s@.skip(pos as int).skip(8) =~= s@.skip(p as int));
            match read_item_list(s, p) {
                Some((items, q)) => Some((Transaction { id, items }, q)),
                None => None,
            }
        },
    }
}

proof fn lemma_transactions_n_stays_none(s: Seq<u8>, m: nat, n: nat)
    requires
        m <= n,
        parse_transactions_n(s, m) is None,
    ensures
        parse_transactions_n(s, n) is None,
    decreases n,
{
    if m < n {
        lemma_transactions_n_stays_none(s, m, (n - 1) as nat);
    }
}

fn read_transactions_n(s: &[u8], pos: usize, n: u64) -> (r: Option<(Vec<Transaction>, usize)>)
    requires
        pos <= s@.len(),
    ensures
        r matches Some((_, p)) ==> pos <= p <= s@.len(),
        match parse_transactions_n(s@.skip(pos as int), n as nat) {
            Some((vs, k)) => r matches Some((ts, p)) && transactions_view(ts@) == vs && p == pos + k,
            None => r is None,
        },
{
    let ghost t = s@.skip(pos as int);
    let mut ts: Vec<Transaction> = Vec::new();
    let mut p = pos;
    let mut i: u64 = 0;
    assert(transactions_view(ts@) =~= Seq::<TransactionView>::empty());
    while i < n
        invariant
            t == s@.skip(pos as int),
            pos <= p <= s@.len(),
            i <= n,
            parse_transactions_n(t, i as nat) == Some((transactions_view(ts@), p - pos)),
        decreases n - i,
    {
        assert(t.skip(p - pos) =~= s@.skip(p as int));
        match read_transaction(s, p) {
            Some((x, q)) => {
                proof {
                    lemma_transactions_view_push(ts@, x);
                }
                ts.push(x);
                p = q;
            },
            None => {
                proof {
                    lemma_transactions_n_stays_none(t, (i + 1) as nat, n as nat);
                }
                return None;
            },
        }
        i += 1;
    }
    Some((ts, p))
}

/// Reads one transaction from the whole of `bytes`.
pub fn decode_transaction(bytes: &[u8]) -> (r: Result<Transaction, ChcError>)
    ensures
        match whole(parse_transaction(bytes@), bytes@.len() as int) {
            Some(v) => r matches Ok(t) && t@ == v,
            None => r == Err::<Transaction, ChcError>(ChcError::DeserializationError),
        },
{
    assert(bytes@.skip(0) =~= bytes@);
    match read_transaction(bytes, 0) {
        Some((t, p)) => if p == bytes.len() {
            Ok(t)
        } else {
            Err(ChcError::DeserializationError)
        },
        None => Err(ChcError::DeserializationError),
    }
}

/// Reads a sequence of transactions from the whole of `bytes`.
pub fn decode_transactions(bytes: &[u8]) -> (r: Result<Vec<Transaction>, ChcError>)
    ensures
        match whole(parse_transaction_list(bytes@), bytes@.len() as int) {
            Some(v) => r matches Ok(ts) && transactions_view(ts@) == v,
            None => r == Err::<Vec<Transaction>, ChcError>(ChcError::DeserializationError),
        },
{
    assert(bytes@.skip(0) =~= bytes@);
    let (n, p) = match read_u64(bytes, 0) {
        Some(x) => x,
        None => return Err(ChcError::DeserializationError),
    };
    assert(bytes@.skip(8) =~= bytes@.skip(p as int));
    match read_transactions_n(bytes, p, n) {
        Some((ts, q)) => if q == bytes.len() {
            Ok(ts)
        } else {
            Err(ChcError::DeserializationError)
        },
        None => Err(ChcError::DeserializationError),
    }
}

/// Reads a head, or its absence, from the whole of `bytes`.
pub fn decode_head(bytes: &[u8]) -> (r: Result<Option<ChainHead>, ChcError>)
    ensures
        match whole(parse_head(bytes@), bytes@.len() as int) {
            Some(v) => r matches Ok(h) && head_view(h) == v,
            None => r == Err::<Option<ChainHead>, ChcError>(ChcError::DeserializationError),
        },
{
    if bytes.len() == 0 {
        return Err(ChcError::DeserializationError);
    }
    if bytes[0] == 0 {
        return if bytes.len() == 1 {
            Ok(None)
        } else {
            Err(ChcError::DeserializationError)
        };
    }
    if bytes[0] != 1 {
        return Err(ChcError::DeserializationError);
    }
    let (hash, p1) = match read_bytes(bytes, 1) {
        Some(x) => x,
        None => return Err(ChcError::DeserializationError),
    };
    assert(bytes@.skip(1).skip(p1 - 1) =~= bytes@.skip(p1 as int));
    let (position, p2) = match read_u32(bytes, p1) {
        Some(x) => x,
        None => return Err(ChcError::DeserializationError),
    };
    if p2 != bytes.len() {
        return Err(ChcError::DeserializationError);
    }
    Ok(Some(ChainHead { hash, position }))
}

/// Reads an error that a service reports from the whole of `bytes`; `None`
/// when the bytes are no such error.
pub fn decode_error(bytes: &[u8]) -> (r: Option<ChcError>)
    ensures
        r == whole(parse_error(bytes@), bytes@.len() as int),
{
    if bytes.len() == 0 {
        return None;
    }
    let tag = bytes[0];
    if tag == 0 || tag == 1 {
        if bytes.len() != 1 {
            return None;
        }
        return if tag == 0 {
            Some(ChcError::WrongTransactionId)
        } else {
            Some(ChcError::HashMismatch)
        };
    }
    if tag != 2 {
        return None;
    }
    match read_u64(bytes, 1) {
        Some((i, p)) => if p == bytes.len() && i <= usize::MAX as u64 {
            Some(ChcError::InvalidChain(i as usize))
        } else {
            None
        },
        None => None,
    }
}

} // verus!

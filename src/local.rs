use vstd::prelude::*;

use crate::chain::{
    fits_chain, first_break, lemma_items_view_push, head_view, items_view, names_parent, same_hash, validate_chain,
    ChainHead, HeadView, Item, ItemView,
};
use crate::error::ChcError;
use vstd::rwlock::{RwLock, RwLockPredicate};

verus! {

/// What the chain logic sees of a [`Transaction`].
pub ghost struct TransactionView {
    pub id: u64,
    pub items: Seq<ItemView>,
}

/// A batch of items committed as one unit, with its index in the log.
#[derive(Debug, PartialEq, Eq)]
pub struct Transaction {
    pub id: u64,
    pub items: Vec<Item>,
}

impl View for Transaction {
    type V = TransactionView;

    open spec fn view(&self) -> TransactionView {
        TransactionView { id: self.id, items: items_view(self.items@) }
    }
}

impl Clone for Transaction {
    fn clone(&self) -> (r: Self)
        ensures
            r@ == self@,
    {
        let r = Transaction { id: self.id, items: self.items.clone() };
        assert(items_view(r.items@) =~= items_view(self.items@));
        r
    }
}

pub open spec fn transactions_view(s: Seq<Transaction>) -> Seq<TransactionView> {
    s.map_values(|t: Transaction| t@)
}

pub proof fn lemma_transactions_view_push(s: Seq<Transaction>, x: Transaction)
    ensures
        transactions_view(s.push(x)) == transactions_view(s).push(x@),
{
    assert(transactions_view(s.push(x)) =~= transactions_view(s).push(x@));
}

/// The tip of a log of batches: the last item of its last batch.
pub open spec fn log_head(log: Seq<Seq<ItemView>>) -> Option<HeadView> {
    if log.len() == 0 {
        None
    } else {
        Some(HeadView { hash: log.last().last().hash, position: log.last().last().position })
    }
}

/// What `add_transaction(txn_id, items)` answers on `log`: the id must be the
/// number of committed batches, the batch must not be empty, and its first
/// item must name the last committed item as its parent.
pub open spec fn add_outcome(log: Seq<Seq<ItemView>>, txn_id: u64, items: Seq<ItemView>) -> Result<(), ChcError> {
    if txn_id as int != log.len() {
        Err(ChcError::WrongTransactionId)
    } else if items.len() == 0 {
        Err(ChcError::InvalidChain(0))
    } else if log.len() > 0 && items[0].prev_hash != Some(log.last().last().hash) {
        Err(ChcError::HashMismatch)
    } else {
        Ok(())
    }
}

/// The log after `add_transaction(txn_id, items)`: one batch longer on
/// success, unchanged otherwise.
pub open spec fn log_after_add(log: Seq<Seq<ItemView>>, txn_id: u64, items: Seq<ItemView>) -> Seq<Seq<ItemView>> {
    if add_outcome(log, txn_id, items) is Ok {
        log.push(items)
    } else {
        log
    }
}

/// The committed transactions whose id is `txn_id` or more, in order.
pub open spec fn transactions_since(log: Seq<Seq<ItemView>>, txn_id: u64) -> Seq<TransactionView> {
    let start = if txn_id as int <= log.len() { txn_id as int } else { log.len() as int };
    Seq::new((log.len() - start) as nat, |j: int| TransactionView { id: (start + j) as u64, items: log[start + j] })
}

/// `items` from the first one whose hash is `hash` to the end; empty when
/// none has it.
pub open spec fn skip_until_hash(items: Seq<ItemView>, hash: Seq<u8>) -> Seq<ItemView>
    decreases items.len(),
{
    if items.len() == 0 {
        items
    } else if items[0].hash == hash {
        items
    } else {
        skip_until_hash(items.drop_first(), hash)
    }
}

/// The log of a fresh coordinator after `add_transaction(i, batches[i])` for
/// each `i` in order.
pub open spec fn log_after_adds(batches: Seq<Seq<ItemView>>) -> Seq<Seq<ItemView>>
    decreases batches.len(),
{
    if batches.len() == 0 {
        Seq::empty()
    } else {
        log_after_add(log_after_adds(batches.drop_last()), (batches.len() - 1) as u64, batches.last())
    }
}

/// Batches appended in order to a fresh coordinator, each accepted on the
/// ones before it, make up its whole log: the next id is their number, and the
/// transactions since id 0 are exactly those batches, in order, with ids
/// 0, 1, 2, ...
pub proof fn lemma_appends_in_order(batches: Seq<Seq<ItemView>>)
    requires
        batches.len() <= u64::MAX,
        forall|i: int| 0 <= i < batches.len() ==> #[trigger] add_outcome(batches.take(i), i as u64, batches[i]) is Ok,
    ensures
        log_after_adds(batches) == batches,
        log_after_adds(batches).len() == batches.len(),
        transactions_since(log_after_adds(batches), 0)
            == Seq::new(batches.len(), |i: int| TransactionView { id: i as u64, items: batches[i] }),
    decreases batches.len(),
{
    if batches.len() > 0 {
        let prev = batches.drop_last();
        let n = batches.len() - 1;
        assert forall|i: int| 0 <= i < prev.len() implies #[trigger] add_outcome(prev.take(i), i as u64, prev[i]) is Ok by {
            assert(prev.take(i) =~= batches.take(i));
            assert(add_outcome(batches.take(i), i as u64, batches[i]) is Ok);
        }
        lemma_appends_in_order(prev);
        assert(batches.take(n) =~= prev);
        assert(add_outcome(batches.take(n), n as u64, batches[n]) is Ok);
        assert(prev.push(batches.last()) =~= batches);
    }
    assert(transactions_since(log_after_adds(batches), 0)
        =~= Seq::new(batches.len(), |i: int| TransactionView { id: i as u64, items: batches[i] }));
}

/// An id other than the number of committed transactions is refused with
/// `WrongTransactionId`, whether it is smaller or larger, and the log stays as
/// it was.
pub proof fn lemma_wrong_id_refused(log: Seq<Seq<ItemView>>, txn_id: u64, items: Seq<ItemView>)
    requires
        txn_id as int != log.len(),
    ensures
        add_outcome(log, txn_id, items) == Err::<(), ChcError>(ChcError::WrongTransactionId),
        log_after_add(log, txn_id, items) == log,
{
}

/// At the right id after the first transaction, a batch whose first item does
/// not name the last committed item as its parent is refused with
/// `HashMismatch`, and the log stays as it was.
pub proof fn lemma_broken_link_refused(log: Seq<Seq<ItemView>>, items: Seq<ItemView>)
    requires
        0 < log.len() <= u64::MAX,
        items.len() > 0,
        items[0].prev_hash != Some(log.last().last().hash),
    ensures
        add_outcome(log, log.len() as u64, items) == Err::<(), ChcError>(ChcError::HashMismatch),
        log_after_add(log, log.len() as u64, items) == log,
{
}

/// Asking for the transactions since an id at or past the end of the log
/// gives none.
pub proof fn lemma_nothing_since_end(log: Seq<Seq<ItemView>>, txn_id: u64)
    requires
        txn_id as int >= log.len(),
    ensures
        transactions_since(log, txn_id).len() == 0,
{
}

/// The log only grows: after any append, successful or not, the log as it
/// was is a prefix of the log as it is.
pub proof fn lemma_log_only_grows(log: Seq<Seq<ItemView>>, txn_id: u64, items: Seq<ItemView>)
    ensures
        log_after_add(log, txn_id, items).len() >= log.len(),
        log_after_add(log, txn_id, items).take(log.len() as int) == log,
{
    assert(log_after_add(log, txn_id, items).take(log.len() as int) =~= log);
}

/// The strict check is the stronger one: a non-empty batch that fits the
/// chain on the current head is also accepted at the right id by the check at
/// transaction boundaries.
pub proof fn lemma_strict_implies_boundary(log: Seq<Seq<ItemView>>, items: Seq<ItemView>)
    requires
        log.len() <= u64::MAX,
        items.len() > 0,
        fits_chain(items, log_head(log)),
    ensures
        add_outcome(log, log.len() as u64, items) is Ok,
{
    assert(crate::chain::item_fits(items, log_head(log), 0));
}

pub open spec fn batches_view(b: Seq<Vec<Item>>) -> Seq<Seq<ItemView>> {
    b.map_values(|v: Vec<Item>| items_view(v@))
}

/// A log that the coordinator can hold: no batch is empty, and each batch
/// after the first opens on the last item of the batch before it.
pub open spec fn log_ok(log: Seq<Seq<ItemView>>) -> bool {
    forall|i: int|
        0 <= i < log.len() ==> (#[trigger] log[i]).len() > 0 && (i > 0 ==> log[i][0].prev_hash == Some(
            log[i - 1].last().hash,
        ))
}

proof fn lemma_log_ok_push(log: Seq<Seq<ItemView>>, items: Seq<ItemView>)
    requires
        log_ok(log),
        items.len() > 0,
        log.len() > 0 ==> items[0].prev_hash == Some(log.last().last().hash),
    ensures
        log_ok(log.push(items)),
{
    let l = log.push(items);
    assert forall|i: int| 0 <= i < l.len() implies (#[trigger] l[i]).len() > 0 && (i > 0 ==> l[i][0].prev_hash
        == Some(l[i - 1].last().hash)) by {
        if i < log.len() {
            assert(l[i] == log[i]);
            if i > 0 {
                assert(l[i - 1] == log[i - 1]);
            }
        }
    }
}

/// The in-memory coordinator: a log of transactions, each a non-empty batch of
/// items, owned by this value and lost with it.
pub struct LocalChc {
    batches: Vec<Vec<Item>>,
}

impl View for LocalChc {
    type V = Seq<Seq<ItemView>>;

    closed spec fn view(&self) -> Seq<Seq<ItemView>> {
        batches_view(self.batches@)
    }
}

impl LocalChc {
    /// No committed batch is empty, and the batches link up.
    #[verifier::type_invariant]
    closed spec fn well_formed(&self) -> bool {
        &&& forall|i: int| 0 <= i < self.batches@.len() ==> (#[trigger] self.batches@[i])@.len() > 0
        &&& log_ok(self@)
    }

    /// A coordinator with an empty log.
    pub fn new() -> (r: LocalChc)
        ensures
            r@ == Seq::<Seq<ItemView>>::empty(),
            log_ok(r@),
    {
        assert(batches_view(Seq::<Vec<Item>>::empty()) =~= Seq::<Seq<ItemView>>::empty());
        let r = LocalChc { batches: Vec::new() };
        assert(r@ =~= Seq::<Seq<ItemView>>::empty());
        r
    }

    /// The id that the next transaction must carry: the number of committed ones.
    pub fn next_transaction_id(&self) -> (r: u64)
        ensures
            r as int == self@.len(),
    {
        self.batches.len() as u64
    }

    /// The hash and position of the last committed item, if any.
    pub fn head(&self) -> (r: Option<ChainHead>)
        ensures
            head_view(r) == log_head(self@),
    {
        proof {
            use_type_invariant(self);
        }
        let n = self.batches.len();
        if n == 0 {
            None
        } else {
            let last = &self.batches[n - 1];
            let item = &last[last.len() - 1];
            assert(self@.last() == items_view(last@));
            Some(ChainHead { hash: item.hash.clone(), position: item.position })
        }
    }

    /// Appends `items` as transaction `txn_id`. The id must be the number of
    /// committed transactions, the batch must not be empty, and, after the
    /// first transaction, its first item must name the last committed item as
    /// its parent. Items inside the batch are not checked against each other:
    /// see [`LocalChc::add_transaction_strict`] for that. On any failure the
    /// log is left as it was.
    pub fn add_transaction(&mut self, txn_id: u64, items: Vec<Item>) -> (r: Result<(), ChcError>)
        ensures
            r == add_outcome(old(self)@, txn_id, items_view(items@)),
            final(self)@ == log_after_add(old(self)@, txn_id, items_view(items@)),
            log_ok(final(self)@),
    {
        proof {
            use_type_invariant(&*self);
        }
        let n = self.batches.len();
        if txn_id != n as u64 {
            return Err(ChcError::WrongTransactionId);
        }
        if items.len() == 0 {
            return Err(ChcError::InvalidChain(0));
        }
        if n > 0 {
            let last = &self.batches[n - 1];
            let tip = &last[last.len() - 1];
            assert(self@.last() == items_view(last@));
            if !names_parent(&items[0].prev_hash, tip.hash.as_slice()) {
                return Err(ChcError::HashMismatch);
            }
        }
        let ghost before = self@;
        let mut batches = Vec::new();
        std::mem::swap(&mut self.batches, &mut batches);
        let ghost iv = items_view(items@);
        batches.push(items);
        proof {
            assert(batches_view(batches@) =~= before.push(iv));
            lemma_log_ok_push(before, iv);
        }
        self.batches = batches;
        Ok(())
    }

    /// Appends `items` as transaction `txn_id`, checking every item: the id
    /// must be the number of committed transactions, the batch must not be
    /// empty, and [`validate_chain`] must accept it on the current head. On
    /// any failure the log is left as it was.
    pub fn add_transaction_strict(&mut self, txn_id: u64, items: Vec<Item>) -> (r: Result<(), ChcError>)
        ensures
            txn_id as int != old(self)@.len() ==> r == Err::<(), ChcError>(ChcError::WrongTransactionId),
            txn_id as int == old(self)@.len() && items@.len() == 0 ==> r == Err::<(), ChcError>(ChcError::InvalidChain(0)),
            txn_id as int == old(self)@.len() && items@.len() > 0 ==> match r {
                Ok(()) => fits_chain(items_view(items@), log_head(old(self)@)),
                Err(ChcError::InvalidChain(i)) => first_break(items_view(items@), log_head(old(self)@), i as int),
                Err(_) => false,
            },
            final(self)@ == (if r is Ok { old(self)@.push(items_view(items@)) } else { old(self)@ }),
            log_ok(final(self)@),
    {
        proof {
            use_type_invariant(&*self);
        }
        let n = self.batches.len();
        if txn_id != n as u64 {
            return Err(ChcError::WrongTransactionId);
        }
        if items.len() == 0 {
            return Err(ChcError::InvalidChain(0));
        }
        let head = self.head();
        match validate_chain(items.as_slice(), &head) {
            Ok(()) => {},
            Err(e) => {
                return Err(e);
            },
        }
        assert(crate::chain::item_fits(items_view(items@), log_head(self@), 0));
        let ghost before = self@;
        let mut batches = Vec::new();
        std::mem::swap(&mut self.batches, &mut batches);
        let ghost iv = items_view(items@);
        batches.push(items);
        proof {
            assert(batches_view(batches@) =~= before.push(iv));
            lemma_log_ok_push(before, iv);
        }
        self.batches = batches;
        Ok(())
    }

    /// Appends `items` on the current head as the next transaction, checking
    /// every item as [`LocalChc::add_transaction_strict`] does. An empty batch
    /// is refused, as every transaction holds at least one item.
    pub fn add_actions(&mut self, items: Vec<Item>) -> (r: Result<(), ChcError>)
        ensures
            items@.len() == 0 ==> r == Err::<(), ChcError>(ChcError::InvalidChain(0)) && final(self)@ == old(self)@,
            items@.len() > 0 ==> match r {
                Ok(()) => fits_chain(items_view(items@), log_head(old(self)@)),
                Err(ChcError::InvalidChain(i)) => first_break(items_view(items@), log_head(old(self)@), i as int),
                Err(_) => false,
            },
            final(self)@ == (if r is Ok { old(self)@.push(items_view(items@)) } else { old(self)@ }),
            log_ok(final(self)@),
    {
        let id = self.next_transaction_id();
        self.add_transaction_strict(id, items)
    }

    /// Every committed transaction whose id is `txn_id` or more, in order;
    /// empty when `txn_id` is past the end of the log.
    pub fn get_transactions_since_id(&self, txn_id: u64) -> (r: Vec<Transaction>)
        ensures
            transactions_view(r@) == transactions_since(self@, txn_id),
    {
        let n = self.batches.len();
        let start: usize = if txn_id < n as u64 { txn_id as usize } else { n };
        let ghost want = transactions_since(self@, txn_id);
        let mut r: Vec<Transaction> = Vec::new();
        let mut i: usize = start;
        while i < n
            invariant
                n == self.batches@.len(),
                start <= i <= n,
                start as int == (if txn_id as int <= n { txn_id as int } else { n as int }),
                want == transactions_since(self@, txn_id),
                transactions_view(r@) == want.take(i - start),
            decreases n - i,
        {
            let items = self.batches[i].clone();
            let t = Transaction { id: i as u64, items };
            proof {
                assert(items_view(items@) =~= items_view(self.batches@[i as int]@));
                assert(self@[i as int] == items_view(self.batches@[i as int]@));
                assert(t@ == want[i - start]);
            }
            proof {
                lemma_transactions_view_push(r@, t);
            }
            r.push(t);
            i += 1;
            assert(transactions_view(r@) =~= want.take(i - start));
        }
        assert(want.take(n - start) =~= want);
        r
    }

    /// Every committed item, in order, from the first one whose hash is
    /// `hash`; empty when no committed item has it.
    pub fn get_actions_since_hash(&self, hash: &[u8]) -> (r: Vec<Item>)
        ensures
            items_view(r@) == skip_until_hash(self@.flatten(), hash@),
    {
        let flat = self.all_items();
        let ghost all = items_view(flat@);
        let mut k: usize = 0;
        assert(all.skip(0) =~= all);
        while k < flat.len()
            invariant
                all == items_view(flat@),
                0 <= k <= flat@.len(),
                skip_until_hash(all, hash@) == skip_until_hash(all.skip(k as int), hash@),
            ensures
                0 <= k <= flat@.len(),
                skip_until_hash(all, hash@) == all.skip(k as int),
            decreases flat@.len() - k,
        {
            if same_hash(flat[k].hash.as_slice(), hash) {
                assert(all.skip(k as int)[0] == all[k as int]);
                break;
            }
            assert(all.skip(k as int).drop_first() =~= all.skip(k + 1));
            k += 1;
        }
        let mut r: Vec<Item> = Vec::new();
        let mut j: usize = k;
        while j < flat.len()
            invariant
                all == items_view(flat@),
                0 <= k <= j <= flat@.len(),
                items_view(r@) == all.subrange(k as int, j as int),
            decreases flat@.len() - j,
        {
            let it = flat[j].clone();
            assert(it@ == all[j as int]);
            proof {
                lemma_items_view_push(r@, it);
            }
            r.push(it);
            j += 1;
            assert(items_view(r@) =~= all.subrange(k as int, j as int));
        }
        assert(all.subrange(k as int, flat@.len() as int) =~= all.skip(k as int));
        r
    }

    /// Every committed item, in order.
    fn all_items(&self) -> (r: Vec<Item>)
        ensures
            items_view(r@) == self@.flatten(),
    {
        let mut r: Vec<Item> = Vec::new();
        let mut i: usize = 0;
        while i < self.batches.len()
            invariant
                0 <= i <= self@.len(),
                self@.len() == self.batches@.len(),
                items_view(r@) == self@.take(i as int).flatten(),
            decreases self@.len() - i,
        {
            let batch = &self.batches[i];
            let ghost prefix = items_view(r@);
            let mut j: usize = 0;
            while j < batch.len()
                invariant
                    0 <= j <= batch@.len(),
                    self@[i as int] == items_view(batch@),
                    items_view(r@) == prefix + items_view(batch@).take(j as int),
                decreases batch@.len() - j,
            {
                let it = batch[j].clone();
                assert(it@ == items_view(batch@)[j as int]);
                proof {
                    lemma_items_view_push(r@, it);
                }
                r.push(it);
                j += 1;
                assert(items_view(r@) =~= prefix + items_view(batch@).take(j as int));
            }
            proof {
                assert(items_view(batch@).take(j as int) =~= items_view(batch@));
                assert(self@.take(i + 1) =~= self@.take(i as int).push(self@[i as int]));
                self@.take(i as int).lemma_flatten_push(self@[i as int]);
            }
            i += 1;
        }
        assert(self@.take(self@.len() as int) =~= self@);
        r
    }
}


/// The lock's predicate: the coordinator behind it holds a well-formed log.
pub struct WellFormedLog;

impl RwLockPredicate<LocalChc> for WellFormedLog {
    open spec fn inv(self, v: LocalChc) -> bool {
        log_ok(v@)
    }
}

/// An in-memory coordinator shared among callers: its log stands behind one
/// exclusive lock, which each operation holds from start to end, and no
/// operation waits on anything else while it holds it. Since other callers may
/// append between two calls, each operation states what it returns of the
/// log as it found it.
pub struct SharedChc {
    lock: RwLock<LocalChc, WellFormedLog>,
}

impl SharedChc {
    /// A shared coordinator with an empty log.
    pub fn new() -> (r: SharedChc) {
        SharedChc { lock: RwLock::new(LocalChc::new(), Ghost(WellFormedLog)) }
    }

    /// The number of committed transactions when the lock was taken.
    pub fn next_transaction_id(&self) -> (r: u64)
        ensures
            exists|c: LocalChc| log_ok(c@) && r as int == c@.len(),
    {
        let (chc, handle) = self.lock.acquire_write();
        let r = chc.next_transaction_id();
        handle.release_write(chc);
        r
    }

    /// The head of the log when the lock was taken.
    pub fn head(&self) -> (r: Option<ChainHead>)
        ensures
            exists|c: LocalChc| log_ok(c@) && head_view(r) == log_head(c@),
    {
        let (chc, handle) = self.lock.acquire_write();
        let r = chc.head();
        handle.release_write(chc);
        r
    }

    /// [`LocalChc::add_transaction`] on the log as the lock found it.
    pub fn add_transaction(&self, txn_id: u64, items: Vec<Item>) -> (r: Result<(), ChcError>)
        ensures
            exists|c: LocalChc| log_ok(c@) && r == add_outcome(c@, txn_id, items_view(items@)),
    {
        let ghost v = items_view(items@);
        let (mut chc, handle) = self.lock.acquire_write();
        let ghost before = chc;
        let r = chc.add_transaction(txn_id, items);
        handle.release_write(chc);
        assert(r == add_outcome(before@, txn_id, v));
        r
    }

    /// [`LocalChc::add_transaction_strict`] on the log as the lock found it.
    pub fn add_transaction_strict(&self, txn_id: u64, items: Vec<Item>) -> (r: Result<(), ChcError>)
        ensures
            exists|c: LocalChc| {
                &&& log_ok(c@)
                &&& txn_id as int != c@.len() ==> r == Err::<(), ChcError>(ChcError::WrongTransactionId)
                &&& txn_id as int == c@.len() && items@.len() == 0 ==> r == Err::<(), ChcError>(ChcError::InvalidChain(0))
                &&& txn_id as int == c@.len() && items@.len() > 0 ==> match r {
                    Ok(()) => fits_chain(items_view(items@), log_head(c@)),
                    Err(ChcError::InvalidChain(i)) => first_break(items_view(items@), log_head(c@), i as int),
                    Err(_) => false,
                }
            },
    {
        let ghost v = items@;
        let (mut chc, handle) = self.lock.acquire_write();
        let ghost before = chc;
        let r = chc.add_transaction_strict(txn_id, items);
        handle.release_write(chc);
        assert(txn_id as int == before@.len() && v.len() > 0 ==> match r {
            Ok(()) => fits_chain(items_view(v), log_head(before@)),
            Err(ChcError::InvalidChain(i)) => first_break(items_view(v), log_head(before@), i as int),
            Err(_) => false,
        });
        r
    }

    /// [`LocalChc::get_transactions_since_id`] on the log as the lock found it.
    pub fn get_transactions_since_id(&self, txn_id: u64) -> (r: Vec<Transaction>)
        ensures
            exists|c: LocalChc| log_ok(c@) && transactions_view(r@) == transactions_since(c@, txn_id),
    {
        let (chc, handle) = self.lock.acquire_write();
        let ghost before = chc;
        let r = chc.get_transactions_since_id(txn_id);
        handle.release_write(chc);
        assert(transactions_view(r@) == transactions_since(before@, txn_id));
        r
    }
}

} // verus!

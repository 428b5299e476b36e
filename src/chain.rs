use vstd::prelude::*;

use crate::error::ChcError;

verus! {

/// What the chain logic sees of an [`Item`].
pub ghost struct ItemView {
    pub hash: Seq<u8>,
    pub prev_hash: Option<Seq<u8>>,
    pub position: u32,
}

/// What the chain logic sees of a [`ChainHead`].
pub ghost struct HeadView {
    pub hash: Seq<u8>,
    pub position: u32,
}

/// One record of an agent's log: its own hash, the hash of its parent (none
/// for the first record), and its position in the log.
#[derive(Debug, PartialEq, Eq)]
pub struct Item {
    pub hash: Vec<u8>,
    pub prev_hash: Option<Vec<u8>>,
    pub position: u32,
}

/// The tip of a log: the hash and position of its last record.
#[derive(Debug, PartialEq, Eq)]
pub struct ChainHead {
    pub hash: Vec<u8>,
    pub position: u32,
}

pub open spec fn opt_bytes_view(o: Option<Vec<u8>>) -> Option<Seq<u8>> {
    match o {
        Some(b) => Some(b@),
        None => None,
    }
}

impl View for Item {
    type V = ItemView;

    open spec fn view(&self) -> ItemView {
        ItemView { hash: self.hash@, prev_hash: opt_bytes_view(self.prev_hash), position: self.position }
    }
}

impl View for ChainHead {
    type V = HeadView;

    open spec fn view(&self) -> HeadView {
        HeadView { hash: self.hash@, position: self.position }
    }
}

pub open spec fn head_view(h: Option<ChainHead>) -> Option<HeadView> {
    match h {
        Some(h) => Some(h@),
        None => None,
    }
}

pub open spec fn items_view(s: Seq<Item>) -> Seq<ItemView> {
    s.map_values(|it: Item| it@)
}

pub proof fn lemma_items_view_push(s: Seq<Item>, x: Item)
    ensures
        items_view(s.push(x)) == items_view(s).push(x@),
{
    assert(items_view(s.push(x)) =~= items_view(s).push(x@));
}

/// Whether `first` may open a batch laid on `head`: it names the head as its
/// parent and stands one position after it, or, on an empty log, it stands at
/// position 0 with no parent.
pub open spec fn opens_on(first: ItemView, head: Option<HeadView>) -> bool {
    match head {
        Some(h) => first.prev_hash == Some(h.hash) && first.position as int == h.position as int + 1,
        None => first.position == 0 && first.prev_hash is None,
    }
}

/// Whether the item at index `i` of a batch laid on `head` is in its place.
pub open spec fn item_fits(items: Seq<ItemView>, head: Option<HeadView>, i: int) -> bool {
    if i == 0 {
        opens_on(items[0], head)
    } else {
        items[i].prev_hash == Some(items[i - 1].hash)
    }
}

/// Whether every item of `items` names the one before it as its parent.
pub open spec fn is_linked(items: Seq<ItemView>) -> bool {
    forall|i: int| 0 < i < items.len() ==> #[trigger] items[i].prev_hash == Some(items[i - 1].hash)
}

/// Whether `items` extends the log whose tip is `head`.
pub open spec fn fits_chain(items: Seq<ItemView>, head: Option<HeadView>) -> bool {
    forall|i: int| 0 <= i < items.len() ==> #[trigger] item_fits(items, head, i)
}

/// Whether index `i` is the first item of `items` that is out of place.
pub open spec fn first_break(items: Seq<ItemView>, head: Option<HeadView>, i: int) -> bool {
    &&& 0 <= i < items.len()
    &&& !item_fits(items, head, i)
    &&& forall|j: int| 0 <= j < i ==> #[trigger] item_fits(items, head, j)
}

/// On an empty log, a batch fits exactly when it is empty or starts at
/// position 0 with no parent, and each of its items names the one before it as
/// its parent.
pub proof fn lemma_fits_empty_log(items: Seq<ItemView>)
    ensures
        fits_chain(items, None) <==> {
            &&& items.len() > 0 ==> items[0].position == 0 && items[0].prev_hash is None
            &&& is_linked(items)
        },
{
    if fits_chain(items, None) {
        if items.len() > 0 {
            assert(item_fits(items, None, 0));
        }
        assert forall|i: int| 0 < i < items.len() implies #[trigger] items[i].prev_hash == Some(items[i - 1].hash) by {
            assert(item_fits(items, None, i));
        }
    }
}

impl Clone for Item {
    fn clone(&self) -> (r: Self)
        ensures
            r@ == self@,
    {
        let prev_hash = match &self.prev_hash {
            Some(h) => Some(h.clone()),
            None => None,
        };
        let r = Item { hash: self.hash.clone(), prev_hash, position: self.position };
        proof {
            assert(r.hash@ =~= self.hash@);
            if let Some(h) = &self.prev_hash {
                assert(r.prev_hash.unwrap()@ =~= h@);
            }
        }
        r
    }
}

impl Clone for ChainHead {
    fn clone(&self) -> (r: Self)
        ensures
            r@ == self@,
    {
        let r = ChainHead { hash: self.hash.clone(), position: self.position };
        assert(r.hash@ =~= self.hash@);
        r
    }
}

/// Whether two hashes are the same bytes.
pub fn same_hash(a: &[u8], b: &[u8]) -> (r: bool)
    ensures
        r == (a@ == b@),
{
    if a.len() != b.len() {
        return false;
    }
    let mut i: usize = 0;
    while i < a.len()
        invariant
            a@.len() == b@.len(),
            0 <= i <= a@.len(),
            forall|j: int| 0 <= j < i ==> a@[j] == b@[j],
        decreases a@.len() - i,
    {
        if a[i] != b[i] {
            return false;
        }
        i += 1;
    }
    assert(a@ =~= b@);
    true
}

/// Whether `prev` names `hash` as the parent.
pub fn names_parent(prev: &Option<Vec<u8>>, hash: &[u8]) -> (r: bool)
    ensures
        r == (opt_bytes_view(*prev) == Some(hash@)),
{
    match prev {
        Some(p) => same_hash(p.as_slice(), hash),
        None => false,
    }
}

fn opens_on_exec(first: &Item, head: &Option<ChainHead>) -> (r: bool)
    ensures
        r == opens_on(first@, head_view(*head)),
{
    match head {
        Some(h) => {
            names_parent(&first.prev_hash, h.hash.as_slice()) && h.position < u32::MAX
                && first.position == h.position + 1
        },
        None => first.position == 0 && first.prev_hash.is_none(),
    }
}

/// Checks that `items` extends the log whose tip is `head`: each item names the
/// one before it as its parent, and the first one opens on `head`. On failure,
/// the error holds the index of the first item out of place.
pub fn validate_chain(items: &[Item], head: &Option<ChainHead>) -> (r: Result<(), ChcError>)
    ensures
        match r {
            Ok(()) => fits_chain(items_view(items@), head_view(*head)),
            Err(ChcError::InvalidChain(i)) => first_break(items_view(items@), head_view(*head), i as int),
            Err(_) => false,
        },
{
    let ghost v = items_view(items@);
    let ghost h = head_view(*head);
    let mut i: usize = 0;
    while i < items.len()
        invariant
            v == items_view(items@),
            h == head_view(*head),
            0 <= i <= items@.len(),
            forall|j: int| 0 <= j < i ==> #[trigger] item_fits(v, h, j),
        decreases items@.len() - i,
    {
        let fits = if i == 0 {
            opens_on_exec(&items[0], head)
        } else {
            names_parent(&items[i].prev_hash, items[i - 1].hash.as_slice())
        };
        if !fits {
            return Err(ChcError::InvalidChain(i));
        }
        i += 1;
    }
    Ok(())
}

} // verus!

use vstd::prelude::*;

use crate::keys::{key_less, key_lt, lemma_key_lt_irreflexive, lemma_key_lt_total, lemma_key_lt_transitive};
use vstd::utf8::{decode_utf8, valid_utf8};

use crate::error::AuctionError;
use crate::state::{Auction, AuctionModel};

verus! {

/// The namespace under which auction records are kept.
pub const PREFIX_AUCTION: &'static str = "auction";

/// Why a conditional write was refused.
#[derive(Clone, Copy, Debug, PartialEq, Eq, Structural)]
pub enum StoreError {
    /// A record already exists under the key.
    AlreadyExists,
    /// No record exists under the key.
    NotFound,
}

/// One stored record under its raw key.
#[derive(Debug)]
pub struct Record {
    pub key: Vec<u8>,
    pub value: Auction,
}

/// The auction namespace of the store: records under raw byte keys, kept in
/// ascending key order with each key at most once.
#[derive(Debug)]
pub struct AuctionStore {
    namespace: String,
    entries: Vec<Record>,
}

/// What remains of an ascending key sequence once the keys below `start`
/// are dropped from its front.
pub open spec fn keys_from(keys: Seq<Seq<u8>>, start: Seq<u8>) -> Seq<Seq<u8>>
    decreases keys.len(),
{
    if keys.len() == 0 {
        keys
    } else if key_lt(keys[0], start) {
        keys_from(keys.drop_first(), start)
    } else {
        keys
    }
}

/// At most the first `n` elements of `s`.
pub open spec fn first_n(s: Seq<Seq<u8>>, n: nat) -> Seq<Seq<u8>> {
    if n < s.len() {
        s.take(n as int)
    } else {
        s
    }
}

/// The keys that a range scan from `start` (inclusive), or from the
/// beginning, returns when bounded to `limit` keys.
pub open spec fn range_spec(keys: Seq<Seq<u8>>, start: Option<Seq<u8>>, limit: nat) -> Seq<Seq<u8>> {
    match start {
        Some(s) => first_n(keys_from(keys, s), limit),
        None => first_n(keys, limit),
    }
}

/// Each key sorts strictly before every key after it.
pub open spec fn strictly_ascending(keys: Seq<Seq<u8>>) -> bool {
    forall|i: int, j: int| 0 <= i < j < keys.len() ==> key_lt(#[trigger] keys[i], #[trigger] keys[j])
}

/// The value of the last record under `k` (the only one, where keys are unique).
spec fn lookup(entries: Seq<Record>, k: Seq<u8>) -> AuctionModel
    decreases entries.len(),
{
    if entries.len() == 0 {
        arbitrary()
    } else if entries.last().key@ == k {
        entries.last().value@
    } else {
        lookup(entries.drop_last(), k)
    }
}

proof fn lemma_lookup(entries: Seq<Record>, i: int)
    requires
        0 <= i < entries.len(),
        forall|j: int| 0 <= j < entries.len() && j != i ==> #[trigger] entries[j].key@ != entries[i].key@,
    ensures
        lookup(entries, entries[i].key@) == entries[i].value@,
    decreases entries.len(),
{
    if i != entries.len() - 1 {
        let d = entries.drop_last();
        assert(entries.last().key@ != entries[i].key@);
        assert forall|j: int| 0 <= j < d.len() && j != i implies #[trigger] d[j].key@ != d[i].key@ by {
            assert(d[j] == entries[j]);
        }
        lemma_lookup(d, i);
    }
}

impl AuctionStore {
    /// The stored keys, in ascending order.
    pub closed spec fn keys(&self) -> Seq<Seq<u8>> {
        self.entries@.map_values(|e: Record| e.key@)
    }

    pub closed spec fn namespace_spec(&self) -> Seq<char> {
        self.namespace@
    }

    pub closed spec fn wf(&self) -> bool {
        strictly_ascending(self.keys())
    }

    /// The stored records, by key.
    pub closed spec fn view(&self) -> Map<Seq<u8>, AuctionModel> {
        Map::new(|k: Seq<u8>| self.keys().contains(k), |k: Seq<u8>| lookup(self.entries@, k))
    }

    proof fn lemma_at(&self, i: int)
        requires
            self.wf(),
            0 <= i < self.entries@.len(),
        ensures
            self@.contains_key(self.entries@[i].key@),
            self@[self.entries@[i].key@] == self.entries@[i].value@,
    {
        let k = self.entries@[i].key@;
        assert(self.keys()[i] == k);
        assert forall|j: int| 0 <= j < self.entries@.len() && j != i implies #[trigger] self.entries@[j].key@ != k by {
            assert(self.keys()[j] == self.entries@[j].key@);
            lemma_key_lt_irreflexive(k);
        }
        lemma_lookup(self.entries@, i);
    }

    proof fn lemma_not_stored(&self, p: int, k: Seq<u8>)
        requires
            self.wf(),
            0 <= p <= self.entries@.len(),
            forall|j: int| 0 <= j < p ==> key_lt(#[trigger] self.keys()[j], k),
            forall|j: int| p <= j < self.entries@.len() ==> key_lt(k, #[trigger] self.keys()[j]),
        ensures
            !self@.contains_key(k),
    {
        if self.keys().contains(k) {
            let j = choose|j: int| 0 <= j < self.keys().len() && self.keys()[j] == k;
            lemma_key_lt_irreflexive(k);
        }
    }

    /// The keys enumerate the stored records exactly once each, in ascending order.
    pub proof fn lemma_keys_enumerate(&self)
        requires
            self.wf(),
        ensures
            strictly_ascending(self.keys()),
            forall|k: Seq<u8>| self@.contains_key(k) <==> self.keys().contains(k),
    {
    }

    /// An empty store for the given namespace.
    pub fn new(namespace: &str) -> (r: AuctionStore)
        ensures
            r.wf(),
            r@ == Map::<Seq<u8>, AuctionModel>::empty(),
            r.keys() == Seq::<Seq<u8>>::empty(),
            r.namespace_spec() == namespace@,
    {
        let r = AuctionStore { namespace: namespace.to_owned(), entries: Vec::new() };
        assert(r.keys() =~= Seq::<Seq<u8>>::empty());
        assert(r@ =~= Map::<Seq<u8>, AuctionModel>::empty());
        r
    }

    /// The namespace that isolates these records.
    pub fn namespace(&self) -> (r: &str)
        ensures
            r@ == self.namespace_spec(),
    {
        self.namespace.as_str()
    }

    /// Ok(i) where the key is stored at position i; Err(p) where it is not
    /// stored and p is the position where it would go.
    fn find(&self, key: &[u8]) -> (r: Result<usize, usize>)
        requires
            self.wf(),
        ensures
            match r {
                Ok(i) => i < self.entries@.len() && self.keys()[i as int] == key@,
                Err(p) => p <= self.entries@.len()
                    && (forall|j: int| 0 <= j < p ==> key_lt(#[trigger] self.keys()[j], key@))
                    && (forall|j: int| p <= j < self.entries@.len() ==> key_lt(key@, #[trigger] self.keys()[j])),
            },
    {
        let mut i: usize = 0;
        while i < self.entries.len() && key_less(self.entries[i].key.as_slice(), key)
            invariant
                self.wf(),
                i <= self.entries@.len(),
                forall|j: int| 0 <= j < i ==> key_lt(#[trigger] self.keys()[j], key@),
            decreases self.entries@.len() - i,
        {
            assert(self.keys()[i as int] == self.entries@[i as int].key@);
            i = i + 1;
        }
        if i < self.entries.len() {
            assert(self.keys()[i as int] == self.entries@[i as int].key@);
            proof {
                lemma_key_lt_total(self.keys()[i as int], key@);
            }
            if crate::keys::key_equal(self.entries[i].key.as_slice(), key) {
                return Ok(i);
            }
            assert forall|j: int| i <= j < self.entries@.len() implies key_lt(key@, #[trigger] self.keys()[j]) by {
                if j > i {
                    lemma_key_lt_transitive(key@, self.keys()[i as int], self.keys()[j]);
                }
            }
        }
        Err(i)
    }

    /// The record stored under `key`, if any.
    pub fn load(&self, key: &[u8]) -> (r: Option<&Auction>)
        requires
            self.wf(),
        ensures
            r is Some <==> self@.contains_key(key@),
            r is Some ==> r->0@ == self@[key@],
    {
        match self.find(key) {
            Ok(i) => {
                proof {
                    self.lemma_at(i as int);
                }
                Some(&self.entries[i].value)
            },
            Err(p) => {
                proof {
                    self.lemma_not_stored(p as int, key@);
                }
                None
            },
        }
    }

    /// Stores `value` under `key` unless a record is already there; an
    /// existing record is left as it was.
    pub fn conditional_create(&mut self, key: Vec<u8>, value: Auction) -> (r: Result<(), StoreError>)
        requires
            old(self).wf(),
        ensures
            final(self).wf(),
            final(self).namespace_spec() == old(self).namespace_spec(),
            old(self)@.contains_key(key@) ==> r == Err::<(), StoreError>(StoreError::AlreadyExists)
                && final(self)@ == old(self)@,
            !old(self)@.contains_key(key@) ==> r is Ok && final(self)@ == old(self)@.insert(key@, value@),
    {
        match self.find(key.as_slice()) {
            Ok(i) => {
                proof {
                    self.lemma_at(i as int);
                }
                Err(StoreError::AlreadyExists)
            },
            Err(p) => {
                let ghost old_store = *self;
                let ghost k = key@;
                let ghost v = value@;
                proof {
                    old_store.lemma_not_stored(p as int, k);
                }
                self.entries.insert(p, Record { key, value });
                proof {
                    let ne = self.entries@;
                    let oe = old_store.entries@;
                    assert(ne == oe.insert(p as int, ne[p as int]));
                    assert forall|a: int| 0 <= a < ne.len() implies #[trigger] self.keys()[a] == (if a < p {
                        old_store.keys()[a]
                    } else if a == p {
                        k
                    } else {
                        old_store.keys()[a - 1]
                    }) by {}
                    assert forall|a: int, b: int| 0 <= a < b < ne.len() implies key_lt(
                        #[trigger] self.keys()[a],
                        #[trigger] self.keys()[b],
                    ) by {
                        if a < p && b > p {
                            assert(key_lt(old_store.keys()[a], k));
                            assert(key_lt(k, old_store.keys()[b - 1]));
                            lemma_key_lt_transitive(old_store.keys()[a], k, old_store.keys()[b - 1]);
                        } else if a < p && b < p {
                            assert(key_lt(old_store.keys()[a], old_store.keys()[b]));
                        } else if a > p {
                            assert(key_lt(old_store.keys()[a - 1], old_store.keys()[b - 1]));
                        }
                    }
                    assert(self.wf());
                    assert forall|x: Seq<u8>| #[trigger] self@.contains_key(x) <==> old_store@.insert(k, v).contains_key(x) by {
                        if self.keys().contains(x) {
                            let a = choose|a: int| 0 <= a < self.keys().len() && self.keys()[a] == x;
                            if a < p {
                                assert(old_store.keys()[a] == x);
                            } else if a > p {
                                assert(old_store.keys()[a - 1] == x);
                            }
                        }
                        if old_store.keys().contains(x) {
                            let a = choose|a: int| 0 <= a < old_store.keys().len() && old_store.keys()[a] == x;
                            if a < p {
                                assert(self.keys()[a] == x);
                            } else {
                                assert(self.keys()[a + 1] == x);
                            }
                        }
                        if x == k {
                            assert(self.keys()[p as int] == x);
                        }
                    }
                    assert forall|x: Seq<u8>| #[trigger] self@.contains_key(x) implies self@[x] == old_store@.insert(k, v)[x] by {
                        let a = choose|a: int| 0 <= a < self.keys().len() && self.keys()[a] == x;
                        self.lemma_at(a);
                        if a < p {
                            old_store.lemma_at(a);
                            lemma_key_lt_total(x, k);
                        } else if a > p {
                            old_store.lemma_at(a - 1);
                            lemma_key_lt_total(x, k);
                        }
                    }
                    assert(self@ =~= old_store@.insert(k, v));
                }
                Ok(())
            },
        }
    }

    /// Replaces the record under `key` with `value` if one is there;
    /// otherwise nothing is written.
    pub fn conditional_update(&mut self, key: &[u8], value: Auction) -> (r: Result<(), StoreError>)
        requires
            old(self).wf(),
        ensures
            final(self).wf(),
            final(self).namespace_spec() == old(self).namespace_spec(),
            !old(self)@.contains_key(key@) ==> r == Err::<(), StoreError>(StoreError::NotFound)
                && final(self)@ == old(self)@,
            old(self)@.contains_key(key@) ==> r is Ok && final(self)@ == old(self)@.insert(key@, value@),
            final(self).keys() == old(self).keys(),
    {
        match self.find(key) {
            Err(p) => {
                proof {
                    self.lemma_not_stored(p as int, key@);
                }
                Err(StoreError::NotFound)
            },
            Ok(i) => {
                let ghost old_store = *self;
                let ghost v = value@;
                let stored_key = self.entries[i].key.clone();
                assert(stored_key@ =~= key@);
                self.entries[i] = Record { key: stored_key, value };
                proof {
                    assert forall|a: int| 0 <= a < self.entries@.len() implies #[trigger] self.keys()[a]
                        == old_store.keys()[a] by {}
                    assert(self.keys() =~= old_store.keys());
                    assert forall|x: Seq<u8>| #[trigger] self@.contains_key(x) implies self@[x] == old_store@.insert(key@, v)[x] by {
                        let a = choose|a: int| 0 <= a < self.keys().len() && self.keys()[a] == x;
                        self.lemma_at(a);
                        if a != i {
                            old_store.lemma_at(a);
                            assert(self.entries@[a] == old_store.entries@[a]);
                            if a < i {
                                assert(key_lt(old_store.keys()[a], old_store.keys()[i as int]));
                            } else {
                                assert(key_lt(old_store.keys()[i as int], old_store.keys()[a]));
                            }
                            lemma_key_lt_irreflexive(x);
                        }
                    }
                    old_store.lemma_at(i as int);
                    assert(self@ =~= old_store@.insert(key@, v));
                }
                Ok(())
            },
        }
    }

    /// The stored keys from `start` on (inclusive), or from the first key,
    /// in ascending order and at most `limit` of them.
    pub fn range(&self, start: Option<&[u8]>, limit: usize) -> (r: Vec<Vec<u8>>)
        requires
            self.wf(),
        ensures
            r@.map_values(|k: Vec<u8>| k@) == range_spec(
                self.keys(),
                match start {
                    Some(s) => Some(s@),
                    None => None,
                },
                limit as nat,
            ),
    {
        let ghost keys = self.keys();
        let mut p: usize = 0;
        match start {
            Some(s) => {
                assert(keys.skip(0) =~= keys);
                while p < self.entries.len() && key_less(self.entries[p].key.as_slice(), s)
                    invariant
                        p <= self.entries@.len(),
                        keys == self.keys(),
                        keys_from(keys, s@) == keys_from(keys.skip(p as int), s@),
                    decreases self.entries@.len() - p,
                {
                    assert(keys.skip(p as int).drop_first() =~= keys.skip(p + 1));
                    p = p + 1;
                }
                if p < self.entries.len() {
                    assert(keys.skip(p as int)[0] == self.entries@[p as int].key@);
                } else {
                    assert(keys.skip(p as int) =~= Seq::<Seq<u8>>::empty());
                }
            },
            None => {},
        }
        assert(range_spec(keys, match start { Some(s) => Some(s@), None => None }, limit as nat)
            == first_n(keys.skip(p as int), limit as nat));
        let mut out: Vec<Vec<u8>> = Vec::new();
        let mut i: usize = p;
        while i < self.entries.len() && out.len() < limit
            invariant
                p <= i <= self.entries@.len(),
                keys == self.keys(),
                out@.len() == i - p,
                out@.len() <= limit,
                out@.map_values(|k: Vec<u8>| k@) =~= keys.subrange(p as int, i as int),
            decreases self.entries@.len() - i,
        {
            let k = self.entries[i].key.clone();
            assert(k@ =~= keys[i as int]);
            out.push(k);
            i = i + 1;
            assert(out@.map_values(|k: Vec<u8>| k@) =~= keys.subrange(p as int, i as int));
        }
        assert(out@.map_values(|k: Vec<u8>| k@) =~= first_n(keys.skip(p as int), limit as nat));
        out
    }
}

/// The raw bytes of an optional key.
pub open spec fn opt_key(o: Option<Vec<u8>>) -> Option<Seq<u8>> {
    match o {
        Some(k) => Some(k@),
        None => None,
    }
}

/// Every one of `keys` is well-formed UTF-8 text.
pub open spec fn all_utf8(keys: Seq<Seq<u8>>) -> bool {
    forall|i: int| 0 <= i < keys.len() ==> valid_utf8(#[trigger] keys[i])
}

/// Relies on String::from_utf8, which accepts exactly the well-formed UTF-8
/// byte strings and keeps the characters that they encode.
#[verifier::external_body]
fn string_from_utf8(bytes: Vec<u8>) -> (r: Option<String>)
    ensures
        r is Some <==> valid_utf8(bytes@),
        r is Some ==> r->0@ == decode_utf8(bytes@),
{
    String::from_utf8(bytes).ok()
}

/// The auction names stored from key `start` on (inclusive), or from the
/// first, in ascending order and at most `limit` of them. A stored key that
/// is not UTF-8 text makes the whole listing fail.
pub fn all_auction_ids(store: &AuctionStore, start: Option<Vec<u8>>, limit: usize) -> (r: Result<
    Vec<String>,
    AuctionError,
>)
    requires
        store.wf(),
    ensures
        all_utf8(range_spec(store.keys(), opt_key(start), limit as nat)) ==> (r matches Ok(
            ids,
        ) && ids@.map_values(|s: String| s@) == range_spec(
            store.keys(),
            opt_key(start),
            limit as nat,
        ).map_values(|k: Seq<u8>| decode_utf8(k))),
        !all_utf8(range_spec(store.keys(), opt_key(start), limit as nat)) ==> (r matches Err(
            AuctionError::CorruptState { key },
        ) && range_spec(store.keys(), opt_key(start), limit as nat).contains(key@)
            && !valid_utf8(key@)),
{
    let keys = match &start {
        Some(s) => store.range(Some(s.as_slice()), limit),
        None => store.range(None, limit),
    };
    let ghost window = range_spec(store.keys(), opt_key(start), limit as nat);
    assert(keys@.map_values(|k: Vec<u8>| k@) == window);
    let mut ids: Vec<String> = Vec::new();
    let mut i: usize = 0;
    while i < keys.len()
        invariant
            i <= keys@.len(),
            keys@.map_values(|k: Vec<u8>| k@) == window,
            window == range_spec(store.keys(), opt_key(start), limit as nat),
            ids@.len() == i,
            forall|j: int| 0 <= j < i ==> valid_utf8(#[trigger] window[j]),
            ids@.map_values(|s: String| s@) =~= window.take(i as int).map_values(|k: Seq<u8>| decode_utf8(k)),
        decreases keys@.len() - i,
    {
        let key = keys[i].clone();
        assert(key@ =~= window[i as int]);
        match string_from_utf8(key) {
            Some(s) => {
                let ghost before = ids@;
                ids.push(s);
                assert(ids@ == before.push(s));
                assert(s@ == decode_utf8(window[i as int]));
                assert(ids@.map_values(|s: String| s@) =~= before.map_values(|s: String| s@).push(
                    decode_utf8(window[i as int]),
                ));
            },
            None => {
                let bad = keys[i].clone();
                assert(bad@ =~= window[i as int]);
                assert(window.len() == keys@.len());
                assert(!valid_utf8(window[i as int]));
                assert(window.contains(bad@));
                return Err(AuctionError::CorruptState { key: bad });
            },
        }
        assert(window.take(i + 1) =~= window.take(i as int).push(window[i as int]));
        i = i + 1;
        assert(ids@.map_values(|s: String| s@) =~= window.take(i as int).map_values(|k: Seq<u8>| decode_utf8(k)));
    }
    assert(window.take(i as int) =~= window);
    Ok(ids)
}

} // verus!

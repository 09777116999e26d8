//! The state cache of one simulation session: what was fetched from the
//! backing source stays, unchanged, until the session ends, and of the
//! requests for one key only the first is sent to the source.
//!
//! The cache decides; the caller does the fetching. `request` answers with
//! the memoized value, or tells the caller to fetch, or to wait for a fetch
//! that is under way; `complete` hands the fetched value in.

use vstd::prelude::*;
use crate::bytes::append_bytes;
use crate::types::{Address, U256};

verus! {

/// What a cache entry is about: an account, or one storage slot of it.
#[derive(Clone, Copy, Debug, PartialEq, Eq, Hash)]
pub struct CacheKey {
    pub address: Address,
    pub slot: Option<U256>,
}

/// A key as mathematical value: the address bytes and, for a storage slot,
/// the bytes of the slot number.
pub type KeyView = (Seq<u8>, Option<Seq<u8>>);

impl View for CacheKey {
    type V = KeyView;

    open spec fn view(&self) -> KeyView {
        (
            self.address@,
            match self.slot {
                Some(s) => Some(s.bytes@),
                None => None,
            },
        )
    }
}

impl CacheKey {
    /// The key of an account.
    pub fn account(address: Address) -> (r: CacheKey)
        ensures
            r@ == (address@, None::<Seq<u8>>),
    {
        CacheKey { address, slot: None }
    }

    /// The key of a storage slot of an account.
    pub fn storage(address: Address, slot: U256) -> (r: CacheKey)
        ensures
            r@ == (address@, Some(slot.bytes@)),
    {
        CacheKey { address, slot: Some(slot) }
    }

    /// Whether the two keys are the same.
    pub fn same(&self, other: &CacheKey) -> (r: bool)
        ensures
            r == (self@ == other@),
    {
        if !self.address.same(&other.address) {
            return false;
        }
        match (&self.slot, &other.slot) {
            (Some(a), Some(b)) => a.same(b),
            (None, None) => true,
            _ => false,
        }
    }
}

/// The cache as mathematical value: the memoized fragments, and the keys
/// whose fetch is under way.
pub struct CacheModel {
    pub values: Map<KeyView, Seq<u8>>,
    pub in_flight: Set<KeyView>,
}

/// The answer to a request, as mathematical value.
pub enum Answer {
    Hit(Seq<u8>),
    Fetch,
    Wait,
}

/// The answer to a request for `key`: the memoized value if there is one;
/// else `Wait` if a fetch for the key is under way; else `Fetch`.
pub open spec fn answer(m: CacheModel, key: KeyView) -> Answer {
    if m.values.contains_key(key) {
        Answer::Hit(m.values[key])
    } else if m.in_flight.contains(key) {
        Answer::Wait
    } else {
        Answer::Fetch
    }
}

/// The cache after a request for `key`: a request that is answered `Fetch`
/// puts the key in flight, and any other changes nothing.
pub open spec fn after_request(m: CacheModel, key: KeyView) -> CacheModel {
    if answer(m, key) is Fetch {
        CacheModel { values: m.values, in_flight: m.in_flight.insert(key) }
    } else {
        m
    }
}

/// The cache after the fetch for `key` came back with `value`: the key is
/// no longer in flight, and the value is memoized unless the key had one.
pub open spec fn after_complete(m: CacheModel, key: KeyView, value: Seq<u8>) -> CacheModel {
    CacheModel {
        values: if m.values.contains_key(key) {
            m.values
        } else {
            m.values.insert(key, value)
        },
        in_flight: m.in_flight.remove(key),
    }
}

/// How many of `n` requests for `key`, one after the other with no
/// completion between them, are answered `Fetch`.
pub open spec fn fetch_count(m: CacheModel, key: KeyView, n: nat) -> nat
    decreases n,
{
    if n == 0 {
        0
    } else {
        (if answer(m, key) is Fetch {
            1nat
        } else {
            0nat
        }) + fetch_count(after_request(m, key), key, (n - 1) as nat)
    }
}

/// Once a key is memoized or in flight, no request for it is answered
/// `Fetch`.
pub proof fn lemma_no_second_fetch(m: CacheModel, key: KeyView, n: nat)
    requires
        !(answer(m, key) is Fetch),
    ensures
        fetch_count(m, key, n) == 0,
    decreases n,
{
    if n > 0 {
        lemma_no_second_fetch(after_request(m, key), key, (n - 1) as nat);
    }
}

/// Single flight: of any number of requests for one key, at most one is
/// sent to the backing source; and exactly one, if there is a request at
/// all and the key was neither memoized nor in flight.
pub proof fn lemma_single_flight(m: CacheModel, key: KeyView, n: nat)
    ensures
        fetch_count(m, key, n) <= 1,
        n >= 1 && answer(m, key) is Fetch ==> fetch_count(m, key, n) == 1,
{
    if n > 0 {
        if answer(m, key) is Fetch {
            lemma_no_second_fetch(after_request(m, key), key, (n - 1) as nat);
        } else {
            lemma_no_second_fetch(m, key, n);
        }
    }
}

/// Memoization: what a key holds is never replaced, whatever is requested
/// or completed later, and a request for a memoized key is answered with
/// that value.
pub proof fn lemma_values_stay(m: CacheModel, key: KeyView, other: KeyView, value: Seq<u8>)
    requires
        m.values.contains_key(key),
    ensures
        after_request(m, other).values.contains_key(key),
        after_request(m, other).values[key] == m.values[key],
        after_complete(m, other, value).values.contains_key(key),
        after_complete(m, other, value).values[key] == m.values[key],
        answer(after_complete(m, other, value), key) == Answer::Hit(m.values[key]),
{
}

/// A completed fetch is memoized: every later request for the key is a hit
/// with the fetched value, if the key held none before.
pub proof fn lemma_complete_then_hit(m: CacheModel, key: KeyView, value: Seq<u8>)
    requires
        !m.values.contains_key(key),
    ensures
        answer(after_complete(m, key, value), key) == Answer::Hit(value),
{
}

/// One memoized fragment.
pub struct CacheEntry {
    pub key: CacheKey,
    pub value: Vec<u8>,
}

/// The value of the last entry for `key`, if there is one.
pub open spec fn find(entries: Seq<CacheEntry>, key: KeyView) -> Option<Seq<u8>>
    decreases entries.len(),
{
    if entries.len() == 0 {
        None
    } else if entries.last().key@ == key {
        Some(entries.last().value@)
    } else {
        find(entries.drop_last(), key)
    }
}

/// Whether `key` is among `keys`.
pub open spec fn among(keys: Seq<CacheKey>, key: KeyView) -> bool
    decreases keys.len(),
{
    if keys.len() == 0 {
        false
    } else {
        keys.last()@ == key || among(keys.drop_last(), key)
    }
}

/// What a request was answered with.
#[derive(Debug, PartialEq, Eq)]
pub enum Access {
    /// The memoized value.
    Hit(Vec<u8>),
    /// The caller is to fetch the value and hand it in with `complete`.
    Fetch,
    /// A fetch for this key is under way.
    Wait,
}

impl View for Access {
    type V = Answer;

    open spec fn view(&self) -> Answer {
        match self {
            Access::Hit(v) => Answer::Hit(v@),
            Access::Fetch => Answer::Fetch,
            Access::Wait => Answer::Wait,
        }
    }
}

/// The state cache of one session.
pub struct StateCache {
    entries: Vec<CacheEntry>,
    pending: Vec<CacheKey>,
}

impl View for StateCache {
    type V = CacheModel;

    closed spec fn view(&self) -> CacheModel {
        CacheModel {
            values: Map::new(
                |k: KeyView| find(self.entries@, k) is Some,
                |k: KeyView| find(self.entries@, k).unwrap(),
            ),
            in_flight: Set::new(|k: KeyView| among(self.pending@, k)),
        }
    }
}

impl StateCache {
    /// The cache at the start of a session: nothing memoized, nothing in
    /// flight.
    pub fn new() -> (r: StateCache)
        ensures
            r@.values == Map::<KeyView, Seq<u8>>::empty(),
            r@.in_flight == Set::<KeyView>::empty(),
    {
        let r = StateCache { entries: Vec::new(), pending: Vec::new() };
        assert(r@.values =~= Map::<KeyView, Seq<u8>>::empty());
        assert(r@.in_flight =~= Set::<KeyView>::empty());
        r
    }

    /// The memoized value of `key`, if there is one. The cache stays as it
    /// is.
    pub fn lookup(&self, key: &CacheKey) -> (r: Option<Vec<u8>>)
        ensures
            match r {
                Some(v) => self@.values.contains_key(key@) && self@.values[key@] == v@,
                None => !self@.values.contains_key(key@),
            },
    {
        let mut i: usize = self.entries.len();
        assert(self.entries@.subrange(0, i as int) =~= self.entries@);
        while i > 0
            invariant
                i <= self.entries.len(),
                find(self.entries@, key@) == find(self.entries@.subrange(0, i as int), key@),
            decreases i,
        {
            i = i - 1;
            let ghost prefix = self.entries@.subrange(0, i + 1);
            assert(prefix.drop_last() =~= self.entries@.subrange(0, i as int));
            assert(prefix.last() == self.entries@[i as int]);
            if self.entries[i].key.same(key) {
                let mut v: Vec<u8> = Vec::new();
                append_bytes(&mut v, self.entries[i].value.as_slice());
                assert(v@ =~= self.entries@[i as int].value@);
                return Some(v);
            }
        }
        None
    }

    /// Whether a fetch for `key` is under way.
    pub fn is_in_flight(&self, key: &CacheKey) -> (r: bool)
        ensures
            r == self@.in_flight.contains(key@),
    {
        let mut i: usize = self.pending.len();
        assert(self.pending@.subrange(0, i as int) =~= self.pending@);
        while i > 0
            invariant
                i <= self.pending.len(),
                among(self.pending@, key@) == among(self.pending@.subrange(0, i as int), key@),
            decreases i,
        {
            i = i - 1;
            let ghost prefix = self.pending@.subrange(0, i + 1);
            assert(prefix.drop_last() =~= self.pending@.subrange(0, i as int));
            assert(prefix.last() == self.pending@[i as int]);
            if self.pending[i].same(key) {
                return true;
            }
        }
        false
    }

    /// Asks for the value of `key`. Only a request that is answered
    /// `Fetch` changes the cache: it puts the key in flight.
    pub fn request(&mut self, key: &CacheKey) -> (r: Access)
        ensures
            r@ == answer(old(self)@, key@),
            final(self)@ == after_request(old(self)@, key@),
    {
        match self.lookup(key) {
            Some(v) => { return Access::Hit(v); },
            None => {},
        }
        if self.is_in_flight(key) {
            return Access::Wait;
        }
        let ghost before = self.pending@;
        self.pending.push(*key);
        proof {
            assert(self.pending@.drop_last() =~= before);
            assert(self@.in_flight =~= old(self)@.in_flight.insert(key@));
            assert(self@.values =~= old(self)@.values);
        }
        Access::Fetch
    }

    /// Hands in the value that the backing source returned for `key`. The
    /// key is no longer in flight; the value is memoized, unless the key
    /// holds one already, which then stays.
    pub fn complete(&mut self, key: &CacheKey, value: Vec<u8>)
        ensures
            final(self)@ == after_complete(old(self)@, key@, value@),
    {
        let mut rest: Vec<CacheKey> = Vec::new();
        let mut i: usize = 0;
        while i < self.pending.len()
            invariant
                i <= self.pending.len(),
                forall|k: KeyView|
                    among(rest@, k) == (among(self.pending@.subrange(0, i as int), k) && k
                        != key@),
            decreases self.pending.len() - i,
        {
            let ghost before = rest@;
            let ghost prefix = self.pending@.subrange(0, i + 1);
            assert(prefix.drop_last() =~= self.pending@.subrange(0, i as int));
            assert(prefix.last() == self.pending@[i as int]);
            if !self.pending[i].same(key) {
                rest.push(self.pending[i]);
                assert(rest@.drop_last() =~= before);
                assert(rest@.last() == self.pending@[i as int]);
            }
            assert forall|k: KeyView|
                among(rest@, k) == (among(prefix, k) && k != key@) by {
                assert(among(prefix, k) == (prefix.last()@ == k || among(prefix.drop_last(), k)));
                assert(among(before, k) == (among(prefix.drop_last(), k) && k != key@));
                if rest@.len() > 0 {
                    assert(among(rest@, k) == (rest@.last()@ == k || among(rest@.drop_last(), k)));
                }
            }
            i = i + 1;
        }
        assert(self.pending@.subrange(0, i as int) =~= self.pending@);
        let known = self.lookup(key).is_some();
        self.pending = rest;
        if !known {
            let ghost before = self.entries@;
            self.entries.push(CacheEntry { key: *key, value });
            assert(self.entries@.drop_last() =~= before);
        }
        proof {
            let goal = after_complete(old(self)@, key@, value@);
            assert(self@.in_flight =~= goal.in_flight);
            assert(self@.values =~= goal.values);
        }
    }
}

} // verus!

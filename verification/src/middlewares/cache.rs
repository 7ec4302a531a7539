//! The cache of one method: results by call, bounded in size.

use vstd::prelude::*;
use crate::middlewares::call::{clone_texts, same_texts, CallRequest, RequestView};
use crate::client::subscription::texts;

verus! {

/// One cached result as plain values.
pub struct EntryView {
    pub key: RequestView,
    pub value: Seq<char>,
}

/// The place of the first entry for `key`, or -1 where there is none.
pub open spec fn position(entries: Seq<EntryView>, key: RequestView) -> int
    decreases entries.len(),
{
    if entries.len() == 0 {
        -1
    } else if entries[0].key == key {
        0
    } else {
        let rest = position(entries.skip(1), key);
        if rest < 0 {
            -1
        } else {
            rest + 1
        }
    }
}

/// The cached result for `key`, if there is one.
pub open spec fn lookup(entries: Seq<EntryView>, key: RequestView) -> Option<Seq<char>> {
    let place = position(entries, key);
    if place < 0 {
        None
    } else {
        Some(entries[place].value)
    }
}

/// The entries after `value` was stored for `key` in a cache that holds at
/// most `capacity` of them: the entry for the key is replaced; a new key
/// joins at the end, and where the cache is full the oldest entry leaves for
/// it. A cache without room stores nothing.
pub open spec fn stored(entries: Seq<EntryView>, capacity: nat, key: RequestView, value: Seq<char>) -> Seq<
    EntryView,
> {
    let place = position(entries, key);
    let entry = EntryView { key, value };
    if capacity == 0 {
        entries
    } else if place >= 0 {
        entries.update(place, entry)
    } else if entries.len() >= capacity {
        entries.skip(1).push(entry)
    } else {
        entries.push(entry)
    }
}

/// `position` gives a place in the list that holds the key, and -1 only
/// where no entry holds it; no entry before the place holds it.
pub proof fn lemma_position(entries: Seq<EntryView>, key: RequestView)
    ensures
        -1 <= position(entries, key) < entries.len(),
        position(entries, key) >= 0 ==> entries[position(entries, key)].key == key,
        forall|j: int|
            0 <= j < entries.len() && (j < position(entries, key) || position(entries, key) < 0)
                ==> (#[trigger] entries[j]).key != key,
    decreases entries.len(),
{
    if entries.len() > 0 && entries[0].key != key {
        let rest = entries.skip(1);
        lemma_position(rest, key);
        assert forall|j: int|
            0 <= j < entries.len() && (j < position(entries, key) || position(entries, key) < 0)
            implies (#[trigger] entries[j]).key != key by {
            if j > 0 {
                assert(rest[j - 1] == entries[j]);
            }
        }
    }
}

/// The first place that holds the key is its position.
pub proof fn lemma_position_is(entries: Seq<EntryView>, key: RequestView, place: int)
    requires
        0 <= place < entries.len(),
        entries[place].key == key,
        forall|j: int| 0 <= j < place ==> (#[trigger] entries[j]).key != key,
    ensures
        position(entries, key) == place,
{
    lemma_position(entries, key);
}

/// What was stored is found: after a result was stored for a key in a cache
/// with room for at least one entry, the lookup of that key gives that
/// result.
pub proof fn lemma_stored_is_found(
    entries: Seq<EntryView>,
    capacity: nat,
    key: RequestView,
    value: Seq<char>,
)
    requires
        capacity > 0,
    ensures
        lookup(stored(entries, capacity, key, value), key) == Some(value),
        entries.len() <= capacity ==> stored(entries, capacity, key, value).len() <= capacity,
{
    lemma_position(entries, key);
    let after = stored(entries, capacity, key, value);
    let place = position(entries, key);
    if place >= 0 {
        lemma_position_is(after, key, place);
    } else if entries.len() >= capacity {
        assert forall|j: int| 0 <= j < after.len() - 1 implies (#[trigger] after[j]).key != key by {
            assert(after[j] == entries[j + 1]);
        }
        lemma_position_is(after, key, after.len() - 1);
    } else {
        lemma_position_is(after, key, after.len() - 1);
    }
}

/// A cached result.
#[derive(Debug)]
pub struct CacheEntry {
    method: String,
    params: Vec<String>,
    value: String,
}

impl View for CacheEntry {
    type V = EntryView;

    closed spec fn view(&self) -> EntryView {
        EntryView {
            key: RequestView { method: self.method@, params: texts(self.params@) },
            value: self.value@,
        }
    }
}

/// The entries of a list as plain values.
pub open spec fn entry_views(entries: Seq<CacheEntry>) -> Seq<EntryView> {
    entries.map_values(|entry: CacheEntry| entry@)
}

/// The results cached for one method.
#[derive(Debug)]
pub struct CacheStore {
    entries: Vec<CacheEntry>,
    capacity: usize,
}

impl CacheStore {
    /// The cached results, oldest first.
    pub closed spec fn entries(self) -> Seq<EntryView> {
        entry_views(self.entries@)
    }

    /// How many results the cache holds at most.
    pub closed spec fn capacity(self) -> nat {
        self.capacity as nat
    }

    /// An empty cache for at most `capacity` results.
    pub fn new(capacity: usize) -> (store: CacheStore)
        ensures
            store.entries() == Seq::<EntryView>::empty(),
            store.capacity() == capacity,
    {
        let store = CacheStore { entries: Vec::new(), capacity };
        assert(store.entries() =~= Seq::<EntryView>::empty());
        store
    }

    /// The number of cached results.
    pub fn len(&self) -> (n: usize)
        ensures
            n == self.entries().len(),
    {
        self.entries.len()
    }

    fn find(&self, request: &CallRequest) -> (place: Option<usize>)
        ensures
            match place {
                Some(k) => k < self.entries@.len() && k == position(self.entries(), request@),
                None => position(self.entries(), request@) < 0,
            },
    {
        let mut k: usize = 0;
        while k < self.entries.len()
            invariant
                k <= self.entries@.len(),
                forall|j: int| 0 <= j < k ==> (#[trigger] self.entries()[j]).key != request@,
            decreases self.entries@.len() - k,
        {
            let entry = &self.entries[k];
            assert(self.entries()[k as int] == entry@);
            if entry.method == request.method && same_texts(&entry.params, &request.params) {
                proof {
                    lemma_position_is(self.entries(), request@, k as int);
                }
                return Some(k);
            }
            k += 1;
        }
        proof {
            lemma_position(self.entries(), request@);
        }
        None
    }

    /// The cached result of the call, if there is one.
    pub fn get(&self, request: &CallRequest) -> (value: Option<String>)
        ensures
            crate::middlewares::context::optional_text(value) == lookup(self.entries(), request@),
    {
        match self.find(request) {
            Some(k) => {
                assert(self.entries()[k as int] == self.entries@[k as int]@);
                Some(self.entries[k].value.clone())
            },
            None => None,
        }
    }

    /// Stores `value` as the result of the call.
    pub fn put(&mut self, request: &CallRequest, value: &String)
        ensures
            final(self).capacity() == old(self).capacity(),
            final(self).entries() == stored(
                old(self).entries(),
                old(self).capacity(),
                request@,
                value@,
            ),
    {
        if self.capacity == 0 {
            return ;
        }
        let entry = CacheEntry {
            method: request.method.clone(),
            params: clone_texts(&request.params),
            value: value.clone(),
        };
        let ghost before = self.entries@;
        match self.find(request) {
            Some(k) => {
                self.entries.set(k, entry);
                assert(entry_views(self.entries@) =~= entry_views(before).update(k as int, entry@));
            },
            None => {
                if self.entries.len() >= self.capacity {
                    self.entries.remove(0);
                    self.entries.push(entry);
                    assert(entry_views(self.entries@) =~= entry_views(before).skip(1).push(entry@));
                } else {
                    self.entries.push(entry);
                    assert(entry_views(self.entries@) =~= entry_views(before).push(entry@));
                }
            },
        }
    }
}

} // verus!

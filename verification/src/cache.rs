//! The bounded, recency-ordered cache of item sets, one entry per wallet.
//!
//! A lookup that hits changes the recency order, so both operations take the
//! cache by `&mut`: there is no shared read path, and a caller that shares
//! the cache must give each operation exclusive access.

use crate::lru_specs::{
    entries_after_get, entries_after_put, has_key, key_index, lru_cap, lru_entries, lru_get,
    lru_new, lru_put, MAX_CAPACITY,
};
use crate::{ItemId, WalletId};
use lru::LruCache;
use std::collections::HashSet;
use vstd::prelude::*;

verus! {

/// The mathematical value of an [`ItemSetCache`]: its entries, most recently
/// used first, and the number of entries it may hold.
pub struct CacheView {
    pub entries: Seq<(WalletId, Set<ItemId>)>,
    pub capacity: nat,
}

impl CacheView {
    /// No wallet has two entries, and the entries are within the capacity.
    pub open spec fn wf(self) -> bool {
        &&& self.entries.len() <= self.capacity
        &&& forall|i: int, j: int|
            0 <= i < j < self.entries.len() ==> (#[trigger] self.entries[i]).0 != (
            #[trigger] self.entries[j]).0
    }

    /// An empty cache of the given capacity.
    pub open spec fn empty(capacity: nat) -> CacheView {
        CacheView { entries: Seq::empty(), capacity }
    }

    /// Whether the wallet has an entry.
    pub open spec fn contains(self, wallet_id: WalletId) -> bool {
        has_key(self.entries, wallet_id)
    }

    /// The item set held for a wallet that has an entry.
    pub open spec fn items(self, wallet_id: WalletId) -> Set<ItemId> {
        self.entries[key_index(self.entries, wallet_id)].1
    }

    /// The wallets that have an entry, most recently used first.
    pub open spec fn keys(self) -> Seq<WalletId> {
        Seq::new(self.entries.len(), |i: int| self.entries[i].0)
    }

    /// What a lookup returns: the item set of a wallet that has an entry.
    pub open spec fn found(self, wallet_id: WalletId) -> Option<Set<ItemId>> {
        if self.contains(wallet_id) {
            Some(self.items(wallet_id))
        } else {
            None
        }
    }

    /// The cache after a lookup: a hit makes the entry the most recently
    /// used one, a miss changes nothing.
    pub open spec fn lookup(self, wallet_id: WalletId) -> CacheView {
        CacheView { entries: entries_after_get(self.entries, wallet_id), capacity: self.capacity }
    }

    /// The cache after an insert: the wallet's entry holds `items` and is
    /// the most recently used one; a new wallet in a full cache pushes out
    /// the least recently used entry.
    pub open spec fn insert(self, wallet_id: WalletId, items: Set<ItemId>) -> CacheView {
        CacheView {
            entries: entries_after_put(self.entries, self.capacity, wallet_id, items),
            capacity: self.capacity,
        }
    }

    /// A lookup keeps a well-formed cache well-formed, keeps every item set,
    /// and neither adds nor drops a wallet: a hit only moves the wallet to
    /// the front, a miss changes nothing.
    pub proof fn lemma_lookup(self, wallet_id: WalletId)
        requires
            self.wf(),
        ensures
            self.lookup(wallet_id).wf(),
            forall|w: WalletId| self.lookup(wallet_id).contains(w) == self.contains(w),
            forall|w: WalletId|
                self.contains(w) ==> self.lookup(wallet_id).items(w) == self.items(w),
            self.contains(wallet_id) ==> self.lookup(wallet_id).entries[0] == (
                wallet_id,
                self.items(wallet_id),
            ),
            !self.contains(wallet_id) ==> self.lookup(wallet_id) == self,
    {
        let after = self.lookup(wallet_id);
        if self.contains(wallet_id) {
            let at = key_index(self.entries, wallet_id);
            let rest = self.entries.remove(at);
            assert(after.entries =~= seq![self.entries[at]] + rest);
            assert forall|i: int| 0 <= i < after.entries.len() implies after.entries[i]
                == self.entries[moved_from(at, i)] by {}
            assert forall|w: WalletId| after.contains(w) == self.contains(w) by {
                if self.contains(w) {
                    let i = key_index(self.entries, w);
                    assert(after.entries[moved_to(at, i)].0 == w);
                }
                if after.contains(w) {
                    let i = key_index(after.entries, w);
                    assert(self.entries[moved_from(at, i)].0 == w);
                }
            }
            assert forall|w: WalletId| self.contains(w) implies after.items(w) == self.items(
                w,
            ) by {
                let i = key_index(self.entries, w);
                assert(after.entries[moved_to(at, i)].0 == w);
                let j = key_index(after.entries, w);
                assert(self.entries[moved_from(at, j)].0 == w);
            }
        }
    }

    /// An insert keeps a well-formed cache well-formed. In a cache that can
    /// hold anything, the wallet then has an entry with exactly `items`;
    /// every other wallet keeps its item set where it keeps its entry, and
    /// no other wallet gains one.
    pub proof fn lemma_insert(self, wallet_id: WalletId, items: Set<ItemId>)
        requires
            self.wf(),
        ensures
            self.insert(wallet_id, items).wf(),
            self.capacity > 0 ==> self.insert(wallet_id, items).contains(wallet_id)
                && self.insert(wallet_id, items).items(wallet_id) == items
                && self.insert(wallet_id, items).entries[0] == (wallet_id, items),
            self.capacity == 0 ==> self.insert(wallet_id, items) == self,
            forall|w: WalletId|
                w != wallet_id && self.insert(wallet_id, items).contains(w) ==> self.contains(w)
                    && self.insert(wallet_id, items).items(w) == self.items(w),
            forall|w: WalletId|
                w != wallet_id && self.contains(w) && (self.contains(wallet_id)
                    || self.entries.len() < self.capacity || self.entries.last().0 != w)
                    ==> self.insert(wallet_id, items).contains(w),
    {
        let after = self.insert(wallet_id, items);
        if self.contains(wallet_id) {
            let at = key_index(self.entries, wallet_id);
            assert(after.entries =~= seq![(wallet_id, items)] + self.entries.remove(at));
            assert forall|i: int| 1 <= i < after.entries.len() implies after.entries[i]
                == self.entries[moved_from(at, i)] by {}
            assert(after.entries[0].0 == wallet_id);
            assert(key_index(after.entries, wallet_id) == 0) by {
                let k = key_index(after.entries, wallet_id);
                if k != 0 {
                    assert(after.entries[k] == self.entries[moved_from(at, k)]);
                }
            }
            assert forall|w: WalletId| w != wallet_id && after.contains(w) implies self.contains(
                w,
            ) && after.items(w) == self.items(w) by {
                let j = key_index(after.entries, w);
                assert(self.entries[moved_from(at, j)].0 == w);
            }
            assert forall|w: WalletId| w != wallet_id && self.contains(w) implies after.contains(
                w,
            ) by {
                let i = key_index(self.entries, w);
                assert(after.entries[moved_to(at, i)].0 == w);
            }
        } else if self.capacity == 0 {
        } else {
            let kept = if self.entries.len() == self.capacity {
                self.entries.drop_last()
            } else {
                self.entries
            };
            assert(after.entries =~= seq![(wallet_id, items)] + kept);
            assert forall|i: int| 1 <= i < after.entries.len() implies after.entries[i]
                == self.entries[i - 1] by {}
            assert(after.entries[0].0 == wallet_id);
            assert(key_index(after.entries, wallet_id) == 0) by {
                let k = key_index(after.entries, wallet_id);
                if k != 0 {
                    assert(after.entries[k] == self.entries[k - 1]);
                }
            }
            assert forall|w: WalletId| w != wallet_id && after.contains(w) implies self.contains(
                w,
            ) && after.items(w) == self.items(w) by {
                let j = key_index(after.entries, w);
                assert(self.entries[j - 1].0 == w);
            }
            assert forall|w: WalletId|
                w != wallet_id && self.contains(w) && (self.entries.len() < self.capacity
                    || self.entries.last().0 != w) implies after.contains(w) by {
                let i = key_index(self.entries, w);
                assert(after.entries[i + 1].0 == w);
            }
        }
    }

    /// An insert is idempotent: to insert the same item set for the same
    /// wallet a second time changes nothing.
    pub proof fn lemma_insert_twice(self, wallet_id: WalletId, items: Set<ItemId>)
        requires
            self.wf(),
        ensures
            self.insert(wallet_id, items).insert(wallet_id, items) == self.insert(
                wallet_id,
                items,
            ),
    {
        self.lemma_insert(wallet_id, items);
        let once = self.insert(wallet_id, items);
        if self.capacity > 0 {
            assert(once.entries[0].0 == wallet_id);
            let at = key_index(once.entries, wallet_id);
            assert(at == 0);
            assert(once.insert(wallet_id, items).entries =~= once.entries);
        }
    }
}

/// Where the entry at `i` stood before the entry at `at` moved to the front.
spec fn moved_from(at: int, i: int) -> int {
    if i == 0 {
        at
    } else if i <= at {
        i - 1
    } else {
        i
    }
}

/// Where the entry at `i` stands after the entry at `at` moved to the front.
spec fn moved_to(at: int, i: int) -> int {
    if i == at {
        0
    } else if i < at {
        i + 1
    } else {
        i
    }
}

/// A bounded map from wallet to item set that forgets the least recently
/// used wallet when it is full.
pub struct ItemSetCache {
    cache: LruCache<WalletId, HashSet<ItemId>>,
}

impl View for ItemSetCache {
    type V = CacheView;

    closed spec fn view(&self) -> CacheView {
        CacheView { entries: lru_entries(self.cache), capacity: lru_cap(self.cache) }
    }
}

impl ItemSetCache {
    /// Every cache is well-formed.
    #[verifier::type_invariant]
    pub open spec fn inv(self) -> bool {
        self@.wf()
    }

    /// An empty cache that holds at most `capacity` wallets.
    pub fn new(capacity: usize) -> (cache: Self)
        requires
            capacity <= MAX_CAPACITY,
        ensures
            cache@ == CacheView::empty(capacity as nat),
            cache@.wf(),
    {
        ItemSetCache { cache: lru_new(capacity) }
    }

    /// The item set held for the wallet, if it has an entry; a hit makes the
    /// entry the most recently used one.
    pub fn lookup(&mut self, wallet_id: WalletId) -> (found: Option<HashSet<ItemId>>)
        ensures
            final(self)@ == old(self)@.lookup(wallet_id),
            final(self)@.wf(),
            match found {
                Some(items) => old(self)@.found(wallet_id) == Some(items@),
                None => old(self)@.found(wallet_id) is None,
            },
    {
        proof {
            use_type_invariant(&*self);
            self@.lemma_lookup(wallet_id);
        }
        lru_get(&mut self.cache, wallet_id)
    }

    /// Holds `items` for the wallet, as the most recently used entry; a new
    /// wallet in a full cache pushes out the least recently used one.
    pub fn insert(&mut self, wallet_id: WalletId, items: HashSet<ItemId>)
        ensures
            final(self)@ == old(self)@.insert(wallet_id, items@),
            final(self)@.wf(),
    {
        proof {
            use_type_invariant(&*self);
            self@.lemma_insert(wallet_id, items@);
        }
        lru_put(&mut self.cache, wallet_id, items);
    }
}

} // verus!

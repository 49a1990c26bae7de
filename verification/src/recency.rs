//! Which wallets the cache holds: the most recently touched ones.
//!
//! A wallet is touched when it is inserted and when a lookup finds it. The
//! wallets ever touched, ordered by their last touch, form a list without
//! bound; the cache holds the front of that list, as far as its capacity
//! goes, in the same order. So a wallet leaves the cache only when as many
//! other wallets as the cache can hold were touched after it.

use crate::cache::CacheView;
use crate::lru_specs::key_index;
use crate::{ItemId, WalletId};
use vstd::prelude::*;

verus! {

/// One operation on the cache.
pub enum Access {
    Lookup(WalletId),
    Insert(WalletId, Set<ItemId>),
}

impl Access {
    /// The wallet that the operation names.
    pub open spec fn wallet(self) -> WalletId {
        match self {
            Access::Lookup(wallet_id) => wallet_id,
            Access::Insert(wallet_id, _) => wallet_id,
        }
    }
}

/// The cache after an operation.
pub open spec fn access(cache: CacheView, a: Access) -> CacheView {
    match a {
        Access::Lookup(wallet_id) => cache.lookup(wallet_id),
        Access::Insert(wallet_id, items) => cache.insert(wallet_id, items),
    }
}

/// Whether an operation touches its wallet: every insert does, a lookup
/// where it finds the wallet.
pub open spec fn touches(cache: CacheView, a: Access) -> bool {
    match a {
        Access::Lookup(wallet_id) => cache.contains(wallet_id),
        Access::Insert(_, _) => true,
    }
}

/// The cache after a run of operations, the first of them first.
pub open spec fn replay(cache: CacheView, accesses: Seq<Access>) -> CacheView
    decreases accesses.len(),
{
    if accesses.len() == 0 {
        cache
    } else {
        access(replay(cache, accesses.drop_last()), accesses.last())
    }
}

/// The wallets that a run of operations touched, in the order of the
/// touches, a wallet as often as it was touched.
pub open spec fn touched(cache: CacheView, accesses: Seq<Access>) -> Seq<WalletId>
    decreases accesses.len(),
{
    if accesses.len() == 0 {
        Seq::empty()
    } else {
        let earlier = touched(cache, accesses.drop_last());
        if touches(replay(cache, accesses.drop_last()), accesses.last()) {
            earlier.push(accesses.last().wallet())
        } else {
            earlier
        }
    }
}

/// A list of wallets after one of them was touched: that wallet stands
/// first, the others keep their order.
pub open spec fn move_to_front(order: Seq<WalletId>, wallet_id: WalletId) -> Seq<WalletId> {
    if order.contains(wallet_id) {
        seq![wallet_id] + order.remove(order.index_of(wallet_id))
    } else {
        seq![wallet_id] + order
    }
}

/// The wallets of a history of touches, each once, ordered by their last
/// touch: the wallet touched last stands first.
pub open spec fn recency(history: Seq<WalletId>) -> Seq<WalletId>
    decreases history.len(),
{
    if history.len() == 0 {
        Seq::empty()
    } else {
        move_to_front(recency(history.drop_last()), history.last())
    }
}

/// The first `n` wallets of a list, or all of them where there are fewer.
pub open spec fn front(order: Seq<WalletId>, n: nat) -> Seq<WalletId> {
    if order.len() <= n {
        order
    } else {
        order.take(n as int)
    }
}

/// The `n` wallets most recently touched in a history, or all that were
/// touched where there are fewer; the wallet touched last stands first.
pub open spec fn most_recent(history: Seq<WalletId>, n: nat) -> Seq<WalletId> {
    front(recency(history), n)
}

/// Moving a wallet to the front of a list without repeats gives a list
/// without repeats that holds the wallet and what the list held.
pub proof fn lemma_move_to_front(order: Seq<WalletId>, wallet_id: WalletId)
    requires
        order.no_duplicates(),
    ensures
        move_to_front(order, wallet_id).no_duplicates(),
        move_to_front(order, wallet_id)[0] == wallet_id,
        forall|w: WalletId|
            move_to_front(order, wallet_id).contains(w) <==> w == wallet_id || order.contains(w),
{
    let moved = move_to_front(order, wallet_id);
    if order.contains(wallet_id) {
        let at = order.index_of(wallet_id);
        assert forall|i: int| 1 <= i < moved.len() implies moved[i] == order[if i <= at {
            i - 1
        } else {
            i
        }] by {}
        assert forall|w: WalletId| moved.contains(w) <==> w == wallet_id || order.contains(
            w,
        ) by {
            if moved.contains(w) {
                let i = choose|i: int| 0 <= i < moved.len() && moved[i] == w;
                if i > 0 {
                    assert(order[if i <= at {
                        i - 1
                    } else {
                        i
                    }] == w);
                }
            }
            if order.contains(w) && w != wallet_id {
                let i = choose|i: int| 0 <= i < order.len() && order[i] == w;
                assert(moved[if i < at {
                    i + 1
                } else {
                    i
                }] == w);
            }
            if w == wallet_id {
                assert(moved[0] == w);
            }
        }
    } else {
        assert forall|i: int| 1 <= i < moved.len() implies moved[i] == order[i - 1] by {}
        assert forall|w: WalletId| moved.contains(w) <==> w == wallet_id || order.contains(
            w,
        ) by {
            if moved.contains(w) {
                let i = choose|i: int| 0 <= i < moved.len() && moved[i] == w;
                if i > 0 {
                    assert(order[i - 1] == w);
                }
            }
            if order.contains(w) {
                let i = choose|i: int| 0 <= i < order.len() && order[i] == w;
                assert(moved[i + 1] == w);
            }
            if w == wallet_id {
                assert(moved[0] == w);
            }
        }
    }
}

/// The recency list of a history holds exactly the wallets of the history,
/// none twice, and begins with the wallet touched last.
pub proof fn lemma_recency(history: Seq<WalletId>)
    ensures
        recency(history).no_duplicates(),
        forall|w: WalletId| recency(history).contains(w) <==> history.contains(w),
        history.len() > 0 ==> recency(history)[0] == history.last(),
    decreases history.len(),
{
    if history.len() > 0 {
        let earlier = history.drop_last();
        lemma_recency(earlier);
        lemma_move_to_front(recency(earlier), history.last());
        assert forall|w: WalletId| recency(history).contains(w) <==> history.contains(w) by {
            if history.contains(w) {
                let i = choose|i: int| 0 <= i < history.len() && history[i] == w;
                if i < history.len() - 1 {
                    assert(earlier[i] == w);
                }
            }
            if earlier.contains(w) {
                let i = choose|i: int| 0 <= i < earlier.len() && earlier[i] == w;
                assert(history[i] == w);
            }
            if w == history.last() {
                assert(history[history.len() - 1] == w);
            }
        }
    }
}

/// An operation that touches its wallet moves the wallet to the front of
/// the cache as it does in the list without bound; one that does not leaves
/// the cache as it was.
proof fn lemma_access(cache: CacheView, order: Seq<WalletId>, a: Access)
    requires
        cache.wf(),
        order.no_duplicates(),
        cache.keys() == front(order, cache.capacity),
    ensures
        access(cache, a).wf(),
        touches(cache, a) ==> access(cache, a).keys() == front(
            move_to_front(order, a.wallet()),
            cache.capacity,
        ),
        !touches(cache, a) ==> access(cache, a) == cache,
{
    let wallet_id = a.wallet();
    let after = access(cache, a);
    let keys = cache.keys();
    let moved = move_to_front(order, wallet_id);
    match a {
        Access::Lookup(_) => cache.lemma_lookup(wallet_id),
        Access::Insert(_, items) => cache.lemma_insert(wallet_id, items),
    }
    let target = front(moved, cache.capacity);
    assert forall|j: int| 0 <= j < keys.len() implies keys[j] == order[j] && keys[j]
        == cache.entries[j].0 by {}
    if cache.contains(wallet_id) {
        let at = key_index(cache.entries, wallet_id);
        assert(keys[at] == wallet_id);
        assert(order[at] == wallet_id);
        assert(order.index_of(wallet_id) == at);
        assert(moved =~= seq![wallet_id] + order.remove(at));
        assert(after.entries.len() == cache.entries.len());
        assert(after.entries[0].0 == wallet_id);
        assert(target.len() == after.keys().len());
        assert forall|j: int| 0 <= j < target.len() implies after.keys()[j] == target[j] by {
            if j > 0 {
                let from = if j <= at {
                    j - 1
                } else {
                    j
                };
                assert(after.entries[j] == cache.entries[from]);
                assert(moved[j] == order[from]);
            }
        }
        assert(after.keys() =~= target);
    } else if a is Insert {
        if order.contains(wallet_id) {
            let at = order.index_of(wallet_id);
            if at < keys.len() {
                assert(cache.entries[at].0 == wallet_id);
            }
            assert(moved =~= seq![wallet_id] + order.remove(at));
        }
        if cache.capacity == 0 {
            assert(after.keys() =~= target);
        } else {
            assert(after.entries[0].0 == wallet_id);
            if cache.entries.len() == cache.capacity {
                assert(after.entries.len() == cache.capacity);
                assert(moved.len() >= cache.capacity);
            } else {
                assert(after.entries.len() == cache.entries.len() + 1);
                assert(order.len() == keys.len());
                assert(!order.contains(wallet_id));
            }
            assert(target.len() == after.keys().len());
            assert forall|j: int| 0 <= j < target.len() implies after.keys()[j] == target[j] by {
                if j > 0 {
                    assert(after.entries[j] == cache.entries[j - 1]);
                    assert(moved[j] == order[j - 1]);
                }
            }
            assert(after.keys() =~= target);
        }
    } else {
        assert(after =~= cache);
    }
}

/// The cache holds the wallets most recently touched: after any run of
/// operations on an empty cache, its wallets are the most recently touched
/// ones, as many as its capacity allows, the one touched last first.
pub proof fn lemma_cache_holds_most_recent(capacity: nat, accesses: Seq<Access>)
    ensures
        replay(CacheView::empty(capacity), accesses).wf(),
        replay(CacheView::empty(capacity), accesses).keys() == most_recent(
            touched(CacheView::empty(capacity), accesses),
            capacity,
        ),
    decreases accesses.len(),
{
    let empty = CacheView::empty(capacity);
    if accesses.len() == 0 {
        assert(empty.keys() =~= Seq::<WalletId>::empty());
    } else {
        let earlier = accesses.drop_last();
        lemma_cache_holds_most_recent(capacity, earlier);
        let cache = replay(empty, earlier);
        assert(cache.capacity == capacity) by {
            lemma_capacity_stays(empty, earlier);
        }
        let history = touched(empty, earlier);
        lemma_recency(history);
        lemma_access(cache, recency(history), accesses.last());
        if touches(cache, accesses.last()) {
            assert(history.push(accesses.last().wallet()).drop_last() =~= history);
        }
    }
}

/// No operation changes the capacity.
pub proof fn lemma_capacity_stays(cache: CacheView, accesses: Seq<Access>)
    ensures
        replay(cache, accesses).capacity == cache.capacity,
    decreases accesses.len(),
{
    if accesses.len() > 0 {
        lemma_capacity_stays(cache, accesses.drop_last());
    }
}

} // verus!

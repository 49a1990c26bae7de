//! Whole requests, run against a store that answers truthfully, and what
//! holds of them when one request ends before the next begins.
//!
//! The cache is called coherent with the store when every entry it holds is
//! the item set that the store holds for that wallet. Requests that run one
//! after another keep it so, and a coherent cache is invisible: every answer
//! is the one that the store alone would give. Requests that interleave can
//! lose an addition; [`lemma_interleaved_additions`] says which.

use crate::cache::CacheView;
use crate::db::{store_find, store_insert, store_replace, FindOutcomeView, StoreView};
use crate::error::{lemma_messages_differ, ErrorView};
use crate::handlers::{
    spec_add_item_handler, spec_create_wallet_handler, spec_items_replaced,
    spec_retrieve_item_handler, spec_wallet_found, spec_wallet_inserted, Purpose, ResponseView,
    StepView,
};
use crate::{ItemId, WalletId, WalletView};
use vstd::prelude::*;

verus! {

/// The cache and the store after a request, and the request's answer.
pub struct Outcome {
    pub cache: CacheView,
    pub store: StoreView,
    pub response: ResponseView,
}

/// Runs a request from a step that asks for no read to its answer: the
/// write that the step asks for is made on the store, and the store's answer
/// handed on. No request reads twice, so nothing is said of a read here.
pub open spec fn settle_write(cache: CacheView, store: StoreView, step: StepView) -> Outcome {
    match step {
        StepView::Insert(wallet_id) => {
            let (store, outcome) = store_insert(
                store,
                WalletView { id: wallet_id, items: Seq::empty() },
            );
            let (cache, response) = spec_wallet_inserted(cache, wallet_id, outcome);
            Outcome { cache, store, response }
        },
        StepView::Replace(wallet_id, wallet, item_id) => {
            let (store, outcome) = store_replace(
                store,
                WalletView { id: wallet_id, items: wallet.items },
            );
            let (cache, response) = spec_items_replaced(cache, wallet_id, wallet, item_id, outcome);
            Outcome { cache, store, response }
        },
        StepView::Reply(response) => Outcome { cache, store, response },
        StepView::Find(_, _) => Outcome { cache, store, response: arbitrary() },
    }
}

/// Runs a request from the given step to its answer: each call that a step
/// asks for is made on the store, and the store's answer handed on.
pub open spec fn settle(cache: CacheView, store: StoreView, step: StepView) -> Outcome {
    match step {
        StepView::Find(wallet_id, purpose) => {
            let (cache, next) = spec_wallet_found(
                cache,
                wallet_id,
                purpose,
                store_find(store, wallet_id),
            );
            settle_write(cache, store, next)
        },
        _ => settle_write(cache, store, step),
    }
}

/// No request reads twice: the step after a read is a write or the answer.
pub proof fn lemma_one_read(
    cache: CacheView,
    wallet_id: WalletId,
    purpose: Purpose,
    outcome: FindOutcomeView,
)
    ensures
        !(spec_wallet_found(cache, wallet_id, purpose, outcome).1 is Find),
{
}

/// The creation of a wallet, from request to answer.
pub open spec fn create_wallet(cache: CacheView, store: StoreView, wallet_id: WalletId) -> Outcome {
    let (cache, step) = spec_create_wallet_handler(cache, wallet_id);
    settle(cache, store, step)
}

/// The addition of an item to a wallet, from request to answer.
pub open spec fn add_item(
    cache: CacheView,
    store: StoreView,
    wallet_id: WalletId,
    item_id: ItemId,
) -> Outcome {
    settle(cache, store, spec_add_item_handler(wallet_id, item_id))
}

/// The question whether a wallet owns an item, from request to answer.
pub open spec fn has_item(
    cache: CacheView,
    store: StoreView,
    wallet_id: WalletId,
    item_id: ItemId,
) -> Outcome {
    let (cache, step) = spec_retrieve_item_handler(cache, wallet_id, item_id);
    settle(cache, store, step)
}

/// Every entry of the cache is the item set that the store holds for that
/// wallet.
pub open spec fn coherent(cache: CacheView, store: StoreView) -> bool {
    forall|w: WalletId| #[trigger]
        cache.contains(w) ==> store.contains_key(w) && cache.items(w) == store[w].to_set()
}

/// What the store alone answers to a membership question.
pub open spec fn store_answer(
    store: StoreView,
    wallet_id: WalletId,
    item_id: ItemId,
) -> ResponseView {
    if store.contains_key(wallet_id) {
        ResponseView::membership(store[wallet_id].to_set(), item_id)
    } else {
        ResponseView::failure(ErrorView::NoSuchWallet)
    }
}

/// An empty cache is coherent with every store.
pub proof fn lemma_empty_coherent(capacity: nat, store: StoreView)
    ensures
        CacheView::empty(capacity).wf(),
        coherent(CacheView::empty(capacity), store),
{
}

/// Holding a wallet's stored item set in the cache keeps the cache coherent,
/// where every other entry agrees with the store already.
proof fn lemma_fill_coherent(cache: CacheView, store: StoreView, wallet_id: WalletId)
    requires
        cache.wf(),
        store.contains_key(wallet_id),
        forall|w: WalletId|
            w != wallet_id && #[trigger] cache.contains(w) ==> store.contains_key(w)
                && cache.items(w) == store[w].to_set(),
    ensures
        cache.insert(wallet_id, store[wallet_id].to_set()).wf(),
        coherent(cache.insert(wallet_id, store[wallet_id].to_set()), store),
{
    let items = store[wallet_id].to_set();
    cache.lemma_insert(wallet_id, items);
    let after = cache.insert(wallet_id, items);
    assert forall|w: WalletId| #[trigger] after.contains(w) implies store.contains_key(w)
        && after.items(w) == store[w].to_set() by {
        if w == wallet_id {
            if cache.capacity == 0 {
                assert(cache.entries.len() == 0);
                assert(!after.contains(w));
            }
        } else {
            assert(cache.contains(w));
        }
    }
}

/// A lookup keeps a coherent cache coherent.
proof fn lemma_lookup_coherent(cache: CacheView, store: StoreView, wallet_id: WalletId)
    requires
        cache.wf(),
        coherent(cache, store),
    ensures
        cache.lookup(wallet_id).wf(),
        coherent(cache.lookup(wallet_id), store),
{
    cache.lemma_lookup(wallet_id);
    let after = cache.lookup(wallet_id);
    assert forall|w: WalletId| #[trigger] after.contains(w) implies store.contains_key(w)
        && after.items(w) == store[w].to_set() by {
        assert(cache.contains(w));
    }
}

/// The creation of a wallet that the store does not hold succeeds: the
/// store then holds the wallet with no items, and nothing else changed.
/// The creation of a wallet that the store holds fails and changes nothing
/// in the store. Either way the cache stays coherent.
pub proof fn lemma_create_wallet(cache: CacheView, store: StoreView, wallet_id: WalletId)
    requires
        cache.wf(),
        coherent(cache, store),
    ensures
        create_wallet(cache, store, wallet_id).cache.wf(),
        coherent(
            create_wallet(cache, store, wallet_id).cache,
            create_wallet(cache, store, wallet_id).store,
        ),
        !store.contains_key(wallet_id) ==> create_wallet(cache, store, wallet_id).response
            == ResponseView::created(wallet_id) && create_wallet(cache, store, wallet_id).store
            == store.insert(wallet_id, Seq::empty()),
        store.contains_key(wallet_id) ==> create_wallet(cache, store, wallet_id).response
            == ResponseView::failure(ErrorView::WalletAlreadyExists) && create_wallet(
            cache,
            store,
            wallet_id,
        ).store == store,
{
    lemma_lookup_coherent(cache, store, wallet_id);
    let looked = cache.lookup(wallet_id);
    if !cache.contains(wallet_id) && !store.contains_key(wallet_id) {
        let grown = store.insert(wallet_id, Seq::empty());
        assert(Seq::<ItemId>::empty().to_set() =~= Set::<ItemId>::empty());
        assert forall|w: WalletId|
            w != wallet_id && #[trigger] looked.contains(w) implies grown.contains_key(w)
            && looked.items(w) == grown[w].to_set() by {}
        lemma_fill_coherent(looked, grown, wallet_id);
    }
}

/// The addition of an item succeeds exactly for a wallet that the store
/// holds and that does not own the item: the item then stands at the end of
/// the wallet's list, and nothing else changed. A wallet that the store
/// does not hold, or that owns the item, is refused with the failure named,
/// and the store stays as it was. The cache has no say in this: the wallet
/// is read from the store.
pub proof fn lemma_add_item(
    cache: CacheView,
    store: StoreView,
    wallet_id: WalletId,
    item_id: ItemId,
)
    ensures
        !store.contains_key(wallet_id) ==> add_item(cache, store, wallet_id, item_id).response
            == ResponseView::failure(ErrorView::NoSuchWallet) && add_item(
            cache,
            store,
            wallet_id,
            item_id,
        ).store == store,
        store.contains_key(wallet_id) && store[wallet_id].contains(item_id) ==> add_item(
            cache,
            store,
            wallet_id,
            item_id,
        ).response == ResponseView::failure(ErrorView::ItemAlreadyInWallet) && add_item(
            cache,
            store,
            wallet_id,
            item_id,
        ).store == store,
        store.contains_key(wallet_id) && !store[wallet_id].contains(item_id) ==> add_item(
            cache,
            store,
            wallet_id,
            item_id,
        ).response == ResponseView::added(wallet_id, item_id) && add_item(
            cache,
            store,
            wallet_id,
            item_id,
        ).store == store.insert(wallet_id, store[wallet_id].push(item_id)),
{
}

/// The addition of an item keeps a coherent cache coherent, whether it
/// succeeds or not.
pub proof fn lemma_add_item_coherent(
    cache: CacheView,
    store: StoreView,
    wallet_id: WalletId,
    item_id: ItemId,
)
    requires
        cache.wf(),
        coherent(cache, store),
    ensures
        add_item(cache, store, wallet_id, item_id).cache.wf(),
        coherent(
            add_item(cache, store, wallet_id, item_id).cache,
            add_item(cache, store, wallet_id, item_id).store,
        ),
{
    if store.contains_key(wallet_id) && !store[wallet_id].contains(item_id) {
        let grown = store.insert(wallet_id, store[wallet_id].push(item_id));
        assert forall|w: WalletId|
            w != wallet_id && #[trigger] cache.contains(w) implies grown.contains_key(w)
            && cache.items(w) == grown[w].to_set() by {}
        lemma_fill_coherent(cache, grown, wallet_id);
    }
}

/// A coherent cache is invisible: the answer to a membership question is
/// the one that the store alone gives, whether the cache held the wallet or
/// the store had to be read. The store is not changed, and the cache stays
/// coherent.
pub proof fn lemma_has_item(
    cache: CacheView,
    store: StoreView,
    wallet_id: WalletId,
    item_id: ItemId,
)
    requires
        cache.wf(),
        coherent(cache, store),
    ensures
        has_item(cache, store, wallet_id, item_id).response == store_answer(
            store,
            wallet_id,
            item_id,
        ),
        has_item(cache, store, wallet_id, item_id).store == store,
        has_item(cache, store, wallet_id, item_id).cache.wf(),
        coherent(has_item(cache, store, wallet_id, item_id).cache, store),
{
    lemma_lookup_coherent(cache, store, wallet_id);
    let looked = cache.lookup(wallet_id);
    if cache.contains(wallet_id) {
    } else if store.contains_key(wallet_id) {
        lemma_fill_coherent(looked, store, wallet_id);
    }
}

/// A wallet that has left the cache is answered for as one that is still
/// in it: where two coherent caches stand before the same store, the one
/// holding the wallet and the other not, both give the same answer.
pub proof fn lemma_miss_answers_as_hit(
    hit: CacheView,
    miss: CacheView,
    store: StoreView,
    wallet_id: WalletId,
    item_id: ItemId,
)
    requires
        hit.wf(),
        miss.wf(),
        coherent(hit, store),
        coherent(miss, store),
        hit.contains(wallet_id),
        !miss.contains(wallet_id),
    ensures
        has_item(miss, store, wallet_id, item_id).response == has_item(
            hit,
            store,
            wallet_id,
            item_id,
        ).response,
        has_item(hit, store, wallet_id, item_id).response == ResponseView::membership(
            hit.items(wallet_id),
            item_id,
        ),
{
    lemma_has_item(hit, store, wallet_id, item_id);
    lemma_has_item(miss, store, wallet_id, item_id);
}

/// A wallet that was just created owns nothing: whatever the item, the
/// question whether the new wallet owns it is answered with "no such item",
/// which is not the answer for a wallet that does not exist.
pub proof fn lemma_new_wallet_owns_nothing(
    cache: CacheView,
    store: StoreView,
    wallet_id: WalletId,
    item_id: ItemId,
)
    requires
        cache.wf(),
        coherent(cache, store),
        !store.contains_key(wallet_id),
    ensures
        create_wallet(cache, store, wallet_id).response == ResponseView::created(wallet_id),
        has_item(
            create_wallet(cache, store, wallet_id).cache,
            create_wallet(cache, store, wallet_id).store,
            wallet_id,
            item_id,
        ).response == ResponseView::failure(ErrorView::NoSuchItem),
        ResponseView::failure(ErrorView::NoSuchItem) != ResponseView::failure(
            ErrorView::NoSuchWallet,
        ),
{
    lemma_create_wallet(cache, store, wallet_id);
    let made = create_wallet(cache, store, wallet_id);
    lemma_has_item(made.cache, made.store, wallet_id, item_id);
    assert(Seq::<ItemId>::empty().to_set() =~= Set::<ItemId>::empty());
    lemma_messages_differ(ErrorView::NoSuchItem, ErrorView::NoSuchWallet);
}

/// An item that was added is owned: after the addition of an item to a
/// wallet that exists and did not own it, the question whether the wallet
/// owns the item is answered with the item.
pub proof fn lemma_added_item_is_owned(
    cache: CacheView,
    store: StoreView,
    wallet_id: WalletId,
    item_id: ItemId,
)
    requires
        cache.wf(),
        coherent(cache, store),
        store.contains_key(wallet_id),
        !store[wallet_id].contains(item_id),
    ensures
        add_item(cache, store, wallet_id, item_id).response == ResponseView::added(
            wallet_id,
            item_id,
        ),
        has_item(
            add_item(cache, store, wallet_id, item_id).cache,
            add_item(cache, store, wallet_id, item_id).store,
            wallet_id,
            item_id,
        ).response == ResponseView::owned(item_id),
{
    lemma_add_item(cache, store, wallet_id, item_id);
    lemma_add_item_coherent(cache, store, wallet_id, item_id);
    let done = add_item(cache, store, wallet_id, item_id);
    lemma_has_item(done.cache, done.store, wallet_id, item_id);
    let list = store[wallet_id].push(item_id);
    assert(list[list.len() - 1] == item_id);
    assert(list.to_set().contains(item_id));
}

/// The additions of the items of a list to one wallet, one request after
/// another: the cache and the store after the last, and every answer.
pub open spec fn add_items(
    cache: CacheView,
    store: StoreView,
    wallet_id: WalletId,
    items: Seq<ItemId>,
) -> (CacheView, StoreView, Seq<ResponseView>)
    decreases items.len(),
{
    if items.len() == 0 {
        (cache, store, Seq::empty())
    } else {
        let (cache, store, answers) = add_items(cache, store, wallet_id, items.drop_last());
        let last = add_item(cache, store, wallet_id, items.last());
        (last.cache, last.store, answers.push(last.response))
    }
}

/// Additions that follow one another are all kept: where the items are
/// distinct and the wallet owns none of them, every addition succeeds, the
/// wallet's list ends up as the old list followed by the items in the order
/// of their addition, and so the wallet's item set as the old set together
/// with all the items added. No other wallet changes.
pub proof fn lemma_additions_are_kept(
    cache: CacheView,
    store: StoreView,
    wallet_id: WalletId,
    items: Seq<ItemId>,
)
    requires
        store.contains_key(wallet_id),
        items.no_duplicates(),
        forall|i: int| 0 <= i < items.len() ==> !store[wallet_id].contains(#[trigger] items[i]),
    ensures
        add_items(cache, store, wallet_id, items).1 == store.insert(
            wallet_id,
            store[wallet_id] + items,
        ),
        add_items(cache, store, wallet_id, items).1[wallet_id].to_set()
            == store[wallet_id].to_set().union(items.to_set()),
        add_items(cache, store, wallet_id, items).2.len() == items.len(),
        forall|i: int|
            0 <= i < items.len() ==> #[trigger] add_items(cache, store, wallet_id, items).2[i]
                == ResponseView::added(wallet_id, items[i]),
    decreases items.len(),
{
    let old_list = store[wallet_id];
    if items.len() == 0 {
        assert(old_list + items =~= old_list);
        assert(store.insert(wallet_id, old_list) =~= store);
    } else {
        let front = items.drop_last();
        let item = items.last();
        lemma_additions_are_kept(cache, store, wallet_id, front);
        let (cache1, store1, answers1) = add_items(cache, store, wallet_id, front);
        assert(store1[wallet_id] == old_list + front);
        assert(!(old_list + front).contains(item)) by {
            if (old_list + front).contains(item) {
                let k = choose|k: int|
                    0 <= k < (old_list + front).len() && (old_list + front)[k] == item;
                if k < old_list.len() {
                    assert(old_list[k] == item);
                    assert(old_list.contains(items[items.len() - 1]));
                } else {
                    assert(items[k - old_list.len()] == items[items.len() - 1]);
                }
            }
        }
        lemma_add_item(cache1, store1, wallet_id, item);
        assert((old_list + front).push(item) =~= old_list + items);
        assert(store1.insert(wallet_id, (old_list + front).push(item)) =~= store.insert(
            wallet_id,
            old_list + items,
        ));
    }
    let list = old_list + items;
    assert(list.to_set() =~= old_list.to_set().union(items.to_set())) by {
        assert forall|x: ItemId| list.to_set().contains(x) <==> old_list.to_set().union(
            items.to_set(),
        ).contains(x) by {
            if list.contains(x) {
                let k = choose|k: int| 0 <= k < list.len() && list[k] == x;
                if k < old_list.len() {
                    assert(old_list[k] == x);
                } else {
                    assert(items[k - old_list.len()] == x);
                }
            }
            if old_list.contains(x) {
                let k = choose|k: int| 0 <= k < old_list.len() && old_list[k] == x;
                assert(list[k] == x);
            }
            if items.contains(x) {
                let k = choose|k: int| 0 <= k < items.len() && items[k] == x;
                assert(list[k + old_list.len()] == x);
            }
        }
    }
}

/// The steps of two additions to one wallet that both read before either
/// writes: the reads of the first and of the second request, then the
/// write of the first, then the write of the second.
pub open spec fn interleaved_additions(
    cache: CacheView,
    store: StoreView,
    wallet_id: WalletId,
    first: ItemId,
    second: ItemId,
) -> (Outcome, Outcome) {
    let read = store_find(store, wallet_id);
    let (cache, first_write) = spec_wallet_found(cache, wallet_id, Purpose::AddItem(first), read);
    let (cache, second_write) = spec_wallet_found(
        cache,
        wallet_id,
        Purpose::AddItem(second),
        read,
    );
    let first_done = settle(cache, store, first_write);
    let second_done = settle(first_done.cache, first_done.store, second_write);
    (first_done, second_done)
}

/// Nothing ties a read to the write that follows it, so of two additions
/// that both read before either writes, the first is lost: both requests
/// are told of success, and the store ends up with the second item only.
/// The cache follows the store: where it was coherent it stays so, and does
/// not show the first item either.
pub proof fn lemma_interleaved_additions(
    cache: CacheView,
    store: StoreView,
    wallet_id: WalletId,
    first: ItemId,
    second: ItemId,
)
    requires
        store.contains_key(wallet_id),
        first != second,
        !store[wallet_id].contains(first),
        !store[wallet_id].contains(second),
    ensures
        ({
            let (first_done, second_done) = interleaved_additions(
                cache,
                store,
                wallet_id,
                first,
                second,
            );
            &&& first_done.response == ResponseView::added(wallet_id, first)
            &&& second_done.response == ResponseView::added(wallet_id, second)
            &&& second_done.store == store.insert(wallet_id, store[wallet_id].push(second))
            &&& !second_done.store[wallet_id].contains(first)
            &&& cache.wf() && coherent(cache, store) ==> second_done.cache.wf() && coherent(
                second_done.cache,
                second_done.store,
            )
        }),
{
    let old_list = store[wallet_id];
    let store1 = store.insert(wallet_id, old_list.push(first));
    let store2 = store1.insert(wallet_id, old_list.push(second));
    assert(store2 =~= store.insert(wallet_id, old_list.push(second)));
    assert(!old_list.push(second).contains(first)) by {
        if old_list.push(second).contains(first) {
            let k = choose|k: int|
                0 <= k < old_list.push(second).len() && old_list.push(second)[k] == first;
            if k < old_list.len() {
                assert(old_list[k] == first);
            }
        }
    }
    if cache.wf() && coherent(cache, store) {
        assert forall|w: WalletId|
            w != wallet_id && #[trigger] cache.contains(w) implies store1.contains_key(w)
            && cache.items(w) == store1[w].to_set() by {}
        lemma_fill_coherent(cache, store1, wallet_id);
        let cache1 = cache.insert(wallet_id, old_list.push(first).to_set());
        assert forall|w: WalletId|
            w != wallet_id && #[trigger] cache1.contains(w) implies store2.contains_key(w)
            && cache1.items(w) == store2[w].to_set() by {}
        lemma_fill_coherent(cache1, store2, wallet_id);
    }
}

/// One request.
pub enum Request {
    CreateWallet(WalletId),
    AddItem(WalletId, ItemId),
    HasItem(WalletId, ItemId),
}

/// A request, from its entry to its answer.
pub open spec fn serve(cache: CacheView, store: StoreView, request: Request) -> Outcome {
    match request {
        Request::CreateWallet(wallet_id) => create_wallet(cache, store, wallet_id),
        Request::AddItem(wallet_id, item_id) => add_item(cache, store, wallet_id, item_id),
        Request::HasItem(wallet_id, item_id) => has_item(cache, store, wallet_id, item_id),
    }
}

/// The cache and the store after a run of requests, each of which ends
/// before the next begins.
pub open spec fn serve_all(cache: CacheView, store: StoreView, requests: Seq<Request>) -> (
    CacheView,
    StoreView,
)
    decreases requests.len(),
{
    if requests.len() == 0 {
        (cache, store)
    } else {
        let (cache, store) = serve_all(cache, store, requests.drop_last());
        let last = serve(cache, store, requests.last());
        (last.cache, last.store)
    }
}

/// Requests that follow one another keep the cache coherent: whatever the
/// store holds at the start, after any run of requests on an empty cache
/// every entry of the cache is what the store holds for that wallet.
pub proof fn lemma_served_coherent(capacity: nat, store: StoreView, requests: Seq<Request>)
    ensures
        serve_all(CacheView::empty(capacity), store, requests).0.wf(),
        coherent(
            serve_all(CacheView::empty(capacity), store, requests).0,
            serve_all(CacheView::empty(capacity), store, requests).1,
        ),
    decreases requests.len(),
{
    if requests.len() == 0 {
        lemma_empty_coherent(capacity, store);
    } else {
        lemma_served_coherent(capacity, store, requests.drop_last());
        let (cache1, store1) = serve_all(
            CacheView::empty(capacity),
            store,
            requests.drop_last(),
        );
        match requests.last() {
            Request::CreateWallet(wallet_id) => lemma_create_wallet(cache1, store1, wallet_id),
            Request::AddItem(wallet_id, item_id) => lemma_add_item_coherent(
                cache1,
                store1,
                wallet_id,
                item_id,
            ),
            Request::HasItem(wallet_id, item_id) => lemma_has_item(
                cache1,
                store1,
                wallet_id,
                item_id,
            ),
        }
    }
}

} // verus!

//! The three requests, each as a run of steps between calls of the store.
//!
//! A request enters through its handler, which either answers at once or
//! asks for a call of the store. The caller makes the call and hands the
//! answer to the function that continues the request: [`wallet_found`]
//! after a read, [`wallet_inserted`] after an insert, [`items_replaced`]
//! after an overwrite. The cache is touched in single steps only, never
//! across a call of the store, so two requests may interleave between a
//! read and the write that follows it.

use crate::cache::{CacheView, ItemSetCache};
use crate::db::{
    add_item, get_wallet, insert_wallet, replace_items, spec_add_item, spec_get_wallet,
    spec_insert_wallet, spec_replace_items, FindOutcome, FindOutcomeView, InsertOutcome,
    InsertOutcomeView, ReplaceOutcome, ReplaceOutcomeView,
};
use crate::error::{lemma_messages_differ, Error, ErrorView};
use crate::{ItemId, Wallet, WalletId, WalletView};
use std::collections::HashSet;
use vstd::prelude::*;
use vstd::std_specs::hash::group_hash_axioms;

verus! {

broadcast use group_hash_axioms;

/// The flag of an answer.
#[derive(Clone, Copy, Debug, PartialEq, Eq, Structural)]
pub enum Status {
    Success,
    Error,
}

/// The one shape of every answer: a flag, a payload where there is one, and
/// a text where something went wrong.
#[derive(Clone, Debug, PartialEq, Eq)]
pub struct JsonResponse<T> {
    pub status: Status,
    pub data: Option<T>,
    pub message: Option<String>,
}

/// The mathematical value of a [`JsonResponse`].
pub struct JsonResponseView<T> {
    pub status: Status,
    pub data: Option<T>,
    pub message: Option<Seq<char>>,
}

impl<T> View for JsonResponse<T> {
    type V = JsonResponseView<T>;

    open spec fn view(&self) -> JsonResponseView<T> {
        JsonResponseView {
            status: self.status,
            data: self.data,
            message: match self.message {
                Some(text) => Some(text@),
                None => None,
            },
        }
    }
}

impl<T> JsonResponseView<T> {
    /// An answer that reports success.
    pub open spec fn success(data: Option<T>) -> Self {
        JsonResponseView { status: Status::Success, data, message: None }
    }

    /// An answer that reports a failure, with its text.
    pub open spec fn error(message: Seq<char>, data: Option<T>) -> Self {
        JsonResponseView { status: Status::Error, data, message: Some(message) }
    }
}

impl<T> JsonResponse<T> {
    /// An answer that reports success.
    pub fn success(data: Option<T>) -> (response: Self)
        ensures
            response@ == JsonResponseView::success(data),
    {
        JsonResponse { status: Status::Success, data, message: None }
    }

    /// An answer that reports a failure, with its text.
    pub fn error(message: String, data: Option<T>) -> (response: Self)
        ensures
            response@ == JsonResponseView::error(message@, data),
    {
        JsonResponse { status: Status::Error, data, message: Some(message) }
    }
}

/// The body of a request that creates a wallet.
#[derive(Clone, Copy, Debug, PartialEq, Eq, Structural)]
pub enum CreateWalletBody {
    V1Body(WalletId),
}

/// The body of a request that adds an item to a wallet.
#[derive(Clone, Copy, Debug, PartialEq, Eq, Structural)]
pub enum AddItemBody {
    V1Body(ItemId),
}

/// The answer to a request, by what it carries.
#[derive(Clone, Debug, PartialEq, Eq)]
pub enum Response {
    /// A wallet was created: its identifier.
    Wallet(JsonResponse<WalletId>),
    /// An item was added: the wallet and the item.
    Added(JsonResponse<(WalletId, ItemId)>),
    /// The wallet owns the item: the item.
    Item(JsonResponse<ItemId>),
    /// The request failed.
    Failure(JsonResponse<String>),
}

/// The mathematical value of a [`Response`].
pub enum ResponseView {
    Wallet(JsonResponseView<WalletId>),
    Added(JsonResponseView<(WalletId, ItemId)>),
    Item(JsonResponseView<ItemId>),
    Failure(JsonResponseView<String>),
}

impl View for Response {
    type V = ResponseView;

    open spec fn view(&self) -> ResponseView {
        match self {
            Response::Wallet(response) => ResponseView::Wallet(response@),
            Response::Added(response) => ResponseView::Added(response@),
            Response::Item(response) => ResponseView::Item(response@),
            Response::Failure(response) => ResponseView::Failure(response@),
        }
    }
}

impl ResponseView {
    /// The answer to a request that failed: the flag and the failure's text,
    /// no payload.
    pub open spec fn failure(error: ErrorView) -> ResponseView {
        ResponseView::Failure(JsonResponseView::error(error.message(), None))
    }

    /// The answer to a wallet's creation.
    pub open spec fn created(wallet_id: WalletId) -> ResponseView {
        ResponseView::Wallet(JsonResponseView::success(Some(wallet_id)))
    }

    /// The answer to an item's addition.
    pub open spec fn added(wallet_id: WalletId, item_id: ItemId) -> ResponseView {
        ResponseView::Added(JsonResponseView::success(Some((wallet_id, item_id))))
    }

    /// The answer for an item that the wallet owns.
    pub open spec fn owned(item_id: ItemId) -> ResponseView {
        ResponseView::Item(JsonResponseView::success(Some(item_id)))
    }

    /// The answer to the question whether a wallet with these items owns
    /// the item.
    pub open spec fn membership(items: Set<ItemId>, item_id: ItemId) -> ResponseView {
        if items.contains(item_id) {
            ResponseView::owned(item_id)
        } else {
            ResponseView::failure(ErrorView::NoSuchItem)
        }
    }
}

/// What a read of the store was made for.
#[derive(Clone, Copy, Debug, PartialEq, Eq, Structural)]
pub enum Purpose {
    /// To see whether the wallet to create exists already.
    Create,
    /// To add the item to the wallet read.
    AddItem(ItemId),
    /// To see whether the wallet read owns the item.
    Retrieve(ItemId),
}

/// What a request needs next: a call of the store, or nothing more.
#[derive(Clone, Debug, PartialEq, Eq)]
pub enum Step {
    /// Read the wallet; continue with [`wallet_found`].
    Find(WalletId, Purpose),
    /// Insert a new wallet with this identifier and no items; continue with
    /// [`wallet_inserted`].
    Insert(WalletId),
    /// Overwrite the item list of the wallet with this identifier by the
    /// list of the wallet given; continue with [`items_replaced`].
    Replace(WalletId, Wallet, ItemId),
    /// The request is over: this is its answer.
    Reply(Response),
}

/// The mathematical value of a [`Step`].
pub enum StepView {
    Find(WalletId, Purpose),
    Insert(WalletId),
    Replace(WalletId, WalletView, ItemId),
    Reply(ResponseView),
}

impl View for Step {
    type V = StepView;

    open spec fn view(&self) -> StepView {
        match self {
            Step::Find(wallet_id, purpose) => StepView::Find(*wallet_id, *purpose),
            Step::Insert(wallet_id) => StepView::Insert(*wallet_id),
            Step::Replace(wallet_id, wallet, item_id) => StepView::Replace(
                *wallet_id,
                wallet@,
                *item_id,
            ),
            Step::Reply(response) => StepView::Reply(response@),
        }
    }
}

/// The first step of a wallet's creation: a wallet that the cache knows
/// exists already; for any other the store is read.
pub open spec fn spec_create_wallet_handler(cache: CacheView, wallet_id: WalletId) -> (
    CacheView,
    StepView,
) {
    (
        cache.lookup(wallet_id),
        if cache.contains(wallet_id) {
            StepView::Reply(ResponseView::failure(ErrorView::WalletAlreadyExists))
        } else {
            StepView::Find(wallet_id, Purpose::Create)
        },
    )
}

/// The first step of an item's addition: the wallet is read from the store,
/// whatever the cache holds.
pub open spec fn spec_add_item_handler(wallet_id: WalletId, item_id: ItemId) -> StepView {
    StepView::Find(wallet_id, Purpose::AddItem(item_id))
}

/// The first step of a membership question: the cache answers for a wallet
/// it knows; for any other the store is read.
pub open spec fn spec_retrieve_item_handler(
    cache: CacheView,
    wallet_id: WalletId,
    item_id: ItemId,
) -> (CacheView, StepView) {
    (
        cache.lookup(wallet_id),
        match cache.found(wallet_id) {
            Some(items) => StepView::Reply(ResponseView::membership(items, item_id)),
            None => StepView::Find(wallet_id, Purpose::Retrieve(item_id)),
        },
    )
}

/// The step after a read.
///
/// For a creation, a wallet that was found exists already; anything else,
/// a failure of the store too, leads to the insert, whose answer decides.
/// For an addition, the item joins the wallet as read and the new list is
/// written back. For a membership question, the wallet read fills the cache
/// and answers.
pub open spec fn spec_wallet_found(
    cache: CacheView,
    wallet_id: WalletId,
    purpose: Purpose,
    outcome: FindOutcomeView,
) -> (CacheView, StepView) {
    match purpose {
        Purpose::Create => (
            cache,
            if outcome is Found {
                StepView::Reply(ResponseView::failure(ErrorView::WalletAlreadyExists))
            } else {
                StepView::Insert(wallet_id)
            },
        ),
        Purpose::AddItem(item_id) => (
            cache,
            match spec_get_wallet(outcome) {
                Ok(wallet) => match spec_add_item(wallet, item_id) {
                    Ok(grown) => StepView::Replace(wallet_id, grown, item_id),
                    Err(error) => StepView::Reply(ResponseView::failure(error)),
                },
                Err(error) => StepView::Reply(ResponseView::failure(error)),
            },
        ),
        Purpose::Retrieve(item_id) => match spec_get_wallet(outcome) {
            Ok(wallet) => (
                cache.insert(wallet.id, wallet.items.to_set()),
                StepView::Reply(ResponseView::membership(wallet.items.to_set(), item_id)),
            ),
            Err(error) => (cache, StepView::Reply(ResponseView::failure(error))),
        },
    }
}

/// The answer after an insert: a wallet that was stored enters the cache
/// with no items.
pub open spec fn spec_wallet_inserted(
    cache: CacheView,
    wallet_id: WalletId,
    outcome: InsertOutcomeView,
) -> (CacheView, ResponseView) {
    match spec_insert_wallet(outcome) {
        Ok(()) => (cache.insert(wallet_id, Set::empty()), ResponseView::created(wallet_id)),
        Err(error) => (cache, ResponseView::failure(error)),
    }
}

/// The answer after an overwrite: a list that was stored replaces the
/// wallet's entry in the cache.
pub open spec fn spec_items_replaced(
    cache: CacheView,
    wallet_id: WalletId,
    wallet: WalletView,
    item_id: ItemId,
    outcome: ReplaceOutcomeView,
) -> (CacheView, ResponseView) {
    match spec_replace_items(outcome) {
        Ok(()) => (
            cache.insert(wallet.id, wallet.items.to_set()),
            ResponseView::added(wallet_id, item_id),
        ),
        Err(error) => (cache, ResponseView::failure(error)),
    }
}

/// The items of a list, as a set.
pub fn item_set(items: &Vec<ItemId>) -> (set: HashSet<ItemId>)
    ensures
        set@ == items@.to_set(),
{
    let mut set: HashSet<ItemId> = HashSet::new();
    let mut i: usize = 0;
    while i < items.len()
        invariant
            i <= items.len(),
            set@ == items@.take(i as int).to_set(),
        decreases items.len() - i,
    {
        let item: ItemId = items[i];
        set.insert(item);
        proof {
            assert(items@.take(i + 1) =~= items@.take(i as int).push(item));
            items@.take(i as int).lemma_push_to_set_commute(item);
        }
        i += 1;
    }
    proof {
        assert(items@.take(items.len() as int) =~= items@);
    }
    set
}

/// Holds the wallet's items in the cache, under the wallet's identifier.
pub fn put_wallet_in_cache(wallet: Wallet, wallet_cache: &mut ItemSetCache)
    ensures
        final(wallet_cache)@ == old(wallet_cache)@.insert(wallet.id, wallet.items@.to_set()),
        final(wallet_cache)@.wf(),
{
    let items = item_set(&wallet.items);
    wallet_cache.insert(wallet.id, items);
}

/// The answer to a request that failed.
pub fn failure(error: &Error) -> (response: Response)
    ensures
        response@ == ResponseView::failure(error@),
{
    Response::Failure(JsonResponse::error(error.to_string(), None))
}

/// The answer to the question whether a wallet with these items owns the
/// item.
pub fn membership(items: &HashSet<ItemId>, item_id: ItemId) -> (response: Response)
    ensures
        response@ == ResponseView::membership(items@, item_id),
{
    if items.contains(&item_id) {
        Response::Item(JsonResponse::success(Some(item_id)))
    } else {
        failure(&Error::NoSuchItem)
    }
}

/// Begins the creation of a wallet. The look into the cache only spares a
/// call: the store's own refusal of a second wallet is what decides.
pub fn create_wallet_handler(body: CreateWalletBody, wallet_cache: &mut ItemSetCache) -> (step:
    Step)
    ensures
        (final(wallet_cache)@, step@) == spec_create_wallet_handler(
            old(wallet_cache)@,
            body->V1Body_0,
        ),
        final(wallet_cache)@.wf(),
{
    let wallet_id = match body {
        CreateWalletBody::V1Body(id) => id,
    };
    match wallet_cache.lookup(wallet_id) {
        Some(_) => Step::Reply(failure(&Error::WalletAlreadyExists)),
        None => Step::Find(wallet_id, Purpose::Create),
    }
}

/// Begins the addition of an item: the wallet is read from the store, not
/// from the cache, so that no stale list is written back.
pub fn add_item_handler(wallet_id: WalletId, body: AddItemBody) -> (step: Step)
    ensures
        step@ == spec_add_item_handler(wallet_id, body->V1Body_0),
{
    let item_id = match body {
        AddItemBody::V1Body(item_id) => item_id,
    };
    Step::Find(wallet_id, Purpose::AddItem(item_id))
}

/// Begins a membership question.
pub fn retrieve_item_handler(
    wallet_id: WalletId,
    item_id: ItemId,
    wallet_cache: &mut ItemSetCache,
) -> (step: Step)
    ensures
        (final(wallet_cache)@, step@) == spec_retrieve_item_handler(
            old(wallet_cache)@,
            wallet_id,
            item_id,
        ),
        final(wallet_cache)@.wf(),
{
    match wallet_cache.lookup(wallet_id) {
        Some(items) => Step::Reply(membership(&items, item_id)),
        None => Step::Find(wallet_id, Purpose::Retrieve(item_id)),
    }
}

/// Continues a request with what a read of the store brought back.
pub fn wallet_found(
    wallet_id: WalletId,
    purpose: Purpose,
    outcome: FindOutcome,
    wallet_cache: &mut ItemSetCache,
) -> (step: Step)
    ensures
        (final(wallet_cache)@, step@) == spec_wallet_found(
            old(wallet_cache)@,
            wallet_id,
            purpose,
            outcome@,
        ),
        final(wallet_cache)@.wf(),
{
    proof {
        use_type_invariant(&*wallet_cache);
    }
    match purpose {
        Purpose::Create => match outcome {
            FindOutcome::Found(_) => Step::Reply(failure(&Error::WalletAlreadyExists)),
            _ => Step::Insert(wallet_id),
        },
        Purpose::AddItem(item_id) => match get_wallet(outcome) {
            Ok(wallet) => match add_item(wallet, item_id) {
                Ok(grown) => Step::Replace(wallet_id, grown, item_id),
                Err(error) => Step::Reply(failure(&error)),
            },
            Err(error) => Step::Reply(failure(&error)),
        },
        Purpose::Retrieve(item_id) => match get_wallet(outcome) {
            Ok(wallet) => {
                let items = item_set(&wallet.items);
                let response = membership(&items, item_id);
                wallet_cache.insert(wallet.id, items);
                Step::Reply(response)
            },
            Err(error) => Step::Reply(failure(&error)),
        },
    }
}

/// Ends a creation with what the insert brought back.
pub fn wallet_inserted(
    wallet_id: WalletId,
    outcome: InsertOutcome,
    wallet_cache: &mut ItemSetCache,
) -> (response: Response)
    ensures
        (final(wallet_cache)@, response@) == spec_wallet_inserted(
            old(wallet_cache)@,
            wallet_id,
            outcome@,
        ),
        final(wallet_cache)@.wf(),
{
    proof {
        use_type_invariant(&*wallet_cache);
    }
    match insert_wallet(outcome) {
        Ok(()) => {
            put_wallet_in_cache(Wallet::new(wallet_id), wallet_cache);
            proof {
                assert(Seq::<ItemId>::empty().to_set() =~= Set::<ItemId>::empty());
            }
            Response::Wallet(JsonResponse::success(Some(wallet_id)))
        },
        Err(error) => failure(&error),
    }
}

/// Ends an addition with what the overwrite brought back.
pub fn items_replaced(
    wallet_id: WalletId,
    wallet: Wallet,
    item_id: ItemId,
    outcome: ReplaceOutcome,
    wallet_cache: &mut ItemSetCache,
) -> (response: Response)
    ensures
        (final(wallet_cache)@, response@) == spec_items_replaced(
            old(wallet_cache)@,
            wallet_id,
            wallet@,
            item_id,
            outcome@,
        ),
        final(wallet_cache)@.wf(),
{
    proof {
        use_type_invariant(&*wallet_cache);
    }
    match replace_items(outcome) {
        Ok(()) => {
            put_wallet_in_cache(wallet, wallet_cache);
            Response::Added(JsonResponse::success(Some((wallet_id, item_id))))
        },
        Err(error) => failure(&error),
    }
}

/// A failure of the store is told as such and with the store's own account:
/// after a write that failed, and after a read that failed unless the read
/// was the look before a creation, which the insert settles.
pub proof fn lemma_store_failures_are_told(
    cache: CacheView,
    wallet_id: WalletId,
    wallet: WalletView,
    item_id: ItemId,
    text: Seq<char>,
)
    ensures
        spec_wallet_inserted(cache, wallet_id, InsertOutcomeView::Failed(text)) == (
            cache,
            ResponseView::failure(ErrorView::Db(text)),
        ),
        spec_items_replaced(cache, wallet_id, wallet, item_id, ReplaceOutcomeView::Failed(text))
            == (cache, ResponseView::failure(ErrorView::Db(text))),
        spec_wallet_found(
            cache,
            wallet_id,
            Purpose::AddItem(item_id),
            FindOutcomeView::Failed(text),
        ) == (cache, StepView::Reply(ResponseView::failure(ErrorView::Db(text)))),
        spec_wallet_found(
            cache,
            wallet_id,
            Purpose::Retrieve(item_id),
            FindOutcomeView::Failed(text),
        ) == (cache, StepView::Reply(ResponseView::failure(ErrorView::Db(text)))),
        spec_wallet_found(cache, wallet_id, Purpose::Create, FindOutcomeView::Failed(text)) == (
            cache,
            StepView::Insert(wallet_id),
        ),
{
}

/// Nothing but a failure of the store is told as one: where the store
/// answered, whatever it answered, the step that follows is no report of a
/// store failure.
pub proof fn lemma_only_store_failures_are_told(
    cache: CacheView,
    wallet_id: WalletId,
    wallet: WalletView,
    item_id: ItemId,
    purpose: Purpose,
    found: FindOutcomeView,
    inserted: InsertOutcomeView,
    replaced: ReplaceOutcomeView,
    text: Seq<char>,
)
    ensures
        !(found is Failed) ==> spec_wallet_found(cache, wallet_id, purpose, found).1
            != StepView::Reply(ResponseView::failure(ErrorView::Db(text))),
        !(inserted is Failed) ==> spec_wallet_inserted(cache, wallet_id, inserted).1
            != ResponseView::failure(ErrorView::Db(text)),
        !(replaced is Failed) ==> spec_items_replaced(
            cache,
            wallet_id,
            wallet,
            item_id,
            replaced,
        ).1 != ResponseView::failure(ErrorView::Db(text)),
{
    lemma_messages_differ(ErrorView::WalletAlreadyExists, ErrorView::Db(text));
    lemma_messages_differ(ErrorView::NoSuchWallet, ErrorView::Db(text));
    lemma_messages_differ(ErrorView::NoSuchItem, ErrorView::Db(text));
    lemma_messages_differ(ErrorView::ItemAlreadyInWallet, ErrorView::Db(text));
}

} // verus!

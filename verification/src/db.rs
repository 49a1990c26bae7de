//! The durable store, seen from the wallet rules.
//!
//! The store itself is an outside service: a keyed collection of wallet
//! documents that refuses a second document with the same identifier. This
//! module holds what the rules need of it: the answers a call can bring
//! back, what each answer means for the request, the rule that a wallet
//! owns no item twice, and a model of a store that answers truthfully.

use crate::error::{Error, ErrorView};
use crate::{ItemId, Wallet, WalletId, WalletView};
use vstd::prelude::*;

verus! {

/// What a read of one wallet brought back.
#[derive(Debug, Clone, PartialEq, Eq)]
pub enum FindOutcome {
    /// The document stored under the identifier.
    Found(Wallet),
    /// No document has the identifier.
    Missing,
    /// The store failed; the text is its own account.
    Failed(String),
}

/// The mathematical value of a [`FindOutcome`].
pub enum FindOutcomeView {
    Found(WalletView),
    Missing,
    Failed(Seq<char>),
}

impl View for FindOutcome {
    type V = FindOutcomeView;

    open spec fn view(&self) -> FindOutcomeView {
        match self {
            FindOutcome::Found(wallet) => FindOutcomeView::Found(wallet@),
            FindOutcome::Missing => FindOutcomeView::Missing,
            FindOutcome::Failed(text) => FindOutcomeView::Failed(text@),
        }
    }
}

/// What the insert of a new wallet brought back.
#[derive(Debug, Clone, PartialEq, Eq)]
pub enum InsertOutcome {
    /// The document is stored.
    Inserted,
    /// The store holds a document with this identifier and refused a second.
    Duplicate,
    /// The store failed; the text is its own account.
    Failed(String),
}

/// The mathematical value of an [`InsertOutcome`].
pub enum InsertOutcomeView {
    Inserted,
    Duplicate,
    Failed(Seq<char>),
}

impl View for InsertOutcome {
    type V = InsertOutcomeView;

    open spec fn view(&self) -> InsertOutcomeView {
        match self {
            InsertOutcome::Inserted => InsertOutcomeView::Inserted,
            InsertOutcome::Duplicate => InsertOutcomeView::Duplicate,
            InsertOutcome::Failed(text) => InsertOutcomeView::Failed(text@),
        }
    }
}

/// What the overwrite of a wallet's item list brought back.
#[derive(Debug, Clone, PartialEq, Eq)]
pub enum ReplaceOutcome {
    /// The document now holds the new list.
    Replaced,
    /// No document has the identifier.
    Missing,
    /// The store failed; the text is its own account.
    Failed(String),
}

/// The mathematical value of a [`ReplaceOutcome`].
pub enum ReplaceOutcomeView {
    Replaced,
    Missing,
    Failed(Seq<char>),
}

impl View for ReplaceOutcome {
    type V = ReplaceOutcomeView;

    open spec fn view(&self) -> ReplaceOutcomeView {
        match self {
            ReplaceOutcome::Replaced => ReplaceOutcomeView::Replaced,
            ReplaceOutcome::Missing => ReplaceOutcomeView::Missing,
            ReplaceOutcome::Failed(text) => ReplaceOutcomeView::Failed(text@),
        }
    }
}

/// What a read means: the wallet, or why there is none.
pub open spec fn spec_get_wallet(outcome: FindOutcomeView) -> Result<WalletView, ErrorView> {
    match outcome {
        FindOutcomeView::Found(wallet) => Ok(wallet),
        FindOutcomeView::Missing => Err(ErrorView::NoSuchWallet),
        FindOutcomeView::Failed(text) => Err(ErrorView::Db(text)),
    }
}

/// What an insert means. A refusal by the store's uniqueness rule is the
/// authoritative sign that the wallet exists: it is reported as such, not as
/// a failure of the store.
pub open spec fn spec_insert_wallet(outcome: InsertOutcomeView) -> Result<(), ErrorView> {
    match outcome {
        InsertOutcomeView::Inserted => Ok(()),
        InsertOutcomeView::Duplicate => Err(ErrorView::WalletAlreadyExists),
        InsertOutcomeView::Failed(text) => Err(ErrorView::Db(text)),
    }
}

/// What an overwrite means.
pub open spec fn spec_replace_items(outcome: ReplaceOutcomeView) -> Result<(), ErrorView> {
    match outcome {
        ReplaceOutcomeView::Replaced => Ok(()),
        ReplaceOutcomeView::Missing => Err(ErrorView::NoSuchWallet),
        ReplaceOutcomeView::Failed(text) => Err(ErrorView::Db(text)),
    }
}

/// The wallet with one more item at the end of its list, unless it owns the
/// item already.
pub open spec fn spec_add_item(wallet: WalletView, item_id: ItemId) -> Result<
    WalletView,
    ErrorView,
> {
    if wallet.items.contains(item_id) {
        Err(ErrorView::ItemAlreadyInWallet)
    } else {
        Ok(WalletView { id: wallet.id, items: wallet.items.push(item_id) })
    }
}

/// The wallet that a read brought back, or the failure that the read stands
/// for.
pub fn get_wallet(outcome: FindOutcome) -> (found: Result<Wallet, Error>)
    ensures
        view_wallet_result(found) == spec_get_wallet(outcome@),
{
    match outcome {
        FindOutcome::Found(wallet) => Ok(wallet),
        FindOutcome::Missing => Err(Error::NoSuchWallet),
        FindOutcome::Failed(text) => Err(Error::Db(text)),
    }
}

/// Whether an insert took place, or the failure that its answer stands for.
pub fn insert_wallet(outcome: InsertOutcome) -> (done: Result<(), Error>)
    ensures
        view_unit_result(done) == spec_insert_wallet(outcome@),
{
    match outcome {
        InsertOutcome::Inserted => Ok(()),
        InsertOutcome::Duplicate => Err(Error::WalletAlreadyExists),
        InsertOutcome::Failed(text) => Err(Error::Db(text)),
    }
}

/// Whether an overwrite took place, or the failure that its answer stands
/// for.
pub fn replace_items(outcome: ReplaceOutcome) -> (done: Result<(), Error>)
    ensures
        view_unit_result(done) == spec_replace_items(outcome@),
{
    match outcome {
        ReplaceOutcome::Replaced => Ok(()),
        ReplaceOutcome::Missing => Err(Error::NoSuchWallet),
        ReplaceOutcome::Failed(text) => Err(Error::Db(text)),
    }
}

/// Whether the list holds the item.
pub fn owns(items: &Vec<ItemId>, item_id: ItemId) -> (held: bool)
    ensures
        held == items@.contains(item_id),
{
    let mut i: usize = 0;
    while i < items.len()
        invariant
            i <= items.len(),
            forall|j: int| 0 <= j < i ==> items@[j] != item_id,
        decreases items.len() - i,
    {
        if items[i] == item_id {
            return true;
        }
        i += 1;
    }
    false
}

/// Adds the item to the wallet as it was read, for the overwrite that
/// follows: the item goes to the end of the list, and a wallet that owns it
/// already is refused.
pub fn add_item(wallet: Wallet, item_id: ItemId) -> (added: Result<Wallet, Error>)
    ensures
        view_wallet_result(added) == spec_add_item(wallet@, item_id),
{
    if owns(&wallet.items, item_id) {
        return Err(Error::ItemAlreadyInWallet);
    }
    let mut wallet = wallet;
    wallet.items.push(item_id);
    Ok(wallet)
}

/// The mathematical value of a wallet or a failure.
pub open spec fn view_wallet_result(result: Result<Wallet, Error>) -> Result<
    WalletView,
    ErrorView,
> {
    match result {
        Ok(wallet) => Ok(wallet@),
        Err(error) => Err(error@),
    }
}

/// The mathematical value of a success or a failure.
pub open spec fn view_unit_result(result: Result<(), Error>) -> Result<(), ErrorView> {
    match result {
        Ok(()) => Ok(()),
        Err(error) => Err(error@),
    }
}

/// The documents of a store: the item list of each wallet that exists.
pub type StoreView = Map<WalletId, Seq<ItemId>>;

/// What a truthful store answers to a read.
pub open spec fn store_find(store: StoreView, wallet_id: WalletId) -> FindOutcomeView {
    if store.contains_key(wallet_id) {
        FindOutcomeView::Found(WalletView { id: wallet_id, items: store[wallet_id] })
    } else {
        FindOutcomeView::Missing
    }
}

/// What a truthful store answers to the insert of a wallet, and what it
/// holds afterwards: it takes the document unless the identifier is taken.
pub open spec fn store_insert(store: StoreView, wallet: WalletView) -> (
    StoreView,
    InsertOutcomeView,
) {
    if store.contains_key(wallet.id) {
        (store, InsertOutcomeView::Duplicate)
    } else {
        (store.insert(wallet.id, wallet.items), InsertOutcomeView::Inserted)
    }
}

/// What a truthful store answers to the overwrite of an item list, and what
/// it holds afterwards: the whole list is replaced, whatever it was.
pub open spec fn store_replace(store: StoreView, wallet: WalletView) -> (
    StoreView,
    ReplaceOutcomeView,
) {
    if store.contains_key(wallet.id) {
        (store.insert(wallet.id, wallet.items), ReplaceOutcomeView::Replaced)
    } else {
        (store, ReplaceOutcomeView::Missing)
    }
}

} // verus!

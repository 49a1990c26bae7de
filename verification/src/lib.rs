//! Wallets of owned item identifiers, with a bounded recency-ordered cache
//! kept in agreement with a durable store.

use vstd::prelude::*;

pub mod cache;
pub mod db;
pub mod error;
pub mod handlers;
pub mod lru_specs;
pub mod recency;
pub mod requests;

verus! {

/// Identifier of a wallet.
pub type WalletId = u32;

/// Identifier of an item.
pub type ItemId = u32;

/// A wallet document: its identifier and the identifiers of the items it owns.
#[derive(Debug, Clone, PartialEq, Eq)]
pub struct Wallet {
    pub id: WalletId,
    pub items: Vec<ItemId>,
}

/// The mathematical value of a [`Wallet`].
pub struct WalletView {
    pub id: WalletId,
    pub items: Seq<ItemId>,
}

impl View for Wallet {
    type V = WalletView;

    open spec fn view(&self) -> WalletView {
        WalletView { id: self.id, items: self.items@ }
    }
}

impl Wallet {
    /// A wallet that owns nothing yet.
    pub fn new(id: WalletId) -> (wallet: Self)
        ensures
            wallet@ == (WalletView { id, items: Seq::empty() }),
    {
        Self { id, items: Vec::new() }
    }
}

} // verus!

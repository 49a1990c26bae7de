//! The ways in which a request fails.

use vstd::prelude::*;
use vstd::string::StringExecFns;

verus! {

/// Why a request was not carried out. None of these is retried: each ends
/// the request it arose in.
#[derive(Debug, Clone, PartialEq, Eq)]
pub enum Error {
    /// A wallet with this identifier exists already.
    WalletAlreadyExists,
    /// No wallet has this identifier.
    NoSuchWallet,
    /// The wallet does not own this item.
    NoSuchItem,
    /// The wallet owns this item already.
    ItemAlreadyInWallet,
    /// The store could not be reached or failed; the text is its own account.
    Db(String),
}

/// The mathematical value of an [`Error`].
pub enum ErrorView {
    WalletAlreadyExists,
    NoSuchWallet,
    NoSuchItem,
    ItemAlreadyInWallet,
    Db(Seq<char>),
}

impl View for Error {
    type V = ErrorView;

    open spec fn view(&self) -> ErrorView {
        match self {
            Error::WalletAlreadyExists => ErrorView::WalletAlreadyExists,
            Error::NoSuchWallet => ErrorView::NoSuchWallet,
            Error::NoSuchItem => ErrorView::NoSuchItem,
            Error::ItemAlreadyInWallet => ErrorView::ItemAlreadyInWallet,
            Error::Db(text) => ErrorView::Db(text@),
        }
    }
}

impl ErrorView {
    /// The text shown to the user for this failure.
    pub open spec fn message(self) -> Seq<char> {
        match self {
            ErrorView::WalletAlreadyExists => "wallet already exists"@,
            ErrorView::NoSuchWallet => "no such wallet"@,
            ErrorView::NoSuchItem => "no such item"@,
            ErrorView::ItemAlreadyInWallet => "item already in wallet"@,
            ErrorView::Db(text) => "Db("@ + text + ")"@,
        }
    }

    /// Whether the failure is the store's, not one of the wallet rules.
    pub open spec fn is_backend(self) -> bool {
        self is Db
    }
}

impl Error {
    /// The text shown to the user for this failure.
    pub fn to_string(&self) -> (text: String)
        ensures
            text@ == self@.message(),
    {
        match self {
            Error::WalletAlreadyExists => String::from_str("wallet already exists"),
            Error::NoSuchWallet => String::from_str("no such wallet"),
            Error::NoSuchItem => String::from_str("no such item"),
            Error::ItemAlreadyInWallet => String::from_str("item already in wallet"),
            Error::Db(text) => {
                let mut shown = String::from_str("Db(");
                shown.append(text.as_str());
                shown.append(")");
                shown
            },
        }
    }
}

/// The four failures of the wallet rules have four different texts, and none
/// of them reads like a failure of the store.
pub proof fn lemma_messages_differ(a: ErrorView, b: ErrorView)
    requires
        a != b,
        !a.is_backend(),
    ensures
        a.message() != b.message(),
{
    reveal_strlit("wallet already exists");
    reveal_strlit("no such wallet");
    reveal_strlit("no such item");
    reveal_strlit("item already in wallet");
    reveal_strlit("Db(");
    reveal_strlit(")");
    let m = a.message();
    let n = b.message();
    match b {
        ErrorView::Db(text) => {
            assert(n =~= "Db("@ + text + ")"@);
            assert(n[0] == 'D');
            assert(m[0] != 'D');
        },
        _ => {
            assert(m.len() != n.len());
        },
    }
}

} // verus!

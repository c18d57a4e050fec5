//! The reasons for which a request is turned down.

use vstd::prelude::*;

verus! {

/// Why a request on the album was turned down.
#[derive(Clone, Copy, Debug, PartialEq, Eq, Structural)]
pub enum Error {
    /// The icon is not in the catalog.
    UnknownItem,
    /// The sender has none of the emoji, or fewer than asked for.
    InsufficientHoldings,
    /// The recipient has no album yet.
    UnknownRecipient,
    /// The quantity is not positive.
    InvalidQuantity,
    /// The catalog text holds a row without a collection name.
    CatalogLoadFailure,
}

} // verus!

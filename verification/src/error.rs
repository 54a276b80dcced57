use vstd::prelude::*;

verus! {

/// Why an operation was refused. A refused operation changes nothing.
#[derive(Clone, Copy, Debug, PartialEq, Eq, Structural, Hash)]
pub enum LedgerError {
    /// A balance transfer asked for more than the sender holds.
    InsufficientFunds,
    /// The token to mint already has an owner.
    TokenExists,
    /// The token to burn or move has no owner.
    TokenNotFound,
    /// The caller neither owns the token nor acts for its owner.
    NotTokenOwner,
    /// The caller is not the distinguished principal.
    Unauthorized,
    /// The token to buy has no price.
    NotListed,
    /// The seller named by the buyer is not the token's owner.
    SellerMismatch,
}

} // verus!

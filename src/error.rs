//! Errors of the ledger's transitions.

use vstd::prelude::*;

verus! {

/// Why a transition was refused. A refused transition leaves the ledger as it was.
#[derive(Debug, Clone, Copy, PartialEq, Eq, Structural)]
pub enum EstateError {
    /// Zero shares, or descriptive fields that do not fit the property's record.
    InvalidTerms,
    /// A property or its vault is already stored at the address derived from the name.
    DuplicateListing,
    /// No address could be derived from the seeds, or the derived address holds a
    /// record of other keys.
    AddressUnavailable,
    /// No property is stored at the given address.
    UnknownProperty,
    /// Zero shares asked for, or more than remain unsold.
    Oversold,
    /// The payment account holds another token than the property is sold for.
    AssetMismatch,
    /// The payment account belongs to someone other than the buyer.
    OwnerMismatch,
    /// A token amount or share count would not fit in 64 bits.
    ArithmeticOverflow,
    /// The token transfer was refused, with the transfer's own error code.
    TransferRejected(u32),
}

} // verus!

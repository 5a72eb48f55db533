//! Verified core of a course-marketplace ledger.
//!
//! The crate models the state of a marketplace for online courses: a course
//! catalog with filtered and paginated views, per-user purchase ledgers, an
//! administrator set gating privileged operations, a review aggregate kept
//! equal to the mean of the critic scores, and an enrollment/payment engine
//! that splits every payment between the course creator and a platform vault
//! and computes a storage-cost refund.
//!
//! Every operation is a pure transition on [`state::Contract`]: the caller's
//! identity, the attached payment and the storage figures of the surrounding
//! host arrive as plain arguments, and value transfers leave as
//! [`types::Payout`] instructions for the host to perform.  An operation that
//! fails returns one [`ContractError`] and leaves the state unchanged.

use vstd::prelude::*;

pub mod catalog;
pub mod engine;
pub mod laws;
pub mod listing;
pub mod profiles;
pub mod reviews;
pub mod state;
pub mod top_rated;
pub mod types;

verus! {

/// Platform fee in basis points (parts per ten thousand) taken out of every
/// paid transaction for the vault account.
pub const VAULT_FEE: u128 = 500;

/// Largest price for which the basis-point fee computation stays inside
/// `u128`.
pub const PRICE_LIMIT: u128 = u128::MAX / VAULT_FEE;

/// The one error kind of every fallible operation.  A failed operation
/// changes nothing: the caller may retry with different arguments.
#[derive(Clone, Copy, PartialEq, Eq, Structural, Debug)]
pub enum ContractError {
    /// The caller is not authorized for the operation.
    PermissionDenied,
    /// A course, category, profile or purchase record is missing.
    NotFound,
    /// The value to add is already present.
    AlreadyExists,
    /// The operation contradicts current state, such as deleting a course
    /// with active enrollments or enrolling twice.
    Conflict,
    /// The attached value covers neither the price nor the storage cost.
    InsufficientPayment,
    /// A malformed query argument, such as a zero limit or an offset past
    /// the end.
    InvalidArgument,
}

} // verus!

//! The error taxonomy of the governance core.
//!
//! Every error aborts the whole invocation: the contracts of the mutating
//! operations state that on any `Err` the state is unchanged. Only
//! `InsufficientFunds` marks a condition the caller may retry; the other
//! kinds reject the specific request for good.

use vstd::prelude::*;

verus! {

#[derive(Debug)]
pub enum ContractError {
    /// The caller is not a roster member.
    Unauthorized,
    /// A malformed identity or parameter. Reserved for the host's
    /// identity-validation failures; no path inside the core produces it.
    InvalidInput(String),
    /// A read-side lookup found no record under the requested key.
    NotFound,
    /// No stored proposal carries the requested id.
    ProposalDoesNotExist,
    /// The proposal has already been executed; execution is one-time.
    AlreadyExecuted,
    /// The treasury balance is below the proposal amount. Retryable once
    /// the treasury has been topped up.
    InsufficientFunds,
    /// The caller already voted on this proposal.
    MemberAlreadyVoted,
}

} // verus!

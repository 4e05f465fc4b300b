//! Messages into the core and the values it hands back to the host.
//!
//! The host authenticates the caller, decodes its wire format into these
//! plain values, and applies the returned effects: it persists the new
//! state and delivers the emitted transfer instruction to the ledger.

use vstd::prelude::*;

use crate::ident::Identity;
use crate::state::Member;
use crate::state::Proposal;

verus! {

/// Setup input: the fixed roster, applied once.
pub struct InstantiateMsg {
    pub members: Vec<Member>,
}

/// A mutating request.
pub enum ExecuteMsg {
    Propose {
        title: String,
        description: String,
        recipient: Option<Identity>,
        amount: Option<u128>,
    },
    Vote { proposal_id: u64, approve: bool },
    Execute { proposal_id: u64 },
}

/// A read-only request.
pub enum QueryMsg {
    GetProposal { proposal_id: u64 },
    ListProposals { start_after: Option<u64>, limit: Option<u32> },
    GetMember { address: Identity },
    ListMembers { start_after: Option<Identity>, limit: Option<u32> },
}

/// A request to move funds from the treasury, applied by the external
/// ledger once the hosting transaction commits.
#[derive(Debug)]
pub struct TransferInstruction {
    pub to: Identity,
    pub amount: u128,
    pub denom: String,
}

/// Descriptive metadata about a completed execution, for observability.
#[derive(Debug)]
pub struct ExecutionReport {
    pub recipient: Identity,
    pub amount: u128,
}

/// What a successful mutating call hands back to the host.
#[derive(Debug)]
pub struct Response {
    pub transfer: Option<TransferInstruction>,
    pub report: Option<ExecutionReport>,
}

/// The answer to a read-only request.
#[derive(Debug)]
pub enum QueryResponse {
    Proposal(Proposal),
    Proposals(Vec<Proposal>),
    Member(Member),
    Members(Vec<Member>),
}

} // verus!

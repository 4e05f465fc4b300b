//! The proposal lifecycle: setup, proposing, weighted voting, gated
//! one-time execution, and the paginated read side.
//!
//! Each mutating operation is specified against a spec-level transition
//! (`propose_post`, `vote_post`, `execute_post`) over the abstract state,
//! so that laws about sequences of calls can be stated and proved once,
//! in `laws`. The host queries the treasury balance and passes it in;
//! everything else is decided here.

use vstd::prelude::*;
use vstd::string::StringExecFns;

use crate::error::ContractError;
use crate::ident::Identity;
use crate::ident::KeyOrder;
use crate::ident::identity_cmp;
use crate::msg::ExecuteMsg;
use crate::msg::ExecutionReport;
use crate::msg::InstantiateMsg;
use crate::msg::QueryMsg;
use crate::msg::QueryResponse;
use crate::msg::Response;
use crate::msg::TransferInstruction;
use crate::state::AbsMember;
use crate::state::AbsProposal;
use crate::state::AbsState;
use crate::state::DaoState;
use crate::state::Member;
use crate::state::Proposal;
use crate::state::copy_member;
use crate::state::copy_proposal;
use crate::state::find_member;
use crate::state::find_proposal;
use crate::state::has_proposal;
use crate::state::insert_member;
use crate::state::insert_member_spec;
use crate::state::is_member;
use crate::state::lemma_insert_member_sum;
use crate::state::lemma_sum_voter_weights_push;
use crate::state::lemma_sum_weights_take_step;
use crate::state::lemma_tally_bounded;
use crate::state::member_idx;
use crate::state::member_weight;
use crate::state::members_sorted;
use crate::state::proposal_at;
use crate::state::proposal_idx;
use crate::state::proposal_wf;
use crate::state::state_wf;
use crate::state::sum_voter_weights;
use crate::state::sum_weights;
use crate::state::voters_contain;

verus! {

/// Largest page a listing returns; larger requests are silently clamped.
pub const MAX_PAGE_LIMIT: u32 = 250;

/// The single, fixed treasury denomination.
pub open spec fn denom_spec() -> Seq<char> {
    "udevcore"@
}

/// The token identifier of the treasury denomination.
pub fn denom() -> (r: String)
    ensures
        r@ == denom_spec(),
{
    String::from_str("udevcore")
}

// ---------------------------------------------------------------------------
// Spec-level transitions
// ---------------------------------------------------------------------------

/// The record `propose` creates: fresh tally, no voters, not executed;
/// the recipient defaults to the proposer and the amount to zero.
pub open spec fn new_proposal_spec(
    id: u64,
    title: Seq<char>,
    description: Seq<char>,
    sender: Seq<u8>,
    recipient: Option<Seq<u8>>,
    amount: Option<u128>,
) -> AbsProposal {
    AbsProposal {
        id,
        title,
        description,
        recipient: match recipient {
            Some(r) => r,
            None => sender,
        },
        amount: match amount {
            Some(a) => a,
            None => 0,
        },
        votes_for: 0,
        votes_against: 0,
        voters: Seq::empty(),
        executed: false,
    }
}

/// State after `propose`: unchanged for a non-member caller, otherwise
/// the new record is stored under the next fresh id and the id counter
/// advances.
pub open spec fn propose_post(
    s: AbsState,
    sender: Seq<u8>,
    title: Seq<char>,
    description: Seq<char>,
    recipient: Option<Seq<u8>>,
    amount: Option<u128>,
) -> AbsState {
    if is_member(s.members, sender) {
        AbsState {
            members: s.members,
            proposals: s.proposals.push(
                new_proposal_spec(s.next_id, title, description, sender, recipient, amount),
            ),
            next_id: (s.next_id + 1) as u64,
        }
    } else {
        s
    }
}

/// How `vote` classifies a request; checked in this order.
pub enum VoteOutcome {
    Unauthorized,
    NoProposal,
    AlreadyVoted,
    Counted,
}

pub open spec fn vote_outcome(s: AbsState, sender: Seq<u8>, id: u64, approve: bool) -> VoteOutcome {
    if !is_member(s.members, sender) {
        VoteOutcome::Unauthorized
    } else if !has_proposal(s.proposals, id) {
        VoteOutcome::NoProposal
    } else if proposal_at(s.proposals, id).voters.contains(sender) {
        VoteOutcome::AlreadyVoted
    } else {
        VoteOutcome::Counted
    }
}

/// The proposal after a counted vote: the caller's weight lands on one
/// side of the tally and the caller joins the voter set.
pub open spec fn voted_proposal_spec(
    p: AbsProposal,
    sender: Seq<u8>,
    weight: u128,
    approve: bool,
) -> AbsProposal {
    AbsProposal {
        id: p.id,
        title: p.title,
        description: p.description,
        recipient: p.recipient,
        amount: p.amount,
        votes_for: if approve {
            (p.votes_for + weight) as u128
        } else {
            p.votes_for
        },
        votes_against: if approve {
            p.votes_against
        } else {
            (p.votes_against + weight) as u128
        },
        voters: p.voters.push(sender),
        executed: p.executed,
    }
}

/// State after `vote`: unchanged unless the vote is counted.
pub open spec fn vote_post(s: AbsState, sender: Seq<u8>, id: u64, approve: bool) -> AbsState {
    if vote_outcome(s, sender, id, approve) is Counted {
        let i = proposal_idx(s.proposals, id);
        AbsState {
            members: s.members,
            proposals: s.proposals.update(
                i,
                voted_proposal_spec(s.proposals[i], sender, member_weight(s.members, sender), approve),
            ),
            next_id: s.next_id,
        }
    } else {
        s
    }
}

/// How `execute` classifies a request; checked in this order.
pub enum ExecuteOutcome {
    /// No stored proposal has the id.
    NoProposal,
    /// The proposal was executed before.
    AlreadyDone,
    /// The tally has no strict weighted majority in favour: a successful
    /// no-op, not an error.
    NotPassed,
    /// The tally passed but the treasury balance is below the amount.
    ShortFunds,
    /// The tally passed and the treasury covers the amount.
    Done,
}

pub open spec fn execute_outcome(s: AbsState, id: u64, balance: u128) -> ExecuteOutcome {
    if !has_proposal(s.proposals, id) {
        ExecuteOutcome::NoProposal
    } else if proposal_at(s.proposals, id).executed {
        ExecuteOutcome::AlreadyDone
    } else if proposal_at(s.proposals, id).votes_for <= proposal_at(s.proposals, id).votes_against {
        ExecuteOutcome::NotPassed
    } else if balance < proposal_at(s.proposals, id).amount {
        ExecuteOutcome::ShortFunds
    } else {
        ExecuteOutcome::Done
    }
}

/// The proposal once executed; nothing but the flag changes.
pub open spec fn executed_proposal_spec(p: AbsProposal) -> AbsProposal {
    AbsProposal {
        id: p.id,
        title: p.title,
        description: p.description,
        recipient: p.recipient,
        amount: p.amount,
        votes_for: p.votes_for,
        votes_against: p.votes_against,
        voters: p.voters,
        executed: true,
    }
}

/// State after `execute`: the flag flips exactly in the `Done` case.
pub open spec fn execute_post(s: AbsState, id: u64, balance: u128) -> AbsState {
    if execute_outcome(s, id, balance) is Done {
        let i = proposal_idx(s.proposals, id);
        AbsState {
            members: s.members,
            proposals: s.proposals.update(i, executed_proposal_spec(s.proposals[i])),
            next_id: s.next_id,
        }
    } else {
        s
    }
}

/// The roster the setup call builds, entry by entry; a repeated address
/// keeps the weight it was given last.
pub open spec fn instantiate_members(input: Seq<AbsMember>) -> Seq<AbsMember>
    decreases input.len(),
{
    if input.len() == 0 {
        Seq::empty()
    } else {
        insert_member_spec(instantiate_members(input.drop_last()), input.last())
    }
}

// ---------------------------------------------------------------------------
// Setup
// ---------------------------------------------------------------------------

/// Builds the fixed roster from the caller-supplied pairs and an empty
/// proposal store. The total weight must fit the tally counters; the
/// host checks this bound before calling.
pub fn instantiate(msg: InstantiateMsg) -> (s: DaoState)
    requires
        sum_weights(msg.members.deep_view()) <= u128::MAX,
    ensures
        state_wf(s@),
        s@.members == instantiate_members(msg.members.deep_view()),
        s@.proposals == Seq::<AbsProposal>::empty(),
        s@.next_id == 0,
{
    let input = msg.members;
    let ghost dv = input.deep_view();
    let mut members: Vec<Member> = Vec::new();
    let mut i: usize = 0;
    proof {
        assert(dv.take(0) =~= Seq::<AbsMember>::empty());
        assert(members.deep_view() =~= Seq::<AbsMember>::empty());
    }
    while i < input.len()
        invariant
            i <= input.len(),
            dv == input.deep_view(),
            members.deep_view() == instantiate_members(dv.take(i as int)),
            members_sorted(members.deep_view()),
            sum_weights(members.deep_view()) <= sum_weights(dv.take(i as int)),
        decreases input.len() - i,
    {
        let m = copy_member(&input[i]);
        proof {
            assert(dv[i as int] == input@[i as int]@);
            lemma_insert_member_sum(members.deep_view(), m@);
            lemma_sum_weights_take_step(dv, i as int);
        }
        insert_member(&mut members, m);
        proof {
            assert(dv.take(i + 1).drop_last() =~= dv.take(i as int));
            assert(dv.take(i + 1).last() == dv[i as int]);
        }
        i = i + 1;
    }
    let s = DaoState { members, proposals: Vec::new(), next_id: 0 };
    proof {
        assert(dv.take(input.len() as int) =~= dv);
        assert(s@.proposals =~= Seq::<AbsProposal>::empty());
    }
    s
}

// ---------------------------------------------------------------------------
// Propose
// ---------------------------------------------------------------------------

/// Stores a new proposal under a fresh id.
///
/// Rejected with `Unauthorized` if the caller is not a member, with no
/// other effect. The id counter is the only source of ids, so every
/// stored proposal keeps a distinct id.
pub fn execute_propose(
    state: &mut DaoState,
    sender: Identity,
    title: String,
    description: String,
    recipient: Option<Identity>,
    amount: Option<u128>,
) -> (r: Result<Response, ContractError>)
    requires
        state_wf(old(state)@),
        old(state).next_id < u64::MAX,
    ensures
        state_wf(final(state)@),
        final(state)@ == propose_post(
            old(state)@,
            sender@,
            title@,
            description@,
            recipient.deep_view(),
            amount,
        ),
        r is Ok <==> is_member(old(state)@.members, sender@),
        r is Err ==> (r matches Err(ContractError::Unauthorized)) && final(state)@ == old(state)@,
        r matches Ok(resp) ==> resp.transfer is None && resp.report is None,
{
    match find_member(&state.members, &sender) {
        None => {
            return Err(ContractError::Unauthorized);
        },
        Some(_) => {},
    }
    let ghost pre = state@;
    let recipient_v = match recipient {
        Some(x) => x,
        None => sender,
    };
    let amount_v = match amount {
        Some(a) => a,
        None => 0u128,
    };
    let p = Proposal {
        id: state.next_id,
        title,
        description,
        recipient: recipient_v,
        amount: amount_v,
        votes_for: 0,
        votes_against: 0,
        voters: Vec::new(),
        executed: false,
    };
    proof {
        assert(p@.voters =~= Seq::<Seq<u8>>::empty());
        assert(p@ == new_proposal_spec(
            pre.next_id,
            title@,
            description@,
            sender@,
            recipient.deep_view(),
            amount,
        ));
    }
    state.proposals.push(p);
    state.next_id = state.next_id + 1;
    proof {
        let post = propose_post(pre, sender@, title@, description@, recipient.deep_view(), amount);
        assert(state.proposals.deep_view() =~= post.proposals);
        assert(state@ == post);
        let np = post.proposals[post.proposals.len() - 1];
        assert(sum_voter_weights(post.members, np.voters) == 0);
        assert forall|a: int, b: int|
            0 <= a < b < post.proposals.len() implies post.proposals[a].id
            < post.proposals[b].id by {
            if b < pre.proposals.len() {
                assert(pre.proposals[a].id < pre.proposals[b].id);
            } else {
                assert(pre.proposals[a].id < pre.next_id);
            }
        }
        assert forall|a: int| 0 <= a < post.proposals.len() implies proposal_wf(
            post.members,
            #[trigger] post.proposals[a],
        ) by {
            if a < pre.proposals.len() {
                assert(proposal_wf(pre.members, pre.proposals[a]));
            }
        }
    }
    Ok(Response { transfer: None, report: None })
}

// ---------------------------------------------------------------------------
// Vote
// ---------------------------------------------------------------------------

/// Applies one member's vote to a proposal.
///
/// The caller's weight lands on the chosen side of the tally and the
/// caller enters the voter set; a second vote by the same address is
/// rejected whatever the proposal's state, and any rejection leaves the
/// state untouched.
pub fn execute_vote(
    state: &mut DaoState,
    sender: Identity,
    proposal_id: u64,
    approve: bool,
) -> (r: Result<Response, ContractError>)
    requires
        state_wf(old(state)@),
    ensures
        state_wf(final(state)@),
        final(state)@ == vote_post(old(state)@, sender@, proposal_id, approve),
        r is Ok <==> vote_outcome(old(state)@, sender@, proposal_id, approve) is Counted,
        (r matches Err(ContractError::Unauthorized)) <==> vote_outcome(
            old(state)@,
            sender@,
            proposal_id,
            approve,
        ) is Unauthorized,
        (r matches Err(ContractError::ProposalDoesNotExist)) <==> vote_outcome(
            old(state)@,
            sender@,
            proposal_id,
            approve,
        ) is NoProposal,
        (r matches Err(ContractError::MemberAlreadyVoted)) <==> vote_outcome(
            old(state)@,
            sender@,
            proposal_id,
            approve,
        ) is AlreadyVoted,
        r is Err ==> final(state)@ == old(state)@,
        r matches Ok(resp) ==> resp.transfer is None && resp.report is None,
{
    let ghost pre = state@;
    let m_idx = match find_member(&state.members, &sender) {
        None => {
            return Err(ContractError::Unauthorized);
        },
        Some(i) => i,
    };
    let weight = state.members[m_idx].weight;
    proof {
        assert(pre.members[m_idx as int] == state.members@[m_idx as int]@);
        assert(weight == member_weight(pre.members, sender@));
    }
    let p_idx = match find_proposal(&state.proposals, proposal_id) {
        None => {
            return Err(ContractError::ProposalDoesNotExist);
        },
        Some(i) => i,
    };
    let ghost old_p = pre.proposals[p_idx as int];
    proof {
        assert(old_p == state.proposals@[p_idx as int]@);
    }
    if voters_contain(&state.proposals[p_idx].voters, &sender) {
        return Err(ContractError::MemberAlreadyVoted);
    }
    proof {
        assert(proposal_wf(pre.members, old_p));
        let pushed = old_p.voters.push(sender@);
        assert forall|a: int, b: int| 0 <= a < b < pushed.len() implies pushed[a] != pushed[b] by {
            if b == pushed.len() - 1 {
                if pushed[a] == sender@ {
                    assert(old_p.voters[a] == sender@);
                    assert(old_p.voters.contains(sender@));
                }
            }
        }
        assert forall|a: int| 0 <= a < pushed.len() implies is_member(
            pre.members,
            #[trigger] pushed[a],
        ) by {
            if a < old_p.voters.len() {
                assert(is_member(pre.members, old_p.voters[a]));
            }
        }
        lemma_tally_bounded(pre.members, pushed);
        lemma_sum_voter_weights_push(pre.members, old_p.voters, sender@);
    }
    let mut p = state.proposals.remove(p_idx);
    if approve {
        p.votes_for = p.votes_for + weight;
    } else {
        p.votes_against = p.votes_against + weight;
    }
    p.voters.push(sender);
    state.proposals.insert(p_idx, p);
    proof {
        let post = vote_post(pre, sender@, proposal_id, approve);
        let np = voted_proposal_spec(old_p, sender@, weight, approve);
        assert(p@.voters =~= old_p.voters.push(sender@));
        assert(p@ == np);
        assert(state.proposals.deep_view() =~= pre.proposals.update(p_idx as int, np));
        assert(state@ == post);
        assert forall|a: int, b: int|
            0 <= a < b < post.proposals.len() implies post.proposals[a].id
            < post.proposals[b].id by {
            assert(pre.proposals[a].id < pre.proposals[b].id);
        }
        assert forall|a: int| 0 <= a < post.proposals.len() implies proposal_wf(
            post.members,
            #[trigger] post.proposals[a],
        ) by {
            assert(proposal_wf(pre.members, pre.proposals[a]));
        }
    }
    Ok(Response { transfer: None, report: None })
}

// ---------------------------------------------------------------------------
// Execute
// ---------------------------------------------------------------------------

/// What a successful `execute` hands back, given how the request was
/// classified: nothing for a no-op, and for a completed execution the
/// observability report plus — for a positive amount — the transfer
/// instruction in the fixed denomination.
pub open spec fn execute_response_matches(
    resp: Response,
    s: AbsState,
    id: u64,
    balance: u128,
) -> bool {
    match execute_outcome(s, id, balance) {
        ExecuteOutcome::NotPassed => resp.transfer is None && resp.report is None,
        ExecuteOutcome::Done => {
            &&& resp.report matches Some(rep) && rep.recipient@ == proposal_at(s.proposals, id).recipient
                && rep.amount == proposal_at(s.proposals, id).amount
            &&& (proposal_at(s.proposals, id).amount > 0 ==> (resp.transfer matches Some(t)
                && t.to@ == proposal_at(s.proposals, id).recipient
                && t.amount == proposal_at(s.proposals, id).amount
                && t.denom@ == denom_spec()))
            &&& (proposal_at(s.proposals, id).amount == 0 ==> resp.transfer is None)
        },
        _ => false,
    }
}

/// Evaluates the tally and, at most once per proposal, releases the funds.
///
/// A proposal without a strict weighted majority in favour is left as it
/// is and the call succeeds with no effect. A passing proposal is marked
/// executed and the transfer instruction is handed to the host, unless
/// the given treasury balance is below the amount, in which case nothing
/// changes and the call may be retried later. A proposal already executed
/// is rejected for good.
pub fn execute_execute(
    state: &mut DaoState,
    proposal_id: u64,
    treasury_balance: u128,
) -> (r: Result<Response, ContractError>)
    requires
        state_wf(old(state)@),
    ensures
        state_wf(final(state)@),
        final(state)@ == execute_post(old(state)@, proposal_id, treasury_balance),
        r is Ok <==> (execute_outcome(old(state)@, proposal_id, treasury_balance) is NotPassed
            || execute_outcome(old(state)@, proposal_id, treasury_balance) is Done),
        (r matches Err(ContractError::ProposalDoesNotExist)) <==> execute_outcome(
            old(state)@,
            proposal_id,
            treasury_balance,
        ) is NoProposal,
        (r matches Err(ContractError::AlreadyExecuted)) <==> execute_outcome(
            old(state)@,
            proposal_id,
            treasury_balance,
        ) is AlreadyDone,
        (r matches Err(ContractError::InsufficientFunds)) <==> execute_outcome(
            old(state)@,
            proposal_id,
            treasury_balance,
        ) is ShortFunds,
        r is Err ==> final(state)@ == old(state)@,
        r matches Ok(resp) ==> execute_response_matches(
            resp,
            old(state)@,
            proposal_id,
            treasury_balance,
        ),
{
    let ghost pre = state@;
    let p_idx = match find_proposal(&state.proposals, proposal_id) {
        None => {
            return Err(ContractError::ProposalDoesNotExist);
        },
        Some(i) => i,
    };
    let ghost old_p = pre.proposals[p_idx as int];
    proof {
        assert(old_p == state.proposals@[p_idx as int]@);
    }
    if state.proposals[p_idx].executed {
        return Err(ContractError::AlreadyExecuted);
    }
    if state.proposals[p_idx].votes_for > state.proposals[p_idx].votes_against {
        if treasury_balance < state.proposals[p_idx].amount {
            return Err(ContractError::InsufficientFunds);
        }
        let mut p = state.proposals.remove(p_idx);
        p.executed = true;
        let report_recipient = p.recipient.duplicate();
        let amount = p.amount;
        let transfer = if amount > 0 {
            let to = p.recipient.duplicate();
            Some(TransferInstruction { to, amount, denom: denom() })
        } else {
            None
        };
        state.proposals.insert(p_idx, p);
        proof {
            let post = execute_post(pre, proposal_id, treasury_balance);
            let np = executed_proposal_spec(old_p);
            assert(p@ == np);
            assert(state.proposals.deep_view() =~= pre.proposals.update(p_idx as int, np));
            assert(state@ == post);
            assert forall|a: int, b: int|
                0 <= a < b < post.proposals.len() implies post.proposals[a].id
                < post.proposals[b].id by {
                assert(pre.proposals[a].id < pre.proposals[b].id);
            }
            assert forall|a: int| 0 <= a < post.proposals.len() implies proposal_wf(
                post.members,
                #[trigger] post.proposals[a],
            ) by {
                assert(proposal_wf(pre.members, pre.proposals[a]));
            }
        }
        Ok(Response {
            transfer,
            report: Some(ExecutionReport { recipient: report_recipient, amount }),
        })
    } else {
        Ok(Response { transfer: None, report: None })
    }
}

// ---------------------------------------------------------------------------
// Query side
// ---------------------------------------------------------------------------

/// The page size a request resolves to: the cap when absent, clamped to
/// the cap otherwise.
pub open spec fn effective_limit(limit: Option<u32>) -> int {
    match limit {
        Some(l) => if l > MAX_PAGE_LIMIT {
            MAX_PAGE_LIMIT as int
        } else {
            l as int
        },
        None => MAX_PAGE_LIMIT as int,
    }
}

/// Whether a proposal lies beyond the exclusive cursor.
pub open spec fn proposal_above(p: AbsProposal, start_after: Option<u64>) -> bool {
    match start_after {
        None => true,
        Some(k) => p.id > k,
    }
}

/// Index of the first proposal beyond the cursor.
pub open spec fn first_proposal_above(ps: Seq<AbsProposal>, start_after: Option<u64>) -> int
    decreases ps.len(),
{
    if ps.len() == 0 {
        0
    } else if proposal_above(ps[0], start_after) {
        0
    } else {
        1 + first_proposal_above(ps.drop_first(), start_after)
    }
}

/// The page `list_proposals` returns: the run of stored proposals that
/// starts just beyond the cursor, cut to the effective page size.
pub open spec fn proposals_page(
    ps: Seq<AbsProposal>,
    start_after: Option<u64>,
    limit: Option<u32>,
) -> Seq<AbsProposal> {
    let lo = first_proposal_above(ps, start_after);
    let hi = if lo + effective_limit(limit) < ps.len() {
        lo + effective_limit(limit)
    } else {
        ps.len() as int
    };
    ps.subrange(lo, hi)
}

pub proof fn lemma_first_proposal_above(ps: Seq<AbsProposal>, start_after: Option<u64>, k: int)
    requires
        0 <= k <= ps.len(),
        forall|j: int| 0 <= j < k ==> !proposal_above(#[trigger] ps[j], start_after),
        k < ps.len() ==> proposal_above(ps[k], start_after),
    ensures
        first_proposal_above(ps, start_after) == k,
    decreases k,
{
    if k > 0 {
        assert(forall|j: int| 0 <= j < ps.drop_first().len() ==> ps.drop_first()[j] == ps[j + 1]);
        lemma_first_proposal_above(ps.drop_first(), start_after, k - 1);
    }
}

/// Whether a member lies beyond the exclusive cursor.
pub open spec fn member_above(m: AbsMember, start_after: Option<Seq<u8>>) -> bool {
    match start_after {
        None => true,
        Some(a) => crate::ident::lex_lt(a, m.address),
    }
}

/// Index of the first member beyond the cursor.
pub open spec fn first_member_above(ms: Seq<AbsMember>, start_after: Option<Seq<u8>>) -> int
    decreases ms.len(),
{
    if ms.len() == 0 {
        0
    } else if member_above(ms[0], start_after) {
        0
    } else {
        1 + first_member_above(ms.drop_first(), start_after)
    }
}

/// The page `list_members` returns.
pub open spec fn members_page(
    ms: Seq<AbsMember>,
    start_after: Option<Seq<u8>>,
    limit: Option<u32>,
) -> Seq<AbsMember> {
    let lo = first_member_above(ms, start_after);
    let hi = if lo + effective_limit(limit) < ms.len() {
        lo + effective_limit(limit)
    } else {
        ms.len() as int
    };
    ms.subrange(lo, hi)
}

pub proof fn lemma_first_member_above(ms: Seq<AbsMember>, start_after: Option<Seq<u8>>, k: int)
    requires
        0 <= k <= ms.len(),
        forall|j: int| 0 <= j < k ==> !member_above(#[trigger] ms[j], start_after),
        k < ms.len() ==> member_above(ms[k], start_after),
    ensures
        first_member_above(ms, start_after) == k,
    decreases k,
{
    if k > 0 {
        assert(forall|j: int| 0 <= j < ms.drop_first().len() ==> ms.drop_first()[j] == ms[j + 1]);
        lemma_first_member_above(ms.drop_first(), start_after, k - 1);
    }
}

/// Point lookup of a proposal; a fresh copy of the stored record.
pub fn query_get_proposal(state: &DaoState, proposal_id: u64) -> (r: Result<
    Proposal,
    ContractError,
>)
    ensures
        r is Ok <==> has_proposal(state@.proposals, proposal_id),
        r matches Ok(p) ==> p@ == proposal_at(state@.proposals, proposal_id),
        r is Err ==> r matches Err(ContractError::NotFound),
{
    match find_proposal(&state.proposals, proposal_id) {
        None => Err(ContractError::NotFound),
        Some(i) => {
            proof {
                assert(state@.proposals[i as int] == state.proposals@[i as int]@);
            }
            Ok(copy_proposal(&state.proposals[i]))
        },
    }
}

/// Point lookup of a member; a fresh copy of the roster record.
pub fn query_get_member(state: &DaoState, address: &Identity) -> (r: Result<
    Member,
    ContractError,
>)
    ensures
        r is Ok <==> is_member(state@.members, address@),
        r matches Ok(m) ==> m@ == state@.members[member_idx(state@.members, address@)],
        r is Err ==> r matches Err(ContractError::NotFound),
{
    match find_member(&state.members, address) {
        None => Err(ContractError::NotFound),
        Some(i) => {
            proof {
                assert(state@.members[i as int] == state.members@[i as int]@);
            }
            Ok(copy_member(&state.members[i]))
        },
    }
}

/// The stored proposals with id beyond the cursor, ascending, one page.
/// An out-of-range cursor yields an empty page, never an error.
pub fn query_list_proposals(
    state: &DaoState,
    start_after: Option<u64>,
    limit: Option<u32>,
) -> (r: Vec<Proposal>)
    ensures
        r.deep_view() == proposals_page(state@.proposals, start_after, limit),
{
    let ps = &state.proposals;
    let ghost dv = state@.proposals;
    let mut lo: usize = 0;
    match start_after {
        None => {},
        Some(k) => {
            while lo < ps.len() && ps[lo].id <= k
                invariant
                    lo <= ps.len(),
                    dv == ps.deep_view(),
                    forall|j: int| 0 <= j < lo ==> !proposal_above(#[trigger] dv[j], Some(k)),
                decreases ps.len() - lo,
            {
                proof {
                    assert(dv[lo as int] == ps@[lo as int]@);
                }
                lo = lo + 1;
            }
        },
    }
    proof {
        if lo < ps.len() {
            assert(dv[lo as int] == ps@[lo as int]@);
        }
        lemma_first_proposal_above(dv, start_after, lo as int);
    }
    let lim: usize = match limit {
        Some(l) => if l > MAX_PAGE_LIMIT {
            MAX_PAGE_LIMIT as usize
        } else {
            l as usize
        },
        None => MAX_PAGE_LIMIT as usize,
    };
    let mut out: Vec<Proposal> = Vec::new();
    let mut j: usize = lo;
    while j < ps.len() && out.len() < lim
        invariant
            lo <= j <= ps.len(),
            dv == ps.deep_view(),
            j - lo == out.len(),
            out.len() <= lim,
            out.deep_view() == dv.subrange(lo as int, j as int),
        decreases ps.len() - j,
    {
        let c = copy_proposal(&ps[j]);
        proof {
            assert(dv[j as int] == ps@[j as int]@);
        }
        out.push(c);
        proof {
            assert(out.deep_view() =~= dv.subrange(lo as int, j + 1));
        }
        j = j + 1;
    }
    proof {
        assert(out.deep_view() =~= proposals_page(dv, start_after, limit));
    }
    out
}

fn member_page_start(ms: &Vec<Member>, c: &Identity) -> (lo: usize)
    ensures
        lo <= ms.len(),
        forall|j: int| 0 <= j < lo ==> !member_above(#[trigger] ms.deep_view()[j], Some(c@)),
        lo < ms.len() ==> member_above(ms.deep_view()[lo as int], Some(c@)),
{
    let mut i: usize = 0;
    while i < ms.len()
        invariant
            i <= ms.len(),
            forall|j: int| 0 <= j < i ==> !member_above(#[trigger] ms.deep_view()[j], Some(c@)),
        decreases ms.len() - i,
    {
        let o = identity_cmp(c, &ms[i].address);
        proof {
            assert(ms.deep_view()[i as int] == ms@[i as int]@);
        }
        if let KeyOrder::Less = o {
            return i;
        }
        i = i + 1;
    }
    i
}

/// The roster members with address beyond the cursor, ascending, one
/// page. An out-of-range cursor yields an empty page, never an error.
pub fn query_list_members(
    state: &DaoState,
    start_after: Option<Identity>,
    limit: Option<u32>,
) -> (r: Vec<Member>)
    ensures
        r.deep_view() == members_page(state@.members, start_after.deep_view(), limit),
{
    let ms = &state.members;
    let ghost dv = state@.members;
    let lo: usize = match &start_after {
        None => 0,
        Some(c) => member_page_start(ms, c),
    };
    proof {
        lemma_first_member_above(dv, start_after.deep_view(), lo as int);
    }
    let lim: usize = match limit {
        Some(l) => if l > MAX_PAGE_LIMIT {
            MAX_PAGE_LIMIT as usize
        } else {
            l as usize
        },
        None => MAX_PAGE_LIMIT as usize,
    };
    let mut out: Vec<Member> = Vec::new();
    let mut j: usize = lo;
    while j < ms.len() && out.len() < lim
        invariant
            lo <= j <= ms.len(),
            dv == ms.deep_view(),
            j - lo == out.len(),
            out.len() <= lim,
            out.deep_view() == dv.subrange(lo as int, j as int),
        decreases ms.len() - j,
    {
        let c = copy_member(&ms[j]);
        proof {
            assert(dv[j as int] == ms@[j as int]@);
        }
        out.push(c);
        proof {
            assert(out.deep_view() =~= dv.subrange(lo as int, j + 1));
        }
        j = j + 1;
    }
    proof {
        assert(out.deep_view() =~= members_page(dv, start_after.deep_view(), limit));
    }
    out
}

// ---------------------------------------------------------------------------
// Dispatch
// ---------------------------------------------------------------------------

/// Result classification of `propose`, shared by the dispatcher.
pub open spec fn propose_result_matches(
    r: Result<Response, ContractError>,
    s: AbsState,
    sender: Seq<u8>,
) -> bool {
    &&& (r is Ok <==> is_member(s.members, sender))
    &&& (r is Err ==> r matches Err(ContractError::Unauthorized))
    &&& (r matches Ok(resp) ==> resp.transfer is None && resp.report is None)
}

/// Result classification of `vote`, shared by the dispatcher.
pub open spec fn vote_result_matches(
    r: Result<Response, ContractError>,
    s: AbsState,
    sender: Seq<u8>,
    id: u64,
    approve: bool,
) -> bool {
    &&& (r is Ok <==> vote_outcome(s, sender, id, approve) is Counted)
    &&& ((r matches Err(ContractError::Unauthorized)) <==> vote_outcome(s, sender, id, approve)
        is Unauthorized)
    &&& ((r matches Err(ContractError::ProposalDoesNotExist)) <==> vote_outcome(
        s,
        sender,
        id,
        approve,
    ) is NoProposal)
    &&& ((r matches Err(ContractError::MemberAlreadyVoted)) <==> vote_outcome(
        s,
        sender,
        id,
        approve,
    ) is AlreadyVoted)
    &&& (r matches Ok(resp) ==> resp.transfer is None && resp.report is None)
}

/// Result classification of `execute`, shared by the dispatcher.
pub open spec fn execute_result_matches(
    r: Result<Response, ContractError>,
    s: AbsState,
    id: u64,
    balance: u128,
) -> bool {
    &&& (r is Ok <==> (execute_outcome(s, id, balance) is NotPassed || execute_outcome(
        s,
        id,
        balance,
    ) is Done))
    &&& ((r matches Err(ContractError::ProposalDoesNotExist)) <==> execute_outcome(s, id, balance)
        is NoProposal)
    &&& ((r matches Err(ContractError::AlreadyExecuted)) <==> execute_outcome(s, id, balance)
        is AlreadyDone)
    &&& ((r matches Err(ContractError::InsufficientFunds)) <==> execute_outcome(s, id, balance)
        is ShortFunds)
    &&& (r matches Ok(resp) ==> execute_response_matches(resp, s, id, balance))
}

/// Routes a mutating request to its engine. `treasury_balance` is the
/// treasury's current balance in the fixed denomination, queried from
/// the ledger by the host; only the `Execute` arm reads it.
pub fn execute(
    state: &mut DaoState,
    sender: Identity,
    msg: ExecuteMsg,
    treasury_balance: u128,
) -> (r: Result<Response, ContractError>)
    requires
        state_wf(old(state)@),
        msg is Propose ==> old(state).next_id < u64::MAX,
    ensures
        state_wf(final(state)@),
        r is Err ==> final(state)@ == old(state)@,
        match msg {
            ExecuteMsg::Propose { title, description, recipient, amount } => {
                &&& final(state)@ == propose_post(
                    old(state)@,
                    sender@,
                    title@,
                    description@,
                    recipient.deep_view(),
                    amount,
                )
                &&& propose_result_matches(r, old(state)@, sender@)
            },
            ExecuteMsg::Vote { proposal_id, approve } => {
                &&& final(state)@ == vote_post(old(state)@, sender@, proposal_id, approve)
                &&& vote_result_matches(r, old(state)@, sender@, proposal_id, approve)
            },
            ExecuteMsg::Execute { proposal_id } => {
                &&& final(state)@ == execute_post(old(state)@, proposal_id, treasury_balance)
                &&& execute_result_matches(r, old(state)@, proposal_id, treasury_balance)
            },
        },
{
    match msg {
        ExecuteMsg::Propose { title, description, recipient, amount } => execute_propose(
            state,
            sender,
            title,
            description,
            recipient,
            amount,
        ),
        ExecuteMsg::Vote { proposal_id, approve } => execute_vote(
            state,
            sender,
            proposal_id,
            approve,
        ),
        ExecuteMsg::Execute { proposal_id } => execute_execute(
            state,
            proposal_id,
            treasury_balance,
        ),
    }
}

/// Routes a read-only request to its lookup or listing.
pub fn query(state: &DaoState, msg: QueryMsg) -> (r: Result<QueryResponse, ContractError>)
    ensures
        match msg {
            QueryMsg::GetProposal { proposal_id } => {
                &&& (r is Ok <==> has_proposal(state@.proposals, proposal_id))
                &&& (r matches Ok(resp) ==> resp matches QueryResponse::Proposal(p) && p@
                    == proposal_at(state@.proposals, proposal_id))
                &&& (r is Err ==> r matches Err(ContractError::NotFound))
            },
            QueryMsg::ListProposals { start_after, limit } => r matches Ok(resp)
                && resp matches QueryResponse::Proposals(v) && v.deep_view() == proposals_page(
                state@.proposals,
                start_after,
                limit,
            ),
            QueryMsg::GetMember { address } => {
                &&& (r is Ok <==> is_member(state@.members, address@))
                &&& (r matches Ok(resp) ==> resp matches QueryResponse::Member(m) && m@
                    == state@.members[member_idx(state@.members, address@)])
                &&& (r is Err ==> r matches Err(ContractError::NotFound))
            },
            QueryMsg::ListMembers { start_after, limit } => r matches Ok(resp)
                && resp matches QueryResponse::Members(v) && v.deep_view() == members_page(
                state@.members,
                start_after.deep_view(),
                limit,
            ),
        },
{
    match msg {
        QueryMsg::GetProposal { proposal_id } => match query_get_proposal(state, proposal_id) {
            Ok(p) => Ok(QueryResponse::Proposal(p)),
            Err(e) => Err(e),
        },
        QueryMsg::ListProposals { start_after, limit } => Ok(
            QueryResponse::Proposals(query_list_proposals(state, start_after, limit)),
        ),
        QueryMsg::GetMember { address } => match query_get_member(state, &address) {
            Ok(m) => Ok(QueryResponse::Member(m)),
            Err(e) => Err(e),
        },
        QueryMsg::ListMembers { start_after, limit } => Ok(
            QueryResponse::Members(query_list_members(state, start_after, limit)),
        ),
    }
}

} // verus!

//! The library's stated laws: properties that relate whole operations,
//! proved once over the spec-level transitions that the operations'
//! own contracts are written against.

use vstd::prelude::*;

use crate::contract::effective_limit;
use crate::contract::execute_outcome;
use crate::contract::execute_post;
use crate::contract::first_member_above;
use crate::contract::first_proposal_above;
use crate::contract::member_above;
use crate::contract::members_page;
use crate::contract::proposal_above;
use crate::contract::proposals_page;
use crate::contract::vote_outcome;
use crate::contract::vote_post;
use crate::contract::MAX_PAGE_LIMIT;
use crate::ident::lemma_lex_transitive;
use crate::ident::lex_lt;
use crate::state::AbsMember;
use crate::state::AbsProposal;
use crate::state::AbsState;
use crate::state::has_proposal;
use crate::state::lemma_proposal_idx_valid;
use crate::state::proposal_at;
use crate::state::proposal_idx;
use crate::state::proposal_wf;
use crate::state::state_wf;
use crate::state::sum_voter_weights;
use crate::state::voters_are_members;
use crate::state::voters_distinct;

verus! {

/// Two stores whose records carry the same ids position by position
/// index identically.
pub proof fn lemma_proposal_idx_same_ids(ps1: Seq<AbsProposal>, ps2: Seq<AbsProposal>, id: u64)
    requires
        ps1.len() == ps2.len(),
        forall|j: int| 0 <= j < ps1.len() ==> (#[trigger] ps1[j]).id == (#[trigger] ps2[j]).id,
    ensures
        proposal_idx(ps1, id) == proposal_idx(ps2, id),
    decreases ps1.len(),
{
    if ps1.len() > 0 && ps1[0].id != id {
        assert(forall|j: int| 0 <= j < ps1.drop_first().len() ==> ps1.drop_first()[j] == ps1[j + 1]);
        assert(forall|j: int| 0 <= j < ps2.drop_first().len() ==> ps2.drop_first()[j] == ps2[j + 1]);
        lemma_proposal_idx_same_ids(ps1.drop_first(), ps2.drop_first(), id);
    }
}

/// In a well-formed state, a stored proposal's tally is exactly the sum
/// of the roster weights of the members who voted on it: no voter
/// appears twice, every voter is a member, and
/// `votes_for + votes_against` equals their summed weight.
pub proof fn lemma_tally_counts_each_voter_once(s: AbsState, id: u64)
    requires
        state_wf(s),
        has_proposal(s.proposals, id),
    ensures
        voters_distinct(proposal_at(s.proposals, id).voters),
        voters_are_members(s.members, proposal_at(s.proposals, id).voters),
        proposal_at(s.proposals, id).votes_for + proposal_at(s.proposals, id).votes_against
            == sum_voter_weights(s.members, proposal_at(s.proposals, id).voters),
{
    lemma_proposal_idx_valid(s.proposals, id);
    assert(proposal_wf(s.members, s.proposals[proposal_idx(s.proposals, id)]));
}

/// A second vote by the same address on the same proposal is rejected
/// whichever way either vote went, and the rejected attempt leaves the
/// state exactly as the first vote left it.
pub proof fn lemma_vote_twice_rejected(
    s: AbsState,
    sender: Seq<u8>,
    id: u64,
    first_approve: bool,
    second_approve: bool,
)
    requires
        state_wf(s),
        vote_outcome(s, sender, id, first_approve) is Counted,
    ensures
        vote_outcome(vote_post(s, sender, id, first_approve), sender, id, second_approve)
            is AlreadyVoted,
        vote_post(vote_post(s, sender, id, first_approve), sender, id, second_approve)
            == vote_post(s, sender, id, first_approve),
{
    let s1 = vote_post(s, sender, id, first_approve);
    let i = proposal_idx(s.proposals, id);
    lemma_proposal_idx_valid(s.proposals, id);
    assert(forall|j: int|
        0 <= j < s1.proposals.len() ==> (#[trigger] s1.proposals[j]).id == (
        #[trigger] s.proposals[j]).id);
    lemma_proposal_idx_same_ids(s.proposals, s1.proposals, id);
    let nv = proposal_at(s1.proposals, id).voters;
    assert(nv[nv.len() - 1] == sender);
    assert(nv.contains(sender));
}

/// Execution mutates nothing unless the tally holds a strict weighted
/// majority in favour; without one the call is a successful no-op, and
/// only the `Done` classification ever changes the state.
pub proof fn lemma_execute_majority_gate(s: AbsState, id: u64, balance: u128)
    requires
        state_wf(s),
    ensures
        !(execute_outcome(s, id, balance) is Done) ==> execute_post(s, id, balance) == s,
        execute_outcome(s, id, balance) is NotPassed ==> proposal_at(s.proposals, id).votes_for
            <= proposal_at(s.proposals, id).votes_against,
        execute_outcome(s, id, balance) is Done ==> proposal_at(s.proposals, id).votes_for
            > proposal_at(s.proposals, id).votes_against,
{
}

/// Execution is exactly-once: after a completed execution, every later
/// attempt on the same id — at any treasury balance — is rejected with
/// the already-executed classification and changes nothing, so no
/// second transfer can ever be emitted. Because the rejected attempt
/// leaves the state unchanged, this applies again to every attempt
/// after it.
pub proof fn lemma_execute_exactly_once(s: AbsState, id: u64, balance: u128, later_balance: u128)
    requires
        state_wf(s),
        execute_outcome(s, id, balance) is Done,
    ensures
        execute_outcome(execute_post(s, id, balance), id, later_balance) is AlreadyDone,
        execute_post(execute_post(s, id, balance), id, later_balance) == execute_post(
            s,
            id,
            balance,
        ),
{
    let s1 = execute_post(s, id, balance);
    lemma_proposal_idx_valid(s.proposals, id);
    assert(forall|j: int|
        0 <= j < s1.proposals.len() ==> (#[trigger] s1.proposals[j]).id == (
        #[trigger] s.proposals[j]).id);
    lemma_proposal_idx_same_ids(s.proposals, s1.proposals, id);
}

/// A shortfall of treasury funds blocks the release but marks nothing:
/// the proposal stays open, and once the balance covers the amount the
/// same request completes.
pub proof fn lemma_execute_retry_after_funding(
    s: AbsState,
    id: u64,
    balance: u128,
    later_balance: u128,
)
    requires
        state_wf(s),
        execute_outcome(s, id, balance) is ShortFunds,
        later_balance >= proposal_at(s.proposals, id).amount,
    ensures
        execute_post(s, id, balance) == s,
        !proposal_at(s.proposals, id).executed,
        execute_outcome(s, id, later_balance) is Done,
{
}

pub proof fn lemma_first_proposal_above_props(ps: Seq<AbsProposal>, start_after: Option<u64>)
    ensures
        0 <= first_proposal_above(ps, start_after) <= ps.len(),
        forall|j: int|
            0 <= j < first_proposal_above(ps, start_after) ==> !proposal_above(
                #[trigger] ps[j],
                start_after,
            ),
        first_proposal_above(ps, start_after) < ps.len() ==> proposal_above(
            ps[first_proposal_above(ps, start_after)],
            start_after,
        ),
    decreases ps.len(),
{
    if ps.len() > 0 && !proposal_above(ps[0], start_after) {
        lemma_first_proposal_above_props(ps.drop_first(), start_after);
        assert forall|j: int| 0 <= j < first_proposal_above(ps, start_after) implies
            !proposal_above(#[trigger] ps[j], start_after) by {
            if j > 0 {
                assert(ps.drop_first()[j - 1] == ps[j]);
                assert(!proposal_above(ps.drop_first()[j - 1], start_after));
            }
        }
        if first_proposal_above(ps, start_after) < ps.len() {
            assert(ps.drop_first()[first_proposal_above(ps.drop_first(), start_after)] == ps[
                first_proposal_above(ps, start_after)]);
        }
    }
}

/// The pagination contract: a listing returns exactly the run of stored
/// proposals whose id lies beyond the cursor, in ascending id order,
/// cut to the requested page size; sizes beyond the cap are clamped to
/// the cap, and a cursor past the end yields an empty page.
pub proof fn lemma_list_proposals_page(s: AbsState, start_after: Option<u64>, limit: Option<u32>)
    requires
        state_wf(s),
    ensures
        effective_limit(limit) <= MAX_PAGE_LIMIT,
        proposals_page(s.proposals, start_after, limit).len() <= effective_limit(limit),
        forall|j: int|
            0 <= j < proposals_page(s.proposals, start_after, limit).len() ==> proposal_above(
                #[trigger] proposals_page(s.proposals, start_after, limit)[j],
                start_after,
            ),
        forall|i: int, j: int|
            0 <= i < j < proposals_page(s.proposals, start_after, limit).len() ==> proposals_page(
                s.proposals,
                start_after,
                limit,
            )[i].id < proposals_page(s.proposals, start_after, limit)[j].id,
        forall|j: int|
            0 <= j < first_proposal_above(s.proposals, start_after) ==> !proposal_above(
                #[trigger] s.proposals[j],
                start_after,
            ),
        effective_limit(limit) <= s.proposals.len() - first_proposal_above(s.proposals, start_after)
            ==> proposals_page(s.proposals, start_after, limit).len() == effective_limit(limit),
        effective_limit(limit) > s.proposals.len() - first_proposal_above(s.proposals, start_after)
            ==> proposals_page(s.proposals, start_after, limit).len() == s.proposals.len()
            - first_proposal_above(s.proposals, start_after),
{
    lemma_first_proposal_above_props(s.proposals, start_after);
    let lo = first_proposal_above(s.proposals, start_after);
    let page = proposals_page(s.proposals, start_after, limit);
    assert forall|j: int| 0 <= j < page.len() implies proposal_above(
        #[trigger] page[j],
        start_after,
    ) by {
        assert(page[j] == s.proposals[lo + j]);
        if lo + j > lo {
            assert(s.proposals[lo].id < s.proposals[lo + j].id);
        }
    }
}

pub proof fn lemma_first_member_above_props(ms: Seq<AbsMember>, start_after: Option<Seq<u8>>)
    ensures
        0 <= first_member_above(ms, start_after) <= ms.len(),
        forall|j: int|
            0 <= j < first_member_above(ms, start_after) ==> !member_above(
                #[trigger] ms[j],
                start_after,
            ),
        first_member_above(ms, start_after) < ms.len() ==> member_above(
            ms[first_member_above(ms, start_after)],
            start_after,
        ),
    decreases ms.len(),
{
    if ms.len() > 0 && !member_above(ms[0], start_after) {
        lemma_first_member_above_props(ms.drop_first(), start_after);
        assert forall|j: int| 0 <= j < first_member_above(ms, start_after) implies !member_above(
            #[trigger] ms[j],
            start_after,
        ) by {
            if j > 0 {
                assert(ms.drop_first()[j - 1] == ms[j]);
                assert(!member_above(ms.drop_first()[j - 1], start_after));
            }
        }
        if first_member_above(ms, start_after) < ms.len() {
            assert(ms.drop_first()[first_member_above(ms.drop_first(), start_after)] == ms[
                first_member_above(ms, start_after)]);
        }
    }
}

/// The member listing obeys the same pagination contract as the proposal
/// listing, under the address order: exactly the run of roster entries
/// beyond the cursor, ascending, cut to the clamped page size.
pub proof fn lemma_list_members_page(s: AbsState, start_after: Option<Seq<u8>>, limit: Option<u32>)
    requires
        state_wf(s),
    ensures
        effective_limit(limit) <= MAX_PAGE_LIMIT,
        members_page(s.members, start_after, limit).len() <= effective_limit(limit),
        forall|j: int|
            0 <= j < members_page(s.members, start_after, limit).len() ==> member_above(
                #[trigger] members_page(s.members, start_after, limit)[j],
                start_after,
            ),
        forall|i: int, j: int|
            0 <= i < j < members_page(s.members, start_after, limit).len() ==> lex_lt(
                members_page(s.members, start_after, limit)[i].address,
                members_page(s.members, start_after, limit)[j].address,
            ),
        forall|j: int|
            0 <= j < first_member_above(s.members, start_after) ==> !member_above(
                #[trigger] s.members[j],
                start_after,
            ),
        effective_limit(limit) <= s.members.len() - first_member_above(s.members, start_after)
            ==> members_page(s.members, start_after, limit).len() == effective_limit(limit),
        effective_limit(limit) > s.members.len() - first_member_above(s.members, start_after)
            ==> members_page(s.members, start_after, limit).len() == s.members.len()
            - first_member_above(s.members, start_after),
{
    lemma_first_member_above_props(s.members, start_after);
    let lo = first_member_above(s.members, start_after);
    let page = members_page(s.members, start_after, limit);
    assert forall|j: int| 0 <= j < page.len() implies member_above(
        #[trigger] page[j],
        start_after,
    ) by {
        assert(page[j] == s.members[lo + j]);
        if lo + j > lo {
            assert(lex_lt(s.members[lo].address, s.members[lo + j].address));
            if start_after is Some {
                lemma_lex_transitive(
                    start_after.unwrap(),
                    s.members[lo].address,
                    s.members[lo + j].address,
                );
            }
        }
    }
}

} // verus!

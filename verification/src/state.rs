//! The governance state: member roster, proposal store, id allocator.
//!
//! The host persists this state between invocations and applies each
//! mutating call atomically; inside the crate it is an explicit value.
//! Every type has a mathematical view (`AbsMember`, `AbsProposal`,
//! `AbsState`) over which all contracts are stated, and `state_wf` is the
//! well-formedness invariant that `instantiate` establishes and every
//! operation preserves.

use vstd::prelude::*;

use crate::ident::Identity;
use crate::ident::KeyOrder;
use crate::ident::identity_cmp;
use crate::ident::lemma_lex_irreflexive;
use crate::ident::lemma_lex_strict;
use crate::ident::lemma_lex_total;
use crate::ident::lemma_lex_transitive;
use crate::ident::lex_lt;

verus! {

/// A roster entry: a validated address and its voting weight.
#[derive(Debug)]
pub struct Member {
    pub address: Identity,
    pub weight: u128,
}

/// A funding proposal.
///
/// The model carries no voting deadline: no rule in this core reads one,
/// and execution is gated on the tally alone.
#[derive(Debug)]
pub struct Proposal {
    pub id: u64,
    pub title: String,
    pub description: String,
    pub recipient: Identity,
    pub amount: u128,
    pub votes_for: u128,
    pub votes_against: u128,
    pub voters: Vec<Identity>,
    pub executed: bool,
}

/// The whole persistent state of one governance instance.
pub struct DaoState {
    pub members: Vec<Member>,
    pub proposals: Vec<Proposal>,
    pub next_id: u64,
}

/// Mathematical view of a `Member`.
pub ghost struct AbsMember {
    pub address: Seq<u8>,
    pub weight: u128,
}

/// Mathematical view of a `Proposal`.
pub ghost struct AbsProposal {
    pub id: u64,
    pub title: Seq<char>,
    pub description: Seq<char>,
    pub recipient: Seq<u8>,
    pub amount: u128,
    pub votes_for: u128,
    pub votes_against: u128,
    pub voters: Seq<Seq<u8>>,
    pub executed: bool,
}

/// Mathematical view of a `DaoState`.
pub ghost struct AbsState {
    pub members: Seq<AbsMember>,
    pub proposals: Seq<AbsProposal>,
    pub next_id: u64,
}

impl View for Member {
    type V = AbsMember;

    open spec fn view(&self) -> AbsMember {
        AbsMember { address: self.address@, weight: self.weight }
    }
}

impl DeepView for Member {
    type V = AbsMember;

    open spec fn deep_view(&self) -> AbsMember {
        self@
    }
}

impl View for Proposal {
    type V = AbsProposal;

    open spec fn view(&self) -> AbsProposal {
        AbsProposal {
            id: self.id,
            title: self.title@,
            description: self.description@,
            recipient: self.recipient@,
            amount: self.amount,
            votes_for: self.votes_for,
            votes_against: self.votes_against,
            voters: self.voters.deep_view(),
            executed: self.executed,
        }
    }
}

impl DeepView for Proposal {
    type V = AbsProposal;

    open spec fn deep_view(&self) -> AbsProposal {
        self@
    }
}

impl View for DaoState {
    type V = AbsState;

    open spec fn view(&self) -> AbsState {
        AbsState {
            members: self.members.deep_view(),
            proposals: self.proposals.deep_view(),
            next_id: self.next_id,
        }
    }
}

// ---------------------------------------------------------------------------
// Lookup in the member roster
// ---------------------------------------------------------------------------

/// Index of the first roster entry with the given address, or -1.
pub open spec fn member_idx(ms: Seq<AbsMember>, addr: Seq<u8>) -> int
    decreases ms.len(),
{
    if ms.len() == 0 {
        -1
    } else if ms[0].address == addr {
        0
    } else {
        let r = member_idx(ms.drop_first(), addr);
        if r == -1 {
            -1
        } else {
            r + 1
        }
    }
}

/// Whether the address belongs to a roster member.
pub open spec fn is_member(ms: Seq<AbsMember>, addr: Seq<u8>) -> bool {
    member_idx(ms, addr) >= 0
}

/// The weight of the roster member with the given address.
pub open spec fn member_weight(ms: Seq<AbsMember>, addr: Seq<u8>) -> u128 {
    ms[member_idx(ms, addr)].weight
}

pub proof fn lemma_member_idx_valid(ms: Seq<AbsMember>, addr: Seq<u8>)
    ensures
        -1 <= member_idx(ms, addr) < ms.len(),
        member_idx(ms, addr) >= 0 ==> ms[member_idx(ms, addr)].address == addr,
        member_idx(ms, addr) == -1 ==> forall|j: int|
            0 <= j < ms.len() ==> ms[j].address != addr,
    decreases ms.len(),
{
    if ms.len() > 0 && ms[0].address != addr {
        lemma_member_idx_valid(ms.drop_first(), addr);
        if member_idx(ms, addr) == -1 {
            assert forall|j: int| 0 <= j < ms.len() implies ms[j].address != addr by {
                if j > 0 {
                    assert(ms.drop_first()[j - 1] == ms[j]);
                }
            }
        }
    }
}

pub proof fn lemma_member_idx_first(ms: Seq<AbsMember>, addr: Seq<u8>, k: int)
    requires
        0 <= k < ms.len(),
        ms[k].address == addr,
        forall|j: int| 0 <= j < k ==> ms[j].address != addr,
    ensures
        member_idx(ms, addr) == k,
    decreases k,
{
    if k > 0 {
        assert(forall|j: int| 0 <= j < ms.drop_first().len() ==> ms.drop_first()[j] == ms[j + 1]);
        lemma_member_idx_first(ms.drop_first(), addr, k - 1);
    }
}

// ---------------------------------------------------------------------------
// Lookup in the proposal store
// ---------------------------------------------------------------------------

/// Index of the first stored proposal with the given id, or -1.
pub open spec fn proposal_idx(ps: Seq<AbsProposal>, id: u64) -> int
    decreases ps.len(),
{
    if ps.len() == 0 {
        -1
    } else if ps[0].id == id {
        0
    } else {
        let r = proposal_idx(ps.drop_first(), id);
        if r == -1 {
            -1
        } else {
            r + 1
        }
    }
}

/// Whether a proposal with the given id is stored.
pub open spec fn has_proposal(ps: Seq<AbsProposal>, id: u64) -> bool {
    proposal_idx(ps, id) >= 0
}

/// The stored proposal with the given id.
pub open spec fn proposal_at(ps: Seq<AbsProposal>, id: u64) -> AbsProposal {
    ps[proposal_idx(ps, id)]
}

pub proof fn lemma_proposal_idx_valid(ps: Seq<AbsProposal>, id: u64)
    ensures
        -1 <= proposal_idx(ps, id) < ps.len(),
        proposal_idx(ps, id) >= 0 ==> ps[proposal_idx(ps, id)].id == id,
        proposal_idx(ps, id) == -1 ==> forall|j: int| 0 <= j < ps.len() ==> ps[j].id != id,
    decreases ps.len(),
{
    if ps.len() > 0 && ps[0].id != id {
        lemma_proposal_idx_valid(ps.drop_first(), id);
        if proposal_idx(ps, id) == -1 {
            assert forall|j: int| 0 <= j < ps.len() implies ps[j].id != id by {
                if j > 0 {
                    assert(ps.drop_first()[j - 1] == ps[j]);
                }
            }
        }
    }
}

pub proof fn lemma_proposal_idx_first(ps: Seq<AbsProposal>, id: u64, k: int)
    requires
        0 <= k < ps.len(),
        ps[k].id == id,
        forall|j: int| 0 <= j < k ==> ps[j].id != id,
    ensures
        proposal_idx(ps, id) == k,
    decreases k,
{
    if k > 0 {
        assert(forall|j: int| 0 <= j < ps.drop_first().len() ==> ps.drop_first()[j] == ps[j + 1]);
        lemma_proposal_idx_first(ps.drop_first(), id, k - 1);
    }
}

// ---------------------------------------------------------------------------
// Sums of weights
// ---------------------------------------------------------------------------

/// Sum of all roster weights, as an unbounded integer.
pub open spec fn sum_weights(ms: Seq<AbsMember>) -> int
    decreases ms.len(),
{
    if ms.len() == 0 {
        0
    } else {
        ms[0].weight + sum_weights(ms.drop_first())
    }
}

/// Sum of the roster weights of the given voter addresses.
pub open spec fn sum_voter_weights(ms: Seq<AbsMember>, vs: Seq<Seq<u8>>) -> int
    decreases vs.len(),
{
    if vs.len() == 0 {
        0
    } else {
        member_weight(ms, vs[0]) + sum_voter_weights(ms, vs.drop_first())
    }
}

pub proof fn lemma_sum_weights_nonneg(ms: Seq<AbsMember>)
    ensures
        0 <= sum_weights(ms),
    decreases ms.len(),
{
    if ms.len() > 0 {
        lemma_sum_weights_nonneg(ms.drop_first());
    }
}

// ---------------------------------------------------------------------------
// Well-formedness
// ---------------------------------------------------------------------------

/// No two voter entries hold the same address.
pub open spec fn voters_distinct(vs: Seq<Seq<u8>>) -> bool {
    forall|i: int, j: int| 0 <= i < j < vs.len() ==> vs[i] != vs[j]
}

/// Every voter entry is a roster member's address.
pub open spec fn voters_are_members(ms: Seq<AbsMember>, vs: Seq<Seq<u8>>) -> bool {
    forall|i: int| 0 <= i < vs.len() ==> is_member(ms, #[trigger] vs[i])
}

/// Roster kept strictly ascending by address.
pub open spec fn members_sorted(ms: Seq<AbsMember>) -> bool {
    forall|i: int, j: int|
        0 <= i < j < ms.len() ==> lex_lt(#[trigger] ms[i].address, #[trigger] ms[j].address)
}

/// Roster invariant: sorted (hence unique) addresses, and a total weight
/// that fits the tally counters, so weighted sums of distinct voters
/// never overflow.
pub open spec fn members_wf(ms: Seq<AbsMember>) -> bool {
    &&& members_sorted(ms)
    &&& sum_weights(ms) <= u128::MAX
}

/// Per-proposal invariant: distinct voters, all of them members, and a
/// tally that is exactly the summed weight of those voters.
pub open spec fn proposal_wf(ms: Seq<AbsMember>, p: AbsProposal) -> bool {
    &&& voters_distinct(p.voters)
    &&& voters_are_members(ms, p.voters)
    &&& p.votes_for + p.votes_against == sum_voter_weights(ms, p.voters)
}

/// Whole-state invariant.
pub open spec fn state_wf(s: AbsState) -> bool {
    &&& members_wf(s.members)
    &&& forall|i: int, j: int|
        0 <= i < j < s.proposals.len() ==> s.proposals[i].id < s.proposals[j].id
    &&& forall|i: int| 0 <= i < s.proposals.len() ==> (#[trigger] s.proposals[i]).id < s.next_id
    &&& forall|i: int| 0 <= i < s.proposals.len() ==> proposal_wf(s.members, #[trigger] s.proposals[i])
}

/// No two roster entries hold the same address.
pub open spec fn members_distinct(ms: Seq<AbsMember>) -> bool {
    forall|i: int, j: int|
        0 <= i < j < ms.len() ==> (#[trigger] ms[i].address) != (#[trigger] ms[j].address)
}

/// In a sorted roster all addresses are distinct.
pub proof fn lemma_sorted_members_distinct(ms: Seq<AbsMember>)
    requires
        members_sorted(ms),
    ensures
        members_distinct(ms),
{
    assert forall|i: int, j: int| 0 <= i < j < ms.len() implies (#[trigger] ms[i].address)
        != (#[trigger] ms[j].address) by {
        lemma_lex_irreflexive(ms[i].address);
    }
}

// ---------------------------------------------------------------------------
// A set of distinct voters never outweighs the whole roster
// ---------------------------------------------------------------------------

pub proof fn lemma_sum_weights_remove(ms: Seq<AbsMember>, k: int)
    requires
        0 <= k < ms.len(),
    ensures
        sum_weights(ms) == ms[k].weight + sum_weights(ms.remove(k)),
    decreases k,
{
    if k == 0 {
        assert(ms.remove(0) =~= ms.drop_first());
    } else {
        assert(ms.remove(k)[0] == ms[0]);
        assert(ms.remove(k).drop_first() =~= ms.drop_first().remove(k - 1));
        assert(ms.drop_first()[k - 1] == ms[k]);
        lemma_sum_weights_remove(ms.drop_first(), k - 1);
    }
}

pub proof fn lemma_member_idx_remove(ms: Seq<AbsMember>, k: int, v: Seq<u8>)
    requires
        0 <= k < ms.len(),
        members_distinct(ms),
        v != ms[k].address,
        is_member(ms, v),
    ensures
        is_member(ms.remove(k), v),
        member_weight(ms.remove(k), v) == member_weight(ms, v),
{
    lemma_member_idx_valid(ms, v);
    let i = member_idx(ms, v);
    let i2: int = if i < k {
        i
    } else {
        i - 1
    };
    assert forall|j: int| 0 <= j < ms.remove(k).len() implies #[trigger] ms.remove(k)[j] == (
    if j < k {
        ms[j]
    } else {
        ms[j + 1]
    }) by {}
    assert(ms.remove(k)[i2] == ms[i]);
    assert forall|j: int| 0 <= j < i2 implies ms.remove(k)[j].address != v by {
        let orig: int = if j < k {
            j
        } else {
            j + 1
        };
        if orig != i {
            if ms[orig].address == v {
                assert(ms[orig].address == ms[i].address);
            }
        }
    }
    lemma_member_idx_first(ms.remove(k), v, i2);
}

pub proof fn lemma_sum_voter_weights_remove(ms: Seq<AbsMember>, k: int, vs: Seq<Seq<u8>>)
    requires
        0 <= k < ms.len(),
        members_distinct(ms),
        forall|i: int| 0 <= i < vs.len() ==> #[trigger] vs[i] != ms[k].address,
        voters_are_members(ms, vs),
    ensures
        voters_are_members(ms.remove(k), vs),
        sum_voter_weights(ms.remove(k), vs) == sum_voter_weights(ms, vs),
    decreases vs.len(),
{
    if vs.len() > 0 {
        lemma_member_idx_remove(ms, k, vs[0]);
        assert(forall|i: int| 0 <= i < vs.drop_first().len() ==> vs.drop_first()[i] == vs[i + 1]);
        lemma_sum_voter_weights_remove(ms, k, vs.drop_first());
        assert forall|i: int| 0 <= i < vs.len() implies is_member(
            ms.remove(k),
            #[trigger] vs[i],
        ) by {
            if i > 0 {
                assert(is_member(ms.remove(k), vs.drop_first()[i - 1]));
            }
        }
    }
}

/// Distinct voters drawn from the roster can never carry more weight
/// than the roster as a whole.
pub proof fn lemma_voter_sum_bounded(ms: Seq<AbsMember>, vs: Seq<Seq<u8>>)
    requires
        members_distinct(ms),
        voters_distinct(vs),
        voters_are_members(ms, vs),
    ensures
        0 <= sum_voter_weights(ms, vs) <= sum_weights(ms),
    decreases vs.len(),
{
    if vs.len() == 0 {
        lemma_sum_weights_nonneg(ms);
    } else {
        lemma_member_idx_valid(ms, vs[0]);
        let k = member_idx(ms, vs[0]);
        let rest = vs.drop_first();
        assert(forall|i: int| 0 <= i < rest.len() ==> rest[i] == vs[i + 1]);
        assert forall|i: int| 0 <= i < rest.len() implies #[trigger] rest[i] != ms[k].address by {
            assert(vs[0] != vs[i + 1]);
        }
        lemma_sum_voter_weights_remove(ms, k, rest);
        assert forall|i: int, j: int|
            0 <= i < j < ms.remove(k).len() implies (#[trigger] ms.remove(k)[i].address) != (
        #[trigger] ms.remove(k)[j].address) by {
            let oi: int = if i < k {
                i
            } else {
                i + 1
            };
            let oj: int = if j < k {
                j
            } else {
                j + 1
            };
            assert(ms.remove(k)[i] == ms[oi]);
            assert(ms.remove(k)[j] == ms[oj]);
        }
        lemma_voter_sum_bounded(ms.remove(k), rest);
        lemma_sum_weights_remove(ms, k);
    }
}

/// Under the roster invariant, a well-formed proposal's tally always
/// fits the counters even after one more distinct member votes.
pub proof fn lemma_tally_bounded(ms: Seq<AbsMember>, vs: Seq<Seq<u8>>)
    requires
        members_wf(ms),
        voters_distinct(vs),
        voters_are_members(ms, vs),
    ensures
        0 <= sum_voter_weights(ms, vs) <= u128::MAX,
{
    lemma_sorted_members_distinct(ms);
    lemma_voter_sum_bounded(ms, vs);
}

// ---------------------------------------------------------------------------
// Sorted insert-or-replace into the roster
// ---------------------------------------------------------------------------

/// Insert a member into a sorted roster, replacing an entry that already
/// carries the same address.
pub open spec fn insert_member_spec(ms: Seq<AbsMember>, m: AbsMember) -> Seq<AbsMember>
    decreases ms.len(),
{
    if ms.len() == 0 {
        seq![m]
    } else if lex_lt(m.address, ms[0].address) {
        seq![m] + ms
    } else if m.address == ms[0].address {
        seq![m] + ms.drop_first()
    } else {
        seq![ms[0]] + insert_member_spec(ms.drop_first(), m)
    }
}

/// Adding one voter adds exactly that voter's roster weight to the sum.
pub proof fn lemma_sum_voter_weights_push(ms: Seq<AbsMember>, vs: Seq<Seq<u8>>, v: Seq<u8>)
    ensures
        sum_voter_weights(ms, vs.push(v)) == sum_voter_weights(ms, vs) + member_weight(ms, v),
    decreases vs.len(),
{
    if vs.len() == 0 {
        assert(vs.push(v)[0] == v);
        assert(vs.push(v).drop_first() =~= Seq::<Seq<u8>>::empty());
        assert(sum_voter_weights(ms, vs.push(v)) == member_weight(ms, v) + sum_voter_weights(
            ms,
            vs.push(v).drop_first(),
        ));
        assert(sum_voter_weights(ms, vs.push(v).drop_first()) == 0);
    } else {
        assert(vs.push(v)[0] == vs[0]);
        assert(vs.push(v).drop_first() =~= vs.drop_first().push(v));
        lemma_sum_voter_weights_push(ms, vs.drop_first(), v);
        assert(sum_voter_weights(ms, vs.push(v)) == member_weight(ms, vs[0]) + sum_voter_weights(
            ms,
            vs.push(v).drop_first(),
        ));
    }
}

/// Summing one more roster entry of a prefix.
pub proof fn lemma_sum_weights_take_step(s: Seq<AbsMember>, i: int)
    requires
        0 <= i < s.len(),
    ensures
        sum_weights(s.take(i + 1)) == sum_weights(s.take(i)) + s[i].weight,
    decreases i,
{
    if i == 0 {
        assert(s.take(1)[0] == s[0]);
        assert(s.take(1).drop_first() =~= Seq::<AbsMember>::empty());
        assert(s.take(0) =~= Seq::<AbsMember>::empty());
    } else {
        assert(s.take(i + 1)[0] == s[0]);
        assert(s.take(i)[0] == s[0]);
        assert(s.take(i + 1).drop_first() =~= s.drop_first().take(i));
        assert(s.take(i).drop_first() =~= s.drop_first().take(i - 1));
        assert(s.drop_first()[i - 1] == s[i]);
        lemma_sum_weights_take_step(s.drop_first(), i - 1);
    }
}

pub proof fn lemma_sum_weights_cons(x: AbsMember, s: Seq<AbsMember>)
    ensures
        sum_weights(seq![x] + s) == x.weight + sum_weights(s),
{
    assert((seq![x] + s).drop_first() =~= s);
    assert((seq![x] + s)[0] == x);
}

pub proof fn lemma_insert_member_sum(ms: Seq<AbsMember>, m: AbsMember)
    ensures
        sum_weights(insert_member_spec(ms, m)) <= sum_weights(ms) + m.weight,
    decreases ms.len(),
{
    if ms.len() == 0 {
        lemma_sum_weights_cons(m, Seq::empty());
        assert(seq![m] =~= seq![m] + Seq::<AbsMember>::empty());
    } else if lex_lt(m.address, ms[0].address) {
        lemma_sum_weights_cons(m, ms);
    } else if m.address == ms[0].address {
        lemma_sum_weights_cons(m, ms.drop_first());
        lemma_sum_weights_nonneg(ms.drop_first());
    } else {
        lemma_insert_member_sum(ms.drop_first(), m);
        lemma_sum_weights_cons(ms[0], insert_member_spec(ms.drop_first(), m));
    }
}

/// Where the executable insert lands: scanning past `i` strictly smaller
/// addresses, the spec insert either replaces index `i` or inserts there.
pub proof fn lemma_insert_member_split(ms: Seq<AbsMember>, m: AbsMember, i: int)
    requires
        0 <= i <= ms.len(),
        forall|j: int| 0 <= j < i ==> lex_lt((#[trigger] ms[j]).address, m.address),
        i < ms.len() ==> !lex_lt(ms[i].address, m.address),
    ensures
        i < ms.len() && ms[i].address == m.address ==> insert_member_spec(ms, m) == ms.update(
            i,
            m,
        ),
        !(i < ms.len() && ms[i].address == m.address) ==> insert_member_spec(ms, m) == ms.insert(
            i,
            m,
        ),
    decreases i,
{
    if i == 0 {
        if ms.len() == 0 {
            assert(insert_member_spec(ms, m) =~= ms.insert(0, m));
        } else if ms[0].address == m.address {
            lemma_lex_irreflexive(m.address);
            assert(seq![m] + ms.drop_first() =~= ms.update(0, m));
        } else {
            lemma_lex_total(ms[0].address, m.address);
            assert(lex_lt(m.address, ms[0].address));
            assert(seq![m] + ms =~= ms.insert(0, m));
        }
    } else {
        assert(lex_lt(ms[0].address, m.address));
        lemma_lex_strict(ms[0].address, m.address);
        let rest = ms.drop_first();
        assert(forall|j: int| 0 <= j < rest.len() ==> rest[j] == ms[j + 1]);
        lemma_insert_member_split(rest, m, i - 1);
        if i < ms.len() && ms[i].address == m.address {
            assert(seq![ms[0]] + rest.update(i - 1, m) =~= ms.update(i, m));
        } else {
            assert(seq![ms[0]] + rest.insert(i - 1, m) =~= ms.insert(i, m));
        }
    }
}

pub proof fn lemma_insert_member_sorted(ms: Seq<AbsMember>, m: AbsMember, i: int)
    requires
        members_sorted(ms),
        0 <= i <= ms.len(),
        forall|j: int| 0 <= j < i ==> lex_lt((#[trigger] ms[j]).address, m.address),
        i < ms.len() ==> !lex_lt(ms[i].address, m.address),
    ensures
        i < ms.len() && ms[i].address == m.address ==> members_sorted(ms.update(i, m)),
        !(i < ms.len() && ms[i].address == m.address) ==> members_sorted(ms.insert(i, m)),
{
    if i < ms.len() && ms[i].address == m.address {
        let r = ms.update(i, m);
        assert forall|x: int, y: int| 0 <= x < y < r.len() implies lex_lt(
            (#[trigger] r[x]).address,
            (#[trigger] r[y]).address,
        ) by {
            assert(ms[x].address == r[x].address);
            assert(ms[y].address == r[y].address);
        }
    } else {
        if i < ms.len() {
            lemma_lex_total(ms[i].address, m.address);
            assert(lex_lt(m.address, ms[i].address));
        }
        let r = ms.insert(i, m);
        assert forall|x: int, y: int| 0 <= x < y < r.len() implies lex_lt(
            (#[trigger] r[x]).address,
            (#[trigger] r[y]).address,
        ) by {
            if x < i && y == i {
            } else if x == i && y > i {
                assert(r[y] == ms[y - 1]);
                if y - 1 > i {
                    assert(lex_lt(ms[i].address, ms[y - 1].address));
                    lemma_lex_transitive(
                        m.address,
                        ms[i].address,
                        ms[y - 1].address,
                    );
                }
            } else if x < i && y > i {
                assert(r[x] == ms[x]);
                assert(r[y] == ms[y - 1]);
                if y - 1 == x {
                } else {
                    assert(lex_lt(ms[x].address, ms[y - 1].address));
                }
            } else if x > i && y > i {
                assert(r[x] == ms[x - 1]);
                assert(r[y] == ms[y - 1]);
            } else {
                assert(r[x] == ms[x]);
                assert(r[y] == ms[y]);
            }
        }
    }
}

// ---------------------------------------------------------------------------
// Executable store operations
// ---------------------------------------------------------------------------

/// Linear scan of the roster for an address.
pub fn find_member(ms: &Vec<Member>, addr: &Identity) -> (r: Option<usize>)
    ensures
        match r {
            Some(i) => i < ms.len() && i == member_idx(ms.deep_view(), addr@),
            None => !is_member(ms.deep_view(), addr@),
        },
{
    let mut i: usize = 0;
    while i < ms.len()
        invariant
            i <= ms.len(),
            forall|j: int| 0 <= j < i ==> (#[trigger] ms.deep_view()[j]).address != addr@,
        decreases ms.len() - i,
    {
        let o = identity_cmp(&ms[i].address, addr);
        if let KeyOrder::Equal = o {
            proof {
                lemma_member_idx_first(ms.deep_view(), addr@, i as int);
            }
            return Some(i);
        }
        proof {
            assert(ms.deep_view()[i as int] == ms[i as int]@);
        }
        i = i + 1;
    }
    proof {
        lemma_member_idx_valid(ms.deep_view(), addr@);
        if member_idx(ms.deep_view(), addr@) >= 0 {
            assert(ms.deep_view()[member_idx(ms.deep_view(), addr@)].address == addr@);
        }
    }
    None
}

/// Linear scan of the proposal store for an id.
pub fn find_proposal(ps: &Vec<Proposal>, id: u64) -> (r: Option<usize>)
    ensures
        match r {
            Some(i) => i < ps.len() && i == proposal_idx(ps.deep_view(), id),
            None => !has_proposal(ps.deep_view(), id),
        },
{
    let mut i: usize = 0;
    while i < ps.len()
        invariant
            i <= ps.len(),
            forall|j: int| 0 <= j < i ==> (#[trigger] ps.deep_view()[j]).id != id,
        decreases ps.len() - i,
    {
        if ps[i].id == id {
            proof {
                lemma_proposal_idx_first(ps.deep_view(), id, i as int);
            }
            return Some(i);
        }
        proof {
            assert(ps.deep_view()[i as int] == ps[i as int]@);
        }
        i = i + 1;
    }
    proof {
        lemma_proposal_idx_valid(ps.deep_view(), id);
        if proposal_idx(ps.deep_view(), id) >= 0 {
            assert(ps.deep_view()[proposal_idx(ps.deep_view(), id)].id == id);
        }
    }
    None
}

fn member_insert_pos(ms: &Vec<Member>, addr: &Identity) -> (i: usize)
    ensures
        i <= ms.len(),
        forall|j: int| 0 <= j < i ==> lex_lt((#[trigger] ms.deep_view()[j]).address, addr@),
        i < ms.len() ==> !lex_lt(ms.deep_view()[i as int].address, addr@),
{
    let mut i: usize = 0;
    while i < ms.len()
        invariant
            i <= ms.len(),
            forall|j: int| 0 <= j < i ==> lex_lt((#[trigger] ms.deep_view()[j]).address, addr@),
        decreases ms.len() - i,
    {
        let o = identity_cmp(&ms[i].address, addr);
        match o {
            KeyOrder::Less => {
                proof {
                    assert(ms.deep_view()[i as int] == ms[i as int]@);
                }
                i = i + 1;
            },
            KeyOrder::Equal => {
                proof {
                    assert(ms.deep_view()[i as int] == ms[i as int]@);
                    lemma_lex_irreflexive(addr@);
                }
                return i;
            },
            KeyOrder::Greater => {
                proof {
                    assert(ms.deep_view()[i as int] == ms[i as int]@);
                    lemma_lex_strict(addr@, ms[i as int]@.address);
                }
                return i;
            },
        }
    }
    i
}

/// Insert a member into the sorted roster, replacing the entry with the
/// same address if there is one.
pub fn insert_member(ms: &mut Vec<Member>, m: Member)
    ensures
        final(ms).deep_view() == insert_member_spec(old(ms).deep_view(), m@),
        members_sorted(old(ms).deep_view()) ==> members_sorted(final(ms).deep_view()),
{
    let i = member_insert_pos(ms, &m.address);
    proof {
        lemma_insert_member_split(ms.deep_view(), m@, i as int);
        if members_sorted(ms.deep_view()) {
            lemma_insert_member_sorted(ms.deep_view(), m@, i as int);
        }
    }
    if i < ms.len() {
        let o = identity_cmp(&ms[i].address, &m.address);
        if let KeyOrder::Equal = o {
            let ghost before = ms.deep_view();
            ms.set(i, m);
            proof {
                assert(ms.deep_view() =~= before.update(i as int, m@));
            }
            return;
        }
        proof {
            assert(ms.deep_view()[i as int].address != m@.address);
        }
    }
    let ghost before = ms.deep_view();
    ms.insert(i, m);
    proof {
        assert(ms.deep_view() =~= before.insert(i as int, m@));
    }
}

/// Whether the voter list already holds the given address.
pub fn voters_contain(vs: &Vec<Identity>, addr: &Identity) -> (b: bool)
    ensures
        b == vs.deep_view().contains(addr@),
{
    let mut i: usize = 0;
    while i < vs.len()
        invariant
            i <= vs.len(),
            forall|j: int| 0 <= j < i ==> (#[trigger] vs.deep_view()[j]) != addr@,
        decreases vs.len() - i,
    {
        let o = identity_cmp(&vs[i], addr);
        if let KeyOrder::Equal = o {
            proof {
                assert(vs.deep_view()[i as int] == addr@);
            }
            return true;
        }
        proof {
            assert(vs.deep_view()[i as int] == vs[i as int]@);
        }
        i = i + 1;
    }
    proof {
        if vs.deep_view().contains(addr@) {
            let w = choose|w: int| 0 <= w < vs.deep_view().len() && vs.deep_view()[w] == addr@;
            assert(vs.deep_view()[w] != addr@);
        }
    }
    false
}

/// A fresh member record holding the same address and weight.
pub fn copy_member(m: &Member) -> (r: Member)
    ensures
        r@ == m@,
{
    Member { address: m.address.duplicate(), weight: m.weight }
}

fn copy_voters(vs: &Vec<Identity>) -> (r: Vec<Identity>)
    ensures
        r.deep_view() == vs.deep_view(),
{
    let mut r: Vec<Identity> = Vec::new();
    let mut i: usize = 0;
    while i < vs.len()
        invariant
            i <= vs.len(),
            r@.len() == i,
            forall|j: int| 0 <= j < i ==> (#[trigger] r@[j])@ == vs@[j]@,
        decreases vs.len() - i,
    {
        let d = vs[i].duplicate();
        r.push(d);
        i = i + 1;
    }
    proof {
        assert(r.deep_view() =~= vs.deep_view());
    }
    r
}

/// A fresh proposal record with the same contents.
pub fn copy_proposal(p: &Proposal) -> (r: Proposal)
    ensures
        r@ == p@,
{
    Proposal {
        id: p.id,
        title: p.title.clone(),
        description: p.description.clone(),
        recipient: p.recipient.duplicate(),
        amount: p.amount,
        votes_for: p.votes_for,
        votes_against: p.votes_against,
        voters: copy_voters(&p.voters),
        executed: p.executed,
    }
}

} // verus!

//! End-to-end tests of the governance core on concrete values.

use grant_dao::contract::execute;
use grant_dao::contract::instantiate;
use grant_dao::contract::query;
use grant_dao::contract::query_get_member;
use grant_dao::contract::query_get_proposal;
use grant_dao::contract::query_list_members;
use grant_dao::contract::query_list_proposals;
use grant_dao::error::ContractError;
use grant_dao::ident::Identity;
use grant_dao::msg::ExecuteMsg;
use grant_dao::msg::InstantiateMsg;
use grant_dao::msg::QueryMsg;
use grant_dao::msg::QueryResponse;
use grant_dao::state::DaoState;
use grant_dao::state::Member;

fn ident(s: &str) -> Identity {
    Identity::new(s.as_bytes().to_vec())
}

fn member(addr: &str, weight: u128) -> Member {
    Member { address: ident(addr), weight }
}

fn setup(members: Vec<Member>) -> DaoState {
    instantiate(InstantiateMsg { members })
}

fn propose_msg(title: &str, description: &str, recipient: &str, amount: u128) -> ExecuteMsg {
    ExecuteMsg::Propose {
        title: title.to_string(),
        description: description.to_string(),
        recipient: Some(ident(recipient)),
        amount: Some(amount),
    }
}

#[test]
fn proper_instantiation() {
    let members = vec![member("addr1", 10), member("addr2", 20)];
    let state = setup(members);
    let listed = query_list_members(&state, None, None);
    assert_eq!(2, listed.len());
    assert_eq!(listed[0].address.bytes, b"addr1".to_vec());
    assert_eq!(listed[0].weight, 10);
    assert_eq!(listed[1].address.bytes, b"addr2".to_vec());
    assert_eq!(listed[1].weight, 20);
}

#[test]
fn proposal_creation() {
    let mut state = setup(vec![member("addr1", 10)]);
    let msg = propose_msg("Test Proposal", "Description for test", "recipient_address", 100);
    let res = execute(&mut state, ident("addr1"), msg, 0).unwrap();
    assert!(res.transfer.is_none());
    assert!(res.report.is_none());
    let p = query_get_proposal(&state, 0).unwrap();
    assert_eq!(p.title, "Test Proposal");
    assert_eq!(p.description, "Description for test");
    assert_eq!(p.recipient.bytes, b"recipient_address".to_vec());
    assert_eq!(p.amount, 100);
    assert_eq!(p.votes_for, 0);
    assert_eq!(p.votes_against, 0);
    assert!(p.voters.is_empty());
    assert!(!p.executed);
}

#[test]
fn vote_for_proposal() {
    let mut state = setup(vec![member("addr1", 10)]);
    let msg = propose_msg("Some Title", "Some Description", "recipient_address", 100);
    execute(&mut state, ident("addr1"), msg, 0).unwrap();

    let vote_msg = ExecuteMsg::Vote { proposal_id: 0, approve: true };
    let res = execute(&mut state, ident("addr1"), vote_msg, 0).unwrap();
    assert!(res.transfer.is_none());

    // Voting again should fail
    let vote_again = ExecuteMsg::Vote { proposal_id: 0, approve: true };
    execute(&mut state, ident("addr1"), vote_again, 0).unwrap_err();
}

#[test]
fn execute_proposal() {
    let mut state = setup(vec![member("sender", 10)]);
    let msg = propose_msg("Some Title", "Some Description", "recipient_address", 100);
    execute(&mut state, ident("sender"), msg, 0).unwrap();

    let vote_msg = ExecuteMsg::Vote { proposal_id: 0, approve: true };
    execute(&mut state, ident("sender"), vote_msg, 0).unwrap();

    // Should fail because no funds in the treasury
    let exec_msg = ExecuteMsg::Execute { proposal_id: 0 };
    execute(&mut state, ident("sender"), exec_msg, 0).unwrap_err();

    // With 100 units in the treasury, execution succeeds and emits the
    // transfer the recipient's ledger will receive
    let exec_msg = ExecuteMsg::Execute { proposal_id: 0 };
    let res = execute(&mut state, ident("sender"), exec_msg, 100).unwrap();
    let transfer = res.transfer.unwrap();
    assert_eq!(transfer.to.bytes, b"recipient_address".to_vec());
    assert_eq!(transfer.amount, 100);
    assert_eq!(transfer.denom, "udevcore");
}

#[test]
fn tally_sums_weights_of_distinct_voters() {
    let mut state = setup(vec![member("a", 10), member("b", 20), member("c", 7)]);
    execute(&mut state, ident("a"), propose_msg("t", "d", "r", 5), 0).unwrap();
    execute(&mut state, ident("a"), ExecuteMsg::Vote { proposal_id: 0, approve: true }, 0).unwrap();
    execute(&mut state, ident("b"), ExecuteMsg::Vote { proposal_id: 0, approve: false }, 0)
        .unwrap();
    execute(&mut state, ident("c"), ExecuteMsg::Vote { proposal_id: 0, approve: true }, 0).unwrap();
    let p = query_get_proposal(&state, 0).unwrap();
    assert_eq!(p.votes_for, 17);
    assert_eq!(p.votes_against, 20);
    assert_eq!(p.votes_for + p.votes_against, 10 + 20 + 7);
    assert_eq!(p.voters.len(), 3);
}

#[test]
fn double_vote_leaves_proposal_unchanged() {
    let mut state = setup(vec![member("a", 10), member("b", 20)]);
    execute(&mut state, ident("a"), propose_msg("t", "d", "r", 5), 0).unwrap();
    execute(&mut state, ident("a"), ExecuteMsg::Vote { proposal_id: 0, approve: true }, 0).unwrap();
    let before = query_get_proposal(&state, 0).unwrap();

    // The second vote fails with MemberAlreadyVoted whichever way it goes
    let err = execute(&mut state, ident("a"), ExecuteMsg::Vote { proposal_id: 0, approve: false }, 0)
        .unwrap_err();
    assert!(matches!(err, ContractError::MemberAlreadyVoted));
    let after = query_get_proposal(&state, 0).unwrap();
    assert_eq!(before.votes_for, after.votes_for);
    assert_eq!(before.votes_against, after.votes_against);
    assert_eq!(before.voters.len(), after.voters.len());
}

#[test]
fn execute_without_majority_is_a_no_op() {
    let mut state = setup(vec![member("a", 10), member("b", 10)]);
    execute(&mut state, ident("a"), propose_msg("t", "d", "r", 5), 0).unwrap();
    execute(&mut state, ident("a"), ExecuteMsg::Vote { proposal_id: 0, approve: true }, 0).unwrap();
    execute(&mut state, ident("b"), ExecuteMsg::Vote { proposal_id: 0, approve: false }, 0)
        .unwrap();
    // A tie blocks execution but is success, not error, and changes nothing
    let res = execute(&mut state, ident("a"), ExecuteMsg::Execute { proposal_id: 0 }, 1000)
        .unwrap();
    assert!(res.transfer.is_none());
    assert!(res.report.is_none());
    assert!(!query_get_proposal(&state, 0).unwrap().executed);
}

#[test]
fn execute_is_exactly_once() {
    let mut state = setup(vec![member("a", 10)]);
    execute(&mut state, ident("a"), propose_msg("t", "d", "r", 5), 0).unwrap();
    execute(&mut state, ident("a"), ExecuteMsg::Vote { proposal_id: 0, approve: true }, 0).unwrap();
    let res = execute(&mut state, ident("a"), ExecuteMsg::Execute { proposal_id: 0 }, 5).unwrap();
    assert!(res.transfer.is_some());
    let err = execute(&mut state, ident("a"), ExecuteMsg::Execute { proposal_id: 0 }, 5)
        .unwrap_err();
    assert!(matches!(err, ContractError::AlreadyExecuted));
    let err = execute(&mut state, ident("a"), ExecuteMsg::Execute { proposal_id: 0 }, 5000)
        .unwrap_err();
    assert!(matches!(err, ContractError::AlreadyExecuted));
}

#[test]
fn insufficient_funds_then_retry() {
    // The end-to-end scenario: A(10), B(20); A proposes 100 units to R and
    // approves; the tally passes, but the treasury is short.
    let mut state = setup(vec![member("member_a", 10), member("member_b", 20)]);
    execute(&mut state, ident("member_a"), propose_msg("t", "d", "recipient_r", 100), 0).unwrap();
    execute(&mut state, ident("member_a"), ExecuteMsg::Vote { proposal_id: 0, approve: true }, 0)
        .unwrap();
    let err = execute(&mut state, ident("member_a"), ExecuteMsg::Execute { proposal_id: 0 }, 99)
        .unwrap_err();
    assert!(matches!(err, ContractError::InsufficientFunds));
    assert!(!query_get_proposal(&state, 0).unwrap().executed);
    // Once the treasury covers the amount, the same request completes
    let res = execute(&mut state, ident("member_a"), ExecuteMsg::Execute { proposal_id: 0 }, 100)
        .unwrap();
    let transfer = res.transfer.unwrap();
    assert_eq!(transfer.to.bytes, b"recipient_r".to_vec());
    assert_eq!(transfer.amount, 100);
    assert!(query_get_proposal(&state, 0).unwrap().executed);
    let err = execute(&mut state, ident("member_a"), ExecuteMsg::Execute { proposal_id: 0 }, 100)
        .unwrap_err();
    assert!(matches!(err, ContractError::AlreadyExecuted));
}

#[test]
fn zero_amount_execution_emits_no_transfer() {
    let mut state = setup(vec![member("a", 10)]);
    let msg = ExecuteMsg::Propose {
        title: "t".to_string(),
        description: "d".to_string(),
        recipient: None,
        amount: None,
    };
    execute(&mut state, ident("a"), msg, 0).unwrap();
    let p = query_get_proposal(&state, 0).unwrap();
    // recipient defaults to the proposer, amount to zero
    assert_eq!(p.recipient.bytes, b"a".to_vec());
    assert_eq!(p.amount, 0);
    execute(&mut state, ident("a"), ExecuteMsg::Vote { proposal_id: 0, approve: true }, 0).unwrap();
    let res = execute(&mut state, ident("a"), ExecuteMsg::Execute { proposal_id: 0 }, 0).unwrap();
    assert!(res.transfer.is_none());
    assert!(res.report.is_some());
    assert!(query_get_proposal(&state, 0).unwrap().executed);
}

#[test]
fn error_variants_on_bad_requests() {
    let mut state = setup(vec![member("a", 10)]);
    let err = execute(&mut state, ident("intruder"), propose_msg("t", "d", "r", 1), 0)
        .unwrap_err();
    assert!(matches!(err, ContractError::Unauthorized));
    let err = execute(&mut state, ident("intruder"), ExecuteMsg::Vote { proposal_id: 0, approve: true }, 0)
        .unwrap_err();
    assert!(matches!(err, ContractError::Unauthorized));
    let err = execute(&mut state, ident("a"), ExecuteMsg::Vote { proposal_id: 7, approve: true }, 0)
        .unwrap_err();
    assert!(matches!(err, ContractError::ProposalDoesNotExist));
    let err = execute(&mut state, ident("a"), ExecuteMsg::Execute { proposal_id: 7 }, 0)
        .unwrap_err();
    assert!(matches!(err, ContractError::ProposalDoesNotExist));
    let err = query_get_proposal(&state, 3).unwrap_err();
    assert!(matches!(err, ContractError::NotFound));
    let err = query_get_member(&state, &ident("nobody")).unwrap_err();
    assert!(matches!(err, ContractError::NotFound));
}

#[test]
fn ids_are_fresh_and_never_reused() {
    let mut state = setup(vec![member("a", 10)]);
    execute(&mut state, ident("a"), propose_msg("first", "d", "r", 1), 0).unwrap();
    execute(&mut state, ident("a"), propose_msg("second", "d", "r", 2), 0).unwrap();
    execute(&mut state, ident("a"), propose_msg("third", "d", "r", 3), 0).unwrap();
    assert_eq!(query_get_proposal(&state, 0).unwrap().title, "first");
    assert_eq!(query_get_proposal(&state, 1).unwrap().title, "second");
    assert_eq!(query_get_proposal(&state, 2).unwrap().title, "third");
    assert_eq!(query_list_proposals(&state, None, None).len(), 3);
}

#[test]
fn duplicate_setup_address_keeps_last_weight() {
    let state = setup(vec![member("a", 10), member("b", 5), member("a", 42)]);
    let m = query_get_member(&state, &ident("a")).unwrap();
    assert_eq!(m.weight, 42);
    assert_eq!(query_list_members(&state, None, None).len(), 2);
}

#[test]
fn pagination_of_proposals() {
    let mut state = setup(vec![member("a", 10)]);
    for i in 0..5u64 {
        execute(&mut state, ident("a"), propose_msg(&format!("p{}", i), "d", "r", i as u128), 0)
            .unwrap();
    }
    // the next two proposals with id strictly greater than 1
    let page = query_list_proposals(&state, Some(1), Some(2));
    assert_eq!(page.len(), 2);
    assert_eq!(page[0].id, 2);
    assert_eq!(page[1].id, 3);
    // fewer at the end
    let page = query_list_proposals(&state, Some(3), Some(10));
    assert_eq!(page.len(), 1);
    assert_eq!(page[0].id, 4);
    // an out-of-range cursor yields an empty page, not an error
    let page = query_list_proposals(&state, Some(99), None);
    assert!(page.is_empty());
}

#[test]
fn pagination_clamps_large_limits() {
    let mut state = setup(vec![member("a", 1)]);
    for i in 0..260u64 {
        execute(&mut state, ident("a"), propose_msg(&format!("p{}", i), "d", "r", 0), 0).unwrap();
    }
    assert_eq!(query_list_proposals(&state, None, Some(1000)).len(), 250);
    assert_eq!(query_list_proposals(&state, None, None).len(), 250);
    let rest = query_list_proposals(&state, Some(249), None);
    assert_eq!(rest.len(), 10);
    assert_eq!(rest[0].id, 250);
}

#[test]
fn members_listed_in_address_order() {
    let state = setup(vec![member("carol", 3), member("alice", 1), member("bob", 2)]);
    let listed = query_list_members(&state, None, None);
    assert_eq!(listed.len(), 3);
    assert_eq!(listed[0].address.bytes, b"alice".to_vec());
    assert_eq!(listed[1].address.bytes, b"bob".to_vec());
    assert_eq!(listed[2].address.bytes, b"carol".to_vec());
    let after_alice = query_list_members(&state, Some(ident("alice")), Some(1));
    assert_eq!(after_alice.len(), 1);
    assert_eq!(after_alice[0].address.bytes, b"bob".to_vec());
}

#[test]
fn query_dispatch_routes_every_kind() {
    let mut state = setup(vec![member("a", 10)]);
    execute(&mut state, ident("a"), propose_msg("t", "d", "r", 1), 0).unwrap();
    match query(&state, QueryMsg::GetProposal { proposal_id: 0 }).unwrap() {
        QueryResponse::Proposal(p) => assert_eq!(p.id, 0),
        other => panic!("unexpected response {:?}", other),
    }
    match query(&state, QueryMsg::ListProposals { start_after: None, limit: None }).unwrap() {
        QueryResponse::Proposals(v) => assert_eq!(v.len(), 1),
        other => panic!("unexpected response {:?}", other),
    }
    match query(&state, QueryMsg::GetMember { address: ident("a") }).unwrap() {
        QueryResponse::Member(m) => assert_eq!(m.weight, 10),
        other => panic!("unexpected response {:?}", other),
    }
    match query(&state, QueryMsg::ListMembers { start_after: None, limit: None }).unwrap() {
        QueryResponse::Members(v) => assert_eq!(v.len(), 1),
        other => panic!("unexpected response {:?}", other),
    }
}

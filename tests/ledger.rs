use vote_ledger::{Contract, ContractError, DocumentRequest, VOTE_COST};

const ONE_NEAR: u128 = 1_000_000_000_000_000_000_000_000;

fn name(s: &str) -> String {
    s.to_string()
}

fn request(title: &str) -> DocumentRequest {
    DocumentRequest {
        title: title.to_string(),
        description: format!("about {}", title),
        url: format!("https://example.org/{}", title),
    }
}

fn credits(c: &Contract, account: &str) -> u64 {
    c.get_user(&name(account)).map(|u| u.available_votes).unwrap_or(0)
}

#[test]
fn test() {
    let c = Contract::new();
    assert!(c.view_users().is_empty());
    assert!(c.view_documents().is_empty());
}

#[test]
fn vote_cost_is_half_a_unit() {
    assert_eq!(VOTE_COST, ONE_NEAR / 2);
}

#[test]
fn buying_with_one_point_two_units_gives_two_votes_and_refunds_the_rest() {
    let mut c = Contract::new();
    let refund = c.add_votes(name("alice"), name("alice"), ONE_NEAR * 12 / 10);
    assert_eq!(credits(&c, "alice"), 2);
    let t = refund.expect("a refund");
    assert_eq!(t.receiver, "alice");
    assert_eq!(t.amount, ONE_NEAR * 2 / 10);
}

#[test]
fn refund_goes_to_the_signer() {
    let mut c = Contract::new();
    let refund = c.add_votes(name("caller"), name("payer"), VOTE_COST + 7);
    assert_eq!(credits(&c, "caller"), 1);
    assert_eq!(credits(&c, "payer"), 0);
    let t = refund.expect("a refund");
    assert_eq!(t.receiver, "payer");
    assert_eq!(t.amount, 7);
}

#[test]
fn dust_of_one_unit_is_kept() {
    let mut c = Contract::new();
    assert!(c.add_votes(name("a"), name("a"), VOTE_COST + 1).is_none());
    assert!(c.add_votes(name("a"), name("a"), VOTE_COST).is_none());
    assert_eq!(credits(&c, "a"), 2);
    let t = c.add_votes(name("a"), name("a"), VOTE_COST + 2).expect("a refund");
    assert_eq!(t.amount, 2);
    assert_eq!(credits(&c, "a"), 3);
}

#[test]
fn deposit_below_one_vote_buys_nothing_and_is_refunded() {
    let mut c = Contract::new();
    let t = c.add_votes(name("a"), name("a"), VOTE_COST - 1).expect("a refund");
    assert_eq!(t.amount, VOTE_COST - 1);
    assert_eq!(credits(&c, "a"), 0);
    assert!(c.get_user(&name("a")).is_some());
    assert!(c.add_votes(name("b"), name("b"), 0).is_none());
    assert_eq!(c.view_users().len(), 2);
}

#[test]
fn largest_deposit_buys_its_floor() {
    let mut c = Contract::new();
    let t = c.add_votes(name("a"), name("a"), u128::MAX);
    let votes = u128::MAX / VOTE_COST;
    assert_eq!(credits(&c, "a") as u128, votes);
    assert_eq!(t.expect("a refund").amount, u128::MAX - votes * VOTE_COST);
}

#[test]
fn voting_without_credits_fails_and_changes_nothing() {
    let mut c = Contract::new();
    c.add_document(name("a"), request("first"));
    assert_eq!(c.place_vote(name("b"), 1), Err(ContractError::NotEnoughVotes));
    assert_eq!(c.get_document(1).unwrap().votes, 0);
    assert!(c.get_user(&name("b")).is_none());
}

#[test]
fn three_credits_three_votes_then_a_fourth_fails() {
    let mut c = Contract::new();
    c.add_document(name("a"), request("first"));
    assert!(c.add_votes(name("a"), name("a"), 3 * VOTE_COST).is_none());
    for _ in 0..3 {
        assert_eq!(c.place_vote(name("a"), 1), Ok(()));
    }
    assert_eq!(c.get_document(1).unwrap().votes, 3);
    assert_eq!(credits(&c, "a"), 0);
    assert_eq!(c.place_vote(name("a"), 1), Err(ContractError::NotEnoughVotes));
    assert_eq!(c.get_document(1).unwrap().votes, 3);
}

#[test]
fn vote_moves_one_credit_to_one_document() {
    let mut c = Contract::new();
    c.add_document(name("a"), request("first"));
    c.add_document(name("b"), request("second"));
    c.add_votes(name("v"), name("v"), 2 * VOTE_COST);
    assert_eq!(c.place_vote(name("v"), 2), Ok(()));
    assert_eq!(credits(&c, "v"), 1);
    assert_eq!(c.get_document(1).unwrap().votes, 0);
    assert_eq!(c.get_document(2).unwrap().votes, 1);
}

#[test]
fn voting_for_a_missing_document_fails_and_changes_nothing() {
    let mut c = Contract::new();
    c.add_document(name("a"), request("first"));
    c.add_votes(name("v"), name("v"), VOTE_COST);
    assert_eq!(c.place_vote(name("v"), 2), Err(ContractError::DocumentNotFound));
    assert_eq!(c.place_vote(name("v"), 0), Err(ContractError::DocumentNotFound));
    assert_eq!(credits(&c, "v"), 1);
    assert_eq!(c.get_document(1).unwrap().votes, 0);
}

#[test]
fn document_ids_run_from_one_whoever_submits() {
    let mut c = Contract::new();
    c.add_document(name("a"), request("first"));
    c.add_document(name("b"), request("second"));
    c.add_votes(name("a"), name("a"), VOTE_COST);
    c.place_vote(name("a"), 1).unwrap();
    c.add_document(name("a"), request("third"));
    let docs = c.view_documents();
    let ids: Vec<u64> = docs.iter().map(|(id, _)| *id).collect();
    assert_eq!(ids, vec![1, 2, 3]);
    assert_eq!(docs[0].1.title, "first");
    assert_eq!(docs[1].1.creator, "b");
    assert_eq!(docs[2].1.title, "third");
    assert_eq!(docs[2].1.url, "https://example.org/third");
    assert_eq!(docs[2].1.votes, 0);
    assert_eq!(docs[0].1.votes, 1);
}

#[test]
fn any_strings_are_accepted_as_a_document() {
    let mut c = Contract::new();
    let empty = DocumentRequest { title: String::new(), description: String::new(), url: String::new() };
    c.add_document(name("a"), empty);
    let d = c.get_document(1).unwrap();
    assert_eq!(d.title, "");
    assert_eq!(d.creator, "a");
    assert!(c.get_document(2).is_none());
}

#[test]
fn submitting_a_document_creates_the_record_once() {
    let mut c = Contract::new();
    c.add_document(name("a"), request("first"));
    c.add_document(name("a"), request("second"));
    let users = c.view_users();
    assert_eq!(users.len(), 1);
    assert_eq!(users[0].0, "a");
    assert_eq!(users[0].1.available_votes, 0);
    assert_eq!(users[0].1.voted, 0);
}

#[test]
fn get_or_create_account_is_idempotent() {
    let mut c = Contract::new();
    c.add_votes(name("a"), name("a"), 2 * VOTE_COST);
    let u = c.get_or_create_account(&name("a"));
    assert_eq!(u.available_votes, 2);
    let v = c.get_or_create_account(&name("b"));
    assert_eq!(v.account, "b");
    assert_eq!(v.available_votes, 0);
    c.get_or_create_account(&name("b"));
    assert_eq!(c.view_users().len(), 2);
}

#[test]
fn refund_only_above_one_unit() {
    let c = Contract::new();
    let t = c.refund(10, 8, name("p")).expect("a refund");
    assert_eq!(t.receiver, "p");
    assert_eq!(t.amount, 2);
    assert!(c.refund(10, 9, name("p")).is_none());
    assert!(c.refund(10, 10, name("p")).is_none());
    assert!(c.refund(5, 7, name("p")).is_none());
}

#[test]
fn send_multiple_pays_everyone_and_refunds_the_rest() {
    let c = Contract::new();
    let out = c
        .send_multiple(name("payer"), 100, vec![(name("x"), 30), (name("y"), 50)])
        .expect("sent");
    assert_eq!(out.len(), 3);
    assert_eq!((out[0].receiver.as_str(), out[0].amount), ("x", 30));
    assert_eq!((out[1].receiver.as_str(), out[1].amount), ("y", 50));
    assert_eq!((out[2].receiver.as_str(), out[2].amount), ("payer", 20));
}

#[test]
fn send_multiple_keeps_dust() {
    let c = Contract::new();
    let out = c.send_multiple(name("payer"), 81, vec![(name("x"), 30), (name("y"), 50)]).unwrap();
    assert_eq!(out.len(), 2);
    let out = c.send_multiple(name("payer"), 5, Vec::new()).unwrap();
    assert_eq!(out.len(), 1);
    assert_eq!(out[0].amount, 5);
}

#[test]
fn send_multiple_refuses_a_deposit_that_does_not_exceed_the_sum() {
    let c = Contract::new();
    let req = vec![(name("x"), 30), (name("y"), 50)];
    assert_eq!(
        c.send_multiple(name("payer"), 80, req.clone()).unwrap_err(),
        ContractError::NotEnoughDeposit
    );
    assert_eq!(
        c.send_multiple(name("payer"), 79, req).unwrap_err(),
        ContractError::NotEnoughDeposit
    );
    assert_eq!(
        c.send_multiple(name("payer"), 0, Vec::new()).unwrap_err(),
        ContractError::NotEnoughDeposit
    );
    let huge = vec![(name("x"), u128::MAX), (name("y"), u128::MAX)];
    assert_eq!(
        c.send_multiple(name("payer"), u128::MAX, huge).unwrap_err(),
        ContractError::NotEnoughDeposit
    );
}

#[test]
fn credits_bought_are_held_or_spent() {
    let mut c = Contract::new();
    c.add_document(name("d"), request("first"));
    c.add_votes(name("a"), name("a"), 5 * VOTE_COST + 3);
    c.add_votes(name("a"), name("a"), VOTE_COST / 2);
    c.place_vote(name("a"), 1).unwrap();
    c.place_vote(name("a"), 1).unwrap();
    assert!(c.place_vote(name("a"), 9).is_err());
    c.add_votes(name("a"), name("a"), 2 * VOTE_COST);
    c.place_vote(name("a"), 1).unwrap();
    let bought = 5 + 0 + 2;
    let spent = 3;
    assert_eq!(credits(&c, "a") + spent, bought);
    assert_eq!(c.get_document(1).unwrap().votes, spent);
}

#[test]
fn restore_keeps_a_ledger_and_refuses_duplicate_accounts() {
    let mut c = Contract::new();
    c.add_document(name("a"), request("first"));
    c.add_votes(name("a"), name("a"), 2 * VOTE_COST);
    c.place_vote(name("a"), 1).unwrap();
    let documents: Vec<_> = c.view_documents().into_iter().map(|(_, d)| d).collect();
    let users: Vec<_> = c.view_users().into_iter().map(|(_, u)| u).collect();
    let mut r = Contract::restore(documents, users.clone()).expect("restored");
    assert_eq!(r.get_document(1).unwrap().votes, 1);
    assert_eq!(credits(&r, "a"), 1);
    assert_eq!(r.place_vote(name("a"), 1), Ok(()));
    let mut twice = users.clone();
    twice.push(users[0].clone());
    assert!(Contract::restore(Vec::new(), twice).is_none());
}

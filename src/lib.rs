use vstd::prelude::*;

mod contract;
mod laws;
mod models;

pub use contract::{
    account_index, accounts_unique, bought_votes, has_account, has_document, new_document,
    new_user, payouts, refund_of, resolved, set_votes, settled, total_amount, vote_result,
    votes_of, with_vote, with_votes, Contract, ContractError, Transfer, VOTE_COST,
};
pub use laws::{
    is_run, ledger_step, lemma_successive_ids, lemma_votes_conserved, same_submission,
    submitted, votes_bought, votes_spent, LedgerCall,
};
pub use models::{Document, DocumentRequest, User};

verus! {

} // verus!

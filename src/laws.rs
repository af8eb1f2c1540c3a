use vstd::prelude::*;

use crate::contract::{
    bought_votes, lemma_resolved_votes, lemma_set_votes_of, new_document, resolved, set_votes,
    vote_result, votes_of, with_vote, Contract, VOTE_COST,
};
use crate::models::{Document, DocumentRequest};

verus! {

/// A call that changes the ledger, with the arguments that decide its effect.
pub enum LedgerCall {
    AddDocument { account: String, document: DocumentRequest },
    AddVotes { account: String, deposit: u128 },
    PlaceVote { account: String, id: u64 },
}

/// `after` is the ledger that `call` leaves behind when made on `before`, as the
/// operations' contracts state it; a purchase counts only where the credits fit in a `u64`.
pub open spec fn ledger_step(before: Contract, after: Contract, call: LedgerCall) -> bool {
    match call {
        LedgerCall::AddDocument { account, document } => after.spec_documents()
            == before.spec_documents().push(new_document(document, account))
            && after.spec_users() == resolved(before.spec_users(), account),
        LedgerCall::AddVotes { account, deposit } => votes_of(before.spec_users(), account@)
            + bought_votes(deposit, VOTE_COST) <= u64::MAX && after.spec_documents()
            == before.spec_documents() && after.spec_users() == set_votes(
            before.spec_users(),
            account,
            (votes_of(before.spec_users(), account@) + bought_votes(deposit, VOTE_COST)) as u64,
        ),
        LedgerCall::PlaceVote { account, id } => if vote_result(
            before.spec_users(),
            before.spec_documents(),
            account@,
            id,
        ) is Ok {
            after.spec_users() == set_votes(
                before.spec_users(),
                account,
                (votes_of(before.spec_users(), account@) - 1) as u64,
            ) && after.spec_documents() == before.spec_documents().update(
                id - 1,
                with_vote(before.spec_documents()[id - 1]),
            )
        } else {
            after.spec_users() == before.spec_users() && after.spec_documents()
                == before.spec_documents()
        },
    }
}

/// Each call turns one ledger into the next, and every ledger is well formed.
pub open spec fn is_run(states: Seq<Contract>, calls: Seq<LedgerCall>) -> bool {
    &&& states.len() == calls.len() + 1
    &&& forall|k: int| 0 <= k < states.len() ==> (#[trigger] states[k]).wf()
    &&& forall|k: int|
        0 <= k < calls.len() ==> ledger_step(states[k], states[k + 1], #[trigger] calls[k])
}

/// The credits that account `a` bought over `calls`.
pub open spec fn votes_bought(calls: Seq<LedgerCall>, a: Seq<char>) -> nat
    decreases calls.len(),
{
    if calls.len() == 0 {
        0
    } else {
        votes_bought(calls.drop_last(), a) + match calls.last() {
            LedgerCall::AddVotes { account, deposit } => if account@ == a {
                bought_votes(deposit, VOTE_COST)
            } else {
                0
            },
            _ => 0,
        }
    }
}

/// The credits that account `a` spent over a run: one per accepted vote.
pub open spec fn votes_spent(states: Seq<Contract>, calls: Seq<LedgerCall>, a: Seq<char>) -> nat
    decreases calls.len(),
{
    if calls.len() == 0 {
        0
    } else {
        let k = calls.len() - 1;
        votes_spent(states, calls.drop_last(), a) + match calls.last() {
            LedgerCall::PlaceVote { account, id } => if account@ == a && vote_result(
                states[k].spec_users(),
                states[k].spec_documents(),
                account@,
                id,
            ) is Ok {
                1nat
            } else {
                0nat
            },
            _ => 0nat,
        }
    }
}

/// The documents that `calls` submit, in order, as they are when created.
pub open spec fn submitted(calls: Seq<LedgerCall>) -> Seq<Document>
    decreases calls.len(),
{
    if calls.len() == 0 {
        Seq::empty()
    } else {
        match calls.last() {
            LedgerCall::AddDocument { account, document } => submitted(calls.drop_last()).push(
                new_document(document, account),
            ),
            _ => submitted(calls.drop_last()),
        }
    }
}

/// Two documents agree in everything but their votes.
pub open spec fn same_submission(d: Document, e: Document) -> bool {
    d.title == e.title && d.description == e.description && d.url == e.url && d.creator
        == e.creator
}

/// Over any run, the credits an account holds at the end plus those it spent equal those
/// it held at the start plus those it bought. From a new ledger, where it holds none,
/// every credit bought is either still held or was spent on a vote.
pub proof fn lemma_votes_conserved(states: Seq<Contract>, calls: Seq<LedgerCall>, a: Seq<char>)
    requires
        is_run(states, calls),
    ensures
        votes_of(states.last().spec_users(), a) + votes_spent(states, calls, a) == votes_of(
            states[0].spec_users(),
            a,
        ) + votes_bought(calls, a),
    decreases calls.len(),
{
    if calls.len() > 0 {
        let k = calls.len() - 1;
        let prefix = states.drop_last();
        assert(is_run(prefix, calls.drop_last())) by {
            assert forall|j: int| 0 <= j < calls.len() - 1 implies ledger_step(
                prefix[j],
                prefix[j + 1],
                #[trigger] calls.drop_last()[j],
            ) by {
                assert(ledger_step(states[j], states[j + 1], calls[j]));
            }
        }
        lemma_votes_conserved(prefix, calls.drop_last(), a);
        assert(votes_spent(prefix, calls.drop_last(), a) == votes_spent(states, calls.drop_last(), a))
            by {
            lemma_spent_prefix(states, calls.drop_last(), a);
        }
        let before = states[k];
        let after = states[k + 1];
        assert(before.wf());
        assert(ledger_step(before, after, calls[k]));
        before.lemma_wf_unique();
        match calls[k] {
            LedgerCall::AddDocument { account, document } => {
                lemma_resolved_votes(before.spec_users(), account, a);
            },
            LedgerCall::AddVotes { account, deposit } => {
                lemma_set_votes_of(
                    before.spec_users(),
                    account,
                    (votes_of(before.spec_users(), account@) + bought_votes(deposit, VOTE_COST)) as u64,
                    a,
                );
            },
            LedgerCall::PlaceVote { account, id } => {
                if vote_result(before.spec_users(), before.spec_documents(), account@, id) is Ok {
                    lemma_set_votes_of(
                        before.spec_users(),
                        account,
                        (votes_of(before.spec_users(), account@) - 1) as u64,
                        a,
                    );
                }
            },
        }
    }
}

/// What a run spends up to a call depends only on the ledgers before it.
proof fn lemma_spent_prefix(states: Seq<Contract>, calls: Seq<LedgerCall>, a: Seq<char>)
    requires
        calls.len() < states.len(),
    ensures
        votes_spent(states.drop_last(), calls, a) == votes_spent(states, calls, a),
    decreases calls.len(),
{
    if calls.len() > 0 {
        lemma_spent_prefix(states, calls.drop_last(), a);
    }
}

/// Over any run, documents are only appended, in the order submitted and whoever submits
/// them: the `k`-th submission, counting from zero, gets id `n + k + 1`, where `n` is the
/// number of documents at the start, so on a new ledger the ids are 1, 2, 3, and so on.
/// Votes change a document's count and nothing else about it.
pub proof fn lemma_successive_ids(states: Seq<Contract>, calls: Seq<LedgerCall>)
    requires
        is_run(states, calls),
    ensures
        states.last().spec_documents().len() == states[0].spec_documents().len() + submitted(
            calls,
        ).len(),
        forall|i: int|
            0 <= i < states[0].spec_documents().len() ==> same_submission(
                #[trigger] states.last().spec_documents()[i],
                states[0].spec_documents()[i],
            ),
        forall|k: int|
            0 <= k < submitted(calls).len() ==> same_submission(
                #[trigger] states.last().spec_documents()[states[0].spec_documents().len() + k],
                submitted(calls)[k],
            ),
    decreases calls.len(),
{
    if calls.len() > 0 {
        let k = calls.len() - 1;
        let prefix = states.drop_last();
        assert(is_run(prefix, calls.drop_last())) by {
            assert forall|j: int| 0 <= j < calls.len() - 1 implies ledger_step(
                prefix[j],
                prefix[j + 1],
                #[trigger] calls.drop_last()[j],
            ) by {
                assert(ledger_step(states[j], states[j + 1], calls[j]));
            }
        }
        lemma_successive_ids(prefix, calls.drop_last());
        let before = states[k];
        let after = states[k + 1];
        assert(ledger_step(before, after, calls[k]));
        let n = states[0].spec_documents().len();
        let s = submitted(calls);
        let sp = submitted(calls.drop_last());
        match calls[k] {
            LedgerCall::AddDocument { account, document } => {
                assert(s == sp.push(new_document(document, account)));
                assert forall|j: int| 0 <= j < s.len() implies same_submission(
                    #[trigger] after.spec_documents()[n + j],
                    s[j],
                ) by {
                    if j < sp.len() {
                        assert(same_submission(before.spec_documents()[n + j], sp[j]));
                    }
                }
                assert forall|i: int| 0 <= i < n implies same_submission(
                    #[trigger] after.spec_documents()[i],
                    states[0].spec_documents()[i],
                ) by {
                    assert(same_submission(before.spec_documents()[i], states[0].spec_documents()[i]));
                }
            },
            LedgerCall::AddVotes { .. } => {
                assert(s == sp);
            },
            LedgerCall::PlaceVote { account, id } => {
                assert(s == sp);
                assert forall|j: int| 0 <= j < s.len() implies same_submission(
                    #[trigger] after.spec_documents()[n + j],
                    s[j],
                ) by {
                    assert(same_submission(before.spec_documents()[n + j], sp[j]));
                }
                assert forall|i: int| 0 <= i < n implies same_submission(
                    #[trigger] after.spec_documents()[i],
                    states[0].spec_documents()[i],
                ) by {
                    assert(same_submission(before.spec_documents()[i], states[0].spec_documents()[i]));
                }
            },
        }
    }
}

} // verus!

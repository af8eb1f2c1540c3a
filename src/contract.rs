use vstd::prelude::*;

use crate::models::{Document, DocumentRequest, User};

verus! {

/// The price of one vote in the smallest monetary unit: half of the base unit (10^24).
pub const VOTE_COST: u128 = 500_000_000_000_000_000_000_000;

/// A value transfer that a call asks the host to make once it has committed.
#[derive(Debug, Clone)]
pub struct Transfer {
    pub receiver: String,
    pub amount: u128,
}

/// Why a call was refused. A refused call changes nothing.
#[derive(Debug, Clone, Copy, PartialEq, Eq, Structural)]
pub enum ContractError {
    /// The caller holds no vote credits.
    NotEnoughVotes,
    /// No document has the given id.
    DocumentNotFound,
    /// The attached deposit does not exceed the sum to be sent out.
    NotEnoughDeposit,
}

/// The ledger: documents, whose id is their position plus one, and user records.
pub struct Contract {
    documents: Vec<Document>,
    users: Vec<User>,
    vote_cost: u128,
}

/// Some record in `users` belongs to account `a`.
pub open spec fn has_account(users: Seq<User>, a: Seq<char>) -> bool {
    exists|i: int| 0 <= i < users.len() && (#[trigger] users[i]).account@ == a
}

/// No two records in `users` belong to the same account.
pub open spec fn accounts_unique(users: Seq<User>) -> bool {
    forall|i: int, j: int|
        0 <= i < users.len() && 0 <= j < users.len() && i != j ==> (#[trigger] users[i]).account@
            != (#[trigger] users[j]).account@
}

/// The position of account `a`'s record (meaningful where `has_account` holds).
pub open spec fn account_index(users: Seq<User>, a: Seq<char>) -> int {
    choose|i: int| 0 <= i < users.len() && (#[trigger] users[i]).account@ == a
}

/// The record a first interaction creates for an account.
pub open spec fn new_user(a: String) -> User {
    User { account: a, available_votes: 0, voted: 0 }
}

/// The records after making sure that account `a` has one.
pub open spec fn resolved(users: Seq<User>, a: String) -> Seq<User> {
    if has_account(users, a@) {
        users
    } else {
        users.push(new_user(a))
    }
}

/// The vote credits of account `a`: zero where it has no record.
pub open spec fn votes_of(users: Seq<User>, a: Seq<char>) -> nat {
    if has_account(users, a) {
        users[account_index(users, a)].available_votes as nat
    } else {
        0
    }
}

/// A user record with its credits replaced by `n`.
pub open spec fn with_votes(u: User, n: u64) -> User {
    User { account: u.account, available_votes: n, voted: u.voted }
}

/// The transfer that settles a call: the excess of `deposit` over `used` goes back to
/// `payer` when it is more than one unit; dust of zero or one unit is kept.
pub open spec fn refund_of(deposit: u128, used: u128, payer: String) -> Option<Transfer> {
    if deposit - used > 1 {
        Some(Transfer { receiver: payer, amount: (deposit - used) as u128 })
    } else {
        None
    }
}

/// The records after account `a`'s credits are set to `n`, its record created first if needed.
pub open spec fn set_votes(users: Seq<User>, a: String, n: u64) -> Seq<User> {
    let r = resolved(users, a);
    r.update(account_index(r, a@), with_votes(r[account_index(r, a@)], n))
}

/// The document that a submission by account `a` creates.
pub open spec fn new_document(request: DocumentRequest, a: String) -> Document {
    Document {
        title: request.title,
        description: request.description,
        url: request.url,
        votes: 0,
        creator: a,
    }
}

/// A document with one more vote.
pub open spec fn with_vote(d: Document) -> Document {
    Document {
        title: d.title,
        description: d.description,
        url: d.url,
        votes: (d.votes + 1) as u64,
        creator: d.creator,
    }
}

/// Some document has id `id`; ids run from 1 to the number of documents.
pub open spec fn has_document(documents: Seq<Document>, id: u64) -> bool {
    1 <= id <= documents.len()
}

/// How a vote by account `a` for document `id` ends: refused when the account holds no
/// credits, else refused when no document has that id, else accepted.
pub open spec fn vote_result(users: Seq<User>, documents: Seq<Document>, a: Seq<char>, id: u64) -> Result<(), ContractError> {
    if votes_of(users, a) == 0 {
        Err(ContractError::NotEnoughVotes)
    } else if !has_document(documents, id) {
        Err(ContractError::DocumentNotFound)
    } else {
        Ok(())
    }
}

/// The number of credits that `deposit` buys at `cost` each.
pub open spec fn bought_votes(deposit: u128, cost: u128) -> nat
    recommends
        cost > 0,
{
    (deposit / cost) as nat
}

/// The sum of the requested amounts.
pub open spec fn total_amount(requests: Seq<(String, u128)>) -> int
    decreases requests.len(),
{
    if requests.len() == 0 {
        0
    } else {
        total_amount(requests.drop_last()) + requests.last().1
    }
}

/// One transfer per request, in order.
pub open spec fn payouts(requests: Seq<(String, u128)>) -> Seq<Transfer> {
    Seq::new(requests.len(), |i: int| Transfer { receiver: requests[i].0, amount: requests[i].1 })
}

/// `transfers` followed by the settling transfer, if there is one.
pub open spec fn settled(transfers: Seq<Transfer>, refund: Option<Transfer>) -> Seq<Transfer> {
    match refund {
        Some(t) => transfers.push(t),
        None => transfers,
    }
}

impl Contract {
    /// The documents in id order: the document with id `k` is at position `k - 1`.
    pub closed spec fn spec_documents(&self) -> Seq<Document> {
        self.documents@
    }

    /// The user records.
    pub closed spec fn spec_users(&self) -> Seq<User> {
        self.users@
    }

    /// The fixed price of one vote.
    pub closed spec fn spec_vote_cost(&self) -> u128 {
        self.vote_cost
    }

    /// Each account has at most one record, and the price is the fixed one.
    pub closed spec fn wf(&self) -> bool {
        accounts_unique(self.users@) && self.vote_cost == VOTE_COST
    }

    /// A well-formed ledger has at most one record per account.
    pub proof fn lemma_wf_unique(&self)
        requires
            self.wf(),
        ensures
            accounts_unique(self.spec_users()),
    {
    }

    /// An empty ledger with the fixed vote price.
    pub fn new() -> (r: Self)
        ensures
            r.wf(),
            r.spec_documents() == Seq::<Document>::empty(),
            r.spec_users() == Seq::<User>::empty(),
            r.spec_vote_cost() == VOTE_COST,
    {
        Contract { documents: Vec::new(), users: Vec::new(), vote_cost: VOTE_COST }
    }

    /// The position of `account`'s record, if it has one.
    fn find_account(&self, account: &String) -> (r: Option<usize>)
        requires
            self.wf(),
        ensures
            match r {
                Some(i) => i < self.users@.len() && i as int == account_index(self.users@, account@)
                    && has_account(self.users@, account@),
                None => !has_account(self.users@, account@),
            },
    {
        let mut i: usize = 0;
        while i < self.users.len()
            invariant
                self.wf(),
                i <= self.users@.len(),
                forall|j: int| 0 <= j < i ==> (#[trigger] self.users@[j]).account@ != account@,
            decreases self.users@.len() - i,
        {
            if self.users[i].account == *account {
                proof {
                    lemma_index_unique(self.users@, account@, i as int);
                }
                return Some(i);
            }
            i = i + 1;
        }
        None
    }

    /// Makes sure that `account` has a record and returns its position.
    fn resolve_index(&mut self, account: &String) -> (r: usize)
        requires
            old(self).wf(),
        ensures
            final(self).wf(),
            final(self).users@ == resolved(old(self).users@, *account),
            final(self).documents@ == old(self).documents@,
            final(self).vote_cost == old(self).vote_cost,
            r < final(self).users@.len(),
            r as int == account_index(final(self).users@, account@),
            has_account(final(self).users@, account@),
            votes_of(final(self).users@, account@) == votes_of(old(self).users@, account@),
    {
        match self.find_account(account) {
            Some(i) => i,
            None => {
                let user = User { account: account.clone(), available_votes: 0, voted: 0 };
                self.users.push(user);
                let i = self.users.len() - 1;
                proof {
                    lemma_push_new(old(self).users@, *account);
                }
                i
            },
        }
    }

    /// Returns a copy of `account`'s record, creating an empty one first where it has none.
    pub fn get_or_create_account(&mut self, account: &String) -> (r: User)
        requires
            old(self).wf(),
        ensures
            final(self).wf(),
            final(self).spec_users() == resolved(old(self).spec_users(), *account),
            final(self).spec_documents() == old(self).spec_documents(),
            final(self).spec_vote_cost() == old(self).spec_vote_cost(),
            r == final(self).spec_users()[account_index(final(self).spec_users(), account@)],
            r.account@ == account@,
            r.available_votes as nat == votes_of(old(self).spec_users(), account@),
    {
        let i = self.resolve_index(account);
        self.users[i].copy()
    }

    /// Settles a call: the transfer of `deposit - used_deposit` back to `account` when that
    /// is more than one unit, else none.
    pub fn refund(&self, deposit: u128, used_deposit: u128, account: String) -> (r: Option<
        Transfer,
    >)
        ensures
            r == refund_of(deposit, used_deposit, account),
    {
        if deposit > used_deposit && deposit - used_deposit > 1 {
            Some(Transfer { receiver: account, amount: deposit - used_deposit })
        } else {
            None
        }
    }
    /// Registers a document submitted by `account` under the next id, the number of
    /// documents so far plus one, and creates `account`'s record if it has none.
    pub fn add_document(&mut self, account: String, document: DocumentRequest)
        requires
            old(self).wf(),
        ensures
            final(self).wf(),
            final(self).spec_documents() == old(self).spec_documents().push(
                new_document(document, account),
            ),
            final(self).spec_users() == resolved(old(self).spec_users(), account),
            final(self).spec_vote_cost() == old(self).spec_vote_cost(),
    {
        self.resolve_index(&account);
        let new_document = Document {
            title: document.title,
            description: document.description,
            url: document.url,
            votes: 0,
            creator: account,
        };
        self.documents.push(new_document);
    }

    /// Spends one of `account`'s credits on document `id`. Refused, with nothing changed,
    /// when the account holds no credits or no document has that id.
    pub fn place_vote(&mut self, account: String, id: u64) -> (r: Result<(), ContractError>)
        requires
            old(self).wf(),
            has_document(old(self).spec_documents(), id) ==> old(self).spec_documents()[id - 1].votes
                < u64::MAX,
        ensures
            final(self).wf(),
            r == vote_result(old(self).spec_users(), old(self).spec_documents(), account@, id),
            final(self).spec_vote_cost() == old(self).spec_vote_cost(),
            r is Err ==> final(self).spec_users() == old(self).spec_users()
                && final(self).spec_documents() == old(self).spec_documents(),
            r is Ok ==> final(self).spec_users() == set_votes(
                old(self).spec_users(),
                account,
                (votes_of(old(self).spec_users(), account@) - 1) as u64,
            ) && final(self).spec_documents() == old(self).spec_documents().update(
                id - 1,
                with_vote(old(self).spec_documents()[id - 1]),
            ),
            r is Ok ==> votes_of(final(self).spec_users(), account@) == votes_of(
                old(self).spec_users(),
                account@,
            ) - 1 && final(self).spec_documents()[id - 1].votes == old(self).spec_documents()[id
                - 1].votes + 1,
            r is Ok ==> forall|x: Seq<char>|
                x != account@ ==> #[trigger] votes_of(final(self).spec_users(), x) == votes_of(
                    old(self).spec_users(),
                    x,
                ),
    {
        let i = match self.find_account(&account) {
            Some(i) => i,
            None => {
                return Err(ContractError::NotEnoughVotes);
            },
        };
        if self.users[i].available_votes == 0 {
            return Err(ContractError::NotEnoughVotes);
        }
        if id == 0 || id > self.documents.len() as u64 {
            return Err(ContractError::DocumentNotFound);
        }
        let k = (id - 1) as usize;
        let d = &self.documents[k];
        let voted_document = Document {
            title: d.title.clone(),
            description: d.description.clone(),
            url: d.url.clone(),
            votes: d.votes + 1,
            creator: d.creator.clone(),
        };
        let u = &self.users[i];
        let user = User {
            account: u.account.clone(),
            available_votes: u.available_votes - 1,
            voted: u.voted,
        };
        self.documents.set(k, voted_document);
        self.users.set(i, user);
        proof {
            lemma_set_votes(old(self).users@, i as int, account, user.available_votes);
            assert forall|x: Seq<char>| true implies #[trigger] votes_of(self.users@, x) == if x
                == account@ {
                (votes_of(old(self).users@, account@) - 1) as nat
            } else {
                votes_of(old(self).users@, x)
            } by {
                lemma_set_votes_of(
                    old(self).users@,
                    account,
                    (votes_of(old(self).users@, account@) - 1) as u64,
                    x,
                );
            }
        }
        Ok(())
    }

    /// Credits `account` with as many votes as `deposit` buys and returns the transfer of
    /// the excess back to `signer`, the payer of the call, when it is more than one unit.
    pub fn add_votes(&mut self, account: String, signer: String, deposit: u128) -> (r: Option<
        Transfer,
    >)
        requires
            old(self).wf(),
            votes_of(old(self).spec_users(), account@) + bought_votes(deposit, VOTE_COST)
                <= u64::MAX,
        ensures
            final(self).wf(),
            final(self).spec_users() == set_votes(
                old(self).spec_users(),
                account,
                (votes_of(old(self).spec_users(), account@) + bought_votes(
                    deposit,
                    VOTE_COST,
                )) as u64,
            ),
            votes_of(final(self).spec_users(), account@) == votes_of(old(self).spec_users(), account@)
                + bought_votes(deposit, VOTE_COST),
            forall|x: Seq<char>|
                x != account@ ==> #[trigger] votes_of(final(self).spec_users(), x) == votes_of(
                    old(self).spec_users(),
                    x,
                ),
            final(self).spec_documents() == old(self).spec_documents(),
            final(self).spec_vote_cost() == old(self).spec_vote_cost(),
            r == refund_of(deposit, (bought_votes(deposit, VOTE_COST) * VOTE_COST) as u128, signer),
    {
        let i = self.resolve_index(&account);
        let ghost resolved_users = self.users@;
        let cost = self.vote_cost;
        let votes = deposit / cost;
        proof {
            assert(votes * cost <= deposit) by (nonlinear_arith)
                requires
                    votes == deposit / cost,
                    cost > 0,
            ;
        }
        let u = &self.users[i];
        let user = User {
            account: u.account.clone(),
            available_votes: u.available_votes + votes as u64,
            voted: u.voted,
        };
        self.users.set(i, user);
        proof {
            lemma_set_votes(resolved_users, i as int, account, user.available_votes);
            assert forall|x: Seq<char>| true implies #[trigger] votes_of(self.users@, x) == if x
                == account@ {
                (votes_of(old(self).users@, account@) + bought_votes(deposit, VOTE_COST)) as nat
            } else {
                votes_of(old(self).users@, x)
            } by {
                lemma_set_votes_of(
                    old(self).users@,
                    account,
                    (votes_of(old(self).users@, account@) + bought_votes(deposit, VOTE_COST)) as u64,
                    x,
                );
            }
        }
        self.refund(deposit, votes * cost, signer)
    }

    /// Sends each requested amount to its account and returns those transfers followed by
    /// the transfer of the excess back to `signer` when it is more than one unit. Refused,
    /// with no transfer, unless `deposit` exceeds the sum of the amounts.
    pub fn send_multiple(&self, signer: String, deposit: u128, accounts: Vec<(String, u128)>) -> (r:
        Result<Vec<Transfer>, ContractError>)
        ensures
            match r {
                Ok(ts) => total_amount(accounts@) < deposit && ts@ == settled(
                    payouts(accounts@),
                    refund_of(deposit, total_amount(accounts@) as u128, signer),
                ),
                Err(e) => total_amount(accounts@) >= deposit && e == ContractError::NotEnoughDeposit,
            },
    {
        if deposit == 0 {
            proof {
                lemma_total_prefix(accounts@, 0);
            }
            return Err(ContractError::NotEnoughDeposit);
        }
        let mut total: u128 = 0;
        let mut i: usize = 0;
        while i < accounts.len()
            invariant
                i <= accounts@.len(),
                total == total_amount(accounts@.take(i as int)),
                total < deposit,
            decreases accounts@.len() - i,
        {
            proof {
                lemma_total_step(accounts@, i as int);
            }
            if accounts[i].1 >= deposit - total {
                proof {
                    lemma_total_prefix(accounts@, i as int + 1);
                }
                return Err(ContractError::NotEnoughDeposit);
            }
            total = total + accounts[i].1;
            i = i + 1;
        }
        assert(accounts@.take(accounts@.len() as int) =~= accounts@);
        let mut transfers: Vec<Transfer> = Vec::new();
        let mut j: usize = 0;
        while j < accounts.len()
            invariant
                j <= accounts@.len(),
                transfers@ == payouts(accounts@).take(j as int),
            decreases accounts@.len() - j,
        {
            let t = Transfer { receiver: accounts[j].0.clone(), amount: accounts[j].1 };
            transfers.push(t);
            j = j + 1;
            assert(transfers@ =~= payouts(accounts@).take(j as int));
        }
        assert(transfers@ =~= payouts(accounts@));
        match self.refund(deposit, total, signer) {
            Some(t) => transfers.push(t),
            None => {},
        }
        Ok(transfers)
    }

    /// Every user record paired with its account, in storage order.
    pub fn view_users(&self) -> (r: Vec<(String, User)>)
        ensures
            r@.len() == self.spec_users().len(),
            forall|i: int|
                0 <= i < r@.len() ==> #[trigger] r@[i] == (
                    self.spec_users()[i].account,
                    self.spec_users()[i],
                ),
    {
        let mut r: Vec<(String, User)> = Vec::new();
        let mut i: usize = 0;
        while i < self.users.len()
            invariant
                i <= self.users@.len(),
                r@.len() == i,
                forall|j: int|
                    0 <= j < i ==> #[trigger] r@[j] == (self.users@[j].account, self.users@[j]),
            decreases self.users@.len() - i,
        {
            let u = &self.users[i];
            r.push((u.account.clone(), u.copy()));
            i = i + 1;
        }
        r
    }

    /// Every document paired with its id, in id order.
    pub fn view_documents(&self) -> (r: Vec<(u64, Document)>)
        ensures
            r@.len() == self.spec_documents().len(),
            forall|i: int|
                0 <= i < r@.len() ==> #[trigger] r@[i] == ((i + 1) as u64, self.spec_documents()[i]),
    {
        let mut r: Vec<(u64, Document)> = Vec::new();
        let mut i: usize = 0;
        while i < self.documents.len()
            invariant
                i <= self.documents@.len(),
                r@.len() == i,
                forall|j: int|
                    0 <= j < i ==> #[trigger] r@[j] == ((j + 1) as u64, self.documents@[j]),
            decreases self.documents@.len() - i,
        {
            r.push(((i + 1) as u64, self.documents[i].copy()));
            i = i + 1;
        }
        r
    }

    /// A copy of `account`'s record, if it has one.
    pub fn get_user(&self, account: &String) -> (r: Option<User>)
        requires
            self.wf(),
        ensures
            match r {
                Some(u) => has_account(self.spec_users(), account@) && u == self.spec_users()[account_index(
                    self.spec_users(),
                    account@,
                )] && u.available_votes as nat == votes_of(self.spec_users(), account@),
                None => !has_account(self.spec_users(), account@),
            },
    {
        match self.find_account(account) {
            Some(i) => Some(self.users[i].copy()),
            None => None,
        }
    }

    /// A copy of the document with id `id`, if there is one.
    pub fn get_document(&self, id: u64) -> (r: Option<Document>)
        ensures
            match r {
                Some(d) => has_document(self.spec_documents(), id) && d == self.spec_documents()[id - 1],
                None => !has_document(self.spec_documents(), id),
            },
    {
        if id == 0 || id > self.documents.len() as u64 {
            None
        } else {
            Some(self.documents[(id - 1) as usize].copy())
        }
    }

    /// Rebuilds a ledger from stored documents, in id order, and user records. Refused when
    /// two records belong to the same account.
    pub fn restore(documents: Vec<Document>, users: Vec<User>) -> (r: Option<Self>)
        ensures
            match r {
                Some(c) => c.wf() && c.spec_documents() == documents@ && c.spec_users() == users@
                    && c.spec_vote_cost() == VOTE_COST,
                None => !accounts_unique(users@),
            },
    {
        let mut i: usize = 0;
        while i < users.len()
            invariant
                i <= users@.len(),
                accounts_unique(users@.take(i as int)),
            decreases users@.len() - i,
        {
            let mut j: usize = 0;
            while j < i
                invariant
                    i < users@.len(),
                    j <= i,
                    forall|k: int| 0 <= k < j ==> (#[trigger] users@[k]).account@ != users@[i as int].account@,
                decreases i - j,
            {
                if users[j].account == users[i].account {
                    return None;
                }
                j = j + 1;
            }
            proof {
                let t = users@.take(i as int + 1);
                assert forall|p: int, q: int|
                    0 <= p < t.len() && 0 <= q < t.len() && p != q implies (#[trigger] t[p]).account@
                        != (#[trigger] t[q]).account@ by {
                    assert(t[p] == users@[p] && t[q] == users@[q]);
                    if p < i && q < i {
                        assert(users@.take(i as int)[p] == users@[p]);
                        assert(users@.take(i as int)[q] == users@[q]);
                    }
                }
            }
            i = i + 1;
        }
        assert(users@.take(users@.len() as int) =~= users@);
        Some(Contract { documents, users, vote_cost: VOTE_COST })
    }

}

/// In a ledger with unique accounts, a record of account `a` at `i` is the one
/// `account_index` picks.
pub(crate) proof fn lemma_index_unique(users: Seq<User>, a: Seq<char>, i: int)
    requires
        accounts_unique(users),
        0 <= i < users.len(),
        users[i].account@ == a,
    ensures
        has_account(users, a),
        account_index(users, a) == i,
{
    assert(has_account(users, a));
    let j = account_index(users, a);
    assert(users[j].account@ == a);
}

/// Appending a record for an account that has none keeps accounts unique and finds it last.
pub(crate) proof fn lemma_push_new(users: Seq<User>, a: String)
    requires
        accounts_unique(users),
        !has_account(users, a@),
    ensures
        accounts_unique(users.push(new_user(a))),
        has_account(users.push(new_user(a)), a@),
        account_index(users.push(new_user(a)), a@) == users.len(),
        votes_of(users.push(new_user(a)), a@) == 0,
{
    let u = users.push(new_user(a));
    assert forall|i: int, j: int|
        0 <= i < u.len() && 0 <= j < u.len() && i != j implies (#[trigger] u[i]).account@
            != (#[trigger] u[j]).account@ by {
        if i < users.len() && j < users.len() {
            assert(u[i] == users[i] && u[j] == users[j]);
        } else if i < users.len() {
            assert(u[i] == users[i]);
        } else {
            assert(u[j] == users[j]);
        }
    }
    lemma_index_unique(u, a@, users.len() as int);
}

/// Setting the credits of the record at `i` keeps accounts unique, and is `set_votes` for
/// its account.
pub(crate) proof fn lemma_set_votes(users: Seq<User>, i: int, a: String, n: u64)
    requires
        accounts_unique(users),
        0 <= i < users.len(),
        users[i].account@ == a@,
    ensures
        accounts_unique(users.update(i, with_votes(users[i], n))),
        users.update(i, with_votes(users[i], n)) == set_votes(users, a, n),
{
    lemma_index_unique(users, a@, i);
    let u = users.update(i, with_votes(users[i], n));
    assert forall|p: int, q: int|
        0 <= p < u.len() && 0 <= q < u.len() && p != q implies (#[trigger] u[p]).account@
            != (#[trigger] u[q]).account@ by {
        assert(u[p].account == users[p].account);
        assert(u[q].account == users[q].account);
    }
}

/// Making sure that account `b` has a record keeps records unique and changes no
/// account's credits.
pub(crate) proof fn lemma_resolved_votes(users: Seq<User>, b: String, x: Seq<char>)
    requires
        accounts_unique(users),
    ensures
        accounts_unique(resolved(users, b)),
        has_account(resolved(users, b), b@),
        votes_of(resolved(users, b), x) == votes_of(users, x),
{
    if !has_account(users, b@) {
        let r = users.push(new_user(b));
        lemma_push_new(users, b);
        if x != b@ && has_account(users, x) {
            let j = account_index(users, x);
            assert(r[j] == users[j]);
            lemma_index_unique(r, x, j);
        }
        if x != b@ && has_account(r, x) {
            let j = account_index(r, x);
            assert(r[j] == users[j]);
        }
    }
}

/// Setting account `b`'s credits to `n` sets its own and changes no other account's.
pub(crate) proof fn lemma_set_votes_of(users: Seq<User>, b: String, n: u64, x: Seq<char>)
    requires
        accounts_unique(users),
    ensures
        accounts_unique(set_votes(users, b, n)),
        votes_of(set_votes(users, b, n), x) == if x == b@ {
            n as nat
        } else {
            votes_of(users, x)
        },
{
    lemma_resolved_votes(users, b, x);
    let r = resolved(users, b);
    let i = account_index(r, b@);
    let u = r.update(i, with_votes(r[i], n));
    assert(r[i].account@ == b@);
    lemma_set_votes(r, i, b, n);
    lemma_index_unique(u, b@, i);
    if x != b@ {
        if has_account(r, x) {
            let j = account_index(r, x);
            assert(u[j] == r[j]);
            lemma_index_unique(u, x, j);
        }
        if has_account(u, x) {
            let j = account_index(u, x);
            assert(u[j].account == r[j].account);
        }
    }
}

/// The sum over one more request adds its amount.
proof fn lemma_total_step(requests: Seq<(String, u128)>, i: int)
    requires
        0 <= i < requests.len(),
    ensures
        total_amount(requests.take(i + 1)) == total_amount(requests.take(i)) + requests[i].1,
{
    assert(requests.take(i + 1).drop_last() =~= requests.take(i));
}

/// The sum over a prefix is at most the sum over the whole.
proof fn lemma_total_prefix(requests: Seq<(String, u128)>, k: int)
    requires
        0 <= k <= requests.len(),
    ensures
        total_amount(requests.take(k)) <= total_amount(requests),
    decreases requests.len() - k,
{
    if k == requests.len() {
        assert(requests.take(k) =~= requests);
    } else {
        lemma_total_step(requests, k);
        lemma_total_prefix(requests, k + 1);
    }
}

} // verus!

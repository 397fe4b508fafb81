use vstd::prelude::*;
use vstd::hash_map::StringHashMap;
use crate::account::{Account, AccountId, AccountModel, BankError, Operation, OperationModel};
use crate::money::Money;
use crate::projection::{apply_all, apply_op, first_failure, Balances};

verus! {

/// The mathematical values of a sequence of operations.
pub open spec fn models(ops: Seq<Operation>) -> Seq<OperationModel> {
    ops.map_values(|op: Operation| op@)
}

/// The account named `id` as `balances` holds it.
pub open spec fn account_in(balances: Balances, id: Seq<char>) -> AccountModel {
    AccountModel { account_id: id, balance: balances[id] }
}

/// The current balances of a bank's accounts.
pub trait State {
    /// The balance of every registered account.
    spec fn balances(&self) -> Balances;

    /// Applies `ops` in order and stops at the first one that is refused. On success
    /// the result holds, for each operation, its account as it stands after the whole
    /// batch.
    fn transact(&mut self, ops: &Vec<Operation>) -> (r: Result<Vec<Account>, BankError>)
        ensures
            final(self).balances() == apply_all(old(self).balances(), models(ops@)),
            match r {
                Ok(accounts) => {
                    &&& first_failure(old(self).balances(), models(ops@)).is_none()
                    &&& accounts.len() == ops.len()
                    &&& forall|i: int|
                        0 <= i < ops.len() ==> (#[trigger] accounts[i])@ == account_in(
                            final(self).balances(),
                            ops[i]@.account_id(),
                        )
                },
                Err(e) => first_failure(old(self).balances(), models(ops@)) == Some(e),
            },
    ;

    /// Applies one operation and returns its account as it then stands.
    fn update(&mut self, op: &Operation) -> (r: Result<Account, BankError>)
        ensures
            match apply_op(old(self).balances(), op@) {
                Ok(next) => final(self).balances() == next && r.is_ok() && r.unwrap()@
                    == account_in(next, op@.account_id()),
                Err(e) => final(self).balances() == old(self).balances() && r == Err::<
                    Account,
                    BankError,
                >(e),
            },
    ;

    /// The account named `account_id`, or `UnknownAccount` where none is registered.
    fn get_balance(&self, account_id: &AccountId) -> (r: Result<Account, BankError>)
        ensures
            match r {
                Ok(account) => self.balances().dom().contains(account_id@) && account@
                    == account_in(self.balances(), account_id@),
                Err(e) => !self.balances().dom().contains(account_id@) && e
                    == BankError::UnknownAccount,
            },
    ;
}

/// The accounts held in memory, in a hash map keyed by account name.
pub struct InMemoryState {
    accounts: StringHashMap<Account>,
}

impl View for InMemoryState {
    type V = Balances;

    closed spec fn view(&self) -> Balances {
        Map::new(
            |id: Seq<char>| self.accounts@.contains_key(id),
            |id: Seq<char>| self.accounts@[id].balance,
        )
    }
}

impl Default for InMemoryState {
    fn default() -> (r: Self)
        ensures
            r@ == Map::<Seq<char>, u32>::empty(),
    {
        let r = InMemoryState { accounts: StringHashMap::new() };
        assert(r@ =~= Map::<Seq<char>, u32>::empty());
        r
    }
}

impl InMemoryState {
    /// Stores the account `account_id` with `balance` and returns it.
    fn put(&mut self, account_id: &AccountId, balance: Money) -> (r: Account)
        ensures
            final(self)@ == old(self)@.insert(account_id@, balance),
            r@ == account_in(final(self)@, account_id@),
    {
        let ghost before = self@;
        self.accounts.insert(account_id.clone(), Account { account_id: account_id.clone(), balance });
        assert(self@ =~= before.insert(account_id@, balance));
        Account { account_id: account_id.clone(), balance }
    }

    /// The balance of the account `account_id`, where it is registered.
    fn balance_of(&self, account_id: &AccountId) -> (r: Option<Money>)
        ensures
            match r {
                Some(balance) => self@.dom().contains(account_id@) && balance == self@[account_id@],
                None => !self@.dom().contains(account_id@),
            },
    {
        match self.accounts.get(account_id.as_str()) {
            Some(account) => Some(account.balance),
            None => None,
        }
    }

    /// Applies one operation to the balances, or refuses it and changes nothing.
    pub fn push_to_col(&mut self, op: &Operation) -> (r: Result<Account, BankError>)
        ensures
            match apply_op(old(self)@, op@) {
                Ok(next) => final(self)@ == next && r.is_ok() && r.unwrap()@ == account_in(
                    next,
                    op@.account_id(),
                ),
                Err(e) => final(self)@ == old(self)@ && r == Err::<Account, BankError>(e),
            },
    {
        match op {
            Operation::Create(account_id) => {
                if self.balance_of(account_id).is_some() {
                    return Err(BankError::DuplicateAccount);
                }
                Ok(self.put(account_id, 0u32))
            },
            Operation::Deposit(account_id, money) => {
                let balance: Money = match self.balance_of(account_id) {
                    Some(balance) => balance,
                    None => {
                        return Err(BankError::UnknownAccount);
                    },
                };
                let amount: u32 = money.get();
                if amount > u32::MAX - balance {
                    return Err(BankError::BadRequest);
                }
                Ok(self.put(account_id, balance + amount))
            },
            Operation::Withdraw(account_id, money) => {
                let balance: Money = match self.balance_of(account_id) {
                    Some(balance) => balance,
                    None => {
                        return Err(BankError::UnknownAccount);
                    },
                };
                let amount: u32 = money.get();
                if balance < amount {
                    return Err(BankError::InsufficientFunds);
                }
                Ok(self.put(account_id, balance - amount))
            },
            Operation::Move { .. } => Err(BankError::BadRequest),
            Operation::GetBalance(_) => Err(BankError::BadRequest),
        }
    }
}

/// An operation that is accepted registers or keeps its account and forgets no other.
pub proof fn lemma_apply_op_keeps_accounts(balances: Balances, op: OperationModel)
    requires
        apply_op(balances, op).is_ok(),
    ensures
        apply_op(balances, op).unwrap().dom().contains(op.account_id()),
        forall|id: Seq<char>| #[trigger]
            balances.dom().contains(id) ==> apply_op(balances, op).unwrap().dom().contains(id),
{
}

impl State for InMemoryState {
    open spec fn balances(&self) -> Balances {
        self@
    }

    fn transact(&mut self, ops: &Vec<Operation>) -> (r: Result<Vec<Account>, BankError>) {
        let ghost start = self@;
        let ghost all = models(ops@);
        let mut i: usize = 0;
        assert(all.skip(0) =~= all);
        while i < ops.len()
            invariant
                0 <= i <= ops.len(),
                all == models(ops@),
                start == old(self)@,
                apply_all(start, all) == apply_all(self@, all.skip(i as int)),
                first_failure(start, all) == first_failure(self@, all.skip(i as int)),
                forall|j: int|
                    0 <= j < i ==> (#[trigger] all[j]).is_event() && self@.dom().contains(
                        all[j].account_id(),
                    ),
            decreases ops.len() - i,
        {
            let ghost before = self@;
            assert(all.skip(i as int)[0] == ops[i as int]@);
            assert(all.skip(i as int).drop_first() =~= all.skip(i + 1));
            match self.push_to_col(&ops[i]) {
                Ok(_) => {
                    proof {
                        lemma_apply_op_keeps_accounts(before, ops[i as int]@);
                    }
                },
                Err(e) => {
                    return Err(e);
                },
            }
            i += 1;
        }
        let mut accounts: Vec<Account> = Vec::new();
        let mut k: usize = 0;
        while k < ops.len()
            invariant
                0 <= k <= ops.len(),
                all == models(ops@),
                accounts.len() == k,
                forall|j: int|
                    0 <= j < ops.len() ==> (#[trigger] all[j]).is_event() && self@.dom().contains(
                        all[j].account_id(),
                    ),
                forall|j: int|
                    0 <= j < k ==> (#[trigger] accounts[j])@ == account_in(
                        self@,
                        ops[j]@.account_id(),
                    ),
            decreases ops.len() - k,
        {
            assert(all[k as int] == ops[k as int]@);
            let account_id: &AccountId = ops[k].account_id();
            match self.balance_of(account_id) {
                Some(balance) => {
                    accounts.push(Account { account_id: account_id.clone(), balance });
                },
                None => {
                    // Never reached: every operation of the batch has registered or
                    // found its account.
                    return Err(BankError::InternalError);
                },
            }
            k += 1;
        }
        Ok(accounts)
    }

    fn update(&mut self, op: &Operation) -> (r: Result<Account, BankError>) {
        self.push_to_col(op)
    }

    fn get_balance(&self, account_id: &AccountId) -> (r: Result<Account, BankError>) {
        match self.balance_of(account_id) {
            Some(balance) => Ok(Account { account_id: account_id.clone(), balance }),
            None => Err(BankError::UnknownAccount),
        }
    }
}

} // verus!

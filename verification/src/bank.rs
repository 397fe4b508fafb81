use vstd::prelude::*;
use crate::account::{
    Account, AccountId, AccountModel, BankError, OpId, Operation, OperationModel,
};
use crate::money::NonZeroMoney;
use crate::projection::{
    apply_all, apply_op, deposits, first_failure, lemma_balance_is_deposits_less_withdrawals,
    lemma_project_append, lemma_project_push, project, well_formed, withdrawals, Balances,
};
use crate::state::{account_in, models, State};
use crate::storage::{
    all_events, batch_entries, ids_increase, entry_models, entries_of, ops_of, EntryModel, OpsStorage,
};

verus! {

/// The two legs of a transfer, in the order in which they are logged and applied.
pub open spec fn transfer_legs(from: Seq<char>, to: Seq<char>, amount: nat) -> Seq<
    OperationModel,
> {
    seq![OperationModel::Withdraw(from, amount), OperationModel::Deposit(to, amount)]
}

/// The mathematical values of a list of accounts.
pub open spec fn account_models(accounts: Seq<Account>) -> Seq<AccountModel> {
    accounts.map_values(|account: Account| account@)
}

/// What a request for one account returned, as a mathematical value.
pub open spec fn account_outcome(r: Result<Account, BankError>) -> Result<
    AccountModel,
    BankError,
> {
    match r {
        Ok(account) => Ok(account@),
        Err(e) => Err(e),
    }
}

/// What a request for several accounts returned, as a mathematical value.
pub open spec fn accounts_outcome(r: Result<Vec<Account>, BankError>) -> Result<
    Seq<AccountModel>,
    BankError,
> {
    match r {
        Ok(accounts) => Ok(account_models(accounts@)),
        Err(e) => Err(e),
    }
}

/// `count` times `amount`.
#[verifier::opaque]
pub open spec fn times(count: int, amount: nat) -> int {
    count * amount
}

/// What `times` is, and how it grows by one more `amount`.
pub proof fn lemma_times(count: int, amount: nat)
    ensures
        times(count, amount) == count * amount,
        times(count + 1, amount) == times(count, amount) + amount,
        times(0, amount) == 0,
        count >= 0 ==> times(count, amount) >= 0,
{
    reveal(times);
    assert((count + 1) * amount == count * amount + amount) by (nonlinear_arith);
    assert(count >= 0 ==> count * amount >= 0) by (nonlinear_arith);
}

/// A bank: the log of the operations it has accepted and the balances that the log
/// stands for. An operation is checked against the balances first, then logged, then
/// applied, so that nothing is logged that is refused and nothing applied that is not
/// logged.
pub struct Bank<T: OpsStorage, S: State> {
    storage: T,
    state: S,
}

impl<T: OpsStorage, S: State> Bank<T, S> {
    /// The entries of the log, oldest first.
    pub closed spec fn log(&self) -> Seq<EntryModel> {
        self.storage.log()
    }

    /// The identifier that the log assigned last.
    pub closed spec fn last_id(&self) -> OpId {
        self.storage.last_id()
    }

    /// The balance of every registered account.
    pub closed spec fn balances(&self) -> Balances {
        self.state.balances()
    }

    /// The log is in order and the balances are those that the log stands for.
    pub closed spec fn wf(&self) -> bool {
        &&& self.storage.wf()
        &&& self.state.balances() == project(ops_of(self.storage.log()))
    }

    /// Every entry of the log was accepted at its place.
    pub open spec fn is_sound(&self) -> bool {
        well_formed(ops_of(self.log()))
    }

    /// What a request of one event does to the bank `self` and returns, `after` being
    /// the bank afterwards: where the balances refuse the event, that error and no
    /// change; where the identifiers are used up, `InternalError` and no change;
    /// otherwise the event is logged under the next identifier and applied, and the
    /// account returned as it then stands.
    pub open spec fn commits(
        &self,
        after: &Self,
        op: OperationModel,
        r: Result<AccountModel, BankError>,
    ) -> bool {
        match apply_op(self.balances(), op) {
            Err(e) => r == Err::<AccountModel, BankError>(e) && after.log() == self.log()
                && after.balances() == self.balances() && after.last_id() == self.last_id(),
            Ok(next) => if self.last_id() == u128::MAX {
                r == Err::<AccountModel, BankError>(BankError::InternalError) && after.log()
                    == self.log() && after.balances() == self.balances() && after.last_id()
                    == self.last_id()
            } else {
                &&& r == Ok::<AccountModel, BankError>(account_in(next, op.account_id()))
                &&& after.balances() == next
                &&& after.last_id() == self.last_id() + 1
                &&& after.log() == self.log().push(((self.last_id() + 1) as OpId, op))
            },
        }
    }

    /// A bank over the given log and balances, which have to agree.
    pub fn new(storage: T, state: S) -> (r: Bank<T, S>)
        requires
            storage.wf(),
            state.balances() == project(ops_of(storage.log())),
        ensures
            r.wf(),
            r.log() == storage.log(),
            r.last_id() == storage.last_id(),
            r.balances() == state.balances(),
    {
        Bank { storage, state }
    }

    /// Logs an event that the balances accept and applies it.
    fn commit(&mut self, op: Operation) -> (r: Result<Account, BankError>)
        requires
            old(self).wf(),
            apply_op(old(self).balances(), op@).is_ok(),
        ensures
            final(self).wf(),
            old(self).commits(final(self), op@, account_outcome(r)),
            old(self).is_sound() ==> final(self).is_sound(),
    {
        let ghost before = self.storage.log();
        let copy = op.clone();
        match self.storage.persist(op) {
            Ok(id) => {
                proof {
                    assert(ops_of(before.push((id, copy@))) =~= ops_of(before).push(copy@));
                    lemma_project_push(ops_of(before), copy@);
                }
                match self.state.update(&copy) {
                    Ok(account) => Ok(account),
                    // Never reached: the balances accepted the event before it was logged.
                    Err(_) => Err(BankError::InternalError),
                }
            },
            Err(e) => Err(e),
        }
    }

    /// Registers the account `account_id` with a balance of zero, unless it exists.
    pub fn create_account(&mut self, account_id: &AccountId) -> (r: Result<Account, BankError>)
        requires
            old(self).wf(),
        ensures
            final(self).wf(),
            old(self).commits(final(self), OperationModel::Create(account_id@), account_outcome(r)),
            old(self).is_sound() ==> final(self).is_sound(),
    {
        match self.state.get_balance(account_id) {
            Ok(_) => Err(BankError::DuplicateAccount),
            Err(_) => self.commit(Operation::Create(account_id.clone())),
        }
    }

    /// The account `account_id` with its balance.
    pub fn get_balance(&self, account_id: &AccountId) -> (r: Result<Account, BankError>)
        ensures
            match r {
                Ok(account) => self.balances().dom().contains(account_id@) && account@
                    == account_in(self.balances(), account_id@),
                Err(e) => !self.balances().dom().contains(account_id@) && e
                    == BankError::UnknownAccount,
            },
    {
        self.state.get_balance(account_id)
    }

    /// The entries of the log that are filed under `account_id`, oldest first.
    pub fn get_account_ops<'a>(&'a self, account_id: &AccountId) -> (r: Result<
        Vec<(OpId, &'a Operation)>,
        BankError,
    >)
        requires
            self.wf(),
        ensures
            match r {
                Ok(entries) => entries_of(self.log(), account_id@).len() > 0 && entry_models(
                    entries@,
                ) == entries_of(self.log(), account_id@),
                Err(e) => entries_of(self.log(), account_id@).len() == 0 && e
                    == BankError::UnknownAccount,
            },
    {
        self.storage.get_ops(account_id)
    }

    /// The whole log, oldest first.
    pub fn get_history<'a>(&'a self) -> (r: Result<Vec<(OpId, &'a Operation)>, BankError>)
        requires
            self.wf(),
        ensures
            r.is_ok(),
            entry_models(r.unwrap()@) == self.log(),
    {
        self.storage.get_history()
    }

    /// Adds `money` to the balance of `account_id`.
    pub fn deposit(&mut self, account_id: &AccountId, money: NonZeroMoney) -> (r: Result<
        Account,
        BankError,
    >)
        requires
            old(self).wf(),
        ensures
            final(self).wf(),
            old(self).commits(
                final(self),
                OperationModel::Deposit(account_id@, money.value()),
                account_outcome(r),
            ),
            old(self).is_sound() ==> final(self).is_sound(),
    {
        match self.state.get_balance(account_id) {
            Err(e) => Err(e),
            Ok(account) => {
                if money.get() > u32::MAX - account.balance {
                    Err(BankError::BadRequest)
                } else {
                    self.commit(Operation::Deposit(account_id.clone(), money))
                }
            },
        }
    }

    /// Takes `money` from the balance of `account_id`, if it holds that much.
    pub fn withdraw(&mut self, account_id: &AccountId, money: NonZeroMoney) -> (r: Result<
        Account,
        BankError,
    >)
        requires
            old(self).wf(),
        ensures
            final(self).wf(),
            old(self).commits(
                final(self),
                OperationModel::Withdraw(account_id@, money.value()),
                account_outcome(r),
            ),
            old(self).is_sound() ==> final(self).is_sound(),
    {
        match self.state.get_balance(account_id) {
            Err(e) => Err(e),
            Ok(account) => {
                if account.balance < money.get() {
                    Err(BankError::InsufficientFunds)
                } else {
                    self.commit(Operation::Withdraw(account_id.clone(), money))
                }
            },
        }
    }

    /// What a transfer does to the bank `self` and returns, `after` being the bank
    /// afterwards. A transfer to the same account is `Prohibited`. Otherwise the two
    /// legs are checked against the balances before anything is logged: where one of
    /// them is refused, that error is returned; where fewer than two identifiers are
    /// left, `InternalError`. In all these cases nothing changes. Otherwise both legs
    /// are logged, one after the other, and applied, and the two accounts returned as
    /// they then stand, the source first.
    pub open spec fn transfers(
        &self,
        after: &Self,
        from: Seq<char>,
        to: Seq<char>,
        amount: nat,
        r: Result<Seq<AccountModel>, BankError>,
    ) -> bool {
        let legs = transfer_legs(from, to, amount);
        let refusal = if from == to {
            Some(BankError::Prohibited)
        } else if first_failure(self.balances(), legs).is_some() {
            first_failure(self.balances(), legs)
        } else if self.last_id() + 2 > u128::MAX {
            Some(BankError::InternalError)
        } else {
            None
        };
        match refusal {
            Some(e) => r == Err::<Seq<AccountModel>, BankError>(e) && after.log() == self.log()
                && after.balances() == self.balances() && after.last_id() == self.last_id(),
            None => {
                &&& r == Ok::<Seq<AccountModel>, BankError>(
                    seq![account_in(after.balances(), from), account_in(after.balances(), to)],
                )
                &&& after.balances() == apply_all(self.balances(), legs)
                &&& after.last_id() == self.last_id() + 2
                &&& after.log() == self.log() + batch_entries(self.last_id(), legs)
            },
        }
    }

    /// Moves `money` from the account `from` to the account `to`: both legs or neither.
    /// Both legs are checked before anything is written: the withdrawal against the
    /// balances as they are, the deposit against the balances as the withdrawal
    /// would leave them. Only then are the two entries appended and applied.
    pub fn move_money(&mut self, from: &AccountId, to: &AccountId, money: NonZeroMoney) -> (r:
        Result<Vec<Account>, BankError>)
        requires
            old(self).wf(),
        ensures
            final(self).wf(),
            old(self).transfers(final(self), from@, to@, money.value(), accounts_outcome(r)),
            old(self).is_sound() ==> final(self).is_sound(),
    {
        if *from == *to {
            return Err(BankError::Prohibited);
        }
        let ghost legs = transfer_legs(from@, to@, money.value());
        let ghost start = self.state.balances();
        let amount: u32 = money.get();
        assert(legs[0] == OperationModel::Withdraw(from@, money.value()));
        assert(legs[1] == OperationModel::Deposit(to@, money.value()));
        let source = match self.state.get_balance(from) {
            Ok(account) => account,
            Err(e) => {
                assert(first_failure(start, legs) == Some(e));
                return Err(e);
            },
        };
        if source.balance < amount {
            assert(first_failure(start, legs) == Some(BankError::InsufficientFunds));
            return Err(BankError::InsufficientFunds);
        }
        proof {
            let next = apply_op(start, legs[0]).unwrap();
            assert(legs.drop_first()[0] == legs[1]);
            assert(next.dom().contains(to@) == start.dom().contains(to@));
            assert(start.dom().contains(to@) ==> next[to@] == start[to@]);
        }
        let target = match self.state.get_balance(to) {
            Ok(account) => account,
            Err(e) => {
                proof {
                    let next = apply_op(start, legs[0]).unwrap();
                    assert(first_failure(next, legs.drop_first()) == Some(e));
                    assert(first_failure(start, legs) == Some(e));
                }
                return Err(e);
            },
        };
        if amount > u32::MAX - target.balance {
            proof {
                let next = apply_op(start, legs[0]).unwrap();
                assert(first_failure(next, legs.drop_first()) == Some(BankError::BadRequest));
                assert(first_failure(start, legs) == Some(BankError::BadRequest));
            }
            return Err(BankError::BadRequest);
        }
        proof {
            let next = apply_op(start, legs[0]).unwrap();
            let last = apply_op(next, legs[1]).unwrap();
            assert(legs.drop_first().drop_first().len() == 0);
            assert(first_failure(last, legs.drop_first().drop_first()).is_none());
            assert(first_failure(next, legs.drop_first()).is_none());
            assert(first_failure(start, legs).is_none());
        }
        let mut ops: Vec<Operation> = Vec::new();
        ops.push(Operation::Withdraw(from.clone(), money));
        ops.push(Operation::Deposit(to.clone(), money));
        let mut logged: Vec<Operation> = Vec::new();
        logged.push(Operation::Withdraw(from.clone(), money));
        logged.push(Operation::Deposit(to.clone(), money));
        assert(models(ops@) =~= legs);
        assert(models(logged@) =~= legs);
        let ghost before = self.storage.log();
        match self.storage.transact(logged) {
            Ok(_) => {
                proof {
                    let added = batch_entries(old(self).last_id(), legs);
                    assert(ops_of(before + added) =~= ops_of(before) + legs);
                    lemma_project_append(ops_of(before), legs);
                }
                match self.state.transact(&ops) {
                    Ok(accounts) => {
                        assert(accounts[0]@ == account_in(self.state.balances(), from@));
                        assert(accounts[1]@ == account_in(self.state.balances(), to@));
                        assert(account_models(accounts@) =~= seq![
                            account_in(self.state.balances(), from@),
                            account_in(self.state.balances(), to@),
                        ]);
                        Ok(accounts)
                    },
                    // Never reached: both legs were checked before they were logged.
                    Err(_) => Err(BankError::InternalError),
                }
            },
            Err(e) => Err(e),
        }
    }

    /// Builds a bank by replaying a history on an empty log and empty balances: every
    /// entry is logged anew, in order, and applied; one that the balances refuse at
    /// its place stays in the log and changes no balance. The identifiers of the
    /// history are not kept: the entries are numbered anew, without a gap, from the
    /// identifier on that follows the last one of an empty log.
    pub fn from(history: Vec<(OpId, &Operation)>) -> (r: Bank<T, S>) where
        T: Default,
        S: Default,

        requires
            all_events(ops_of(entry_models(history@))),
            forall|storage: T| #[trigger]
                call_ensures(T::default, (), storage) ==> storage.wf() && storage.log().len() == 0
                    && storage.last_id() + history.len() <= u128::MAX,
            forall|state: S| #[trigger]
                call_ensures(S::default, (), state) ==> state.balances() == Map::<
                    Seq<char>,
                    u32,
                >::empty(),
        ensures
            r.wf(),
            ops_of(r.log()) == ops_of(entry_models(history@)),
            r.balances() == project(ops_of(entry_models(history@))),
            r.last_id() >= history.len(),
            r.log() == batch_entries(
                (r.last_id() - history.len()) as OpId,
                ops_of(entry_models(history@)),
            ),
            exists|fresh: T|
                #![trigger call_ensures(T::default, (), fresh)]
                call_ensures(T::default, (), fresh) && r.last_id() == fresh.last_id()
                    + history.len(),
    {
        let ghost replayed = ops_of(entry_models(history@));
        let storage = T::default();
        let ghost fresh = storage;
        let mut bank: Bank<T, S> = Bank { storage, state: S::default() };
        let ghost first_id = bank.storage.last_id();
        assert(ops_of(bank.storage.log()) =~= replayed.take(0));
        assert(bank.storage.log() =~= batch_entries(first_id, replayed.take(0)));
        let mut i: usize = 0;
        while i < history.len()
            invariant
                0 <= i <= history.len(),
                replayed == ops_of(entry_models(history@)),
                all_events(replayed),
                call_ensures(T::default, (), fresh),
                first_id == fresh.last_id(),
                bank.wf(),
                first_id + history.len() <= u128::MAX,
                bank.storage.last_id() == first_id + i,
                ops_of(bank.storage.log()) == replayed.take(i as int),
                bank.storage.log() == batch_entries(first_id, replayed.take(i as int)),
            decreases history.len() - i,
        {
            let ghost before = bank.storage.log();
            let op: &Operation = history[i].1;
            assert(replayed[i as int] == op@);
            match bank.storage.persist(op.clone()) {
                Ok(id) => {
                    proof {
                        assert(ops_of(before.push((id, op@))) =~= ops_of(before).push(op@));
                        assert(replayed.take(i + 1) =~= replayed.take(i as int).push(op@));
                        assert(before.push((id, op@)) =~= batch_entries(
                            first_id,
                            replayed.take(i + 1),
                        ));
                        lemma_project_push(ops_of(before), op@);
                    }
                    let _ = bank.state.update(op);
                },
                Err(_) => {
                    // Never reached: the entry is an event and there are identifiers left.
                    assert(false);
                },
            }
            i += 1;
        }
        assert(replayed.take(history.len() as int) =~= replayed);
        bank
    }

    /// Replaying the history of a bank gives a bank with the same balances.
    pub proof fn lemma_replay_restores_balances(
        &self,
        history: Seq<(OpId, &Operation)>,
        replayed: &Self,
    )
        requires
            self.wf(),
            entry_models(history) == self.log(),
            replayed.wf(),
            ops_of(replayed.log()) == ops_of(entry_models(history)),
        ensures
            replayed.balances() == self.balances(),
            replayed.is_sound() == self.is_sound(),
    {
    }

    /// Two replays of one history give the same operations in the log and the same
    /// balances, and so does a replay of what a replay has logged.
    pub proof fn lemma_replay_is_repeatable(
        history: Seq<(OpId, &Operation)>,
        first: &Self,
        second: &Self,
    )
        requires
            first.wf(),
            second.wf(),
            ops_of(first.log()) == ops_of(entry_models(history)),
            ops_of(second.log()) == ops_of(first.log()),
        ensures
            first.balances() == second.balances(),
            first.balances() == project(ops_of(entry_models(history))),
    {
    }

    /// Two replays of one history that start from empty logs with the same last
    /// identifier hold the same log, entry by entry, and the same balances.
    pub proof fn lemma_replays_agree(
        history: Seq<(OpId, &Operation)>,
        first: &Self,
        second: &Self,
    )
        requires
            first.wf(),
            second.wf(),
            first.last_id() >= history.len(),
            first.log() == batch_entries(
                (first.last_id() - history.len()) as OpId,
                ops_of(entry_models(history)),
            ),
            second.last_id() == first.last_id(),
            second.log() == batch_entries(
                (second.last_id() - history.len()) as OpId,
                ops_of(entry_models(history)),
            ),
        ensures
            first.log() == second.log(),
            first.balances() == second.balances(),
    {
    }

    /// One deposit that the balances and the identifiers admit is answered with the
    /// balance that it makes, and is the one new entry of the log.
    pub proof fn lemma_deposit_is_committed(
        &self,
        after: &Self,
        account: Seq<char>,
        amount: nat,
        outcome: Result<AccountModel, BankError>,
    )
        requires
            self.commits(after, OperationModel::Deposit(account, amount), outcome),
            self.balances().dom().contains(account),
            self.balances()[account] + amount <= u32::MAX,
            self.last_id() < u128::MAX,
        ensures
            outcome == Ok::<AccountModel, BankError>(
                AccountModel {
                    account_id: account,
                    balance: (self.balances()[account] + amount) as u32,
                },
            ),
            after.balances() == self.balances().insert(
                account,
                (self.balances()[account] + amount) as u32,
            ),
            after.last_id() == self.last_id() + 1,
            after.log() == self.log().push(
                ((self.last_id() + 1) as OpId, OperationModel::Deposit(account, amount)),
            ),
    {
    }

    /// Deposits add up, from whichever sessions they come and however these take
    /// turns: the bank deals with one request at a time, so every interleaving is a
    /// sequence of banks, each coming of the one before by one deposit of `amount`
    /// to `account`. Then deposit number `k` is answered with the first balance and
    /// `k` times the amount, none is lost, and the log has grown by exactly these
    /// deposits.
    pub proof fn lemma_deposits_add_up(
        banks: Seq<Self>,
        outcomes: Seq<Result<AccountModel, BankError>>,
        account: Seq<char>,
        amount: nat,
    )
        requires
            banks.len() == outcomes.len() + 1,
            forall|k: int|
                0 <= k < outcomes.len() ==> banks[k].commits(
                    &banks[k + 1],
                    OperationModel::Deposit(account, amount),
                    #[trigger] outcomes[k],
                ),
            banks[0].balances().dom().contains(account),
            banks[0].balances()[account] + times(outcomes.len() as int, amount) <= u32::MAX,
            banks[0].last_id() + outcomes.len() <= u128::MAX,
        ensures
            forall|k: int|
                0 <= k < outcomes.len() ==> #[trigger] outcomes[k] == Ok::<AccountModel, BankError>(
                    AccountModel {
                        account_id: account,
                        balance: (banks[0].balances()[account] + times(k + 1, amount)) as u32,
                    },
                ),
            banks.last().balances() == banks[0].balances().insert(
                account,
                (banks[0].balances()[account] + times(outcomes.len() as int, amount)) as u32,
            ),
            banks.last().last_id() == banks[0].last_id() + outcomes.len(),
            banks.last().log() == banks[0].log() + batch_entries(
                banks[0].last_id(),
                Seq::new(outcomes.len(), |i: int| OperationModel::Deposit(account, amount)),
            ),
        decreases outcomes.len(),
    {
        let n = outcomes.len() as int;
        let first = banks[0].balances()[account] as int;
        let deposit = OperationModel::Deposit(account, amount);
        lemma_times(n - 1, amount);
        if n == 0 {
            assert(banks.last().balances() =~= banks[0].balances().insert(account, first as u32));
            assert(banks.last().log() =~= banks[0].log() + batch_entries(
                banks[0].last_id(),
                Seq::new(0, |i: int| deposit),
            ));
        } else {
            let shorter = banks.drop_last();
            let earlier = outcomes.drop_last();
            assert forall|k: int| 0 <= k < earlier.len() implies shorter[k].commits(
                &shorter[k + 1],
                deposit,
                #[trigger] earlier[k],
            ) by {
                assert(earlier[k] == outcomes[k]);
                assert(banks[k].commits(&banks[k + 1], deposit, outcomes[k]));
            }
            Self::lemma_deposits_add_up(shorter, earlier, account, amount);
            let before = banks[n - 1];
            let after = banks[n];
            assert(shorter.last() == before);
            assert(before.balances()[account] == first + times(n - 1, amount));
            assert(banks[n - 1].commits(&banks[n - 1 + 1], deposit, outcomes[n - 1]));
            before.lemma_deposit_is_committed(&after, account, amount, outcomes[n - 1]);
            assert(after.balances() =~= banks[0].balances().insert(
                account,
                (first + times(n, amount)) as u32,
            ));
            assert forall|k: int| 0 <= k < outcomes.len() implies #[trigger] outcomes[k] == Ok::<
                AccountModel,
                BankError,
            >(
                AccountModel { account_id: account, balance: (first + times(k + 1, amount)) as u32 },
            ) by {
                if k < n - 1 {
                    assert(earlier[k] == outcomes[k]);
                }
            }
            assert(banks.last().log() =~= banks[0].log() + batch_entries(
                banks[0].last_id(),
                Seq::new(outcomes.len(), |i: int| deposit),
            ));
        }
    }

    /// The balances of a bank are always what its log stands for, and where every
    /// entry of the log was accepted, each balance is what was deposited to the
    /// account less what was withdrawn from it.
    pub proof fn lemma_balances_follow_log(&self, account: Seq<char>)
        requires
            self.wf(),
        ensures
            self.balances() == project(ops_of(self.log())),
            self.is_sound() && self.balances().dom().contains(account) ==> self.balances()[account]
                as int == deposits(ops_of(self.log()), account) - withdrawals(
                ops_of(self.log()),
                account,
            ),
    {
        if self.is_sound() {
            lemma_balance_is_deposits_less_withdrawals(ops_of(self.log()), account);
        }
    }

    /// The log of a bank holds events only, and their identifiers are never zero and
    /// grow strictly from each entry to the next.
    pub proof fn lemma_log_is_ordered(&self)
        requires
            self.wf(),
        ensures
            all_events(ops_of(self.log())),
            ids_increase(self.log()),
    {
        self.storage.lemma_wf();
    }

    /// A transfer logs both of its legs, the withdrawal directly before the deposit
    /// and both behind all earlier entries, or it logs nothing.
    pub proof fn lemma_transfer_is_atomic(
        &self,
        after: &Self,
        from: Seq<char>,
        to: Seq<char>,
        amount: nat,
        r: Result<Seq<AccountModel>, BankError>,
    )
        requires
            self.transfers(after, from, to, amount, r),
        ensures
            r.is_err() ==> after.log() == self.log() && after.balances() == self.balances(),
            r.is_ok() ==> {
                &&& after.log().len() == self.log().len() + 2
                &&& after.log().take(self.log().len() as int) == self.log()
                &&& after.log()[self.log().len() as int].1 == OperationModel::Withdraw(from, amount)
                &&& after.log()[self.log().len() as int + 1].1 == OperationModel::Deposit(to, amount)
            },
    {
        if r.is_ok() {
            let legs = transfer_legs(from, to, amount);
            let added = batch_entries(self.last_id(), legs);
            assert(legs[0] == OperationModel::Withdraw(from, amount));
            assert(legs[1] == OperationModel::Deposit(to, amount));
            assert((self.log() + added).take(self.log().len() as int) =~= self.log());
        }
    }

    /// A transfer from an account to itself is refused as `Prohibited` and leaves
    /// the log and the balances as they were.
    pub proof fn lemma_self_transfer_is_prohibited(
        &self,
        after: &Self,
        account: Seq<char>,
        amount: nat,
        r: Result<Seq<AccountModel>, BankError>,
    )
        requires
            self.transfers(after, account, account, amount, r),
        ensures
            r == Err::<Seq<AccountModel>, BankError>(BankError::Prohibited),
            after.log() == self.log(),
            after.balances() == self.balances(),
    {
    }
}

} // verus!

use vstd::prelude::*;
use crate::account::{BankError, OperationModel};

verus! {

/// The balance of every registered account, by account name.
pub type Balances = Map<Seq<char>, u32>;

/// One step of the projection: the balances after `op`, or the reason why `op` is refused.
///
/// * `Create` registers the account with a balance of zero unless it exists already.
/// * `Deposit` adds to the balance of an existing account unless the sum leaves the range of money.
/// * `Withdraw` takes from the balance of an existing account unless it holds too little.
/// * A transfer or a balance query is no event and is refused.
pub open spec fn apply_op(balances: Balances, op: OperationModel) -> Result<Balances, BankError> {
    match op {
        OperationModel::Create(id) => if balances.dom().contains(id) {
            Err(BankError::DuplicateAccount)
        } else {
            Ok(balances.insert(id, 0u32))
        },
        OperationModel::Deposit(id, amount) => if !balances.dom().contains(id) {
            Err(BankError::UnknownAccount)
        } else if balances[id] + amount > u32::MAX {
            Err(BankError::BadRequest)
        } else {
            Ok(balances.insert(id, (balances[id] + amount) as u32))
        },
        OperationModel::Withdraw(id, amount) => if !balances.dom().contains(id) {
            Err(BankError::UnknownAccount)
        } else if balances[id] < amount {
            Err(BankError::InsufficientFunds)
        } else {
            Ok(balances.insert(id, (balances[id] - amount) as u32))
        },
        OperationModel::Move { .. } => Err(BankError::BadRequest),
        OperationModel::GetBalance(_) => Err(BankError::BadRequest),
    }
}

/// The balances after `op` where it is accepted, the balances unchanged where it is refused.
pub open spec fn apply_or_skip(balances: Balances, op: OperationModel) -> Balances {
    match apply_op(balances, op) {
        Ok(next) => next,
        Err(_) => balances,
    }
}

/// The balances that a log stands for: the left fold of [`apply_or_skip`] over its entries,
/// starting with no account at all. An entry that is refused at its place leaves no trace.
pub open spec fn project(log: Seq<OperationModel>) -> Balances
    decreases log.len(),
{
    if log.len() == 0 {
        Map::empty()
    } else {
        apply_or_skip(project(log.drop_last()), log.last())
    }
}

/// The balances after the operations of `ops` are applied to `balances` in order, up to
/// the first one that is refused.
pub open spec fn apply_all(balances: Balances, ops: Seq<OperationModel>) -> Balances
    decreases ops.len(),
{
    if ops.len() == 0 {
        balances
    } else {
        match apply_op(balances, ops[0]) {
            Ok(next) => apply_all(next, ops.drop_first()),
            Err(_) => balances,
        }
    }
}

/// The reason why the first refused operation of `ops` is refused, if any of them is.
pub open spec fn first_failure(balances: Balances, ops: Seq<OperationModel>) -> Option<BankError>
    decreases ops.len(),
{
    if ops.len() == 0 {
        None
    } else {
        match apply_op(balances, ops[0]) {
            Ok(next) => first_failure(next, ops.drop_first()),
            Err(e) => Some(e),
        }
    }
}

/// A log in which every entry is accepted at its place: each account is created before it
/// is used and only once, no withdrawal exceeds the balance, and no balance overflows.
pub open spec fn well_formed(log: Seq<OperationModel>) -> bool
    decreases log.len(),
{
    log.len() == 0 || (well_formed(log.drop_last()) && apply_op(
        project(log.drop_last()),
        log.last(),
    ).is_ok())
}

/// The sum of the amounts deposited to `account` over the whole log.
pub open spec fn deposits(log: Seq<OperationModel>, account: Seq<char>) -> int
    decreases log.len(),
{
    if log.len() == 0 {
        0
    } else {
        deposits(log.drop_last(), account) + match log.last() {
            OperationModel::Deposit(id, amount) => if id == account {
                amount as int
            } else {
                0
            },
            _ => 0,
        }
    }
}

/// The sum of the amounts withdrawn from `account` over the whole log.
pub open spec fn withdrawals(log: Seq<OperationModel>, account: Seq<char>) -> int
    decreases log.len(),
{
    if log.len() == 0 {
        0
    } else {
        withdrawals(log.drop_last(), account) + match log.last() {
            OperationModel::Withdraw(id, amount) => if id == account {
                amount as int
            } else {
                0
            },
            _ => 0,
        }
    }
}

/// Appending one entry to a log advances its projection by one step.
pub proof fn lemma_project_push(log: Seq<OperationModel>, op: OperationModel)
    ensures
        project(log.push(op)) == apply_or_skip(project(log), op),
        well_formed(log.push(op)) == (well_formed(log) && apply_op(project(log), op).is_ok()),
{
    assert(log.push(op).drop_last() =~= log);
    assert(log.push(op).last() == op);
}

/// Appending a batch to a log whose every entry is accepted advances the projection by
/// the whole batch and keeps the log well formed.
pub proof fn lemma_project_append(log: Seq<OperationModel>, ops: Seq<OperationModel>)
    requires
        first_failure(project(log), ops).is_none(),
    ensures
        project(log + ops) == apply_all(project(log), ops),
        well_formed(log) ==> well_formed(log + ops),
    decreases ops.len(),
{
    if ops.len() == 0 {
        assert(log + ops =~= log);
    } else {
        lemma_project_push(log, ops[0]);
        lemma_project_append(log.push(ops[0]), ops.drop_first());
        assert(log.push(ops[0]) + ops.drop_first() =~= log + ops);
    }
}

/// In a well-formed log, the balance of every registered account is what was deposited
/// to it less what was withdrawn from it, and nothing was deposited to or withdrawn from
/// an account that is not registered.
pub proof fn lemma_balance_is_deposits_less_withdrawals(
    log: Seq<OperationModel>,
    account: Seq<char>,
)
    requires
        well_formed(log),
    ensures
        project(log).dom().contains(account) ==> project(log)[account] as int == deposits(
            log,
            account,
        ) - withdrawals(log, account),
        !project(log).dom().contains(account) ==> deposits(log, account) == 0 && withdrawals(
            log,
            account,
        ) == 0,
    decreases log.len(),
{
    if log.len() > 0 {
        lemma_balance_is_deposits_less_withdrawals(log.drop_last(), account);
    }
}

/// The projection of a log depends on its entries alone: two logs with the same entries
/// stand for the same balances, however often they are folded.
pub proof fn lemma_projection_is_deterministic(
    first: Seq<OperationModel>,
    second: Seq<OperationModel>,
)
    requires
        first =~= second,
    ensures
        project(first) == project(second),
        well_formed(first) == well_formed(second),
{
}

/// Withdrawing exactly the balance of an account is accepted and leaves it at zero.
pub proof fn lemma_withdraw_whole_balance(balances: Balances, account: Seq<char>)
    requires
        balances.dom().contains(account),
    ensures
        apply_op(balances, OperationModel::Withdraw(account, balances[account] as nat)) == Ok::<
            Balances,
            BankError,
        >(balances.insert(account, 0u32)),
{
}

/// Withdrawing more than the balance of an account, be it by one, is refused for
/// want of funds and changes nothing.
pub proof fn lemma_overdraw_is_refused(balances: Balances, account: Seq<char>, amount: nat)
    requires
        balances.dom().contains(account),
        amount > balances[account],
    ensures
        apply_op(balances, OperationModel::Withdraw(account, amount)) == Err::<
            Balances,
            BankError,
        >(BankError::InsufficientFunds),
        apply_or_skip(balances, OperationModel::Withdraw(account, amount)) == balances,
{
}

/// Every entry of a well-formed log is accepted by the balances that the entries
/// before it stand for, and these entries are a well-formed log themselves.
pub proof fn lemma_entry_is_accepted(log: Seq<OperationModel>, at: int)
    requires
        well_formed(log),
        0 <= at < log.len(),
    ensures
        well_formed(log.take(at)),
        apply_op(project(log.take(at)), log[at]).is_ok(),
    decreases log.len(),
{
    if at == log.len() - 1 {
        assert(log.take(at) =~= log.drop_last());
    } else {
        lemma_entry_is_accepted(log.drop_last(), at);
        assert(log.drop_last().take(at) =~= log.take(at));
    }
}

/// An account is registered only by an entry that creates it.
pub proof fn lemma_registered_was_created(log: Seq<OperationModel>, account: Seq<char>)
    requires
        project(log).dom().contains(account),
    ensures
        exists|at: int| 0 <= at < log.len() && #[trigger] log[at] == OperationModel::Create(account),
    decreases log.len(),
{
    if log.len() > 0 {
        if project(log.drop_last()).dom().contains(account) {
            lemma_registered_was_created(log.drop_last(), account);
            let at = choose|at: int|
                0 <= at < log.drop_last().len() && #[trigger] log.drop_last()[at]
                    == OperationModel::Create(account);
            assert(log[at] == OperationModel::Create(account));
        } else {
            assert(log[log.len() - 1] == OperationModel::Create(account));
        }
    }
}

/// In a well-formed log every deposit and every withdrawal names an account that an
/// earlier entry has created, and no withdrawal takes more than the account holds
/// at that place.
pub proof fn lemma_used_after_created_and_never_overdrawn(log: Seq<OperationModel>, at: int)
    requires
        well_formed(log),
        0 <= at < log.len(),
        log[at] is Deposit || log[at] is Withdraw,
    ensures
        exists|earlier: int|
            0 <= earlier < at && #[trigger] log[earlier] == OperationModel::Create(
                log[at].account_id(),
            ),
        log[at] matches OperationModel::Withdraw(account, amount) ==> amount <= project(
            log.take(at),
        )[account],
{
    lemma_entry_is_accepted(log, at);
    lemma_registered_was_created(log.take(at), log[at].account_id());
    let earlier = choose|earlier: int|
        0 <= earlier < log.take(at).len() && #[trigger] log.take(at)[earlier]
            == OperationModel::Create(log[at].account_id());
    assert(log[earlier] == OperationModel::Create(log[at].account_id()));
}

} // verus!

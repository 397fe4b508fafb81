use vstd::prelude::*;
use crate::money::{Money, NonZeroMoney};

verus! {

/// The name under which an account is registered.
pub type AccountId = String;

/// The identifier that the operation log gives to an entry. It is never zero.
pub type OpId = u128;

/// Why the ledger, the codec or the transport refused a request.
#[derive(Clone, Copy, Debug, PartialEq, Eq, Structural)]
pub enum BankError {
    /// An account with that name is already registered.
    DuplicateAccount,
    /// No account with that name is registered.
    UnknownAccount,
    /// The account holds less than was asked for.
    InsufficientFunds,
    /// A transfer from an account to itself.
    Prohibited,
    /// Bytes that do not decode, a zero amount, or a balance that would overflow.
    BadRequest,
    /// A stream that ended early or a frame whose length is wrong.
    TransportError,
    /// The identifiers of the log are used up, or the log and the balances disagree.
    InternalError,
}

/// The mathematical value of an [`Account`].
pub struct AccountModel {
    pub account_id: Seq<char>,
    pub balance: u32,
}

/// A named holding of money.
#[derive(Debug, Default, PartialEq, Eq)]
pub struct Account {
    pub account_id: AccountId,
    pub balance: Money,
}

impl View for Account {
    type V = AccountModel;

    open spec fn view(&self) -> AccountModel {
        AccountModel { account_id: self.account_id@, balance: self.balance }
    }
}

impl Clone for Account {
    fn clone(&self) -> (r: Self)
        ensures
            r@ == self@,
    {
        Account { account_id: self.account_id.clone(), balance: self.balance }
    }
}

/// The mathematical value of an [`Operation`].
pub enum OperationModel {
    Create(Seq<char>),
    Deposit(Seq<char>, nat),
    Withdraw(Seq<char>, nat),
    Move { from: Seq<char>, to: Seq<char>, amount: nat },
    GetBalance(Seq<char>),
}

impl OperationModel {
    /// Whether the operation changes the ledger and so belongs in the log:
    /// a transfer is logged as its two legs and a balance query is not logged.
    pub open spec fn is_event(self) -> bool {
        self is Create || self is Deposit || self is Withdraw
    }

    /// The account that the operation names first.
    pub open spec fn account_id(self) -> Seq<char> {
        match self {
            OperationModel::Create(id) => id,
            OperationModel::Deposit(id, _) => id,
            OperationModel::Withdraw(id, _) => id,
            OperationModel::Move { from, .. } => from,
            OperationModel::GetBalance(id) => id,
        }
    }
}

/// What a client may ask of the ledger.
#[derive(Debug, PartialEq, Eq)]
pub enum Operation {
    /// Registers a new account with a balance of zero.
    Create(AccountId),
    /// Adds the amount to the account's balance.
    Deposit(AccountId, NonZeroMoney),
    /// Takes the amount from the account's balance, if it holds that much.
    Withdraw(AccountId, NonZeroMoney),
    /// Takes the amount from one account and adds it to another.
    Move { from: AccountId, to: AccountId, amount: NonZeroMoney },
    /// Asks for the account's balance.
    GetBalance(AccountId),
}

impl View for Operation {
    type V = OperationModel;

    open spec fn view(&self) -> OperationModel {
        match self {
            Operation::Create(id) => OperationModel::Create(id@),
            Operation::Deposit(id, m) => OperationModel::Deposit(id@, m.value()),
            Operation::Withdraw(id, m) => OperationModel::Withdraw(id@, m.value()),
            Operation::Move { from, to, amount } => OperationModel::Move {
                from: from@,
                to: to@,
                amount: amount.value(),
            },
            Operation::GetBalance(id) => OperationModel::GetBalance(id@),
        }
    }
}

impl Clone for Operation {
    fn clone(&self) -> (r: Self)
        ensures
            r@ == self@,
    {
        match self {
            Operation::Create(id) => Operation::Create(id.clone()),
            Operation::Deposit(id, m) => Operation::Deposit(id.clone(), *m),
            Operation::Withdraw(id, m) => Operation::Withdraw(id.clone(), *m),
            Operation::Move { from, to, amount } => Operation::Move {
                from: from.clone(),
                to: to.clone(),
                amount: *amount,
            },
            Operation::GetBalance(id) => Operation::GetBalance(id.clone()),
        }
    }
}

impl Operation {
    /// Whether the operation is one that the log records.
    pub fn is_event(&self) -> (r: bool)
        ensures
            r == self@.is_event(),
    {
        match self {
            Operation::Create(_) => true,
            Operation::Deposit(_, _) => true,
            Operation::Withdraw(_, _) => true,
            Operation::Move { .. } => false,
            Operation::GetBalance(_) => false,
        }
    }

    /// The account that a logged operation is filed under.
    pub fn account_id(&self) -> (r: &AccountId)
        requires
            self@.is_event(),
        ensures
            r@ == self@.account_id(),
    {
        match self {
            Operation::Create(id) => id,
            Operation::Deposit(id, _) => id,
            Operation::Withdraw(id, _) => id,
            Operation::Move { from, .. } => from,
            Operation::GetBalance(id) => id,
        }
    }
}

} // verus!

use vstd::prelude::*;
use vstd::utf8::{is_ascii_chars, is_ascii_chars_encode_utf8};
use crate::account::{Account, AccountId, AccountModel, BankError, Operation, OperationModel};
use crate::bank::{account_models, account_outcome, accounts_outcome, times, Bank};
use crate::storage::batch_entries;
use crate::money::{Money, NonZeroMoney};
use crate::protocol::{Protocol, ProtocolModel};
use crate::ser_de::{element_models, lemma_be_bytes_round_trip, wire_all, Serializable};
use crate::state::{account_in, State};
use crate::storage::OpsStorage;

verus! {

/// What a client may ask of the server.
#[derive(Debug, PartialEq, Eq)]
pub enum ClientRequest {
    /// Registers a new account.
    Create(AccountId),
    /// Adds the amount to the account's balance.
    Deposit(AccountId, NonZeroMoney),
    /// Takes the amount from the account's balance.
    Withdraw(AccountId, NonZeroMoney),
    /// Takes the amount from one account and adds it to another.
    Move { from: AccountId, to: AccountId, amount: NonZeroMoney },
    /// Asks for the account's balance.
    GetBalance(AccountId),
    /// Ends the session.
    Quit,
}

/// An account as the server reports it.
#[derive(Debug, PartialEq, Eq)]
pub struct AccountRef {
    pub account_id: String,
    pub balance: Money,
}

impl View for AccountRef {
    type V = AccountModel;

    open spec fn view(&self) -> AccountModel {
        AccountModel { account_id: self.account_id@, balance: self.balance }
    }
}

/// What the server answers.
#[derive(Debug, PartialEq, Eq)]
pub enum ServerResponse {
    /// The account after a registration, a deposit, a withdrawal or a balance query.
    AccountState(AccountRef),
    /// The two accounts after a transfer, and the amount that was moved.
    FundsMovement { from: AccountRef, to: AccountRef, amount: NonZeroMoney },
    /// Why the request was refused.
    Error { message: String },
    /// The answer to `Quit`: the session is over.
    Bye,
}

impl BankError {
    /// A short text that names the error. It takes no more than 16 bytes, so that it
    /// can travel in a response.
    pub fn message(&self) -> (r: String)
        ensures
            r@ == self.text(),
    {
        match self {
            BankError::DuplicateAccount => "account exists".to_string(),
            BankError::UnknownAccount => "unknown account".to_string(),
            BankError::InsufficientFunds => "funds too low".to_string(),
            BankError::Prohibited => "prohibited".to_string(),
            BankError::BadRequest => "bad request".to_string(),
            BankError::TransportError => "transport error".to_string(),
            BankError::InternalError => "internal error".to_string(),
        }
    }

    /// The text of [`BankError::message`].
    pub open spec fn text(&self) -> Seq<char> {
        match self {
            BankError::DuplicateAccount => "account exists"@,
            BankError::UnknownAccount => "unknown account"@,
            BankError::InsufficientFunds => "funds too low"@,
            BankError::Prohibited => "prohibited"@,
            BankError::BadRequest => "bad request"@,
            BankError::TransportError => "transport error"@,
            BankError::InternalError => "internal error"@,
        }
    }
}

/// The text of every error is short enough to travel in a response.
pub proof fn lemma_error_text_has_encoding(e: BankError)
    ensures
        AccountId::wire(e.text()).is_some(),
{
    reveal_strlit("account exists");
    reveal_strlit("unknown account");
    reveal_strlit("funds too low");
    reveal_strlit("prohibited");
    reveal_strlit("bad request");
    reveal_strlit("transport error");
    reveal_strlit("internal error");
    assert(is_ascii_chars(e.text()));
    is_ascii_chars_encode_utf8(e.text());
}

/// A refusal can always be sent: the response that carries the text of an error has
/// an encoding.
pub proof fn lemma_refusal_has_encoding(e: BankError)
    ensures
        Protocol::wire(ProtocolModel::Response(Err(e.text()))).is_some(),
{
    lemma_error_text_has_encoding(e);
}

/// An answer can be sent where the names of its accounts can: the response that
/// carries one account or two accounts whose names have an encoding has one itself.
pub proof fn lemma_answer_has_encoding(accounts: Seq<AccountModel>)
    requires
        accounts.len() <= 2,
        forall|i: int|
            0 <= i < accounts.len() ==> AccountId::wire(
                (#[trigger] accounts[i]).account_id,
            ).is_some(),
    ensures
        Protocol::wire(ProtocolModel::Response(Ok(accounts))).is_some(),
{
    assert forall|i: int| 0 <= i < accounts.len() implies Account::wire(
        #[trigger] accounts[i],
    ).is_some() && Account::wire(accounts[i]).unwrap().len() <= 26 by {
        lemma_be_bytes_round_trip(accounts[i].balance);
    }
    if accounts.len() == 0 {
    } else if accounts.len() == 1 {
        assert(wire_all::<Account>(accounts.drop_first()) == Some(Seq::<u8>::empty()));
    } else {
        let rest = accounts.drop_first();
        assert(rest[0] == accounts[1]);
        assert(wire_all::<Account>(rest.drop_first()) == Some(Seq::<u8>::empty()));
        assert(wire_all::<Account>(rest).is_some());
    }
}

/// The account as a report for the client.
fn to_account_ref(account: &Account) -> (r: AccountRef)
    ensures
        r@ == account@,
{
    AccountRef { account_id: account.account_id.clone(), balance: account.balance }
}

/// The answer that carries one account.
fn one_account(ret: Result<Account, BankError>) -> (r: Result<Vec<Account>, BankError>)
    ensures
        accounts_outcome(r) == one_outcome(account_outcome(ret)),
{
    match ret {
        Ok(account) => {
            let mut accounts: Vec<Account> = Vec::new();
            accounts.push(account);
            assert(account_models(accounts@) =~= seq![account@]);
            Ok(accounts)
        },
        Err(e) => Err(e),
    }
}

/// The outcome of a request for one account as a list of one account.
pub open spec fn one_outcome(single: Result<AccountModel, BankError>) -> Result<
    Seq<AccountModel>,
    BankError,
> {
    match single {
        Ok(account) => Ok(seq![account]),
        Err(e) => Err(e),
    }
}

/// The outcome of a request for one account, taken from a list of one account.
pub open spec fn single_outcome(r: Result<Seq<AccountModel>, BankError>) -> Result<
    AccountModel,
    BankError,
> {
    match r {
        Ok(accounts) => Ok(accounts[0]),
        Err(e) => Err(e),
    }
}

/// What the bank does with a request and what it answers: `after` is the bank
/// afterwards and `r` the accounts that the request touched, or the reason why it
/// was refused. A registration, a deposit and a withdrawal are committed as
/// [`Bank::commits`] says and answered with their account; a balance query changes
/// nothing and is answered with the account; a transfer is carried out as
/// [`Bank::transfers`] says and answered with the source and the target.
pub open spec fn deals<T: OpsStorage, S: State>(
    before: &Bank<T, S>,
    after: &Bank<T, S>,
    op: OperationModel,
    r: Result<Seq<AccountModel>, BankError>,
) -> bool {
    match op {
        OperationModel::Move { from, to, amount } => before.transfers(after, from, to, amount, r),
        OperationModel::GetBalance(id) => {
            &&& after.log() == before.log()
            &&& after.balances() == before.balances()
            &&& after.last_id() == before.last_id()
            &&& if before.balances().dom().contains(id) {
                r == Ok::<Seq<AccountModel>, BankError>(seq![account_in(before.balances(), id)])
            } else {
                r == Err::<Seq<AccountModel>, BankError>(BankError::UnknownAccount)
            }
        },
        _ => {
            &&& r matches Ok(accounts) ==> accounts.len() == 1
            &&& before.commits(after, op, single_outcome(r))
        },
    }
}

/// Hands a request to the bank and returns the accounts it touched: one for a
/// registration, a deposit, a withdrawal or a balance query, and for a transfer
/// the source and then the target.
pub fn bank_deal<T: OpsStorage, S: State>(bank: &mut Bank<T, S>, op: Operation) -> (r: Result<
    Vec<Account>,
    BankError,
>)
    requires
        old(bank).wf(),
    ensures
        final(bank).wf(),
        deals(old(bank), final(bank), op@, accounts_outcome(r)),
        old(bank).is_sound() ==> final(bank).is_sound(),
{
    match op {
        Operation::Create(acc) => {
            let single = bank.create_account(&acc);
            one_account(single)
        },
        Operation::Deposit(acc, amount) => {
            let single = bank.deposit(&acc, amount);
            one_account(single)
        },
        Operation::Withdraw(acc, amount) => {
            let single = bank.withdraw(&acc, amount);
            one_account(single)
        },
        Operation::GetBalance(acc) => {
            let single = bank.get_balance(&acc);
            one_account(single)
        },
        Operation::Move { from, to, amount } => bank.move_money(&from, &to, amount),
    }
}

/// The mathematical value of a [`ServerResponse`].
pub enum ServerResponseModel {
    AccountState(AccountModel),
    FundsMovement { from: AccountModel, to: AccountModel, amount: nat },
    Error { message: Seq<char> },
    Bye,
}

impl View for ServerResponse {
    type V = ServerResponseModel;

    open spec fn view(&self) -> ServerResponseModel {
        match self {
            ServerResponse::AccountState(account) => ServerResponseModel::AccountState(account@),
            ServerResponse::FundsMovement { from, to, amount } => ServerResponseModel::FundsMovement {
                from: from@,
                to: to@,
                amount: amount.value(),
            },
            ServerResponse::Error { message } => ServerResponseModel::Error { message: message@ },
            ServerResponse::Bye => ServerResponseModel::Bye,
        }
    }
}

impl ClientRequest {
    /// The operation that the request asks for; `Quit` asks for none.
    pub open spec fn operation(&self) -> Option<OperationModel> {
        match self {
            ClientRequest::Create(id) => Some(OperationModel::Create(id@)),
            ClientRequest::Deposit(id, amount) => Some(
                OperationModel::Deposit(id@, amount.value()),
            ),
            ClientRequest::Withdraw(id, amount) => Some(
                OperationModel::Withdraw(id@, amount.value()),
            ),
            ClientRequest::Move { from, to, amount } => Some(
                OperationModel::Move { from: from@, to: to@, amount: amount.value() },
            ),
            ClientRequest::GetBalance(id) => Some(OperationModel::GetBalance(id@)),
            ClientRequest::Quit => None,
        }
    }

    /// The request as an operation for the bank, where it asks for one.
    pub fn into_operation(self) -> (r: Option<Operation>)
        ensures
            match r {
                Some(op) => self.operation() == Some(op@),
                None => self.operation().is_none(),
            },
    {
        match self {
            ClientRequest::Create(account_id) => Some(Operation::Create(account_id)),
            ClientRequest::Deposit(account_id, amount) => Some(
                Operation::Deposit(account_id, amount),
            ),
            ClientRequest::Withdraw(account_id, amount) => Some(
                Operation::Withdraw(account_id, amount),
            ),
            ClientRequest::Move { from, to, amount } => Some(Operation::Move { from, to, amount }),
            ClientRequest::GetBalance(account_id) => Some(Operation::GetBalance(account_id)),
            ClientRequest::Quit => None,
        }
    }
}

/// The response that reports what the operation `op` returned: one account as its
/// state, the two accounts of a transfer as a movement of its amount.
pub open spec fn report(op: OperationModel, accounts: Seq<AccountModel>) -> ServerResponseModel {
    match op {
        OperationModel::Move { from, to, amount } => ServerResponseModel::FundsMovement {
            from: accounts[0],
            to: accounts[1],
            amount,
        },
        _ => ServerResponseModel::AccountState(accounts[0]),
    }
}

/// The accounts that a response reports, or the error in its place.
pub open spec fn reported(r: Result<Option<ServerResponse>, BankError>) -> Result<
    Seq<AccountModel>,
    BankError,
> {
    match r {
        Ok(Some(response)) => match response@ {
            ServerResponseModel::AccountState(account) => Ok(seq![account]),
            ServerResponseModel::FundsMovement { from, to, .. } => Ok(seq![from, to]),
            _ => Ok(Seq::empty()),
        },
        Ok(None) => Ok(Seq::empty()),
        Err(e) => Err(e),
    }
}

/// Carries out a client's request on the bank and forms the response: the state of
/// the account for a registration, a deposit, a withdrawal and a balance query; the
/// source, the target and the amount for a transfer; nothing for `Quit`, which
/// leaves the bank as it is. A request that the bank refuses is returned as its
/// error.
pub fn process_request<T: OpsStorage, S: State>(
    client_request: ClientRequest,
    bank_ref: &mut Bank<T, S>,
) -> (r: Result<Option<ServerResponse>, BankError>)
    requires
        old(bank_ref).wf(),
    ensures
        final(bank_ref).wf(),
        old(bank_ref).is_sound() ==> final(bank_ref).is_sound(),
        match client_request.operation() {
            None => {
                &&& r matches Ok(None)
                &&& final(bank_ref).log() == old(bank_ref).log()
                &&& final(bank_ref).balances() == old(bank_ref).balances()
                &&& final(bank_ref).last_id() == old(bank_ref).last_id()
            },
            Some(op) => processes(old(bank_ref), final(bank_ref), op, r),
        },
{
    let amount: Option<NonZeroMoney> = match &client_request {
        ClientRequest::Move { amount, .. } => Some(*amount),
        _ => None,
    };
    let op: Operation = match client_request.into_operation() {
        Some(op) => op,
        None => {
            return Ok(None);
        },
    };
    let ghost asked = op@;
    match bank_deal(bank_ref, op) {
        Ok(accounts) => {
            let ghost touched = account_models(accounts@);
            assert(deals(old(bank_ref), bank_ref, asked, Ok(touched)));
            match amount {
                Some(amount) => {
                    assert(touched.len() == 2);
                    assert(touched[0] == accounts[0]@);
                    assert(touched[1] == accounts[1]@);
                    assert(touched =~= seq![accounts[0]@, accounts[1]@]);
                    Ok(
                        Some(
                            ServerResponse::FundsMovement {
                                from: to_account_ref(&accounts[0]),
                                to: to_account_ref(&accounts[1]),
                                amount,
                            },
                        ),
                    )
                },
                None => {
                    assert(touched.len() == 1);
                    assert(touched[0] == accounts[0]@);
                    assert(touched =~= seq![accounts[0]@]);
                    Ok(Some(ServerResponse::AccountState(to_account_ref(&accounts[0]))))
                },
            }
        },
        Err(e) => {
            assert(deals(old(bank_ref), bank_ref, asked, Err(e)));
            Err(e)
        },
    }
}

/// Whether the request was answered with the state of the account `account`.
pub open spec fn answered_with(
    r: Result<Option<ServerResponse>, BankError>,
    account: AccountModel,
) -> bool {
    r matches Ok(Some(response)) && response@ == ServerResponseModel::AccountState(account)
}

/// Whether `after` and `r` are what [`process_request`] makes of the bank `before`
/// and a request for the operation `op`.
pub open spec fn processes<T: OpsStorage, S: State>(
    before: &Bank<T, S>,
    after: &Bank<T, S>,
    op: OperationModel,
    r: Result<Option<ServerResponse>, BankError>,
) -> bool {
    &&& deals(before, after, op, reported(r))
    &&& r matches Ok(answer) ==> answer matches Some(response) && response@ == report(
        op,
        reported(r).unwrap(),
    )
}

/// Deposits of several sessions to one account add up, however the sessions take
/// turns. The sessions hand their requests to the bank one at a time, so every
/// interleaving is a sequence of banks, each made of the one before by one
/// processed deposit of `amount` to `account`. Then request number `k` is answered
/// with the state of the account at the first balance and `k` times the amount,
/// the last balance is the first and all the amounts, and the log has grown by
/// exactly these deposits.
pub proof fn lemma_deposits_of_sessions_add_up<T: OpsStorage, S: State>(
    banks: Seq<Bank<T, S>>,
    responses: Seq<Result<Option<ServerResponse>, BankError>>,
    account: Seq<char>,
    amount: nat,
)
    requires
        banks.len() == responses.len() + 1,
        forall|k: int|
            0 <= k < responses.len() ==> processes(
                &banks[k],
                &banks[k + 1],
                OperationModel::Deposit(account, amount),
                #[trigger] responses[k],
            ),
        banks[0].balances().dom().contains(account),
        banks[0].balances()[account] + times(responses.len() as int, amount) <= u32::MAX,
        banks[0].last_id() + responses.len() <= u128::MAX,
    ensures
        forall|k: int|
            0 <= k < responses.len() ==> answered_with(
                #[trigger] responses[k],
                AccountModel {
                    account_id: account,
                    balance: (banks[0].balances()[account] + times(k + 1, amount)) as u32,
                },
            ),
        banks.last().balances() == banks[0].balances().insert(
            account,
            (banks[0].balances()[account] + times(responses.len() as int, amount)) as u32,
        ),
        banks.last().log() == banks[0].log() + batch_entries(
            banks[0].last_id(),
            Seq::new(responses.len(), |i: int| OperationModel::Deposit(account, amount)),
        ),
{
    let deposit = OperationModel::Deposit(account, amount);
    let outcomes = Seq::new(responses.len(), |k: int| single_outcome(reported(responses[k])));
    assert forall|k: int| 0 <= k < outcomes.len() implies banks[k].commits(
        &banks[k + 1],
        deposit,
        #[trigger] outcomes[k],
    ) by {
        assert(processes(&banks[k], &banks[k + 1], deposit, responses[k]));
    }
    Bank::lemma_deposits_add_up(banks, outcomes, account, amount);
    assert forall|k: int| 0 <= k < responses.len() implies answered_with(
        #[trigger] responses[k],
        AccountModel {
            account_id: account,
            balance: (banks[0].balances()[account] + times(k + 1, amount)) as u32,
        },
    ) by {
        assert(processes(&banks[k], &banks[k + 1], deposit, responses[k]));
        assert(outcomes[k] == single_outcome(reported(responses[k])));
    }
}

/// What the server does with a message that it has read.
pub enum Reply {
    /// Answer the request with what the bank returned, and read on.
    Answer(Result<Vec<Account>, BankError>),
    /// Say goodbye and shut the stream down.
    Close,
}

impl Reply {
    /// The message that is sent to the client: the accounts, or the text of the
    /// error, as a response; `Quit` where the session ends.
    pub fn into_protocol(self) -> (r: Protocol)
        ensures
            r@ == match self {
                Reply::Answer(Ok(accounts)) => ProtocolModel::Response(
                    Ok(account_models(accounts@)),
                ),
                Reply::Answer(Err(e)) => ProtocolModel::Response(Err(e.text())),
                Reply::Close => ProtocolModel::Quit,
            },
    {
        match self {
            Reply::Answer(Ok(accounts)) => {
                assert(element_models(accounts@) =~= account_models(accounts@));
                Protocol::Response(Ok(accounts))
            },
            Reply::Answer(Err(e)) => Protocol::Response(Err(e.message())),
            Reply::Close => Protocol::Quit,
        }
    }
}

/// Decides what to do with a message from a client. A request goes to the bank and
/// is answered with what the bank returned; the session goes on, also where the
/// bank refused the request. `Quit` ends the session, and so does a response, which
/// no client should send; the bank is not touched then.
pub fn handle_connection<T: OpsStorage, S: State>(message: Protocol, bank: &mut Bank<T, S>) -> (r:
    Reply)
    requires
        old(bank).wf(),
    ensures
        final(bank).wf(),
        old(bank).is_sound() ==> final(bank).is_sound(),
        match message@ {
            ProtocolModel::Request(op) => r matches Reply::Answer(answer) && deals(
                old(bank),
                final(bank),
                op,
                accounts_outcome(answer),
            ),
            _ => {
                &&& r is Close
                &&& final(bank).log() == old(bank).log()
                &&& final(bank).balances() == old(bank).balances()
                &&& final(bank).last_id() == old(bank).last_id()
            },
        },
{
    match message {
        Protocol::Quit => Reply::Close,
        Protocol::Response(_) => Reply::Close,
        Protocol::Request(op) => Reply::Answer(bank_deal(bank, op)),
    }
}

/// Where a session stands.
#[derive(Clone, Copy, Debug, PartialEq, Eq, Structural)]
pub enum SessionState {
    /// Waiting for the next request.
    Reading,
    /// A request is with the bank.
    Processing,
    /// A response is on its way to the client.
    Writing,
    /// The session is over.
    Closed,
}

/// What has happened on a connection.
pub enum SessionEvent {
    /// A request was read and decoded.
    Request(ClientRequest),
    /// The bank has dealt with the request: what [`process_request`] returned.
    Processed(Result<Option<ServerResponse>, BankError>),
    /// The response was written and flushed.
    Flushed,
    /// Reading, decoding or writing failed.
    Failed,
}

/// What is to be done next on a connection.
pub enum SessionAction {
    /// Read the next request.
    Read,
    /// Take the lock on the bank, hand the request to [`process_request`], release
    /// the lock.
    Process(ClientRequest),
    /// Write the response and flush.
    Send(ServerResponse),
    /// Shut the stream down in both directions.
    Shutdown,
    /// Nothing: the session is over.
    Nothing,
}

/// The mathematical value of a [`SessionEvent`]; a request is the operation that
/// it asks for, and `None` for `Quit`.
pub enum SessionEventModel {
    Request(Option<OperationModel>),
    Processed(Result<Option<ServerResponseModel>, BankError>),
    Flushed,
    Failed,
}

/// The mathematical value of a [`SessionAction`].
pub enum SessionActionModel {
    Read,
    Process(Option<OperationModel>),
    Send(ServerResponseModel),
    Shutdown,
    Nothing,
}

impl View for SessionEvent {
    type V = SessionEventModel;

    open spec fn view(&self) -> SessionEventModel {
        match self {
            SessionEvent::Request(request) => SessionEventModel::Request(request.operation()),
            SessionEvent::Processed(Ok(Some(response))) => SessionEventModel::Processed(
                Ok(Some(response@)),
            ),
            SessionEvent::Processed(Ok(None)) => SessionEventModel::Processed(Ok(None)),
            SessionEvent::Processed(Err(e)) => SessionEventModel::Processed(Err(*e)),
            SessionEvent::Flushed => SessionEventModel::Flushed,
            SessionEvent::Failed => SessionEventModel::Failed,
        }
    }
}

impl View for SessionAction {
    type V = SessionActionModel;

    open spec fn view(&self) -> SessionActionModel {
        match self {
            SessionAction::Read => SessionActionModel::Read,
            SessionAction::Process(request) => SessionActionModel::Process(request.operation()),
            SessionAction::Send(response) => SessionActionModel::Send(response@),
            SessionAction::Shutdown => SessionActionModel::Shutdown,
            SessionAction::Nothing => SessionActionModel::Nothing,
        }
    }
}

/// One connection: where it stands, and whether the response that is being written
/// is the last one.
#[derive(Clone, Copy, Debug, PartialEq, Eq, Structural)]
pub struct Session {
    pub state: SessionState,
    pub last: bool,
}

/// The session after an event, and what is to be done next.
///
/// * While reading: a request goes to the bank, except `Quit`, which is answered
///   with `Bye` as the last response.
/// * While processing: what the bank returned is sent, an error as its text; the
///   session goes on after an error of the bank.
/// * While writing: once the response is flushed the next request is read, or the
///   stream shut down after the last response.
/// * A failure, or an event that does not belong to the state, closes the session and
///   shuts the stream down. A closed session stays closed and does nothing.
pub open spec fn transition(session: Session, event: SessionEventModel) -> (
    Session,
    SessionActionModel,
) {
    let closed = (Session { state: SessionState::Closed, last: session.last }, SessionActionModel::Shutdown);
    match session.state {
        SessionState::Reading => match event {
            SessionEventModel::Request(Some(op)) => (
                Session { state: SessionState::Processing, last: false },
                SessionActionModel::Process(Some(op)),
            ),
            SessionEventModel::Request(None) => (
                Session { state: SessionState::Writing, last: true },
                SessionActionModel::Send(ServerResponseModel::Bye),
            ),
            _ => closed,
        },
        SessionState::Processing => match event {
            SessionEventModel::Processed(Ok(Some(response))) => (
                Session { state: SessionState::Writing, last: false },
                SessionActionModel::Send(response),
            ),
            SessionEventModel::Processed(Ok(None)) => (
                Session { state: SessionState::Writing, last: true },
                SessionActionModel::Send(ServerResponseModel::Bye),
            ),
            SessionEventModel::Processed(Err(e)) => (
                Session { state: SessionState::Writing, last: false },
                SessionActionModel::Send(ServerResponseModel::Error { message: e.text() }),
            ),
            _ => closed,
        },
        SessionState::Writing => match event {
            SessionEventModel::Flushed => if session.last {
                closed
            } else {
                (Session { state: SessionState::Reading, last: false }, SessionActionModel::Read)
            },
            _ => closed,
        },
        SessionState::Closed => (session, SessionActionModel::Nothing),
    }
}

impl Session {
    /// A session on a fresh connection: it waits for the first request.
    pub fn new() -> (r: Session)
        ensures
            r == (Session { state: SessionState::Reading, last: false }),
    {
        Session { state: SessionState::Reading, last: false }
    }

    /// Takes the session into the closed state and asks for the stream to be shut down.
    fn close(&mut self) -> (r: SessionAction)
        ensures
            final(self).state == SessionState::Closed,
            final(self).last == old(self).last,
            r is Shutdown,
    {
        self.state = SessionState::Closed;
        SessionAction::Shutdown
    }

    /// One turn of the loop that serves a client: takes what has happened on the
    /// connection, moves the session on and says what is to be done next.
    pub fn client_loop(&mut self, event: SessionEvent) -> (r: SessionAction)
        ensures
            (*final(self), r@) == transition(*old(self), event@),
    {
        match self.state {
            SessionState::Reading => match event {
                SessionEvent::Request(ClientRequest::Quit) => {
                    self.state = SessionState::Writing;
                    self.last = true;
                    SessionAction::Send(ServerResponse::Bye)
                },
                SessionEvent::Request(client_request) => {
                    self.state = SessionState::Processing;
                    self.last = false;
                    SessionAction::Process(client_request)
                },
                _ => self.close(),
            },
            SessionState::Processing => match event {
                SessionEvent::Processed(Ok(Some(response))) => {
                    self.state = SessionState::Writing;
                    self.last = false;
                    SessionAction::Send(response)
                },
                SessionEvent::Processed(Ok(None)) => {
                    self.state = SessionState::Writing;
                    self.last = true;
                    SessionAction::Send(ServerResponse::Bye)
                },
                SessionEvent::Processed(Err(bank_err)) => {
                    self.state = SessionState::Writing;
                    self.last = false;
                    SessionAction::Send(ServerResponse::Error { message: bank_err.message() })
                },
                _ => self.close(),
            },
            SessionState::Writing => match event {
                SessionEvent::Flushed => {
                    if self.last {
                        self.close()
                    } else {
                        self.state = SessionState::Reading;
                        SessionAction::Read
                    }
                },
                _ => self.close(),
            },
            SessionState::Closed => SessionAction::Nothing,
        }
    }
}

} // verus!

use bank_ledger::account::{Account, BankError, Operation};
use bank_ledger::bank::Bank;
use bank_ledger::money::NonZeroMoney;
use bank_ledger::state::{InMemoryState, State};
use bank_ledger::storage::{InMemoryOpsStorage, OpsStorage};

type MemoryBank = Bank<InMemoryOpsStorage, InMemoryState>;

fn new_bank() -> MemoryBank {
    Bank::new(InMemoryOpsStorage::default(), InMemoryState::default())
}

fn money(amount: u32) -> NonZeroMoney {
    NonZeroMoney::new(amount).unwrap()
}

fn account(account_id: &str, balance: u32) -> Account {
    Account { account_id: account_id.to_string(), balance }
}

fn ops_of(bank: &MemoryBank) -> Vec<Operation> {
    bank.get_history().unwrap().into_iter().map(|(_, op)| op.clone()).collect()
}

#[test]
fn core_bank_should_create_account() {
    let mut bank = new_bank();

    let acc_1 = "Acc_1".to_string();
    let acc_2 = "Acc_2".to_string();

    let ret = Bank::create_account(&mut bank, &acc_1);
    assert_eq!(ret, Ok(Account { account_id: acc_1.clone(), balance: 0_u32 }));

    let ret = Bank::create_account(&mut bank, &acc_2);
    assert_eq!(ret, Ok(Account { account_id: acc_2.clone(), balance: 0_u32 }));
    drop(ret);
}

#[test]
fn core_bank_should_deposit_funds() {
    let mut bank = new_bank();

    let acc_1 = "Acc_1".to_string();
    let acc_2 = "Acc_2".to_string();

    let _ = bank.create_account(&acc_1);
    let _ = bank.create_account(&acc_2);

    let ret: Result<Account, BankError> = bank.deposit(&acc_1, NonZeroMoney::new(42).unwrap());
    assert_eq!(ret, Ok(Account { account_id: acc_1.clone(), balance: 42 }));

    let ret: Result<Account, BankError> = bank.deposit(&acc_2, NonZeroMoney::new(42).unwrap());
    assert_eq!(ret, Ok(Account { account_id: acc_2.clone(), balance: 42 }));

    let ret: Result<Account, BankError> = bank.deposit(&acc_1, NonZeroMoney::new(42).unwrap());
    assert_eq!(ret, Ok(Account { account_id: acc_1.clone(), balance: 84 }));
}

#[test]
fn core_bank_should_withdraw_funds() {
    let mut bank = new_bank();

    let acc_1 = "Acc_1".to_string();
    let acc_2 = "Acc_2".to_string();

    let _ = bank.create_account(&acc_1);
    let _ = bank.create_account(&acc_2);

    let ret: Result<Account, BankError> = bank.deposit(&acc_1, NonZeroMoney::new(42).unwrap());
    assert_eq!(ret, Ok(Account { account_id: acc_1.clone(), balance: 42 }));

    let ret: Result<Account, BankError> = bank.deposit(&acc_2, NonZeroMoney::new(42).unwrap());
    assert_eq!(ret, Ok(Account { account_id: acc_2.clone(), balance: 42 }));

    let ret: Result<Account, BankError> = bank.withdraw(&acc_1, money(1));
    assert_eq!(ret, Ok(Account { account_id: acc_1.clone(), balance: 41 }));

    let ret: Result<Account, BankError> = bank.withdraw(&acc_1, NonZeroMoney::new(41).unwrap());
    assert_eq!(ret, Ok(Account { account_id: acc_1.clone(), balance: 0 }));

    let ret: Result<Account, BankError> = bank.withdraw(&acc_2, money(1));
    assert_eq!(ret, Ok(Account { account_id: acc_2.clone(), balance: 41 }));

    let ret: Result<Account, BankError> = bank.withdraw(&acc_2, money(u32::MAX));
    assert_eq!(ret, Err(BankError::InsufficientFunds));
}

#[test]
fn core_bank_should_move_funds() {
    let mut bank = new_bank();

    let acc_1 = "Acc_1".to_string();
    let acc_2 = "Acc_2".to_string();
    let acc_3 = "Acc_3".to_string();

    let _ = bank.create_account(&acc_1);
    let _ = bank.create_account(&acc_2);
    let _ = bank.create_account(&acc_3);

    let ret: Result<Account, BankError> = bank.deposit(&acc_1, NonZeroMoney::new(42).unwrap());
    assert_eq!(ret, Ok(Account { account_id: acc_1.clone(), balance: 42 }));
    let ret: Result<Account, BankError> = bank.deposit(&acc_3, NonZeroMoney::new(21).unwrap());
    assert_eq!(ret, Ok(Account { account_id: acc_3.clone(), balance: 21 }));

    let mut iter = bank
        .move_money(&acc_1, &acc_2, NonZeroMoney::new(42).unwrap())
        .expect("should be Ok(iter)")
        .into_iter();

    let first = iter.next().expect("should be the acc_1 with their Account");
    let second = iter.next().expect("should be the acc_2 with their Account");
    assert_eq!(first, Account { account_id: acc_1.clone(), balance: 0 });
    assert_eq!(second, Account { account_id: acc_2.clone(), balance: 42 });
    let _: Vec<_> = iter.collect();

    let ret: Account = bank.get_balance(&acc_3).expect("should be Ok(Account for acc_3)");
    assert_eq!(ret, Account { account_id: acc_3.clone(), balance: 21 });

    let ret: Account = bank.get_balance(&acc_2).expect("should be Ok(Account for acc_2)");
    assert_eq!(ret, Account { account_id: acc_2.clone(), balance: 42 });

    let ret: Account = bank.get_balance(&acc_1).expect("should be Ok(Account for acc_1)");
    assert_eq!(ret, Account { account_id: acc_1.clone(), balance: 0 });
}

#[test]
fn core_bank_should_get_balance() {
    let mut bank = new_bank();

    let acc_1 = "Acc_1".to_string();
    let acc_2 = "Acc_2".to_string();
    let acc_3 = "Acc_3".to_string();

    let _ = bank.create_account(&acc_1);
    let _ = bank.create_account(&acc_2);
    let _ = bank.create_account(&acc_3);

    let ret: Result<Account, BankError> = bank.deposit(&acc_1, NonZeroMoney::new(42).unwrap());
    assert_eq!(ret, Ok(Account { account_id: acc_1.clone(), balance: 42 }));

    let ret: Result<Account, BankError> = bank.deposit(&acc_3, NonZeroMoney::new(21).unwrap());
    assert_eq!(ret, Ok(Account { account_id: acc_3.clone(), balance: 21 }));

    let ret = bank.get_balance(&acc_1).expect("should be Account 1");
    assert_eq!(ret, Account { account_id: acc_1.clone(), balance: 42 });
    let ret = bank.get_balance(&acc_2).expect("should be Account 2");
    assert_eq!(ret, Account { account_id: acc_2.clone(), balance: 0 });
    let ret = bank.get_balance(&acc_3).expect("should be Account 3");
    assert_eq!(ret, Account { account_id: acc_3.clone(), balance: 21 });
}

#[test]
fn core_bank_should_get_history() {
    let mut bank = new_bank();

    let acc_1 = "Acc_1".to_string();
    let acc_2 = "Acc_2".to_string();
    let acc_3 = "Acc_3".to_string();

    let _ = bank.create_account(&acc_1);
    let _ = bank.create_account(&acc_2);
    let _ = bank.create_account(&acc_3);

    let ret: Result<Account, BankError> = bank.deposit(&acc_1, NonZeroMoney::new(42).unwrap());
    assert_eq!(ret, Ok(Account { account_id: acc_1.clone(), balance: 42 }));

    let ret: Result<Account, BankError> = bank.deposit(&acc_3, NonZeroMoney::new(21).unwrap());
    assert_eq!(ret, Ok(Account { account_id: acc_3.clone(), balance: 21 }));

    let history = bank.get_history().expect("Bank should get history");

    let clone_of_bank: MemoryBank = Bank::from(history);

    let ret = clone_of_bank.get_balance(&acc_1);
    assert_eq!(ret, Ok(Account { account_id: acc_1.clone(), balance: 42 }));

    let ret = clone_of_bank.get_balance(&acc_2);
    assert_eq!(ret, Ok(Account { account_id: acc_2.clone(), balance: 0 }));

    let ret = clone_of_bank.get_balance(&acc_3);
    assert_eq!(ret, Ok(Account { account_id: acc_3.clone(), balance: 21 }));
}

#[test]
fn core_bank_should_get_account_ops() {
    let mut bank = new_bank();

    let acc_1 = "Acc_1".to_string();
    let acc_2 = "Acc_2".to_string();

    let _ = bank.create_account(&acc_1);
    let _ = bank.create_account(&acc_2);

    let ret: Result<Account, BankError> = bank.deposit(&acc_1, NonZeroMoney::new(42).unwrap());
    assert_eq!(ret, Ok(Account { account_id: acc_1.clone(), balance: 42 }));

    let ret: Result<Account, BankError> = bank.deposit(&acc_2, NonZeroMoney::new(21).unwrap());
    assert_eq!(ret, Ok(Account { account_id: acc_2.clone(), balance: 21 }));

    let _ = bank.move_money(&acc_1, &acc_2, NonZeroMoney::new(42).unwrap()).expect("move should work");

    let ret: Result<Account, BankError> = bank.get_balance(&acc_2);
    assert_eq!(ret, Ok(Account { account_id: acc_2.clone(), balance: 63 }));

    let ret: Result<Account, BankError> = bank.get_balance(&acc_1);
    assert_eq!(ret, Ok(Account { account_id: acc_1.clone(), balance: 0 }));

    let ret = bank.get_account_ops(&acc_1);
    assert!(ret.is_ok());
    assert_eq!(ret.unwrap().into_iter().count(), 3);

    let ret = bank.get_account_ops(&acc_2);
    assert!(ret.is_ok());
    assert_eq!(ret.unwrap().into_iter().count(), 3);
}

#[test]
fn happy_path_ends_with_a_balance_of_thirty() {
    let mut bank = new_bank();
    let a = "a".to_string();
    assert_eq!(bank.create_account(&a), Ok(account("a", 0)));
    assert_eq!(bank.deposit(&a, money(42)), Ok(account("a", 42)));
    assert_eq!(bank.get_balance(&a), Ok(account("a", 42)));
    assert_eq!(bank.withdraw(&a, money(12)), Ok(account("a", 30)));
    assert_eq!(bank.get_balance(&a), Ok(account("a", 30)));
}

#[test]
fn transfer_moves_thirty_from_a_to_b() {
    let mut bank = new_bank();
    let a = "a".to_string();
    let b = "b".to_string();
    bank.create_account(&a).unwrap();
    bank.create_account(&b).unwrap();
    bank.deposit(&a, money(50)).unwrap();
    assert_eq!(bank.move_money(&a, &b, money(30)), Ok(vec![account("a", 20), account("b", 30)]));
    assert_eq!(bank.get_balance(&a), Ok(account("a", 20)));
    assert_eq!(bank.get_balance(&b), Ok(account("b", 30)));
    assert_eq!(
        ops_of(&bank),
        vec![
            Operation::Create(a.clone()),
            Operation::Create(b.clone()),
            Operation::Deposit(a.clone(), money(50)),
            Operation::Withdraw(a.clone(), money(30)),
            Operation::Deposit(b.clone(), money(30)),
        ]
    );
}

#[test]
fn overdraw_is_refused_and_leaves_no_entry() {
    let mut bank = new_bank();
    let a = "a".to_string();
    bank.create_account(&a).unwrap();
    bank.deposit(&a, money(10)).unwrap();
    assert_eq!(bank.withdraw(&a, money(11)), Err(BankError::InsufficientFunds));
    assert_eq!(bank.get_balance(&a), Ok(account("a", 10)));
    assert_eq!(ops_of(&bank), vec![Operation::Create(a.clone()), Operation::Deposit(a.clone(), money(10))]);
}

#[test]
fn withdrawing_the_whole_balance_leaves_zero() {
    let mut bank = new_bank();
    let a = "a".to_string();
    bank.create_account(&a).unwrap();
    bank.deposit(&a, money(10)).unwrap();
    assert_eq!(bank.withdraw(&a, money(10)), Ok(account("a", 0)));
    assert_eq!(ops_of(&bank).len(), 3);
}

#[test]
fn self_transfer_is_prohibited_and_leaves_no_entry() {
    let mut bank = new_bank();
    let a = "a".to_string();
    bank.create_account(&a).unwrap();
    bank.deposit(&a, money(10)).unwrap();
    assert_eq!(bank.move_money(&a, &a, money(1)), Err(BankError::Prohibited));
    assert_eq!(bank.get_balance(&a), Ok(account("a", 10)));
    assert_eq!(ops_of(&bank), vec![Operation::Create(a.clone()), Operation::Deposit(a.clone(), money(10))]);
}

#[test]
fn replay_of_a_transfer_history_gives_the_same_balances() {
    let mut bank = new_bank();
    let a = "a".to_string();
    let b = "b".to_string();
    bank.create_account(&a).unwrap();
    bank.create_account(&b).unwrap();
    bank.deposit(&a, money(50)).unwrap();
    bank.move_money(&a, &b, money(30)).unwrap();
    let replayed: MemoryBank = Bank::from(bank.get_history().unwrap());
    assert_eq!(replayed.get_balance(&a), bank.get_balance(&a));
    assert_eq!(replayed.get_balance(&b), bank.get_balance(&b));
    assert_eq!(replayed.get_balance(&a), Ok(account("a", 20)));
    assert_eq!(replayed.get_balance(&b), Ok(account("b", 30)));
    assert_eq!(ops_of(&replayed), ops_of(&bank));
    let again: MemoryBank = Bank::from(replayed.get_history().unwrap());
    assert_eq!(again.get_balance(&a), Ok(account("a", 20)));
    assert_eq!(again.get_balance(&b), Ok(account("b", 30)));
}

#[test]
fn duplicate_create_is_refused_and_logged_once() {
    let mut bank = new_bank();
    let a = "a".to_string();
    assert_eq!(bank.create_account(&a), Ok(account("a", 0)));
    assert_eq!(bank.create_account(&a), Err(BankError::DuplicateAccount));
    assert_eq!(ops_of(&bank), vec![Operation::Create(a.clone())]);
}

#[test]
fn a_failed_transfer_logs_neither_leg() {
    let mut bank = new_bank();
    let a = "a".to_string();
    let b = "b".to_string();
    let ghost = "ghost".to_string();
    bank.create_account(&a).unwrap();
    bank.create_account(&b).unwrap();
    bank.deposit(&a, money(5)).unwrap();
    assert_eq!(bank.move_money(&a, &b, money(6)), Err(BankError::InsufficientFunds));
    assert_eq!(bank.move_money(&a, &ghost, money(1)), Err(BankError::UnknownAccount));
    assert_eq!(bank.move_money(&ghost, &a, money(1)), Err(BankError::UnknownAccount));
    bank.deposit(&b, money(u32::MAX)).unwrap();
    assert_eq!(bank.move_money(&a, &b, money(1)), Err(BankError::BadRequest));
    assert_eq!(ops_of(&bank).len(), 4);
    assert_eq!(bank.get_balance(&a), Ok(account("a", 5)));
    assert_eq!(bank.get_balance(&b), Ok(account("b", u32::MAX)));
}

#[test]
fn deposit_that_overflows_is_a_bad_request() {
    let mut bank = new_bank();
    let a = "a".to_string();
    assert_eq!(bank.deposit(&a, money(1)), Err(BankError::UnknownAccount));
    assert_eq!(bank.withdraw(&a, money(1)), Err(BankError::UnknownAccount));
    assert_eq!(bank.get_balance(&a), Err(BankError::UnknownAccount));
    bank.create_account(&a).unwrap();
    bank.deposit(&a, money(u32::MAX)).unwrap();
    assert_eq!(bank.deposit(&a, money(1)), Err(BankError::BadRequest));
    assert_eq!(bank.get_balance(&a), Ok(account("a", u32::MAX)));
    assert_eq!(ops_of(&bank).len(), 2);
}

#[test]
fn identifiers_start_at_two_and_grow_by_one() {
    let mut bank = new_bank();
    let a = "a".to_string();
    let b = "b".to_string();
    bank.create_account(&a).unwrap();
    bank.create_account(&b).unwrap();
    bank.deposit(&a, money(3)).unwrap();
    bank.move_money(&a, &b, money(2)).unwrap();
    let ids: Vec<u128> = bank.get_history().unwrap().into_iter().map(|(id, _)| id).collect();
    assert_eq!(ids, vec![2, 3, 4, 5, 6]);
    let of_a: Vec<u128> = bank.get_account_ops(&a).unwrap().into_iter().map(|(id, _)| id).collect();
    assert_eq!(of_a, vec![2, 4, 5]);
    let of_b: Vec<u128> = bank.get_account_ops(&b).unwrap().into_iter().map(|(id, _)| id).collect();
    assert_eq!(of_b, vec![3, 6]);
    assert_eq!(bank.get_account_ops(&"c".to_string()).err(), Some(BankError::UnknownAccount));
}

#[test]
fn replay_keeps_a_refused_entry_in_the_log_and_out_of_the_balances() {
    let a = "a".to_string();
    let broken = vec![
        Operation::Create(a.clone()),
        Operation::Withdraw(a.clone(), money(1)),
        Operation::Deposit(a.clone(), money(4)),
        Operation::Create(a.clone()),
    ];
    let history: Vec<(u128, &Operation)> = broken.iter().map(|op| (7u128, op)).collect();
    let bank: MemoryBank = Bank::from(history);
    assert_eq!(bank.get_balance(&a), Ok(account("a", 4)));
    assert_eq!(ops_of(&bank), broken);
}

#[test]
fn storage_refuses_what_is_no_event_and_appends_nothing() {
    let mut storage = InMemoryOpsStorage::default();
    let a = "a".to_string();
    assert_eq!(storage.persist(Operation::GetBalance(a.clone())), Err(BankError::BadRequest));
    let batch = vec![
        Operation::Create(a.clone()),
        Operation::Move { from: a.clone(), to: "b".to_string(), amount: money(1) },
    ];
    assert_eq!(storage.transact(batch), Err(BankError::BadRequest));
    assert!(storage.get_history().unwrap().is_empty());
    assert_eq!(storage.persist(Operation::Create(a.clone())), Ok(2));
    assert_eq!(storage.push_to_cols(Operation::Deposit(a.clone(), money(1))), 3);
    assert_eq!(storage.get_ops(&a).unwrap().len(), 2);
}

#[test]
fn state_applies_a_batch_up_to_the_first_refusal() {
    let mut state = InMemoryState::default();
    let a = "a".to_string();
    let ops = vec![
        Operation::Create(a.clone()),
        Operation::Deposit(a.clone(), money(5)),
        Operation::Withdraw(a.clone(), money(6)),
        Operation::Deposit(a.clone(), money(1)),
    ];
    assert_eq!(state.transact(&ops), Err(BankError::InsufficientFunds));
    assert_eq!(state.get_balance(&a), Ok(account("a", 5)));
    let more = vec![Operation::Deposit(a.clone(), money(1)), Operation::Deposit(a.clone(), money(1))];
    assert_eq!(state.transact(&more), Ok(vec![account("a", 7), account("a", 7)]));
    assert_eq!(state.update(&Operation::GetBalance(a.clone())), Err(BankError::BadRequest));
    assert_eq!(state.push_to_col(&Operation::Withdraw(a.clone(), money(7))), Ok(account("a", 0)));
}

#[test]
fn non_zero_money_refuses_zero() {
    assert!(NonZeroMoney::new(0).is_none());
    assert_eq!(NonZeroMoney::new(1).map(|m| m.get()), Some(1));
    assert_eq!(NonZeroMoney::new(u32::MAX).map(|m| m.get()), Some(u32::MAX));
}

#[test]
fn every_balance_is_deposits_less_withdrawals() {
    let mut bank = new_bank();
    let names = ["a".to_string(), "b".to_string(), "c".to_string()];
    for name in names.iter() {
        bank.create_account(name).unwrap();
    }
    bank.deposit(&names[0], money(100)).unwrap();
    bank.deposit(&names[1], money(7)).unwrap();
    bank.withdraw(&names[0], money(30)).unwrap();
    bank.move_money(&names[0], &names[2], money(25)).unwrap();
    bank.move_money(&names[2], &names[1], money(5)).unwrap();
    let _ = bank.withdraw(&names[1], money(500));
    let _ = bank.move_money(&names[1], &names[1], money(1));
    for name in names.iter() {
        let mut deposited: i64 = 0;
        let mut withdrawn: i64 = 0;
        for (_, op) in bank.get_account_ops(name).unwrap() {
            match op {
                Operation::Deposit(_, amount) => deposited += amount.get() as i64,
                Operation::Withdraw(_, amount) => withdrawn += amount.get() as i64,
                _ => {}
            }
        }
        assert_eq!(bank.get_balance(name).unwrap().balance as i64, deposited - withdrawn);
    }
    assert_eq!(bank.get_balance(&names[0]), Ok(account("a", 45)));
    assert_eq!(bank.get_balance(&names[1]), Ok(account("b", 12)));
    assert_eq!(bank.get_balance(&names[2]), Ok(account("c", 20)));
}

#[test]
fn two_replays_of_one_history_agree_entry_by_entry() {
    let mut bank = new_bank();
    let a = "a".to_string();
    let b = "b".to_string();
    bank.create_account(&a).unwrap();
    bank.create_account(&b).unwrap();
    bank.deposit(&a, money(50)).unwrap();
    bank.move_money(&a, &b, money(30)).unwrap();
    let first: MemoryBank = Bank::from(bank.get_history().unwrap());
    let second: MemoryBank = Bank::from(bank.get_history().unwrap());
    let of_first: Vec<(u128, Operation)> =
        first.get_history().unwrap().into_iter().map(|(id, op)| (id, op.clone())).collect();
    let of_second: Vec<(u128, Operation)> =
        second.get_history().unwrap().into_iter().map(|(id, op)| (id, op.clone())).collect();
    assert_eq!(of_first, of_second);
    let ids: Vec<u128> = of_first.iter().map(|(id, _)| *id).collect();
    assert_eq!(ids, vec![2, 3, 4, 5, 6]);
    let renumbered: Vec<(u128, &Operation)> =
        of_first.iter().map(|(id, op)| (*id + 100, op)).collect();
    let third: MemoryBank = Bank::from(renumbered);
    let ids: Vec<u128> = third.get_history().unwrap().into_iter().map(|(id, _)| id).collect();
    assert_eq!(ids, vec![2, 3, 4, 5, 6]);
    for name in [&a, &b] {
        assert_eq!(first.get_balance(name), second.get_balance(name));
        assert_eq!(first.get_balance(name), bank.get_balance(name));
    }
}

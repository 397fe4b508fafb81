use bank_ledger::account::{Account, AccountId, BankError, Operation};
use bank_ledger::money::{Money, NonZeroMoney};
use bank_ledger::protocol::{read, read_frame, write_frame, Protocol, IO};
use bank_ledger::ser_de::{
    for_one, for_simple, for_tuple_2, for_tuple_3, read_be_bytes, read_first, read_whole,
    to_be_bytes, unmarshall, DesResult, Deserializable, Serializable,
};

fn some(amount: u32) -> NonZeroMoney {
    NonZeroMoney::new(amount).unwrap()
}

#[test]
fn a_frame_is_the_length_in_four_bytes_and_the_payload() {
    let mut stream: Vec<u8> = Vec::new();
    assert_eq!(write_frame(&mut stream, &[7, 8, 9]), Ok(()));
    assert_eq!(stream, vec![0, 0, 0, 3, 7, 8, 9]);
    assert_eq!(write_frame(&mut stream, &[1]), Ok(()));
    assert_eq!(stream, vec![0, 0, 0, 3, 7, 8, 9, 0, 0, 0, 1, 1]);
    let mut rest: &[u8] = &stream;
    assert_eq!(read_frame(&mut rest), Ok(&[7u8, 8, 9][..]));
    assert_eq!(rest, &[0, 0, 0, 1, 1]);
    assert_eq!(read_frame(&mut rest), Ok(&[1u8][..]));
    assert!(rest.is_empty());
    assert_eq!(read_frame(&mut rest), Err(BankError::TransportError));
}

#[test]
fn an_empty_payload_cannot_be_framed_nor_read() {
    let mut stream: Vec<u8> = vec![5];
    assert_eq!(write_frame(&mut stream, &[]), Err(BankError::TransportError));
    assert_eq!(stream, vec![5]);
    let bytes = [0u8, 0, 0, 0, 1, 2];
    let mut rest: &[u8] = &bytes;
    assert_eq!(read_frame(&mut rest), Err(BankError::TransportError));
    assert_eq!(rest, &bytes);
}

#[test]
fn a_short_frame_is_a_transport_error_and_takes_nothing() {
    let bytes = [0u8, 0, 1, 0, 1, 2, 3];
    let mut rest: &[u8] = &bytes;
    assert_eq!(read_frame(&mut rest), Err(BankError::TransportError));
    assert_eq!(rest, &bytes);
    let mut rest: &[u8] = &bytes[..3];
    assert_eq!(read_frame(&mut rest), Err(BankError::TransportError));
    assert_eq!(rest.len(), 3);
    let long = vec![1u8; 300];
    let mut stream: Vec<u8> = Vec::new();
    assert_eq!(write_frame(&mut stream, &long), Ok(()));
    assert_eq!(&stream[..4], &[0, 0, 1, 44]);
    let mut rest: &[u8] = &stream;
    assert_eq!(read_frame(&mut rest), Ok(&long[..]));
}

#[test]
fn framing_round_trip() {
    let requests = vec![
        Operation::Create("a".to_string()),
        Operation::Deposit("a".to_string(), some(42)),
        Operation::Withdraw("a".to_string(), some(12)),
        Operation::Move { from: "a".to_string(), to: "b".to_string(), amount: some(u32::MAX) },
        Operation::GetBalance("sixteen bytes id!".chars().take(16).collect()),
    ];
    let mut stream: Vec<u8> = Vec::new();
    for op in requests.iter() {
        assert_eq!(bank_ledger::protocol::write(&mut stream, &Protocol::Request(op.clone())), Ok(()));
    }
    let mut rest: &[u8] = &stream;
    for op in requests.into_iter() {
        assert_eq!(read::<Protocol>(&mut rest), Ok(Protocol::Request(op)));
    }
    assert!(rest.is_empty());
    assert_eq!(read::<Protocol>(&mut rest), Err(BankError::TransportError));
}

#[test]
fn a_framed_response_is_read_back() {
    let response = Protocol::Response(Ok(vec![
        Account { account_id: "a".to_string(), balance: 20 },
        Account { account_id: "b".to_string(), balance: 30 },
    ]));
    let mut stream: Vec<u8> = Vec::new();
    assert_eq!(bank_ledger::protocol::write(&mut stream, &response), Ok(()));
    assert_eq!(bank_ledger::protocol::write(&mut stream, &Protocol::Response(Err("funds too low".to_string()))), Ok(()));
    let mut rest: &[u8] = &stream;
    assert_eq!(read::<Protocol>(&mut rest), Ok(response));
    assert_eq!(read::<Protocol>(&mut rest), Ok(Protocol::Response(Err("funds too low".to_string()))));
}

#[test]
fn quit_has_no_encoding() {
    assert_eq!(Protocol::Quit.serialize(), Err(BankError::BadRequest));
    let mut stream: Vec<u8> = vec![1, 2];
    assert_eq!(bank_ledger::protocol::write(&mut stream, &Protocol::Quit), Err(BankError::BadRequest));
    assert_eq!(IO::write(&mut stream, &Protocol::Quit), Err(BankError::BadRequest));
    assert_eq!(stream, vec![1, 2]);
}

#[test]
fn a_frame_whose_payload_is_no_message_is_taken_and_refused() {
    let bytes = [0u8, 0, 0, 2, 99, 0, 0, 0, 0, 1, 5];
    let mut rest: &[u8] = &bytes;
    assert_eq!(read::<Protocol>(&mut rest), Err(BankError::BadRequest));
    assert_eq!(rest, &[0, 0, 0, 1, 5]);
}

#[test]
fn account_id_is_encoded_as_its_bytes_behind_type_and_length() {
    assert_eq!("acc1".to_string().serialize(), Ok(vec![42, 4, b'a', b'c', b'c', b'1']));
    assert_eq!("".to_string().serialize(), Ok(vec![42, 0]));
    let sixteen = "0123456789abcdef".to_string();
    assert_eq!(sixteen.serialize().map(|bytes| bytes.len()), Ok(18));
    let in_two_bytes_each = "\u{e9}\u{e9}\u{e9}\u{e9}\u{e9}\u{e9}\u{e9}\u{e9}".to_string();
    assert_eq!(in_two_bytes_each.serialize().map(|bytes| bytes.len()), Ok(18));
}

#[test]
fn account_id_over_sixteen_bytes_fails_at_encode() {
    let seventeen = "0123456789abcdefg".to_string();
    assert_eq!(seventeen.serialize(), Err(BankError::BadRequest));
    let nine_in_two_bytes_each = "\u{e9}\u{e9}\u{e9}\u{e9}\u{e9}\u{e9}\u{e9}\u{e9}\u{e9}".to_string();
    assert_eq!(nine_in_two_bytes_each.serialize(), Err(BankError::BadRequest));
    assert_eq!(Operation::Create(seventeen.clone()).serialize(), Err(BankError::BadRequest));
    assert_eq!(
        Protocol::Request(Operation::Deposit(seventeen.clone(), some(1))).serialize(),
        Err(BankError::BadRequest)
    );
    assert_eq!(Account { account_id: seventeen, balance: 1 }.serialize(), Err(BankError::BadRequest));
}

#[test]
fn account_id_over_sixteen_bytes_fails_at_decode() {
    let mut bytes = vec![42u8, 17];
    bytes.extend_from_slice(b"0123456789abcdefg");
    let actual: DesResult<AccountId, BankError> = AccountId::deserialize(&bytes);
    assert_eq!(actual.err(), Some(BankError::BadRequest));
}

#[test]
fn money_is_encoded_in_four_bytes_most_significant_first() {
    assert_eq!(42u32.serialize(), Ok(vec![52, 4, 0, 0, 0, 42]));
    assert_eq!(0x0102_0304u32.serialize(), Ok(vec![52, 4, 1, 2, 3, 4]));
    assert_eq!(some(0x0102_0304).serialize(), Ok(vec![62, 4, 1, 2, 3, 4]));
    assert_eq!(to_be_bytes(u32::MAX), [255, 255, 255, 255]);
    assert_eq!(to_be_bytes(256), [0, 0, 1, 0]);
    assert_eq!(read_be_bytes(&[0, 0, 1, 0]), 256);
    assert_eq!(read_be_bytes(&[1, 2, 3, 4]), 0x0102_0304);
}

#[test]
fn operations_are_encoded_part_by_part() {
    assert_eq!(Operation::Create("a".to_string()).serialize(), Ok(vec![1, 3, 42, 1, b'a']));
    assert_eq!(
        Operation::Deposit("a".to_string(), some(5)).serialize(),
        Ok(vec![2, 9, 42, 1, b'a', 62, 4, 0, 0, 0, 5])
    );
    assert_eq!(
        Operation::Withdraw("a".to_string(), some(5)).serialize(),
        Ok(vec![3, 9, 42, 1, b'a', 62, 4, 0, 0, 0, 5])
    );
    assert_eq!(
        Operation::Move { from: "a".to_string(), to: "b".to_string(), amount: some(5) }.serialize(),
        Ok(vec![4, 12, 42, 1, b'a', 42, 1, b'b', 62, 4, 0, 0, 0, 5])
    );
    assert_eq!(Operation::GetBalance("a".to_string()).serialize(), Ok(vec![5, 3, 42, 1, b'a']));
    assert_eq!(
        Protocol::Request(Operation::Create("a".to_string())).serialize(),
        Ok(vec![15, 5, 1, 3, 42, 1, b'a'])
    );
}

#[test]
fn responses_are_encoded_part_by_part() {
    let account = Account { account_id: "a".to_string(), balance: 7 };
    assert_eq!(account.serialize(), Ok(vec![92, 9, 42, 1, b'a', 52, 4, 0, 0, 0, 7]));
    let answer: Result<Vec<Account>, String> = Ok(vec![account]);
    assert_eq!(
        answer.serialize(),
        Ok(vec![72, 13, 102, 11, 92, 9, 42, 1, b'a', 52, 4, 0, 0, 0, 7])
    );
    let refusal: Result<Vec<Account>, String> = Err("no".to_string());
    assert_eq!(refusal.serialize(), Ok(vec![82, 4, 42, 2, b'n', b'o']));
    assert_eq!(
        Protocol::Response(refusal).serialize(),
        Ok(vec![16, 6, 82, 4, 42, 2, b'n', b'o'])
    );
    let none: Vec<Money> = Vec::new();
    assert_eq!(none.serialize(), Ok(vec![102, 0]));
}

#[test]
fn a_value_of_more_than_254_bytes_has_no_encoding() {
    let account = Account { account_id: "0123456789abcdef".to_string(), balance: 1 };
    assert_eq!(account.serialize().map(|bytes| bytes.len()), Ok(26));
    let nine: Vec<Account> = (0..9).map(|_| account.clone()).collect();
    assert_eq!(nine.serialize().map(|bytes| bytes.len()), Ok(236));
    let ten: Vec<Account> = (0..10).map(|_| account.clone()).collect();
    assert_eq!(ten.serialize(), Err(BankError::BadRequest));
    let answer: Result<Vec<Account>, String> = Ok(nine);
    assert_eq!(answer.serialize().map(|bytes| bytes.len()), Ok(238));
    assert_eq!(for_simple(9, &[0u8; 252]).map(|bytes| bytes.len()), Ok(254));
    assert_eq!(for_simple(9, &[0u8; 253]), Err(BankError::BadRequest));
}

#[test]
fn the_helpers_frame_one_two_and_three_parts() {
    assert_eq!(for_simple(9, &[1, 2]), Ok(vec![9, 2, 1, 2]));
    assert_eq!(for_one(9, &7u32), Ok(vec![9, 6, 52, 4, 0, 0, 0, 7]));
    assert_eq!(
        for_tuple_2(9, (&"a".to_string(), &7u32)),
        Ok(vec![9, 9, 42, 1, b'a', 52, 4, 0, 0, 0, 7])
    );
    assert_eq!(
        for_tuple_3(9, (&"a".to_string(), &"b".to_string(), &some(7))),
        Ok(vec![9, 12, 42, 1, b'a', 42, 1, b'b', 62, 4, 0, 0, 0, 7])
    );
    assert_eq!(for_one(9, &"0123456789abcdefg".to_string()), Err(BankError::BadRequest));
}

#[test]
fn decode_fails_where_the_declared_length_mismatches_the_buffer() {
    let good = Protocol::Request(Operation::Deposit("acc".to_string(), some(5))).serialize().unwrap();
    let mut short = good.clone();
    short.pop();
    let actual: DesResult<Protocol, BankError> = Protocol::deserialize(&short);
    assert_eq!(actual.err(), Some(BankError::BadRequest));
    let mut inner_too_long = good.clone();
    inner_too_long[3] += 1;
    let actual: DesResult<Protocol, BankError> = Protocol::deserialize(&inner_too_long);
    assert_eq!(actual.err(), Some(BankError::BadRequest));
    let mut inner_too_short = good.clone();
    inner_too_short[3] -= 1;
    let actual: DesResult<Protocol, BankError> = Protocol::deserialize(&inner_too_short);
    assert_eq!(actual.err(), Some(BankError::BadRequest));
    let mut long = good.clone();
    long.push(0);
    let actual: DesResult<Protocol, BankError> = Protocol::deserialize(&long);
    assert_eq!(actual.err(), Some(BankError::BadRequest));
    let actual: DesResult<Protocol, BankError> = Protocol::deserialize(&[15, 4, 1, 2, 42, 0, 0]);
    assert_eq!(actual.err(), Some(BankError::BadRequest));
    let actual: DesResult<Protocol, BankError> = Protocol::deserialize(&[15]);
    assert_eq!(actual.err(), Some(BankError::BadRequest));
    let actual: DesResult<Protocol, BankError> = Protocol::deserialize(&good);
    assert_eq!(actual.map(|(_, cursor)| cursor.pos).ok(), Some(good.len()));
    let mut rest: &[u8] = &long;
    assert_eq!(IO::read(&mut rest), Ok(Protocol::Request(Operation::Deposit("acc".to_string(), some(5)))));
    assert_eq!(rest, &[0]);
    let mut rest: &[u8] = &short;
    assert_eq!(IO::read(&mut rest), Err(BankError::TransportError));
    assert_eq!(rest, &short[..]);
    let mut stream: Vec<u8> = Vec::new();
    write_frame(&mut stream, &long).unwrap();
    let mut rest: &[u8] = &stream;
    assert_eq!(read::<Protocol>(&mut rest), Err(BankError::BadRequest));
}

#[test]
fn decode_refuses_unknown_types_bad_text_and_zero_amounts() {
    let actual: DesResult<Protocol, BankError> = Protocol::deserialize(&[17, 0]);
    assert_eq!(actual.err(), Some(BankError::BadRequest));
    let actual: DesResult<Operation, BankError> = Operation::deserialize(&[6, 3, 42, 1, b'a']);
    assert_eq!(actual.err(), Some(BankError::BadRequest));
    let actual: DesResult<AccountId, BankError> = AccountId::deserialize(&[42, 2, 0xc3, 0x28]);
    assert_eq!(actual.err(), Some(BankError::BadRequest));
    let actual: DesResult<NonZeroMoney, BankError> = NonZeroMoney::deserialize(&[62, 4, 0, 0, 0, 0]);
    assert_eq!(actual.err(), Some(BankError::BadRequest));
    let actual: DesResult<Money, BankError> = Money::deserialize(&[52, 3, 0, 0, 1]);
    assert_eq!(actual.err(), Some(BankError::BadRequest));
    let actual: DesResult<Money, BankError> = Money::deserialize(&[52]);
    assert_eq!(actual.err(), Some(BankError::BadRequest));
    let actual: DesResult<Vec<Money>, BankError> = Vec::<Money>::deserialize(&[102, 7, 52, 4, 0, 0, 0, 1, 9]);
    assert_eq!(actual.err(), Some(BankError::BadRequest));
    let actual: DesResult<Result<Money, Money>, BankError> = Result::deserialize(&[73, 6, 52, 4, 0, 0, 0, 1]);
    assert_eq!(actual.err(), Some(BankError::BadRequest));
    let actual: DesResult<Account, BankError> =
        Account::deserialize(&[92, 10, 42, 1, b'a', 52, 4, 0, 0, 0, 7, 0]);
    assert_eq!(actual.err(), Some(BankError::BadRequest));
}

#[test]
fn decoding_stops_where_the_value_ends() {
    let bytes = [52u8, 4, 0, 0, 1, 0, 42, 1, b'z'];
    let actual: DesResult<Money, BankError> = Money::deserialize(&bytes);
    let (value, cursor) = actual.unwrap();
    assert_eq!(value, 256);
    assert_eq!(cursor.pos, 6);
    let (mark, content, cursor) = unmarshall(&bytes).unwrap();
    assert_eq!((mark, content, cursor.pos), (52, &[0u8, 0, 1, 0][..], 6));
    assert_eq!(unmarshall(&[52, 4, 0]).err(), Some(BankError::BadRequest));
    assert_eq!(read_first::<Money>(&bytes), Ok((256, &[42u8, 1, b'z'][..])));
    assert_eq!(read_whole::<Money>(&bytes), Err(BankError::BadRequest));
    assert_eq!(read_whole::<AccountId>(&bytes[6..]), Ok("z".to_string()));
    let list: DesResult<Vec<Money>, BankError> =
        Vec::<Money>::deserialize(&[102, 12, 52, 4, 0, 0, 0, 1, 52, 4, 0, 0, 0, 2]);
    assert_eq!(list.unwrap().0, vec![1, 2]);
}

use vstd::prelude::*;

verus! {

/// The number of bytes before the content of an encoded value: its type and its length.
pub const MAGIC_DATA_SIZE: usize = 2;

/// The greatest number of bytes that the name of an account may take.
pub const MAX_ACCOUNT_ID_LEN: usize = 16;

/// The greatest number of bytes that an encoded value may take, header included.
pub const MAX_ENCODED_LEN: usize = 254;

/// The byte that tells which type an encoded value has.
pub type TypeIdMark = u8;

pub const TYPE_ID_ACCOUNT_ID: TypeIdMark = 42;

pub const TYPE_ID_MONEY: TypeIdMark = 52;

pub const TYPE_ID_NONZERO_MONEY: TypeIdMark = 62;

pub const TYPE_ID_RESULT_OK: TypeIdMark = 72;

pub const TYPE_ID_RESULT_ERR: TypeIdMark = 82;

pub const TYPE_ID_ACCOUNT: TypeIdMark = 92;

pub const TYPE_ID_VEC: TypeIdMark = 102;

pub const TYPE_ID_OPERATION_CREATE: TypeIdMark = 1;

pub const TYPE_ID_OPERATION_DEPOSIT: TypeIdMark = 2;

pub const TYPE_ID_OPERATION_WITHDRAW: TypeIdMark = 3;

pub const TYPE_ID_OPERATION_MOVE: TypeIdMark = 4;

pub const TYPE_ID_OPERATION_GETBALANCE: TypeIdMark = 5;

pub const TYPE_ID_PROTOCOL_REQUEST: TypeIdMark = 15;

pub const TYPE_ID_PROTOCOL_RESPONSE: TypeIdMark = 16;

} // verus!

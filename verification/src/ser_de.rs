use vstd::prelude::*;
use vstd::slice::slice_subrange;
use vstd::string::StringSliceAdditionalSpecFns;
use vstd::utf8::{
    decode_utf8, encode_utf8, encode_utf8_decode_utf8, encode_utf8_valid_utf8, valid_utf8,
};
use crate::account::{Account, AccountId, AccountModel, BankError, Operation, OperationModel};
use crate::constants::{
    TypeIdMark, MAGIC_DATA_SIZE, MAX_ACCOUNT_ID_LEN, MAX_ENCODED_LEN, TYPE_ID_ACCOUNT,
    TYPE_ID_ACCOUNT_ID, TYPE_ID_MONEY, TYPE_ID_NONZERO_MONEY, TYPE_ID_OPERATION_CREATE,
    TYPE_ID_OPERATION_DEPOSIT, TYPE_ID_OPERATION_GETBALANCE, TYPE_ID_OPERATION_MOVE,
    TYPE_ID_OPERATION_WITHDRAW, TYPE_ID_RESULT_ERR, TYPE_ID_RESULT_OK, TYPE_ID_VEC,
};
use crate::money::{Money, NonZeroMoney};

verus! {

/// How far a decoder has read into its input.
#[derive(Debug)]
pub struct Cursor {
    pub pos: usize,
}

/// What decoding returns: the value and where its encoding ends, or an error.
pub type DesResult<T, E> = Result<(T, Cursor), E>;

/// An encoded value: the type byte, the number of content bytes, the content.
pub open spec fn tlv(mark: TypeIdMark, content: Seq<u8>) -> Seq<u8> {
    seq![mark, content.len() as u8] + content
}

/// The encoding of a value that is made of other values: its content is their
/// encodings one after the other. There is none where a part has none or where
/// header and content together take more than 254 bytes.
pub open spec fn tagged(mark: TypeIdMark, content: Option<Seq<u8>>) -> Option<Seq<u8>> {
    match content {
        Some(bytes) => if MAGIC_DATA_SIZE + bytes.len() <= MAX_ENCODED_LEN {
            Some(tlv(mark, bytes))
        } else {
            None
        },
        None => None,
    }
}

/// Two encodings one after the other, where both exist.
pub open spec fn join(first: Option<Seq<u8>>, second: Option<Seq<u8>>) -> Option<Seq<u8>> {
    match (first, second) {
        (Some(a), Some(b)) => Some(a + b),
        _ => None,
    }
}

/// The type byte and the content of the encoded value that `data` starts with, where
/// `data` holds the two header bytes and as many content bytes as the header says.
pub open spec fn header(data: Seq<u8>) -> Option<(TypeIdMark, Seq<u8>)> {
    if data.len() >= MAGIC_DATA_SIZE && data.len() >= MAGIC_DATA_SIZE + data[1] {
        Some((data[0], data.subrange(MAGIC_DATA_SIZE as int, MAGIC_DATA_SIZE + data[1])))
    } else {
        None
    }
}

/// The four bytes of `value`, the most significant first.
pub open spec fn be_bytes(value: u32) -> Seq<u8> {
    seq![
        (value / 0x100_0000) as u8,
        (value / 0x1_0000 % 0x100) as u8,
        (value / 0x100 % 0x100) as u8,
        (value % 0x100) as u8,
    ]
}

/// The number whose four bytes, the most significant first, are `bytes`.
pub open spec fn from_be_bytes(bytes: Seq<u8>) -> u32 {
    (bytes[0] * 0x100_0000 + bytes[1] * 0x1_0000 + bytes[2] * 0x100 + bytes[3]) as u32
}

/// The header of an encoded value is read back as it was written, whatever follows.
pub proof fn lemma_header_of_tlv(mark: TypeIdMark, content: Seq<u8>, rest: Seq<u8>)
    requires
        content.len() <= 255,
    ensures
        header(tlv(mark, content) + rest) == Some((mark, content)),
        (tlv(mark, content) + rest).len() == MAGIC_DATA_SIZE + content.len() + rest.len(),
{
    let data = tlv(mark, content) + rest;
    assert(data[0] == mark);
    assert(data[1] == content.len() as u8);
    assert(data.subrange(MAGIC_DATA_SIZE as int, MAGIC_DATA_SIZE + data[1]) =~= content);
}

/// A number is the sum of its four bytes, each at its place.
proof fn lemma_split_u32(value: u32)
    by (bit_vector)
    ensures
        (value / 0x100_0000u32) < 0x100u32,
        (value / 0x100_0000u32) * 0x100_0000u32 + (value / 0x1_0000u32 % 0x100u32) * 0x1_0000u32 + (
        value / 0x100u32 % 0x100u32) * 0x100u32 + value % 0x100u32 == value,
{
}

/// Four bytes that were written for a number are read back as that number.
pub proof fn lemma_be_bytes_round_trip(value: u32)
    ensures
        be_bytes(value).len() == 4,
        from_be_bytes(be_bytes(value)) == value,
{
    lemma_split_u32(value);
}

/// A value that has an encoding as type, length and content.
pub trait Serializable {
    /// The mathematical value that the encoding stands for.
    type Model;

    /// The mathematical value of `self`.
    spec fn model(&self) -> Self::Model;

    /// The encoding of a value, where it has one.
    spec fn wire(model: Self::Model) -> Option<Seq<u8>>;

    /// The encoding of `self`, or `BadRequest` where it has none.
    fn serialize(&self) -> (r: Result<Vec<u8>, BankError>)
        ensures
            match r {
                Ok(bytes) => Self::wire(self.model()) == Some(bytes@),
                Err(e) => Self::wire(self.model()).is_none() && e == BankError::BadRequest,
            },
    ;
}

/// A type whose values can be read back from their encoding.
pub trait Deserializable<T: Serializable, E> {
    /// The value that `data` starts with and the number of bytes that its encoding
    /// takes, where `data` starts with the encoding of a value. A part of a message
    /// may have bytes behind it, which belong to the next part; a whole message
    /// takes all of `data`.
    spec fn parse(data: Seq<u8>) -> Option<(T::Model, nat)>;

    /// What was encoded is decoded as the same value, and decoding stops where the
    /// encoding ends.
    proof fn lemma_round_trip(model: T::Model)
        requires
            T::wire(model).is_some(),
        ensures
            Self::parse(T::wire(model).unwrap()) == Some((model, T::wire(model).unwrap().len())),
    ;

    /// A value that decodes takes at least one byte and no more than there are.
    proof fn lemma_parse_bounds(data: Seq<u8>)
        requires
            Self::parse(data).is_some(),
        ensures
            0 < Self::parse(data).unwrap().1 <= data.len(),
    ;

    /// Reads the value that `data` starts with; the cursor tells where its encoding
    /// ends.
    fn deserialize(data: &[u8]) -> (r: DesResult<T, E>)
        ensures
            match r {
                Ok((value, cursor)) => Self::parse(data@) == Some(
                    (value.model(), cursor.pos as nat),
                ),
                Err(_) => Self::parse(data@).is_none(),
            },
    ;
}

/// A type whose values can stand inside other values: its encoding is read back
/// also where more bytes follow it. A whole message is no part.
pub trait Part: Serializable + Deserializable<Self, BankError> + Sized {
    /// What was encoded is decoded as the same value, whatever follows it, and
    /// decoding stops where the encoding ends.
    proof fn lemma_round_trip_before(model: <Self as Serializable>::Model, rest: Seq<u8>)
        requires
            Self::wire(model).is_some(),
        ensures
            Self::parse(Self::wire(model).unwrap() + rest) == Some(
                (model, Self::wire(model).unwrap().len()),
            ),
    ;
}

/// Writes the header for `bytes` and then `bytes`, unless they are too many for it.
pub fn for_simple(self_type_id_mark: TypeIdMark, bytes: &[u8]) -> (r: Result<Vec<u8>, BankError>)
    ensures
        match r {
            Ok(encoded) => tagged(self_type_id_mark, Some(bytes@)) == Some(encoded@),
            Err(e) => tagged(self_type_id_mark, Some(bytes@)).is_none() && e
                == BankError::BadRequest,
        },
{
    let all_inner_len: usize = bytes.len();
    if all_inner_len > MAX_ENCODED_LEN - MAGIC_DATA_SIZE {
        return Err(BankError::BadRequest);
    }
    let mut ret: Vec<u8> = Vec::with_capacity(MAGIC_DATA_SIZE + all_inner_len);
    ret.push(self_type_id_mark);
    ret.push(all_inner_len as u8);
    let mut i: usize = 0;
    while i < all_inner_len
        invariant
            0 <= i <= all_inner_len,
            all_inner_len == bytes.len(),
            ret@ == seq![self_type_id_mark, all_inner_len as u8] + bytes@.take(i as int),
        decreases all_inner_len - i,
    {
        ret.push(bytes[i]);
        assert(bytes@.take(i + 1) =~= bytes@.take(i as int).push(bytes@[i as int]));
        i += 1;
    }
    assert(bytes@.take(all_inner_len as int) =~= bytes@);
    Ok(ret)
}

/// Reads the header that `data` starts with and cuts out the content behind it.
pub fn unmarshall<'a>(data: &'a [u8]) -> (r: Result<(TypeIdMark, &'a [u8], Cursor), BankError>)
    ensures
        match r {
            Ok((mark, content, cursor)) => header(data@) == Some((mark, content@)) && cursor.pos
                == MAGIC_DATA_SIZE + content@.len(),
            Err(e) => header(data@).is_none() && e == BankError::BadRequest,
        },
{
    if data.len() < MAGIC_DATA_SIZE {
        return Err(BankError::BadRequest);
    }
    let type_id: TypeIdMark = data[0];
    let len: usize = data[1] as usize;
    let shift: usize = MAGIC_DATA_SIZE;
    if data.len() - shift < len {
        return Err(BankError::BadRequest);
    }
    let end: usize = shift + len;
    let content: &[u8] = slice_subrange(data, shift, end);
    Ok((type_id, content, Cursor { pos: end }))
}

/// Writes the four bytes of `value`, the most significant first.
pub fn to_be_bytes(value: u32) -> (r: [u8; 4])
    ensures
        r@ == be_bytes(value),
{
    let r: [u8; 4] = [
        (value / 0x100_0000) as u8,
        (value / 0x1_0000 % 0x100) as u8,
        (value / 0x100 % 0x100) as u8,
        (value % 0x100) as u8,
    ];
    assert(r@ =~= be_bytes(value));
    r
}

/// Reads the four bytes of `bytes` as a number, the most significant first.
pub fn read_be_bytes(bytes: &[u8]) -> (r: u32)
    requires
        bytes@.len() == 4,
    ensures
        r == from_be_bytes(bytes@),
{
    let b0: u32 = bytes[0] as u32;
    let b1: u32 = bytes[1] as u32;
    let b2: u32 = bytes[2] as u32;
    let b3: u32 = bytes[3] as u32;
    b0 * 0x100_0000 + b1 * 0x1_0000 + b2 * 0x100 + b3
}

/// Calls `std::str::from_utf8`: the text whose bytes are `bytes` where they are
/// well-formed UTF-8, and nothing where they are not.
#[verifier::external_body]
fn str_from_utf8(bytes: &[u8]) -> (r: Option<&str>)
    ensures
        match r {
            Some(text) => valid_utf8(bytes@) && text.spec_bytes() == bytes@,
            None => !valid_utf8(bytes@),
        },
{
    std::str::from_utf8(bytes).ok()
}

impl Serializable for AccountId {
    type Model = Seq<char>;

    open spec fn model(&self) -> Seq<char> {
        self@
    }

    /// The bytes of the name in UTF-8, which may be 16 at most.
    open spec fn wire(model: Seq<char>) -> Option<Seq<u8>> {
        if encode_utf8(model).len() <= MAX_ACCOUNT_ID_LEN {
            Some(tlv(TYPE_ID_ACCOUNT_ID, encode_utf8(model)))
        } else {
            None
        }
    }

    fn serialize(&self) -> (r: Result<Vec<u8>, BankError>) {
        let str_bytes: &[u8] = self.as_str().as_bytes();
        if str_bytes.len() > MAX_ACCOUNT_ID_LEN {
            return Err(BankError::BadRequest);
        }
        for_simple(TYPE_ID_ACCOUNT_ID, str_bytes)
    }
}

impl Deserializable<AccountId, BankError> for AccountId {
    open spec fn parse(data: Seq<u8>) -> Option<(Seq<char>, nat)> {
        match header(data) {
            Some((mark, content)) => if mark == TYPE_ID_ACCOUNT_ID && content.len()
                <= MAX_ACCOUNT_ID_LEN && valid_utf8(content) {
                Some((decode_utf8(content), (MAGIC_DATA_SIZE + content.len()) as nat))
            } else {
                None
            },
            None => None,
        }
    }

    proof fn lemma_round_trip(model: Seq<char>) {
        let rest = Seq::<u8>::empty();
        lemma_header_of_tlv(TYPE_ID_ACCOUNT_ID, encode_utf8(model), rest);
        encode_utf8_valid_utf8(model);
        encode_utf8_decode_utf8(model);
        assert(Self::wire(model).unwrap() + rest =~= Self::wire(model).unwrap());
    }

    proof fn lemma_parse_bounds(data: Seq<u8>) {
    }

    fn deserialize(data: &[u8]) -> (r: DesResult<AccountId, BankError>)
        ensures
            r matches Err(e) ==> e == BankError::BadRequest,
    {
        let (mark, next, cursor) = match unmarshall(data) {
            Ok(read) => read,
            Err(e) => {
                return Err(e);
            },
        };
        if mark != TYPE_ID_ACCOUNT_ID || next.len() > MAX_ACCOUNT_ID_LEN {
            return Err(BankError::BadRequest);
        }
        match str_from_utf8(next) {
            Some(text) => {
                proof {
                    encode_utf8_decode_utf8(text@);
                }
                Ok((text.to_owned(), cursor))
            },
            None => Err(BankError::BadRequest),
        }
    }
}

impl Part for AccountId {
    proof fn lemma_round_trip_before(model: Seq<char>, rest: Seq<u8>) {
        lemma_header_of_tlv(TYPE_ID_ACCOUNT_ID, encode_utf8(model), rest);
        encode_utf8_valid_utf8(model);
        encode_utf8_decode_utf8(model);
    }
}

impl Serializable for Money {
    type Model = u32;

    open spec fn model(&self) -> u32 {
        *self
    }

    /// The four bytes of the amount, the most significant first.
    open spec fn wire(model: u32) -> Option<Seq<u8>> {
        Some(tlv(TYPE_ID_MONEY, be_bytes(model)))
    }

    fn serialize(&self) -> (r: Result<Vec<u8>, BankError>) {
        let be_bytes: [u8; 4] = to_be_bytes(*self);
        for_simple(TYPE_ID_MONEY, be_bytes.as_slice())
    }
}

impl Deserializable<Money, BankError> for Money {
    open spec fn parse(data: Seq<u8>) -> Option<(u32, nat)> {
        match header(data) {
            Some((mark, content)) => if mark == TYPE_ID_MONEY && content.len() == 4 {
                Some((from_be_bytes(content), (MAGIC_DATA_SIZE + content.len()) as nat))
            } else {
                None
            },
            None => None,
        }
    }

    proof fn lemma_round_trip(model: u32) {
        let rest = Seq::<u8>::empty();
        lemma_header_of_tlv(TYPE_ID_MONEY, be_bytes(model), rest);
        lemma_be_bytes_round_trip(model);
        assert(Self::wire(model).unwrap() + rest =~= Self::wire(model).unwrap());
    }

    proof fn lemma_parse_bounds(data: Seq<u8>) {
    }

    fn deserialize(data: &[u8]) -> (r: DesResult<Money, BankError>)
        ensures
            r matches Err(e) ==> e == BankError::BadRequest,
    {
        let (mark, next, cursor) = match unmarshall(data) {
            Ok(read) => read,
            Err(e) => {
                return Err(e);
            },
        };
        if mark != TYPE_ID_MONEY || next.len() != 4 {
            return Err(BankError::BadRequest);
        }
        Ok((read_be_bytes(next), cursor))
    }
}

impl Part for Money {
    proof fn lemma_round_trip_before(model: u32, rest: Seq<u8>) {
        lemma_header_of_tlv(TYPE_ID_MONEY, be_bytes(model), rest);
        lemma_be_bytes_round_trip(model);
    }
}

impl Serializable for NonZeroMoney {
    type Model = nat;

    open spec fn model(&self) -> nat {
        self.value()
    }

    /// The four bytes of the amount, the most significant first; zero, and what is
    /// no amount of money at all, has no encoding.
    open spec fn wire(model: nat) -> Option<Seq<u8>> {
        if 0 < model <= u32::MAX {
            Some(tlv(TYPE_ID_NONZERO_MONEY, be_bytes(model as u32)))
        } else {
            None
        }
    }

    fn serialize(&self) -> (r: Result<Vec<u8>, BankError>) {
        let be_bytes: [u8; 4] = to_be_bytes(self.get());
        for_simple(TYPE_ID_NONZERO_MONEY, be_bytes.as_slice())
    }
}

impl Deserializable<NonZeroMoney, BankError> for NonZeroMoney {
    open spec fn parse(data: Seq<u8>) -> Option<(nat, nat)> {
        match header(data) {
            Some((mark, content)) => if mark == TYPE_ID_NONZERO_MONEY && content.len() == 4
                && from_be_bytes(content) != 0 {
                Some((from_be_bytes(content) as nat, (MAGIC_DATA_SIZE + content.len()) as nat))
            } else {
                None
            },
            None => None,
        }
    }

    proof fn lemma_round_trip(model: nat) {
        let rest = Seq::<u8>::empty();
        lemma_header_of_tlv(TYPE_ID_NONZERO_MONEY, be_bytes(model as u32), rest);
        lemma_be_bytes_round_trip(model as u32);
        assert(Self::wire(model).unwrap() + rest =~= Self::wire(model).unwrap());
    }

    proof fn lemma_parse_bounds(data: Seq<u8>) {
    }

    fn deserialize(data: &[u8]) -> (r: DesResult<NonZeroMoney, BankError>)
        ensures
            r matches Err(e) ==> e == BankError::BadRequest,
    {
        let (mark, next, cursor) = match unmarshall(data) {
            Ok(read) => read,
            Err(e) => {
                return Err(e);
            },
        };
        if mark != TYPE_ID_NONZERO_MONEY || next.len() != 4 {
            return Err(BankError::BadRequest);
        }
        match NonZeroMoney::new(read_be_bytes(next)) {
            Some(amount) => Ok((amount, cursor)),
            None => Err(BankError::BadRequest),
        }
    }
}

impl Part for NonZeroMoney {
    proof fn lemma_round_trip_before(model: nat, rest: Seq<u8>) {
        lemma_header_of_tlv(TYPE_ID_NONZERO_MONEY, be_bytes(model as u32), rest);
        lemma_be_bytes_round_trip(model as u32);
    }
}

/// The value that `content` is the encoding of, where it is that of one value and
/// nothing follows it.
pub open spec fn parse_whole<T: Serializable + Deserializable<T, BankError>>(
    content: Seq<u8>,
) -> Option<T::Model> {
    match T::parse(content) {
        Some((model, taken)) => if taken == content.len() {
            Some(model)
        } else {
            None
        },
        None => None,
    }
}

/// The value that `content` starts with and the bytes that follow its encoding.
pub open spec fn parse_first<T: Serializable + Deserializable<T, BankError>>(
    content: Seq<u8>,
) -> Option<(T::Model, Seq<u8>)> {
    match T::parse(content) {
        Some((model, taken)) => if 0 < taken <= content.len() {
            Some((model, content.skip(taken as int)))
        } else {
            None
        },
        None => None,
    }
}

/// An encoding with nothing behind it decodes as the value that was encoded.
pub proof fn lemma_parse_whole_of_wire<T: Serializable + Deserializable<T, BankError>>(
    model: T::Model,
)
    requires
        T::wire(model).is_some(),
    ensures
        parse_whole::<T>(T::wire(model).unwrap()) == Some(model),
{
    T::lemma_round_trip(model);
}

/// An encoding with more behind it decodes as the value that was encoded and
/// leaves what is behind it.
pub proof fn lemma_parse_first_of_wire<T: Part>(model: T::Model, rest: Seq<u8>)
    requires
        T::wire(model).is_some(),
    ensures
        parse_first::<T>(T::wire(model).unwrap() + rest) == Some((model, rest)),
        T::wire(model).unwrap().len() > 0,
{
    let encoded = T::wire(model).unwrap();
    T::lemma_round_trip_before(model, rest);
    T::lemma_parse_bounds(encoded + rest);
    assert((encoded + rest).skip(encoded.len() as int) =~= rest);
}

/// Reads the one value that `content` is the encoding of.
pub fn read_whole<T: Serializable + Deserializable<T, BankError>>(content: &[u8]) -> (r: Result<
    T,
    BankError,
>)
    ensures
        match r {
            Ok(value) => parse_whole::<T>(content@) == Some(value.model()),
            Err(e) => parse_whole::<T>(content@).is_none() && e == BankError::BadRequest,
        },
{
    match T::deserialize(content) {
        Ok((value, cursor)) => {
            if cursor.pos == content.len() {
                Ok(value)
            } else {
                Err(BankError::BadRequest)
            }
        },
        Err(_) => Err(BankError::BadRequest),
    }
}

/// Reads the value that `content` starts with and returns it with the bytes that
/// follow its encoding.
pub fn read_first<'a, T: Serializable + Deserializable<T, BankError>>(content: &'a [u8]) -> (r:
    Result<(T, &'a [u8]), BankError>)
    ensures
        match r {
            Ok((value, rest)) => parse_first::<T>(content@) == Some((value.model(), rest@)),
            Err(e) => parse_first::<T>(content@).is_none() && e == BankError::BadRequest,
        },
{
    match T::deserialize(content) {
        Ok((value, cursor)) => {
            proof {
                T::lemma_parse_bounds(content@);
            }
            let rest: &[u8] = slice_subrange(content, cursor.pos, content.len());
            assert(rest@ =~= content@.skip(cursor.pos as int));
            Ok((value, rest))
        },
        Err(_) => Err(BankError::BadRequest),
    }
}

/// Writes the header for `content` in front of it, unless both together are too long.
fn wrap(self_type_id_mark: TypeIdMark, content: Vec<u8>) -> (r: Result<Vec<u8>, BankError>)
    ensures
        match r {
            Ok(encoded) => tagged(self_type_id_mark, Some(content@)) == Some(encoded@),
            Err(e) => tagged(self_type_id_mark, Some(content@)).is_none() && e
                == BankError::BadRequest,
        },
{
    let mut content = content;
    let all_inner_len: usize = content.len();
    if all_inner_len > MAX_ENCODED_LEN - MAGIC_DATA_SIZE {
        return Err(BankError::BadRequest);
    }
    let mut ret: Vec<u8> = Vec::with_capacity(MAGIC_DATA_SIZE + all_inner_len);
    ret.push(self_type_id_mark);
    ret.push(all_inner_len as u8);
    ret.append(&mut content);
    Ok(ret)
}

/// Encodes a value that is made of one other value.
pub fn for_one<I: Serializable>(self_type_id_mark: TypeIdMark, inner: &I) -> (r: Result<
    Vec<u8>,
    BankError,
>)
    ensures
        match r {
            Ok(encoded) => tagged(self_type_id_mark, I::wire(inner.model())) == Some(encoded@),
            Err(e) => tagged(self_type_id_mark, I::wire(inner.model())).is_none() && e
                == BankError::BadRequest,
        },
{
    match inner.serialize() {
        Ok(content) => wrap(self_type_id_mark, content),
        Err(e) => Err(e),
    }
}

/// Encodes a value that is made of two other values, in their order.
pub fn for_tuple_2<I1: Serializable, I2: Serializable>(
    self_type_id_mark: TypeIdMark,
    inner: (&I1, &I2),
) -> (r: Result<Vec<u8>, BankError>)
    ensures
        match r {
            Ok(encoded) => tagged(
                self_type_id_mark,
                join(I1::wire(inner.0.model()), I2::wire(inner.1.model())),
            ) == Some(encoded@),
            Err(e) => tagged(
                self_type_id_mark,
                join(I1::wire(inner.0.model()), I2::wire(inner.1.model())),
            ).is_none() && e == BankError::BadRequest,
        },
{
    let (i1, i2) = inner;
    let mut content: Vec<u8> = match i1.serialize() {
        Ok(bytes) => bytes,
        Err(e) => {
            return Err(e);
        },
    };
    let mut second: Vec<u8> = match i2.serialize() {
        Ok(bytes) => bytes,
        Err(e) => {
            return Err(e);
        },
    };
    content.append(&mut second);
    wrap(self_type_id_mark, content)
}

/// Encodes a value that is made of three other values, in their order.
pub fn for_tuple_3<I1: Serializable, I2: Serializable, I3: Serializable>(
    self_type_id_mark: TypeIdMark,
    inner: (&I1, &I2, &I3),
) -> (r: Result<Vec<u8>, BankError>)
    ensures
        match r {
            Ok(encoded) => tagged(
                self_type_id_mark,
                join(
                    join(I1::wire(inner.0.model()), I2::wire(inner.1.model())),
                    I3::wire(inner.2.model()),
                ),
            ) == Some(encoded@),
            Err(e) => tagged(
                self_type_id_mark,
                join(
                    join(I1::wire(inner.0.model()), I2::wire(inner.1.model())),
                    I3::wire(inner.2.model()),
                ),
            ).is_none() && e == BankError::BadRequest,
        },
{
    let (i1, i2, i3) = inner;
    let mut content: Vec<u8> = match i1.serialize() {
        Ok(bytes) => bytes,
        Err(e) => {
            return Err(e);
        },
    };
    let mut second: Vec<u8> = match i2.serialize() {
        Ok(bytes) => bytes,
        Err(e) => {
            return Err(e);
        },
    };
    let mut third: Vec<u8> = match i3.serialize() {
        Ok(bytes) => bytes,
        Err(e) => {
            return Err(e);
        },
    };
    content.append(&mut second);
    content.append(&mut third);
    wrap(self_type_id_mark, content)
}

impl Serializable for Account {
    type Model = AccountModel;

    open spec fn model(&self) -> AccountModel {
        self@
    }

    /// The name, then the balance.
    open spec fn wire(model: AccountModel) -> Option<Seq<u8>> {
        tagged(
            TYPE_ID_ACCOUNT,
            join(AccountId::wire(model.account_id), Money::wire(model.balance)),
        )
    }

    fn serialize(&self) -> (r: Result<Vec<u8>, BankError>) {
        for_tuple_2(TYPE_ID_ACCOUNT, (&self.account_id, &self.balance))
    }
}

impl Deserializable<Account, BankError> for Account {
    open spec fn parse(data: Seq<u8>) -> Option<(AccountModel, nat)> {
        match header(data) {
            Some((mark, content)) => if mark == TYPE_ID_ACCOUNT {
                match parse_first::<AccountId>(content) {
                    Some((account_id, rest)) => match parse_whole::<Money>(rest) {
                        Some(balance) => Some(
                            (
                                AccountModel { account_id, balance },
                                (MAGIC_DATA_SIZE + content.len()) as nat,
                            ),
                        ),
                        None => None,
                    },
                    None => None,
                }
            } else {
                None
            },
            None => None,
        }
    }

    proof fn lemma_round_trip(model: AccountModel) {
        let rest = Seq::<u8>::empty();
        let name = AccountId::wire(model.account_id).unwrap();
        let balance = Money::wire(model.balance).unwrap();
        lemma_header_of_tlv(TYPE_ID_ACCOUNT, name + balance, rest);
        lemma_parse_first_of_wire::<AccountId>(model.account_id, balance);
        lemma_parse_whole_of_wire::<Money>(model.balance);
        assert(Self::wire(model).unwrap() + rest =~= Self::wire(model).unwrap());
    }

    proof fn lemma_parse_bounds(data: Seq<u8>) {
    }

    fn deserialize(data: &[u8]) -> (r: DesResult<Account, BankError>)
        ensures
            r matches Err(e) ==> e == BankError::BadRequest,
    {
        let (mark, next, cursor) = match unmarshall(data) {
            Ok(read) => read,
            Err(e) => {
                return Err(e);
            },
        };
        if mark != TYPE_ID_ACCOUNT {
            return Err(BankError::BadRequest);
        }
        let (account_id, next) = match read_first::<AccountId>(next) {
            Ok(read) => read,
            Err(e) => {
                return Err(e);
            },
        };
        let balance: Money = match read_whole::<Money>(next) {
            Ok(read) => read,
            Err(e) => {
                return Err(e);
            },
        };
        Ok((Account { account_id, balance }, cursor))
    }
}

impl Part for Account {
    proof fn lemma_round_trip_before(model: AccountModel, rest: Seq<u8>) {
        let name = AccountId::wire(model.account_id).unwrap();
        let balance = Money::wire(model.balance).unwrap();
        lemma_header_of_tlv(TYPE_ID_ACCOUNT, name + balance, rest);
        lemma_parse_first_of_wire::<AccountId>(model.account_id, balance);
        lemma_parse_whole_of_wire::<Money>(model.balance);
    }
}

impl Serializable for Operation {
    type Model = OperationModel;

    open spec fn model(&self) -> OperationModel {
        self@
    }

    /// The parts of the operation in the order in which it names them.
    open spec fn wire(model: OperationModel) -> Option<Seq<u8>> {
        match model {
            OperationModel::Create(id) => tagged(TYPE_ID_OPERATION_CREATE, AccountId::wire(id)),
            OperationModel::Deposit(id, amount) => tagged(
                TYPE_ID_OPERATION_DEPOSIT,
                join(AccountId::wire(id), NonZeroMoney::wire(amount)),
            ),
            OperationModel::Withdraw(id, amount) => tagged(
                TYPE_ID_OPERATION_WITHDRAW,
                join(AccountId::wire(id), NonZeroMoney::wire(amount)),
            ),
            OperationModel::Move { from, to, amount } => tagged(
                TYPE_ID_OPERATION_MOVE,
                join(join(AccountId::wire(from), AccountId::wire(to)), NonZeroMoney::wire(amount)),
            ),
            OperationModel::GetBalance(id) => tagged(
                TYPE_ID_OPERATION_GETBALANCE,
                AccountId::wire(id),
            ),
        }
    }

    fn serialize(&self) -> (r: Result<Vec<u8>, BankError>) {
        match self {
            Operation::Create(account_id) => for_one(TYPE_ID_OPERATION_CREATE, account_id),
            Operation::Deposit(account_id, money) => for_tuple_2(
                TYPE_ID_OPERATION_DEPOSIT,
                (account_id, money),
            ),
            Operation::Withdraw(account_id, money) => for_tuple_2(
                TYPE_ID_OPERATION_WITHDRAW,
                (account_id, money),
            ),
            Operation::Move { from, to, amount } => for_tuple_3(
                TYPE_ID_OPERATION_MOVE,
                (from, to, amount),
            ),
            Operation::GetBalance(account_id) => for_one(TYPE_ID_OPERATION_GETBALANCE, account_id),
        }
    }
}

/// The account and the amount that `content` is the encoding of, one after the other.
pub open spec fn parse_account_and_amount(content: Seq<u8>) -> Option<(Seq<char>, nat)> {
    match parse_first::<AccountId>(content) {
        Some((id, rest)) => match parse_whole::<NonZeroMoney>(rest) {
            Some(amount) => Some((id, amount)),
            None => None,
        },
        None => None,
    }
}

/// The two accounts and the amount that `content` is the encoding of, one after the other.
pub open spec fn parse_transfer(content: Seq<u8>) -> Option<(Seq<char>, Seq<char>, nat)> {
    match parse_first::<AccountId>(content) {
        Some((from, rest)) => match parse_account_and_amount(rest) {
            Some((to, amount)) => Some((from, to, amount)),
            None => None,
        },
        None => None,
    }
}

/// The operation whose type byte is `mark` and whose content is `content`.
pub open spec fn parse_operation(mark: TypeIdMark, content: Seq<u8>) -> Option<OperationModel> {
    if mark == TYPE_ID_OPERATION_CREATE {
        match parse_whole::<AccountId>(content) {
            Some(id) => Some(OperationModel::Create(id)),
            None => None,
        }
    } else if mark == TYPE_ID_OPERATION_DEPOSIT {
        match parse_account_and_amount(content) {
            Some((id, amount)) => Some(OperationModel::Deposit(id, amount)),
            None => None,
        }
    } else if mark == TYPE_ID_OPERATION_WITHDRAW {
        match parse_account_and_amount(content) {
            Some((id, amount)) => Some(OperationModel::Withdraw(id, amount)),
            None => None,
        }
    } else if mark == TYPE_ID_OPERATION_MOVE {
        match parse_transfer(content) {
            Some((from, to, amount)) => Some(OperationModel::Move { from, to, amount }),
            None => None,
        }
    } else if mark == TYPE_ID_OPERATION_GETBALANCE {
        match parse_whole::<AccountId>(content) {
            Some(id) => Some(OperationModel::GetBalance(id)),
            None => None,
        }
    } else {
        None
    }
}

/// Reads an account and an amount, one after the other, with nothing behind them.
fn read_account_and_amount(content: &[u8]) -> (r: Result<(AccountId, NonZeroMoney), BankError>)
    ensures
        match r {
            Ok((id, amount)) => parse_account_and_amount(content@) == Some((id@, amount.value())),
            Err(e) => parse_account_and_amount(content@).is_none() && e == BankError::BadRequest,
        },
{
    let (account_id, next) = match read_first::<AccountId>(content) {
        Ok(read) => read,
        Err(e) => {
            return Err(e);
        },
    };
    match read_whole::<NonZeroMoney>(next) {
        Ok(non_zero_money) => Ok((account_id, non_zero_money)),
        Err(e) => Err(e),
    }
}

impl Deserializable<Operation, BankError> for Operation {
    open spec fn parse(data: Seq<u8>) -> Option<(OperationModel, nat)> {
        match header(data) {
            Some((mark, content)) => match parse_operation(mark, content) {
                Some(operation) => Some((operation, (MAGIC_DATA_SIZE + content.len()) as nat)),
                None => None,
            },
            None => None,
        }
    }

    proof fn lemma_round_trip(model: OperationModel) {
        let rest = Seq::<u8>::empty();
        match model {
            OperationModel::Create(id) => {
                lemma_header_of_tlv(TYPE_ID_OPERATION_CREATE, AccountId::wire(id).unwrap(), rest);
                lemma_parse_whole_of_wire::<AccountId>(id);
            },
            OperationModel::Deposit(id, amount) => {
                let tail = NonZeroMoney::wire(amount).unwrap();
                lemma_header_of_tlv(
                    TYPE_ID_OPERATION_DEPOSIT,
                    AccountId::wire(id).unwrap() + tail,
                    rest,
                );
                lemma_parse_first_of_wire::<AccountId>(id, tail);
                lemma_parse_whole_of_wire::<NonZeroMoney>(amount);
            },
            OperationModel::Withdraw(id, amount) => {
                let tail = NonZeroMoney::wire(amount).unwrap();
                lemma_header_of_tlv(
                    TYPE_ID_OPERATION_WITHDRAW,
                    AccountId::wire(id).unwrap() + tail,
                    rest,
                );
                lemma_parse_first_of_wire::<AccountId>(id, tail);
                lemma_parse_whole_of_wire::<NonZeroMoney>(amount);
            },
            OperationModel::Move { from, to, amount } => {
                let last = NonZeroMoney::wire(amount).unwrap();
                let tail = AccountId::wire(to).unwrap() + last;
                let content = AccountId::wire(from).unwrap() + AccountId::wire(to).unwrap() + last;
                assert(content =~= AccountId::wire(from).unwrap() + tail);
                lemma_header_of_tlv(TYPE_ID_OPERATION_MOVE, content, rest);
                lemma_parse_first_of_wire::<AccountId>(from, tail);
                lemma_parse_first_of_wire::<AccountId>(to, last);
                lemma_parse_whole_of_wire::<NonZeroMoney>(amount);
            },
            OperationModel::GetBalance(id) => {
                lemma_header_of_tlv(
                    TYPE_ID_OPERATION_GETBALANCE,
                    AccountId::wire(id).unwrap(),
                    rest,
                );
                lemma_parse_whole_of_wire::<AccountId>(id);
            },
        }
        assert(Self::wire(model).unwrap() + rest =~= Self::wire(model).unwrap());
    }

    proof fn lemma_parse_bounds(data: Seq<u8>) {
    }

    fn deserialize(data: &[u8]) -> (r: DesResult<Operation, BankError>)
        ensures
            r matches Err(e) ==> e == BankError::BadRequest,
    {
        let (type_id, next, cursor) = match unmarshall(data) {
            Ok(read) => read,
            Err(e) => {
                return Err(e);
            },
        };
        let operation = if type_id == TYPE_ID_OPERATION_CREATE {
            match read_whole::<AccountId>(next) {
                Ok(account_id) => Operation::Create(account_id),
                Err(e) => {
                    return Err(e);
                },
            }
        } else if type_id == TYPE_ID_OPERATION_DEPOSIT {
            match read_account_and_amount(next) {
                Ok((account_id, non_zero_money)) => Operation::Deposit(account_id, non_zero_money),
                Err(e) => {
                    return Err(e);
                },
            }
        } else if type_id == TYPE_ID_OPERATION_WITHDRAW {
            match read_account_and_amount(next) {
                Ok((account_id, non_zero_money)) => Operation::Withdraw(account_id, non_zero_money),
                Err(e) => {
                    return Err(e);
                },
            }
        } else if type_id == TYPE_ID_OPERATION_MOVE {
            let (from, next) = match read_first::<AccountId>(next) {
                Ok(read) => read,
                Err(e) => {
                    return Err(e);
                },
            };
            match read_account_and_amount(next) {
                Ok((to, amount)) => Operation::Move { from, to, amount },
                Err(e) => {
                    return Err(e);
                },
            }
        } else if type_id == TYPE_ID_OPERATION_GETBALANCE {
            match read_whole::<AccountId>(next) {
                Ok(account_id) => Operation::GetBalance(account_id),
                Err(e) => {
                    return Err(e);
                },
            }
        } else {
            return Err(BankError::BadRequest);
        };
        Ok((operation, cursor))
    }
}

impl Part for Operation {
    proof fn lemma_round_trip_before(model: OperationModel, rest: Seq<u8>) {
        match model {
            OperationModel::Create(id) => {
                lemma_header_of_tlv(TYPE_ID_OPERATION_CREATE, AccountId::wire(id).unwrap(), rest);
                lemma_parse_whole_of_wire::<AccountId>(id);
            },
            OperationModel::Deposit(id, amount) => {
                let tail = NonZeroMoney::wire(amount).unwrap();
                lemma_header_of_tlv(
                    TYPE_ID_OPERATION_DEPOSIT,
                    AccountId::wire(id).unwrap() + tail,
                    rest,
                );
                lemma_parse_first_of_wire::<AccountId>(id, tail);
                lemma_parse_whole_of_wire::<NonZeroMoney>(amount);
            },
            OperationModel::Withdraw(id, amount) => {
                let tail = NonZeroMoney::wire(amount).unwrap();
                lemma_header_of_tlv(
                    TYPE_ID_OPERATION_WITHDRAW,
                    AccountId::wire(id).unwrap() + tail,
                    rest,
                );
                lemma_parse_first_of_wire::<AccountId>(id, tail);
                lemma_parse_whole_of_wire::<NonZeroMoney>(amount);
            },
            OperationModel::Move { from, to, amount } => {
                let last = NonZeroMoney::wire(amount).unwrap();
                let tail = AccountId::wire(to).unwrap() + last;
                let content = AccountId::wire(from).unwrap() + AccountId::wire(to).unwrap() + last;
                assert(content =~= AccountId::wire(from).unwrap() + tail);
                lemma_header_of_tlv(TYPE_ID_OPERATION_MOVE, content, rest);
                lemma_parse_first_of_wire::<AccountId>(from, tail);
                lemma_parse_first_of_wire::<AccountId>(to, last);
                lemma_parse_whole_of_wire::<NonZeroMoney>(amount);
            },
            OperationModel::GetBalance(id) => {
                lemma_header_of_tlv(
                    TYPE_ID_OPERATION_GETBALANCE,
                    AccountId::wire(id).unwrap(),
                    rest,
                );
                lemma_parse_whole_of_wire::<AccountId>(id);
            },
        }
    }
}

impl<T: Serializable, E: Serializable> Serializable for Result<T, E> {
    type Model = Result<T::Model, E::Model>;

    open spec fn model(&self) -> Result<T::Model, E::Model> {
        match self {
            Ok(inner) => Ok(inner.model()),
            Err(err) => Err(err.model()),
        }
    }

    /// The value or the error; the type byte tells which of them.
    open spec fn wire(model: Result<T::Model, E::Model>) -> Option<Seq<u8>> {
        match model {
            Ok(inner) => tagged(TYPE_ID_RESULT_OK, T::wire(inner)),
            Err(err) => tagged(TYPE_ID_RESULT_ERR, E::wire(err)),
        }
    }

    fn serialize(&self) -> (r: Result<Vec<u8>, BankError>) {
        match self {
            Ok(inner) => for_one(TYPE_ID_RESULT_OK, inner),
            Err(err) => for_one(TYPE_ID_RESULT_ERR, err),
        }
    }
}

impl<R1, R2> Deserializable<Result<R1, R2>, BankError> for Result<R1, R2> where
    R1: Serializable + Deserializable<R1, BankError>,
    R2: Serializable + Deserializable<R2, BankError>,
 {
    open spec fn parse(data: Seq<u8>) -> Option<(Result<R1::Model, R2::Model>, nat)> {
        match header(data) {
            Some((mark, content)) => if mark == TYPE_ID_RESULT_OK {
                match parse_whole::<R1>(content) {
                    Some(inner) => Some((Ok(inner), (MAGIC_DATA_SIZE + content.len()) as nat)),
                    None => None,
                }
            } else if mark == TYPE_ID_RESULT_ERR {
                match parse_whole::<R2>(content) {
                    Some(err) => Some((Err(err), (MAGIC_DATA_SIZE + content.len()) as nat)),
                    None => None,
                }
            } else {
                None
            },
            None => None,
        }
    }

    proof fn lemma_round_trip(model: Result<R1::Model, R2::Model>) {
        let rest = Seq::<u8>::empty();
        match model {
            Ok(inner) => {
                lemma_header_of_tlv(TYPE_ID_RESULT_OK, R1::wire(inner).unwrap(), rest);
                lemma_parse_whole_of_wire::<R1>(inner);
            },
            Err(err) => {
                lemma_header_of_tlv(TYPE_ID_RESULT_ERR, R2::wire(err).unwrap(), rest);
                lemma_parse_whole_of_wire::<R2>(err);
            },
        }
        assert(Self::wire(model).unwrap() + rest =~= Self::wire(model).unwrap());
    }

    proof fn lemma_parse_bounds(data: Seq<u8>) {
    }

    fn deserialize(data: &[u8]) -> (r: DesResult<Result<R1, R2>, BankError>)
        ensures
            r matches Err(e) ==> e == BankError::BadRequest,
    {
        let (type_id, next, cursor) = match unmarshall(data) {
            Ok(read) => read,
            Err(e) => {
                return Err(e);
            },
        };
        if type_id == TYPE_ID_RESULT_OK {
            match read_whole::<R1>(next) {
                Ok(inner) => Ok((Ok(inner), cursor)),
                Err(e) => Err(e),
            }
        } else if type_id == TYPE_ID_RESULT_ERR {
            match read_whole::<R2>(next) {
                Ok(inner) => Ok((Err(inner), cursor)),
                Err(e) => Err(e),
            }
        } else {
            Err(BankError::BadRequest)
        }
    }
}

impl<R1, R2> Part for Result<R1, R2> where
    R1: Serializable + Deserializable<R1, BankError>,
    R2: Serializable + Deserializable<R2, BankError>,
 {
    proof fn lemma_round_trip_before(model: Result<R1::Model, R2::Model>, rest: Seq<u8>) {
        match model {
            Ok(inner) => {
                lemma_header_of_tlv(TYPE_ID_RESULT_OK, R1::wire(inner).unwrap(), rest);
                lemma_parse_whole_of_wire::<R1>(inner);
            },
            Err(err) => {
                lemma_header_of_tlv(TYPE_ID_RESULT_ERR, R2::wire(err).unwrap(), rest);
                lemma_parse_whole_of_wire::<R2>(err);
            },
        }
    }
}

/// The mathematical values of the elements of a list.
pub open spec fn element_models<T: Serializable>(elements: Seq<T>) -> Seq<T::Model> {
    elements.map_values(|element: T| element.model())
}

/// The encodings of the elements one after the other, where each of them has one.
pub open spec fn wire_all<T: Serializable>(models: Seq<T::Model>) -> Option<Seq<u8>>
    decreases models.len(),
{
    if models.len() == 0 {
        Some(Seq::empty())
    } else {
        join(T::wire(models[0]), wire_all::<T>(models.drop_first()))
    }
}

/// The values whose encodings, one after the other, make up `content`.
pub open spec fn parse_all<T: Serializable + Deserializable<T, BankError>>(
    content: Seq<u8>,
) -> Option<Seq<T::Model>>
    decreases content.len(),
{
    if content.len() == 0 {
        Some(Seq::empty())
    } else {
        match parse_first::<T>(content) {
            Some((model, rest)) => match parse_all::<T>(rest) {
                Some(others) => Some(seq![model] + others),
                None => None,
            },
            None => None,
        }
    }
}

/// One more element at the end of a list adds its encoding at the end.
pub proof fn lemma_wire_all_push<T: Serializable>(models: Seq<T::Model>, last: T::Model)
    ensures
        wire_all::<T>(models.push(last)) == join(wire_all::<T>(models), T::wire(last)),
    decreases models.len(),
{
    if models.len() == 0 {
        assert(models.push(last).drop_first() =~= models);
        assert(wire_all::<T>(models) == Some(Seq::<u8>::empty()));
        if T::wire(last).is_some() {
            assert(T::wire(last).unwrap() + Seq::<u8>::empty() =~= Seq::<u8>::empty()
                + T::wire(last).unwrap());
        }
    } else {
        lemma_wire_all_push::<T>(models.drop_first(), last);
        assert(models.push(last).drop_first() =~= models.drop_first().push(last));
        assert(models.push(last)[0] == models[0]);
        if wire_all::<T>(models.push(last)).is_some() {
            let head = T::wire(models[0]).unwrap();
            let middle = wire_all::<T>(models.drop_first()).unwrap();
            let tail = T::wire(last).unwrap();
            assert(head + (middle + tail) =~= (head + middle) + tail);
        }
    }
}

/// A list that holds an element without an encoding has none itself.
pub proof fn lemma_wire_all_none<T: Serializable>(models: Seq<T::Model>, at: int)
    requires
        0 <= at < models.len(),
        T::wire(models[at]).is_none(),
    ensures
        wire_all::<T>(models).is_none(),
    decreases models.len(),
{
    if at > 0 {
        lemma_wire_all_none::<T>(models.drop_first(), at - 1);
    }
}

/// The encodings of a list's elements, one after the other, decode as that list.
pub proof fn lemma_parse_all_of_wire_all<T: Part>(models: Seq<T::Model>)
    requires
        wire_all::<T>(models).is_some(),
    ensures
        parse_all::<T>(wire_all::<T>(models).unwrap()) == Some(models),
    decreases models.len(),
{
    if models.len() > 0 {
        let tail = wire_all::<T>(models.drop_first()).unwrap();
        lemma_parse_first_of_wire::<T>(models[0], tail);
        lemma_parse_all_of_wire_all::<T>(models.drop_first());
        assert(seq![models[0]] + models.drop_first() =~= models);
    }
}

impl<T: Serializable> Serializable for Vec<T> {
    type Model = Seq<T::Model>;

    open spec fn model(&self) -> Seq<T::Model> {
        element_models(self@)
    }

    /// The elements in their order; their number is not written.
    open spec fn wire(model: Seq<T::Model>) -> Option<Seq<u8>> {
        tagged(TYPE_ID_VEC, wire_all::<T>(model))
    }

    fn serialize(&self) -> (r: Result<Vec<u8>, BankError>) {
        let ghost models = element_models(self@);
        let mut all_el_bytes: Vec<u8> = Vec::new();
        let mut i: usize = 0;
        while i < self.len()
            invariant
                0 <= i <= self.len(),
                models == element_models(self@),
                wire_all::<T>(models.take(i as int)) == Some(all_el_bytes@),
            decreases self.len() - i,
        {
            assert(models[i as int] == self[i as int].model());
            assert(models.take(i + 1) =~= models.take(i as int).push(models[i as int]));
            proof {
                lemma_wire_all_push::<T>(models.take(i as int), models[i as int]);
            }
            match self[i].serialize() {
                Ok(el_bytes) => {
                    let mut el_bytes = el_bytes;
                    all_el_bytes.append(&mut el_bytes);
                },
                Err(e) => {
                    proof {
                        lemma_wire_all_none::<T>(models, i as int);
                    }
                    return Err(e);
                },
            }
            i += 1;
        }
        assert(models.take(self.len() as int) =~= models);
        wrap(TYPE_ID_VEC, all_el_bytes)
    }
}

impl<T: Part> Deserializable<Vec<T>, BankError> for Vec<T> {
    open spec fn parse(data: Seq<u8>) -> Option<(Seq<T::Model>, nat)> {
        match header(data) {
            Some((mark, content)) => if mark == TYPE_ID_VEC {
                match parse_all::<T>(content) {
                    Some(models) => Some((models, (MAGIC_DATA_SIZE + content.len()) as nat)),
                    None => None,
                }
            } else {
                None
            },
            None => None,
        }
    }

    proof fn lemma_round_trip(model: Seq<T::Model>) {
        let rest = Seq::<u8>::empty();
        lemma_header_of_tlv(TYPE_ID_VEC, wire_all::<T>(model).unwrap(), rest);
        lemma_parse_all_of_wire_all::<T>(model);
        assert(Self::wire(model).unwrap() + rest =~= Self::wire(model).unwrap());
    }

    proof fn lemma_parse_bounds(data: Seq<u8>) {
    }

    fn deserialize(data: &[u8]) -> (r: DesResult<Vec<T>, BankError>)
        ensures
            r matches Err(e) ==> e == BankError::BadRequest,
    {
        let (type_id, content, cursor) = match unmarshall(data) {
            Ok(read) => read,
            Err(e) => {
                return Err(e);
            },
        };
        if type_id != TYPE_ID_VEC {
            return Err(BankError::BadRequest);
        }
        let mut ret: Vec<T> = Vec::new();
        let mut next: &[u8] = content;
        while next.len() > 0
            invariant
                header(data@) == Some((type_id, content@)),
                type_id == TYPE_ID_VEC,
                cursor.pos == MAGIC_DATA_SIZE + content@.len(),
                parse_all::<T>(content@) == match parse_all::<T>(next@) {
                    Some(others) => Some(element_models(ret@) + others),
                    None => None,
                },
            decreases next.len(),
        {
            let ghost before = element_models(ret@);
            match read_first::<T>(next) {
                Ok((elem, rest)) => {
                    proof {
                        if parse_all::<T>(rest@).is_some() {
                            assert((before + seq![elem.model()]) + parse_all::<T>(rest@).unwrap()
                                =~= before + (seq![elem.model()] + parse_all::<T>(
                                rest@,
                            ).unwrap()));
                        }
                    }
                    ret.push(elem);
                    assert(element_models(ret@) =~= before + seq![elem.model()]);
                    next = rest;
                },
                Err(e) => {
                    assert(parse_all::<T>(next@).is_none());
                    return Err(e);
                },
            }
        }
        assert(element_models(ret@) + Seq::<T::Model>::empty() =~= element_models(ret@));
        Ok((ret, cursor))
    }
}

impl<T: Part> Part for Vec<T> {
    proof fn lemma_round_trip_before(model: Seq<T::Model>, rest: Seq<u8>) {
        lemma_header_of_tlv(TYPE_ID_VEC, wire_all::<T>(model).unwrap(), rest);
        lemma_parse_all_of_wire_all::<T>(model);
    }
}

} // verus!

use vstd::prelude::*;
use vstd::slice::slice_subrange;
use crate::account::{Account, AccountModel, BankError, Operation, OperationModel};
use crate::constants::{
    MAGIC_DATA_SIZE, TYPE_ID_PROTOCOL_REQUEST, TYPE_ID_PROTOCOL_RESPONSE,
};
use crate::ser_de::{
    be_bytes, for_one, tagged, from_be_bytes, header, lemma_be_bytes_round_trip,
    lemma_header_of_tlv, lemma_parse_whole_of_wire, parse_whole, read_be_bytes, read_whole,
    to_be_bytes, unmarshall, DesResult, Deserializable, Serializable,
};

verus! {

/// What a request is answered with: the accounts it touched, or a message that
/// says why it was refused.
pub type Answer = Result<Vec<Account>, String>;

/// The mathematical value of a [`Protocol`] message.
pub enum ProtocolModel {
    Request(OperationModel),
    Response(Result<Seq<AccountModel>, Seq<char>>),
    Quit,
}

/// A message between a client and the server.
#[derive(Debug, PartialEq, Eq)]
pub enum Protocol {
    /// What a client asks for.
    Request(Operation),
    /// What the server answers.
    Response(Answer),
    /// The end of the session. It is a control message and has no encoding.
    Quit,
}

impl View for Protocol {
    type V = ProtocolModel;

    open spec fn view(&self) -> ProtocolModel {
        match self {
            Protocol::Request(op) => ProtocolModel::Request(op@),
            Protocol::Response(answer) => ProtocolModel::Response(answer.model()),
            Protocol::Quit => ProtocolModel::Quit,
        }
    }
}

impl Serializable for Protocol {
    type Model = ProtocolModel;

    open spec fn model(&self) -> ProtocolModel {
        self@
    }

    /// The operation of a request or the answer of a response.
    open spec fn wire(model: ProtocolModel) -> Option<Seq<u8>> {
        match model {
            ProtocolModel::Request(op) => tagged(TYPE_ID_PROTOCOL_REQUEST, Operation::wire(op)),
            ProtocolModel::Response(answer) => tagged(
                TYPE_ID_PROTOCOL_RESPONSE,
                Answer::wire(answer),
            ),
            ProtocolModel::Quit => None,
        }
    }

    fn serialize(&self) -> (r: Result<Vec<u8>, BankError>) {
        match self {
            Protocol::Request(op) => for_one(TYPE_ID_PROTOCOL_REQUEST, op),
            Protocol::Response(result) => for_one(TYPE_ID_PROTOCOL_RESPONSE, result),
            Protocol::Quit => Err(BankError::BadRequest),
        }
    }
}

impl Deserializable<Protocol, BankError> for Protocol {
    /// A message takes the whole of `data`: where the header declares more bytes
    /// than follow it, or fewer, `data` is no message.
    open spec fn parse(data: Seq<u8>) -> Option<(ProtocolModel, nat)> {
        match header(data) {
            Some((mark, content)) => if data.len() != MAGIC_DATA_SIZE + content.len() {
                None
            } else if mark == TYPE_ID_PROTOCOL_REQUEST {
                match parse_whole::<Operation>(content) {
                    Some(op) => Some(
                        (ProtocolModel::Request(op), (MAGIC_DATA_SIZE + content.len()) as nat),
                    ),
                    None => None,
                }
            } else if mark == TYPE_ID_PROTOCOL_RESPONSE {
                match parse_whole::<Answer>(content) {
                    Some(answer) => Some(
                        (
                            ProtocolModel::Response(answer),
                            (MAGIC_DATA_SIZE + content.len()) as nat,
                        ),
                    ),
                    None => None,
                }
            } else {
                None
            },
            None => None,
        }
    }

    proof fn lemma_round_trip(model: ProtocolModel) {
        let rest = Seq::<u8>::empty();
        assert(Self::wire(model).unwrap() + rest =~= Self::wire(model).unwrap());
        match model {
            ProtocolModel::Request(op) => {
                lemma_header_of_tlv(TYPE_ID_PROTOCOL_REQUEST, Operation::wire(op).unwrap(), rest);
                lemma_parse_whole_of_wire::<Operation>(op);
            },
            ProtocolModel::Response(answer) => {
                lemma_header_of_tlv(
                    TYPE_ID_PROTOCOL_RESPONSE,
                    Answer::wire(answer).unwrap(),
                    rest,
                );
                lemma_parse_whole_of_wire::<Answer>(answer);
            },
            ProtocolModel::Quit => {},
        }
    }

    proof fn lemma_parse_bounds(data: Seq<u8>) {
    }

    /// Reads the message that `data` is. Bytes that are missing or left over are a
    /// `BadRequest`, as is everything else that does not decode.
    fn deserialize(data: &[u8]) -> (r: DesResult<Protocol, BankError>)
        ensures
            r matches Err(e) ==> e == BankError::BadRequest,
            r matches Ok((_, cursor)) ==> cursor.pos == data@.len(),
    {
        let (type_id, next, cursor) = match unmarshall(data) {
            Ok(read) => read,
            Err(e) => {
                return Err(e);
            },
        };
        if cursor.pos != data.len() {
            return Err(BankError::BadRequest);
        }
        if type_id == TYPE_ID_PROTOCOL_REQUEST {
            match read_whole::<Operation>(next) {
                Ok(operation) => Ok((Protocol::Request(operation), cursor)),
                Err(e) => Err(e),
            }
        } else if type_id == TYPE_ID_PROTOCOL_RESPONSE {
            match read_whole::<Answer>(next) {
                Ok(result) => Ok((Protocol::Response(result), cursor)),
                Err(e) => Err(e),
            }
        } else {
            Err(BankError::BadRequest)
        }
    }
}

/// The number of bytes that the message at the head of `stream` takes, where the
/// stream holds all of them.
pub open spec fn message_len(stream: Seq<u8>) -> Option<nat> {
    if stream.len() >= MAGIC_DATA_SIZE && stream.len() >= MAGIC_DATA_SIZE + stream[1] {
        Some((MAGIC_DATA_SIZE + stream[1]) as nat)
    } else {
        None
    }
}

/// Reading and writing of messages on streams of bytes.
pub struct IO;

impl IO {
    /// Takes one message from the head of `reader`: the two header bytes and then as
    /// many bytes as the header says. Where the stream ends before that, the result is
    /// `TransportError` and nothing is taken. Otherwise these bytes are taken, and
    /// the result is the message that they encode, or `BadRequest` where they encode
    /// none.
    pub fn read<'a>(reader: &mut &'a [u8]) -> (r: Result<Protocol, BankError>)
        ensures
            match message_len(old(reader)@) {
                None => r == Err::<Protocol, BankError>(BankError::TransportError)
                    && final(reader)@ == old(reader)@,
                Some(total) => {
                    &&& final(reader)@ == old(reader)@.skip(total as int)
                    &&& match parse_whole::<Protocol>(old(reader)@.take(total as int)) {
                        Some(message) => r.is_ok() && r.unwrap()@ == message,
                        None => r == Err::<Protocol, BankError>(BankError::BadRequest),
                    }
                },
            },
    {
        let stream: &'a [u8] = *reader;
        if stream.len() < MAGIC_DATA_SIZE {
            return Err(BankError::TransportError);
        }
        let total_size: usize = MAGIC_DATA_SIZE + stream[1] as usize;
        if stream.len() < total_size {
            return Err(BankError::TransportError);
        }
        let buf: &[u8] = slice_subrange(stream, 0, total_size);
        let rest: &'a [u8] = slice_subrange(stream, total_size, stream.len());
        assert(buf@ =~= stream@.take(total_size as int));
        assert(rest@ =~= stream@.skip(total_size as int));
        *reader = rest;
        read_whole::<Protocol>(buf)
    }

    /// Appends the encoding of `protocol` to `writer`, or fails with `BadRequest` and
    /// writes nothing where the message has no encoding.
    pub fn write(writer: &mut Vec<u8>, protocol: &Protocol) -> (r: Result<(), BankError>)
        ensures
            match Protocol::wire(protocol@) {
                Some(bytes) => r.is_ok() && final(writer)@ == old(writer)@ + bytes,
                None => r == Err::<(), BankError>(BankError::BadRequest) && final(writer)@ == old(
                    writer,
                )@,
            },
    {
        match protocol.serialize() {
            Ok(bytes) => {
                let mut bytes = bytes;
                writer.append(&mut bytes);
                Ok(())
            },
            Err(e) => Err(e),
        }
    }

    /// A message that was written to an empty stream is read back from it as it was,
    /// and the stream is then empty again; with more behind it, that is left.
    pub proof fn lemma_read_after_write(message: ProtocolModel, rest: Seq<u8>)
        requires
            Protocol::wire(message).is_some(),
        ensures
            message_len(Protocol::wire(message).unwrap() + rest) == Some(
                Protocol::wire(message).unwrap().len(),
            ),
            parse_whole::<Protocol>(
                (Protocol::wire(message).unwrap() + rest).take(
                    Protocol::wire(message).unwrap().len() as int,
                ),
            ) == Some(message),
            (Protocol::wire(message).unwrap() + rest).skip(
                Protocol::wire(message).unwrap().len() as int,
            ) == rest,
    {
        let bytes = Protocol::wire(message).unwrap();
        match message {
            ProtocolModel::Request(op) => {
                lemma_header_of_tlv(TYPE_ID_PROTOCOL_REQUEST, Operation::wire(op).unwrap(), rest);
            },
            ProtocolModel::Response(answer) => {
                lemma_header_of_tlv(
                    TYPE_ID_PROTOCOL_RESPONSE,
                    Answer::wire(answer).unwrap(),
                    rest,
                );
            },
            ProtocolModel::Quit => {},
        }
        assert((bytes + rest).take(bytes.len() as int) =~= bytes);
        assert((bytes + rest).skip(bytes.len() as int) =~= rest);
        lemma_parse_whole_of_wire::<Protocol>(message);
    }
}

/// Bytes decode as a message only where the length that their header declares is
/// the number of bytes that follow the header: a buffer that is shorter or longer
/// than declared is refused.
pub proof fn lemma_declared_length_must_match(data: Seq<u8>)
    ensures
        Protocol::parse(data).is_some() ==> data.len() >= MAGIC_DATA_SIZE && data.len()
            == MAGIC_DATA_SIZE + data[1] && Protocol::parse(data).unwrap().1 == data.len(),
        data.len() < MAGIC_DATA_SIZE || data.len() != MAGIC_DATA_SIZE + data[1]
            ==> Protocol::parse(data).is_none() && parse_whole::<Protocol>(data).is_none(),
{
}

/// The number of bytes of a frame's length prefix.
pub const FRAME_PREFIX_SIZE: usize = 4;

/// A payload as it travels: its length in four bytes, the most significant first,
/// and then the payload. An empty payload cannot travel, nor one whose length does
/// not fit the four bytes.
pub open spec fn framed(payload: Seq<u8>) -> Option<Seq<u8>> {
    if 0 < payload.len() <= u32::MAX {
        Some(be_bytes(payload.len() as u32) + payload)
    } else {
        None
    }
}

/// The length of the payload of the frame at the head of `stream`, where the stream
/// holds the whole frame and the length is not zero.
pub open spec fn payload_len(stream: Seq<u8>) -> Option<nat> {
    if stream.len() >= FRAME_PREFIX_SIZE {
        let len = from_be_bytes(stream.take(FRAME_PREFIX_SIZE as int));
        if len != 0 && stream.len() >= FRAME_PREFIX_SIZE + len {
            Some(len as nat)
        } else {
            None
        }
    } else {
        None
    }
}

/// The payload of the frame at the head of `stream`.
pub open spec fn payload_of(stream: Seq<u8>) -> Seq<u8>
    recommends
        payload_len(stream).is_some(),
{
    stream.subrange(FRAME_PREFIX_SIZE as int, FRAME_PREFIX_SIZE + payload_len(stream).unwrap())
}

/// What follows the frame at the head of `stream`.
pub open spec fn after_frame(stream: Seq<u8>) -> Seq<u8>
    recommends
        payload_len(stream).is_some(),
{
    stream.skip(FRAME_PREFIX_SIZE + payload_len(stream).unwrap())
}

/// A payload that was framed is found again at the head of the stream, whole and
/// unchanged, and behind it what was behind the frame.
pub proof fn lemma_frame_round_trip(payload: Seq<u8>, rest: Seq<u8>)
    requires
        framed(payload).is_some(),
    ensures
        payload_len(framed(payload).unwrap() + rest) == Some(payload.len()),
        payload_of(framed(payload).unwrap() + rest) == payload,
        after_frame(framed(payload).unwrap() + rest) == rest,
{
    let stream = framed(payload).unwrap() + rest;
    lemma_be_bytes_round_trip(payload.len() as u32);
    assert(stream.take(FRAME_PREFIX_SIZE as int) =~= be_bytes(payload.len() as u32));
    assert(stream.subrange(FRAME_PREFIX_SIZE as int, FRAME_PREFIX_SIZE + payload.len())
        =~= payload);
    assert(stream.skip(FRAME_PREFIX_SIZE + payload.len()) =~= rest);
}

/// Appends the frame of `payload` to `stream`, or fails with `TransportError` and
/// writes nothing where the payload is empty or too long for a frame.
pub fn write_frame(stream: &mut Vec<u8>, payload: &[u8]) -> (r: Result<(), BankError>)
    ensures
        match framed(payload@) {
            Some(bytes) => r.is_ok() && final(stream)@ == old(stream)@ + bytes,
            None => r == Err::<(), BankError>(BankError::TransportError) && final(stream)@ == old(
                stream,
            )@,
        },
{
    if payload.len() == 0 || payload.len() > u32::MAX as usize {
        return Err(BankError::TransportError);
    }
    let len: [u8; 4] = to_be_bytes(payload.len() as u32);
    let ghost start = stream@;
    let mut i: usize = 0;
    while i < 4
        invariant
            0 <= i <= 4,
            len@ == be_bytes(payload@.len() as u32),
            stream@ == start + len@.take(i as int),
        decreases 4 - i,
    {
        stream.push(len[i]);
        assert(len@.take(i + 1) =~= len@.take(i as int).push(len@[i as int]));
        assert(stream@ =~= start + len@.take(i + 1));
        i += 1;
    }
    assert(len@.take(4) =~= len@);
    let mut k: usize = 0;
    while k < payload.len()
        invariant
            0 <= k <= payload.len(),
            stream@ == start + len@ + payload@.take(k as int),
        decreases payload.len() - k,
    {
        stream.push(payload[k]);
        assert(payload@.take(k + 1) =~= payload@.take(k as int).push(payload@[k as int]));
        assert(stream@ =~= start + len@ + payload@.take(k + 1));
        k += 1;
    }
    assert(payload@.take(payload.len() as int) =~= payload@);
    assert(stream@ =~= start + (len@ + payload@));
    Ok(())
}

/// Takes one frame from the head of `stream` and returns its payload. Where the
/// stream ends before the frame does, or the frame says that its payload is empty,
/// the result is `TransportError` and nothing is taken.
pub fn read_frame<'a>(stream: &mut &'a [u8]) -> (r: Result<&'a [u8], BankError>)
    ensures
        match payload_len(old(stream)@) {
            Some(_) => r.is_ok() && r.unwrap()@ == payload_of(old(stream)@) && final(stream)@
                == after_frame(old(stream)@),
            None => r == Err::<&[u8], BankError>(BankError::TransportError) && final(stream)@
                == old(stream)@,
        },
{
    let all: &'a [u8] = *stream;
    if all.len() < FRAME_PREFIX_SIZE {
        return Err(BankError::TransportError);
    }
    let size_buf: &[u8] = slice_subrange(all, 0, FRAME_PREFIX_SIZE);
    assert(size_buf@ =~= all@.take(FRAME_PREFIX_SIZE as int));
    let size: u32 = read_be_bytes(size_buf);
    if size == 0 || all.len() - FRAME_PREFIX_SIZE < size as usize {
        return Err(BankError::TransportError);
    }
    let end: usize = FRAME_PREFIX_SIZE + size as usize;
    let data_buf: &'a [u8] = slice_subrange(all, FRAME_PREFIX_SIZE, end);
    let rest: &'a [u8] = slice_subrange(all, end, all.len());
    assert(rest@ =~= all@.skip(end as int));
    *stream = rest;
    Ok(data_buf)
}

/// Appends to `stream` the frame that carries the encoding of `entity`. Where the
/// entity has no encoding the result is `BadRequest`, and nothing is written.
pub fn write<T: Serializable>(stream: &mut Vec<u8>, entity: &T) -> (r: Result<(), BankError>)
    ensures
        match T::wire(entity.model()) {
            Some(encoded) => if framed(encoded).is_some() {
                r.is_ok() && final(stream)@ == old(stream)@ + framed(encoded).unwrap()
            } else {
                r == Err::<(), BankError>(BankError::TransportError) && final(stream)@ == old(
                    stream,
                )@
            },
            None => r == Err::<(), BankError>(BankError::BadRequest) && final(stream)@ == old(
                stream,
            )@,
        },
{
    match entity.serialize() {
        Ok(encoded) => write_frame(stream, encoded.as_slice()),
        Err(e) => Err(e),
    }
}

/// Takes one frame from the head of `stream` and decodes its payload. Where the
/// stream holds no whole frame the result is `TransportError` and nothing is taken;
/// where the payload is not the encoding of one value, the frame is taken and the
/// result is `BadRequest`.
pub fn read<'a, T: Serializable + Deserializable<T, BankError>>(stream: &mut &'a [u8]) -> (r:
    Result<T, BankError>)
    ensures
        match payload_len(old(stream)@) {
            Some(_) => final(stream)@ == after_frame(old(stream)@) && match parse_whole::<T>(
                payload_of(old(stream)@),
            ) {
                Some(model) => r.is_ok() && r.unwrap().model() == model,
                None => r == Err::<T, BankError>(BankError::BadRequest),
            },
            None => r == Err::<T, BankError>(BankError::TransportError) && final(stream)@ == old(
                stream,
            )@,
        },
{
    match read_frame(stream) {
        Ok(data_buf) => read_whole::<T>(data_buf),
        Err(e) => Err(e),
    }
}

/// Whatever has an encoding is read back as it was written: the frame that `write`
/// appends for it, with anything behind it, is taken by `read` as that value, and
/// what was behind it is left.
pub proof fn lemma_read_after_write<T: Serializable + Deserializable<T, BankError>>(
    model: T::Model,
    rest: Seq<u8>,
)
    requires
        T::wire(model).is_some(),
        framed(T::wire(model).unwrap()).is_some(),
    ensures
        payload_len(framed(T::wire(model).unwrap()).unwrap() + rest).is_some(),
        parse_whole::<T>(payload_of(framed(T::wire(model).unwrap()).unwrap() + rest)) == Some(
            model,
        ),
        after_frame(framed(T::wire(model).unwrap()).unwrap() + rest) == rest,
{
    lemma_frame_round_trip(T::wire(model).unwrap(), rest);
    lemma_parse_whole_of_wire::<T>(model);
}

} // verus!

use vstd::prelude::*;
use vstd::hash_map::StringHashMap;

verus! {

/// What a client may ask of the key-value store.
#[derive(Debug, PartialEq, Eq)]
pub enum Command {
    /// Asks for the value that is stored under the key.
    Get { key: String },
    /// Stores the value under the key, in the place of what was stored there.
    Put { key: String, value: Vec<u8> },
}

/// What the key-value store answers.
#[derive(Debug, PartialEq, Eq)]
pub enum Frame {
    /// A short text.
    Simple(String),
    /// The bytes of a value.
    Bulk(Vec<u8>),
    /// Nothing: no value is stored under the key.
    Null,
}

/// The mathematical value of a [`Frame`].
pub enum FrameModel {
    Simple(Seq<char>),
    Bulk(Seq<u8>),
    Null,
}

impl View for Frame {
    type V = FrameModel;

    open spec fn view(&self) -> FrameModel {
        match self {
            Frame::Simple(text) => FrameModel::Simple(text@),
            Frame::Bulk(bytes) => FrameModel::Bulk(bytes@),
            Frame::Null => FrameModel::Null,
        }
    }
}

/// A store of values by key, held in memory.
pub struct Store {
    db: StringHashMap<Vec<u8>>,
}

impl View for Store {
    type V = Map<Seq<char>, Seq<u8>>;

    closed spec fn view(&self) -> Map<Seq<char>, Seq<u8>> {
        Map::new(|key: Seq<char>| self.db@.contains_key(key), |key: Seq<char>| self.db@[key]@)
    }
}

impl Store {
    /// The store that holds nothing.
    pub fn new() -> (r: Store)
        ensures
            r@ == Map::<Seq<char>, Seq<u8>>::empty(),
    {
        let r = Store { db: StringHashMap::new() };
        assert(r@ =~= Map::<Seq<char>, Seq<u8>>::empty());
        r
    }
}

/// Carries out one command on the store and forms the answer: `Put` stores the value
/// and is answered with `OK`; `Get` changes nothing and is answered with the bytes
/// that are stored under the key, or with `Null` where there are none.
pub fn process(store: &mut Store, cmd: Command) -> (r: Frame)
    ensures
        match cmd {
            Command::Put { key, value } => final(store)@ == old(store)@.insert(key@, value@) && r@
                == FrameModel::Simple("OK"@),
            Command::Get { key } => final(store)@ == old(store)@ && r@ == if old(
                store,
            )@.contains_key(key@) {
                FrameModel::Bulk(old(store)@[key@])
            } else {
                FrameModel::Null
            },
        },
{
    match cmd {
        Command::Put { key, value } => {
            let ghost stored = store@;
            store.db.insert(key, value);
            assert(store@ =~= stored.insert(key@, value@));
            Frame::Simple("OK".to_string())
        },
        Command::Get { key } => {
            match store.db.get(key.as_str()) {
                Some(value) => {
                    let bytes = value.clone();
                    assert(bytes@ =~= value@);
                    Frame::Bulk(bytes)
                },
                None => Frame::Null,
            }
        },
    }
}

} // verus!

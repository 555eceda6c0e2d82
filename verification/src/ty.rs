//! The id type of the content-addressed store.
use vstd::prelude::*;
use crate::text::{concat3, copy_bytes, decimal_str, hex_encode};

verus! {

broadcast use vstd::array::group_array_axioms;

/// Number of bytes of an id.
pub const ID_LEN: usize = 20;

/// 20-byte SHA-1 content-addressed id (standard git object id).
#[derive(Clone, Copy, Debug, Default, Eq, Hash, PartialEq)]
pub struct Id(pub [u8; 20]);

impl View for Id {
    type V = Seq<u8>;

    open spec fn view(&self) -> Seq<u8> {
        self.0@
    }
}

/// Ids with the same bytes are the same id.
pub broadcast proof fn id_ext(a: Id, b: Id)
    ensures
        #![trigger a@, b@]
        a@ == b@ ==> a == b,
{
    if a@ == b@ {
        assert forall|i: int| 0 <= i < 20 implies a.0[i] == b.0[i] by {
            assert(a@[i] == b@[i]);
        }
        assert(a.0 =~= b.0);
    }
}

/// A byte string that is not an id because it has the wrong length.
#[derive(Clone, Copy, Debug, PartialEq, Eq)]
pub struct IdLengthError {
    pub actual: usize,
}

impl IdLengthError {
    /// What the error says.
    pub open spec fn message(self) -> Seq<char> {
        "expected 20-byte id, got "@ + crate::text::decimal(self.actual as nat) + " bytes"@
    }

    /// The message of the error.
    pub fn to_string(&self) -> (s: String)
        ensures
            s@ == self.message(),
    {
        concat3("expected 20-byte id, got ", decimal_str(self.actual as u64).as_str(), " bytes")
    }
}

impl Id {
    /// The id of twenty bytes; any other length is refused.
    pub fn from_bytes(value: &[u8]) -> (r: Result<Id, IdLengthError>)
        ensures
            match r {
                Ok(id) => value@.len() == ID_LEN && id@ == value@,
                Err(e) => value@.len() != ID_LEN && e.actual == value@.len(),
            },
    {
        if value.len() != ID_LEN {
            return Err(IdLengthError { actual: value.len() });
        }
        let mut bytes: [u8; 20] = [0; 20];
        let mut i: usize = 0;
        while i < ID_LEN
            invariant
                i <= ID_LEN,
                value@.len() == ID_LEN,
                forall|j: int| 0 <= j < i ==> bytes@[j] == value@[j],
            decreases ID_LEN - i,
        {
            bytes[i] = value[i];
            i = i + 1;
        }
        assert(bytes@ =~= value@);
        Ok(Id(bytes))
    }

    /// The bytes of the id.
    pub fn to_vec(&self) -> (v: Vec<u8>)
        ensures
            v@ == self@,
    {
        copy_bytes(self.0.as_slice())
    }

    /// Whether two ids are the same.
    pub fn same(&self, other: &Id) -> (r: bool)
        ensures
            r == (*self == *other),
    {
        let mut i: usize = 0;
        while i < ID_LEN
            invariant
                i <= ID_LEN,
                forall|j: int| 0 <= j < i ==> self.0@[j] == other.0@[j],
            decreases ID_LEN - i,
        {
            if self.0[i] != other.0[i] {
                assert(self.0@[i as int] != other.0@[i as int]);
                return false;
            }
            i = i + 1;
        }
        proof {
            assert(self@ =~= other@);
            id_ext(*self, *other);
        }
        true
    }

    /// 40 lowercase hex digits, as git writes an object id.
    pub fn to_string(&self) -> (s: String)
        ensures
            s@ == crate::text::hex(self@),
            s@.len() == 40,
    {
        hex_encode(self.0.as_slice())
    }
}

impl vstd::std_specs::convert::FromSpecImpl<Id> for Vec<u8> {
    open spec fn obeys_from_spec() -> bool {
        false
    }

    open spec fn from_spec(v: Id) -> Vec<u8> {
        arbitrary()
    }
}

impl From<Id> for Vec<u8> {
    fn from(id: Id) -> (v: Vec<u8>)
        ensures
            v@ == id@,
    {
        id.to_vec()
    }
}

impl vstd::std_specs::convert::TryFromSpecImpl<Vec<u8>> for Id {
    open spec fn obeys_try_from_spec() -> bool {
        false
    }

    open spec fn try_from_spec(v: Vec<u8>) -> Result<Id, IdLengthError> {
        arbitrary()
    }
}

impl TryFrom<Vec<u8>> for Id {
    type Error = IdLengthError;

    fn try_from(value: Vec<u8>) -> (r: Result<Id, IdLengthError>)
        ensures
            match r {
                Ok(id) => value@.len() == ID_LEN && id@ == value@,
                Err(e) => value@.len() != ID_LEN && e.actual == value@.len(),
            },
    {
        Id::from_bytes(value.as_slice())
    }
}

/// An id is what its bytes are: turning one into bytes and back gives it again,
/// and different ids have different bytes.
pub proof fn id_bytes_round_trip(id: Id, other: Id)
    ensures
        id@.len() == ID_LEN,
        other@ == id@ ==> other == id,
{
    id_ext(id, other);
}

} // verus!

//! Object identifiers of the content-addressed store.

use crate::text::string_of;
use vstd::prelude::*;

verus! {

/// Number of bytes in an object id.
pub const OID_LEN: usize = 20;

/// The character of a hexadecimal digit, in lower case.
pub open spec fn hex_digit(nibble: int) -> char {
    if nibble < 10 {
        ((48 + nibble) as u8) as char
    } else {
        ((87 + nibble) as u8) as char
    }
}

/// The bytes written in hexadecimal digits, two for each byte.
pub open spec fn hex_of(bytes: Seq<u8>) -> Seq<char> {
    Seq::new(
        2 * bytes.len(),
        |i: int|
            if i % 2 == 0 {
                hex_digit(bytes[i / 2] as int / 16)
            } else {
                hex_digit(bytes[i / 2] as int % 16)
            },
    )
}

fn hex_char(nibble: u8) -> (c: char)
    requires
        nibble < 16,
    ensures
        c == hex_digit(nibble as int),
{
    if nibble < 10 {
        (48u8 + nibble) as char
    } else {
        (87u8 + nibble) as char
    }
}

/// The content hash that names one commit in the store.
#[derive(Clone, Copy, Debug, PartialEq, Eq, Hash)]
pub struct CommitId {
    bytes: [u8; 20],
}

impl View for CommitId {
    type V = Seq<u8>;

    closed spec fn view(&self) -> Seq<u8> {
        self.bytes@
    }
}

/// The id that has the given bytes.
pub closed spec fn id_of(bytes: Seq<u8>) -> CommitId {
    choose|id: CommitId| id@ == bytes
}

impl CommitId {
    /// An id made of the given bytes.
    pub fn from_bytes(bytes: [u8; 20]) -> (id: CommitId)
        ensures
            id@ == bytes@,
    {
        CommitId { bytes }
    }

    /// The id made of the bytes of a slice, which must be `OID_LEN` bytes.
    pub fn from_slice(bytes: &[u8]) -> (made: Option<CommitId>)
        ensures
            made is Some <==> bytes@.len() == OID_LEN,
            made is Some ==> made.unwrap()@ == bytes@ && made.unwrap() == id_of(bytes@),
    {
        if bytes.len() != 20 {
            return None;
        }
        let mut copy = [0u8;20];
        let mut i: usize = 0;
        while i < 20
            invariant
                i <= 20,
                bytes@.len() == 20,
                forall|j: int| 0 <= j < i ==> copy@[j] == bytes@[j],
            decreases 20 - i,
        {
            copy.set(i, bytes[i]);
            i += 1;
        }
        let id = CommitId { bytes: copy };
        proof {
            id.lemma_id_of();
        }
        Some(id)
    }

    /// An id is the id of its bytes.
    pub proof fn lemma_id_of(self)
        ensures
            id_of(self@) == self,
    {
        let found = id_of(self@);
        self.lemma_view(found);
    }

    /// The bytes of the id.
    pub fn as_bytes(&self) -> (bytes: &[u8; 20])
        ensures
            bytes@ == self@,
    {
        &self.bytes
    }

    /// Every id has `OID_LEN` bytes, and two ids with the same bytes are the
    /// same id.
    pub broadcast proof fn lemma_view(self, other: CommitId)
        ensures
            #[trigger] self@.len() == OID_LEN,
            (self@ == #[trigger] other@) ==> self == other,
    {
        if self@ == other@ {
            assert(self.bytes == other.bytes);
        }
    }

    /// The id in hexadecimal digits.
    pub fn to_hex(&self) -> (hex: String)
        ensures
            hex@ == hex_of(self@),
    {
        let mut out: Vec<char> = Vec::new();
        let mut i: usize = 0;
        while i < 20
            invariant
                i <= 20,
                out@.len() == 2 * i,
                forall|j: int| 0 <= j < 2 * i ==> out@[j] == hex_of(self.bytes@)[j],
            decreases 20 - i,
        {
            let byte = self.bytes[i];
            out.push(hex_char(byte / 16));
            out.push(hex_char(byte % 16));
            i += 1;
        }
        string_of(&out)
    }

    /// Whether two ids name the same object.
    pub fn same(&self, other: &CommitId) -> (equal: bool)
        ensures
            equal == (*self == *other),
            equal == (self@ == other@),
    {
        let mut i: usize = 0;
        while i < 20
            invariant
                i <= 20,
                forall|j: int| 0 <= j < i ==> self.bytes@[j] == other.bytes@[j],
            decreases 20 - i,
        {
            if self.bytes[i] != other.bytes[i] {
                return false;
            }
            i += 1;
        }
        assert(self.bytes == other.bytes);
        true
    }
}

} // verus!

use vstd::prelude::*;

verus! {

/// A record key inside one tree: a 32-bit id issued from a relay-allocated
/// range and a 32-bit revision number. The byte form is 8 bytes big-endian,
/// id first.
#[derive(Clone, Copy, PartialEq, Eq, Structural, Hash, Debug)]
pub struct GenericKey {
    pub id: u32,
    pub revision: u32,
}

/// The key as read back from its wire (archived) form. It carries the same
/// two fields; keeping the two types apart mirrors the owned/archived split
/// of every transmitted structure.
#[derive(Clone, Copy, PartialEq, Eq, Structural, Hash, Debug)]
pub struct ArchivedGenericKey {
    pub id: u32,
    pub revision: u32,
}

/// A typed key newtype bound to one tree name. Implementations promise
/// that a typed key carries exactly one generic key, so converting in and
/// out loses nothing.
pub trait TreeKey: Sized {
    /// The generic key this typed key stands for.
    spec fn spec_generic(&self) -> GenericKey;

    fn tree_name() -> &'static str;

    fn from_generic(key: GenericKey) -> (r: Self)
        ensures
            r.spec_generic() == key,
    ;

    fn to_generic(&self) -> (r: GenericKey)
        ensures
            r == self.spec_generic(),
    ;
}

/// The four big-endian bytes of a 32-bit integer.
pub open spec fn spec_u32_be(x: u32) -> Seq<u8> {
    seq![
        (x >> 24) as u8,
        ((x >> 16) & 0xff) as u8,
        ((x >> 8) & 0xff) as u8,
        (x & 0xff) as u8,
    ]
}

/// The 32-bit integer read back from four big-endian bytes.
pub open spec fn spec_u32_from_be(b0: u8, b1: u8, b2: u8, b3: u8) -> u32 {
    ((b0 as u32) << 24) | ((b1 as u32) << 16) | ((b2 as u32) << 8) | (b3 as u32)
}

/// The 8-byte big-endian form of a key: id first, then revision.
pub open spec fn spec_key_bytes(k: GenericKey) -> Seq<u8> {
    spec_u32_be(k.id) + spec_u32_be(k.revision)
}

/// The key read back from a byte string, defined exactly when the string is
/// 8 bytes long.
pub open spec fn spec_key_of_bytes(s: Seq<u8>) -> Option<GenericKey> {
    if s.len() == 8 {
        Some(
            GenericKey {
                id: spec_u32_from_be(s[0], s[1], s[2], s[3]),
                revision: spec_u32_from_be(s[4], s[5], s[6], s[7]),
            },
        )
    } else {
        None
    }
}

/// Encoding a 32-bit integer big-endian and reading it back yields the
/// integer again.
pub proof fn lemma_u32_be_roundtrip(x: u32)
    ensures
        spec_u32_from_be(
            (x >> 24) as u8,
            ((x >> 16) & 0xff) as u8,
            ((x >> 8) & 0xff) as u8,
            (x & 0xff) as u8,
        ) == x,
{
    assert((((x >> 24) as u8) as u32) << 24 | ((((x >> 16) & 0xff) as u8) as u32) << 16 | ((((x
        >> 8) & 0xff) as u8) as u32) << 8 | (((x & 0xff) as u8) as u32) == x) by (bit_vector);
}

/// The byte form of a key decodes back to the same key.
pub proof fn lemma_key_bytes_roundtrip(k: GenericKey)
    ensures
        spec_key_of_bytes(spec_key_bytes(k)) == Some(k),
{
    lemma_u32_be_roundtrip(k.id);
    lemma_u32_be_roundtrip(k.revision);
    assert(spec_key_bytes(k).len() == 8);
}

impl GenericKey {
    pub fn new(id: u32, revision: u32) -> (r: Self)
        ensures
            r == (GenericKey { id, revision }),
    {
        GenericKey { id, revision }
    }

    pub fn from_archived(a: &ArchivedGenericKey) -> (r: Self)
        ensures
            r.id == a.id,
            r.revision == a.revision,
    {
        GenericKey { id: a.id, revision: a.revision }
    }

    pub fn as_archived(&self) -> (r: ArchivedGenericKey)
        ensures
            r.id == self.id,
            r.revision == self.revision,
    {
        ArchivedGenericKey { id: self.id, revision: self.revision }
    }

    /// The key one revision below this one; defined exactly when the
    /// revision is positive.
    pub fn previous_revision(&self) -> (r: Option<Self>)
        ensures
            r is Some <==> self.revision > 0,
            self.revision > 0 ==> r == Some(
                GenericKey { id: self.id, revision: (self.revision - 1) as u32 },
            ),
    {
        if self.revision > 0 {
            Some(GenericKey { id: self.id, revision: self.revision - 1 })
        } else {
            None
        }
    }

    /// The 8-byte big-endian form, id first.
    pub fn to_bytes(&self) -> (r: [u8; 8])
        ensures
            r@ == spec_key_bytes(*self),
    {
        let id = self.id;
        let rev = self.revision;
        let r: [u8; 8] = [
            (id >> 24) as u8,
            ((id >> 16) & 0xff) as u8,
            ((id >> 8) & 0xff) as u8,
            (id & 0xff) as u8,
            (rev >> 24) as u8,
            ((rev >> 16) & 0xff) as u8,
            ((rev >> 8) & 0xff) as u8,
            (rev & 0xff) as u8,
        ];
        proof {
            assert(r@ =~= spec_key_bytes(*self));
        }
        r
    }

    /// Reads a key back from its byte form; `None` for any input whose
    /// length is not exactly 8.
    pub fn from_bytes(bytes: &[u8]) -> (r: Option<Self>)
        ensures
            r == spec_key_of_bytes(bytes@),
            r is Some <==> bytes@.len() == 8,
    {
        if bytes.len() != 8 {
            return None;
        }
        let id = u32_from_be(bytes[0], bytes[1], bytes[2], bytes[3]);
        let revision = u32_from_be(bytes[4], bytes[5], bytes[6], bytes[7]);
        Some(GenericKey { id, revision })
    }
}

/// Combines four big-endian bytes into a 32-bit integer.
fn u32_from_be(b0: u8, b1: u8, b2: u8, b3: u8) -> (r: u32)
    ensures
        r == spec_u32_from_be(b0, b1, b2, b3),
{
    ((b0 as u32) << 24) | ((b1 as u32) << 16) | ((b2 as u32) << 8) | (b3 as u32)
}

impl ArchivedGenericKey {
    pub fn as_original(&self) -> (r: GenericKey)
        ensures
            r.id == self.id,
            r.revision == self.revision,
    {
        GenericKey { id: self.id, revision: self.revision }
    }
}

} // verus!

use vstd::bytes::{
    lemma_auto_spec_u64_to_from_le_bytes, spec_u64_from_le_bytes, spec_u64_to_le_bytes,
};
use vstd::prelude::*;

verus! {

/// A type the layer can store.
///
/// An encodable value has exactly one binary encoding, and distinct
/// values never share one, so a record read back from the store decodes
/// to the value that was written.
pub trait Codec: Sized {
    /// Whether this value can be encoded at all.
    spec fn spec_encodable(&self) -> bool;

    /// The binary encoding of this value.
    spec fn spec_encoding(&self) -> Seq<u8>;

    /// Distinct values never share an encoding.
    proof fn lemma_encoding_injective(v1: Self, v2: Self)
        requires
            v1.spec_encodable(),
            v2.spec_encodable(),
            v1.spec_encoding() == v2.spec_encoding(),
        ensures
            v1 == v2,
    ;

    /// Encodes the value: the value's own encoding exactly when the
    /// value has one, and `None` exactly when it has none.
    fn encode(&self) -> (r: Option<Vec<u8>>)
        ensures
            r matches Some(b) ==> self.spec_encodable() && b@ == self.spec_encoding(),
            r is None ==> !self.spec_encodable(),
    ;

    /// Decodes a value from bytes: returns the unique value whose
    /// encoding is exactly `bytes`, or `None` when no value encodes to
    /// them.
    fn decode(bytes: &[u8]) -> (r: Option<Self>)
        ensures
            r matches Some(v) ==> v.spec_encodable() && v.spec_encoding() == bytes@,
            r is None ==> forall|v: Self|
                #[trigger] v.spec_encodable() ==> v.spec_encoding() != bytes@,
    ;
}

/// Relies on bincode::serialize with its default configuration (fixed
/// integer encoding, little endian): a u64 is written as its eight
/// little-endian bytes. Serializing a u64 into a fresh byte vector
/// cannot fail: the size computation is exact and writing to a vector
/// reports no errors, so the call always succeeds.
#[verifier::external_body]
fn bincode_encode_u64(v: &u64) -> (r: Option<Vec<u8>>)
    ensures
        r is Some,
        r matches Some(b) ==> b@ == spec_u64_to_le_bytes(*v),
{
    bincode::serialize(v).ok()
}

/// Relies on bincode::deserialize with its default configuration: a u64
/// is read back from its eight little-endian bytes, and any eight bytes
/// are the encoding of exactly one u64.
#[verifier::external_body]
fn bincode_decode_u64(bytes: &[u8]) -> (r: Option<u64>)
    requires
        bytes@.len() == 8,
    ensures
        r == Some(spec_u64_from_le_bytes(bytes@)),
{
    bincode::deserialize(bytes).ok()
}

impl Codec for u64 {
    open spec fn spec_encodable(&self) -> bool {
        true
    }

    open spec fn spec_encoding(&self) -> Seq<u8> {
        spec_u64_to_le_bytes(*self)
    }

    proof fn lemma_encoding_injective(v1: u64, v2: u64) {
        lemma_auto_spec_u64_to_from_le_bytes();
    }

    fn encode(&self) -> (r: Option<Vec<u8>>) {
        bincode_encode_u64(self)
    }

    fn decode(bytes: &[u8]) -> (r: Option<u64>) {
        proof {
            lemma_auto_spec_u64_to_from_le_bytes();
        }
        if bytes.len() == 8 {
            bincode_decode_u64(bytes)
        } else {
            None
        }
    }
}

/// A percentage record, stored as a single byte.
///
/// Values above 100 are not valid percentages: they have no encoding,
/// so writing one fails with a serialization error before anything
/// reaches the store.
#[derive(Debug, Clone, Copy, PartialEq, Eq, Structural)]
pub struct Percent {
    pub value: u8,
}

impl Codec for Percent {
    open spec fn spec_encodable(&self) -> bool {
        self.value <= 100
    }

    open spec fn spec_encoding(&self) -> Seq<u8> {
        seq![self.value]
    }

    proof fn lemma_encoding_injective(v1: Percent, v2: Percent) {
        assert(v1.spec_encoding()[0] == v1.value);
        assert(v2.spec_encoding()[0] == v2.value);
    }

    fn encode(&self) -> (r: Option<Vec<u8>>) {
        if self.value <= 100 {
            let mut b: Vec<u8> = Vec::new();
            b.push(self.value);
            proof {
                assert(b@ =~= self.spec_encoding());
            }
            Some(b)
        } else {
            None
        }
    }

    fn decode(bytes: &[u8]) -> (r: Option<Percent>) {
        if bytes.len() == 1 && bytes[0] <= 100 {
            let p = Percent { value: bytes[0] };
            proof {
                assert(p.spec_encoding() =~= bytes@);
            }
            Some(p)
        } else {
            proof {
                assert forall|v: Percent| v.spec_encodable() implies v.spec_encoding()
                    != bytes@ by {
                    assert(v.spec_encoding().len() == 1);
                    assert(v.spec_encoding()[0] == v.value);
                }
            }
            None
        }
    }
}

} // verus!

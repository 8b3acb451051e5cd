use vstd::prelude::*;
use crate::errors::Error;

verus! {

/// A value the buckets can persist: it owns an exact byte encoding.
///
/// `enc` is the mathematical image of a value; `to_bytes` and `from_bytes`
/// realise it. `from_bytes` accepts exactly the byte strings that some value
/// encodes to, so a stored value always loads back.
pub trait Codec: Sized {
    /// The byte string this value serializes to.
    spec fn enc(&self) -> Seq<u8>;

    /// Whether a byte string is the encoding of some value of this type.
    spec fn valid_enc(b: Seq<u8>) -> bool;

    /// The flat store refuses empty values, so encodings are never empty.
    proof fn lemma_enc_nonempty(&self)
        ensures
            self.enc().len() > 0,
    ;

    /// Every value's encoding is accepted back by `from_bytes`.
    proof fn lemma_enc_valid(&self)
        ensures
            Self::valid_enc(self.enc()),
    ;

    /// Serializes the value.
    fn to_bytes(&self) -> (r: Vec<u8>)
        ensures
            r@ == self.enc(),
    ;

    /// Parses a value back from stored bytes. It fails exactly on byte
    /// strings that no value of this type encodes to: corruption is
    /// surfaced, never mistaken for absence.
    fn from_bytes(b: &[u8]) -> (r: Result<Self, Error>)
        ensures
            match r {
                Ok(v) => v.enc() == b@,
                Err(e) => e == Error::Deserialize && !Self::valid_enc(b@),
            },
    ;
}

} // verus!

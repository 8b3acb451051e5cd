use vstd::prelude::*;
use crate::codec::Codec;
use crate::encoding::{
    be32_at, be64_at, extend_bytes, lemma_be32_enc_of_val, lemma_be32_val_of_enc,
    lemma_be64_enc_of_val, lemma_be64_val_of_enc, push_u32_be, push_u64_be, spec_be64_val,
    spec_u32_be, spec_u64_be, sub_bytes,
};
use crate::errors::Error;

verus! {

/// A small record type with its own exact codec: the name length in eight
/// big-endian bytes, the name bytes, then the age in four big-endian bytes.
#[derive(Clone, Debug, PartialEq, Eq)]
pub struct Person {
    pub name: Vec<u8>,
    pub age: u32,
}

/// The encoding of a record with the given name bytes and age.
pub open spec fn spec_person_enc(name: Seq<u8>, age: u32) -> Seq<u8> {
    spec_u64_be(name.len() as u64) + name + spec_u32_be(age)
}

impl Codec for Person {
    open spec fn enc(&self) -> Seq<u8> {
        spec_person_enc(self.name@, self.age)
    }

    open spec fn valid_enc(b: Seq<u8>) -> bool {
        b.len() >= 12 && spec_be64_val(b.subrange(0, 8)) as int == b.len() - 12
    }

    proof fn lemma_enc_nonempty(&self) {
    }

    proof fn lemma_enc_valid(&self) {
        vstd::std_specs::vec::axiom_spec_len(&self.name);
        let e = self.enc();
        assert(e.subrange(0, 8) =~= spec_u64_be(self.name@.len() as u64));
        lemma_be64_val_of_enc(self.name@.len() as u64);
    }

    fn to_bytes(&self) -> (r: Vec<u8>) {
        let mut r: Vec<u8> = Vec::new();
        push_u64_be(&mut r, self.name.len() as u64);
        extend_bytes(&mut r, self.name.as_slice());
        push_u32_be(&mut r, self.age);
        proof {
            assert(r@ =~= self.enc());
        }
        r
    }

    fn from_bytes(b: &[u8]) -> (r: Result<Self, Error>) {
        let n = b.len();
        if n < 12 {
            return Err(Error::Deserialize);
        }
        let l = be64_at(b, 0);
        if l != (n - 12) as u64 {
            return Err(Error::Deserialize);
        }
        let name = sub_bytes(b, 8, n - 4);
        let age = be32_at(b, n - 4);
        let p = Person { name, age };
        proof {
            lemma_be64_enc_of_val(b@.subrange(0, 8));
            lemma_be32_enc_of_val(b@.subrange(n - 4, n as int));
            assert(p.enc() =~= b@);
        }
        Ok(p)
    }
}

/// Equal encodings come from equal records: the codec loses nothing.
pub proof fn lemma_person_enc_injective(a: &Person, b: &Person)
    requires
        a.enc() == b.enc(),
    ensures
        a.name@ == b.name@,
        a.age == b.age,
{
    vstd::std_specs::vec::axiom_spec_len(&a.name);
    vstd::std_specs::vec::axiom_spec_len(&b.name);
    let ea = a.enc();
    let eb = b.enc();
    assert(ea.subrange(0, 8) =~= spec_u64_be(a.name@.len() as u64));
    assert(eb.subrange(0, 8) =~= spec_u64_be(b.name@.len() as u64));
    lemma_be64_val_of_enc(a.name@.len() as u64);
    lemma_be64_val_of_enc(b.name@.len() as u64);
    assert(a.name@.len() == b.name@.len());
    let nl = a.name@.len() as int;
    assert(ea.subrange(8, 8 + nl) =~= a.name@);
    assert(eb.subrange(8, 8 + nl) =~= b.name@);
    assert(a.name@ == b.name@);
    assert(ea.subrange(8 + nl, ea.len() as int) =~= spec_u32_be(a.age));
    assert(eb.subrange(8 + nl, eb.len() as int) =~= spec_u32_be(b.age));
    lemma_be32_val_of_enc(a.age);
    lemma_be32_val_of_enc(b.age);
}

} // verus!

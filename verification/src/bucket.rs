use vstd::prelude::*;
use core::marker::PhantomData;
use cosmwasm_std::testing::MockStorage;

use crate::codec::Codec;
use crate::encoding::concat_bytes;
use crate::errors::Error;
use crate::prefix::{
    key_prefix, key_prefix_nested, lemma_key_encode_injective, spec_key_prefix,
    spec_key_prefix_nested,
};
use crate::store::{contents, store_get, store_set};

verus! {

/// What an optional load reports of a store: `None` exactly where the flat
/// key is absent, otherwise the record stored there.
pub open spec fn opt_value_at<T: Codec>(m: Map<Seq<u8>, Seq<u8>>, k: Seq<u8>, o: Option<T>) -> bool {
    match o {
        None => !m.contains_key(k),
        Some(v) => m.contains_key(k) && v.enc() == m[k],
    }
}

/// A typed, namespaced window on a store: every operation works on the flat
/// key made of this bucket's encoded namespace chain followed by the caller's
/// key, and runs records through their codec.
pub struct Bucket<T: Codec> {
    prefix: Vec<u8>,
    data: PhantomData<T>,
}

impl<T: Codec> View for Bucket<T> {
    type V = Seq<u8>;

    closed spec fn view(&self) -> Seq<u8> {
        self.prefix@
    }
}

impl<T: Codec> Bucket<T> {
    /// A bucket over a single namespace.
    pub fn new(namespace: &[u8]) -> (b: Self)
        requires
            namespace@.len() <= 0xFFFF,
        ensures
            b@ == spec_key_prefix(namespace@),
    {
        Bucket { prefix: key_prefix(namespace), data: PhantomData }
    }

    /// A bucket over a whole namespace chain.
    pub fn multilevel(namespaces: &Vec<Vec<u8>>) -> (b: Self)
        requires
            forall|i: int| 0 <= i < namespaces@.len() ==> (#[trigger] namespaces@[i])@.len() <= 0xFFFF,
        ensures
            b@ == spec_key_prefix_nested(namespaces.deep_view()),
    {
        Bucket { prefix: key_prefix_nested(namespaces), data: PhantomData }
    }

    /// Serializes the record and writes it under the key, unconditionally.
    /// Only the resolved flat key changes.
    pub fn save(&self, storage: &mut MockStorage, key: &[u8], data: &T) -> (r: Result<(), Error>)
        ensures
            r is Ok,
            contents(*final(storage)) == contents(*old(storage)).insert(self@ + key@, data.enc()),
    {
        let bytes = data.to_bytes();
        proof {
            data.lemma_enc_nonempty();
        }
        let k = concat_bytes(self.prefix.as_slice(), key);
        store_set(storage, k.as_slice(), bytes.as_slice());
        Ok(())
    }

    /// Reads the record under the key. Fails with `NotFound` exactly where
    /// the flat key is absent, and with `Deserialize` exactly where bytes are
    /// present that no record encodes to.
    pub fn load(&self, storage: &MockStorage, key: &[u8]) -> (r: Result<T, Error>)
        ensures
            match r {
                Ok(v) => contents(*storage).contains_key(self@ + key@) && v.enc() == contents(
                    *storage,
                )[self@ + key@],
                Err(e) => (e == Error::NotFound && !contents(*storage).contains_key(self@ + key@))
                    || (e == Error::Deserialize && contents(*storage).contains_key(self@ + key@)
                    && !T::valid_enc(contents(*storage)[self@ + key@])),
            },
    {
        let k = concat_bytes(self.prefix.as_slice(), key);
        match store_get(storage, k.as_slice()) {
            None => Err(Error::NotFound),
            Some(b) => T::from_bytes(b.as_slice()),
        }
    }

    /// Reads the record under the key, reporting absence as `None` rather
    /// than as a failure. Corruption still fails.
    pub fn may_load(&self, storage: &MockStorage, key: &[u8]) -> (r: Result<Option<T>, Error>)
        ensures
            match r {
                Ok(o) => opt_value_at(contents(*storage), self@ + key@, o),
                Err(e) => e == Error::Deserialize && contents(*storage).contains_key(self@ + key@)
                    && !T::valid_enc(contents(*storage)[self@ + key@]),
            },
    {
        let k = concat_bytes(self.prefix.as_slice(), key);
        match store_get(storage, k.as_slice()) {
            None => Ok(None),
            Some(b) => match T::from_bytes(b.as_slice()) {
                Ok(v) => Ok(Some(v)),
                Err(e) => Err(e),
            },
        }
    }

    /// Loads the record under the key, applies the action, and saves the
    /// result. An absent key fails with `NotFound` before anything runs, and
    /// on any failure the store is left exactly as it was: the write happens
    /// only after the action succeeds.
    pub fn update<F: Fn(T) -> Result<T, Error>>(
        &self,
        storage: &mut MockStorage,
        key: &[u8],
        action: F,
    ) -> (r: Result<T, Error>)
        requires
            forall|x: T| #[trigger] call_requires(action, (x,)),
        ensures
            match r {
                Ok(v) => {
                    &&& contents(*old(storage)).contains_key(self@ + key@)
                    &&& exists|input: T|
                        (#[trigger] call_ensures(action, (input,), Ok(v))) && input.enc()
                            == contents(*old(storage))[self@ + key@]
                    &&& contents(*final(storage)) == contents(*old(storage)).insert(
                        self@ + key@,
                        v.enc(),
                    )
                },
                Err(e) => {
                    &&& contents(*final(storage)) == contents(*old(storage))
                    &&& ((e == Error::NotFound && !contents(*old(storage)).contains_key(
                        self@ + key@,
                    )) || (e == Error::Deserialize && contents(*old(storage)).contains_key(
                        self@ + key@,
                    ) && !T::valid_enc(contents(*old(storage))[self@ + key@])) || (exists|input: T|
                        (#[trigger] call_ensures(action, (input,), Err(e))) && contents(
                            *old(storage),
                        ).contains_key(self@ + key@) && input.enc() == contents(*old(storage))[self@
                        + key@]))
                },
            },
    {
        let input = match self.load(storage, key) {
            Ok(v) => v,
            Err(e) => {
                return Err(e);
            },
        };
        let output = match action(input) {
            Ok(v) => v,
            Err(e) => {
                return Err(e);
            },
        };
        match self.save(storage, key, &output) {
            Ok(()) => Ok(output),
            Err(e) => Err(e),
        }
    }

    /// Like `update`, but an absent key hands the action `None`, and an
    /// action result of `None` means "write nothing": the store then keeps
    /// its prior value or absence.
    pub fn may_update<F: Fn(Option<T>) -> Result<Option<T>, Error>>(
        &self,
        storage: &mut MockStorage,
        key: &[u8],
        action: F,
    ) -> (r: Result<Option<T>, Error>)
        requires
            forall|x: Option<T>| #[trigger] call_requires(action, (x,)),
        ensures
            match r {
                Ok(out) => {
                    &&& exists|input: Option<T>|
                        (#[trigger] call_ensures(action, (input,), Ok(out))) && opt_value_at(
                            contents(*old(storage)),
                            self@ + key@,
                            input,
                        )
                    &&& match out {
                        Some(v) => contents(*final(storage)) == contents(*old(storage)).insert(
                            self@ + key@,
                            v.enc(),
                        ),
                        None => contents(*final(storage)) == contents(*old(storage)),
                    }
                },
                Err(e) => {
                    &&& contents(*final(storage)) == contents(*old(storage))
                    &&& ((e == Error::Deserialize && contents(*old(storage)).contains_key(
                        self@ + key@,
                    ) && !T::valid_enc(contents(*old(storage))[self@ + key@])) || (exists|
                        input: Option<T>,
                    |
                        (#[trigger] call_ensures(action, (input,), Err(e))) && opt_value_at(
                            contents(*old(storage)),
                            self@ + key@,
                            input,
                        )))
                },
            },
    {
        let input = match self.may_load(storage, key) {
            Ok(o) => o,
            Err(e) => {
                return Err(e);
            },
        };
        let output = match action(input) {
            Ok(o) => o,
            Err(e) => {
                return Err(e);
            },
        };
        match &output {
            Some(data) => {
                match self.save(storage, key, data) {
                    Ok(()) => {},
                    Err(e) => {
                        return Err(e);
                    },
                }
            },
            None => {},
        }
        Ok(output)
    }
}

/// A read-only typed, namespaced window on a store.
pub struct ReadonlyBucket<T: Codec> {
    prefix: Vec<u8>,
    data: PhantomData<T>,
}

impl<T: Codec> View for ReadonlyBucket<T> {
    type V = Seq<u8>;

    closed spec fn view(&self) -> Seq<u8> {
        self.prefix@
    }
}

impl<T: Codec> ReadonlyBucket<T> {
    /// A read-only bucket over a single namespace.
    pub fn new(namespace: &[u8]) -> (b: Self)
        requires
            namespace@.len() <= 0xFFFF,
        ensures
            b@ == spec_key_prefix(namespace@),
    {
        ReadonlyBucket { prefix: key_prefix(namespace), data: PhantomData }
    }

    /// A read-only bucket over a whole namespace chain.
    pub fn multilevel(namespaces: &Vec<Vec<u8>>) -> (b: Self)
        requires
            forall|i: int| 0 <= i < namespaces@.len() ==> (#[trigger] namespaces@[i])@.len() <= 0xFFFF,
        ensures
            b@ == spec_key_prefix_nested(namespaces.deep_view()),
    {
        ReadonlyBucket { prefix: key_prefix_nested(namespaces), data: PhantomData }
    }

    /// Reads the record under the key; see `Bucket::load`.
    pub fn load(&self, storage: &MockStorage, key: &[u8]) -> (r: Result<T, Error>)
        ensures
            match r {
                Ok(v) => contents(*storage).contains_key(self@ + key@) && v.enc() == contents(
                    *storage,
                )[self@ + key@],
                Err(e) => (e == Error::NotFound && !contents(*storage).contains_key(self@ + key@))
                    || (e == Error::Deserialize && contents(*storage).contains_key(self@ + key@)
                    && !T::valid_enc(contents(*storage)[self@ + key@])),
            },
    {
        let k = concat_bytes(self.prefix.as_slice(), key);
        match store_get(storage, k.as_slice()) {
            None => Err(Error::NotFound),
            Some(b) => T::from_bytes(b.as_slice()),
        }
    }

    /// Reads the record under the key, reporting absence as `None`; see
    /// `Bucket::may_load`.
    pub fn may_load(&self, storage: &MockStorage, key: &[u8]) -> (r: Result<Option<T>, Error>)
        ensures
            match r {
                Ok(o) => opt_value_at(contents(*storage), self@ + key@, o),
                Err(e) => e == Error::Deserialize && contents(*storage).contains_key(self@ + key@)
                    && !T::valid_enc(contents(*storage)[self@ + key@]),
            },
    {
        let k = concat_bytes(self.prefix.as_slice(), key);
        match store_get(storage, k.as_slice()) {
            None => Ok(None),
            Some(b) => match T::from_bytes(b.as_slice()) {
                Ok(v) => Ok(Some(v)),
                Err(e) => Err(e),
            },
        }
    }
}

/// A typed bucket over one namespace.
pub fn bucket<T: Codec>(namespace: &[u8]) -> (b: Bucket<T>)
    requires
        namespace@.len() <= 0xFFFF,
    ensures
        b@ == spec_key_prefix(namespace@),
{
    Bucket::new(namespace)
}

/// A read-only typed bucket over one namespace.
pub fn bucket_read<T: Codec>(namespace: &[u8]) -> (b: ReadonlyBucket<T>)
    requires
        namespace@.len() <= 0xFFFF,
    ensures
        b@ == spec_key_prefix(namespace@),
{
    ReadonlyBucket::new(namespace)
}

/// Round trip with isolation: a save plants exactly the record's encoding
/// under its own flat key — which loads back as that record — and leaves
/// every other (namespace, key) pair exactly as it was, because distinct
/// pairs resolve to distinct flat keys.
pub proof fn lemma_save_isolated<T: Codec>(
    m: Map<Seq<u8>, Seq<u8>>,
    ns1: Seq<u8>,
    key1: Seq<u8>,
    v: T,
    ns2: Seq<u8>,
    key2: Seq<u8>,
)
    requires
        ns1.len() <= 0xFFFF,
        ns2.len() <= 0xFFFF,
    ensures
        ({
            let m1 = m.insert(spec_key_prefix(ns1) + key1, v.enc());
            &&& m1.contains_key(spec_key_prefix(ns1) + key1)
            &&& m1[spec_key_prefix(ns1) + key1] == v.enc()
            &&& T::valid_enc(v.enc())
            &&& (ns1 != ns2 || key1 != key2) ==> {
                &&& m1.contains_key(spec_key_prefix(ns2) + key2) == m.contains_key(
                    spec_key_prefix(ns2) + key2,
                )
                &&& m.contains_key(spec_key_prefix(ns2) + key2) ==> m1[spec_key_prefix(ns2)
                    + key2] == m[spec_key_prefix(ns2) + key2]
            }
        }),
{
    v.lemma_enc_valid();
    if ns1 != ns2 || key1 != key2 {
        if spec_key_prefix(ns1) + key1 == spec_key_prefix(ns2) + key2 {
            lemma_key_encode_injective(ns1, key1, ns2, key2);
        }
    }
}

} // verus!

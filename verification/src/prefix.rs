use vstd::prelude::*;
use vstd::slice::slice_index_get;
use cosmwasm_std::testing::MockStorage;

use crate::encoding::{concat_bytes, extend_bytes};
use crate::store::{contents, store_get, store_set};

verus! {

/// One namespace segment, encoded: a length byte followed by the raw bytes.
/// The length byte is what keeps distinct (namespace, key) pairs from
/// colliding on one flat key.
pub open spec fn spec_length_prefix(namespace: Seq<u8>) -> Seq<u8>
    recommends
        namespace.len() <= 255,
{
    seq![namespace.len() as u8] + namespace
}

/// A namespace chain, encoded: each segment length-prefixed, in chain order.
pub open spec fn spec_multi_length_prefix(namespaces: Seq<Seq<u8>>) -> Seq<u8>
    decreases namespaces.len(),
{
    if namespaces.len() == 0 {
        Seq::empty()
    } else {
        spec_length_prefix(namespaces[0]) + spec_multi_length_prefix(namespaces.drop_first())
    }
}

/// Nesting equivalence: encoding a chain split in two parts one after the
/// other gives the same bytes as encoding the whole chain at once, so a view
/// nested inside another view addresses exactly the keys of a single view
/// over the combined chain.
pub proof fn lemma_multi_length_prefix_concat(a: Seq<Seq<u8>>, b: Seq<Seq<u8>>)
    ensures
        spec_multi_length_prefix(a + b) == spec_multi_length_prefix(a) + spec_multi_length_prefix(b),
    decreases a.len(),
{
    if a.len() == 0 {
        assert(a + b =~= b);
        assert(spec_multi_length_prefix(a) + spec_multi_length_prefix(b) =~= spec_multi_length_prefix(b));
    } else {
        assert((a + b).drop_first() =~= a.drop_first() + b);
        lemma_multi_length_prefix_concat(a.drop_first(), b);
        assert((a + b)[0] == a[0]);
        assert(spec_multi_length_prefix(a + b) =~= spec_multi_length_prefix(a)
            + spec_multi_length_prefix(b));
    }
}

/// Injectivity at one level: equal encodings mean equal namespace and equal
/// trailing key. Without the length byte, namespace "fo" with key "obar"
/// would collide with namespace "foo" with key "bar".
pub proof fn lemma_encode_injective(ns1: Seq<u8>, key1: Seq<u8>, ns2: Seq<u8>, key2: Seq<u8>)
    requires
        ns1.len() <= 255,
        ns2.len() <= 255,
        spec_length_prefix(ns1) + key1 == spec_length_prefix(ns2) + key2,
    ensures
        ns1 == ns2,
        key1 == key2,
{
    let a = spec_length_prefix(ns1) + key1;
    let b = spec_length_prefix(ns2) + key2;
    assert(a[0] == ns1.len() as u8);
    assert(b[0] == ns2.len() as u8);
    assert(ns1.len() == ns2.len());
    assert forall|i: int| 0 <= i < ns1.len() implies ns1[i] == ns2[i] by {
        assert(a[i + 1] == ns1[i]);
        assert(b[i + 1] == ns2[i]);
    }
    assert(ns1 =~= ns2);
    assert(a.len() == b.len());
    assert(key1.len() == key2.len());
    assert forall|i: int| 0 <= i < key1.len() implies key1[i] == key2[i] by {
        assert(a[1 + ns1.len() + i] == key1[i]);
        assert(b[1 + ns2.len() + i] == key2[i]);
    }
    assert(key1 =~= key2);
}

/// Injectivity over chains of equal depth: equal encodings mean equal chains
/// and equal trailing keys. Chains of different depth can collide (a segment
/// of the deeper chain can hide inside the other's trailing key), so depth is
/// part of a chain's identity.
pub proof fn lemma_encode_chain_injective(c1: Seq<Seq<u8>>, key1: Seq<u8>, c2: Seq<Seq<u8>>, key2: Seq<u8>)
    requires
        c1.len() == c2.len(),
        forall|i: int| 0 <= i < c1.len() ==> (#[trigger] c1[i]).len() <= 255,
        forall|i: int| 0 <= i < c2.len() ==> (#[trigger] c2[i]).len() <= 255,
        spec_multi_length_prefix(c1) + key1 == spec_multi_length_prefix(c2) + key2,
    ensures
        c1 == c2,
        key1 == key2,
    decreases c1.len(),
{
    if c1.len() == 0 {
        assert(spec_multi_length_prefix(c1) + key1 =~= key1);
        assert(spec_multi_length_prefix(c2) + key2 =~= key2);
        assert(c1 =~= c2);
    } else {
        let t1 = spec_multi_length_prefix(c1.drop_first()) + key1;
        let t2 = spec_multi_length_prefix(c2.drop_first()) + key2;
        assert(spec_length_prefix(c1[0]) + t1 =~= spec_multi_length_prefix(c1) + key1);
        assert(spec_length_prefix(c2[0]) + t2 =~= spec_multi_length_prefix(c2) + key2);
        lemma_encode_injective(c1[0], t1, c2[0], t2);
        lemma_encode_chain_injective(c1.drop_first(), key1, c2.drop_first(), key2);
        assert forall|i: int| 0 <= i < c1.len() implies c1[i] == c2[i] by {
            if i > 0 {
                assert(c1[i] == c1.drop_first()[i - 1]);
                assert(c2[i] == c2.drop_first()[i - 1]);
            }
        }
        assert(c1 =~= c2);
    }
}

/// Encodes one namespace segment: its length in one byte, then its bytes.
pub fn length_prefix(namespace: &[u8]) -> (r: Vec<u8>)
    requires
        namespace@.len() <= 255,
    ensures
        r@ == spec_length_prefix(namespace@),
{
    let len: usize = namespace.len();
    let mut r: Vec<u8> = Vec::new();
    r.push(len as u8);
    extend_bytes(&mut r, namespace);
    proof {
        assert(r@ =~= spec_length_prefix(namespace@));
    }
    r
}

/// Encodes a namespace chain: each segment length-prefixed, in order.
pub fn multi_length_prefix(namespaces: &Vec<Vec<u8>>) -> (r: Vec<u8>)
    requires
        forall|i: int| 0 <= i < namespaces@.len() ==> (#[trigger] namespaces@[i])@.len() <= 255,
    ensures
        r@ == spec_multi_length_prefix(namespaces.deep_view()),
{
    let ghost dv = namespaces.deep_view();
    proof {
        assert forall|i: int| 0 <= i < dv.len() implies (#[trigger] dv[i]).len() <= 255 by {
            assert(dv[i] =~= namespaces@[i]@);
        }
    }
    let sl: &[Vec<u8>] = namespaces.as_slice();
    let mut r: Vec<u8> = Vec::new();
    let mut i: usize = 0;
    while i < sl.len()
        invariant
            sl@ == namespaces@,
            dv == namespaces.deep_view(),
            dv.len() == namespaces@.len(),
            forall|j: int| 0 <= j < namespaces@.len() ==> (#[trigger] namespaces@[j])@.len() <= 255,
            i <= namespaces@.len(),
            r@ == spec_multi_length_prefix(dv.take(i as int)),
        decreases namespaces@.len() - i,
    {
        let ns: &Vec<u8> = slice_index_get(sl, i);
        proof {
            assert(dv[i as int] =~= ns@);
        }
        let p = length_prefix(ns.as_slice());
        extend_bytes(&mut r, p.as_slice());
        proof {
            lemma_multi_length_prefix_concat(dv.take(i as int), seq![dv[i as int]]);
            let s1 = seq![dv[i as int]];
            assert(s1.len() == 1 && s1[0] == dv[i as int]);
            assert(s1.drop_first() =~= Seq::<Seq<u8>>::empty());
            assert(spec_multi_length_prefix(s1.drop_first()) == Seq::<u8>::empty());
            assert(spec_multi_length_prefix(s1) == spec_length_prefix(s1[0])
                + spec_multi_length_prefix(s1.drop_first()));
            assert(spec_multi_length_prefix(s1) =~= spec_length_prefix(dv[i as int]));
            assert(dv.take(i as int) + seq![dv[i as int]] =~= dv.take(i as int + 1));
        }
        i = i + 1;
    }
    proof {
        assert(dv.take(dv.len() as int) =~= dv);
    }
    r
}

/// A read-only window on a store, scoped to one namespace chain. It holds
/// only the encoded prefix; each read takes the store it applies to.
pub struct ReadonlyPrefixedStorage {
    prefix: Vec<u8>,
}

impl View for ReadonlyPrefixedStorage {
    type V = Seq<u8>;

    closed spec fn view(&self) -> Seq<u8> {
        self.prefix@
    }
}

impl ReadonlyPrefixedStorage {
    /// A view over a single namespace.
    pub fn new(namespace: &[u8]) -> (s: Self)
        requires
            namespace@.len() <= 255,
        ensures
            s@ == spec_length_prefix(namespace@),
    {
        ReadonlyPrefixedStorage { prefix: length_prefix(namespace) }
    }

    /// A view over a whole namespace chain at once.
    pub fn multilevel(namespaces: &Vec<Vec<u8>>) -> (s: Self)
        requires
            forall|i: int| 0 <= i < namespaces@.len() ==> (#[trigger] namespaces@[i])@.len() <= 255,
        ensures
            s@ == spec_multi_length_prefix(namespaces.deep_view()),
    {
        ReadonlyPrefixedStorage { prefix: multi_length_prefix(namespaces) }
    }

    /// A view one namespace deeper. By nesting equivalence this addresses the
    /// same keys as a multilevel view over the extended chain.
    pub fn nested(&self, namespace: &[u8]) -> (s: Self)
        requires
            namespace@.len() <= 255,
        ensures
            s@ == self@ + spec_length_prefix(namespace@),
    {
        let p = length_prefix(namespace);
        ReadonlyPrefixedStorage { prefix: concat_bytes(self.prefix.as_slice(), p.as_slice()) }
    }

    /// Reads the value under the caller's key, inside this view's namespace.
    pub fn get(&self, storage: &MockStorage, key: &[u8]) -> (r: Option<Vec<u8>>)
        ensures
            match r {
                Some(v) => contents(*storage).contains_key(self@ + key@) && v@ == contents(
                    *storage,
                )[self@ + key@],
                None => !contents(*storage).contains_key(self@ + key@),
            },
    {
        let k = concat_bytes(self.prefix.as_slice(), key);
        store_get(storage, k.as_slice())
    }
}

/// A read-write window on a store, scoped to one namespace chain. It holds
/// only the encoded prefix; each read or write takes the store it applies to.
pub struct PrefixedStorage {
    prefix: Vec<u8>,
}

impl View for PrefixedStorage {
    type V = Seq<u8>;

    closed spec fn view(&self) -> Seq<u8> {
        self.prefix@
    }
}

impl PrefixedStorage {
    /// A view over a single namespace.
    pub fn new(namespace: &[u8]) -> (s: Self)
        requires
            namespace@.len() <= 255,
        ensures
            s@ == spec_length_prefix(namespace@),
    {
        PrefixedStorage { prefix: length_prefix(namespace) }
    }

    /// A view over a whole namespace chain at once.
    pub fn multilevel(namespaces: &Vec<Vec<u8>>) -> (s: Self)
        requires
            forall|i: int| 0 <= i < namespaces@.len() ==> (#[trigger] namespaces@[i])@.len() <= 255,
        ensures
            s@ == spec_multi_length_prefix(namespaces.deep_view()),
    {
        PrefixedStorage { prefix: multi_length_prefix(namespaces) }
    }

    /// A view one namespace deeper. By nesting equivalence this addresses the
    /// same keys as a multilevel view over the extended chain.
    pub fn nested(&self, namespace: &[u8]) -> (s: Self)
        requires
            namespace@.len() <= 255,
        ensures
            s@ == self@ + spec_length_prefix(namespace@),
    {
        let p = length_prefix(namespace);
        PrefixedStorage { prefix: concat_bytes(self.prefix.as_slice(), p.as_slice()) }
    }

    /// Reads the value under the caller's key, inside this view's namespace.
    pub fn get(&self, storage: &MockStorage, key: &[u8]) -> (r: Option<Vec<u8>>)
        ensures
            match r {
                Some(v) => contents(*storage).contains_key(self@ + key@) && v@ == contents(
                    *storage,
                )[self@ + key@],
                None => !contents(*storage).contains_key(self@ + key@),
            },
    {
        let k = concat_bytes(self.prefix.as_slice(), key);
        store_get(storage, k.as_slice())
    }

    /// Writes the value under the caller's key, inside this view's namespace.
    /// Nothing outside the flat key it resolves to is touched.
    pub fn set(&self, storage: &mut MockStorage, key: &[u8], value: &[u8])
        requires
            value@.len() > 0,
        ensures
            contents(*final(storage)) == contents(*old(storage)).insert(self@ + key@, value@),
    {
        let k = concat_bytes(self.prefix.as_slice(), key);
        store_set(storage, k.as_slice(), value);
    }
}

/// A read-only view over one namespace.
pub fn prefixed_ro(prefix: &[u8]) -> (s: ReadonlyPrefixedStorage)
    requires
        prefix@.len() <= 255,
    ensures
        s@ == spec_length_prefix(prefix@),
{
    ReadonlyPrefixedStorage::new(prefix)
}

/// A read-write view over one namespace.
pub fn prefixed(prefix: &[u8]) -> (s: PrefixedStorage)
    requires
        prefix@.len() <= 255,
    ensures
        s@ == spec_length_prefix(prefix@),
{
    PrefixedStorage::new(prefix)
}

/// One namespace segment as the typed layers encode it: two big-endian
/// length bytes, then the raw bytes. The views above use the one-byte form;
/// buckets and indexes use this wider one.
pub open spec fn spec_key_prefix(namespace: Seq<u8>) -> Seq<u8>
    recommends
        namespace.len() <= 0xFFFF,
{
    seq![(namespace.len() / 256) as u8, (namespace.len() % 256) as u8] + namespace
}

/// A namespace chain as the typed layers encode it.
pub open spec fn spec_key_prefix_nested(namespaces: Seq<Seq<u8>>) -> Seq<u8>
    decreases namespaces.len(),
{
    if namespaces.len() == 0 {
        Seq::empty()
    } else {
        spec_key_prefix(namespaces[0]) + spec_key_prefix_nested(namespaces.drop_first())
    }
}

/// Injectivity of the two-byte form: equal encodings mean equal namespace
/// and equal trailing key.
pub proof fn lemma_key_encode_injective(ns1: Seq<u8>, key1: Seq<u8>, ns2: Seq<u8>, key2: Seq<u8>)
    requires
        ns1.len() <= 0xFFFF,
        ns2.len() <= 0xFFFF,
        spec_key_prefix(ns1) + key1 == spec_key_prefix(ns2) + key2,
    ensures
        ns1 == ns2,
        key1 == key2,
{
    let a = spec_key_prefix(ns1) + key1;
    let b = spec_key_prefix(ns2) + key2;
    assert(a[0] == (ns1.len() / 256) as u8 && a[1] == (ns1.len() % 256) as u8);
    assert(b[0] == (ns2.len() / 256) as u8 && b[1] == (ns2.len() % 256) as u8);
    vstd::arithmetic::div_mod::lemma_fundamental_div_mod(ns1.len() as int, 256);
    vstd::arithmetic::div_mod::lemma_fundamental_div_mod(ns2.len() as int, 256);
    assert(ns1.len() == ns2.len());
    assert forall|i: int| 0 <= i < ns1.len() implies ns1[i] == ns2[i] by {
        assert(a[i + 2] == ns1[i]);
        assert(b[i + 2] == ns2[i]);
    }
    assert(ns1 =~= ns2);
    assert(a.len() == b.len());
    assert(key1.len() == key2.len());
    assert forall|i: int| 0 <= i < key1.len() implies key1[i] == key2[i] by {
        assert(a[2 + ns1.len() + i] == key1[i]);
        assert(b[2 + ns2.len() + i] == key2[i]);
    }
    assert(key1 =~= key2);
}

/// Splitting a chain splits its two-byte encoding: the nesting equivalence
/// of the typed layers.
pub proof fn lemma_key_prefix_nested_concat(a: Seq<Seq<u8>>, b: Seq<Seq<u8>>)
    ensures
        spec_key_prefix_nested(a + b) == spec_key_prefix_nested(a) + spec_key_prefix_nested(b),
    decreases a.len(),
{
    if a.len() == 0 {
        assert(a + b =~= b);
        assert(spec_key_prefix_nested(a) + spec_key_prefix_nested(b) =~= spec_key_prefix_nested(b));
    } else {
        assert((a + b).drop_first() =~= a.drop_first() + b);
        lemma_key_prefix_nested_concat(a.drop_first(), b);
        assert((a + b)[0] == a[0]);
        assert(spec_key_prefix_nested(a + b) =~= spec_key_prefix_nested(a)
            + spec_key_prefix_nested(b));
    }
}

/// Injectivity of the two-byte form over chains of equal depth.
pub proof fn lemma_key_encode_chain_injective(
    c1: Seq<Seq<u8>>,
    key1: Seq<u8>,
    c2: Seq<Seq<u8>>,
    key2: Seq<u8>,
)
    requires
        c1.len() == c2.len(),
        forall|i: int| 0 <= i < c1.len() ==> (#[trigger] c1[i]).len() <= 0xFFFF,
        forall|i: int| 0 <= i < c2.len() ==> (#[trigger] c2[i]).len() <= 0xFFFF,
        spec_key_prefix_nested(c1) + key1 == spec_key_prefix_nested(c2) + key2,
    ensures
        c1 == c2,
        key1 == key2,
    decreases c1.len(),
{
    if c1.len() == 0 {
        assert(spec_key_prefix_nested(c1) + key1 =~= key1);
        assert(spec_key_prefix_nested(c2) + key2 =~= key2);
        assert(c1 =~= c2);
    } else {
        let t1 = spec_key_prefix_nested(c1.drop_first()) + key1;
        let t2 = spec_key_prefix_nested(c2.drop_first()) + key2;
        assert(spec_key_prefix(c1[0]) + t1 =~= spec_key_prefix_nested(c1) + key1);
        assert(spec_key_prefix(c2[0]) + t2 =~= spec_key_prefix_nested(c2) + key2);
        lemma_key_encode_injective(c1[0], t1, c2[0], t2);
        lemma_key_encode_chain_injective(c1.drop_first(), key1, c2.drop_first(), key2);
        assert forall|i: int| 0 <= i < c1.len() implies c1[i] == c2[i] by {
            if i > 0 {
                assert(c1[i] == c1.drop_first()[i - 1]);
                assert(c2[i] == c2.drop_first()[i - 1]);
            }
        }
        assert(c1 =~= c2);
    }
}

/// Encodes one namespace segment with two big-endian length bytes.
pub fn key_prefix(namespace: &[u8]) -> (r: Vec<u8>)
    requires
        namespace@.len() <= 0xFFFF,
    ensures
        r@ == spec_key_prefix(namespace@),
{
    let len: usize = namespace.len();
    let mut r: Vec<u8> = Vec::new();
    r.push((len / 256) as u8);
    r.push((len % 256) as u8);
    extend_bytes(&mut r, namespace);
    proof {
        assert(r@ =~= spec_key_prefix(namespace@));
    }
    r
}

/// Encodes a namespace chain with two length bytes per segment.
pub fn key_prefix_nested(namespaces: &Vec<Vec<u8>>) -> (r: Vec<u8>)
    requires
        forall|i: int| 0 <= i < namespaces@.len() ==> (#[trigger] namespaces@[i])@.len() <= 0xFFFF,
    ensures
        r@ == spec_key_prefix_nested(namespaces.deep_view()),
{
    let ghost dv = namespaces.deep_view();
    proof {
        assert forall|i: int| 0 <= i < dv.len() implies (#[trigger] dv[i]).len() <= 0xFFFF by {
            assert(dv[i] =~= namespaces@[i]@);
        }
    }
    let sl: &[Vec<u8>] = namespaces.as_slice();
    let mut r: Vec<u8> = Vec::new();
    let mut i: usize = 0;
    while i < sl.len()
        invariant
            sl@ == namespaces@,
            dv == namespaces.deep_view(),
            dv.len() == namespaces@.len(),
            forall|j: int| 0 <= j < namespaces@.len() ==> (#[trigger] namespaces@[j])@.len() <= 0xFFFF,
            i <= namespaces@.len(),
            r@ == spec_key_prefix_nested(dv.take(i as int)),
        decreases namespaces@.len() - i,
    {
        let ns: &Vec<u8> = slice_index_get(sl, i);
        proof {
            assert(dv[i as int] =~= ns@);
        }
        let p = key_prefix(ns.as_slice());
        extend_bytes(&mut r, p.as_slice());
        proof {
            lemma_key_prefix_nested_concat(dv.take(i as int), seq![dv[i as int]]);
            let s1 = seq![dv[i as int]];
            assert(s1.len() == 1 && s1[0] == dv[i as int]);
            assert(s1.drop_first() =~= Seq::<Seq<u8>>::empty());
            assert(spec_key_prefix_nested(s1.drop_first()) == Seq::<u8>::empty());
            assert(spec_key_prefix_nested(s1) == spec_key_prefix(s1[0])
                + spec_key_prefix_nested(s1.drop_first()));
            assert(spec_key_prefix_nested(s1) =~= spec_key_prefix(dv[i as int]));
            assert(dv.take(i as int) + seq![dv[i as int]] =~= dv.take(i as int + 1));
        }
        i = i + 1;
    }
    proof {
        assert(dv.take(dv.len() as int) =~= dv);
    }
    r
}

} // verus!

use vstd::prelude::*;
use core::marker::PhantomData;
use cosmwasm_std::testing::MockStorage;
use vstd::slice::slice_index_get;

use crate::bucket::opt_value_at;
use crate::codec::Codec;
use crate::encoding::{
    be64_at, bytes_eq, concat_bytes, extend_bytes, lemma_be64_enc_of_val, lemma_be64_val_of_enc,
    push_u64_be, spec_be64_val, spec_u64_be, sub_bytes,
};
use crate::errors::Error;
use crate::prefix::{key_prefix, spec_key_prefix};
use crate::store::{contents, store_get, store_set};

verus! {

/// The persisted shape of one index entry: all primary keys currently mapped
/// to one index value. Stored under the flat key made of the index's
/// namespace and that index value.
#[derive(Clone, Debug, PartialEq, Eq)]
pub struct IndexEntry {
    pub refs: Vec<Vec<u8>>,
}

/// The marker byte that opens every stored index entry, so that even an
/// entry with no keys left is a non-empty byte string (the store refuses
/// empty values; entries are emptied, never deleted).
pub open spec fn entry_tag() -> u8 {
    1
}

/// The primary keys of an entry, encoded: each length-prefixed with eight
/// big-endian bytes, in order.
pub open spec fn spec_enc_refs(rs: Seq<Seq<u8>>) -> Seq<u8>
    decreases rs.len(),
{
    if rs.len() == 0 {
        Seq::empty()
    } else {
        spec_u64_be(rs[0].len() as u64) + rs[0] + spec_enc_refs(rs.drop_first())
    }
}

/// Greedy decode of length-prefixed primary keys, to the end of the bytes.
pub open spec fn spec_dec_refs(b: Seq<u8>) -> Option<Seq<Seq<u8>>>
    decreases b.len(),
{
    if b.len() == 0 {
        Some(Seq::empty())
    } else if b.len() < 8 {
        None
    } else {
        let l = spec_be64_val(b.subrange(0, 8)) as int;
        if b.len() < 8 + l {
            None
        } else {
            match spec_dec_refs(b.skip(8 + l)) {
                Some(rest) => Some(seq![b.subrange(8, 8 + l)] + rest),
                None => None,
            }
        }
    }
}

/// A whole entry, encoded: the marker byte, then the keys.
pub open spec fn spec_entry_enc(rs: Seq<Seq<u8>>) -> Seq<u8> {
    seq![entry_tag()] + spec_enc_refs(rs)
}

/// A whole entry, decoded.
pub open spec fn spec_entry_dec(b: Seq<u8>) -> Option<Seq<Seq<u8>>> {
    if b.len() >= 1 && b[0] == entry_tag() {
        spec_dec_refs(b.skip(1))
    } else {
        None
    }
}

/// Whether every key of the sequence fits its eight-byte length prefix.
pub open spec fn wf_refs(rs: Seq<Seq<u8>>) -> bool {
    forall|i: int| 0 <= i < rs.len() ==> (#[trigger] rs[i]).len() <= u64::MAX
}

/// Encoding a well-formed key sequence and decoding it gives it back.
pub proof fn lemma_dec_refs_of_enc(rs: Seq<Seq<u8>>)
    requires
        wf_refs(rs),
    ensures
        spec_dec_refs(spec_enc_refs(rs)) == Some(rs),
    decreases rs.len(),
{
    if rs.len() == 0 {
        assert(spec_enc_refs(rs).len() == 0);
        assert(Seq::<Seq<u8>>::empty() =~= rs);
    } else {
        let e = spec_enc_refs(rs);
        let l = rs[0].len() as int;
        lemma_be64_val_of_enc(rs[0].len() as u64);
        assert(e.subrange(0, 8) =~= spec_u64_be(rs[0].len() as u64));
        assert(e.subrange(8, 8 + l) =~= rs[0]);
        assert(e.skip(8 + l) =~= spec_enc_refs(rs.drop_first()));
        lemma_dec_refs_of_enc(rs.drop_first());
        assert(seq![rs[0]] + rs.drop_first() =~= rs);
    }
}

/// Decoded key sequences are well formed: each key's length fits eight bytes.
pub proof fn lemma_dec_refs_wf(b: Seq<u8>)
    requires
        spec_dec_refs(b) is Some,
    ensures
        wf_refs(spec_dec_refs(b).unwrap()),
    decreases b.len(),
{
    if b.len() == 0 {
    } else {
        let l = spec_be64_val(b.subrange(0, 8)) as int;
        lemma_dec_refs_wf(b.skip(8 + l));
        let rest = spec_dec_refs(b.skip(8 + l)).unwrap();
        let rs = spec_dec_refs(b).unwrap();
        assert(rs == seq![b.subrange(8, 8 + l)] + rest);
        assert forall|i: int| 0 <= i < rs.len() implies (#[trigger] rs[i]).len() <= u64::MAX by {
            if i > 0 {
                assert(rs[i] == rest[i - 1]);
            }
        }
    }
}

/// Encoding a whole well-formed entry and decoding it gives it back.
pub proof fn lemma_entry_dec_of_enc(rs: Seq<Seq<u8>>)
    requires
        wf_refs(rs),
    ensures
        spec_entry_dec(spec_entry_enc(rs)) == Some(rs),
{
    let e = spec_entry_enc(rs);
    assert(e[0] == entry_tag());
    assert(e.skip(1) =~= spec_enc_refs(rs));
    lemma_dec_refs_of_enc(rs);
}

/// Appending one key extends the encoding by that key's length prefix and bytes.
pub proof fn lemma_enc_refs_push(rs: Seq<Seq<u8>>, x: Seq<u8>)
    ensures
        spec_enc_refs(rs.push(x)) == spec_enc_refs(rs) + spec_u64_be(x.len() as u64) + x,
    decreases rs.len(),
{
    if rs.len() == 0 {
        assert(rs.push(x)[0] == x);
        assert(rs.push(x).drop_first() =~= Seq::<Seq<u8>>::empty());
        assert(spec_enc_refs(Seq::<Seq<u8>>::empty()) == Seq::<u8>::empty());
        assert(spec_enc_refs(rs) == Seq::<u8>::empty());
        assert(spec_enc_refs(rs.push(x)) =~= spec_enc_refs(rs) + spec_u64_be(x.len() as u64) + x);
    } else {
        assert(rs.push(x).drop_first() =~= rs.drop_first().push(x));
        assert(rs.push(x)[0] == rs[0]);
        lemma_enc_refs_push(rs.drop_first(), x);
        assert(spec_enc_refs(rs.push(x)) =~= spec_enc_refs(rs) + spec_u64_be(x.len() as u64) + x);
    }
}

/// The key sequence with every occurrence of one primary key taken out.
pub open spec fn remove_all(rs: Seq<Seq<u8>>, pk: Seq<u8>) -> Seq<Seq<u8>>
    decreases rs.len(),
{
    if rs.len() == 0 {
        Seq::empty()
    } else if rs[0] == pk {
        remove_all(rs.drop_first(), pk)
    } else {
        seq![rs[0]] + remove_all(rs.drop_first(), pk)
    }
}

/// How often one primary key occurs in a key sequence.
pub open spec fn count_of(rs: Seq<Seq<u8>>, pk: Seq<u8>) -> nat
    decreases rs.len(),
{
    if rs.len() == 0 {
        0
    } else {
        (if rs[0] == pk {
            1nat
        } else {
            0nat
        }) + count_of(rs.drop_first(), pk)
    }
}

/// Removal commutes with appending a key at the end.
pub proof fn lemma_remove_all_push(rs: Seq<Seq<u8>>, x: Seq<u8>, pk: Seq<u8>)
    ensures
        remove_all(rs.push(x), pk) == if x == pk {
            remove_all(rs, pk)
        } else {
            remove_all(rs, pk).push(x)
        },
    decreases rs.len(),
{
    if rs.len() == 0 {
        assert(rs.push(x)[0] == x);
        assert(rs.push(x).drop_first() =~= Seq::<Seq<u8>>::empty());
        assert(remove_all(Seq::<Seq<u8>>::empty(), pk) == Seq::<Seq<u8>>::empty());
        assert(remove_all(rs, pk) == Seq::<Seq<u8>>::empty());
        if x == pk {
            assert(remove_all(rs.push(x), pk) =~= remove_all(rs, pk));
        } else {
            assert(remove_all(rs.push(x), pk) =~= remove_all(rs, pk).push(x));
        }
    } else {
        assert(rs.push(x)[0] == rs[0]);
        assert(rs.push(x).drop_first() =~= rs.drop_first().push(x));
        lemma_remove_all_push(rs.drop_first(), x, pk);
        if x == pk {
            assert(remove_all(rs.push(x), pk) =~= remove_all(rs, pk));
        } else {
            assert(remove_all(rs.push(x), pk) =~= remove_all(rs, pk).push(x));
        }
    }
}

/// After removal, the primary key occurs nowhere.
pub proof fn lemma_count_remove_all(rs: Seq<Seq<u8>>, pk: Seq<u8>)
    ensures
        count_of(remove_all(rs, pk), pk) == 0,
    decreases rs.len(),
{
    if rs.len() == 0 {
    } else {
        lemma_count_remove_all(rs.drop_first(), pk);
        if rs[0] != pk {
            let tail = remove_all(rs.drop_first(), pk);
            assert((seq![rs[0]] + tail).drop_first() =~= tail);
        }
    }
}

/// Removal keeps every key well formed.
pub proof fn lemma_remove_all_wf(rs: Seq<Seq<u8>>, pk: Seq<u8>)
    requires
        wf_refs(rs),
    ensures
        wf_refs(remove_all(rs, pk)),
    decreases rs.len(),
{
    if rs.len() == 0 {
    } else {
        assert(wf_refs(rs.drop_first()));
        lemma_remove_all_wf(rs.drop_first(), pk);
        if rs[0] != pk {
            let tail = remove_all(rs.drop_first(), pk);
            let whole = seq![rs[0]] + tail;
            assert forall|i: int| 0 <= i < whole.len() implies (#[trigger] whole[i]).len()
                <= u64::MAX by {
                if i > 0 {
                    assert(whole[i] == tail[i - 1]);
                }
            }
        }
    }
}

/// Appending a key raises its own count by one and no other's.
pub proof fn lemma_count_push(rs: Seq<Seq<u8>>, x: Seq<u8>, pk: Seq<u8>)
    ensures
        count_of(rs.push(x), pk) == count_of(rs, pk) + (if x == pk {
            1nat
        } else {
            0nat
        }),
    decreases rs.len(),
{
    if rs.len() == 0 {
        assert(rs.push(x)[0] == x);
        assert(rs.push(x).drop_first() =~= Seq::<Seq<u8>>::empty());
        assert(count_of(Seq::<Seq<u8>>::empty(), pk) == 0);
        assert(count_of(rs, pk) == 0);
    } else {
        assert(rs.push(x)[0] == rs[0]);
        assert(rs.push(x).drop_first() =~= rs.drop_first().push(x));
        lemma_count_push(rs.drop_first(), x, pk);
    }
}

/// Seals a finished greedy parse: the keys collected while walking to the
/// end of the bytes re-encode to exactly the input.
proof fn lemma_parse_finish(b: Seq<u8>, off: int, dv: Seq<Seq<u8>>)
    requires
        b.len() >= 1,
        b[0] == entry_tag(),
        off == b.len(),
        spec_enc_refs(dv) == b.subrange(1, off),
    ensures
        spec_entry_enc(dv) == b,
{
    assert(spec_entry_enc(dv) =~= b);
}

impl Codec for IndexEntry {
    open spec fn enc(&self) -> Seq<u8> {
        spec_entry_enc(self.refs.deep_view())
    }

    open spec fn valid_enc(b: Seq<u8>) -> bool {
        spec_entry_dec(b) is Some
    }

    proof fn lemma_enc_nonempty(&self) {
    }

    proof fn lemma_enc_valid(&self) {
        let dv = self.refs.deep_view();
        assert forall|i: int| 0 <= i < dv.len() implies (#[trigger] dv[i]).len() <= u64::MAX by {
            vstd::std_specs::vec::axiom_spec_len(&self.refs@[i]);
            assert(dv[i] =~= self.refs@[i]@);
        }
        lemma_entry_dec_of_enc(dv);
    }

    fn to_bytes(&self) -> (r: Vec<u8>) {
        let ghost dv = self.refs.deep_view();
        let mut r: Vec<u8> = Vec::new();
        r.push(1u8);
        let sl: &[Vec<u8>] = self.refs.as_slice();
        let mut i: usize = 0;
        while i < sl.len()
            invariant
                sl@ == self.refs@,
                dv == self.refs.deep_view(),
                dv.len() == self.refs@.len(),
                i <= dv.len(),
                r@ == seq![entry_tag()] + spec_enc_refs(dv.take(i as int)),
            decreases dv.len() - i,
        {
            let one: &Vec<u8> = slice_index_get(sl, i);
            proof {
                assert(dv[i as int] =~= one@);
            }
            push_u64_be(&mut r, one.len() as u64);
            extend_bytes(&mut r, one.as_slice());
            proof {
                lemma_enc_refs_push(dv.take(i as int), dv[i as int]);
                assert(dv.take(i as int).push(dv[i as int]) =~= dv.take(i as int + 1));
                assert(r@ =~= seq![entry_tag()] + spec_enc_refs(dv.take(i as int + 1)));
            }
            i = i + 1;
        }
        proof {
            assert(dv.take(dv.len() as int) =~= dv);
        }
        r
    }

    #[verifier::rlimit(100)]
    fn from_bytes(b: &[u8]) -> (r: Result<Self, Error>) {
        let n = b.len();
        if n == 0 || *slice_index_get(b, 0) != 1u8 {
            return Err(Error::Deserialize);
        }
        let mut refs: Vec<Vec<u8>> = Vec::new();
        let mut off: usize = 1;
        proof {
            assert(refs.deep_view() =~= Seq::<Seq<u8>>::empty());
            assert(b@.subrange(1, 1) =~= spec_enc_refs(refs.deep_view()));
        }
        while off < n
            invariant
                n == b@.len(),
                1 <= off <= n,
                b@[0] == entry_tag(),
                spec_enc_refs(refs.deep_view()) == b@.subrange(1, off as int),
                spec_dec_refs(b@.skip(off as int)) is None ==> spec_dec_refs(b@.skip(1)) is None,
            decreases n - off,
        {
            let ghost dv = refs.deep_view();
            let ghost tail = b@.skip(off as int);
            if n - off < 8 {
                proof {
                    assert(tail.len() == n - off);
                    assert(spec_dec_refs(tail) is None);
                }
                return Err(Error::Deserialize);
            }
            let l = be64_at(b, off);
            proof {
                assert(tail.subrange(0, 8) =~= b@.subrange(off as int, off as int + 8));
            }
            if l > (n - off - 8) as u64 {
                proof {
                    assert(spec_dec_refs(tail) is None);
                }
                return Err(Error::Deserialize);
            }
            let lu = l as usize;
            let item = sub_bytes(b, off + 8, off + 8 + lu);
            proof {
                assert(item@ =~= tail.subrange(8, 8 + l as int));
                assert(tail.skip(8 + l as int) =~= b@.skip(off as int + 8 + l as int));
                lemma_be64_enc_of_val(b@.subrange(off as int, off as int + 8));
            }
            refs.push(item);
            proof {
                assert(item.deep_view() =~= item@);
                assert(refs.deep_view() =~~= dv.push(item@));
                assert(item@.len() == l as int);
                assert(spec_u64_be(item@.len() as u64) == b@.subrange(off as int, off as int + 8));
                lemma_enc_refs_push(dv, item@);
                assert(spec_enc_refs(refs.deep_view()) =~= b@.subrange(1, off as int + 8 + l as int));
                if spec_dec_refs(b@.skip(off as int + 8 + l as int)) is None {
                    assert(spec_dec_refs(tail) is None);
                }
            }
            off = off + 8 + lu;
        }
        let entry = IndexEntry { refs };
        proof {
            lemma_parse_finish(b@, off as int, entry.refs.deep_view());
        }
        Ok(entry)
    }
}

/// Whether an entry stored at a flat key decodes, or is absent; only a
/// present, undecodable entry stops index maintenance.
pub open spec fn entry_ok(m: Map<Seq<u8>, Seq<u8>>, k: Seq<u8>) -> bool {
    m.contains_key(k) ==> spec_entry_dec(m[k]) is Some
}

/// The primary keys recorded at a flat key: none where the entry is absent.
pub open spec fn entry_refs(m: Map<Seq<u8>, Seq<u8>>, k: Seq<u8>) -> Seq<Seq<u8>> {
    if m.contains_key(k) {
        match spec_entry_dec(m[k]) {
            Some(rs) => rs,
            None => Seq::empty(),
        }
    } else {
        Seq::empty()
    }
}

/// The store after one primary key is appended to the entry at a flat key.
pub open spec fn with_ref_added(m: Map<Seq<u8>, Seq<u8>>, k: Seq<u8>, pk: Seq<u8>) -> Map<
    Seq<u8>,
    Seq<u8>,
> {
    m.insert(k, spec_entry_enc(entry_refs(m, k).push(pk)))
}

/// The store after one primary key is filtered out of the entry at a flat
/// key. An absent entry stays absent: removal there is a no-op, not an error.
pub open spec fn with_ref_removed(m: Map<Seq<u8>, Seq<u8>>, k: Seq<u8>, pk: Seq<u8>) -> Map<
    Seq<u8>,
    Seq<u8>,
> {
    if m.contains_key(k) {
        m.insert(k, spec_entry_enc(remove_all(entry_refs(m, k), pk)))
    } else {
        m
    }
}

/// One secondary index: a namespace of its own, and the caller-supplied
/// function from a record to the byte string the record is indexed under.
pub struct Index<T, F> where F: Fn(&T) -> Vec<u8> {
    pub prefix: Vec<u8>,
    pub action: F,
    pub data: PhantomData<T>,
}

/// Whether `k` is a flat key the index can resolve the record to: the
/// index's encoded namespace followed by some possible output of the index
/// function on the record.
pub open spec fn index_key<T, F: Fn(&T) -> Vec<u8>>(idx: Index<T, F>, item: &T, k: Seq<u8>) -> bool {
    exists|iv: Vec<u8>|
        (#[trigger] call_ensures(idx.action, (item,), iv)) && k == idx.prefix@ + iv@
}

/// An index over the given namespace with the given index function.
pub fn index<T, F: Fn(&T) -> Vec<u8>>(namespace: &[u8], action: F) -> (idx: Index<T, F>)
    requires
        namespace@.len() <= 0xFFFF,
    ensures
        idx.prefix@ == spec_key_prefix(namespace@),
        idx.action == action,
{
    Index { prefix: key_prefix(namespace), action, data: PhantomData }
}

impl<T, F> Index<T, F> where F: Fn(&T) -> Vec<u8> {
    /// The flat key at which this index keeps the entry for the given record.
    pub fn calc_key(&self, item: &T) -> (r: Vec<u8>)
        requires
            call_requires(self.action, (item,)),
        ensures
            index_key(*self, item, r@),
    {
        let calc = (self.action)(item);
        concat_bytes(self.prefix.as_slice(), calc.as_slice())
    }
}

/// Appends the primary key to the entry at the given flat key, creating the
/// entry where absent: one read and one write.
pub fn add_key(storage: &mut MockStorage, idx: &[u8], pk: &[u8]) -> (r: Result<(), Error>)
    ensures
        match r {
            Ok(()) => entry_ok(contents(*old(storage)), idx@) && contents(*final(storage))
                == with_ref_added(contents(*old(storage)), idx@, pk@),
            Err(e) => e == Error::Deserialize && !entry_ok(contents(*old(storage)), idx@)
                && contents(*final(storage)) == contents(*old(storage)),
        },
{
    let mut entry: IndexEntry = match store_get(storage, idx) {
        None => IndexEntry { refs: Vec::new() },
        Some(b) => match IndexEntry::from_bytes(b.as_slice()) {
            Ok(en) => en,
            Err(e) => {
                return Err(e);
            },
        },
    };
    proof {
        if contents(*storage).contains_key(idx@) {
            let dv = entry.refs.deep_view();
            assert forall|i: int| 0 <= i < dv.len() implies (#[trigger] dv[i]).len() <= u64::MAX by {
                vstd::std_specs::vec::axiom_spec_len(&entry.refs@[i]);
                assert(dv[i] =~= entry.refs@[i]@);
            }
            lemma_entry_dec_of_enc(dv);
            assert(entry_refs(contents(*storage), idx@) == dv);
        } else {
            assert(entry.refs.deep_view() =~= Seq::<Seq<u8>>::empty());
        }
    }
    let ghost dv0 = entry.refs.deep_view();
    let pkv = sub_bytes(pk, 0, pk.len());
    proof {
        assert(pkv@ =~= pk@);
    }
    entry.refs.push(pkv);
    proof {
        assert(pkv.deep_view() =~= pkv@);
        assert(entry.refs.deep_view() =~~= dv0.push(pk@));
        entry.lemma_enc_nonempty();
    }
    let bytes = entry.to_bytes();
    store_set(storage, idx, bytes.as_slice());
    proof {
        assert(contents(*storage) =~= with_ref_added(contents(*old(storage)), idx@, pk@));
    }
    Ok(())
}

/// Filters the primary key out of the entry at the given flat key and saves
/// it back. An absent entry is left untouched: removal is then a no-op.
/// A copy of the key list with every occurrence of one primary key left out.
#[verifier::rlimit(60)]
fn filter_refs(refs: &Vec<Vec<u8>>, pk: &[u8]) -> (r: Vec<Vec<u8>>)
    ensures
        r.deep_view() == remove_all(refs.deep_view(), pk@),
{
    let ghost dv = refs.deep_view();
    let mut kept: Vec<Vec<u8>> = Vec::new();
    let sl: &[Vec<u8>] = refs.as_slice();
    let mut i: usize = 0;
    proof {
        assert(kept.deep_view() =~= Seq::<Seq<u8>>::empty());
        assert(remove_all(dv.take(0), pk@) =~= Seq::<Seq<u8>>::empty());
    }
    while i < sl.len()
        invariant
            sl@ == refs@,
            dv == refs.deep_view(),
            dv.len() == refs@.len(),
            i <= dv.len(),
            kept.deep_view() == remove_all(dv.take(i as int), pk@),
        decreases dv.len() - i,
    {
        let ghost kv = kept.deep_view();
        let one: &Vec<u8> = slice_index_get(sl, i);
        proof {
            assert(dv[i as int] =~= one@);
        }
        if !bytes_eq(one.as_slice(), pk) {
            let copy = sub_bytes(one.as_slice(), 0, one.len());
            proof {
                assert(copy@ =~= one@);
            }
            kept.push(copy);
            proof {
                assert(copy.deep_view() =~= copy@);
                assert(kept.deep_view() =~~= kv.push(one@));
            }
        }
        proof {
            lemma_remove_all_push(dv.take(i as int), dv[i as int], pk@);
            assert(dv.take(i as int).push(dv[i as int]) =~= dv.take(i as int + 1));
        }
        i = i + 1;
    }
    proof {
        assert(dv.take(dv.len() as int) =~= dv);
    }
    kept
}

#[verifier::rlimit(60)]
pub fn remove_key(storage: &mut MockStorage, idx: &[u8], pk: &[u8]) -> (r: Result<(), Error>)
    ensures
        match r {
            Ok(()) => entry_ok(contents(*old(storage)), idx@) && contents(*final(storage))
                == with_ref_removed(contents(*old(storage)), idx@, pk@),
            Err(e) => e == Error::Deserialize && !entry_ok(contents(*old(storage)), idx@)
                && contents(*final(storage)) == contents(*old(storage)),
        },
{
    let b = match store_get(storage, idx) {
        None => {
            return Ok(());
        },
        Some(b) => b,
    };
    let entry = match IndexEntry::from_bytes(b.as_slice()) {
        Ok(en) => en,
        Err(e) => {
            return Err(e);
        },
    };
    let ghost dv = entry.refs.deep_view();
    proof {
        assert forall|i: int| 0 <= i < dv.len() implies (#[trigger] dv[i]).len() <= u64::MAX by {
            vstd::std_specs::vec::axiom_spec_len(&entry.refs@[i]);
            assert(dv[i] =~= entry.refs@[i]@);
        }
        lemma_entry_dec_of_enc(dv);
        assert(entry_refs(contents(*storage), idx@) == dv);
    }
    let kept = filter_refs(&entry.refs, pk);
    let new_entry = IndexEntry { refs: kept };
    proof {
        new_entry.lemma_enc_nonempty();
    }
    let bytes = new_entry.to_bytes();
    store_set(storage, idx, bytes.as_slice());
    proof {
        assert(contents(*storage) =~= with_ref_removed(contents(*old(storage)), idx@, pk@));
    }
    Ok(())
}

/// Reads the entry at the given flat key, reporting absence as `None`.
pub fn load_keys(storage: &MockStorage, idx: &[u8]) -> (r: Result<Option<IndexEntry>, Error>)
    ensures
        match r {
            Ok(o) => opt_value_at(contents(*storage), idx@, o),
            Err(e) => e == Error::Deserialize && contents(*storage).contains_key(idx@)
                && !IndexEntry::valid_enc(contents(*storage)[idx@]),
        },
{
    match store_get(storage, idx) {
        None => Ok(None),
        Some(b) => match IndexEntry::from_bytes(b.as_slice()) {
            Ok(en) => Ok(Some(en)),
            Err(e) => Err(e),
        },
    }
}

/// Keeps one index consistent across one record mutation: an unchanged index
/// value is a no-op with no reads or writes; a changed one removes the
/// primary key from the old entry and appends it to the new one; a fresh
/// record only appends. A failure between the remove and the add leaves the
/// key under neither value: that gap is the caller's to repair.
pub fn write_index<T, F: Fn(&T) -> Vec<u8>>(
    storage: &mut MockStorage,
    idx: &Index<T, F>,
    pk: &[u8],
    old_val: Option<&T>,
    new_val: &T,
) -> (r: Result<(), Error>)
    requires
        match old_val {
            Some(o) => call_requires(idx.action, (o,)),
            None => true,
        },
        call_requires(idx.action, (new_val,)),
    ensures
        match r {
            Ok(()) => match old_val {
                None => exists|nk: Seq<u8>|
                    (#[trigger] index_key(*idx, new_val, nk)) && entry_ok(
                        contents(*old(storage)),
                        nk,
                    ) && contents(*final(storage)) == with_ref_added(
                        contents(*old(storage)),
                        nk,
                        pk@,
                    ),
                Some(o) => exists|ok_key: Seq<u8>, nk: Seq<u8>|
                    {
                        &&& #[trigger] index_key(*idx, o, ok_key)
                        &&& #[trigger] index_key(*idx, new_val, nk)
                        &&& if ok_key == nk {
                            contents(*final(storage)) == contents(*old(storage))
                        } else {
                            entry_ok(contents(*old(storage)), ok_key) && entry_ok(
                                with_ref_removed(contents(*old(storage)), ok_key, pk@),
                                nk,
                            ) && contents(*final(storage)) == with_ref_added(
                                with_ref_removed(contents(*old(storage)), ok_key, pk@),
                                nk,
                                pk@,
                            )
                        }
                    },
            },
            Err(e) => {
                &&& e == Error::Deserialize
                &&& match old_val {
                    None => exists|nk: Seq<u8>|
                        (#[trigger] index_key(*idx, new_val, nk)) && !entry_ok(
                            contents(*old(storage)),
                            nk,
                        ) && contents(*final(storage)) == contents(*old(storage)),
                    Some(o) => exists|ok_key: Seq<u8>, nk: Seq<u8>|
                        {
                            &&& #[trigger] index_key(*idx, o, ok_key)
                            &&& #[trigger] index_key(*idx, new_val, nk)
                            &&& ok_key != nk
                            &&& ((!entry_ok(contents(*old(storage)), ok_key) && contents(
                                *final(storage),
                            ) == contents(*old(storage))) || (entry_ok(
                                contents(*old(storage)),
                                ok_key,
                            ) && !entry_ok(
                                with_ref_removed(contents(*old(storage)), ok_key, pk@),
                                nk,
                            ) && contents(*final(storage)) == with_ref_removed(
                                contents(*old(storage)),
                                ok_key,
                                pk@,
                            )))
                        },
                }
            },
        },
{
    let new_idx = idx.calc_key(new_val);
    match old_val {
        Some(o) => {
            let old_idx = idx.calc_key(o);
            if bytes_eq(old_idx.as_slice(), new_idx.as_slice()) {
                return Ok(());
            }
            match remove_key(storage, old_idx.as_slice(), pk) {
                Ok(()) => {},
                Err(e) => {
                    return Err(e);
                },
            }
            add_key(storage, new_idx.as_slice(), pk)
        },
        None => add_key(storage, new_idx.as_slice(), pk),
    }
}

/// Index add/remove correctness: starting from a store where the primary key
/// is recorded under neither flat key, adding it under the first key records
/// it there exactly once; then moving it to the second key (remove from the
/// first, add under the second) leaves it absent under the first and present
/// exactly once under the second.
pub proof fn lemma_index_add_remove(m: Map<Seq<u8>, Seq<u8>>, ka: Seq<u8>, kb: Seq<u8>, pk: Seq<u8>)
    requires
        ka != kb,
        pk.len() <= u64::MAX,
        count_of(entry_refs(m, ka), pk) == 0,
        count_of(entry_refs(m, kb), pk) == 0,
    ensures
        ({
            let m1 = with_ref_added(m, ka, pk);
            let m2 = with_ref_added(with_ref_removed(m1, ka, pk), kb, pk);
            &&& count_of(entry_refs(m1, ka), pk) == 1
            &&& count_of(entry_refs(m2, ka), pk) == 0
            &&& count_of(entry_refs(m2, kb), pk) == 1
        }),
{
    lemma_entry_refs_wf(m, ka);
    lemma_entry_refs_wf(m, kb);
    let ra = entry_refs(m, ka);
    let rb = entry_refs(m, kb);
    let m1 = with_ref_added(m, ka, pk);
    lemma_entry_dec_of_enc(ra.push(pk));
    assert(entry_refs(m1, ka) == ra.push(pk));
    lemma_count_push(ra, pk, pk);
    let mr = with_ref_removed(m1, ka, pk);
    lemma_remove_all_wf(ra.push(pk), pk);
    lemma_entry_dec_of_enc(remove_all(ra.push(pk), pk));
    assert(entry_refs(mr, ka) == remove_all(ra.push(pk), pk));
    lemma_count_remove_all(ra.push(pk), pk);
    let m2 = with_ref_added(mr, kb, pk);
    assert(entry_refs(m2, ka) == entry_refs(mr, ka));
    assert(entry_refs(mr, kb) == rb);
    lemma_entry_dec_of_enc(rb.push(pk));
    assert(entry_refs(m2, kb) == rb.push(pk));
    lemma_count_push(rb, pk, pk);
}

/// The keys recorded at any flat key are well formed.
pub proof fn lemma_entry_refs_wf(m: Map<Seq<u8>, Seq<u8>>, k: Seq<u8>)
    ensures
        wf_refs(entry_refs(m, k)),
{
    if m.contains_key(k) && spec_entry_dec(m[k]) is Some {
        let b = m[k];
        assert(spec_dec_refs(b.skip(1)) is Some);
        lemma_dec_refs_wf(b.skip(1));
    }
}

} // verus!

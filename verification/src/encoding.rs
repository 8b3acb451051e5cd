use vstd::prelude::*;
use vstd::slice::slice_index_get;

verus! {

/// Big-endian bytes of a 64-bit value.
pub open spec fn spec_u64_be(x: u64) -> Seq<u8> {
    seq![
        (x >> 56) as u8,
        (x >> 48) as u8,
        (x >> 40) as u8,
        (x >> 32) as u8,
        (x >> 24) as u8,
        (x >> 16) as u8,
        (x >> 8) as u8,
        x as u8,
    ]
}

/// The 64-bit value that eight big-endian bytes denote.
pub open spec fn spec_be64_val(b: Seq<u8>) -> u64
    recommends
        b.len() == 8,
{
    (((b[0] as u64) << 56) | ((b[1] as u64) << 48) | ((b[2] as u64) << 40) | ((b[3] as u64) << 32)
        | ((b[4] as u64) << 24) | ((b[5] as u64) << 16) | ((b[6] as u64) << 8) | (b[7] as u64)) as u64
}

/// Big-endian bytes of a 32-bit value.
pub open spec fn spec_u32_be(x: u32) -> Seq<u8> {
    seq![(x >> 24) as u8, (x >> 16) as u8, (x >> 8) as u8, x as u8]
}

/// The 32-bit value that four big-endian bytes denote.
pub open spec fn spec_be32_val(b: Seq<u8>) -> u32
    recommends
        b.len() == 4,
{
    (((b[0] as u32) << 24) | ((b[1] as u32) << 16) | ((b[2] as u32) << 8) | (b[3] as u32)) as u32
}

/// Decoding the big-endian bytes of a value gives the value back.
pub proof fn lemma_be64_val_of_enc(x: u64)
    ensures
        spec_be64_val(spec_u64_be(x)) == x,
{
    assert((((((x >> 56) as u8) as u64) << 56) | ((((x >> 48) as u8) as u64) << 48)
        | ((((x >> 40) as u8) as u64) << 40) | ((((x >> 32) as u8) as u64) << 32)
        | ((((x >> 24) as u8) as u64) << 24) | ((((x >> 16) as u8) as u64) << 16)
        | ((((x >> 8) as u8) as u64) << 8) | ((x as u8) as u64)) as u64 == x) by (bit_vector);
}

/// Encoding the value that eight bytes denote gives the bytes back.
pub proof fn lemma_be64_enc_of_val(b: Seq<u8>)
    requires
        b.len() == 8,
    ensures
        spec_u64_be(spec_be64_val(b)) == b,
{
    let b0 = b[0];
    let b1 = b[1];
    let b2 = b[2];
    let b3 = b[3];
    let b4 = b[4];
    let b5 = b[5];
    let b6 = b[6];
    let b7 = b[7];
    let x = spec_be64_val(b);
    assert(x == (((b0 as u64) << 56) | ((b1 as u64) << 48) | ((b2 as u64) << 40) | ((b3 as u64)
        << 32) | ((b4 as u64) << 24) | ((b5 as u64) << 16) | ((b6 as u64) << 8) | (b7 as u64)) as u64);
    let y = (((b0 as u64) << 56) | ((b1 as u64) << 48) | ((b2 as u64) << 40) | ((b3 as u64) << 32)
        | ((b4 as u64) << 24) | ((b5 as u64) << 16) | ((b6 as u64) << 8) | (b7 as u64)) as u64;
    assert((y >> 56) as u8 == b0 && (y >> 48) as u8 == b1 && (y >> 40) as u8 == b2 && (y >> 32) as u8
        == b3 && (y >> 24) as u8 == b4 && (y >> 16) as u8 == b5 && (y >> 8) as u8 == b6 && y as u8
        == b7) by (bit_vector)
        requires
            y == (((b0 as u64) << 56) | ((b1 as u64) << 48) | ((b2 as u64) << 40) | ((b3 as u64)
                << 32) | ((b4 as u64) << 24) | ((b5 as u64) << 16) | ((b6 as u64) << 8) | (b7 as u64)) as u64,
    ;
    assert(spec_u64_be(x) =~= b);
}

/// Decoding the big-endian bytes of a 32-bit value gives the value back.
pub proof fn lemma_be32_val_of_enc(x: u32)
    ensures
        spec_be32_val(spec_u32_be(x)) == x,
{
    assert((((((x >> 24) as u8) as u32) << 24) | ((((x >> 16) as u8) as u32) << 16)
        | ((((x >> 8) as u8) as u32) << 8) | ((x as u8) as u32)) as u32 == x) by (bit_vector);
}

/// Encoding the value that four bytes denote gives the bytes back.
pub proof fn lemma_be32_enc_of_val(b: Seq<u8>)
    requires
        b.len() == 4,
    ensures
        spec_u32_be(spec_be32_val(b)) == b,
{
    let b0 = b[0];
    let b1 = b[1];
    let b2 = b[2];
    let b3 = b[3];
    let x = spec_be32_val(b);
    assert(x == (((b0 as u32) << 24) | ((b1 as u32) << 16) | ((b2 as u32) << 8) | (b3 as u32)) as u32);
    let y = (((b0 as u32) << 24) | ((b1 as u32) << 16) | ((b2 as u32) << 8) | (b3 as u32)) as u32;
    assert((y >> 24) as u8 == b0 && (y >> 16) as u8 == b1 && (y >> 8) as u8 == b2 && y as u8 == b3)
        by (bit_vector)
        requires
            y == (((b0 as u32) << 24) | ((b1 as u32) << 16) | ((b2 as u32) << 8) | (b3 as u32)) as u32,
    ;
    assert(spec_u32_be(x) =~= b);
}

/// Appends the big-endian bytes of a 64-bit value.
pub fn push_u64_be(v: &mut Vec<u8>, x: u64)
    ensures
        final(v)@ == old(v)@ + spec_u64_be(x),
{
    v.push((x >> 56) as u8);
    v.push((x >> 48) as u8);
    v.push((x >> 40) as u8);
    v.push((x >> 32) as u8);
    v.push((x >> 24) as u8);
    v.push((x >> 16) as u8);
    v.push((x >> 8) as u8);
    v.push(x as u8);
    proof {
        assert(v@ =~= old(v)@ + spec_u64_be(x));
    }
}

/// Appends the big-endian bytes of a 32-bit value.
pub fn push_u32_be(v: &mut Vec<u8>, x: u32)
    ensures
        final(v)@ == old(v)@ + spec_u32_be(x),
{
    v.push((x >> 24) as u8);
    v.push((x >> 16) as u8);
    v.push((x >> 8) as u8);
    v.push(x as u8);
    proof {
        assert(v@ =~= old(v)@ + spec_u32_be(x));
    }
}

/// Reads the 64-bit big-endian value at the given offset.
pub fn be64_at(b: &[u8], off: usize) -> (r: u64)
    requires
        off + 8 <= b@.len(),
    ensures
        r == spec_be64_val(b@.subrange(off as int, off as int + 8)),
{
    let _n: usize = b.len();
    let x0 = *slice_index_get(b, off);
    let x1 = *slice_index_get(b, off + 1);
    let x2 = *slice_index_get(b, off + 2);
    let x3 = *slice_index_get(b, off + 3);
    let x4 = *slice_index_get(b, off + 4);
    let x5 = *slice_index_get(b, off + 5);
    let x6 = *slice_index_get(b, off + 6);
    let x7 = *slice_index_get(b, off + 7);
    let r = ((x0 as u64) << 56) | ((x1 as u64) << 48) | ((x2 as u64) << 40) | ((x3 as u64) << 32)
        | ((x4 as u64) << 24) | ((x5 as u64) << 16) | ((x6 as u64) << 8) | (x7 as u64);
    proof {
        let s = b@.subrange(off as int, off as int + 8);
        assert(s[0] == x0 && s[1] == x1 && s[2] == x2 && s[3] == x3 && s[4] == x4 && s[5] == x5
            && s[6] == x6 && s[7] == x7);
    }
    r
}

/// Reads the 32-bit big-endian value at the given offset.
pub fn be32_at(b: &[u8], off: usize) -> (r: u32)
    requires
        off + 4 <= b@.len(),
    ensures
        r == spec_be32_val(b@.subrange(off as int, off as int + 4)),
{
    let _n: usize = b.len();
    let x0 = *slice_index_get(b, off);
    let x1 = *slice_index_get(b, off + 1);
    let x2 = *slice_index_get(b, off + 2);
    let x3 = *slice_index_get(b, off + 3);
    let r = ((x0 as u32) << 24) | ((x1 as u32) << 16) | ((x2 as u32) << 8) | (x3 as u32);
    proof {
        let s = b@.subrange(off as int, off as int + 4);
        assert(s[0] == x0 && s[1] == x1 && s[2] == x2 && s[3] == x3);
    }
    r
}

/// Appends a copy of the given bytes.
pub fn extend_bytes(v: &mut Vec<u8>, s: &[u8])
    ensures
        final(v)@ == old(v)@ + s@,
{
    let mut i: usize = 0;
    while i < s.len()
        invariant
            i <= s@.len(),
            v@ == old(v)@ + s@.take(i as int),
        decreases s@.len() - i,
    {
        v.push(*slice_index_get(s, i));
        i = i + 1;
        proof {
            assert(v@ =~= old(v)@ + s@.take(i as int));
        }
    }
    proof {
        assert(s@.take(s@.len() as int) =~= s@);
    }
}

/// A fresh byte string holding one byte string followed by another.
pub fn concat_bytes(a: &[u8], b: &[u8]) -> (r: Vec<u8>)
    ensures
        r@ == a@ + b@,
{
    let mut r: Vec<u8> = Vec::new();
    extend_bytes(&mut r, a);
    extend_bytes(&mut r, b);
    proof {
        assert(r@ =~= a@ + b@);
    }
    r
}

/// A copy of the bytes between the two offsets.
pub fn sub_bytes(b: &[u8], start: usize, end: usize) -> (r: Vec<u8>)
    requires
        start <= end <= b@.len(),
    ensures
        r@ == b@.subrange(start as int, end as int),
{
    let mut r: Vec<u8> = Vec::new();
    let mut i: usize = start;
    while i < end
        invariant
            start <= i <= end <= b@.len(),
            r@ == b@.subrange(start as int, i as int),
        decreases end - i,
    {
        r.push(*slice_index_get(b, i));
        i = i + 1;
        proof {
            assert(r@ =~= b@.subrange(start as int, i as int));
        }
    }
    r
}

/// Whether two byte strings hold the same bytes.
pub fn bytes_eq(a: &[u8], b: &[u8]) -> (r: bool)
    ensures
        r == (a@ == b@),
{
    if a.len() != b.len() {
        return false;
    }
    let mut i: usize = 0;
    while i < a.len()
        invariant
            a@.len() == b@.len(),
            i <= a@.len(),
            forall|j: int| 0 <= j < i ==> a@[j] == b@[j],
        decreases a@.len() - i,
    {
        if *slice_index_get(a, i) != *slice_index_get(b, i) {
            return false;
        }
        i = i + 1;
    }
    proof {
        assert(a@ =~= b@);
    }
    true
}

} // verus!

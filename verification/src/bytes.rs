//! Small verified helpers on byte arrays and byte sequences.

use vstd::prelude::*;

verus! {

/// The sequence of `n` zero bytes.
pub open spec fn zeros(n: nat) -> Seq<u8> {
    Seq::new(n, |i: int| 0u8)
}

/// The byte sequences held by a sequence of 32-byte arrays.
pub open spec fn views(v: Seq<[u8; 32]>) -> Seq<Seq<u8>> {
    Seq::new(v.len(), |i: int| v[i]@)
}

/// The little-endian value of the bytes `b[0..n]`.
pub open spec fn le_value(b: Seq<u8>, n: nat) -> nat
    decreases n,
{
    if n == 0 {
        0
    } else {
        (b[0] as nat) + 256 * le_value(b.drop_first(), (n - 1) as nat)
    }
}

/// The eight little-endian bytes of `x`.
pub open spec fn le_bytes8(x: u64) -> Seq<u8> {
    Seq::new(8, |i: int| ((x as nat / pow256(i as nat)) % 256) as u8)
}

/// The four little-endian bytes of `x`.
pub open spec fn le_bytes4(x: u32) -> Seq<u8> {
    Seq::new(4, |i: int| ((x as nat / pow256(i as nat)) % 256) as u8)
}

/// 256 to the power `k`.
pub open spec fn pow256(k: nat) -> nat
    decreases k,
{
    if k == 0 {
        1
    } else {
        256 * pow256((k - 1) as nat)
    }
}

pub proof fn lemma_views_push(v: Seq<[u8; 32]>, x: [u8; 32])
    ensures
        views(v.push(x)) == views(v).push(x@),
{
    assert(views(v.push(x)) =~= views(v).push(x@));
}

/// A prefix that is one longer holds one more item.
pub proof fn lemma_prefix_contains(s: Seq<Seq<u8>>, i: int)
    requires
        0 <= i < s.len(),
    ensures
        forall|k: Seq<u8>|
            s.subrange(0, i + 1).contains(k) <==> (s.subrange(0, i).contains(k) || k == s[i]),
        s.subrange(0, i + 1).to_set() == s.subrange(0, i).to_set().insert(s[i]),
{
    let shorter = s.subrange(0, i);
    let longer = s.subrange(0, i + 1);
    assert(longer[i] == s[i]);
    assert forall|k: Seq<u8>| longer.contains(k) <==> (shorter.contains(k) || k == s[i]) by {
        if longer.contains(k) {
            let j = choose|j: int| 0 <= j < longer.len() && longer[j] == k;
            if j < i {
                assert(shorter[j] == k);
            }
        }
        if shorter.contains(k) {
            let j = choose|j: int| 0 <= j < shorter.len() && shorter[j] == k;
            assert(longer[j] == k);
        }
    }
    assert(longer.to_set() =~= shorter.to_set().insert(s[i]));
}

/// Whether two 32-byte values are equal.
pub fn hash_eq(a: &[u8; 32], b: &[u8; 32]) -> (same: bool)
    ensures
        same == (a@ == b@),
{
    let mut i: usize = 0;
    while i < 32
        invariant
            i <= 32,
            forall|j: int| 0 <= j < i ==> a@[j] == b@[j],
        decreases 32 - i,
    {
        if a[i] != b[i] {
            return false;
        }
        i += 1;
    }
    assert(a@ =~= b@);
    true
}

/// Whether a 32-byte value is all zero.
pub fn is_zero_hash(a: &[u8; 32]) -> (zero: bool)
    ensures
        zero == (a@ == zeros(32)),
{
    let mut i: usize = 0;
    while i < 32
        invariant
            i <= 32,
            forall|j: int| 0 <= j < i ==> a@[j] == 0,
        decreases 32 - i,
    {
        if a[i] != 0 {
            assert(zeros(32)[i as int] == 0);
            return false;
        }
        i += 1;
    }
    assert(a@ =~= zeros(32));
    true
}

/// The all-zero 32-byte value.
pub fn zero_hash() -> (h: [u8; 32])
    ensures
        h@ == zeros(32),
{
    let h = [0u8; 32];
    assert(h@ =~= zeros(32));
    h
}

/// The 64 bytes `left ‖ right`.
pub fn concat32(left: &[u8; 32], right: &[u8; 32]) -> (out: [u8; 64])
    ensures
        out@ == left@ + right@,
{
    let mut out = [0u8; 64];
    let mut i: usize = 0;
    while i < 32
        invariant
            i <= 32,
            forall|j: int| 0 <= j < i ==> out@[j] == left@[j],
        decreases 32 - i,
    {
        out[i] = left[i];
        i += 1;
    }
    let mut k: usize = 0;
    while k < 32
        invariant
            k <= 32,
            forall|j: int| 0 <= j < 32 ==> out@[j] == left@[j],
            forall|j: int| 0 <= j < k ==> out@[32 + j] == right@[j],
        decreases 32 - k,
    {
        out[32 + k] = right[k];
        k += 1;
    }
    assert(out@ =~= left@ + right@);
    out
}

/// The 32 bytes `data[start..start + 32]`.
pub fn read32(data: &[u8], start: usize) -> (out: [u8; 32])
    requires
        start + 32 <= data@.len(),
    ensures
        out@ == data@.subrange(start as int, start + 32),
{
    let len = data.len();
    let mut out = [0u8; 32];
    let mut i: usize = 0;
    while i < 32
        invariant
            i <= 32,
            start + 32 <= data@.len() == len,
            forall|j: int| 0 <= j < i ==> out@[j] == data@[start + j],
        decreases 32 - i,
    {
        out[i] = data[start + i];
        i += 1;
    }
    assert(out@ =~= data@.subrange(start as int, start + 32));
    out
}

/// A copy of `src`.
pub fn copy_hashes(src: &Vec<[u8; 32]>) -> (out: Vec<[u8; 32]>)
    ensures
        out@ == src@,
{
    let mut out: Vec<[u8; 32]> = Vec::new();
    let mut i: usize = 0;
    while i < src.len()
        invariant
            i <= src@.len(),
            out@ == src@.subrange(0, i as int),
        decreases src@.len() - i,
    {
        out.push(src[i]);
        assert(src@.subrange(0, i + 1) =~= src@.subrange(0, i as int).push(src@[i as int]));
        i += 1;
    }
    assert(src@.subrange(0, i as int) =~= src@);
    out
}

/// Appends the bytes of `src` to `dst`.
pub fn append_bytes(dst: &mut Vec<u8>, src: &[u8])
    ensures
        final(dst)@ == old(dst)@ + src@,
{
    let mut i: usize = 0;
    while i < src.len()
        invariant
            i <= src@.len(),
            dst@ == old(dst)@ + src@.subrange(0, i as int),
        decreases src@.len() - i,
    {
        dst.push(src[i]);
        assert(src@.subrange(0, i + 1) =~= src@.subrange(0, i as int).push(src@[i as int]));
        i += 1;
    }
    assert(src@.subrange(0, i as int) =~= src@);
}

/// The first powers of 256.
pub proof fn lemma_pow256_values()
    ensures
        pow256(0) == 1,
        pow256(1) == 0x100,
        pow256(2) == 0x1_0000,
        pow256(3) == 0x100_0000,
        pow256(4) == 0x1_0000_0000,
        pow256(5) == 0x100_0000_0000,
        pow256(6) == 0x1_0000_0000_0000,
        pow256(7) == 0x100_0000_0000_0000,
        pow256(8) == 0x1_0000_0000_0000_0000,
{
    reveal_with_fuel(pow256, 10);
}

/// The eight little-endian bytes of `x`.
pub fn le_bytes_of(x: u64) -> (out: [u8; 8])
    ensures
        out@ == le_bytes8(x),
{
    let mut out = [0u8; 8];
    let mut rest = x;
    let mut i: usize = 0;
    assert(pow256(0) == 1);
    while i < 8
        invariant
            i <= 8,
            rest as nat == x as nat / pow256(i as nat),
            forall|j: int| 0 <= j < i ==> out@[j] == le_bytes8(x)[j],
        decreases 8 - i,
    {
        out[i] = (rest % 256) as u8;
        proof {
            let p = pow256(i as nat);
            assert(pow256((i + 1) as nat) == 256 * p);
            assert(p > 0) by {
                lemma_pow256_positive(i as nat);
            }
            assert((x as nat / p) / 256 == x as nat / (256 * p)) by {
                vstd::arithmetic::div_mod::lemma_div_denominator(x as int, p as int, 256);
                assert(p * 256 == 256 * p) by (nonlinear_arith);
            }
        }
        rest = rest / 256;
        i += 1;
    }
    assert(out@ =~= le_bytes8(x));
    out
}

pub proof fn lemma_pow256_positive(k: nat)
    ensures
        pow256(k) > 0,
    decreases k,
{
    if k > 0 {
        lemma_pow256_positive((k - 1) as nat);
    }
}


/// The four little-endian bytes of `x`.
pub fn le_bytes4_of(x: u32) -> (out: [u8; 4])
    ensures
        out@ == le_bytes4(x),
{
    let mut out = [0u8; 4];
    let mut rest = x;
    let mut i: usize = 0;
    assert(pow256(0) == 1);
    while i < 4
        invariant
            i <= 4,
            rest as nat == x as nat / pow256(i as nat),
            forall|j: int| 0 <= j < i ==> out@[j] == le_bytes4(x)[j],
        decreases 4 - i,
    {
        out[i] = (rest % 256) as u8;
        proof {
            let p = pow256(i as nat);
            assert(pow256((i + 1) as nat) == 256 * p);
            assert(p > 0) by {
                lemma_pow256_positive(i as nat);
            }
            assert((x as nat / p) / 256 == x as nat / (256 * p)) by {
                vstd::arithmetic::div_mod::lemma_div_denominator(x as int, p as int, 256);
                assert(p * 256 == 256 * p) by (nonlinear_arith);
            }
        }
        rest = rest / 256;
        i += 1;
    }
    assert(out@ =~= le_bytes4(x));
    out
}

} // verus!

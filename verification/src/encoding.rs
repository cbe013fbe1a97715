//! The wire format of the public inputs, written out: what a decoder reads
//! back is what was encoded.

use vstd::prelude::*;
use crate::bytes::{append_bytes, le_bytes4, le_bytes4_of, lemma_pow256_values, views};
use crate::inputs::{
    compact_at,
    decode_inputs,
    hashes_at,
    indices_at,
    le16_at,
    le32_at,
    path_views,
    paths_at,
    paths_upto,
    ProofPublicInputs,
    PublicInputs,
};

verus! {

/// The compact form of the length `n`.
pub open spec fn compact_bytes(n: nat) -> Seq<u8> {
    if n < 0x40 {
        seq![(4 * n) as u8]
    } else if n < 0x4000 {
        seq![((4 * n + 1) % 0x100) as u8, ((4 * n + 1) / 0x100) as u8]
    } else if n < 0x4000_0000 {
        le_bytes4((4 * n + 2) as u32)
    } else {
        seq![3u8] + le_bytes4(n as u32)
    }
}

/// The values of `v` one after another.
pub open spec fn join(v: Seq<Seq<u8>>) -> Seq<u8>
    decreases v.len(),
{
    if v.len() == 0 {
        Seq::empty()
    } else {
        join(v.drop_last()) + v.last()
    }
}

/// A list of 32-byte values on the wire.
pub open spec fn encode_hashes(v: Seq<Seq<u8>>) -> Seq<u8> {
    compact_bytes(v.len()) + join(v)
}

/// A list of 32-bit numbers on the wire.
pub open spec fn encode_indices(v: Seq<u32>) -> Seq<u8> {
    compact_bytes(v.len()) + join(Seq::new(v.len(), |i: int| le_bytes4(v[i])))
}

/// A list of paths on the wire.
pub open spec fn encode_paths(v: Seq<Seq<Seq<u8>>>) -> Seq<u8> {
    compact_bytes(v.len()) + join(Seq::new(v.len(), |i: int| encode_hashes(v[i])))
}

/// The public inputs on the wire.
pub open spec fn encode_inputs(p: PublicInputs) -> Seq<u8> {
    p.merkle_root + p.new_merkle_root + encode_hashes(p.input_commitments) + encode_indices(
        p.input_indices,
    ) + encode_paths(p.input_paths) + encode_hashes(p.nullifiers) + encode_hashes(
        p.new_commitments,
    ) + p.fee_commitment + p.fee_nullifier + p.tx_id
}

/// Whether every value of `v` has 32 bytes and the length of `v` fits the
/// compact form.
pub open spec fn hashes_fit(v: Seq<Seq<u8>>) -> bool {
    &&& v.len() <= u32::MAX
    &&& forall|i: int| 0 <= i < v.len() ==> (#[trigger] v[i]).len() == 32
}

/// Whether public inputs can be put on the wire: every hash has 32 bytes, the
/// transaction id has 16, and every list length fits the compact form.
pub open spec fn inputs_fit(p: PublicInputs) -> bool {
    &&& p.merkle_root.len() == 32
    &&& p.new_merkle_root.len() == 32
    &&& hashes_fit(p.input_commitments)
    &&& p.input_indices.len() <= u32::MAX
    &&& p.input_paths.len() <= u32::MAX
    &&& forall|i: int| 0 <= i < p.input_paths.len() ==> hashes_fit(#[trigger] p.input_paths[i])
    &&& hashes_fit(p.nullifiers)
    &&& hashes_fit(p.new_commitments)
    &&& p.fee_commitment.len() == 32
    &&& p.fee_nullifier.len() == 32
    &&& p.tx_id.len() == 16
}

proof fn lemma_le_bytes4_value(b: Seq<u8>, pos: int, x: u32)
    requires
        0 <= pos,
        pos + 4 <= b.len(),
        b.subrange(pos, pos + 4) == le_bytes4(x),
    ensures
        le32_at(b, pos) == x,
{
    lemma_pow256_values();
    let e = le_bytes4(x);
    assert(b[pos] == b.subrange(pos, pos + 4)[0]);
    assert(b[pos + 1] == b.subrange(pos, pos + 4)[1]);
    assert(b[pos + 2] == b.subrange(pos, pos + 4)[2]);
    assert(b[pos + 3] == b.subrange(pos, pos + 4)[3]);
    assert(e[0] == ((x as nat / 1) % 256) as u8);
    assert(e[1] == ((x as nat / 0x100) % 256) as u8);
    assert(e[2] == ((x as nat / 0x1_0000) % 256) as u8);
    assert(e[3] == ((x as nat / 0x100_0000) % 256) as u8);
}

/// A length in compact form is read back.
pub proof fn lemma_compact_round_trip(b: Seq<u8>, pos: int, n: nat)
    requires
        0 <= pos,
        n <= u32::MAX,
        pos + compact_bytes(n).len() <= b.len(),
        b.subrange(pos, pos + compact_bytes(n).len()) == compact_bytes(n),
    ensures
        compact_at(b, pos) == Some((n, pos + compact_bytes(n).len())),
{
    let e = compact_bytes(n);
    let part = b.subrange(pos, pos + e.len());
    assert(b[pos] == part[0]);
    if n < 0x40 {
    } else if n < 0x4000 {
        assert(b[pos + 1] == part[1]);
        assert(le16_at(b, pos) == 4 * n + 1);
    } else if n < 0x4000_0000 {
        lemma_pow256_values();
        assert(e[0] == (((4 * n + 2) as u32) as nat / 1 % 256) as u8);
        lemma_le_bytes4_value(b, pos, (4 * n + 2) as u32);
    } else {
        assert(b.subrange(pos + 1, pos + 5) =~= le_bytes4(n as u32)) by {
            assert(b[pos + 1] == part[1]);
            assert(b[pos + 2] == part[2]);
            assert(b[pos + 3] == part[3]);
            assert(b[pos + 4] == part[4]);
        }
        lemma_le_bytes4_value(b, pos + 1, n as u32);
    }
}

/// Values of equal length joined lie at multiples of that length.
pub proof fn lemma_join(v: Seq<Seq<u8>>, width: nat)
    requires
        forall|i: int| 0 <= i < v.len() ==> (#[trigger] v[i]).len() == width,
    ensures
        join(v).len() == width * v.len(),
        forall|i: int|
            0 <= i < v.len() ==> #[trigger] join(v).subrange(width * i, width * i + width)
                == v[i],
    decreases v.len(),
{
    if v.len() == 0 {
    } else {
        let shorter = v.drop_last();
        lemma_join(shorter, width);
        let n = shorter.len() as int;
        assert(width * (n + 1) == width * n + width) by (nonlinear_arith);
        assert forall|i: int| 0 <= i < v.len() implies #[trigger] join(v).subrange(
            width * i,
            width * i + width,
        ) == v[i] by {
            if i < n {
                assert(width * i + width <= width * n) by (nonlinear_arith)
                    requires
                        0 <= i < n,
                ;
                assert(0 <= width * i) by (nonlinear_arith)
                    requires
                        0 <= i,
                ;
                assert(join(v).subrange(width * i, width * i + width) =~= join(shorter).subrange(
                    width * i,
                    width * i + width,
                ));
                assert(shorter[i] == v[i]);
            } else {
                assert(join(v).subrange(width * i, width * i + width) =~= v.last());
            }
        }
    }
}

/// A list of 32-byte values is read back.
pub proof fn lemma_hashes_round_trip(b: Seq<u8>, pos: int, v: Seq<Seq<u8>>)
    requires
        0 <= pos,
        hashes_fit(v),
        pos + encode_hashes(v).len() <= b.len(),
        b.subrange(pos, pos + encode_hashes(v).len()) == encode_hashes(v),
    ensures
        hashes_at(b, pos) == Some((v, pos + encode_hashes(v).len())),
        encode_hashes(v).len() == compact_bytes(v.len()).len() + 32 * v.len(),
{
    let c = compact_bytes(v.len());
    let e = encode_hashes(v);
    lemma_join(v, 32);
    assert(b.subrange(pos, pos + c.len()) =~= c) by {
        assert(b.subrange(pos, pos + c.len()) =~= e.subrange(0, c.len() as int));
    }
    lemma_compact_round_trip(b, pos, v.len());
    let start = pos + c.len();
    let read = Seq::new(v.len(), |i: int| b.subrange(start + 32 * i, start + 32 * i + 32));
    assert(read =~= v) by {
        assert forall|i: int| 0 <= i < v.len() implies read[i] == v[i] by {
            assert(b.subrange(start + 32 * i, start + 32 * i + 32) =~= b.subrange(
                pos,
                pos + e.len(),
            ).subrange(c.len() + 32 * i, c.len() + 32 * i + 32));
            assert(e.subrange(c.len() + 32 * i, c.len() + 32 * i + 32) =~= join(v).subrange(
                32 * i,
                32 * i + 32,
            ));
        }
    }
}

/// A list of 32-bit numbers is read back.
pub proof fn lemma_indices_round_trip(b: Seq<u8>, pos: int, v: Seq<u32>)
    requires
        0 <= pos,
        v.len() <= u32::MAX,
        pos + encode_indices(v).len() <= b.len(),
        b.subrange(pos, pos + encode_indices(v).len()) == encode_indices(v),
    ensures
        indices_at(b, pos) == Some((v, pos + encode_indices(v).len())),
{
    let c = compact_bytes(v.len());
    let e = encode_indices(v);
    let items = Seq::new(v.len(), |i: int| le_bytes4(v[i]));
    lemma_join(items, 4);
    assert(b.subrange(pos, pos + c.len()) =~= c) by {
        assert(b.subrange(pos, pos + c.len()) =~= e.subrange(0, c.len() as int));
    }
    lemma_compact_round_trip(b, pos, v.len());
    let start = pos + c.len();
    let read = Seq::new(v.len(), |i: int| le32_at(b, start + 4 * i) as u32);
    assert(read =~= v) by {
        assert forall|i: int| 0 <= i < v.len() implies read[i] == v[i] by {
            assert(b.subrange(start + 4 * i, start + 4 * i + 4) =~= b.subrange(
                pos,
                pos + e.len(),
            ).subrange(c.len() + 4 * i, c.len() + 4 * i + 4));
            assert(e.subrange(c.len() + 4 * i, c.len() + 4 * i + 4) =~= join(items).subrange(
                4 * i,
                4 * i + 4,
            ));
            assert(items[i] == le_bytes4(v[i]));
            lemma_le_bytes4_value(b, start + 4 * i, v[i]);
        }
    }
}

/// The first `k` of the paths joined at `start` are read back.
proof fn lemma_paths_upto_round_trip(b: Seq<u8>, start: int, v: Seq<Seq<Seq<u8>>>, k: nat)
    requires
        0 <= start,
        k <= v.len(),
        forall|i: int| 0 <= i < v.len() ==> hashes_fit(#[trigger] v[i]),
        start + join(Seq::new(v.len(), |i: int| encode_hashes(v[i]))).len() <= b.len(),
        b.subrange(start, start + join(Seq::new(v.len(), |i: int| encode_hashes(v[i]))).len())
            == join(Seq::new(v.len(), |i: int| encode_hashes(v[i]))),
    ensures
        paths_upto(b, start, k) == Some(
            (
                v.subrange(0, k as int),
                start + join(Seq::new(k, |i: int| encode_hashes(v[i]))).len(),
            ),
        ),
    decreases k,
{
    let all = Seq::new(v.len(), |i: int| encode_hashes(v[i]));
    if k == 0 {
        assert(v.subrange(0, 0) =~= Seq::<Seq<Seq<u8>>>::empty());
    } else {
        let j = (k - 1) as nat;
        lemma_paths_upto_round_trip(b, start, v, j);
        let done = Seq::new(j, |i: int| encode_hashes(v[i]));
        let upto = Seq::new(k, |i: int| encode_hashes(v[i]));
        assert(upto.drop_last() =~= done);
        assert(upto.last() == encode_hashes(v[j as int]));
        let at = start + join(done).len();
        lemma_join_prefix(all, k);
        assert(all.subrange(0, k as int) =~= upto);
        let item = encode_hashes(v[j as int]);
        assert(join(upto) == join(done) + item);
        assert(b.subrange(at, at + item.len()) =~= item) by {
            assert(join(all).subrange(0, join(upto).len() as int) == join(upto));
            assert forall|i: int| 0 <= i < item.len() implies b.subrange(at, at + item.len())[i]
                == item[i] by {
                assert(b[at + i] == b.subrange(start, start + join(all).len())[join(done).len()
                    + i]);
                assert(join(all)[join(done).len() + i] == join(all).subrange(
                    0,
                    join(upto).len() as int,
                )[join(done).len() + i]);
            }
        }
        lemma_hashes_round_trip(b, at, v[j as int]);
        assert(v.subrange(0, k as int) =~= v.subrange(0, j as int).push(v[j as int]));
    }
}

/// The first `k` values joined are the start of all of them joined.
proof fn lemma_join_prefix(v: Seq<Seq<u8>>, k: nat)
    requires
        k <= v.len(),
    ensures
        join(v.subrange(0, k as int)).len() <= join(v).len(),
        join(v).subrange(0, join(v.subrange(0, k as int)).len() as int) == join(
            v.subrange(0, k as int),
        ),
    decreases v.len(),
{
    if k == v.len() {
        assert(v.subrange(0, k as int) =~= v);
        assert(join(v).subrange(0, join(v).len() as int) =~= join(v));
    } else {
        let shorter = v.drop_last();
        lemma_join_prefix(shorter, k);
        assert(shorter.subrange(0, k as int) =~= v.subrange(0, k as int));
        let part = join(v.subrange(0, k as int));
        assert(join(v).subrange(0, part.len() as int) =~= join(shorter).subrange(
            0,
            part.len() as int,
        ));
    }
}

/// A list of paths is read back.
pub proof fn lemma_paths_round_trip(b: Seq<u8>, pos: int, v: Seq<Seq<Seq<u8>>>)
    requires
        0 <= pos,
        v.len() <= u32::MAX,
        forall|i: int| 0 <= i < v.len() ==> hashes_fit(#[trigger] v[i]),
        pos + encode_paths(v).len() <= b.len(),
        b.subrange(pos, pos + encode_paths(v).len()) == encode_paths(v),
    ensures
        paths_at(b, pos) == Some((v, pos + encode_paths(v).len())),
{
    let c = compact_bytes(v.len());
    let e = encode_paths(v);
    let all = Seq::new(v.len(), |i: int| encode_hashes(v[i]));
    assert(b.subrange(pos, pos + c.len()) =~= c) by {
        assert(b.subrange(pos, pos + c.len()) =~= e.subrange(0, c.len() as int));
    }
    lemma_compact_round_trip(b, pos, v.len());
    let start = pos + c.len();
    assert(b.subrange(start, start + join(all).len()) =~= join(all)) by {
        assert(b.subrange(start, start + join(all).len()) =~= b.subrange(
            pos,
            pos + e.len(),
        ).subrange(c.len() as int, e.len() as int));
        assert(e.subrange(c.len() as int, e.len() as int) =~= join(all));
    }
    lemma_paths_upto_round_trip(b, start, v, v.len());
    assert(v.subrange(0, v.len() as int) =~= v);
}

/// What is encoded is decoded again: public inputs put on the wire, whatever
/// follows them there, are read back as they were.
pub proof fn lemma_decode_encode(p: PublicInputs, rest: Seq<u8>)
    requires
        inputs_fit(p),
    ensures
        decode_inputs(encode_inputs(p) + rest) == Some(p),
{
    let b = encode_inputs(p) + rest;
    let e1 = encode_hashes(p.input_commitments);
    let e2 = encode_indices(p.input_indices);
    let e3 = encode_paths(p.input_paths);
    let e4 = encode_hashes(p.nullifiers);
    let e5 = encode_hashes(p.new_commitments);
    let a1 = 64int;
    let a2 = a1 + e1.len();
    let a3 = a2 + e2.len();
    let a4 = a3 + e3.len();
    let a5 = a4 + e4.len();
    let a6 = a5 + e5.len();
    assert(b.len() == a6 + 80 + rest.len());
    assert(b.subrange(0, 32) =~= p.merkle_root);
    assert(b.subrange(32, 64) =~= p.new_merkle_root);
    assert(b.subrange(a1, a2) =~= e1);
    assert(b.subrange(a2, a3) =~= e2);
    assert(b.subrange(a3, a4) =~= e3);
    assert(b.subrange(a4, a5) =~= e4);
    assert(b.subrange(a5, a6) =~= e5);
    assert(b.subrange(a6, a6 + 32) =~= p.fee_commitment);
    assert(b.subrange(a6 + 32, a6 + 64) =~= p.fee_nullifier);
    assert(b.subrange(a6 + 64, a6 + 80) =~= p.tx_id);
    lemma_hashes_round_trip(b, a1, p.input_commitments);
    lemma_indices_round_trip(b, a2, p.input_indices);
    lemma_paths_round_trip(b, a3, p.input_paths);
    lemma_hashes_round_trip(b, a4, p.nullifiers);
    lemma_hashes_round_trip(b, a5, p.new_commitments);
}

/// Appends the compact form of `n`.
fn write_compact(out: &mut Vec<u8>, n: u32)
    ensures
        final(out)@ == old(out)@ + compact_bytes(n as nat),
{
    let ghost before = out@;
    if n < 0x40 {
        out.push((4 * n) as u8);
        assert(out@ =~= before + compact_bytes(n as nat));
    } else if n < 0x4000 {
        let x = 4 * n + 1;
        out.push((x % 0x100) as u8);
        out.push((x / 0x100) as u8);
        assert(out@ =~= before + compact_bytes(n as nat));
    } else if n < 0x4000_0000 {
        let le = le_bytes4_of(4 * n + 2);
        append_bytes(out, le.as_slice());
    } else {
        out.push(3);
        let le = le_bytes4_of(n);
        append_bytes(out, le.as_slice());
        assert(out@ =~= before + compact_bytes(n as nat));
    }
}

/// Appends a list of 32-byte values; `false`, with nothing appended, when the
/// list is too long for the compact form.
fn write_hashes(out: &mut Vec<u8>, v: &Vec<[u8; 32]>) -> (ok: bool)
    ensures
        ok == (v@.len() <= u32::MAX),
        ok ==> final(out)@ == old(out)@ + encode_hashes(views(v@)),
        !ok ==> final(out)@ == old(out)@,
{
    if v.len() > u32::MAX as usize {
        return false;
    }
    let ghost before = out@;
    let ghost items = views(v@);
    write_compact(out, v.len() as u32);
    let ghost start = out@;
    let mut i: usize = 0;
    assert(items.subrange(0, 0) =~= Seq::<Seq<u8>>::empty());
    assert(out@ =~= start + join(items.subrange(0, 0)));
    while i < v.len()
        invariant
            i <= v@.len(),
            items == views(v@),
            out@ == start + join(items.subrange(0, i as int)),
        decreases v@.len() - i,
    {
        append_bytes(out, v[i].as_slice());
        proof {
            let longer = items.subrange(0, i + 1);
            assert(longer.drop_last() =~= items.subrange(0, i as int));
            assert(longer.last() == v@[i as int]@);
            assert(out@ =~= start + join(longer));
        }
        i += 1;
    }
    assert(items.subrange(0, i as int) =~= items);
    assert(out@ =~= before + encode_hashes(items));
    true
}

/// Appends a list of 32-bit numbers; `false`, with nothing appended, when the
/// list is too long for the compact form.
fn write_indices(out: &mut Vec<u8>, v: &Vec<u32>) -> (ok: bool)
    ensures
        ok == (v@.len() <= u32::MAX),
        ok ==> final(out)@ == old(out)@ + encode_indices(v@),
        !ok ==> final(out)@ == old(out)@,
{
    if v.len() > u32::MAX as usize {
        return false;
    }
    let ghost before = out@;
    let ghost items = Seq::new(v@.len(), |i: int| le_bytes4(v@[i]));
    write_compact(out, v.len() as u32);
    let ghost start = out@;
    let mut i: usize = 0;
    assert(items.subrange(0, 0) =~= Seq::<Seq<u8>>::empty());
    assert(out@ =~= start + join(items.subrange(0, 0)));
    while i < v.len()
        invariant
            i <= v@.len(),
            items == Seq::new(v@.len(), |i: int| le_bytes4(v@[i])),
            out@ == start + join(items.subrange(0, i as int)),
        decreases v@.len() - i,
    {
        let le = le_bytes4_of(v[i]);
        append_bytes(out, le.as_slice());
        proof {
            let longer = items.subrange(0, i + 1);
            assert(longer.drop_last() =~= items.subrange(0, i as int));
            assert(longer.last() == le_bytes4(v@[i as int]));
            assert(out@ =~= start + join(longer));
        }
        i += 1;
    }
    assert(items.subrange(0, i as int) =~= items);
    assert(out@ =~= before + encode_indices(v@));
    true
}

/// Whether every one of `paths` fits the compact form.
pub open spec fn paths_fit(paths: Seq<Seq<Seq<u8>>>) -> bool {
    &&& paths.len() <= u32::MAX
    &&& forall|i: int| 0 <= i < paths.len() ==> (#[trigger] paths[i]).len() <= u32::MAX
}

/// Appends a list of paths; `None` when the list or one of the paths is too
/// long for the compact form.
fn write_paths(out: Vec<u8>, v: &Vec<Vec<[u8; 32]>>) -> (r: Option<Vec<u8>>)
    ensures
        match r {
            Some(longer) => paths_fit(path_views(v@)) && longer@ == out@ + encode_paths(
                path_views(v@),
            ),
            None => !paths_fit(path_views(v@)),
        },
{
    if v.len() > u32::MAX as usize {
        return None;
    }
    let mut out = out;
    let ghost before = out@;
    let ghost paths = path_views(v@);
    let ghost items = Seq::new(paths.len(), |i: int| encode_hashes(paths[i]));
    write_compact(&mut out, v.len() as u32);
    let ghost start = out@;
    let mut i: usize = 0;
    assert(items.subrange(0, 0) =~= Seq::<Seq<u8>>::empty());
    assert(out@ =~= start + join(items.subrange(0, 0)));
    while i < v.len()
        invariant
            i <= v@.len(),
            paths == path_views(v@),
            items == Seq::new(paths.len(), |i: int| encode_hashes(paths[i])),
            out@ == start + join(items.subrange(0, i as int)),
            forall|j: int| 0 <= j < i ==> (#[trigger] paths[j]).len() <= u32::MAX,
        decreases v@.len() - i,
    {
        assert(paths[i as int] == views(v@[i as int]@));
        if !write_hashes(&mut out, &v[i]) {
            return None;
        }
        proof {
            let longer = items.subrange(0, i + 1);
            assert(longer.drop_last() =~= items.subrange(0, i as int));
            assert(longer.last() == encode_hashes(paths[i as int]));
            assert(out@ =~= start + join(longer));
        }
        i += 1;
    }
    assert(items.subrange(0, i as int) =~= items);
    assert(out@ =~= before + encode_paths(paths));
    Some(out)
}

/// Whether every list of `p` fits the compact form.
pub open spec fn lists_fit(p: PublicInputs) -> bool {
    &&& p.input_commitments.len() <= u32::MAX
    &&& p.input_indices.len() <= u32::MAX
    &&& paths_fit(p.input_paths)
    &&& p.nullifiers.len() <= u32::MAX
    &&& p.new_commitments.len() <= u32::MAX
}

impl ProofPublicInputs {
    /// The public inputs in their wire format; `None` when a list is longer
    /// than the format can say.
    pub fn encode(&self) -> (r: Option<Vec<u8>>)
        ensures
            match r {
                Some(bytes) => lists_fit(self@) && bytes@ == encode_inputs(self@),
                None => !lists_fit(self@),
            },
    {
        let mut out: Vec<u8> = Vec::new();
        append_bytes(&mut out, self.merkle_root.as_slice());
        append_bytes(&mut out, self.new_merkle_root.as_slice());
        if !write_hashes(&mut out, &self.input_commitments) {
            return None;
        }
        if !write_indices(&mut out, &self.input_indices) {
            return None;
        }
        let mut out = match write_paths(out, &self.input_paths) {
            Some(out) => out,
            None => {
                return None;
            },
        };
        if !write_hashes(&mut out, &self.nullifiers) {
            return None;
        }
        if !write_hashes(&mut out, &self.new_commitments) {
            return None;
        }
        append_bytes(&mut out, self.fee_commitment.as_slice());
        append_bytes(&mut out, self.fee_nullifier.as_slice());
        append_bytes(&mut out, self.tx_id.as_slice());
        assert(out@ =~= encode_inputs(self@));
        Some(out)
    }
}

/// What a transaction holds can be put on the wire as soon as its lists are
/// short enough, and is then read back as it was.
pub proof fn lemma_encoded_inputs_decode(inputs: ProofPublicInputs, rest: Seq<u8>)
    requires
        lists_fit(inputs@),
    ensures
        inputs_fit(inputs@),
        decode_inputs(encode_inputs(inputs@) + rest) == Some(inputs@),
{
    let p = inputs@;
    assert forall|i: int| 0 <= i < p.input_paths.len() implies hashes_fit(
        #[trigger] p.input_paths[i],
    ) by {
        assert(p.input_paths[i] == views(inputs.input_paths@[i]@));
    }
    lemma_decode_encode(p, rest);
}

} // verus!

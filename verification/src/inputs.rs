//! The public inputs of a shielded transaction and their wire format.
//!
//! On the wire the fields follow one another without padding: fixed-size
//! fields as their bytes, numbers little-endian, and each list as its length
//! in compact form followed by its items. Bytes after the last field are
//! ignored.

use vstd::prelude::*;
use crate::bytes::{read32, views};

verus! {

/// The public statement bound to one transaction.
#[derive(Clone, Debug, PartialEq, Eq)]
pub struct ProofPublicInputs {
    /// The root the transaction was built against.
    pub merkle_root: [u8; 32],
    /// The root claimed for the state after the transaction; all zero when none
    /// is claimed.
    pub new_merkle_root: [u8; 32],
    pub input_commitments: Vec<[u8; 32]>,
    pub input_indices: Vec<u32>,
    pub input_paths: Vec<Vec<[u8; 32]>>,
    pub nullifiers: Vec<[u8; 32]>,
    pub new_commitments: Vec<[u8; 32]>,
    pub fee_commitment: [u8; 32],
    pub fee_nullifier: [u8; 32],
    pub tx_id: [u8; 16],
}

/// The public inputs as mathematical values.
pub struct PublicInputs {
    pub merkle_root: Seq<u8>,
    pub new_merkle_root: Seq<u8>,
    pub input_commitments: Seq<Seq<u8>>,
    pub input_indices: Seq<u32>,
    pub input_paths: Seq<Seq<Seq<u8>>>,
    pub nullifiers: Seq<Seq<u8>>,
    pub new_commitments: Seq<Seq<u8>>,
    pub fee_commitment: Seq<u8>,
    pub fee_nullifier: Seq<u8>,
    pub tx_id: Seq<u8>,
}

/// The byte sequences held by a list of paths.
pub open spec fn path_views(paths: Seq<Vec<[u8; 32]>>) -> Seq<Seq<Seq<u8>>> {
    Seq::new(paths.len(), |i: int| views(paths[i]@))
}

impl View for ProofPublicInputs {
    type V = PublicInputs;

    open spec fn view(&self) -> PublicInputs {
        PublicInputs {
            merkle_root: self.merkle_root@,
            new_merkle_root: self.new_merkle_root@,
            input_commitments: views(self.input_commitments@),
            input_indices: self.input_indices@,
            input_paths: path_views(self.input_paths@),
            nullifiers: views(self.nullifiers@),
            new_commitments: views(self.new_commitments@),
            fee_commitment: self.fee_commitment@,
            fee_nullifier: self.fee_nullifier@,
            tx_id: self.tx_id@,
        }
    }
}

/// The number held little-endian in `b[pos..pos + 2]`.
pub open spec fn le16_at(b: Seq<u8>, pos: int) -> nat {
    (b[pos] as nat) + 0x100 * (b[pos + 1] as nat)
}

/// The number held little-endian in `b[pos..pos + 4]`.
pub open spec fn le32_at(b: Seq<u8>, pos: int) -> nat {
    (b[pos] as nat) + 0x100 * (b[pos + 1] as nat) + 0x1_0000 * (b[pos + 2] as nat) + 0x100_0000 * (
    b[pos + 3] as nat)
}

/// A length in compact form at `pos`: the length and the position after it.
///
/// The low two bits of the first byte give the form: one byte holding a
/// length below 64; two bytes, below 2^14; four bytes, below 2^30; or a marker
/// byte followed by four bytes. In the wider forms the number is held
/// little-endian, in the first three above the two form bits. A length that a
/// shorter form could hold, and a marker for more than four bytes, are refused.
pub open spec fn compact_at(b: Seq<u8>, pos: int) -> Option<(nat, int)> {
    if pos < 0 || pos >= b.len() {
        None
    } else {
        let first = b[pos] as nat;
        if first % 4 == 0 {
            Some((first / 4, pos + 1))
        } else if first % 4 == 1 {
            if pos + 2 <= b.len() && le16_at(b, pos) / 4 > 0x3f {
                Some((le16_at(b, pos) / 4, pos + 2))
            } else {
                None
            }
        } else if first % 4 == 2 {
            if pos + 4 <= b.len() && le32_at(b, pos) / 4 > 0x3fff {
                Some((le32_at(b, pos) / 4, pos + 4))
            } else {
                None
            }
        } else {
            if first / 4 == 0 && pos + 5 <= b.len() && le32_at(b, pos + 1) > 0x3fff_ffff {
                Some((le32_at(b, pos + 1), pos + 5))
            } else {
                None
            }
        }
    }
}

/// A list of 32-byte values at `pos`: the values and the position after them.
pub open spec fn hashes_at(b: Seq<u8>, pos: int) -> Option<(Seq<Seq<u8>>, int)> {
    match compact_at(b, pos) {
        None => None,
        Some((n, p)) => if p + 32 * n <= b.len() {
            Some((Seq::new(n, |i: int| b.subrange(p + 32 * i, p + 32 * i + 32)), p + 32 * n))
        } else {
            None
        },
    }
}

/// A list of 32-bit numbers at `pos`: the numbers and the position after them.
pub open spec fn indices_at(b: Seq<u8>, pos: int) -> Option<(Seq<u32>, int)> {
    match compact_at(b, pos) {
        None => None,
        Some((n, p)) => if p + 4 * n <= b.len() {
            Some((Seq::new(n, |i: int| le32_at(b, p + 4 * i) as u32), p + 4 * n))
        } else {
            None
        },
    }
}

/// The first `k` lists of 32-byte values that follow one another from `start`.
pub open spec fn paths_upto(b: Seq<u8>, start: int, k: nat) -> Option<(Seq<Seq<Seq<u8>>>, int)>
    decreases k,
{
    if k == 0 {
        Some((Seq::empty(), start))
    } else {
        match paths_upto(b, start, (k - 1) as nat) {
            None => None,
            Some((done, p)) => match hashes_at(b, p) {
                None => None,
                Some((path, q)) => Some((done.push(path), q)),
            },
        }
    }
}

/// A list of paths at `pos`: the paths and the position after them.
pub open spec fn paths_at(b: Seq<u8>, pos: int) -> Option<(Seq<Seq<Seq<u8>>>, int)> {
    match compact_at(b, pos) {
        None => None,
        Some((n, p)) => paths_upto(b, p, n),
    }
}

/// The public inputs that `b` holds, if it holds any.
pub open spec fn decode_inputs(b: Seq<u8>) -> Option<PublicInputs> {
    if b.len() < 64 {
        None
    } else {
        match hashes_at(b, 64) {
            None => None,
            Some((input_commitments, at_indices)) => match indices_at(b, at_indices) {
                None => None,
                Some((input_indices, at_paths)) => match paths_at(b, at_paths) {
                    None => None,
                    Some((input_paths, at_nullifiers)) => match hashes_at(b, at_nullifiers) {
                        None => None,
                        Some((nullifiers, at_outputs)) => match hashes_at(b, at_outputs) {
                            None => None,
                            Some((new_commitments, at_fee)) => if at_fee + 80 <= b.len() {
                                Some(
                                    PublicInputs {
                                        merkle_root: b.subrange(0, 32),
                                        new_merkle_root: b.subrange(32, 64),
                                        input_commitments,
                                        input_indices,
                                        input_paths,
                                        nullifiers,
                                        new_commitments,
                                        fee_commitment: b.subrange(at_fee, at_fee + 32),
                                        fee_nullifier: b.subrange(at_fee + 32, at_fee + 64),
                                        tx_id: b.subrange(at_fee + 64, at_fee + 80),
                                    },
                                )
                            } else {
                                None
                            },
                        },
                    },
                },
            },
        }
    }
}

/// Once a path fails to decode, no longer list of paths decodes.
proof fn lemma_paths_upto_fails(b: Seq<u8>, start: int, k: nat, n: nat)
    requires
        k <= n,
        paths_upto(b, start, k) is None,
    ensures
        paths_upto(b, start, n) is None,
    decreases n,
{
    if k < n {
        lemma_paths_upto_fails(b, start, k, (n - 1) as nat);
    }
}

fn read_u32(data: &[u8], pos: usize) -> (x: u32)
    requires
        pos + 4 <= data@.len(),
    ensures
        x == le32_at(data@, pos as int),
{
    let len = data.len();
    let b0 = data[pos] as u32;
    let b1 = data[pos + 1] as u32;
    let b2 = data[pos + 2] as u32;
    let b3 = data[pos + 3] as u32;
    b0 + 0x100 * b1 + 0x1_0000 * b2 + 0x100_0000 * b3
}

fn read_compact(data: &[u8], pos: usize) -> (r: Option<(u32, usize)>)
    ensures
        match r {
            Some((n, p)) => compact_at(data@, pos as int) == Some((n as nat, p as int)) && pos < p
                <= data@.len(),
            None => compact_at(data@, pos as int) is None,
        },
{
    let len = data.len();
    if pos >= len {
        return None;
    }
    let first = data[pos];
    let form = first % 4;
    if form == 0 {
        Some(((first / 4) as u32, pos + 1))
    } else if form == 1 {
        if len - pos < 2 {
            return None;
        }
        let x = (first as u32 + 0x100 * (data[pos + 1] as u32)) / 4;
        if x > 0x3f {
            Some((x, pos + 2))
        } else {
            None
        }
    } else if form == 2 {
        if len - pos < 4 {
            return None;
        }
        let x = read_u32(data, pos) / 4;
        if x > 0x3fff {
            Some((x, pos + 4))
        } else {
            None
        }
    } else {
        if first / 4 != 0 || len - pos < 5 {
            return None;
        }
        let x = read_u32(data, pos + 1);
        if x > 0x3fff_ffff {
            Some((x, pos + 5))
        } else {
            None
        }
    }
}

fn read_hashes(data: &[u8], pos: usize) -> (r: Option<(Vec<[u8; 32]>, usize)>)
    ensures
        match r {
            Some((v, p)) => hashes_at(data@, pos as int) == Some((views(v@), p as int)) && pos < p
                <= data@.len(),
            None => hashes_at(data@, pos as int) is None,
        },
{
    let len = data.len();
    let (n, start) = match read_compact(data, pos) {
        Some(found) => found,
        None => {
            return None;
        },
    };
    if ((len - start) as u64) < 32 * (n as u64) {
        return None;
    }
    let count = n as usize;
    let mut out: Vec<[u8; 32]> = Vec::new();
    let mut i: usize = 0;
    while i < count
        invariant
            len == data@.len(),
            start + 32 * count <= len,
            i <= count,
            out@.len() == i,
            forall|j: int|
                0 <= j < i ==> (#[trigger] out@[j])@ == data@.subrange(
                    start + 32 * j,
                    start + 32 * j + 32,
                ),
        decreases count - i,
    {
        let item = read32(data, start + 32 * i);
        out.push(item);
        i += 1;
    }
    assert(views(out@) =~= Seq::new(
        n as nat,
        |i: int| data@.subrange(start + 32 * i, start + 32 * i + 32),
    ));
    Some((out, start + 32 * count))
}

fn read_indices(data: &[u8], pos: usize) -> (r: Option<(Vec<u32>, usize)>)
    ensures
        match r {
            Some((v, p)) => indices_at(data@, pos as int) == Some((v@, p as int)) && pos < p
                <= data@.len(),
            None => indices_at(data@, pos as int) is None,
        },
{
    let len = data.len();
    let (n, start) = match read_compact(data, pos) {
        Some(found) => found,
        None => {
            return None;
        },
    };
    if ((len - start) as u64) < 4 * (n as u64) {
        return None;
    }
    let count = n as usize;
    let mut out: Vec<u32> = Vec::new();
    let mut i: usize = 0;
    while i < count
        invariant
            len == data@.len(),
            start + 4 * count <= len,
            i <= count,
            out@.len() == i,
            forall|j: int| 0 <= j < i ==> #[trigger] out@[j] == le32_at(data@, start + 4 * j),
        decreases count - i,
    {
        let item = read_u32(data, start + 4 * i);
        out.push(item);
        i += 1;
    }
    assert(out@ =~= Seq::new(n as nat, |i: int| le32_at(data@, start + 4 * i) as u32));
    Some((out, start + 4 * count))
}

fn read_paths(data: &[u8], pos: usize) -> (r: Option<(Vec<Vec<[u8; 32]>>, usize)>)
    ensures
        match r {
            Some((v, p)) => paths_at(data@, pos as int) == Some((path_views(v@), p as int)) && pos
                < p <= data@.len(),
            None => paths_at(data@, pos as int) is None,
        },
{
    let (n, start) = match read_compact(data, pos) {
        Some(found) => found,
        None => {
            return None;
        },
    };
    let mut out: Vec<Vec<[u8; 32]>> = Vec::new();
    let mut at = start;
    let mut i: u32 = 0;
    assert(path_views(out@) =~= Seq::empty());
    while i < n
        invariant
            i <= n,
            start <= at <= data@.len(),
            compact_at(data@, pos as int) == Some((n as nat, start as int)),
            paths_upto(data@, start as int, i as nat) == Some((path_views(out@), at as int)),
        decreases n - i,
    {
        let ghost before = out@;
        match read_hashes(data, at) {
            None => {
                proof {
                    assert(((i + 1) as nat - 1) as nat == i as nat);
                    assert(paths_upto(data@, start as int, (i + 1) as nat) is None);
                    lemma_paths_upto_fails(data@, start as int, (i + 1) as nat, n as nat);
                }
                return None;
            },
            Some((path, next)) => {
                out.push(path);
                assert(path_views(out@) =~= path_views(before).push(views(path@)));
                at = next;
            },
        }
        i += 1;
    }
    Some((out, at))
}

impl ProofPublicInputs {
    /// Decodes public inputs from their wire format.
    ///
    /// Returns `None` exactly when `data` holds no public inputs: when it ends
    /// before the last field, or a list length is not in canonical compact form.
    pub fn decode(data: &[u8]) -> (r: Option<ProofPublicInputs>)
        ensures
            match r {
                Some(inputs) => decode_inputs(data@) == Some(inputs@),
                None => decode_inputs(data@) is None,
            },
    {
        let len = data.len();
        if len < 64 {
            return None;
        }
        let merkle_root = read32(data, 0);
        let new_merkle_root = read32(data, 32);
        let (input_commitments, at_indices) = match read_hashes(data, 64) {
            Some(found) => found,
            None => {
                return None;
            },
        };
        let (input_indices, at_paths) = match read_indices(data, at_indices) {
            Some(found) => found,
            None => {
                return None;
            },
        };
        let (input_paths, at_nullifiers) = match read_paths(data, at_paths) {
            Some(found) => found,
            None => {
                return None;
            },
        };
        let (nullifiers, at_outputs) = match read_hashes(data, at_nullifiers) {
            Some(found) => found,
            None => {
                return None;
            },
        };
        let (new_commitments, at_fee) = match read_hashes(data, at_outputs) {
            Some(found) => found,
            None => {
                return None;
            },
        };
        if len - at_fee < 80 {
            return None;
        }
        let fee_commitment = read32(data, at_fee);
        let fee_nullifier = read32(data, at_fee + 32);
        let mut tx_id = [0u8; 16];
        let mut i: usize = 0;
        while i < 16
            invariant
                i <= 16,
                at_fee + 80 <= data@.len() == len,
                forall|j: int| 0 <= j < i ==> tx_id@[j] == data@[at_fee + 64 + j],
            decreases 16 - i,
        {
            tx_id[i] = data[at_fee + 64 + i];
            i += 1;
        }
        assert(tx_id@ =~= data@.subrange(at_fee + 64, at_fee + 80));
        Some(
            ProofPublicInputs {
                merkle_root,
                new_merkle_root,
                input_commitments,
                input_indices,
                input_paths,
                nullifiers,
                new_commitments,
                fee_commitment,
                fee_nullifier,
                tx_id,
            },
        )
    }
}

} // verus!

//! A counter-mode byte stream seeded from 32 bytes.
//!
//! Block `k` of the stream is the 64-byte BLAKE2b digest of the seed followed
//! by `k` as eight little-endian bytes. The generator hands the blocks out
//! byte by byte, starting with block 0, so its whole output is a function of
//! the seed.

use vstd::prelude::*;
use crate::bytes::{
    append_bytes,
    le_bytes8,
    le_bytes_of,
    le_value,
    lemma_pow256_values,
    pow256,
};
use crate::hashing::{blake2b512_digest, blake2b_512};
use rand_core::Error as RandFailure;

verus! {

/// Block `ctr` of the stream seeded with `seed`.
pub open spec fn stream_block(seed: Seq<u8>, ctr: u64) -> Seq<u8> {
    blake2b512_digest(seed + le_bytes8(ctr))
}

/// What a generator holds: the seed, the number of the next block, the
/// current block and the position of the next byte in it (64 when the block is
/// used up).
pub struct RngState {
    pub seed: Seq<u8>,
    pub ctr: u64,
    pub buf: Seq<u8>,
    pub idx: nat,
}

impl RngState {
    /// The state of a generator that has produced nothing yet.
    pub open spec fn fresh(seed: Seq<u8>) -> RngState {
        RngState { seed, ctr: 0, buf: Seq::new(64, |i: int| 0u8), idx: 64 }
    }

    /// The state after the current block is replaced by the next one.
    pub open spec fn refilled(self) -> RngState {
        RngState {
            seed: self.seed,
            ctr: self.ctr.wrapping_add(1),
            buf: stream_block(self.seed, self.ctr),
            idx: 0,
        }
    }

    /// The state from which the next byte is read.
    pub open spec fn ready(self) -> RngState {
        if self.idx >= 64 {
            self.refilled()
        } else {
            self
        }
    }

    /// The next `n` bytes of output.
    pub open spec fn output(self, n: nat) -> Seq<u8>
        decreases n,
    {
        if n == 0 {
            Seq::empty()
        } else {
            let r = self.ready();
            seq![r.buf[r.idx as int]] + RngState { idx: r.idx + 1, ..r }.output((n - 1) as nat)
        }
    }

    /// The state after `n` bytes of output.
    pub open spec fn advance(self, n: nat) -> RngState
        decreases n,
    {
        if n == 0 {
            self
        } else {
            let r = self.ready();
            RngState { idx: r.idx + 1, ..r }.advance((n - 1) as nat)
        }
    }
}

/// Reading `n` bytes and then one more is reading `n + 1` bytes.
pub proof fn lemma_output_step(s: RngState, n: nat)
    ensures
        s.output(n + 1) == s.output(n).push(
            s.advance(n).ready().buf[s.advance(n).ready().idx as int],
        ),
        s.advance(n + 1) == (RngState {
            idx: s.advance(n).ready().idx + 1,
            ..s.advance(n).ready()
        }),
    decreases n,
{
    if n == 0 {
        let r = s.ready();
        let next = RngState { idx: r.idx + 1, ..r };
        assert(next.output(0) =~= Seq::empty());
        assert(s.output(1) =~= seq![r.buf[r.idx as int]] + next.output(0));
        assert(s.output(1) =~= s.output(0).push(r.buf[r.idx as int]));
        assert(next.advance(0) == next);
    } else {
        let r = s.ready();
        let next = RngState { idx: r.idx + 1, ..r };
        lemma_output_step(next, (n - 1) as nat);
        assert(s.output(n + 1) =~= seq![r.buf[r.idx as int]] + next.output(n));
        assert(s.output(n) =~= seq![r.buf[r.idx as int]] + next.output((n - 1) as nat));
        assert(s.output(n + 1) =~= s.output(n).push(
            s.advance(n).ready().buf[s.advance(n).ready().idx as int],
        ));
    }
}

/// The deterministic generator.
pub struct DeterministicRng {
    seed: [u8; 32],
    ctr: u64,
    buf: [u8; 64],
    idx: usize,
}

impl View for DeterministicRng {
    type V = RngState;

    closed spec fn view(&self) -> RngState {
        RngState { seed: self.seed@, ctr: self.ctr, buf: self.buf@, idx: self.idx as nat }
    }
}

impl DeterministicRng {
    #[verifier::type_invariant]
    spec fn inv(self) -> bool {
        self.idx <= 64
    }

    /// A generator seeded with `seed32` that has produced nothing yet.
    pub fn new(seed32: [u8; 32]) -> (rng: Self)
        ensures
            rng@ == RngState::fresh(seed32@),
    {
        let rng = DeterministicRng { seed: seed32, ctr: 0, buf: [0u8; 64], idx: 64 };
        assert(rng.buf@ =~= Seq::new(64, |i: int| 0u8));
        rng
    }

    /// Replaces the current block by the next block of the stream.
    fn refill(&mut self)
        ensures
            final(self)@ == old(self)@.refilled(),
    {
        proof {
            use_type_invariant(&*self);
        }
        let mut data: Vec<u8> = Vec::new();
        append_bytes(&mut data, self.seed.as_slice());
        let le = le_bytes_of(self.ctr);
        append_bytes(&mut data, le.as_slice());
        self.buf = blake2b_512(data.as_slice());
        self.idx = 0;
        self.ctr = self.ctr.wrapping_add(1);
    }

    /// Fills `dest` with the next bytes of the stream.
    pub fn fill_bytes(&mut self, dest: &mut [u8])
        ensures
            final(dest)@ == old(self)@.output(old(dest)@.len()),
            final(self)@ == old(self)@.advance(old(dest)@.len()),
    {
        proof {
            use_type_invariant(&*self);
        }
        let n = dest.len();
        let mut written: usize = 0;
        while written < n
            invariant
                n == dest@.len(),
                dest@.len() == old(dest)@.len(),
                written <= n,
                self.idx <= 64,
                dest@.subrange(0, written as int) == old(self)@.output(written as nat),
                self@ == old(self)@.advance(written as nat),
            decreases n - written,
        {
            proof {
                lemma_output_step(old(self)@, written as nat);
            }
            if self.idx >= 64 {
                self.refill();
            }
            let ghost before = dest@;
            dest[written] = self.buf[self.idx];
            self.idx += 1;
            assert(dest@.subrange(0, written + 1) =~= before.subrange(0, written as int).push(
                dest@[written as int],
            ));
            written += 1;
        }
        assert(dest@.subrange(0, n as int) =~= dest@);
    }
}

impl DeterministicRng {
    /// The next four bytes of the stream as a little-endian number.
    pub fn next_u32(&mut self) -> (x: u32)
        ensures
            x == le_value(old(self)@.output(4), 4),
            final(self)@ == old(self)@.advance(4),
    {
        let mut b = [0u8; 4];
        self.fill_bytes(&mut b);
        let mut x: u32 = 0;
        let mut i: usize = 4;
        while i > 0
            invariant
                i <= 4,
                x == le_value(b@.subrange(i as int, 4), (4 - i) as nat),
                x < pow256((4 - i) as nat),
            decreases i,
        {
            i -= 1;
            proof {
                let tail = b@.subrange(i as int, 4);
                assert(tail.drop_first() =~= b@.subrange(i + 1, 4));
                lemma_pow256_values();
            }
            x = x * 256 + b[i] as u32;
        }
        assert(b@.subrange(0, 4) =~= b@);
        x
    }

    /// The next eight bytes of the stream as a little-endian number.
    pub fn next_u64(&mut self) -> (x: u64)
        ensures
            x == le_value(old(self)@.output(8), 8),
            final(self)@ == old(self)@.advance(8),
    {
        let mut b = [0u8; 8];
        self.fill_bytes(&mut b);
        let mut x: u64 = 0;
        let mut i: usize = 8;
        while i > 0
            invariant
                i <= 8,
                x == le_value(b@.subrange(i as int, 8), (8 - i) as nat),
                x < pow256((8 - i) as nat),
            decreases i,
        {
            i -= 1;
            proof {
                let tail = b@.subrange(i as int, 8);
                assert(tail.drop_first() =~= b@.subrange(i + 1, 8));
                lemma_pow256_values();
            }
            x = x * 256 + b[i] as u64;
        }
        assert(b@.subrange(0, 8) =~= b@);
        x
    }
}

/// The failure type of `rand_core`'s fallible methods; no value of it is ever
/// made here.
#[verifier::external_type_specification]
#[verifier::external_body]
pub struct ExRandFailure(RandFailure);

impl rand_core::RngCore for DeterministicRng {
    /// The next four bytes of the stream as a little-endian number.
    fn next_u32(&mut self) -> (x: u32)
        ensures
            x == le_value(old(self)@.output(4), 4),
            final(self)@ == old(self)@.advance(4),
    {
        DeterministicRng::next_u32(self)
    }

    /// The next eight bytes of the stream as a little-endian number.
    fn next_u64(&mut self) -> (x: u64)
        ensures
            x == le_value(old(self)@.output(8), 8),
            final(self)@ == old(self)@.advance(8),
    {
        DeterministicRng::next_u64(self)
    }

    /// Fills `dest` with the next bytes of the stream.
    fn fill_bytes(&mut self, dest: &mut [u8])
        ensures
            final(dest)@ == old(self)@.output(old(dest)@.len()),
            final(self)@ == old(self)@.advance(old(dest)@.len()),
    {
        DeterministicRng::fill_bytes(self, dest)
    }

    /// Fills `dest` with the next bytes of the stream; this never fails.
    fn try_fill_bytes(&mut self, dest: &mut [u8]) -> (r: Result<(), RandFailure>)
        ensures
            r is Ok,
            final(dest)@ == old(self)@.output(old(dest)@.len()),
            final(self)@ == old(self)@.advance(old(dest)@.len()),
    {
        DeterministicRng::fill_bytes(self, dest);
        Ok(())
    }
}

impl rand_core::CryptoRng for DeterministicRng {

}

} // verus!

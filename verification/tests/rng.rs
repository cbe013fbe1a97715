use blake2::{Blake2b512, Digest};
use proofhub::bytes::le_bytes_of;
use proofhub::rng::DeterministicRng;
use rand_core::RngCore;

fn block(seed: &[u8; 32], ctr: u64) -> Vec<u8> {
    let mut data = seed.to_vec();
    data.extend_from_slice(&ctr.to_le_bytes());
    Blake2b512::digest(&data).to_vec()
}

#[test]
fn the_first_bytes_are_block_zero() {
    let seed = [7u8; 32];
    let mut rng = DeterministicRng::new(seed);
    let mut out = [0u8; 64];
    DeterministicRng::fill_bytes(&mut rng, &mut out);
    assert_eq!(out.to_vec(), block(&seed, 0));
}

#[test]
fn blocks_follow_one_another_across_calls() {
    let seed = [9u8; 32];
    let mut expected = block(&seed, 0);
    expected.extend(block(&seed, 1));
    expected.extend(block(&seed, 2));
    let mut rng = DeterministicRng::new(seed);
    let mut got = Vec::new();
    for len in [1usize, 10, 53, 0, 64, 37, 27] {
        let mut part = vec![0u8; len];
        DeterministicRng::fill_bytes(&mut rng, &mut part);
        got.extend(part);
    }
    assert_eq!(got.len(), 192);
    assert_eq!(got, expected);
}

#[test]
fn the_same_seed_gives_the_same_stream() {
    let mut a = DeterministicRng::new([1u8; 32]);
    let mut b = DeterministicRng::new([1u8; 32]);
    let mut c = DeterministicRng::new([2u8; 32]);
    let (x, y, z) = (a.next_u64(), b.next_u64(), c.next_u64());
    assert_eq!(x, y);
    assert_ne!(x, z);
}

#[test]
fn numbers_are_little_endian_reads_of_the_stream() {
    let seed = [3u8; 32];
    let b0 = block(&seed, 0);
    let mut rng = DeterministicRng::new(seed);
    let x = DeterministicRng::next_u32(&mut rng);
    let y = DeterministicRng::next_u64(&mut rng);
    assert_eq!(x, u32::from_le_bytes([b0[0], b0[1], b0[2], b0[3]]));
    let mut eight = [0u8; 8];
    eight.copy_from_slice(&b0[4..12]);
    assert_eq!(y, u64::from_le_bytes(eight));
}

#[test]
fn the_generator_serves_as_a_rand_core_rng() {
    let seed = [5u8; 32];
    let b0 = block(&seed, 0);
    let mut rng = DeterministicRng::new(seed);
    let mut out = [0u8; 16];
    RngCore::try_fill_bytes(&mut rng, &mut out).unwrap();
    assert_eq!(out.to_vec(), b0[..16].to_vec());
    let n = RngCore::next_u32(&mut rng);
    assert_eq!(n, u32::from_le_bytes([b0[16], b0[17], b0[18], b0[19]]));
}

#[test]
fn le_bytes_of_matches_the_standard_encoding() {
    for x in [0u64, 1, 255, 256, 0x0102_0304_0506_0708, u64::MAX] {
        assert_eq!(le_bytes_of(x), x.to_le_bytes());
    }
}

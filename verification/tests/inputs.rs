use parity_scale_codec::{Compact, Decode, Encode};
use proofhub::inputs::ProofPublicInputs;

fn sample() -> ProofPublicInputs {
    ProofPublicInputs {
        merkle_root: [1u8; 32],
        new_merkle_root: [2u8; 32],
        input_commitments: vec![[3u8; 32], [4u8; 32]],
        input_indices: vec![7, 0x0102_0304],
        input_paths: vec![vec![[5u8; 32], [6u8; 32], [7u8; 32]], vec![]],
        nullifiers: vec![[8u8; 32], [9u8; 32]],
        new_commitments: vec![[10u8; 32]],
        fee_commitment: [11u8; 32],
        fee_nullifier: [12u8; 32],
        tx_id: [13u8; 16],
    }
}

fn encode(p: &ProofPublicInputs) -> Vec<u8> {
    (
        p.merkle_root,
        p.new_merkle_root,
        p.input_commitments.clone(),
        p.input_indices.clone(),
        p.input_paths.clone(),
        p.nullifiers.clone(),
        p.new_commitments.clone(),
        p.fee_commitment,
        p.fee_nullifier,
        p.tx_id,
    )
        .encode()
}

fn with_lists(n: usize) -> ProofPublicInputs {
    let mut p = sample();
    p.input_commitments = (0..n).map(|i| [(i % 251) as u8; 32]).collect();
    p.input_indices = (0..n as u32).collect();
    p.nullifiers = (0..n).map(|i| [(i % 7) as u8; 32]).collect();
    p
}

#[test]
fn decodes_what_the_codec_encodes() {
    let p = sample();
    assert_eq!(ProofPublicInputs::decode(&encode(&p)), Some(p));
}

#[test]
fn decodes_the_written_out_bytes() {
    let mut bytes = Vec::new();
    bytes.extend([0xaau8; 32]);
    bytes.extend([0u8; 32]);
    bytes.push(1 << 2);
    bytes.extend([0x11u8; 32]);
    bytes.push(1 << 2);
    bytes.extend([0x04, 0x03, 0x02, 0x01]);
    bytes.push(1 << 2);
    bytes.push(2 << 2);
    bytes.extend([0x21u8; 32]);
    bytes.extend([0x22u8; 32]);
    bytes.push(1 << 2);
    bytes.extend([0x33u8; 32]);
    bytes.push(0);
    bytes.extend([0x44u8; 32]);
    bytes.extend([0x55u8; 32]);
    bytes.extend([0x66u8; 16]);
    let expected = ProofPublicInputs {
        merkle_root: [0xaa; 32],
        new_merkle_root: [0; 32],
        input_commitments: vec![[0x11; 32]],
        input_indices: vec![0x0102_0304],
        input_paths: vec![vec![[0x21; 32], [0x22; 32]]],
        nullifiers: vec![[0x33; 32]],
        new_commitments: vec![],
        fee_commitment: [0x44; 32],
        fee_nullifier: [0x55; 32],
        tx_id: [0x66; 16],
    };
    assert_eq!(ProofPublicInputs::decode(&bytes), Some(expected));
}

#[test]
fn empty_lists_decode() {
    let p = with_lists(0);
    assert_eq!(ProofPublicInputs::decode(&encode(&p)), Some(p));
}

#[test]
fn lengths_in_the_two_byte_form_decode() {
    for n in [63usize, 64, 65, 300] {
        let p = with_lists(n);
        assert_eq!(ProofPublicInputs::decode(&encode(&p)), Some(p));
    }
}

#[test]
fn lengths_in_the_four_byte_form_decode() {
    for n in [16383usize, 16384, 16385] {
        let p = with_lists(n);
        assert_eq!(ProofPublicInputs::decode(&encode(&p)), Some(p));
    }
}

#[test]
fn bytes_after_the_last_field_are_ignored() {
    let p = sample();
    let mut bytes = encode(&p);
    bytes.extend([0xffu8; 9]);
    assert_eq!(ProofPublicInputs::decode(&bytes), Some(p));
}

#[test]
fn every_truncation_is_refused() {
    let bytes = encode(&sample());
    for len in 0..bytes.len() {
        assert_eq!(ProofPublicInputs::decode(&bytes[..len]), None, "length {}", len);
    }
}

fn with_length_prefix(prefix: &[u8], items: usize) -> Vec<u8> {
    let mut bytes = Vec::new();
    bytes.extend([0u8; 64]);
    bytes.extend_from_slice(prefix);
    bytes.extend(vec![0u8; 32 * items]);
    // The other four lists are empty, then the three fixed fields.
    bytes.extend([0u8; 4]);
    bytes.extend([0u8; 80]);
    bytes
}

#[test]
fn a_length_in_a_longer_form_than_needed_is_refused() {
    // 1 in the two-byte form, 1 in the four-byte form, 1 behind the marker.
    for prefix in [vec![0x05u8, 0x00], vec![0x06, 0, 0, 0], vec![0x03, 1, 0, 0, 0]] {
        let bytes = with_length_prefix(&prefix, 1);
        assert_eq!(ProofPublicInputs::decode(&bytes), None);
        assert!(<Compact<u32>>::decode(&mut &prefix[..]).is_err());
    }
    let good = with_length_prefix(&[0x04], 1);
    assert_eq!(ProofPublicInputs::decode(&good).unwrap().input_commitments.len(), 1);
}

#[test]
fn a_marker_for_more_than_four_bytes_is_refused() {
    let prefix = vec![0x07u8, 0, 0, 0, 0x40, 0];
    assert_eq!(ProofPublicInputs::decode(&with_length_prefix(&prefix, 0)), None);
    assert!(<Compact<u32>>::decode(&mut &prefix[..]).is_err());
}

#[test]
fn a_length_beyond_the_input_is_refused() {
    // 2^30 items announced behind the marker byte.
    let prefix = vec![0x03u8, 0, 0, 0, 0x40];
    assert_eq!(<Compact<u32>>::decode(&mut &prefix[..]).unwrap().0, 1 << 30);
    assert_eq!(ProofPublicInputs::decode(&with_length_prefix(&prefix, 3)), None);
    let prefix = Compact(5u32).encode();
    assert_eq!(ProofPublicInputs::decode(&with_length_prefix(&prefix, 4)), None);
}

#[test]
fn decoding_agrees_with_the_codec_on_list_lengths() {
    for n in [0u32, 1, 63, 64, 16383, 16384, (1 << 30) - 1, 1 << 30, u32::MAX] {
        let prefix = Compact(n).encode();
        let mut bytes = vec![0u8; 64];
        bytes.extend_from_slice(&prefix);
        let decoded = ProofPublicInputs::decode(&bytes);
        // No item follows, so only the empty list can decode, and then the
        // input ends before the next list.
        assert_eq!(decoded, None);
        let list = <Vec<[u8; 32]>>::decode(&mut &prefix[..]);
        assert_eq!(list.is_ok(), n == 0);
    }
}

#[test]
fn encodes_as_the_codec_does() {
    assert_eq!(sample().encode(), Some(encode(&sample())));
    for n in [0usize, 1, 63, 64, 300, 16383, 16384, 16385] {
        let p = with_lists(n);
        assert_eq!(p.encode(), Some(encode(&p)), "lists of {}", n);
    }
}

#[test]
fn what_is_encoded_decodes_to_itself() {
    for n in [0usize, 5, 64, 16384] {
        let mut p = with_lists(n);
        p.input_paths = (0..n.min(70)).map(|i| vec![[i as u8; 32]; i]).collect();
        let mut bytes = p.encode().unwrap();
        assert_eq!(ProofPublicInputs::decode(&bytes), Some(p.clone()));
        bytes.extend([1, 2, 3]);
        assert_eq!(ProofPublicInputs::decode(&bytes), Some(p));
    }
}

#[test]
fn the_compact_form_of_a_length_is_the_shortest_that_holds_it() {
    for (n, prefix) in [
        (0usize, vec![0u8]),
        (1, vec![4]),
        (63, vec![252]),
        (64, vec![1, 1]),
        (16383, vec![253, 255]),
        (16384, vec![2, 0, 1, 0]),
    ] {
        let bytes = with_lists(n).encode().unwrap();
        assert_eq!(&bytes[64..64 + prefix.len()], &prefix[..], "length {}", n);
        assert_eq!(Compact(n as u32).encode(), prefix);
    }
}

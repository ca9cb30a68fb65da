//! Fast-scan identity tests: the packed block accumulator must equal the
//! streaming per-candidate accumulator on any block and any lookup table.

use rand::Rng;

use vchordrq::packing::{accumulate, accumulate_block, pack_code, pack_to_u4, padding_pack};

fn identity_for_dims(d: usize) {
    let mut rng = rand::rng();
    let groups = (d + 3) / 4;
    let mut codes: Vec<Vec<u8>> = Vec::new();
    for _ in 0..32 {
        let bits: Vec<bool> = (0..d).map(|_| rng.random()).collect();
        let nibbles = pack_to_u4(&bits);
        assert_eq!(nibbles.len(), groups);
        codes.push(nibbles);
    }
    let block = padding_pack(&codes, groups);
    assert_eq!(block.len(), 2 * groups);
    let lut: Vec<u8> = (0..16 * groups).map(|_| rng.random()).collect();
    let block_result = accumulate_block(&block, &lut, groups);
    for c in 0..32 {
        let streaming = accumulate(&codes[c], &lut);
        assert_eq!(block_result[c], streaming);
    }
}

#[test]
fn fast_scan_identity_d64() {
    identity_for_dims(64);
}

#[test]
fn fast_scan_identity_d256() {
    identity_for_dims(256);
}

#[test]
fn fast_scan_identity_d960() {
    identity_for_dims(960);
}

#[test]
fn fast_scan_identity_partial_batch() {
    // fewer than thirty-two candidates: the padded lanes accumulate the
    // zero-nibble entry of every group
    let mut rng = rand::rng();
    let groups = 16;
    let mut codes: Vec<Vec<u8>> = Vec::new();
    for _ in 0..5 {
        let bits: Vec<bool> = (0..64).map(|_| rng.random()).collect();
        codes.push(pack_to_u4(&bits));
    }
    let block = padding_pack(&codes, groups);
    let lut: Vec<u8> = (0..16 * groups).map(|_| rng.random()).collect();
    let block_result = accumulate_block(&block, &lut, groups);
    for c in 0..5 {
        assert_eq!(block_result[c], accumulate(&codes[c], &lut));
    }
    let zeros = vec![0u8; groups];
    for c in 5..32 {
        assert_eq!(block_result[c], accumulate(&zeros, &lut));
    }
}

#[test]
fn pack_to_u4_packs_bit_quartets() {
    let bits = vec![true, false, false, true, true, true, false, false, true];
    let nibbles = pack_to_u4(&bits);
    assert_eq!(nibbles, vec![9, 3, 1]);
}

#[test]
fn pack_code_packs_nibble_pairs() {
    let input = vec![1u8, 2, 3, 4, 5];
    let packed = pack_code(&input);
    assert_eq!(packed, vec![1 + 16 * 2, 3 + 16 * 4, 5]);
}

//! Codebook matching: exact decode, rotation invariance, and the
//! Hamming tolerance boundary.

use dauntless::decode::{decode_bits, code_of, rot90};

fn grid_of_code(code: u64) -> Vec<bool> {
    let mut bits = Vec::new();
    let mut k = 0usize;
    while k < 36 {
        bits.push((code >> (35 - k)) & 1 == 1);
        k += 1;
    }
    bits
}

#[test]
fn decode_exact_match_every_codeword() {
    let mut i = 0usize;
    while i < 11 {
        let bits = grid_of_code(code_of(i));
        assert_eq!(decode_bits(&bits), Some(i as u32));
        i += 1;
    }
}

#[test]
fn decode_rotation_invariant() {
    let mut i = 0usize;
    while i < 11 {
        let mut bits = grid_of_code(code_of(i));
        let mut r = 0usize;
        while r < 4 {
            assert_eq!(decode_bits(&bits), Some(i as u32));
            bits = rot90(&bits);
            r += 1;
        }
        i += 1;
    }
}

#[test]
fn decode_two_flips_recovers() {
    let mut i = 0usize;
    while i < 11 {
        let mut bits = grid_of_code(code_of(i));
        bits[0] = !bits[0];
        bits[17] = !bits[17];
        assert_eq!(decode_bits(&bits), Some(i as u32));
        i += 1;
    }
}

#[test]
fn decode_two_flips_rotated_recovers() {
    let mut bits = grid_of_code(code_of(4));
    bits[3] = !bits[3];
    bits[30] = !bits[30];
    let rotated = rot90(&rot90(&bits));
    assert_eq!(decode_bits(&rotated), Some(4));
}

#[test]
fn decode_far_grid_misses() {
    let empty = vec![false; 36];
    assert_eq!(decode_bits(&empty), None);
    let full = vec![true; 36];
    assert_eq!(decode_bits(&full), None);
}

#[test]
fn rot90_four_times_is_identity() {
    let bits = grid_of_code(code_of(7));
    let once = rot90(&bits);
    assert_ne!(once, bits);
    let back = rot90(&rot90(&rot90(&once)));
    assert_eq!(back, bits);
}

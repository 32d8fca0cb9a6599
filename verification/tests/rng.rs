use autochess::state::game::{draw_hand, generate_new_randomness, validate_reveal};
use autochess::state::units::UnitType;

fn sha256_direct(data: &[u8]) -> [u8; 32] {
    <sha2::Sha256 as sha2::Digest>::digest(data).0
}

#[test]
fn rehash_matches_sha256() {
    let seed = [7u8; 32];
    let rehashed = generate_new_randomness(&seed);
    assert_eq!(rehashed, sha256_direct(&seed));
    assert_ne!(rehashed, seed, "the rehash must actually transform the seed");
}

#[test]
fn rehash_of_zero_seed_is_the_known_digest() {
    let rehashed = generate_new_randomness(&[0u8; 32]);
    let expected: [u8; 32] = [
        0x66, 0x68, 0x7a, 0xad, 0xf8, 0x62, 0xbd, 0x77, 0x6c, 0x8f, 0xc1, 0x8b, 0x8e, 0x9f,
        0x8e, 0x20, 0x08, 0x97, 0x14, 0x85, 0x6e, 0xe2, 0x33, 0xb3, 0x90, 0x2a, 0x59, 0x1d,
        0x0d, 0x5f, 0x29, 0x25,
    ];
    assert_eq!(rehashed, expected);
}

#[test]
fn validate_reveal_accepts_the_committed_value() {
    let reveal = [3u8; 32];
    let secret = [9u8; 32];
    let mut preimage = Vec::new();
    preimage.extend_from_slice(&reveal);
    preimage.extend_from_slice(&secret);
    let stored = sha256_direct(&preimage);
    assert!(validate_reveal(&stored, &reveal, &secret));
}

#[test]
fn validate_reveal_rejects_a_tampered_value() {
    let reveal = [3u8; 32];
    let secret = [9u8; 32];
    let mut preimage = Vec::new();
    preimage.extend_from_slice(&reveal);
    preimage.extend_from_slice(&secret);
    let stored = sha256_direct(&preimage);
    let mut wrong_reveal = reveal;
    wrong_reveal[5] ^= 1;
    assert!(!validate_reveal(&stored, &wrong_reveal, &secret));
    let mut wrong_stored = stored;
    wrong_stored[0] ^= 0x80;
    assert!(!validate_reveal(&wrong_stored, &reveal, &secret));
}

#[test]
fn draw_hand_of_zero_seeds_is_all_wolves() {
    let hand = draw_hand(&[0u8; 32], &[0u8; 32]);
    assert_eq!(hand.len(), 5);
    for card in &hand {
        assert_eq!(*card, UnitType::Wolf);
    }
}

#[test]
fn draw_hand_maps_bytes_to_deck_boundaries() {
    // bytes 0..=85 draw a wolf, 86..=170 a bear, 171..=255 a bull
    let mut r1 = [0u8; 32];
    r1[0] = 0;
    r1[1] = 86;
    r1[2] = 171;
    r1[3] = 85;
    r1[4] = 255;
    let hand = draw_hand(&r1, &[0u8; 32]);
    assert_eq!(
        hand,
        vec![
            UnitType::Wolf,
            UnitType::Bear,
            UnitType::Bull,
            UnitType::Wolf,
            UnitType::Bull
        ]
    );
}

#[test]
fn draw_hand_is_pure_and_symmetric() {
    let a = [0x5au8; 32];
    let mut b = [0u8; 32];
    for (i, byte) in b.iter_mut().enumerate() {
        *byte = (i as u8).wrapping_mul(37);
    }
    // identical inputs always draw the identical hand
    assert_eq!(draw_hand(&a, &b), draw_hand(&a, &b));
    // the xor combination makes the seed order irrelevant
    assert_eq!(draw_hand(&a, &b), draw_hand(&b, &a));
}

//! Checks of the protocol mathematics on concrete values: commitments,
//! responses, verification, sampling and decoding.

use zkp_auth::math::{
    commit, decode_be_mod, derive_secret, encode_be, mod_exp, mul_mod, respond, verify,
};
use zkp_auth::params::GroupParameters;
use zkp_auth::rng::{random_identifier, sample_below};

fn toy() -> GroupParameters {
    GroupParameters::get_constants()
}

#[test]
fn constants_are_the_toy_group() {
    let g = toy();
    assert_eq!(g.alpha, 4);
    assert_eq!(g.beta, 9);
    assert_eq!(g.p, 23);
    assert_eq!(g.q, 11);
}

#[test]
fn new_accepts_the_toy_group() {
    let g = GroupParameters::new(4, 9, 23, 11).expect("toy parameters are well formed");
    assert_eq!(g.p, 23);
}

#[test]
fn new_rejects_malformed_parameters() {
    // 5^11 mod 23 == 22, so 5 does not have order dividing 11
    assert!(GroupParameters::new(5, 9, 23, 11).is_none());
    assert!(GroupParameters::new(4, 9, 0, 11).is_none());
    assert!(GroupParameters::new(4, 9, 23, 0).is_none());
    assert!(GroupParameters::new(0, 9, 23, 11).is_none());
    assert!(GroupParameters::new(4, 23, 23, 11).is_none());
}

#[test]
fn mul_mod_exact() {
    assert_eq!(mul_mod(7, 9, 23), 63 % 23);
    assert_eq!(mul_mod(u64::MAX, u64::MAX, 97), {
        let v = (u64::MAX as u128) * (u64::MAX as u128);
        (v % 97) as u64
    });
}

#[test]
fn mod_exp_exact() {
    assert_eq!(mod_exp(4, 11, 23), 1);
    assert_eq!(mod_exp(9, 11, 23), 1);
    assert_eq!(mod_exp(2, 10, 2048), 1024);
    assert_eq!(mod_exp(5, 0, 7), 1);
    assert_eq!(mod_exp(7, 1, 100), 7);
}

#[test]
fn commit_known_values() {
    let g = toy();
    // 4^7 mod 23 == 8, 9^7 mod 23 == 4
    assert_eq!(commit(7, &g), (8, 4));
    // 4^3 mod 23 == 18, 9^3 mod 23 == 16
    assert_eq!(commit(3, &g), (18, 16));
}

#[test]
fn respond_known_value() {
    // (3 - 5*7) mod 11 == -32 mod 11 == 1
    assert_eq!(respond(3, 5, 7, 11), 1);
    // no subtraction needed
    assert_eq!(respond(9, 1, 2, 11), 7);
}

#[test]
fn respond_always_in_range() {
    for k in 0..11 {
        for c in 0..11 {
            for x in 0..11 {
                assert!(respond(k, c, x, 11) < 11);
            }
        }
    }
}

#[test]
fn honest_responses_always_verify() {
    // soundness over the whole toy group
    let g = toy();
    for x in 0..11 {
        for k in 0..11 {
            let (y1, y2) = commit(x, &g);
            let (r1, r2) = commit(k, &g);
            for c in 0..11 {
                let s = respond(k, c, x, g.q);
                assert!(verify(r1, r2, y1, y2, c, s, &g));
            }
        }
    }
}

#[test]
fn exactly_one_response_verifies() {
    // non-forgery: scanning every candidate response finds only the honest one
    let g = toy();
    let (y1, y2) = commit(7, &g);
    let (r1, r2) = commit(3, &g);
    let c = 5;
    let s = respond(3, c, 7, g.q);
    for cand in 0..11 {
        assert_eq!(verify(r1, r2, y1, y2, c, cand, &g), cand == s);
    }
}

#[test]
fn tampered_response_fails() {
    let g = toy();
    let (y1, y2) = commit(7, &g);
    let (r1, r2) = commit(3, &g);
    let c = 4;
    let s = respond(3, c, 7, g.q);
    assert!(!verify(r1, r2, y1, y2, c, (s + 1) % g.q, &g));
}

#[test]
fn sample_below_stays_in_range() {
    for _ in 0..1000 {
        assert!(sample_below(11) < 11);
    }
    for _ in 0..1000 {
        assert!(sample_below(97) < 97);
    }
    assert_eq!(sample_below(1), 0);
}

#[test]
fn sample_below_is_not_constant() {
    let mut seen_zero = false;
    let mut seen_one = false;
    for _ in 0..200 {
        match sample_below(2) {
            0 => seen_zero = true,
            _ => seen_one = true,
        }
    }
    assert!(seen_zero && seen_one);
}

#[test]
fn decode_be_known_values() {
    assert_eq!(decode_be_mod(&[], 1000), 0);
    assert_eq!(decode_be_mod(&[1, 0], 1000), 256);
    assert_eq!(decode_be_mod(&[0xff, 0xff], 100000), 65535);
    assert_eq!(decode_be_mod(&[1, 0, 0], 7), 65536 % 7);
    assert_eq!(decode_be_mod(&[0, 0, 0, 9], 1000), 9);
}

#[test]
fn encode_be_known_values() {
    assert_eq!(encode_be(0), vec![0; 8]);
    assert_eq!(encode_be(9), vec![0, 0, 0, 0, 0, 0, 0, 9]);
    assert_eq!(encode_be(65535), vec![0, 0, 0, 0, 0, 0, 0xff, 0xff]);
    assert_eq!(encode_be(u64::MAX), vec![0xff; 8]);
}

#[test]
fn encode_then_decode_round_trips() {
    for v in [0u64, 1, 8, 22, 65536, 123456789, u64::MAX] {
        assert_eq!(decode_be_mod(&encode_be(v), u64::MAX), v % u64::MAX);
    }
    assert_eq!(decode_be_mod(&encode_be(100), 23), 100 % 23);
}

#[test]
fn derive_secret_reduces_password() {
    assert_eq!(derive_secret(b"ab", 1000), (97 * 256 + 98) % 1000);
    assert_eq!(derive_secret(&[7], 11), 7);
    assert!(derive_secret(b"a much longer password", 11) < 11);
}

#[test]
fn identifiers_are_alphanumeric() {
    let id = random_identifier(12);
    assert_eq!(id.len(), 12);
    for ch in id.chars() {
        assert!(ch.is_ascii_alphanumeric());
    }
    assert_eq!(random_identifier(0).len(), 0);
}

#[test]
fn identifiers_differ() {
    let a = random_identifier(12);
    let b = random_identifier(12);
    assert_ne!(a, b);
}

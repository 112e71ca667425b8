use std::hash::Hasher;

use rdns::fingerprint::{fingerprint, fnv1a_bytes};
use rdns::name::{is_valid_domain, normalize};

#[test]
fn normalize_lowercases_and_appends_dot() {
    assert_eq!(normalize(&b"ExAmPlE.CoM".to_vec()), b"example.com.".to_vec());
    assert_eq!(normalize(&b"example.com.".to_vec()), b"example.com.".to_vec());
    assert_eq!(normalize(&b"".to_vec()), b".".to_vec());
}

#[test]
fn normalize_is_idempotent() {
    for sample in [&b"ExAmPlE.CoM"[..], b"already.normal.", b"", b"."] {
        let once = normalize(&sample.to_vec());
        assert_eq!(normalize(&once), once);
    }
}

#[test]
fn fingerprint_ignores_case_and_trailing_dot() {
    let base = fingerprint(&b"ads.example.com".to_vec());
    assert_eq!(fingerprint(&b"ADS.Example.COM".to_vec()), base);
    assert_eq!(fingerprint(&b"ads.example.com.".to_vec()), base);
    assert_eq!(fingerprint(&b"ADS.EXAMPLE.COM.".to_vec()), base);
}

#[test]
fn fingerprint_calls_agree_on_repeat() {
    let name = b"Tracker.Example.Org".to_vec();
    assert_eq!(fingerprint(&name), fingerprint(&name));
}

#[test]
fn fingerprint_distinguishes_names() {
    assert_ne!(
        fingerprint(&b"a.example.com".to_vec()),
        fingerprint(&b"b.example.com".to_vec())
    );
}

#[test]
fn fnv1a_empty_is_offset_basis() {
    assert_eq!(fnv1a_bytes(&Vec::new()), 0xcbf2_9ce4_8422_2325);
}

#[test]
fn fnv1a_known_value() {
    // FNV-1a 64 of "a": (basis ^ 0x61) * prime.
    assert_eq!(fnv1a_bytes(&b"a".to_vec()), 0xaf63_dc4c_8601_ec8c);
}

#[test]
fn fnv1a_matches_reference_hasher() {
    for sample in [
        b"example.com.".to_vec(),
        b"ads.tracker.example.org.".to_vec(),
        b"x".to_vec(),
        Vec::new(),
    ] {
        let mut reference = fnv::FnvHasher::default();
        reference.write(&sample);
        assert_eq!(fnv1a_bytes(&sample), reference.finish());
    }
}

#[test]
fn domain_validation() {
    assert!(is_valid_domain(&b"example.com".to_vec()));
    assert!(is_valid_domain(&b"example.com.".to_vec()));
    assert!(is_valid_domain(&b"a-b_c.example.com".to_vec()));
    assert!(is_valid_domain(&b".".to_vec()));
    assert!(!is_valid_domain(&b"".to_vec()));
    assert!(!is_valid_domain(&b".example.com".to_vec()));
    assert!(!is_valid_domain(&b"bad..label.com".to_vec()));
    assert!(!is_valid_domain(&b"spaces in.name".to_vec()));
    assert!(!is_valid_domain(&b"http://example.com".to_vec()));
}

//! Hamming distance and the similarity relation.
use fast_dhash::Dhash;

#[test]
fn self_distance_is_zero() {
    let values = [0u64, 0xf0f0_e8cc_cce8_f0f0, 0xffff_ffff_ffff_ffff];
    for v in values {
        let fp = Dhash::from_raw(v);
        assert_eq!(fp.hamming_distance(&fp), 0);
        assert!(fp.is_similar(&fp));
        assert_eq!(fp, fp);
    }
}

#[test]
fn distance_counts_differing_bits() {
    let a = Dhash::from_raw(0b1011);
    let b = Dhash::from_raw(0b0010);
    assert_eq!(a.hamming_distance(&b), 2);
}

#[test]
fn distance_is_symmetric() {
    let a = Dhash::from_raw(0x0123_4567_89ab_cdef);
    let b = Dhash::from_raw(0xfedc_ba98_7654_3210);
    assert_eq!(a.hamming_distance(&b), b.hamming_distance(&a));
}

/// Distance 64 holds exactly against the bitwise complement.
#[test]
fn distance_64_iff_complement() {
    let a = Dhash::from_raw(0xf0f0_e8cc_cce8_f0f0);
    let complement = Dhash::from_raw(!0xf0f0_e8cc_cce8_f0f0);
    assert_eq!(a.hamming_distance(&complement), 64);

    // One bit back from the complement drops below 64.
    let almost = Dhash::from_raw(!0xf0f0_e8cc_cce8_f0f0 ^ 1);
    assert_eq!(a.hamming_distance(&almost), 63);
}

/// The similarity threshold sits at 11 differing bits.
#[test]
fn similarity_threshold() {
    let a = Dhash::from_raw(0);
    let ten_bits = Dhash::from_raw(0x3ff);
    let eleven_bits = Dhash::from_raw(0x7ff);
    assert!(a.is_similar(&ten_bits));
    assert_eq!(a, ten_bits);
    assert!(!a.is_similar(&eleven_bits));
    assert_ne!(a, eleven_bits);
}

/// Similarity equality is not transitive: a chain of small edits drifts out
/// of the threshold.  (The Hamming triangle inequality caps the distance of
/// the endpoints at the sum of the two hops, so the hops carry 10 and the
/// endpoints 20 differing bits.)
#[test]
fn similarity_not_transitive() {
    let a = Dhash::from_raw(0);
    let b = Dhash::from_raw(0x3ff);
    let c = Dhash::from_raw(0xf_ffff);
    assert_eq!(a.hamming_distance(&b), 10);
    assert_eq!(b.hamming_distance(&c), 10);
    assert_eq!(a.hamming_distance(&c), 20);
    assert_eq!(a, b);
    assert_eq!(b, c);
    assert_ne!(a, c);
}

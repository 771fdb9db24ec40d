use sig_subtract::scaled::{build_template, scaled_to_max_hash};
use sig_subtract::sketch::HashFn;

#[test]
fn scaling_bound_matches_the_sketching_library() {
    assert_eq!(scaled_to_max_hash(0), 0);
    assert_eq!(scaled_to_max_hash(1), u64::MAX);
    assert_eq!(scaled_to_max_hash(10), (u64::MAX as f64 / 10.0) as u64);
    assert_eq!(scaled_to_max_hash(2000), (u64::MAX as f64 / 2000.0) as u64);
}

#[test]
fn template_carries_the_requested_parameters() {
    let t = build_template(31, 10);
    assert_eq!(t.ksize, 31);
    assert_eq!(t.hash_function, HashFn::Murmur64Protein);
    assert_eq!(t.max_hash, scaled_to_max_hash(10));
    let unscaled = build_template(21, 1);
    assert_eq!(unscaled.max_hash, u64::MAX);
}

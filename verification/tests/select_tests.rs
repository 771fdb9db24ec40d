use sig_subtract::sketch::{HashFn, MinHashSketch, Signature, Sketch, Template};
use sig_subtract::select::{extract_mask, select_sketch};

fn mh(ksize: u32, hf: HashFn, max_hash: u64, mins: Vec<u64>) -> MinHashSketch {
    MinHashSketch::new(ksize, hf, max_hash, 0, 42, mins).unwrap()
}

fn template() -> Template {
    Template { ksize: 31, hash_function: HashFn::Murmur64Protein, max_hash: 1000 }
}

#[test]
fn select_picks_first_match() {
    let sig = Signature {
        sketches: vec![
            Sketch::MinHash(mh(21, HashFn::Murmur64Protein, 1000, vec![1])),
            Sketch::MinHash(mh(31, HashFn::Murmur64Protein, 1000, vec![2])),
            Sketch::MinHash(mh(31, HashFn::Murmur64Protein, 1000, vec![3])),
        ],
    };
    let picked = select_sketch(&sig, &template()).unwrap();
    assert_eq!(picked.mins, vec![2]);
}

#[test]
fn select_requires_all_three_parameters() {
    let wrong_k = Signature {
        sketches: vec![Sketch::MinHash(mh(21, HashFn::Murmur64Protein, 1000, vec![1]))],
    };
    let wrong_hf = Signature {
        sketches: vec![Sketch::MinHash(mh(31, HashFn::Murmur64Dna, 1000, vec![1]))],
    };
    let wrong_bound = Signature {
        sketches: vec![Sketch::MinHash(mh(31, HashFn::Murmur64Protein, 999, vec![1]))],
    };
    assert!(select_sketch(&wrong_k, &template()).is_none());
    assert!(select_sketch(&wrong_hf, &template()).is_none());
    assert!(select_sketch(&wrong_bound, &template()).is_none());
}

#[test]
fn select_skips_unsupported_variants() {
    let sig = Signature {
        sketches: vec![
            Sketch::Unsupported,
            Sketch::MinHash(mh(31, HashFn::Murmur64Protein, 1000, vec![5, 6])),
        ],
    };
    let picked = select_sketch(&sig, &template()).unwrap();
    assert_eq!(picked.mins, vec![5, 6]);
}

#[test]
fn select_on_empty_signature_is_none() {
    let sig = Signature { sketches: vec![] };
    assert!(select_sketch(&sig, &template()).is_none());
}

#[test]
fn extract_mask_keeps_last_match() {
    let records = vec![
        Signature {
            sketches: vec![Sketch::MinHash(mh(31, HashFn::Murmur64Protein, 1000, vec![1, 2]))],
        },
        Signature { sketches: vec![Sketch::Unsupported] },
        Signature {
            sketches: vec![Sketch::MinHash(mh(31, HashFn::Murmur64Protein, 1000, vec![8, 9]))],
        },
    ];
    let mask = extract_mask(&records, &template()).unwrap();
    assert_eq!(mask, vec![8, 9]);
}

#[test]
fn extract_mask_none_when_nothing_matches() {
    let records = vec![
        Signature {
            sketches: vec![Sketch::MinHash(mh(21, HashFn::Murmur64Protein, 1000, vec![1]))],
        },
        Signature { sketches: vec![] },
    ];
    assert!(extract_mask(&records, &template()).is_none());
    assert!(extract_mask(&Vec::new(), &template()).is_none());
}

#[test]
fn extract_mask_of_empty_query_sketch_is_empty() {
    // An empty query sketch is legal and yields a no-op mask.
    let records = vec![
        Signature { sketches: vec![Sketch::MinHash(mh(31, HashFn::Murmur64Protein, 1000, vec![]))] },
    ];
    let mask = extract_mask(&records, &template()).unwrap();
    assert_eq!(mask, Vec::<u64>::new());
}

use sig_subtract::pipeline::{
    first_record, is_milestone, process_target, run_batch, SubtractError, PROGRESS_INTERVAL,
};
use sig_subtract::sketch::{HashFn, MinHashSketch, Signature, Sketch, Template};

fn mh(ksize: u32, mins: Vec<u64>) -> MinHashSketch {
    MinHashSketch::new(ksize, HashFn::Murmur64Protein, u64::MAX, 0, 42, mins).unwrap()
}

fn template(ksize: u32) -> Template {
    Template { ksize, hash_function: HashFn::Murmur64Protein, max_hash: u64::MAX }
}

fn target_mins(sig: &Signature) -> Vec<u64> {
    assert_eq!(sig.sketches.len(), 1);
    match &sig.sketches[0] {
        Sketch::MinHash(s) => s.mins.clone(),
        Sketch::Unsupported => panic!("output kept an unsupported sketch"),
    }
}

#[test]
fn process_target_subtracts_and_keeps_one_sketch() {
    // Query {1,2,3} with k=4 against target {2,3,4,5}: output sketch {4,5}.
    let t = Template { ksize: 4, hash_function: HashFn::Murmur64Protein, max_hash: u64::MAX };
    let sig = Signature {
        sketches: vec![Sketch::Unsupported, Sketch::MinHash(mh(4, vec![2, 3, 4, 5]))],
    };
    let mask: Vec<u64> = vec![1, 2, 3];
    let out = process_target(&sig, &t, &mask).unwrap();
    assert_eq!(target_mins(&out), vec![4, 5]);
}

#[test]
fn process_target_fails_without_matching_ksize() {
    let sig = Signature { sketches: vec![Sketch::MinHash(mh(21, vec![1, 2]))] };
    let mask: Vec<u64> = vec![1];
    let err = process_target(&sig, &template(31), &mask).unwrap_err();
    assert_eq!(err, SubtractError::NoMatchingSketch);
    assert_eq!(err.message(), "no sketch matches the requested parameters");
}

#[test]
fn run_batch_of_empty_target_list_writes_nothing() {
    let targets: Vec<Signature> = Vec::new();
    let mask: Vec<u64> = vec![1, 2];
    let outs = run_batch(&targets, &template(31), &mask).unwrap();
    assert!(outs.is_empty());
}

#[test]
fn run_batch_processes_every_target() {
    let targets = vec![
        Signature { sketches: vec![Sketch::MinHash(mh(31, vec![1, 2, 3]))] },
        Signature { sketches: vec![Sketch::MinHash(mh(31, vec![2, 4]))] },
    ];
    let mask: Vec<u64> = vec![2];
    let outs = run_batch(&targets, &template(31), &mask).unwrap();
    assert_eq!(outs.len(), 2);
    assert_eq!(target_mins(&outs[0]), vec![1, 3]);
    assert_eq!(target_mins(&outs[1]), vec![4]);
}

#[test]
fn run_batch_aborts_when_any_target_has_no_match() {
    let targets = vec![
        Signature { sketches: vec![Sketch::MinHash(mh(31, vec![1]))] },
        Signature { sketches: vec![Sketch::MinHash(mh(21, vec![2]))] },
    ];
    let mask: Vec<u64> = vec![];
    let err = run_batch(&targets, &template(31), &mask).unwrap_err();
    assert_eq!(err, SubtractError::NoMatchingSketch);
}

#[test]
fn batch_outcome_set_does_not_depend_on_order() {
    let a = Signature { sketches: vec![Sketch::MinHash(mh(31, vec![1, 2, 3]))] };
    let b = Signature { sketches: vec![Sketch::MinHash(mh(31, vec![2, 4]))] };
    let a2 = Signature { sketches: vec![Sketch::MinHash(mh(31, vec![1, 2, 3]))] };
    let b2 = Signature { sketches: vec![Sketch::MinHash(mh(31, vec![2, 4]))] };
    let mask: Vec<u64> = vec![2];
    let one = run_batch(&vec![a, b], &template(31), &mask).unwrap();
    let two = run_batch(&vec![b2, a2], &template(31), &mask).unwrap();
    let mut set_one: Vec<Vec<u64>> = one.iter().map(target_mins).collect();
    let mut set_two: Vec<Vec<u64>> = two.iter().map(target_mins).collect();
    set_one.sort();
    set_two.sort();
    assert_eq!(set_one, set_two);
}

#[test]
fn second_run_over_first_output_is_a_no_op() {
    // Feeding the first run's output back with the same query changes no
    // hash content.
    let targets = vec![Signature { sketches: vec![Sketch::MinHash(mh(31, vec![1, 2, 3, 4]))] }];
    let mask: Vec<u64> = vec![2, 4];
    let first = run_batch(&targets, &template(31), &mask).unwrap();
    let second = run_batch(&first, &template(31), &mask).unwrap();
    assert_eq!(first.len(), second.len());
    assert_eq!(target_mins(&first[0]), vec![1, 3]);
    assert_eq!(target_mins(&second[0]), vec![1, 3]);
}

#[test]
fn first_record_takes_the_leading_record() {
    let records = vec![
        Signature { sketches: vec![Sketch::MinHash(mh(31, vec![7]))] },
        Signature { sketches: vec![] },
    ];
    let first = first_record(records).unwrap();
    assert_eq!(target_mins(&first), vec![7]);
}

#[test]
fn first_record_of_empty_file_is_an_error() {
    let err = first_record(Vec::new()).unwrap_err();
    assert_eq!(err, SubtractError::EmptySignatureFile);
    assert_eq!(err.message(), "signature file contains no signature records");
}

#[test]
fn milestones_fall_on_interval_multiples() {
    assert_eq!(PROGRESS_INTERVAL, 1000);
    assert!(is_milestone(0));
    assert!(is_milestone(1000));
    assert!(is_milestone(3000));
    assert!(!is_milestone(1));
    assert!(!is_milestone(999));
    assert!(!is_milestone(1001));
}

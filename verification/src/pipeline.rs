//! The batch orchestration core: per-target processing (select, subtract,
//! replace), the batch as a data-parallel map, and the progress milestone
//! rule. A driver performs the file reads and writes and may process targets
//! in any order and on any number of workers; every output is pinned here as
//! a function of its own target alone.

use vstd::prelude::*;

use crate::select::lemma_select_is_element;
use crate::select::matches_template;
use crate::select::select_spec;
use crate::select::select_sketch;
use crate::select::copy_hashes;
use crate::sketch::MinHashSketch;
use crate::sketch::Signature;
use crate::sketch::Sketch;
use crate::sketch::SketchData;
use crate::sketch::SketchView;
use crate::sketch::Template;
use crate::subtract::seq_diff;
use crate::subtract::lemma_diff_idempotent;

verus! {

/// The recoverable conditions the pipeline's own logic detects; each is
/// fatal for the run.
#[derive(Clone, Copy, PartialEq, Eq, Structural, Debug)]
pub enum SubtractError {
    /// A signature file parsed to zero records.
    EmptySignatureFile,
    /// No sketch of a signature matches the requested template.
    NoMatchingSketch,
}

impl SubtractError {
    /// A fixed description of the condition, for fatal messages.
    pub fn message(&self) -> (r: &'static str)
        ensures
            r@ == match self {
                SubtractError::EmptySignatureFile => "signature file contains no signature records"@,
                SubtractError::NoMatchingSketch => "no sketch matches the requested parameters"@,
            },
    {
        match self {
            SubtractError::EmptySignatureFile => "signature file contains no signature records",
            SubtractError::NoMatchingSketch => "no sketch matches the requested parameters",
        }
    }
}

/// The first record of a parsed signature file; an empty file is an error.
pub fn first_record(records: Vec<Signature>) -> (r: Result<Signature, SubtractError>)
    ensures
        r is Ok <==> records@.len() > 0,
        r matches Ok(s) ==> s == records@[0],
        r matches Err(e) ==> e == SubtractError::EmptySignatureFile,
{
    let mut records = records;
    if records.len() == 0 {
        Err(SubtractError::EmptySignatureFile)
    } else {
        Ok(records.remove(0))
    }
}

/// What processing one target yields: the selected sketch with the mask's
/// hashes removed, standing alone in the signature (every other variant
/// discarded); nothing when no sketch matches the template.
pub open spec fn process_sig_spec(sig: Seq<SketchView>, t: Template, mask: Seq<u64>) -> Option<
    Seq<SketchView>,
> {
    match select_spec(sig, t) {
        Some(d) => Some(
            seq![SketchView::MinHash(SketchData { mins: seq_diff(d.mins, mask), ..d })],
        ),
        None => None,
    }
}

/// Processes one target signature: selects the sketch matching `t`, removes
/// every hash present in `mask` from it, and returns a signature carrying
/// exactly that mutated sketch and nothing else. Fails exactly when no
/// sketch matches.
pub fn process_target(sig: &Signature, t: &Template, mask: &Vec<u64>) -> (r: Result<
    Signature,
    SubtractError,
>)
    ensures
        r is Ok <==> select_spec(sig@, *t) is Some,
        r matches Ok(out) ==> Some(out@) == process_sig_spec(sig@, *t, mask@) && (sig.wf()
            ==> out.wf()),
        r matches Err(e) ==> e == SubtractError::NoMatchingSketch,
{
    match select_sketch(sig, t) {
        Some(mh) => {
            let mut sub = MinHashSketch {
                ksize: mh.ksize,
                hash_function: mh.hash_function,
                max_hash: mh.max_hash,
                num: mh.num,
                seed: mh.seed,
                mins: copy_hashes(&mh.mins),
            };
            proof {
                if sig.wf() {
                    lemma_select_is_element(sig@, *t);
                }
            }
            sub.remove_many(mask);
            let out = Signature { sketches: vec![Sketch::MinHash(sub)] };
            proof {
                assert(out@ =~= process_sig_spec(sig@, *t, mask@).unwrap());
            }
            Ok(out)
        },
        None => Err(SubtractError::NoMatchingSketch),
    }
}

/// Law: processing is idempotent on hash content. Feeding a processed
/// signature back through the pipeline with the same template and mask
/// returns it unchanged: once subtracted, hashes never reappear.
pub proof fn lemma_process_idempotent(sig: Seq<SketchView>, t: Template, mask: Seq<u64>)
    requires
        process_sig_spec(sig, t, mask) is Some,
    ensures
        process_sig_spec(process_sig_spec(sig, t, mask).unwrap(), t, mask) == process_sig_spec(
            sig,
            t,
            mask,
        ),
{
    let d = select_spec(sig, t).unwrap();
    let d2 = SketchData { mins: seq_diff(d.mins, mask), ..d };
    let out = process_sig_spec(sig, t, mask).unwrap();
    lemma_select_is_element(sig, t);
    assert(matches_template(SketchView::MinHash(d2), t));
    assert(select_spec(out, t) == Some(d2));
    lemma_diff_idempotent(d.mins, mask);
    assert(process_sig_spec(out, t, mask).unwrap() =~= out);
}

/// The whole batch as a map: target views in, per-target outcomes out. The
/// outcome at each position depends on that position's target alone.
pub open spec fn batch_spec(sigs: Seq<Seq<SketchView>>, t: Template, mask: Seq<u64>) -> Seq<
    Option<Seq<SketchView>>,
> {
    sigs.map(|i: int, s: Seq<SketchView>| process_sig_spec(s, t, mask))
}

/// The views of a list of target signatures.
pub open spec fn targets_view(ts: Seq<Signature>) -> Seq<Seq<SketchView>> {
    ts.map(|i: int, s: Signature| s@)
}

/// Processes every target in order and collects the outputs; aborts at the
/// first target with no matching sketch, keeping no partial results.
/// Succeeds exactly when every target has a matching sketch.
pub fn run_batch(targets: &Vec<Signature>, t: &Template, mask: &Vec<u64>) -> (r: Result<
    Vec<Signature>,
    SubtractError,
>)
    ensures
        r is Ok <==> (forall|i: int|
            0 <= i < targets@.len() ==> select_spec(#[trigger] targets@[i]@, *t) is Some),
        r matches Ok(outs) ==> {
            &&& outs@.len() == targets@.len()
            &&& forall|i: int|
                0 <= i < targets@.len() ==> Some(#[trigger] outs@[i]@) == batch_spec(
                    targets_view(targets@),
                    *t,
                    mask@,
                )[i]
            &&& forall|i: int|
                0 <= i < targets@.len() && targets@[i].wf() ==> (#[trigger] outs@[i]).wf()
        },
        r matches Err(e) ==> e == SubtractError::NoMatchingSketch,
{
    let n = targets.len();
    let mut outs: Vec<Signature> = Vec::new();
    let mut i: usize = 0;
    while i < n
        invariant
            n == targets@.len(),
            i <= n,
            outs@.len() == i,
            forall|j: int|
                0 <= j < i ==> Some(#[trigger] outs@[j]@) == process_sig_spec(
                    targets@[j]@,
                    *t,
                    mask@,
                ),
            forall|j: int| 0 <= j < i && targets@[j].wf() ==> (#[trigger] outs@[j]).wf(),
        decreases n - i,
    {
        match process_target(&targets[i], t, mask) {
            Ok(out) => {
                outs.push(out);
            },
            Err(e) => {
                proof {
                    assert(!(select_spec(targets@[i as int]@, *t) is Some));
                }
                return Err(e);
            },
        }
        i = i + 1;
    }
    proof {
        assert forall|k: int| 0 <= k < targets@.len() implies select_spec(
            #[trigger] targets@[k]@,
            *t,
        ) is Some by {
            assert(Some(outs@[k]@) == process_sig_spec(targets@[k]@, *t, mask@));
        }
    }
    Ok(outs)
}

/// Law: the outcome of a target does not depend on where it stands in the
/// batch, on the other targets around it, or on any processing order: the
/// same target yields the same outcome in any two batches.
pub proof fn lemma_batch_target_determines_outcome(
    ts1: Seq<Seq<SketchView>>,
    ts2: Seq<Seq<SketchView>>,
    t: Template,
    mask: Seq<u64>,
    i: int,
    j: int,
)
    requires
        0 <= i < ts1.len(),
        0 <= j < ts2.len(),
        ts1[i] == ts2[j],
    ensures
        batch_spec(ts1, t, mask)[i] == batch_spec(ts2, t, mask)[j],
{
}

/// The outputs of a batch in which every target has a matching sketch.
pub open spec fn batch_outputs(sigs: Seq<Seq<SketchView>>, t: Template, mask: Seq<u64>) -> Seq<
    Seq<SketchView>,
> {
    sigs.map(|i: int, s: Seq<SketchView>| process_sig_spec(s, t, mask).unwrap())
}

/// Law: running the whole batch a second time, with the same template and
/// mask, over the first run's outputs reproduces those outputs exactly.
pub proof fn lemma_batch_idempotent(sigs: Seq<Seq<SketchView>>, t: Template, mask: Seq<u64>)
    requires
        forall|i: int|
            0 <= i < sigs.len() ==> process_sig_spec(#[trigger] sigs[i], t, mask) is Some,
    ensures
        batch_outputs(batch_outputs(sigs, t, mask), t, mask) == batch_outputs(sigs, t, mask),
{
    let outs = batch_outputs(sigs, t, mask);
    assert forall|i: int|
        0 <= i < outs.len() implies process_sig_spec(#[trigger] outs[i], t, mask) == Some(
        outs[i],
    ) by {
        lemma_process_idempotent(sigs[i], t, mask);
    }
    assert(batch_outputs(outs, t, mask) =~= outs);
}

/// Every outcome of the first batch occurs in the second when every target
/// of the first occurs in the second.
proof fn lemma_batch_outcomes_subset(
    ts1: Seq<Seq<SketchView>>,
    ts2: Seq<Seq<SketchView>>,
    t: Template,
    mask: Seq<u64>,
)
    requires
        forall|s: Seq<SketchView>| ts1.contains(s) ==> ts2.contains(s),
    ensures
        forall|o: Option<Seq<SketchView>>|
            batch_spec(ts1, t, mask).to_set().contains(o) ==> batch_spec(
                ts2,
                t,
                mask,
            ).to_set().contains(o),
{
    assert forall|o: Option<Seq<SketchView>>|
        batch_spec(ts1, t, mask).to_set().contains(o) implies batch_spec(
        ts2,
        t,
        mask,
    ).to_set().contains(o) by {
        assert(batch_spec(ts1, t, mask).contains(o));
        let i = choose|i: int|
            0 <= i < batch_spec(ts1, t, mask).len() && batch_spec(ts1, t, mask)[i] == o;
        assert(ts1.contains(ts1[i]));
        let j = choose|j: int| 0 <= j < ts2.len() && ts2[j] == ts1[i];
        assert(batch_spec(ts2, t, mask)[j] == o);
        assert(batch_spec(ts2, t, mask).contains(o));
    }
}

/// Law: two batches over the same set of targets produce the same set of
/// outcomes, whatever order the targets are listed or processed in and
/// however often a target is repeated.
pub proof fn lemma_batch_order_independent(
    ts1: Seq<Seq<SketchView>>,
    ts2: Seq<Seq<SketchView>>,
    t: Template,
    mask: Seq<u64>,
)
    requires
        ts1.to_set() == ts2.to_set(),
    ensures
        batch_spec(ts1, t, mask).to_set() == batch_spec(ts2, t, mask).to_set(),
{
    assert forall|s: Seq<SketchView>| ts1.contains(s) implies ts2.contains(s) by {
        assert(ts1.to_set().contains(s));
    }
    assert forall|s: Seq<SketchView>| ts2.contains(s) implies ts1.contains(s) by {
        assert(ts2.to_set().contains(s));
    }
    lemma_batch_outcomes_subset(ts1, ts2, t, mask);
    lemma_batch_outcomes_subset(ts2, ts1, t, mask);
    assert(batch_spec(ts1, t, mask).to_set() =~= batch_spec(ts2, t, mask).to_set());
}

/// Number of processed targets between two progress reports.
pub const PROGRESS_INTERVAL: usize = 1000;

/// Whether a worker that drew `count` from the shared progress counter
/// should emit a progress line: exactly at every multiple of the interval.
pub fn is_milestone(count: usize) -> (r: bool)
    ensures
        r == (count % PROGRESS_INTERVAL == 0),
{
    count % PROGRESS_INTERVAL == 0
}

} // verus!

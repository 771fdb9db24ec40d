//! Sketch selection: picking the one hash-set sketch of a signature that
//! matches the parameter template, and deriving the query's hash mask.

use vstd::prelude::*;

use crate::sketch::MinHashSketch;
use crate::sketch::sig_wf;
use crate::sketch::sorted_strict;
use crate::sketch::Signature;
use crate::sketch::Sketch;
use crate::sketch::SketchData;
use crate::sketch::SketchView;
use crate::sketch::Template;

verus! {

/// A sketch variant matches the template exactly when it is a hash-set
/// sketch and its k-mer size, hash function and scaling bound all agree;
/// element sets are irrelevant to selection.
pub open spec fn matches_template(sk: SketchView, t: Template) -> bool {
    match sk {
        SketchView::MinHash(d) => d.ksize == t.ksize && d.hash_function == t.hash_function
            && d.max_hash == t.max_hash,
        SketchView::Unsupported => false,
    }
}

/// The data of a hash-set sketch variant.
pub open spec fn sketch_data(sk: SketchView) -> SketchData
    recommends
        sk is MinHash,
{
    match sk {
        SketchView::MinHash(d) => d,
        SketchView::Unsupported => arbitrary(),
    }
}

/// The first sketch of the signature that matches the template, or nothing
/// when no sketch does.
pub open spec fn select_spec(sks: Seq<SketchView>, t: Template) -> Option<SketchData>
    decreases sks.len(),
{
    if sks.len() == 0 {
        None
    } else if matches_template(sks[0], t) {
        Some(sketch_data(sks[0]))
    } else {
        select_spec(sks.drop_first(), t)
    }
}

/// Whether a hash-set sketch's parameters agree with the template.
pub fn sketch_matches(mh: &MinHashSketch, t: &Template) -> (r: bool)
    ensures
        r == matches_template(SketchView::MinHash(mh@), *t),
{
    mh.ksize == t.ksize && mh.hash_function == t.hash_function && mh.max_hash == t.max_hash
}

/// Returns the first sketch of `sig` matching `t`, or nothing when no sketch
/// matches. Deterministic and pure in its inputs.
pub fn select_sketch<'a>(sig: &'a Signature, t: &Template) -> (r: Option<&'a MinHashSketch>)
    ensures
        match r {
            Some(mh) => select_spec(sig@, *t) == Some(mh@),
            None => select_spec(sig@, *t) is None,
        },
{
    let n = sig.sketches.len();
    proof {
        assert(sig@.skip(0) =~= sig@);
    }
    let mut i: usize = 0;
    while i < n
        invariant
            n == sig.sketches@.len(),
            i <= n,
            sig@.len() == n,
            select_spec(sig@, *t) == select_spec(sig@.skip(i as int), *t),
        decreases n - i,
    {
        proof {
            assert(sig@.skip(i as int)[0] == sig@[i as int]);
            assert(sig@.skip(i as int).drop_first() =~= sig@.skip(i + 1 as int));
        }
        match &sig.sketches[i] {
            Sketch::MinHash(mh) => {
                if sketch_matches(mh, t) {
                    return Some(mh);
                }
            },
            Sketch::Unsupported => {},
        }
        i = i + 1;
    }
    proof {
        assert(sig@.skip(n as int) =~= Seq::<SketchView>::empty());
    }
    None
}

/// A selected sketch is one of the signature's own sketches, and it matches
/// the template.
pub proof fn lemma_select_is_element(sks: Seq<SketchView>, t: Template)
    requires
        select_spec(sks, t) is Some,
    ensures
        exists|i: int|
            0 <= i < sks.len() && sks[i] == SketchView::MinHash(select_spec(sks, t).unwrap())
                && matches_template(#[trigger] sks[i], t),
    decreases sks.len(),
{
    if matches_template(sks[0], t) {
        assert(sks[0] == SketchView::MinHash(select_spec(sks, t).unwrap()));
    } else {
        lemma_select_is_element(sks.drop_first(), t);
        let i = choose|i: int|
            0 <= i < sks.drop_first().len() && sks.drop_first()[i] == SketchView::MinHash(
                select_spec(sks.drop_first(), t).unwrap(),
            ) && matches_template(#[trigger] sks.drop_first()[i], t);
        assert(sks[i + 1] == sks.drop_first()[i]);
    }
}

/// When every sketch of the signature is well-formed, so is the selected
/// one.
pub proof fn lemma_select_wf(sks: Seq<SketchView>, t: Template)
    requires
        sig_wf(sks),
        select_spec(sks, t) is Some,
    ensures
        select_spec(sks, t).unwrap().wf(),
{
    lemma_select_is_element(sks, t);
}

/// An exact copy of a list of hash values.
pub fn copy_hashes(v: &Vec<u64>) -> (r: Vec<u64>)
    ensures
        r@ == v@,
{
    let n = v.len();
    let mut out: Vec<u64> = Vec::new();
    let mut i: usize = 0;
    while i < n
        invariant
            n == v@.len(),
            i <= n,
            out@ == v@.take(i as int),
        decreases n - i,
    {
        out.push(v[i]);
        proof {
            assert(out@ =~= v@.take(i + 1 as int));
        }
        i = i + 1;
    }
    proof {
        assert(v@.take(n as int) =~= v@);
    }
    out
}

/// The views of a list of signature records.
pub open spec fn records_view(rs: Seq<Signature>) -> Seq<Seq<SketchView>> {
    rs.map(|i: int, s: Signature| s@)
}

/// The query's hash mask: the hash values of the matching sketch of the last
/// record that has one (a later record's match overwrites an earlier one's),
/// or nothing when no record carries a matching sketch.
pub open spec fn query_mask_spec(records: Seq<Seq<SketchView>>, t: Template) -> Option<Seq<u64>>
    decreases records.len(),
{
    if records.len() == 0 {
        None
    } else {
        match select_spec(records.last(), t) {
            Some(d) => Some(d.mins),
            None => query_mask_spec(records.drop_last(), t),
        }
    }
}

/// Scans every record of the query file and extracts the hash mask from the
/// last matching sketch found; returns nothing exactly when no record has a
/// sketch matching the template.
pub fn extract_mask(records: &Vec<Signature>, t: &Template) -> (r: Option<Vec<u64>>)
    ensures
        match r {
            Some(v) => query_mask_spec(records_view(records@), *t) == Some(v@),
            None => query_mask_spec(records_view(records@), *t) is None,
        },
{
    let n = records.len();
    let mut cur: Option<Vec<u64>> = None;
    let mut i: usize = 0;
    while i < n
        invariant
            n == records@.len(),
            i <= n,
            match cur {
                Some(v) => query_mask_spec(records_view(records@.take(i as int)), *t) == Some(
                    v@,
                ),
                None => query_mask_spec(records_view(records@.take(i as int)), *t) is None,
            },
        decreases n - i,
    {
        proof {
            let full = records_view(records@.take(i + 1 as int));
            assert(full.drop_last() =~= records_view(records@.take(i as int)));
            assert(full.last() == records@[i as int]@);
        }
        match select_sketch(&records[i], t) {
            Some(mh) => {
                cur = Some(copy_hashes(&mh.mins));
            },
            None => {},
        }
        i = i + 1;
    }
    proof {
        assert(records@.take(n as int) =~= records@);
    }
    cur
}

/// Law: the extracted mask is an ordered, duplicate-free hash set whenever
/// the query's hash-set sketches are well-formed.
pub proof fn lemma_query_mask_sorted(records: Seq<Seq<SketchView>>, t: Template)
    requires
        forall|i: int| 0 <= i < records.len() ==> sig_wf(#[trigger] records[i]),
        query_mask_spec(records, t) is Some,
    ensures
        sorted_strict(query_mask_spec(records, t).unwrap()),
    decreases records.len(),
{
    if select_spec(records.last(), t) is Some {
        assert(records.last() == records[records.len() - 1]);
        lemma_select_wf(records.last(), t);
    } else {
        assert(forall|i: int|
            0 <= i < records.drop_last().len() ==> sig_wf(#[trigger] records.drop_last()[i]));
        lemma_query_mask_sorted(records.drop_last(), t);
    }
}

} // verus!

//! Exact set difference on a sketch's hash values: the subtrahend is the
//! mask extracted from the query sketch.

use vstd::prelude::*;

use crate::sketch::MinHashSketch;
use crate::sketch::bounded_by;
use crate::sketch::sorted_strict;

verus! {

/// The hash values of `s` that do not occur in `m`, in the order of `s`.
pub open spec fn seq_diff(s: Seq<u64>, m: Seq<u64>) -> Seq<u64> {
    s.filter(|h: u64| !m.contains(h))
}

/// A value is in the difference exactly when it is in `s` and not in `m`:
/// subtraction never introduces a new hash and never removes one absent from
/// the mask.
pub proof fn lemma_diff_contains(s: Seq<u64>, m: Seq<u64>)
    ensures
        forall|h: u64| #[trigger] seq_diff(s, m).contains(h) <==> s.contains(h) && !m.contains(h),
    decreases s.len(),
{
    reveal(Seq::filter);
    if s.len() > 0 {
        lemma_diff_contains(s.drop_last(), m);
        assert forall|h: u64| #[trigger] seq_diff(s, m).contains(h) implies s.contains(h)
            && !m.contains(h) by {
            if h == s.last() && !m.contains(h) {
                assert(s[s.len() - 1] == h);
            } else {
                if seq_diff(s.drop_last(), m).contains(h) {
                    let i = choose|i: int|
                        0 <= i < s.drop_last().len() && s.drop_last()[i] == h;
                    assert(s[i] == h);
                } else {
                    assert(seq_diff(s, m) == if !m.contains(s.last()) {
                        seq_diff(s.drop_last(), m).push(s.last())
                    } else {
                        seq_diff(s.drop_last(), m)
                    });
                }
            }
        }
        assert forall|h: u64| s.contains(h) && !m.contains(h) implies #[trigger] seq_diff(
            s,
            m,
        ).contains(h) by {
            let i = choose|i: int| 0 <= i < s.len() && s[i] == h;
            if i < s.len() - 1 {
                assert(s.drop_last()[i] == h);
                assert(seq_diff(s.drop_last(), m).contains(h));
                let j = choose|j: int|
                    0 <= j < seq_diff(s.drop_last(), m).len() && seq_diff(s.drop_last(), m)[j]
                        == h;
                if !m.contains(s.last()) {
                    assert(seq_diff(s, m)[j] == h);
                }
            } else {
                assert(h == s.last());
                assert(seq_diff(s, m).last() == h);
            }
        }
    }
}

/// Law: subtraction is exact set difference. The difference's set of values
/// is the set of `s` minus the set of `m`: nothing new appears, and nothing
/// outside the mask disappears.
pub proof fn lemma_diff_is_set_difference(s: Seq<u64>, m: Seq<u64>)
    ensures
        seq_diff(s, m).to_set() == s.to_set().difference(m.to_set()),
{
    lemma_diff_contains(s, m);
    assert(seq_diff(s, m).to_set() =~= s.to_set().difference(m.to_set()));
}

/// Law: subtracting an empty mask leaves the hash sequence unchanged.
pub proof fn lemma_diff_empty_mask(s: Seq<u64>)
    ensures
        seq_diff(s, Seq::<u64>::empty()) == s,
    decreases s.len(),
{
    reveal(Seq::filter);
    if s.len() > 0 {
        lemma_diff_empty_mask(s.drop_last());
        assert(seq_diff(s, Seq::<u64>::empty()) =~= s);
    } else {
        assert(seq_diff(s, Seq::<u64>::empty()) =~= s);
    }
}

/// Law: subtracting a mask that covers every hash of `s` (in particular, a
/// mask equal to `s`'s full hash set) leaves an empty hash sequence.
pub proof fn lemma_diff_full_mask(s: Seq<u64>, m: Seq<u64>)
    requires
        forall|h: u64| s.contains(h) ==> m.contains(h),
    ensures
        seq_diff(s, m) == Seq::<u64>::empty(),
    decreases s.len(),
{
    reveal(Seq::filter);
    if s.len() > 0 {
        assert forall|h: u64| s.drop_last().contains(h) implies m.contains(h) by {
            let i = choose|i: int| 0 <= i < s.drop_last().len() && s.drop_last()[i] == h;
            assert(s[i] == h);
        }
        lemma_diff_full_mask(s.drop_last(), m);
        assert(s.contains(s.last()));
    }
}

/// Filtering keeps a sequence unchanged when every element already satisfies
/// the predicate.
proof fn lemma_filter_all_kept(s: Seq<u64>, pred: spec_fn(u64) -> bool)
    requires
        forall|i: int| 0 <= i < s.len() ==> pred(#[trigger] s[i]),
    ensures
        s.filter(pred) == s,
    decreases s.len(),
{
    reveal(Seq::filter);
    if s.len() > 0 {
        assert(forall|i: int| 0 <= i < s.drop_last().len() ==> pred(#[trigger] s.drop_last()[i]));
        lemma_filter_all_kept(s.drop_last(), pred);
        assert(pred(s[s.len() - 1]));
        assert(s.filter(pred) =~= s);
    } else {
        assert(s.filter(pred) =~= s);
    }
}

/// Law: subtraction is idempotent. Once the mask's hashes are removed,
/// removing them again changes nothing.
pub proof fn lemma_diff_idempotent(s: Seq<u64>, m: Seq<u64>)
    ensures
        seq_diff(seq_diff(s, m), m) == seq_diff(s, m),
{
    let d = seq_diff(s, m);
    lemma_diff_contains(s, m);
    assert forall|i: int| 0 <= i < d.len() implies !m.contains(#[trigger] d[i]) by {
        assert(d.contains(d[i]));
    }
    lemma_filter_all_kept(d, |h: u64| !m.contains(h));
}

/// The difference preserves strict ascending order.
pub proof fn lemma_diff_sorted(s: Seq<u64>, m: Seq<u64>)
    requires
        sorted_strict(s),
    ensures
        sorted_strict(seq_diff(s, m)),
    decreases s.len(),
{
    reveal(Seq::filter);
    if s.len() > 0 {
        let prefix = s.drop_last();
        assert(sorted_strict(prefix));
        lemma_diff_sorted(prefix, m);
        if !m.contains(s.last()) {
            lemma_diff_contains(prefix, m);
            let d = seq_diff(prefix, m);
            assert forall|i: int, j: int|
                0 <= i < j < seq_diff(s, m).len() implies seq_diff(s, m)[i] < seq_diff(
                s,
                m,
            )[j] by {
                if j < d.len() {
                } else {
                    assert(seq_diff(s, m)[j] == s.last());
                    assert(d.contains(d[i]));
                    let p = choose|p: int| 0 <= p < prefix.len() && prefix[p] == d[i];
                    assert(s[p] == d[i]);
                    assert(s[p] < s.last());
                }
            }
        }
    }
}

/// The difference preserves an upper bound on the hash values.
pub proof fn lemma_diff_bounded(s: Seq<u64>, m: Seq<u64>, bound: u64)
    requires
        bounded_by(s, bound),
    ensures
        bounded_by(seq_diff(s, m), bound),
{
    lemma_diff_contains(s, m);
    let d = seq_diff(s, m);
    assert forall|i: int| 0 <= i < d.len() implies d[i] <= bound by {
        assert(d.contains(d[i]));
        let p = choose|p: int| 0 <= p < s.len() && s[p] == d[i];
    }
}

/// Linear membership test on a plain vector of hash values.
pub fn vec_contains(v: &Vec<u64>, x: u64) -> (r: bool)
    ensures
        r == v@.contains(x),
{
    let n = v.len();
    let mut i: usize = 0;
    while i < n
        invariant
            n == v@.len(),
            i <= n,
            forall|p: int| 0 <= p < i ==> v@[p] != x,
        decreases n - i,
    {
        if v[i] == x {
            return true;
        }
        i = i + 1;
    }
    false
}

impl MinHashSketch {
    /// Removes from this sketch every hash value present in `mask`: an exact
    /// set difference. Hashes of the mask not in the sketch are ignored;
    /// hashes of the sketch absent from the mask are preserved, in order.
    pub fn remove_many(&mut self, mask: &Vec<u64>)
        ensures
            final(self)@.mins == seq_diff(old(self)@.mins, mask@),
            final(self).ksize == old(self).ksize,
            final(self).hash_function == old(self).hash_function,
            final(self).max_hash == old(self).max_hash,
            final(self).num == old(self).num,
            final(self).seed == old(self).seed,
            old(self).wf() ==> final(self).wf(),
    {
        let n = self.mins.len();
        let mut kept: Vec<u64> = Vec::new();
        let mut i: usize = 0;
        while i < n
            invariant
                n == self.mins@.len(),
                i <= n,
                kept@ == seq_diff(self.mins@.take(i as int), mask@),
            decreases n - i,
        {
            proof {
                reveal(Seq::filter);
                assert(self.mins@.take(i + 1 as int).drop_last() == self.mins@.take(i as int));
                assert(self.mins@.take(i + 1 as int).last() == self.mins@[i as int]);
            }
            let h = self.mins[i];
            if !vec_contains(mask, h) {
                kept.push(h);
            }
            i = i + 1;
        }
        proof {
            assert(self.mins@.take(n as int) == self.mins@);
            if old(self).wf() {
                lemma_diff_sorted(self.mins@, mask@);
                if self.max_hash > 0 {
                    lemma_diff_bounded(self.mins@, mask@, self.max_hash);
                }
            }
        }
        self.mins = kept;
    }
}

} // verus!

//! The data model: hash-set sketches, the sketch variants a signature may
//! carry, and the parameter template used to select among them.

use vstd::prelude::*;

verus! {

/// Identity of the hash function a sketch was built with. Selection compares
/// it exactly; the library never computes a hash itself.
#[derive(Clone, Copy, PartialEq, Eq, Structural, Debug)]
pub enum HashFn {
    Murmur64Dna,
    Murmur64Protein,
    Murmur64Dayhoff,
    Murmur64Hp,
    Murmur64Skipm1n3,
    Murmur64Skipm2n3,
}

/// A hash-set ("MinHash-like") sketch: parameters plus an ordered set of
/// 64-bit hash values.
#[derive(Debug)]
pub struct MinHashSketch {
    pub ksize: u32,
    pub hash_function: HashFn,
    /// Upper bound on retained hash values; 0 means no scaling bound.
    pub max_hash: u64,
    /// Element-count bound of a num-bounded sketch; 0 means unbounded.
    pub num: u32,
    /// Seed of the hash function; carried through, never compared here.
    pub seed: u64,
    /// Strictly ascending, hence duplicate-free.
    pub mins: Vec<u64>,
}

/// Mathematical image of a hash-set sketch.
pub struct SketchData {
    pub ksize: u32,
    pub hash_function: HashFn,
    pub max_hash: u64,
    pub num: u32,
    pub seed: u64,
    pub mins: Seq<u64>,
}

impl View for MinHashSketch {
    type V = SketchData;

    open spec fn view(&self) -> SketchData {
        SketchData {
            ksize: self.ksize,
            hash_function: self.hash_function,
            max_hash: self.max_hash,
            num: self.num,
            seed: self.seed,
            mins: self.mins@,
        }
    }
}

/// `s` is strictly ascending: no duplicates, sorted by value.
pub open spec fn sorted_strict(s: Seq<u64>) -> bool {
    forall|i: int, j: int| 0 <= i < j < s.len() ==> s[i] < s[j]
}

/// Every value of `s` lies at or below `bound`.
pub open spec fn bounded_by(s: Seq<u64>, bound: u64) -> bool {
    forall|i: int| 0 <= i < s.len() ==> s[i] <= bound
}

impl SketchData {
    /// Well-formedness: hashes strictly ascending and, when a scaling bound
    /// is active, no hash above it.
    pub open spec fn wf(self) -> bool {
        &&& sorted_strict(self.mins)
        &&& self.max_hash > 0 ==> bounded_by(self.mins, self.max_hash)
    }
}

impl MinHashSketch {
    pub open spec fn wf(&self) -> bool {
        self@.wf()
    }

    /// Builds a sketch after checking well-formedness of the hash list;
    /// rejects one whose hashes are out of order, duplicated, or above an
    /// active scaling bound.
    pub fn new(
        ksize: u32,
        hash_function: HashFn,
        max_hash: u64,
        num: u32,
        seed: u64,
        mins: Vec<u64>,
    ) -> (r: Result<MinHashSketch, ()>)
        ensures
            r matches Ok(sk) ==> sk@ == (SketchData {
                ksize,
                hash_function,
                max_hash,
                num,
                seed,
                mins: mins@,
            }) && sk.wf(),
            r is Ok <==> (SketchData {
                ksize,
                hash_function,
                max_hash,
                num,
                seed,
                mins: mins@,
            }).wf(),
    {
        let data_ok = check_hashes(&mins, max_hash);
        if data_ok {
            Ok(MinHashSketch { ksize, hash_function, max_hash, num, seed, mins })
        } else {
            Err(())
        }
    }
}

/// True exactly when `mins` is strictly ascending and, if `max_hash > 0`,
/// bounded by it.
pub fn check_hashes(mins: &Vec<u64>, max_hash: u64) -> (r: bool)
    ensures
        r == (sorted_strict(mins@) && (max_hash > 0 ==> bounded_by(mins@, max_hash))),
{
    let n = mins.len();
    let mut i: usize = 0;
    while i < n
        invariant
            n == mins@.len(),
            i <= n,
            forall|p: int, q: int| 0 <= p < q <= i && q < n ==> mins@[p] < mins@[q],
            max_hash > 0 ==> forall|p: int| 0 <= p < i ==> mins@[p] <= max_hash,
        decreases n - i,
    {
        if i + 1 < n && mins[i] >= mins[i + 1] {
            assert(!sorted_strict(mins@));
            return false;
        }
        if max_hash > 0 && mins[i] > max_hash {
            assert(!bounded_by(mins@, max_hash));
            return false;
        }
        i = i + 1;
    }
    true
}

/// One sketch variant of a signature. The pipeline recognizes only the
/// hash-set variant; anything else is carried as `Unsupported` and discarded
/// on output.
#[derive(Debug)]
pub enum Sketch {
    MinHash(MinHashSketch),
    Unsupported,
}

/// Mathematical image of a sketch variant.
pub enum SketchView {
    MinHash(SketchData),
    Unsupported,
}

impl View for Sketch {
    type V = SketchView;

    open spec fn view(&self) -> SketchView {
        match self {
            Sketch::MinHash(mh) => SketchView::MinHash(mh@),
            Sketch::Unsupported => SketchView::Unsupported,
        }
    }
}

impl SketchView {
    pub open spec fn wf(self) -> bool {
        match self {
            SketchView::MinHash(data) => data.wf(),
            SketchView::Unsupported => true,
        }
    }
}

/// A signature: a container of sketch variants. The metadata of the external
/// signature format stays with its owner; the pipeline's decisions read only
/// the sketches.
#[derive(Debug)]
pub struct Signature {
    pub sketches: Vec<Sketch>,
}

impl View for Signature {
    type V = Seq<SketchView>;

    open spec fn view(&self) -> Seq<SketchView> {
        self.sketches@.map(|i: int, sk: Sketch| sk@)
    }
}

/// Every hash-set sketch of the sequence is well-formed.
pub open spec fn sig_wf(sig: Seq<SketchView>) -> bool {
    forall|i: int| 0 <= i < sig.len() ==> (#[trigger] sig[i]).wf()
}

impl Signature {
    pub open spec fn wf(&self) -> bool {
        sig_wf(self@)
    }
}

/// The parameter descriptor used to select a matching sketch: it carries no
/// hash values, only the selection criteria.
#[derive(Clone, Copy, Debug)]
pub struct Template {
    pub ksize: u32,
    pub hash_function: HashFn,
    pub max_hash: u64,
}

} // verus!

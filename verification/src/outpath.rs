//! The deterministic output layout: every processed target is written under
//! `<output_root>/<ksize>/`, keeping its own file name.

use vstd::prelude::*;

verus! {

pub const SLASH: u8 = 47;

/// The decimal digits of `n`, most significant first, as ASCII bytes.
pub open spec fn dec_digits(n: nat) -> Seq<u8>
    decreases n,
{
    if n < 10 {
        seq![(48 + n) as u8]
    } else {
        dec_digits(n / 10).push((48 + n % 10) as u8)
    }
}

/// Appends the decimal rendering of `n`.
fn push_dec(out: &mut Vec<u8>, n: u32)
    ensures
        final(out)@ == old(out)@ + dec_digits(n as nat),
    decreases n,
{
    if n < 10 {
        out.push(48 + (n as u8));
        proof {
            assert(out@ =~= old(out)@ + dec_digits(n as nat));
        }
    } else {
        push_dec(out, n / 10);
        out.push(48 + ((n % 10) as u8));
        proof {
            assert(out@ =~= old(out)@ + dec_digits(n as nat));
        }
    }
}

/// The decimal rendering of `n` as ASCII bytes.
pub fn dec_u32(n: u32) -> (r: Vec<u8>)
    ensures
        r@ == dec_digits(n as nat),
{
    let mut out: Vec<u8> = Vec::new();
    push_dec(&mut out, n);
    proof {
        assert(out@ =~= dec_digits(n as nat));
    }
    out
}

/// `dir` and `name`, separated by one path separator.
pub open spec fn path_join(dir: Seq<u8>, name: Seq<u8>) -> Seq<u8> {
    dir + seq![SLASH] + name
}

/// Appends all of `src`.
fn append_bytes(out: &mut Vec<u8>, src: &Vec<u8>)
    ensures
        final(out)@ == old(out)@ + src@,
{
    let n = src.len();
    let mut i: usize = 0;
    while i < n
        invariant
            n == src@.len(),
            i <= n,
            out@ == old(out)@ + src@.take(i as int),
        decreases n - i,
    {
        out.push(src[i]);
        proof {
            assert(out@ =~= old(out)@ + src@.take(i + 1 as int));
        }
        i = i + 1;
    }
    proof {
        assert(old(out)@ + src@.take(n as int) =~= old(out)@ + src@);
    }
}

/// The run's output directory for a k-mer size: the root with one
/// subdirectory named by the decimal form of `ksize`.
pub fn output_dir(root: &Vec<u8>, ksize: u32) -> (r: Vec<u8>)
    ensures
        r@ == path_join(root@, dec_digits(ksize as nat)),
{
    let mut out: Vec<u8> = Vec::new();
    append_bytes(&mut out, root);
    out.push(SLASH);
    push_dec(&mut out, ksize);
    proof {
        assert(out@ =~= path_join(root@, dec_digits(ksize as nat)));
    }
    out
}

/// The output path of one target: its own file name directly under `dir`.
/// The path begins with the directory and ends with the unchanged file name.
pub fn output_path(dir: &Vec<u8>, filename: &Vec<u8>) -> (r: Vec<u8>)
    ensures
        r@ == path_join(dir@, filename@),
        r@.len() == dir@.len() + 1 + filename@.len(),
        r@.take(dir@.len() as int) == dir@,
        r@.skip(r@.len() - filename@.len()) == filename@,
{
    let mut out: Vec<u8> = Vec::new();
    append_bytes(&mut out, dir);
    out.push(SLASH);
    append_bytes(&mut out, filename);
    proof {
        assert(out@ =~= path_join(dir@, filename@));
        assert(out@.take(dir@.len() as int) =~= dir@);
        assert(out@.skip(out@.len() - filename@.len()) =~= filename@);
    }
    out
}

/// The file name that `path` names: its bytes after the last path separator,
/// or all of it when it has none.
pub open spec fn base_name_spec(path: Seq<u8>) -> Seq<u8>
    decreases path.len(),
{
    if path.len() == 0 {
        path
    } else if path.last() == SLASH {
        Seq::empty()
    } else {
        base_name_spec(path.drop_last()).push(path.last())
    }
}

/// Returns the file-name component of `path`: everything after its last
/// separator.
pub fn base_name(path: &Vec<u8>) -> (r: Vec<u8>)
    ensures
        r@ == base_name_spec(path@),
{
    let n = path.len();
    // The start of the file name: one past the last separator.
    let mut start: usize = 0;
    let mut k: usize = 0;
    while k < n
        invariant
            n == path@.len(),
            k <= n,
            start <= k,
            start > 0 ==> path@[start - 1] == SLASH,
            forall|j: int| start <= j < k ==> path@[j] != SLASH,
        decreases n - k,
    {
        if path[k] == SLASH {
            start = k + 1;
        }
        k = k + 1;
    }
    proof {
        lemma_base_name_suffix(path@, start as int);
    }
    let mut out: Vec<u8> = Vec::new();
    let mut i: usize = start;
    while i < n
        invariant
            start <= i <= n,
            n == path@.len(),
            out@ == path@.subrange(start as int, i as int),
        decreases n - i,
    {
        out.push(path[i]);
        proof {
            assert(out@ =~= path@.subrange(start as int, i + 1 as int));
        }
        i = i + 1;
    }
    proof {
        assert(path@.subrange(start as int, n as int) =~= path@.skip(start as int));
    }
    out
}

/// When no separator occurs at or after `start`, and either `start` is 0 or
/// a separator stands just before it, the base name is the suffix from
/// `start`.
proof fn lemma_base_name_suffix(path: Seq<u8>, start: int)
    requires
        0 <= start <= path.len(),
        forall|j: int| start <= j < path.len() ==> path[j] != SLASH,
        start > 0 ==> path[start - 1] == SLASH,
    ensures
        base_name_spec(path) == path.skip(start),
    decreases path.len(),
{
    if path.len() == 0 {
        assert(base_name_spec(path) =~= path.skip(start));
    } else if path.last() == SLASH {
        assert(start == path.len());
        assert(base_name_spec(path) =~= path.skip(start));
    } else {
        assert(start < path.len());
        assert(forall|j: int| start <= j < path.drop_last().len() ==> path.drop_last()[j] != SLASH);
        lemma_base_name_suffix(path.drop_last(), start);
        assert(path.drop_last().skip(start).push(path.last()) =~= path.skip(start));
    }
}

} // verus!

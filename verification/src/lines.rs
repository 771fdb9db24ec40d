//! Reading the target list: splitting the list file's bytes into one path
//! per line.

use vstd::prelude::*;

verus! {

pub const NL: u8 = 10;

pub const CR: u8 = 13;

/// A line with a carriage return at its end (just before the line feed that
/// closed it) loses that carriage return.
pub open spec fn strip_cr(line: Seq<u8>) -> Seq<u8> {
    if line.len() > 0 && line.last() == CR {
        line.drop_last()
    } else {
        line
    }
}

/// The lines of `data`, with `cur` the part of the current line already
/// consumed: a line ends at each line feed, and a final line without one
/// still counts unless it is empty.
pub open spec fn lines_from(data: Seq<u8>, cur: Seq<u8>) -> Seq<Seq<u8>>
    decreases data.len(),
{
    if data.len() == 0 {
        if cur.len() == 0 {
            Seq::empty()
        } else {
            seq![cur]
        }
    } else if data[0] == NL {
        seq![strip_cr(cur)] + lines_from(data.drop_first(), Seq::empty())
    } else {
        lines_from(data.drop_first(), cur.push(data[0]))
    }
}

/// The lines of `data`: each line feed ends a line, a carriage return
/// directly before a line feed is dropped, and a trailing line feed does not
/// produce a spurious empty line. Blank interior lines stay, as literal
/// empty entries.
pub open spec fn lines_of(data: Seq<u8>) -> Seq<Seq<u8>> {
    lines_from(data, Seq::empty())
}

/// The byte sequences of a sequence of byte vectors.
pub open spec fn vecs_view(s: Seq<Vec<u8>>) -> Seq<Seq<u8>> {
    s.map(|i: int, v: Vec<u8>| v@)
}

/// Splits the target list's bytes into lines, one entry per path, preserving
/// input order.
pub fn split_lines(data: &Vec<u8>) -> (r: Vec<Vec<u8>>)
    ensures
        vecs_view(r@) == lines_of(data@),
{
    let n = data.len();
    let mut out: Vec<Vec<u8>> = Vec::new();
    let mut cur: Vec<u8> = Vec::new();
    let mut i: usize = 0;
    proof {
        assert(data@.skip(0) =~= data@);
        assert(vecs_view(out@) + lines_from(data@, cur@) =~= lines_of(data@));
    }
    while i < n
        invariant
            n == data@.len(),
            i <= n,
            lines_of(data@) == vecs_view(out@) + lines_from(data@.skip(i as int), cur@),
        decreases n - i,
    {
        proof {
            assert(data@.skip(i as int)[0] == data@[i as int]);
            assert(data@.skip(i as int).drop_first() =~= data@.skip(i + 1 as int));
        }
        let b = data[i];
        if b == NL {
            let ghost prev = cur@;
            let ghost out0 = vecs_view(out@);
            if cur.len() > 0 && cur[cur.len() - 1] == CR {
                cur.pop();
                proof {
                    assert(cur@ =~= strip_cr(prev));
                }
            }
            out.push(cur);
            cur = Vec::new();
            proof {
                assert(vecs_view(out@) =~= out0.push(strip_cr(prev)));
                assert(vecs_view(out@) + lines_from(data@.skip(i + 1 as int), cur@) =~= out0 + (
                seq![strip_cr(prev)] + lines_from(data@.skip(i + 1 as int), Seq::empty())));
            }
        } else {
            cur.push(b);
        }
        i = i + 1;
    }
    proof {
        assert(data@.skip(n as int) =~= Seq::<u8>::empty());
    }
    if cur.len() > 0 {
        let ghost out0 = vecs_view(out@);
        let ghost last = cur@;
        out.push(cur);
        proof {
            assert(vecs_view(out@) =~= out0.push(last));
            assert(out0.push(last) =~= out0 + seq![last]);
        }
    } else {
        proof {
            assert(vecs_view(out@) + Seq::<Seq<u8>>::empty() =~= vecs_view(out@));
        }
    }
    out
}

} // verus!

//! Splitting decoded bytes into text lines: lines end at a newline byte,
//! a carriage return before the newline is dropped, and a trailing newline
//! does not open a final empty line.
use vstd::prelude::*;

verus! {

/// The position of the first newline byte, or the length when there is none.
pub open spec fn first_newline(data: Seq<u8>) -> nat
    decreases data.len(),
{
    if data.len() == 0 {
        0
    } else if data[0] == 10u8 {
        0
    } else {
        (1 + first_newline(data.drop_first())) as nat
    }
}

/// A line with a trailing carriage return removed.
pub open spec fn strip_cr(line: Seq<u8>) -> Seq<u8> {
    if line.len() > 0 && line.last() == 13u8 {
        line.drop_last()
    } else {
        line
    }
}

/// The byte lines of a buffer, split at newline bytes.
pub open spec fn split_lines(data: Seq<u8>) -> Seq<Seq<u8>>
    decreases data.len(),
{
    if data.len() == 0 {
        Seq::empty()
    } else {
        let i = first_newline(data) as int;
        if i >= data.len() {
            seq![strip_cr(data)]
        } else {
            seq![strip_cr(data.take(i))] + split_lines(data.skip(i + 1))
        }
    }
}

proof fn lemma_first_newline(data: Seq<u8>)
    ensures
        first_newline(data) <= data.len(),
        forall|m: int| 0 <= m < first_newline(data) ==> data[m] != 10u8,
        first_newline(data) < data.len() ==> data[first_newline(data) as int] == 10u8,
    decreases data.len(),
{
    if data.len() == 0 {
    } else if data[0] == 10u8 {
    } else {
        lemma_first_newline(data.drop_first());
        assert forall|m: int| 0 <= m < first_newline(data) implies data[m] != 10u8 by {
            if m > 0 {
                assert(data.drop_first()[m - 1] == data[m]);
            }
        }
    }
}

/// The views of a sequence of owned byte lines.
pub open spec fn byte_views(v: Seq<Vec<u8>>) -> Seq<Seq<u8>> {
    v.map_values(|x: Vec<u8>| x@)
}

/// Splits a byte buffer into its lines.
pub fn split_lines_vec(data: &Vec<u8>) -> (r: Vec<Vec<u8>>)
    ensures
        byte_views(r@) == split_lines(data@),
{
    let mut out: Vec<Vec<u8>> = Vec::new();
    let mut pos: usize = 0;
    proof {
        assert(data@.skip(0) =~= data@);
        assert(byte_views(out@) + split_lines(data@) =~= split_lines(data@));
    }
    while pos < data.len()
        invariant
            pos <= data@.len(),
            byte_views(out@) + split_lines(data@.skip(pos as int)) == split_lines(data@),
        decreases data@.len() - pos,
    {
        let ghost s = data@.skip(pos as int);
        let mut cur: Vec<u8> = Vec::new();
        let mut j: usize = pos;
        while j < data.len() && data[j] != 10u8
            invariant
                pos <= j <= data@.len(),
                cur@ == data@.subrange(pos as int, j as int),
                forall|m: int| pos <= m < j ==> data@[m] != 10u8,
            decreases data@.len() - j,
        {
            cur.push(data[j]);
            proof {
                assert(cur@ =~= data@.subrange(pos as int, j + 1));
            }
            j = j + 1;
        }
        proof {
            lemma_first_newline(s);
            assert forall|m: int| 0 <= m < j - pos implies s[m] != 10u8 by {
                assert(s[m] == data@[pos + m]);
            }
            if (j as int) < data@.len() {
                assert(s[j - pos] == data@[j as int]);
            }
            assert(first_newline(s) == j - pos);
        }
        if cur.len() > 0 && cur[cur.len() - 1] == 13u8 {
            cur.pop();
        }
        proof {
            assert(s.take(j - pos) =~= data@.subrange(pos as int, j as int));
            assert(cur@ =~= strip_cr(data@.subrange(pos as int, j as int)));
        }
        out.push(cur);
        if j == data.len() {
            proof {
                assert(s =~= data@.subrange(pos as int, data@.len() as int));
                assert(split_lines(s) =~= seq![strip_cr(s)]);
                assert(byte_views(out@) =~= byte_views(out@.drop_last()) + seq![out@.last()@]);
                assert(byte_views(out@) + split_lines(data@.skip(data@.len() as int)) =~=
                byte_views(out@.drop_last()) + split_lines(data@.skip(pos as int)));
            }
            pos = data.len();
        } else {
            proof {
                assert(split_lines(s) == seq![strip_cr(s.take(j - pos))] + split_lines(
                    s.skip(j - pos + 1),
                ));
                assert(s.skip(j - pos + 1) =~= data@.skip(j + 1));
                assert(byte_views(out@) =~= byte_views(out@.drop_last()) + seq![out@.last()@]);
                assert(byte_views(out@) + split_lines(data@.skip(j + 1)) =~= byte_views(
                    out@.drop_last(),
                ) + split_lines(data@.skip(pos as int)));
            }
            pos = j + 1;
        }
    }
    proof {
        assert(split_lines(data@.skip(data@.len() as int)) =~= Seq::<Seq<u8>>::empty());
        assert(byte_views(out@) + Seq::<Seq<u8>>::empty() =~= byte_views(out@));
    }
    out
}

} // verus!

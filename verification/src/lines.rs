//! The line table: one byte offset per line start, derived once from the
//! source text and read-only thereafter.

use vstd::prelude::*;

verus! {

/// A `Vec<usize>` line table as a mathematical sequence of integers.
pub open spec fn table_view(t: Vec<usize>) -> Seq<int> {
    t@.map_values(|v: usize| v as int)
}

/// The byte positions that directly follow each newline of `s`, in order.
pub open spec fn newline_starts(s: Seq<u8>) -> Seq<int>
    decreases s.len(),
{
    if s.len() == 0 {
        Seq::empty()
    } else if s.last() == 10u8 {
        newline_starts(s.drop_last()).push(s.len() as int)
    } else {
        newline_starts(s.drop_last())
    }
}

/// The line-start table of `s`: offset 0, the position after every
/// newline, and a final sentinel equal to the text length when the text
/// does not already end at a line start.
pub open spec fn spec_line_starts(s: Seq<u8>) -> Seq<int> {
    let base = seq![0int] + newline_starts(s);
    if base.last() != s.len() as int {
        base.push(s.len() as int)
    } else {
        base
    }
}

proof fn lemma_newline_starts_bounds(s: Seq<u8>)
    ensures
        forall|i: int|
            0 <= i < newline_starts(s).len() ==> 1 <= #[trigger] newline_starts(s)[i] <= s.len(),
        forall|i: int, j: int|
            0 <= i < j < newline_starts(s).len() ==> newline_starts(s)[i] < newline_starts(s)[j],
    decreases s.len(),
{
    if s.len() > 0 {
        lemma_newline_starts_bounds(s.drop_last());
        let prev = newline_starts(s.drop_last());
        if s.last() == 10u8 {
            let cur = newline_starts(s);
            assert(cur == prev.push(s.len() as int));
            assert(forall|i: int| 0 <= i < prev.len() ==> #[trigger] prev[i] <= s.len() - 1);
            assert forall|i: int| 0 <= i < cur.len() implies 1 <= #[trigger] cur[i] <= s.len() by {
                if i < prev.len() {
                    assert(cur[i] == prev[i]);
                }
            }
        }
    }
}

/// The line table is well formed, as the data model asks: it begins at
/// offset 0, is strictly increasing, and its last entry is exactly the
/// text length.
pub proof fn lemma_line_table_well_formed(s: Seq<u8>)
    ensures
        spec_line_starts(s).len() >= 1,
        spec_line_starts(s)[0] == 0,
        spec_line_starts(s).last() == s.len(),
        forall|i: int, j: int|
            0 <= i < j < spec_line_starts(s).len() ==> #[trigger] spec_line_starts(s)[i]
                < #[trigger] spec_line_starts(s)[j],
{
    lemma_newline_starts_bounds(s);
    let ns = newline_starts(s);
    let base = seq![0int] + ns;
    assert(base[0] == 0);
    assert(forall|i: int| 0 <= i < ns.len() ==> #[trigger] base[i + 1] == ns[i]);
    assert forall|i: int, j: int| 0 <= i < j < base.len() implies base[i] < base[j] by {
        if i > 0 {
            assert(base[i] == ns[i - 1]);
        }
        assert(base[j] == ns[j - 1]);
    }
    if base.last() != s.len() as int {
        assert(spec_line_starts(s) == base.push(s.len() as int));
        assert(forall|i: int| 0 <= i < base.len() ==> #[trigger] base[i] <= s.len());
    }
}

/// Builds the line-start table of `src`.
pub fn line_start_offsets(src: &Vec<u8>) -> (starts: Vec<usize>)
    ensures
        table_view(starts) == spec_line_starts(src@),
{
    let mut starts: Vec<usize> = Vec::new();
    starts.push(0);
    proof {
        assert(table_view(starts) =~= seq![0int] + newline_starts(src@.take(0)));
    }
    let mut i: usize = 0;
    while i < src.len()
        invariant
            i <= src.len(),
            table_view(starts) == seq![0int] + newline_starts(src@.take(i as int)),
        decreases src.len() - i,
    {
        proof {
            assert(src@.take(i + 1).drop_last() =~= src@.take(i as int));
            assert(src@.take(i + 1).last() == src@[i as int]);
        }
        if src[i] == 10u8 {
            starts.push(i + 1);
            proof {
                assert(table_view(starts) =~= (seq![0int] + newline_starts(src@.take(i as int))).push(
                    i + 1,
                ));
            }
        }
        i += 1;
    }
    proof {
        assert(src@.take(src.len() as int) =~= src@);
        assert(table_view(starts).len() >= 1);
        assert(starts@.len() >= 1);
    }
    let last = starts[starts.len() - 1];
    proof {
        assert(last as int == table_view(starts).last());
    }
    if last != src.len() {
        starts.push(src.len());
        proof {
            assert(table_view(starts) =~= (seq![0int] + newline_starts(src@)).push(
                src@.len() as int,
            ));
        }
    }
    starts
}

} // verus!

//! Proved laws of the reorder engine: the emission order is sorted by
//! category and permutes the input declarations; reordering an already
//! canonically ordered text returns it unchanged; and the blank-line
//! discipline between consecutive items and at the end of the file.

use vstd::prelude::*;

use vstd::seq_lib::lemma_multiset_commutative;

use crate::assemble::{
    emit_all, emit_snips, finalize_tail, spec_bucket, spec_buckets, spec_prefix, spec_reorder,
    trim_nl,
};
use crate::classify::spec_category;
use crate::lines::spec_line_starts;
use crate::model::{Decl, ParsedFile};
use crate::resolve::spec_snippet;

verus! {

/// The category-`c` subsequence of the declarations, in original order.
pub open spec fn decl_bucket(decls: Seq<Decl>, c: int) -> Seq<Decl>
    decreases decls.len(),
{
    if decls.len() == 0 {
        Seq::empty()
    } else {
        let rest = decl_bucket(decls.drop_last(), c);
        if spec_category(decls.last()) == c {
            rest.push(decls.last())
        } else {
            rest
        }
    }
}

/// The declarations of the categories from `c` upward, grouped by
/// category in ascending order.
pub open spec fn emitted_from(decls: Seq<Decl>, c: int) -> Seq<Decl>
    decreases 8 - c,
{
    if c < 0 || c >= 8 {
        Seq::empty()
    } else {
        decl_bucket(decls, c) + emitted_from(decls, c + 1)
    }
}

/// The order the reassembler emits declarations in: the category-0 group
/// first, then category 1, and so on, each group in original order.
pub open spec fn emitted_order(decls: Seq<Decl>) -> Seq<Decl> {
    emitted_from(decls, 0)
}

proof fn lemma_bucket_cats(decls: Seq<Decl>, c: int)
    ensures
        forall|i: int|
            0 <= i < decl_bucket(decls, c).len() ==> spec_category(
                #[trigger] decl_bucket(decls, c)[i],
            ) == c,
    decreases decls.len(),
{
    if decls.len() > 0 {
        lemma_bucket_cats(decls.drop_last(), c);
        let rest = decl_bucket(decls.drop_last(), c);
        let cur = decl_bucket(decls, c);
        assert forall|i: int| 0 <= i < cur.len() implies spec_category(#[trigger] cur[i]) == c by {
            if spec_category(decls.last()) == c {
                assert(cur == rest.push(decls.last()));
                if i < rest.len() {
                    assert(cur[i] == rest[i]);
                } else {
                    assert(cur[i] == decls.last());
                }
            } else {
                assert(cur == rest);
            }
        }
    }
}

proof fn lemma_emitted_from_sorted(decls: Seq<Decl>, c: int)
    ensures
        forall|i: int, j: int|
            0 <= i <= j < emitted_from(decls, c).len() ==> spec_category(
                #[trigger] emitted_from(decls, c)[i],
            ) <= spec_category(#[trigger] emitted_from(decls, c)[j]),
        forall|i: int|
            0 <= i < emitted_from(decls, c).len() ==> c <= spec_category(
                #[trigger] emitted_from(decls, c)[i],
            ),
    decreases 8 - c,
{
    if 0 <= c < 8 {
        lemma_bucket_cats(decls, c);
        lemma_emitted_from_sorted(decls, c + 1);
        let b = decl_bucket(decls, c);
        let e = emitted_from(decls, c + 1);
        assert(emitted_from(decls, c) == b + e);
        assert forall|i: int| 0 <= i < (b + e).len() implies c <= spec_category(
            #[trigger] (b + e)[i],
        ) by {
            if i < b.len() {
                assert((b + e)[i] == b[i]);
            } else {
                assert((b + e)[i] == e[i - b.len()]);
            }
        }
        assert forall|i: int, j: int| 0 <= i <= j < (b + e).len() implies spec_category(
            #[trigger] (b + e)[i],
        ) <= spec_category(#[trigger] (b + e)[j]) by {
            if i < b.len() {
                assert((b + e)[i] == b[i]);
            } else {
                assert((b + e)[i] == e[i - b.len()]);
            }
            if j < b.len() {
                assert((b + e)[j] == b[j]);
            } else {
                assert((b + e)[j] == e[j - b.len()]);
            }
        }
    }
}

proof fn lemma_bucket_concat(a: Seq<Decl>, b: Seq<Decl>, c: int)
    ensures
        decl_bucket(a + b, c) == decl_bucket(a, c) + decl_bucket(b, c),
    decreases b.len(),
{
    if b.len() == 0 {
        assert(a + b =~= a);
        assert(decl_bucket(a, c) + decl_bucket(b, c) =~= decl_bucket(a, c));
    } else {
        lemma_bucket_concat(a, b.drop_last(), c);
        assert((a + b).drop_last() =~= a + b.drop_last());
        assert((a + b).last() == b.last());
        if spec_category(b.last()) == c {
            assert((decl_bucket(a, c) + decl_bucket(b.drop_last(), c)).push(b.last())
                =~= decl_bucket(a, c) + decl_bucket(b.drop_last(), c).push(b.last()));
        }
    }
}

proof fn lemma_bucket_of_all_same(s: Seq<Decl>, c: int)
    requires
        forall|i: int| 0 <= i < s.len() ==> spec_category(#[trigger] s[i]) == c,
    ensures
        decl_bucket(s, c) == s,
    decreases s.len(),
{
    if s.len() > 0 {
        lemma_bucket_of_all_same(s.drop_last(), c);
        assert(spec_category(s[s.len() - 1]) == c);
        assert(decl_bucket(s, c) =~= s);
    }
}

proof fn lemma_bucket_of_none(s: Seq<Decl>, c: int)
    requires
        forall|i: int| 0 <= i < s.len() ==> spec_category(#[trigger] s[i]) != c,
    ensures
        decl_bucket(s, c).len() == 0,
    decreases s.len(),
{
    if s.len() > 0 {
        lemma_bucket_of_none(s.drop_last(), c);
        assert(spec_category(s[s.len() - 1]) != c);
    }
}

proof fn lemma_emitted_from_bucket(decls: Seq<Decl>, c: int, k: int)
    requires
        0 <= c,
    ensures
        decl_bucket(emitted_from(decls, c), k) == (if c <= k < 8 {
            decl_bucket(decls, k)
        } else {
            Seq::<Decl>::empty()
        }),
    decreases 8 - c,
{
    if c >= 8 {
        assert(decl_bucket(emitted_from(decls, c), k) =~= Seq::<Decl>::empty());
    } else {
        lemma_emitted_from_bucket(decls, c + 1, k);
        let b = decl_bucket(decls, c);
        let e = emitted_from(decls, c + 1);
        assert(emitted_from(decls, c) == b + e);
        lemma_bucket_concat(b, e, k);
        lemma_bucket_cats(decls, c);
        if k == c {
            lemma_bucket_of_all_same(b, c);
            assert(decl_bucket(b, k) + decl_bucket(e, k) =~= b);
        } else {
            lemma_bucket_of_none(b, k);
            assert(decl_bucket(b, k) + decl_bucket(e, k) =~= decl_bucket(e, k));
        }
    }
}

proof fn lemma_emitted_from_push(decls: Seq<Decl>, d: Decl, c: int)
    requires
        0 <= c,
    ensures
        emitted_from(decls.push(d), c).to_multiset() == (if c <= spec_category(d) {
            emitted_from(decls, c).to_multiset().insert(d)
        } else {
            emitted_from(decls, c).to_multiset()
        }),
    decreases 8 - c,
{
    broadcast use vstd::seq_lib::group_to_multiset_ensures;
    broadcast use vstd::multiset::group_multiset_axioms;

    assert(0 <= spec_category(d) <= 7);
    if c < 8 {
        lemma_emitted_from_push(decls, d, c + 1);
        assert(decls.push(d).drop_last() =~= decls);
        assert(decls.push(d).last() == d);
        let bp = decl_bucket(decls.push(d), c);
        let b = decl_bucket(decls, c);
        let ep = emitted_from(decls.push(d), c + 1);
        let e = emitted_from(decls, c + 1);
        assert(emitted_from(decls.push(d), c) == bp + ep);
        assert(emitted_from(decls, c) == b + e);
        lemma_multiset_commutative(bp, ep);
        lemma_multiset_commutative(b, e);
        if spec_category(d) == c {
            assert(bp == b.push(d));
            assert(bp.to_multiset() =~= b.to_multiset().insert(d));
            assert(ep.to_multiset() == e.to_multiset());
            assert((bp + ep).to_multiset() =~= (b + e).to_multiset().insert(d));
        } else if spec_category(d) > c {
            assert(bp == b);
            assert(ep.to_multiset() == e.to_multiset().insert(d));
            assert((bp + ep).to_multiset() =~= (b + e).to_multiset().insert(d));
        } else {
            assert(bp == b);
            assert(ep.to_multiset() == e.to_multiset());
        }
    }
}

proof fn lemma_emitted_from_empty(c: int)
    ensures
        emitted_from(Seq::<Decl>::empty(), c).len() == 0,
    decreases 8 - c,
{
    if 0 <= c < 8 {
        lemma_emitted_from_empty(c + 1);
    }
}

proof fn lemma_emitted_multiset(decls: Seq<Decl>)
    ensures
        emitted_order(decls).to_multiset() == decls.to_multiset(),
    decreases decls.len(),
{
    broadcast use vstd::seq_lib::group_to_multiset_ensures;

    if decls.len() == 0 {
        assert(decls =~= Seq::<Decl>::empty());
        lemma_emitted_from_empty(0);
        assert(emitted_order(decls) =~= decls);
    } else {
        let rest = decls.drop_last();
        let d = decls.last();
        lemma_emitted_multiset(rest);
        lemma_emitted_from_push(rest, d, 0);
        assert(rest.push(d) =~= decls);
        assert(0 <= spec_category(d));
        assert(decls.to_multiset() =~= rest.to_multiset().insert(d));
    }
}

/// Category totality and canonical ordering: every declaration's category
/// lies in `[0, 7]`; the emission order is non-decreasing in category; it
/// is a permutation of the input; and within each category it is exactly
/// the input's own subsequence, in original relative order.
pub proof fn lemma_category_order(decls: Seq<Decl>)
    ensures
        forall|i: int| 0 <= i < decls.len() ==> 0 <= spec_category(#[trigger] decls[i]) <= 7,
        forall|i: int, j: int|
            0 <= i <= j < emitted_order(decls).len() ==> spec_category(
                #[trigger] emitted_order(decls)[i],
            ) <= spec_category(#[trigger] emitted_order(decls)[j]),
        emitted_order(decls).to_multiset() == decls.to_multiset(),
        forall|c: int|
            0 <= c < 8 ==> #[trigger] decl_bucket(emitted_order(decls), c) == decl_bucket(
                decls,
                c,
            ),
{
    lemma_emitted_from_sorted(decls, 0);
    lemma_emitted_multiset(decls);
    assert forall|c: int| 0 <= c < 8 implies #[trigger] decl_bucket(emitted_order(decls), c)
        == decl_bucket(decls, c) by {
        lemma_emitted_from_bucket(decls, 0, c);
    }
}

/// What the reassembler emits for category `c` is exactly the snippet of
/// each declaration of that category, in original order.
pub proof fn lemma_bucket_snippets(decls: Seq<Decl>, src: Seq<u8>, table: Seq<int>, c: int)
    ensures
        spec_bucket(decls, src, table, c) == decl_bucket(decls, c).map_values(
            |d: Decl| spec_snippet(d, src, table),
        ),
    decreases decls.len(),
{
    let f = |d: Decl| spec_snippet(d, src, table);
    if decls.len() == 0 {
        assert(spec_bucket(decls, src, table, c) =~= decl_bucket(decls, c).map_values(f));
    } else {
        lemma_bucket_snippets(decls.drop_last(), src, table, c);
        if spec_category(decls.last()) == c {
            assert(decl_bucket(decls, c).map_values(f) =~= decl_bucket(
                decls.drop_last(),
                c,
            ).map_values(f).push(f(decls.last())));
        }
    }
}

proof fn lemma_trim_nl_no_tail(s: Seq<u8>)
    ensures
        trim_nl(s).len() == 0 || trim_nl(s).last() != 10u8,
    decreases s.len(),
{
    if s.len() > 0 && s.last() == 10u8 {
        lemma_trim_nl_no_tail(s.drop_last());
    }
}

/// Trimming trailing newlines twice is the same as trimming them once.
pub proof fn lemma_trim_nl_idempotent(s: Seq<u8>)
    ensures
        trim_nl(trim_nl(s)) == trim_nl(s),
{
    lemma_trim_nl_no_tail(s);
}

proof fn lemma_emit_snips_trimmed(out: Seq<u8>, snips: Seq<Seq<u8>>, extra: int)
    ensures
        emit_snips(out, snips.map_values(|s: Seq<u8>| trim_nl(s)), extra) == emit_snips(
            out,
            snips,
            extra,
        ),
    decreases snips.len(),
{
    let f = |s: Seq<u8>| trim_nl(s);
    let m = snips.map_values(f);
    if snips.len() == 0 {
        assert(m =~= snips);
    } else {
        lemma_emit_snips_trimmed(out, snips.drop_last(), extra);
        lemma_trim_nl_idempotent(snips.last());
        assert(m.drop_last() =~= snips.drop_last().map_values(f));
        assert(m.last() == trim_nl(snips.last()));
    }
}

proof fn lemma_emit_all_trimmed(
    out: Seq<u8>,
    wrote: bool,
    b1: Seq<Seq<Seq<u8>>>,
    b2: Seq<Seq<Seq<u8>>>,
    c: int,
)
    requires
        b1.len() == 8,
        b2.len() == 8,
        forall|k: int|
            0 <= k < 8 ==> #[trigger] b2[k] == b1[k].map_values(|s: Seq<u8>| trim_nl(s)),
    ensures
        emit_all(out, wrote, b2, c) == emit_all(out, wrote, b1, c),
    decreases 8 - c,
{
    if 0 <= c < 8 {
        assert(b2[c].len() == b1[c].len());
        lemma_emit_snips_trimmed(out, b1[c], crate::classify::spec_blank_lines_after(c));
        lemma_emit_snips_trimmed(
            crate::assemble::pad_blank(out),
            b1[c],
            crate::classify::spec_blank_lines_after(c),
        );
        if b1[c].len() == 0 {
            lemma_emit_all_trimmed(out, wrote, b1, b2, c + 1);
        } else {
            let padded = if wrote && c != 0 {
                crate::assemble::pad_blank(out)
            } else {
                out
            };
            lemma_emit_all_trimmed(emit_snips(padded, b1[c], crate::classify::spec_blank_lines_after(c)), true, b1, b2, c + 1);
        }
    }
}

/// Idempotence: reordering an already canonically ordered text returns it
/// unchanged.  Precisely: let `out` be the reordering of `src` under the
/// parse `p1`.  If a re-parse `p2` of `out` reports the same header prefix
/// and, for every category, exactly the snippets the reordering emitted
/// there (each already trimmed of trailing newlines), then reordering
/// `out` under `p2` yields `out` again.
pub proof fn lemma_reorder_idempotent(src: Seq<u8>, p1: ParsedFile, p2: ParsedFile)
    requires
        spec_prefix(p2, spec_reorder(src, p1), spec_line_starts(spec_reorder(src, p1)))
            == spec_prefix(p1, src, spec_line_starts(src)),
        forall|c: int|
            0 <= c < 8 ==> #[trigger] spec_bucket(
                p2.decls@,
                spec_reorder(src, p1),
                spec_line_starts(spec_reorder(src, p1)),
                c,
            ) == spec_bucket(p1.decls@, src, spec_line_starts(src), c).map_values(
                |s: Seq<u8>| trim_nl(s),
            ),
    ensures
        spec_reorder(spec_reorder(src, p1), p2) == spec_reorder(src, p1),
{
    let out = spec_reorder(src, p1);
    let t1 = spec_line_starts(src);
    let t2 = spec_line_starts(out);
    let pre = spec_prefix(p1, src, t1);
    let b1 = spec_buckets(p1.decls@, src, t1);
    let b2 = spec_buckets(p2.decls@, out, t2);
    assert forall|k: int| 0 <= k < 8 implies #[trigger] b2[k] == b1[k].map_values(
        |s: Seq<u8>| trim_nl(s),
    ) by {
        assert(b2[k] == spec_bucket(p2.decls@, out, t2, k));
        assert(b1[k] == spec_bucket(p1.decls@, src, t1, k));
    }
    lemma_emit_all_trimmed(pre, pre.len() > 0, b1, b2, 0);
    assert(spec_reorder(out, p2) == finalize_tail(emit_all(pre, pre.len() > 0, b1, 0)));
}

/// The blank-line policy between consecutive items of one bucket: tightly
/// packed categories (imports, constants) put exactly one newline between
/// two consecutive snippets; the others put exactly one blank line.
pub proof fn lemma_blank_line_policy(out: Seq<u8>, a: Seq<u8>, b: Seq<u8>)
    ensures
        emit_snips(out, seq![a, b], 0) == out + trim_nl(a) + seq![10u8] + trim_nl(b) + seq![10u8],
        emit_snips(out, seq![a, b], 1) == out + trim_nl(a) + seq![10u8, 10u8] + trim_nl(b) + seq![
            10u8,
            10u8,
        ],
{
    let s2 = seq![a, b];
    let s1 = seq![a];
    let s0 = Seq::<Seq<u8>>::empty();
    assert(s2.drop_last() =~= s1);
    assert(s1.drop_last() =~= s0);
    assert(s2.last() == b);
    assert(s1.last() == a);
    assert(emit_snips(out, s0, 0) == out);
    assert(emit_snips(out, s0, 1) == out);
    assert(emit_snips(out, s1, 0) =~= out + trim_nl(a) + seq![10u8]);
    assert(emit_snips(out, s1, 1) =~= out + trim_nl(a) + seq![10u8, 10u8]);
    assert(emit_snips(out, s2, 0) =~= out + trim_nl(a) + seq![10u8] + trim_nl(b) + seq![10u8]);
    assert(emit_snips(out, s2, 1) =~= out + trim_nl(a) + seq![10u8, 10u8] + trim_nl(b) + seq![
        10u8,
        10u8,
    ]);
}

/// A nonempty reordered output ends with a newline, and its last line is
/// not blank: the final newline is the only trailing one.
pub proof fn lemma_single_trailing_newline(src: Seq<u8>, p: ParsedFile)
    ensures
        spec_reorder(src, p).len() > 0 ==> spec_reorder(src, p).last() == 10u8,
        spec_reorder(src, p).len() > 1 ==> spec_reorder(src, p)[spec_reorder(src, p).len() - 2]
            != 10u8,
{
    let t = spec_line_starts(src);
    let pre = spec_prefix(p, src, t);
    let x = emit_all(pre, pre.len() > 0, spec_buckets(p.decls@, src, t), 0);
    lemma_trim_nl_no_tail(x);
    if x.len() > 0 {
        assert(spec_reorder(src, p) == trim_nl(x).push(10u8));
        if trim_nl(x).len() > 0 {
            assert(trim_nl(x).push(10u8)[trim_nl(x).len() as int - 1] == trim_nl(x).last());
        }
    }
}

} // verus!

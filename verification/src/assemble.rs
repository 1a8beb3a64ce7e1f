//! The reassembler: buckets the extracted declaration texts by category
//! and re-emits the file deterministically — header first, then each
//! non-empty category in order, with the blank-line discipline and a
//! single trailing newline.

use vstd::prelude::*;

use crate::classify::{blank_lines_after, category, spec_blank_lines_after, spec_category};
use crate::lines::{line_start_offsets, spec_line_starts, table_view};
use crate::model::{texts_view, Decl, ParsedFile};
use crate::resolve::{copy_range, header_to_string, item_snippet, spec_header_text, spec_snippet};

verus! {

/// `s` without its trailing newlines.
pub open spec fn trim_nl(s: Seq<u8>) -> Seq<u8>
    decreases s.len(),
{
    if s.len() > 0 && s.last() == 10u8 {
        trim_nl(s.drop_last())
    } else {
        s
    }
}

/// ASCII whitespace.
pub open spec fn is_ws(b: u8) -> bool {
    b == 32u8 || b == 9u8 || b == 10u8 || b == 13u8 || b == 11u8 || b == 12u8
}

/// `s` without its trailing whitespace.
pub open spec fn trim_ws(s: Seq<u8>) -> Seq<u8>
    decreases s.len(),
{
    if s.len() > 0 && is_ws(s.last()) {
        trim_ws(s.drop_last())
    } else {
        s
    }
}

/// Whether `s` ends with a newline.
pub open spec fn ends_nl(s: Seq<u8>) -> bool {
    s.len() >= 1 && s[s.len() - 1] == 10u8
}

/// Whether `s` ends with a blank line (two consecutive newlines).
pub open spec fn ends_blank(s: Seq<u8>) -> bool {
    s.len() >= 2 && s[s.len() - 1] == 10u8 && s[s.len() - 2] == 10u8
}

/// Pads `s` with newlines until it ends with a blank line.
pub open spec fn pad_blank(s: Seq<u8>) -> Seq<u8> {
    if ends_blank(s) {
        s
    } else if ends_nl(s) {
        s.push(10u8)
    } else {
        s.push(10u8).push(10u8)
    }
}

/// What follows each emitted snippet: one newline, plus one blank line for
/// the loosely packed categories.
pub open spec fn snippet_sep(extra: int) -> Seq<u8> {
    if extra == 0 {
        seq![10u8]
    } else {
        seq![10u8, 10u8]
    }
}

/// Appends one bucket's snippets to `out`: each trimmed of trailing
/// newlines and followed by its separator.
pub open spec fn emit_snips(out: Seq<u8>, snips: Seq<Seq<u8>>, extra: int) -> Seq<u8>
    decreases snips.len(),
{
    if snips.len() == 0 {
        out
    } else {
        emit_snips(out, snips.drop_last(), extra) + trim_nl(snips.last()) + snippet_sep(extra)
    }
}

/// Emits one category bucket: nothing when it is empty; otherwise a forced
/// blank-line separator (except before the import category) and then the
/// snippets.  Returns the new text and the new written-anything flag.
pub open spec fn emit_bucket(out: Seq<u8>, wrote: bool, idx: int, snips: Seq<Seq<u8>>) -> (
    Seq<u8>,
    bool,
) {
    if snips.len() == 0 {
        (out, wrote)
    } else {
        let padded = if wrote && idx != 0 {
            pad_blank(out)
        } else {
            out
        };
        (emit_snips(padded, snips, spec_blank_lines_after(idx)), true)
    }
}

/// Emits the buckets from `idx` upward in category order.
pub open spec fn emit_all(out: Seq<u8>, wrote: bool, buckets: Seq<Seq<Seq<u8>>>, idx: int) -> Seq<
    u8,
>
    decreases buckets.len() - idx,
{
    if idx < 0 || idx >= buckets.len() {
        out
    } else {
        let step = emit_bucket(out, wrote, idx, buckets[idx]);
        emit_all(step.0, step.1, buckets, idx + 1)
    }
}

/// The snippets of the declarations of category `c`, in original order.
pub open spec fn spec_bucket(decls: Seq<Decl>, src: Seq<u8>, table: Seq<int>, c: int) -> Seq<
    Seq<u8>,
>
    decreases decls.len(),
{
    if decls.len() == 0 {
        Seq::empty()
    } else {
        let rest = spec_bucket(decls.drop_last(), src, table, c);
        if spec_category(decls.last()) == c {
            rest.push(spec_snippet(decls.last(), src, table))
        } else {
            rest
        }
    }
}

/// All 8 category buckets.
pub open spec fn spec_buckets(decls: Seq<Decl>, src: Seq<u8>, table: Seq<int>) -> Seq<Seq<Seq<u8>>> {
    Seq::new(8, |c: int| spec_bucket(decls, src, table, c))
}

/// The emitted file header: the shebang line plus one newline if present,
/// then the right-trimmed merged attribute text plus one blank line if the
/// file has file-level attributes.
pub open spec fn spec_prefix(p: ParsedFile, src: Seq<u8>, table: Seq<int>) -> Seq<u8> {
    let sb = match p.shebang {
        Some(s) => s@ + seq![10u8],
        None => Seq::<u8>::empty(),
    };
    let hd = if p.file_attr_spans@.len() > 0 {
        trim_ws(spec_header_text(p.file_attr_spans@, src, table)) + seq![10u8, 10u8]
    } else {
        Seq::<u8>::empty()
    };
    sb + hd
}

/// The trailing-newline discipline: a nonempty output ends with exactly
/// one newline; an empty output stays empty.
pub open spec fn finalize_tail(s: Seq<u8>) -> Seq<u8> {
    if s.len() == 0 {
        s
    } else {
        trim_nl(s).push(10u8)
    }
}

/// The canonical reordering of a source text under a parse: header, then
/// each non-empty category in order, with the blank-line rules applied.
pub open spec fn spec_reorder(src: Seq<u8>, p: ParsedFile) -> Seq<u8> {
    let table = spec_line_starts(src);
    let pre = spec_prefix(p, src, table);
    finalize_tail(emit_all(pre, pre.len() > 0, spec_buckets(p.decls@, src, table), 0))
}

fn push_bytes(out: &mut Vec<u8>, s: &Vec<u8>)
    ensures
        final(out)@ == old(out)@ + s@,
{
    let mut i: usize = 0;
    while i < s.len()
        invariant
            i <= s.len(),
            out@ == old(out)@ + s@.take(i as int),
        decreases s.len() - i,
    {
        out.push(s[i]);
        proof {
            assert(old(out)@ + s@.take(i + 1) =~= (old(out)@ + s@.take(i as int)).push(
                s@[i as int],
            ));
        }
        i += 1;
    }
    proof {
        assert(old(out)@ + s@.take(s@.len() as int) =~= old(out)@ + s@);
    }
}

/// The length of `s` once its trailing newlines are dropped.
fn trimmed_nl_len(s: &Vec<u8>) -> (e: usize)
    ensures
        s@.take(e as int) == trim_nl(s@),
        e <= s.len(),
{
    let mut e = s.len();
    proof {
        assert(s@.take(s@.len() as int) =~= s@);
    }
    while e > 0 && s[e - 1] == 10u8
        invariant
            e <= s.len(),
            trim_nl(s@) == trim_nl(s@.take(e as int)),
        decreases e,
    {
        proof {
            assert(s@.take(e as int).drop_last() =~= s@.take(e - 1));
            assert(s@.take(e as int).last() == s@[e - 1]);
        }
        e -= 1;
    }
    proof {
        if e > 0 {
            assert(s@.take(e as int).last() == s@[e - 1]);
        }
        assert(trim_nl(s@.take(e as int)) == s@.take(e as int));
    }
    e
}

fn push_trimmed(out: &mut Vec<u8>, s: &Vec<u8>)
    ensures
        final(out)@ == old(out)@ + trim_nl(s@),
{
    let e = trimmed_nl_len(s);
    let t = copy_range(s, 0, e);
    proof {
        assert(t@ =~= s@.take(e as int));
    }
    push_bytes(out, &t);
}

fn push_ws_trimmed(out: &mut Vec<u8>, s: &Vec<u8>)
    ensures
        final(out)@ == old(out)@ + trim_ws(s@),
{
    let mut e = s.len();
    proof {
        assert(s@.take(s@.len() as int) =~= s@);
    }
    while e > 0 && (s[e - 1] == 32u8 || s[e - 1] == 9u8 || s[e - 1] == 10u8 || s[e - 1] == 13u8
        || s[e - 1] == 11u8 || s[e - 1] == 12u8)
        invariant
            e <= s.len(),
            trim_ws(s@) == trim_ws(s@.take(e as int)),
        decreases e,
    {
        proof {
            assert(s@.take(e as int).drop_last() =~= s@.take(e - 1));
            assert(s@.take(e as int).last() == s@[e - 1]);
        }
        e -= 1;
    }
    proof {
        if e > 0 {
            assert(s@.take(e as int).last() == s@[e - 1]);
        }
        assert(trim_ws(s@.take(e as int)) == s@.take(e as int));
    }
    let t = copy_range(s, 0, e);
    proof {
        assert(t@ =~= s@.take(e as int));
    }
    push_bytes(out, &t);
}

fn pad_to_blank(out: &mut Vec<u8>)
    ensures
        final(out)@ == pad_blank(old(out)@),
{
    let n = out.len();
    if n >= 2 && out[n - 1] == 10u8 && out[n - 2] == 10u8 {
    } else if n >= 1 && out[n - 1] == 10u8 {
        out.push(10u8);
    } else {
        out.push(10u8);
        out.push(10u8);
    }
}

/// Whether two byte vectors hold the same bytes.
pub fn bytes_equal(a: &Vec<u8>, b: &Vec<u8>) -> (r: bool)
    ensures
        r == (a@ == b@),
{
    if a.len() != b.len() {
        return false;
    }
    let mut i: usize = 0;
    while i < a.len()
        invariant
            i <= a.len(),
            a@.len() == b@.len(),
            forall|j: int| 0 <= j < i ==> a@[j] == b@[j],
        decreases a.len() - i,
    {
        if a[i] != b[i] {
            return false;
        }
        i += 1;
    }
    proof {
        assert(a@ =~= b@);
    }
    true
}

/// Computes the canonical reordering of `src` under the parse `parsed`:
/// the exact bytes the file should hold.
pub fn reorder_source(src: &Vec<u8>, parsed: &ParsedFile) -> (out: Vec<u8>)
    ensures
        out@ == spec_reorder(src@, *parsed),
{
    let line_starts = line_start_offsets(src);
    let ghost table = spec_line_starts(src@);
    let ghost buckets = spec_buckets(parsed.decls@, src@, table);
    let mut out: Vec<u8> = Vec::new();
    match &parsed.shebang {
        Some(sb) => {
            push_bytes(&mut out, sb);
            out.push(10u8);
        },
        None => {},
    }
    if parsed.file_attr_spans.len() > 0 {
        let h = header_to_string(&parsed.file_attr_spans, src, &line_starts);
        push_ws_trimmed(&mut out, &h);
        out.push(10u8);
        out.push(10u8);
    }
    proof {
        assert(out@ =~= spec_prefix(*parsed, src@, table));
    }
    let ghost goal = emit_all(out@, out@.len() > 0, buckets, 0);
    let mut wrote = out.len() > 0;
    let mut c: usize = 0;
    while c < 8
        invariant
            c <= 8,
            table == spec_line_starts(src@),
            table_view(line_starts) == table,
            buckets == spec_buckets(parsed.decls@, src@, table),
            emit_all(out@, wrote, buckets, c as int) == goal,
        decreases 8 - c,
    {
        let mut bucket: Vec<Vec<u8>> = Vec::new();
        let mut i: usize = 0;
        proof {
            assert(parsed.decls@.take(0) =~= Seq::<Decl>::empty());
            assert(texts_view(bucket) =~= spec_bucket(parsed.decls@.take(0), src@, table, c as int));
        }
        while i < parsed.decls.len()
            invariant
                i <= parsed.decls.len(),
                c < 8,
                table == spec_line_starts(src@),
                table_view(line_starts) == table,
                texts_view(bucket) == spec_bucket(
                    parsed.decls@.take(i as int),
                    src@,
                    table,
                    c as int,
                ),
            decreases parsed.decls.len() - i,
        {
            proof {
                assert(parsed.decls@.take(i + 1).drop_last() =~= parsed.decls@.take(i as int));
                assert(parsed.decls@.take(i + 1).last() == parsed.decls@[i as int]);
            }
            let d = &parsed.decls[i];
            if category(d) == c {
                let snip = item_snippet(d, src, &line_starts);
                bucket.push(snip);
                proof {
                    assert(texts_view(bucket) =~= spec_bucket(
                        parsed.decls@.take(i as int),
                        src@,
                        table,
                        c as int,
                    ).push(spec_snippet(parsed.decls@[i as int], src@, table)));
                }
            }
            i += 1;
        }
        proof {
            assert(parsed.decls@.take(parsed.decls@.len() as int) =~= parsed.decls@);
            assert(texts_view(bucket) == buckets[c as int]);
        }
        if bucket.len() > 0 {
            if wrote && c != 0 {
                pad_to_blank(&mut out);
            }
            let extra = blank_lines_after(c);
            let ghost padded = out@;
            let mut j: usize = 0;
            proof {
                assert(texts_view(bucket).take(0) =~= Seq::<Seq<u8>>::empty());
            }
            while j < bucket.len()
                invariant
                    j <= bucket.len(),
                    extra as int == spec_blank_lines_after(c as int),
                    out@ == emit_snips(padded, texts_view(bucket).take(j as int), extra as int),
                decreases bucket.len() - j,
            {
                proof {
                    assert(texts_view(bucket).take(j + 1).drop_last() =~= texts_view(
                        bucket,
                    ).take(j as int));
                    assert(texts_view(bucket).take(j + 1).last() == texts_view(bucket)[j as int]);
                }
                let ghost before = out@;
                push_trimmed(&mut out, &bucket[j]);
                out.push(10u8);
                if extra == 1 {
                    out.push(10u8);
                }
                proof {
                    assert(out@ =~= before + trim_nl(texts_view(bucket)[j as int]) + snippet_sep(
                        extra as int,
                    ));
                }
                j += 1;
            }
            proof {
                assert(texts_view(bucket).take(texts_view(bucket).len() as int) =~= texts_view(
                    bucket,
                ));
            }
            wrote = true;
        }
        c += 1;
    }
    proof {
        assert(emit_all(out@, wrote, buckets, 8) == out@);
    }
    if out.len() == 0 {
        return out;
    }
    let e = trimmed_nl_len(&out);
    let mut res = copy_range(&out, 0, e);
    proof {
        assert(res@ =~= trim_nl(out@));
    }
    res.push(10u8);
    res
}

/// Decides the conditional rewrite: `Some` with the canonical text when it
/// differs from the current content, `None` when the file already holds
/// its canonical reordering and must not be rewritten.
pub fn plan_rewrite(src: &Vec<u8>, parsed: &ParsedFile) -> (r: Option<Vec<u8>>)
    ensures
        match r {
            Some(out) => out@ == spec_reorder(src@, *parsed) && out@ != src@,
            None => spec_reorder(src@, *parsed) == src@,
        },
{
    let out = reorder_source(src, parsed);
    if bytes_equal(&out, src) {
        None
    } else {
        Some(out)
    }
}

} // verus!

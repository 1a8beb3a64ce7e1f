//! The span resolver and range extractor: pure arithmetic from parser
//! (line, column) positions to byte ranges of the source text, and the
//! verbatim extraction of each declaration together with its attributes.

use vstd::prelude::*;

use crate::lines::table_view;
use crate::model::{ByteRange, Decl, Span};

verus! {

/// Resolves one (line, column) position to an absolute byte offset:
/// 1-based line to table index (clamped at 0), table lookup with the text
/// length as out-of-bounds fallback, plus the column, clamped to
/// `[0, len]`.
pub open spec fn spec_resolve_pos(line: int, col: int, table: Seq<int>, len: int) -> int {
    let idx = if line >= 1 {
        line - 1
    } else {
        0
    };
    let base = if 0 <= idx < table.len() {
        table[idx]
    } else {
        len
    };
    let off = base + col;
    if off > len {
        len
    } else if off < 0 {
        0
    } else {
        off
    }
}

/// Resolves a span to a byte range; a start beyond the end collapses to
/// the end, so the range is always valid.
pub open spec fn spec_span_range(sp: Span, table: Seq<int>, len: int) -> (int, int) {
    let s = spec_resolve_pos(sp.start_line as int, sp.start_col as int, table, len);
    let e = spec_resolve_pos(sp.end_line as int, sp.end_col as int, table, len);
    if s > e {
        (e, e)
    } else {
        (s, e)
    }
}

/// The minimal start over a sequence of attribute spans, beginning from
/// `cur` (the declaration's own start).
pub open spec fn spec_min_start(spans: Seq<Span>, table: Seq<int>, len: int, cur: int) -> int
    decreases spans.len(),
{
    if spans.len() == 0 {
        cur
    } else {
        let rest = spec_min_start(spans.drop_last(), table, len, cur);
        let a = spec_span_range(spans.last(), table, len).0;
        if a < rest {
            a
        } else {
            rest
        }
    }
}

/// The byte range of a declaration including its attached attributes: the
/// minimum of all starts, and the declaration's own end.
pub open spec fn spec_snippet_range(d: Decl, table: Seq<int>, len: int) -> (int, int) {
    let own = spec_span_range(d.span, table, len);
    (spec_min_start(d.attr_spans@, table, len, own.0), own.1)
}

/// The exact original text of a declaration with its attributes.
pub open spec fn spec_snippet(d: Decl, src: Seq<u8>, table: Seq<int>) -> Seq<u8> {
    let r = spec_snippet_range(d, table, src.len() as int);
    src.subrange(r.0, r.1)
}

/// The merged envelope of a nonempty sequence of spans: minimum start and
/// maximum end, folded from `(cur_start, cur_end)`.
pub open spec fn spec_envelope(
    spans: Seq<Span>,
    table: Seq<int>,
    len: int,
    cur_start: int,
    cur_end: int,
) -> (int, int)
    decreases spans.len(),
{
    if spans.len() == 0 {
        (cur_start, cur_end)
    } else {
        let rest = spec_envelope(spans.drop_last(), table, len, cur_start, cur_end);
        let r = spec_span_range(spans.last(), table, len);
        (
            if r.0 < rest.0 {
                r.0
            } else {
                rest.0
            },
            if r.1 > rest.1 {
                r.1
            } else {
                rest.1
            },
        )
    }
}

/// The file header's attribute text: the envelope slice over all
/// file-level attribute spans, empty when there are none.
pub open spec fn spec_header_text(spans: Seq<Span>, src: Seq<u8>, table: Seq<int>) -> Seq<u8> {
    if spans.len() == 0 {
        Seq::empty()
    } else {
        let env = spec_envelope(spans, table, src.len() as int, usize::MAX as int, 0);
        src.subrange(env.0, env.1)
    }
}

fn resolve_pos(line: usize, col: usize, line_starts: &Vec<usize>, src_len: usize) -> (r: usize)
    ensures
        r as int == spec_resolve_pos(line as int, col as int, table_view(*line_starts), src_len as int),
        r <= src_len,
{
    let idx = if line >= 1 {
        line - 1
    } else {
        0
    };
    let base = if idx < line_starts.len() {
        line_starts[idx]
    } else {
        src_len
    };
    if base > src_len {
        src_len
    } else if col > src_len - base {
        src_len
    } else {
        base + col
    }
}

/// Resolves a parser span to a clamped, valid byte range of the source.
pub fn span_range(span: &Span, line_starts: &Vec<usize>, src_len: usize) -> (r: ByteRange)
    ensures
        (r.start as int, r.end as int) == spec_span_range(*span, table_view(*line_starts), src_len as int),
        r.start <= r.end,
        r.end <= src_len,
{
    let start = resolve_pos(span.start_line, span.start_col, line_starts, src_len);
    let end = resolve_pos(span.end_line, span.end_col, line_starts, src_len);
    if start > end {
        ByteRange { start: end, end }
    } else {
        ByteRange { start, end }
    }
}

/// Copies `src[start..end]`.
pub(crate) fn copy_range(src: &Vec<u8>, start: usize, end: usize) -> (out: Vec<u8>)
    requires
        start <= end,
        end <= src.len(),
    ensures
        out@ == src@.subrange(start as int, end as int),
{
    let mut out: Vec<u8> = Vec::new();
    let mut i: usize = start;
    while i < end
        invariant
            start <= i <= end,
            end <= src.len(),
            out@ == src@.subrange(start as int, i as int),
        decreases end - i,
    {
        out.push(src[i]);
        proof {
            assert(src@.subrange(start as int, i + 1) =~= src@.subrange(start as int, i as int).push(
                src@[i as int],
            ));
        }
        i += 1;
    }
    proof {
        assert(out@ =~= src@.subrange(start as int, end as int));
    }
    out
}

/// Extracts the exact original text of one declaration, including every
/// attribute lexically attached to it.
pub fn item_snippet(d: &Decl, src: &Vec<u8>, line_starts: &Vec<usize>) -> (out: Vec<u8>)
    ensures
        out@ == spec_snippet(*d, src@, table_view(*line_starts)),
{
    let own = span_range(&d.span, line_starts, src.len());
    let mut start = own.start;
    let mut i: usize = 0;
    proof {
        assert(d.attr_spans@.take(0) =~= Seq::<Span>::empty());
    }
    while i < d.attr_spans.len()
        invariant
            i <= d.attr_spans.len(),
            start <= own.start,
            own.start <= own.end <= src.len(),
            (own.start as int, own.end as int) == spec_span_range(
                d.span,
                table_view(*line_starts),
                src@.len() as int,
            ),
            start as int == spec_min_start(
                d.attr_spans@.take(i as int),
                table_view(*line_starts),
                src@.len() as int,
                own.start as int,
            ),
        decreases d.attr_spans.len() - i,
    {
        let a = span_range(&d.attr_spans[i], line_starts, src.len());
        proof {
            assert(d.attr_spans@.take(i + 1).drop_last() =~= d.attr_spans@.take(i as int));
            assert(d.attr_spans@.take(i + 1).last() == d.attr_spans@[i as int]);
        }
        if a.start < start {
            start = a.start;
        }
        i += 1;
    }
    proof {
        assert(d.attr_spans@.take(d.attr_spans@.len() as int) =~= d.attr_spans@);
    }
    copy_range(src, start, own.end)
}

/// Slices the merged file-level attribute header verbatim; empty when the
/// file has no file-level attributes.
pub fn header_to_string(attr_spans: &Vec<Span>, src: &Vec<u8>, line_starts: &Vec<usize>) -> (out:
    Vec<u8>)
    ensures
        out@ == spec_header_text(attr_spans@, src@, table_view(*line_starts)),
{
    if attr_spans.len() == 0 {
        return Vec::new();
    }
    let mut start = usize::MAX;
    let mut end: usize = 0;
    let mut i: usize = 0;
    proof {
        assert(attr_spans@.take(0) =~= Seq::<Span>::empty());
    }
    while i < attr_spans.len()
        invariant
            i <= attr_spans.len(),
            (start as int, end as int) == spec_envelope(
                attr_spans@.take(i as int),
                table_view(*line_starts),
                src@.len() as int,
                usize::MAX as int,
                0,
            ),
            i >= 1 ==> start <= end && end <= src.len(),
        decreases attr_spans.len() - i,
    {
        let r = span_range(&attr_spans[i], line_starts, src.len());
        proof {
            assert(attr_spans@.take(i + 1).drop_last() =~= attr_spans@.take(i as int));
            assert(attr_spans@.take(i + 1).last() == attr_spans@[i as int]);
        }
        if r.start < start {
            start = r.start;
        }
        if r.end > end {
            end = r.end;
        }
        i += 1;
    }
    proof {
        assert(attr_spans@.take(attr_spans@.len() as int) =~= attr_spans@);
    }
    copy_range(src, start, end)
}

} // verus!

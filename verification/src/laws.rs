//! Statements of the library's cross-cutting guarantees, proved against
//! the specification functions that the executable contracts use.

use crate::pdf_element::{
    spec_dist_lt, spec_line_classes, spec_line_classes_inner, spec_line_classes_outer,
    spec_lines_close, spec_row_gaps, spec_insert_spacers, ElementV, PdfLine,
};
use crate::dsu::spec_merge_classes;
use crate::pdf2md::{spec_header_level, spec_run, DiagV};
use crate::pdf_content::{spec_actual_text_key, spec_dict_get, spec_find_xobject, PdfObj, PdfOp};
use crate::pdf_element::UnitV;
use crate::pdf_page::{spec_mark_underlined, spec_op_effect, spec_stream, CursorV, ErrV, PageInput,
    PdfPage};
use crate::bytes::{spec_contains, spec_is1, spec_is2, spec_is3};
use vstd::prelude::*;

verus! {

/// Heading classification boundary: a run exactly twice the median size is
/// the third heading level, and anything below twice the median is body
/// text.
pub proof fn lemma_heading_boundary(median: i64, font_size: i64)
    requires
        median > 0,
    ensures
        spec_header_level(2 * median, Some(median)) == 3,
        font_size < 2 * median ==> spec_header_level(font_size as int, Some(median)) == 0,
{
}

/// The section-break rule: in the spaced row list, row `k` is followed by
/// a spacer row exactly when its following vertical gap exceeds 1.3 times
/// the gap before it; the first row's spacer appears exactly when its gap
/// exceeds 20 units.
pub proof fn lemma_spacer_rule(rows: Seq<Seq<ElementV>>, gaps: Seq<int>, k: int)
    requires
        gaps == spec_row_gaps(rows),
        rows.len() >= 2,
        0 <= k < rows.len(),
    ensures
        k == 0 ==> spec_insert_spacers(rows, gaps, 1) == (if gaps[0] > 20_000 {
            seq![rows[0]].push(Seq::<ElementV>::empty())
        } else {
            seq![rows[0]]
        }),
        0 < k < gaps.len() ==> spec_insert_spacers(rows, gaps, k + 1) == (if 10 * gaps[k] > 13
            * gaps[k - 1] {
            spec_insert_spacers(rows, gaps, k).push(rows[k]).push(Seq::<ElementV>::empty())
        } else {
            spec_insert_spacers(rows, gaps, k).push(rows[k])
        }),
{
    if k == 0 {
        assert(spec_insert_spacers(rows, gaps, 0) =~= Seq::<Seq<ElementV>>::empty());
        if gaps[0] > 20_000 {
            assert(spec_insert_spacers(rows, gaps, 1) =~= seq![rows[0]].push(
                Seq::<ElementV>::empty(),
            ));
        } else {
            assert(spec_insert_spacers(rows, gaps, 1) =~= seq![rows[0]]);
        }
    }
}

/// The conversion is a pure function of its input: two results that both
/// meet `run`'s contract on the same pages are byte-identical, markdown
/// and diagnostics alike.  There is no hidden state or counter.
pub proof fn lemma_run_deterministic(
    pages: Seq<PageInput>,
    md1: Seq<u8>,
    dg1: Seq<DiagV>,
    md2: Seq<u8>,
    dg2: Seq<DiagV>,
)
    requires
        (md1, dg1) == spec_run(pages, pages.len() as int),
        (md2, dg2) == spec_run(pages, pages.len() as int),
    ensures
        md1 == md2,
        dg1 == dg2,
{
}

/// Merging classes maps equal classes to equal classes.
proof fn lemma_merge_preserves_eq(cls: Seq<usize>, a: int, b: int, k: int, l: int)
    requires
        0 <= k < cls.len(),
        0 <= l < cls.len(),
        cls[k] == cls[l],
    ensures
        spec_merge_classes(cls, a, b)[k] == spec_merge_classes(cls, a, b)[l],
{
}

proof fn lemma_inner_preserves_eq(
    lines: Seq<PdfLine>,
    cls: Seq<usize>,
    i0: int,
    j0: int,
    k: int,
    l: int,
)
    requires
        0 <= k < cls.len(),
        0 <= l < cls.len(),
        cls[k] == cls[l],
        cls.len() == lines.len(),
        0 <= i0 < lines.len(),
    ensures
        spec_line_classes_inner(lines, cls, i0, j0).len() == cls.len(),
        spec_line_classes_inner(lines, cls, i0, j0)[k] == spec_line_classes_inner(
            lines,
            cls,
            i0,
            j0,
        )[l],
    decreases lines.len() - j0,
{
    if j0 < 0 || j0 >= lines.len() {
    } else {
        let next = if spec_lines_close(lines[i0], lines[j0]) {
            spec_merge_classes(cls, i0, j0)
        } else {
            cls
        };
        lemma_merge_preserves_eq(cls, i0, j0, k, l);
        lemma_inner_preserves_eq(lines, next, i0, j0 + 1, k, l);
    }
}

proof fn lemma_outer_preserves_eq(lines: Seq<PdfLine>, cls: Seq<usize>, t: int, k: int, l: int)
    requires
        0 <= k < cls.len(),
        0 <= l < cls.len(),
        cls[k] == cls[l],
        cls.len() == lines.len(),
    ensures
        spec_line_classes_outer(lines, cls, t).len() == cls.len(),
        spec_line_classes_outer(lines, cls, t)[k] == spec_line_classes_outer(lines, cls, t)[l],
    decreases lines.len() - t,
{
    if t < 0 || t >= lines.len() {
    } else {
        let next = spec_line_classes_inner(lines, cls, t, t + 1);
        lemma_inner_preserves_eq(lines, cls, t, t + 1, k, l);
        lemma_outer_preserves_eq(lines, next, t + 1, k, l);
    }
}

/// After the inner pass for `i0` reaches the close pair `(i0, j)`, the two
/// are in one class, and stay so.
proof fn lemma_inner_merges(lines: Seq<PdfLine>, cls: Seq<usize>, i0: int, j0: int, j: int)
    requires
        cls.len() == lines.len(),
        0 <= i0 < lines.len(),
        0 <= j0 <= j < lines.len(),
        spec_lines_close(lines[i0], lines[j]),
    ensures
        spec_line_classes_inner(lines, cls, i0, j0).len() == cls.len(),
        spec_line_classes_inner(lines, cls, i0, j0)[i0] == spec_line_classes_inner(
            lines,
            cls,
            i0,
            j0,
        )[j],
    decreases lines.len() - j0,
{
    let next = if spec_lines_close(lines[i0], lines[j0]) {
        spec_merge_classes(cls, i0, j0)
    } else {
        cls
    };
    if j0 == j {
        assert(next[i0] == next[j]);
        lemma_inner_preserves_eq(lines, next, i0, j0 + 1, i0, j);
    } else {
        lemma_inner_merges(lines, next, i0, j0 + 1, j);
    }
}

proof fn lemma_outer_reaches(lines: Seq<PdfLine>, cls: Seq<usize>, t: int, i: int, j: int)
    requires
        cls.len() == lines.len(),
        0 <= t <= i,
        i < j < lines.len(),
        spec_lines_close(lines[i], lines[j]),
    ensures
        spec_line_classes_outer(lines, cls, t).len() == cls.len(),
        spec_line_classes_outer(lines, cls, t)[i] == spec_line_classes_outer(lines, cls, t)[j],
    decreases lines.len() - t,
{
    let next = spec_line_classes_inner(lines, cls, t, t + 1);
    lemma_inner_preserves_eq(lines, cls, t, t + 1, 0, 0);
    if t == i {
        lemma_inner_merges(lines, cls, i, i + 1, j);
        lemma_outer_preserves_eq(lines, next, t + 1, i, j);
    } else {
        lemma_outer_reaches(lines, next, t + 1, i, j);
    }
}

/// Euclidean closeness of two points does not depend on their order.
proof fn lemma_dist_sym(p: (i64, i64), q: (i64, i64), e: int)
    ensures
        spec_dist_lt(p, q, e) == spec_dist_lt(q, p, e),
{
    assert((p.0 - q.0) * (p.0 - q.0) == (q.0 - p.0) * (q.0 - p.0)) by (nonlinear_arith);
    assert((p.1 - q.1) * (p.1 - q.1) == (q.1 - p.1) * (q.1 - p.1)) by (nonlinear_arith);
}

/// Segment closeness does not depend on the order of the segments.
pub proof fn lemma_lines_close_sym(a: PdfLine, b: PdfLine)
    ensures
        spec_lines_close(a, b) == spec_lines_close(b, a),
{
    lemma_dist_sym(a.from, b.to, 10_000);
    lemma_dist_sym(a.from, b.from, 10_000);
    lemma_dist_sym(a.to, b.to, 10_000);
    lemma_dist_sym(a.to, b.from, 10_000);
}

/// Clustering merges what touches: two segments with any endpoints within
/// 10 units of each other always land in the same cluster class.
pub proof fn lemma_close_lines_one_cluster(lines: Seq<PdfLine>, i: int, j: int)
    requires
        0 <= i < lines.len(),
        0 <= j < lines.len(),
        i != j,
        spec_lines_close(lines[i], lines[j]),
    ensures
        spec_line_classes(lines)[i] == spec_line_classes(lines)[j],
{
    let init = Seq::new(lines.len(), |k: int| k as usize);
    if i < j {
        lemma_outer_reaches(lines, init, 0, i, j);
    } else {
        lemma_lines_close_sym(lines[i], lines[j]);
        lemma_outer_reaches(lines, init, 0, j, i);
    }
}

/// The inner pass only merges with segments close to `lines[i0]`.
proof fn lemma_inner_no_merge(lines: Seq<PdfLine>, cls: Seq<usize>, i0: int, j0: int)
    requires
        cls.len() == lines.len(),
        lines.len() == 2,
        0 <= i0 < 2,
        !spec_lines_close(lines[0], lines[1]),
        !spec_lines_close(lines[1], lines[0]),
    ensures
        spec_line_classes_inner(lines, cls, i0, j0) == cls,
    decreases lines.len() - j0,
{
    if j0 < 0 || j0 >= lines.len() {
    } else {
        if i0 != j0 {
            assert(!spec_lines_close(lines[i0], lines[j0]));
            lemma_inner_no_merge(lines, cls, i0, j0 + 1);
        } else {
            let next = if spec_lines_close(lines[i0], lines[j0]) {
                spec_merge_classes(cls, i0, j0)
            } else {
                cls
            };
            assert(next =~= cls || next == cls) by {
                if spec_lines_close(lines[i0], lines[j0]) {
                    assert(spec_merge_classes(cls, i0, i0) =~= cls);
                }
            }
            lemma_inner_no_merge(lines, next, i0, j0 + 1);
            assert(spec_line_classes_inner(lines, next, i0, j0 + 1) == cls);
        }
    }
}

/// Clustering separates what does not touch: of two segments with no
/// endpoints within 10 units of each other, each keeps its own cluster.
pub proof fn lemma_far_lines_two_clusters(lines: Seq<PdfLine>)
    requires
        lines.len() == 2,
        !spec_lines_close(lines[0], lines[1]),
        !spec_lines_close(lines[1], lines[0]),
    ensures
        spec_line_classes(lines)[0] != spec_line_classes(lines)[1],
{
    let init = Seq::new(lines.len(), |k: int| k as usize);
    lemma_inner_no_merge(lines, init, 0, 1);
    let after0 = spec_line_classes_inner(lines, init, 0, 1);
    assert(after0 == init);
    lemma_inner_no_merge(lines, init, 1, 2);
    let after1 = spec_line_classes_inner(lines, init, 1, 2);
    assert(after1 == init);
    assert(spec_line_classes_outer(lines, init, 2) == init);
    assert(spec_line_classes_outer(lines, init, 1) == init);
    assert(spec_line_classes_outer(lines, init, 0) == init);
    assert(init[0] == 0usize && init[1] == 1usize);
}

/// How many text runs a unit sequence holds.
pub open spec fn count_texts(units: Seq<UnitV>) -> nat
    decreases units.len(),
{
    if units.len() == 0 {
        0
    } else {
        count_texts(units.drop_last()) + (match units.last() {
            UnitV::Text(_) => 1nat,
            UnitV::Line(_) => 0nat,
        })
    }
}

/// Whether one operator, other than `Do`, shows text: the four
/// text-showing operators, and marked content with an `ActualText`
/// attribute.
pub open spec fn spec_op_shows_text(op: PdfOp) -> bool {
    let name = op.operator@;
    ||| spec_is2(name, 84, 106)
    ||| spec_is2(name, 84, 74)
    ||| spec_is1(name, 39)
    ||| spec_is1(name, 34)
    ||| (spec_is3(name, 66, 68, 67) && op.operands@.len() >= 2 && match op.operands@[1] {
        PdfObj::Dict(entries) => spec_dict_get(entries, spec_actual_text_key(), 0) is Some,
        _ => false,
    })
}

/// How many text-showing operators the interpreter executes from index
/// `i`, counting recursively through resolved form XObjects.
pub open spec fn spec_text_show_count(page: PdfPage, ops: Vec<PdfOp>, i: int, depth: int) -> nat
    decreases depth, ops@.len() - i,
{
    if i < 0 || i >= ops@.len() || depth < 0 {
        0
    } else {
        let op = ops@[i];
        let name = op.operator@;
        if spec_is2(name, 68, 111) {
            if op.operands@.len() == 0 {
                spec_text_show_count(page, ops, i + 1, depth)
            } else {
                match op.operands@[0] {
                    PdfObj::Name(n) => {
                        if spec_contains(n@, seq![73u8, 109u8]) {
                            spec_text_show_count(page, ops, i + 1, depth)
                        } else {
                            match spec_find_xobject(page.xobjects, n@) {
                                Some(xi) => {
                                    if depth == 0 {
                                        spec_text_show_count(page, ops, i + 1, depth)
                                    } else {
                                        spec_text_show_count(
                                            page,
                                            page.xobjects@[xi].ops,
                                            0,
                                            depth - 1,
                                        ) + spec_text_show_count(page, ops, i + 1, depth)
                                    }
                                },
                                None => spec_text_show_count(page, ops, i + 1, depth),
                            }
                        }
                    },
                    _ => spec_text_show_count(page, ops, i + 1, depth),
                }
            }
        } else {
            (if spec_op_shows_text(op) {
                1nat
            } else {
                0nat
            }) + spec_text_show_count(page, ops, i + 1, depth)
        }
    }
}

proof fn lemma_count_concat(a: Seq<UnitV>, b: Seq<UnitV>)
    ensures
        count_texts(a + b) == count_texts(a) + count_texts(b),
    decreases b.len(),
{
    if b.len() == 0 {
        assert(a + b =~= a);
    } else {
        lemma_count_concat(a, b.drop_last());
        assert((a + b).drop_last() =~= a + b.drop_last());
        assert((a + b).last() == b.last());
    }
}

proof fn lemma_count_mark(units: Seq<UnitV>)
    ensures
        count_texts(spec_mark_underlined(units)) == count_texts(units),
{
    if units.len() > 0 {
        match units.last() {
            UnitV::Text(t) => {
                let marked = spec_mark_underlined(units);
                assert(marked.drop_last() =~= units.drop_last());
                assert(marked.last() is Text);
            },
            UnitV::Line(_) => {},
        }
    }
}

/// Every operator effect emits exactly one text run when the operator
/// shows text and none otherwise; the underline marker emits nothing.
#[verifier::rlimit(100)]
#[verifier::spinoff_prover]
proof fn lemma_effect_count(page: PdfPage, op: PdfOp, i: int, cur: CursorV, color: Option<Seq<u8>>)
    requires
        !spec_is2(op.operator@, 68, 111),
    ensures
        ({
            let eff = spec_op_effect(page, op, i, cur, color);
            &&& count_texts(eff.emitted) == (if spec_op_shows_text(op) {
                1nat
            } else {
                0nat
            })
            &&& (eff.underline ==> eff.emitted =~= Seq::<UnitV>::empty())
        }),
{
    let eff = spec_op_effect(page, op, i, cur, color);
    assert(count_texts(Seq::<UnitV>::empty()) == 0);
    if eff.emitted.len() > 0 {
        assert(count_texts(eff.emitted.drop_last()) + (match eff.emitted.last() {
            UnitV::Text(_) => 1nat,
            UnitV::Line(_) => 0nat,
        }) == count_texts(eff.emitted));
    }
    if eff.emitted.len() == 1 {
        assert(eff.emitted.drop_last() =~= Seq::<UnitV>::empty());
    }
    if eff.emitted.len() == 4 {
        let e = eff.emitted;
        assert(e[0] is Line && e[1] is Line && e[2] is Line && e[3] is Line);
        let e3 = e.drop_last();
        let e2 = e3.drop_last();
        let e1 = e2.drop_last();
        let e0 = e1.drop_last();
        assert(e0 =~= Seq::<UnitV>::empty());
        assert(count_texts(e0) == 0);
        assert(e1.last() == e[0] && e2.last() == e[1] && e3.last() == e[2] && e.last() == e[3]);
        assert(count_texts(e1) == 0);
        assert(count_texts(e2) == 0);
        assert(count_texts(e3) == 0);
        assert(count_texts(e) == 0);
    }
}

/// The interpreter emits exactly one text run per text-showing operator it
/// executes, through any depth of form-XObject recursion.
proof fn lemma_stream_count(
    page: PdfPage,
    ops: Vec<PdfOp>,
    i: int,
    cur: CursorV,
    color: Option<Seq<u8>>,
    units: Seq<UnitV>,
    diags: Seq<ErrV>,
    depth: int,
)
    ensures
        count_texts(spec_stream(page, ops, i, cur, color, units, diags, depth).1) == count_texts(
            units,
        ) + spec_text_show_count(page, ops, i, depth),
    decreases depth, ops@.len() - i,
{
    if i < 0 || i >= ops@.len() || depth < 0 {
    } else {
        let op = ops@[i];
        let name = op.operator@;
        if spec_is2(name, 68, 111) {
            if op.operands@.len() == 0 {
                lemma_stream_count(
                    page,
                    ops,
                    i + 1,
                    cur,
                    color,
                    units,
                    crate::pdf_page::spec_diag(
                        diags,
                        i,
                        name,
                        crate::pdf_page::OpErrorCause::MissingOperands,
                    ),
                    depth,
                );
            } else {
                match op.operands@[0] {
                    PdfObj::Name(n) => {
                        if spec_contains(n@, seq![73u8, 109u8]) {
                            lemma_stream_count(page, ops, i + 1, cur, color, units, diags, depth);
                        } else {
                            match spec_find_xobject(page.xobjects, n@) {
                                Some(xi) => {
                                    if depth == 0 {
                                        lemma_stream_count(
                                            page,
                                            ops,
                                            i + 1,
                                            cur,
                                            color,
                                            units,
                                            crate::pdf_page::spec_diag(
                                                diags,
                                                i,
                                                name,
                                                crate::pdf_page::OpErrorCause::DepthLimit,
                                            ),
                                            depth,
                                        );
                                    } else {
                                        let child = spec_stream(
                                            page,
                                            page.xobjects@[xi].ops,
                                            0,
                                            cur,
                                            None,
                                            Seq::empty(),
                                            Seq::empty(),
                                            depth - 1,
                                        );
                                        lemma_stream_count(
                                            page,
                                            page.xobjects@[xi].ops,
                                            0,
                                            cur,
                                            None,
                                            Seq::empty(),
                                            Seq::empty(),
                                            depth - 1,
                                        );
                                        lemma_count_concat(units, child.1);
                                        lemma_stream_count(
                                            page,
                                            ops,
                                            i + 1,
                                            child.0,
                                            color,
                                            units + child.1,
                                            diags + child.2,
                                            depth,
                                        );
                                    }
                                },
                                None => {
                                    lemma_stream_count(
                                        page,
                                        ops,
                                        i + 1,
                                        cur,
                                        color,
                                        units,
                                        crate::pdf_page::spec_diag(
                                            diags,
                                            i,
                                            name,
                                            crate::pdf_page::OpErrorCause::UnknownResource,
                                        ),
                                        depth,
                                    );
                                },
                            }
                        }
                    },
                    _ => {
                        lemma_stream_count(
                            page,
                            ops,
                            i + 1,
                            cur,
                            color,
                            units,
                            crate::pdf_page::spec_diag(
                                diags,
                                i,
                                name,
                                crate::pdf_page::OpErrorCause::BadOperand,
                            ),
                            depth,
                        );
                    },
                }
            }
        } else {
            let eff = spec_op_effect(page, op, i, cur, color);
            lemma_effect_count(page, op, i, cur, color);
            let units2 = if eff.underline {
                spec_mark_underlined(units)
            } else {
                units + eff.emitted
            };
            if eff.underline {
                lemma_count_mark(units);
            } else {
                lemma_count_concat(units, eff.emitted);
            }
            let diags2 = match eff.err {
                Some(e) => diags.push(e),
                None => diags,
            };
            lemma_stream_count(page, ops, i + 1, eff.cur, eff.color, units2, diags2, depth);
        }
    }
}

/// The emitted text-run count of a whole stream equals the number of
/// text-showing operators actually executed, form-XObject expansion
/// included.
pub proof fn lemma_text_run_count(page: PdfPage, cur: CursorV, depth: int)
    ensures
        count_texts(
            spec_stream(
                page,
                page.ops,
                0,
                cur,
                None,
                Seq::empty(),
                Seq::empty(),
                depth,
            ).1,
        ) == spec_text_show_count(page, page.ops, 0, depth),
{
    lemma_stream_count(page, page.ops, 0, cur, None, Seq::empty(), Seq::empty(), depth);
}

} // verus!

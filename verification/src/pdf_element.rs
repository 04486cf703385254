//! Page elements and the geometric table detector.
//!
//! The interpreter emits text runs and line segments; this module clusters
//! the segments with a disjoint set, intersects ruling lines into grid
//! points, builds table cell boundaries, assigns runs to cells, and orders
//! everything into reading-order rows.  Coordinates are fixed-point
//! thousandths of a page unit throughout.

use crate::bytes::clone_bytes;
use crate::dsu::{
    same_partition, spec_group_indices, spec_merge_classes, lemma_union_matches_merge, DisjointSet,
};
use crate::fixed::{fx_clamp, in_range, spec_clamp};
use vstd::prelude::*;

verus! {

broadcast use vstd::std_specs::vec::group_vec_axioms, vstd::seq::group_seq_axioms;

/// A straight segment between two page points.
#[derive(Clone, Copy, Debug)]
pub struct PdfLine {
    pub from: (i64, i64),
    pub to: (i64, i64),
}

/// One positioned text run.
#[derive(Debug)]
pub struct PdfText {
    /// The shown text, as UTF-8 bytes.
    pub text: Vec<u8>,
    pub italic: bool,
    pub font_name: Option<Vec<u8>>,
    pub font_size: Option<i64>,
    pub x: i64,
    pub y: i64,
    pub underlined: bool,
    /// A fill colour as `#RRGGBB` bytes, when a non-black fill was set.
    pub color: Option<Vec<u8>>,
}

/// The mathematical image of a text run.
#[verifier::ext_equal]
pub struct TextV {
    pub text: Seq<u8>,
    pub italic: bool,
    pub font_name: Option<Seq<u8>>,
    pub font_size: Option<i64>,
    pub x: i64,
    pub y: i64,
    pub underlined: bool,
    pub color: Option<Seq<u8>>,
}

pub open spec fn view_opt_bytes(o: Option<Vec<u8>>) -> Option<Seq<u8>> {
    match o {
        Option::Some(v) => Option::Some(v@),
        Option::None => Option::None,
    }
}

impl View for PdfText {
    type V = TextV;

    open spec fn view(&self) -> TextV {
        TextV {
            text: self.text@,
            italic: self.italic,
            font_name: view_opt_bytes(self.font_name),
            font_size: self.font_size,
            x: self.x,
            y: self.y,
            underlined: self.underlined,
            color: view_opt_bytes(self.color),
        }
    }
}

/// Copy of a text run, with the same image.
pub fn clone_text(t: &PdfText) -> (r: PdfText)
    ensures
        r@ == t@,
{
    PdfText {
        text: clone_bytes(&t.text),
        italic: t.italic,
        font_name: match &t.font_name {
            Option::Some(n) => Option::Some(clone_bytes(n)),
            Option::None => Option::None,
        },
        font_size: t.font_size,
        x: t.x,
        y: t.y,
        underlined: t.underlined,
        color: match &t.color {
            Option::Some(c) => Option::Some(clone_bytes(c)),
            Option::None => Option::None,
        },
    }
}

/// The interpreter's raw output: a text run or a line segment, in stream
/// order.
pub enum PdfUnit {
    Text(PdfText),
    Line(PdfLine),
}

#[verifier::ext_equal]
pub enum UnitV {
    Text(TextV),
    Line(PdfLine),
}

impl View for PdfUnit {
    type V = UnitV;

    open spec fn view(&self) -> UnitV {
        match self {
            PdfUnit::Text(t) => UnitV::Text(t@),
            PdfUnit::Line(l) => UnitV::Line(*l),
        }
    }
}

pub open spec fn units_view(units: Seq<PdfUnit>) -> Seq<UnitV> {
    units.map_values(|u: PdfUnit| u@)
}

pub open spec fn texts_view(texts: Seq<PdfText>) -> Seq<TextV> {
    texts.map_values(|t: PdfText| t@)
}

/// One table cell: an axis-aligned rectangle and the runs assigned to it.
pub struct TableBoundary {
    pub minx: i64,
    pub maxx: i64,
    pub miny: i64,
    pub maxy: i64,
    pub elements: Vec<PdfText>,
}

#[verifier::ext_equal]
pub struct BoundaryV {
    pub minx: i64,
    pub maxx: i64,
    pub miny: i64,
    pub maxy: i64,
    pub elements: Seq<TextV>,
}

impl View for TableBoundary {
    type V = BoundaryV;

    open spec fn view(&self) -> BoundaryV {
        BoundaryV {
            minx: self.minx,
            maxx: self.maxx,
            miny: self.miny,
            maxy: self.maxy,
            elements: texts_view(self.elements@),
        }
    }
}

/// A detected table: its cell boundaries and geometric centre.
pub struct PdfTable {
    pub boundaries: Vec<TableBoundary>,
    pub y: i64,
    pub x: i64,
}

#[verifier::ext_equal]
pub struct TableV {
    pub boundaries: Seq<BoundaryV>,
    pub y: i64,
    pub x: i64,
}

impl View for PdfTable {
    type V = TableV;

    open spec fn view(&self) -> TableV {
        TableV {
            boundaries: self.boundaries@.map_values(|b: TableBoundary| b@),
            y: self.y,
            x: self.x,
        }
    }
}

/// The unit of layout after table detection.
pub enum PdfElement {
    Text(PdfText),
    Table(PdfTable),
}

#[verifier::ext_equal]
pub enum ElementV {
    Text(TextV),
    Table(TableV),
}

impl View for PdfElement {
    type V = ElementV;

    open spec fn view(&self) -> ElementV {
        match self {
            PdfElement::Text(t) => ElementV::Text(t@),
            PdfElement::Table(t) => ElementV::Table(t@),
        }
    }
}

pub open spec fn elements_view(es: Seq<PdfElement>) -> Seq<ElementV> {
    es.map_values(|e: PdfElement| e@)
}

impl PdfElement {
    /// The representative vertical position used for reading order.
    pub open spec fn spec_y(self) -> i64 {
        match self {
            PdfElement::Text(t) => t.y,
            PdfElement::Table(t) => t.y,
        }
    }

    pub open spec fn spec_x(self) -> i64 {
        match self {
            PdfElement::Text(t) => t.x,
            PdfElement::Table(t) => t.x,
        }
    }

    pub fn get_y(&self) -> (r: i64)
        ensures
            r == self.spec_y(),
    {
        match self {
            PdfElement::Text(t) => t.y,
            PdfElement::Table(t) => t.y,
        }
    }

    pub fn get_x(&self) -> (r: i64)
        ensures
            r == self.spec_x(),
    {
        match self {
            PdfElement::Text(t) => t.x,
            PdfElement::Table(t) => t.x,
        }
    }
}

/// Whether two points lie strictly within `eps` thousandths of each other,
/// by Euclidean distance.
pub open spec fn spec_dist_lt(p: (i64, i64), q: (i64, i64), eps: int) -> bool {
    (p.0 - q.0) * (p.0 - q.0) + (p.1 - q.1) * (p.1 - q.1) < eps * eps
}

/// `<=` counterpart, used when clustering intersection points.
pub open spec fn spec_dist_le(p: (i64, i64), q: (i64, i64), eps: int) -> bool {
    (p.0 - q.0) * (p.0 - q.0) + (p.1 - q.1) * (p.1 - q.1) <= eps * eps
}

fn dist_lt(p: (i64, i64), q: (i64, i64), eps: i64) -> (r: bool)
    requires
        0 < eps <= 100_000,
    ensures
        r == spec_dist_lt(p, q, eps as int),
{
    let dx: i128 = (p.0 as i128) - (q.0 as i128);
    let dy: i128 = (p.1 as i128) - (q.1 as i128);
    let e: i128 = eps as i128;
    if dx > e || dx < -e || dy > e || dy < -e {
        proof {
            assert(!spec_dist_lt(p, q, eps as int)) by (nonlinear_arith)
                requires
                    (dx as int == p.0 - q.0) && (dy as int == p.1 - q.1) && (e as int == eps as int)
                        && 0 < e && (dx > e || dx < -e || dy > e || dy < -e),
            ;
        }
        false
    } else {
        proof {
            assert(0 <= dx * dx <= e * e && 0 <= dy * dy <= e * e && e * e
                <= 10_000_000_000) by (nonlinear_arith)
                requires
                    -e <= dx <= e && -e <= dy <= e && 0 < e <= 100_000,
            ;
        }
        dx * dx + dy * dy < e * e
    }
}

fn dist_le(p: (i64, i64), q: (i64, i64), eps: i64) -> (r: bool)
    requires
        0 < eps <= 100_000,
    ensures
        r == spec_dist_le(p, q, eps as int),
{
    let dx: i128 = (p.0 as i128) - (q.0 as i128);
    let dy: i128 = (p.1 as i128) - (q.1 as i128);
    let e: i128 = eps as i128;
    if dx > e || dx < -e || dy > e || dy < -e {
        proof {
            assert(!spec_dist_le(p, q, eps as int)) by (nonlinear_arith)
                requires
                    (dx as int == p.0 - q.0) && (dy as int == p.1 - q.1) && (e as int == eps as int)
                        && 0 < e && (dx > e || dx < -e || dy > e || dy < -e),
            ;
        }
        false
    } else {
        proof {
            assert(0 <= dx * dx <= e * e && 0 <= dy * dy <= e * e && e * e
                <= 10_000_000_000) by (nonlinear_arith)
                requires
                    -e <= dx <= e && -e <= dy <= e && 0 < e <= 100_000,
            ;
        }
        dx * dx + dy * dy <= e * e
    }
}

/// Two segments are duplicates when both endpoints match within 5 units,
/// as unordered endpoint pairs.
pub open spec fn spec_lines_dup(a: PdfLine, b: PdfLine) -> bool {
    ||| (spec_dist_lt(a.from, b.from, 5000) && spec_dist_lt(b.to, a.to, 5000))
    ||| (spec_dist_lt(a.from, b.to, 5000) && spec_dist_lt(b.from, a.to, 5000))
}

fn lines_dup(a: &PdfLine, b: &PdfLine) -> (r: bool)
    ensures
        r == spec_lines_dup(*a, *b),
{
    (dist_lt(a.from, b.from, 5000) && dist_lt(b.to, a.to, 5000)) || (dist_lt(a.from, b.to, 5000)
        && dist_lt(b.from, a.to, 5000))
}

pub open spec fn spec_dup_found(kept: Seq<PdfLine>, l: PdfLine) -> bool {
    exists|i: int| 0 <= i < kept.len() && spec_lines_dup(l, #[trigger] kept[i])
}

/// The deduplicated prefix: each segment is kept unless an already-kept
/// segment duplicates it.
pub open spec fn spec_dedup_prefix(lines: Seq<PdfLine>, k: int) -> Seq<PdfLine>
    decreases k,
{
    if k <= 0 {
        Seq::empty()
    } else {
        let prev = spec_dedup_prefix(lines, k - 1);
        if spec_dup_found(prev, lines[k - 1]) {
            prev
        } else {
            prev.push(lines[k - 1])
        }
    }
}

pub open spec fn spec_deduplicate_lines(lines: Seq<PdfLine>) -> Seq<PdfLine> {
    spec_dedup_prefix(lines, lines.len() as int)
}

/// Drops segments whose endpoints lie within 5 units of an already-kept
/// segment's endpoints.
fn deduplicate_lines(lines: &Vec<PdfLine>) -> (r: Vec<PdfLine>)
    ensures
        r@ == spec_deduplicate_lines(lines@),
{
    let mut unique: Vec<PdfLine> = Vec::new();
    let mut i: usize = 0;
    while i < lines.len()
        invariant
            i <= lines@.len(),
            unique@ == spec_dedup_prefix(lines@, i as int),
        decreases lines@.len() - i,
    {
        let line = lines[i];
        let mut found = false;
        let mut u: usize = 0;
        while u < unique.len() && !found
            invariant
                u <= unique@.len(),
                found ==> u < unique@.len() && spec_lines_dup(line, unique@[u as int]),
                !found ==> forall|t: int| 0 <= t < u ==> !spec_lines_dup(line, #[trigger] unique@[t]),
            decreases unique@.len() - u, (if found { 0int } else { 1int }),
        {
            if lines_dup(&line, &unique[u]) {
                found = true;
            } else {
                u = u + 1;
            }
        }
        if !found {
            proof {
                assert(!spec_dup_found(unique@, line));
            }
            unique.push(line);
        }
        i = i + 1;
    }
    unique
}

/// Whether any endpoint of `a` lies strictly within 10 units of an endpoint
/// of `b`: the connectivity relation of the table clusterer.
pub open spec fn spec_lines_close(a: PdfLine, b: PdfLine) -> bool {
    ||| spec_dist_lt(a.from, b.to, 10_000)
    ||| spec_dist_lt(a.from, b.from, 10_000)
    ||| spec_dist_lt(a.to, b.to, 10_000)
    ||| spec_dist_lt(a.to, b.from, 10_000)
}

fn lines_close(a: &PdfLine, b: &PdfLine) -> (r: bool)
    ensures
        r == spec_lines_close(*a, *b),
{
    dist_lt(a.from, b.to, 10_000) || dist_lt(a.from, b.from, 10_000) || dist_lt(
        a.to,
        b.to,
        10_000,
    ) || dist_lt(a.to, b.from, 10_000)
}

/// The canonical class map after processing pairs `(i, j)` for `j` upward.
pub open spec fn spec_line_classes_inner(
    lines: Seq<PdfLine>,
    cls: Seq<usize>,
    i: int,
    j: int,
) -> Seq<usize>
    decreases lines.len() - j,
{
    if j < 0 || j >= lines.len() {
        cls
    } else {
        let next = if spec_lines_close(lines[i], lines[j]) {
            spec_merge_classes(cls, i, j)
        } else {
            cls
        };
        spec_line_classes_inner(lines, next, i, j + 1)
    }
}

pub open spec fn spec_line_classes_outer(lines: Seq<PdfLine>, cls: Seq<usize>, i: int) -> Seq<
    usize,
>
    decreases lines.len() - i,
{
    if i < 0 || i >= lines.len() {
        cls
    } else {
        spec_line_classes_outer(lines, spec_line_classes_inner(lines, cls, i, i + 1), i + 1)
    }
}

/// The class map of the connectivity clustering: the canonical fold of
/// merges over all index pairs in order.
pub open spec fn spec_line_classes(lines: Seq<PdfLine>) -> Seq<usize> {
    spec_line_classes_outer(lines, Seq::new(lines.len(), |k: int| k as usize), 0)
}

/// The clusters of connected segments, in first-occurrence order.
pub open spec fn spec_cluster_lines(lines: Seq<PdfLine>) -> Seq<Seq<PdfLine>> {
    spec_group_indices(spec_line_classes(lines), lines.len() as int).1.map_values(
        |g: Seq<usize>| g.map_values(|t: usize| lines[t as int]),
    )
}

proof fn lemma_merge_same_len(cls: Seq<usize>, a: int, b: int)
    ensures
        spec_merge_classes(cls, a, b).len() == cls.len(),
{
}

proof fn lemma_line_classes_inner_len(lines: Seq<PdfLine>, cls: Seq<usize>, i: int, j: int)
    ensures
        spec_line_classes_inner(lines, cls, i, j).len() == cls.len(),
    decreases lines.len() - j,
{
    if j < 0 || j >= lines.len() {
    } else {
        let next = if spec_lines_close(lines[i], lines[j]) {
            spec_merge_classes(cls, i, j)
        } else {
            cls
        };
        lemma_line_classes_inner_len(lines, next, i, j + 1);
    }
}

/// Groups segments into connected clusters with a size-based union-find
/// with path compression, clusters ordered by their first member.
fn cluster_lines(lines: &Vec<PdfLine>) -> (r: Vec<Vec<PdfLine>>)
    ensures
        r@.map_values(|g: Vec<PdfLine>| g@) == spec_cluster_lines(lines@),
        lines_in_range(lines@) ==> forall|p: int, q: int|
            0 <= p < r@.len() && 0 <= q < r@[p]@.len() ==> line_in_range(#[trigger] r@[p]@[q]),
{
    let n = lines.len();
    let mut sets = DisjointSet::new(n);
    let ghost cls0: Seq<usize> = Seq::new(lines@.len(), |k: int| k as usize);
    let ghost mut cls: Seq<usize> = cls0;
    let mut i: usize = 0;
    proof {
        assert(same_partition(sets.rep(), cls));
    }
    while i < n
        invariant
            n == lines@.len(),
            sets.wf(),
            sets.len() == n,
            cls.len() == n,
            i <= n,
            same_partition(sets.rep(), cls),
            spec_line_classes_outer(lines@, cls, i as int) == spec_line_classes(lines@),
        decreases n - i,
    {
        let mut j: usize = i + 1;
        while j < n
            invariant
                n == lines@.len(),
                sets.wf(),
                sets.len() == n,
                cls.len() == n,
                i < n,
                i < j <= n || j == i + 1,
                same_partition(sets.rep(), cls),
                spec_line_classes_outer(
                    lines@,
                    spec_line_classes_inner(lines@, cls, i as int, j as int),
                    i + 1,
                ) == spec_line_classes(lines@),
            decreases n - j,
        {
            proof {
                lemma_line_classes_inner_len(lines@, cls, i as int, j as int);
            }
            if lines_close(&lines[i], &lines[j]) {
                let ghost em0 = sets.rep();
                sets.union(i, j);
                proof {
                    lemma_union_matches_merge(em0, sets.rep(), cls, i as int, j as int);
                    cls = spec_merge_classes(cls, i as int, j as int);
                }
            }
            j = j + 1;
        }
        proof {
            if i + 1 >= n {
                assert(spec_line_classes_inner(lines@, cls, i as int, i + 1) == cls);
            }
        }
        i = i + 1;
    }
    let groups = sets.group_by_class(n, Ghost(cls));
    let mut out: Vec<Vec<PdfLine>> = Vec::new();
    let ghost sgroups = spec_group_indices(cls, n as int).1;
    let mut g: usize = 0;
    proof {
        assert(cls =~= spec_line_classes(lines@));
    }
    while g < groups.len()
        invariant
            n == lines@.len(),
            groups@.map_values(|v: Vec<usize>| v@) == sgroups,
            forall|p: int, q: int|
                0 <= p < groups@.len() && 0 <= q < groups@[p]@.len() ==> #[trigger] groups@[p]@[q]
                    < n,
            g <= groups@.len(),
            out@.len() == g,
            forall|p: int|
                0 <= p < g ==> #[trigger] out@[p]@ == sgroups[p].map_values(
                    |t: usize| lines@[t as int],
                ),
            lines_in_range(lines@) ==> forall|p: int, q: int|
                0 <= p < g && 0 <= q < out@[p]@.len() ==> line_in_range(#[trigger] out@[p]@[q]),
        decreases groups@.len() - g,
    {
        let members = &groups[g];
        let mut cluster: Vec<PdfLine> = Vec::new();
        let mut q: usize = 0;
        while q < members.len()
            invariant
                n == lines@.len(),
                forall|t: int| 0 <= t < members@.len() ==> #[trigger] members@[t] < n,
                q <= members@.len(),
                cluster@.len() == q,
                forall|t: int| 0 <= t < q ==> #[trigger] cluster@[t] == lines@[members@[t] as int],
                lines_in_range(lines@) ==> lines_in_range(cluster@),
            decreases members@.len() - q,
        {
            cluster.push(lines[members[q]]);
            q = q + 1;
        }
        proof {
            assert(cluster@ =~= members@.map_values(|t: usize| lines@[t as int]));
            assert(groups@.map_values(|v: Vec<usize>| v@)[g as int] == members@);
        }
        out.push(cluster);
        g = g + 1;
    }
    proof {
        assert(out@.map_values(|v: Vec<PdfLine>| v@) =~= spec_cluster_lines(lines@));
    }
    out
}

pub open spec fn spec_points_close(a: (i64, i64), b: (i64, i64), radius: int) -> bool {
    spec_dist_le(a, b, radius)
}

/// The canonical class map of point clustering, pairs processed in order.
pub open spec fn spec_point_classes_inner(
    pts: Seq<(i64, i64)>,
    cls: Seq<usize>,
    radius: int,
    i: int,
    j: int,
) -> Seq<usize>
    decreases pts.len() - j,
{
    if j < 0 || j >= pts.len() {
        cls
    } else {
        let next = if spec_points_close(pts[i], pts[j], radius) {
            spec_merge_classes(cls, i, j)
        } else {
            cls
        };
        spec_point_classes_inner(pts, next, radius, i, j + 1)
    }
}

pub open spec fn spec_point_classes_outer(
    pts: Seq<(i64, i64)>,
    cls: Seq<usize>,
    radius: int,
    i: int,
) -> Seq<usize>
    decreases pts.len() - i,
{
    if i < 0 || i >= pts.len() {
        cls
    } else {
        spec_point_classes_outer(
            pts,
            spec_point_classes_inner(pts, cls, radius, i, i + 1),
            radius,
            i + 1,
        )
    }
}

pub open spec fn spec_point_classes(pts: Seq<(i64, i64)>, radius: int) -> Seq<usize> {
    spec_point_classes_outer(pts, Seq::new(pts.len(), |k: int| k as usize), radius, 0)
}

pub open spec fn spec_sum_x(pts: Seq<(i64, i64)>) -> int
    decreases pts.len(),
{
    if pts.len() == 0 {
        0
    } else {
        spec_sum_x(pts.drop_last()) + pts.last().0
    }
}

pub open spec fn spec_sum_y(pts: Seq<(i64, i64)>) -> int
    decreases pts.len(),
{
    if pts.len() == 0 {
        0
    } else {
        spec_sum_y(pts.drop_last()) + pts.last().1
    }
}

/// The centroid of a cluster, by truncating division.
pub open spec fn spec_centroid(pts: Seq<(i64, i64)>) -> (i64, i64) {
    if pts.len() == 0 {
        (0, 0)
    } else {
        (
            crate::fixed::tdiv(spec_sum_x(pts), pts.len() as int) as i64,
            crate::fixed::tdiv(spec_sum_y(pts), pts.len() as int) as i64,
        )
    }
}

pub open spec fn points_in_range(pts: Seq<(i64, i64)>) -> bool {
    forall|i: int| #![trigger pts[i]]
        0 <= i < pts.len() ==> in_range(pts[i].0 as int) && in_range(pts[i].1 as int)
}

/// The centroids of the point clusters, one per cluster, clusters in
/// first-occurrence order.
pub open spec fn spec_cluster_points(pts: Seq<(i64, i64)>, radius: int) -> Seq<(i64, i64)> {
    spec_group_indices(spec_point_classes(pts, radius), pts.len() as int).1.map_values(
        |g: Seq<usize>| spec_centroid(g.map_values(|t: usize| pts[t as int])),
    )
}

proof fn lemma_point_classes_inner_len(
    pts: Seq<(i64, i64)>,
    cls: Seq<usize>,
    radius: int,
    i: int,
    j: int,
)
    ensures
        spec_point_classes_inner(pts, cls, radius, i, j).len() == cls.len(),
    decreases pts.len() - j,
{
    if j < 0 || j >= pts.len() {
    } else {
        let next = if spec_points_close(pts[i], pts[j], radius) {
            spec_merge_classes(cls, i, j)
        } else {
            cls
        };
        lemma_point_classes_inner_len(pts, next, radius, i, j + 1);
    }
}

/// The sum of in-range coordinates stays within `len * FX_MAX`.
proof fn lemma_sum_bounds(pts: Seq<(i64, i64)>)
    requires
        points_in_range(pts),
    ensures
        -(pts.len() as int) * (crate::fixed::FX_MAX as int) <= spec_sum_x(pts) <= (
        pts.len() as int) * (crate::fixed::FX_MAX as int),
        -(pts.len() as int) * (crate::fixed::FX_MAX as int) <= spec_sum_y(pts) <= (
        pts.len() as int) * (crate::fixed::FX_MAX as int),
    decreases pts.len(),
{
    let m = crate::fixed::FX_MAX as int;
    let n = pts.len() as int;
    if pts.len() == 0 {
    } else {
        let head = pts.drop_last();
        assert(points_in_range(head));
        lemma_sum_bounds(head);
        assert((n - 1) * m + m == n * m) by (nonlinear_arith);
        assert(-((n - 1) * m) - m == -(n * m)) by (nonlinear_arith);
        assert(-(n * m) == (-n) * m) by (nonlinear_arith);
    }
}

/// The centroid of in-range points is in range.
proof fn lemma_centroid_in_range(pts: Seq<(i64, i64)>)
    requires
        points_in_range(pts),
    ensures
        in_range(spec_centroid(pts).0 as int),
        in_range(spec_centroid(pts).1 as int),
        pts.len() > 0 ==> spec_centroid(pts).0 as int == crate::fixed::tdiv(
            spec_sum_x(pts),
            pts.len() as int,
        ) && spec_centroid(pts).1 as int == crate::fixed::tdiv(spec_sum_y(pts), pts.len() as int),
{
    let m = crate::fixed::FX_MAX as int;
    let n = pts.len() as int;
    if pts.len() == 0 {
    } else {
        lemma_sum_bounds(pts);
        lemma_tdiv_in_range(spec_sum_x(pts), n);
        lemma_tdiv_in_range(spec_sum_y(pts), n);
    }
}

/// Truncating division of a sum of `n` in-range values by `n` is in range.
proof fn lemma_tdiv_in_range(s: int, n: int)
    requires
        n > 0,
        -n * (crate::fixed::FX_MAX as int) <= s <= n * (crate::fixed::FX_MAX as int),
    ensures
        in_range(crate::fixed::tdiv(s, n)),
{
    let m = crate::fixed::FX_MAX as int;
    if s >= 0 {
        vstd::arithmetic::div_mod::lemma_div_is_ordered(s, n * m, n);
        vstd::arithmetic::div_mod::lemma_div_multiples_vanish(m, n);
        crate::fixed::lemma_tdiv_bounds(s, n);
    } else {
        assert(-s <= n * m) by (nonlinear_arith)
            requires
                -n * m <= s,
        ;
        vstd::arithmetic::div_mod::lemma_div_is_ordered(-s, n * m, n);
        vstd::arithmetic::div_mod::lemma_div_multiples_vanish(m, n);
        crate::fixed::lemma_tdiv_bounds(s, n);
    }
}

/// Clusters points within `radius` of each other (transitively) and
/// replaces each cluster with its centroid.
fn cluster_points(points: &Vec<(i64, i64)>, radius: i64) -> (r: Vec<(i64, i64)>)
    requires
        0 < radius <= 100_000,
        points_in_range(points@),
    ensures
        r@ == spec_cluster_points(points@, radius as int),
        points_in_range(r@),
{
    let n = points.len();
    let mut sets = DisjointSet::new(n);
    let ghost mut cls: Seq<usize> = Seq::new(points@.len(), |k: int| k as usize);
    let mut i: usize = 0;
    while i < n
        invariant
            n == points@.len(),
            0 < radius <= 100_000,
            points_in_range(points@),
            sets.wf(),
            sets.len() == n,
            cls.len() == n,
            i <= n,
            same_partition(sets.rep(), cls),
            spec_point_classes_outer(points@, cls, radius as int, i as int) == spec_point_classes(
                points@,
                radius as int,
            ),
        decreases n - i,
    {
        let mut j: usize = i + 1;
        while j < n
            invariant
                n == points@.len(),
                0 < radius <= 100_000,
                sets.wf(),
                sets.len() == n,
                cls.len() == n,
                i < n,
                i < j <= n || j == i + 1,
                same_partition(sets.rep(), cls),
                spec_point_classes_outer(
                    points@,
                    spec_point_classes_inner(points@, cls, radius as int, i as int, j as int),
                    radius as int,
                    i + 1,
                ) == spec_point_classes(points@, radius as int),
            decreases n - j,
        {
            proof {
                lemma_point_classes_inner_len(points@, cls, radius as int, i as int, j as int);
            }
            if dist_le(points[i], points[j], radius) {
                let ghost em0 = sets.rep();
                sets.union(i, j);
                proof {
                    lemma_union_matches_merge(em0, sets.rep(), cls, i as int, j as int);
                    cls = spec_merge_classes(cls, i as int, j as int);
                }
            }
            j = j + 1;
        }
        proof {
            if i + 1 >= n {
                assert(spec_point_classes_inner(points@, cls, radius as int, i as int, i + 1)
                    == cls);
            }
        }
        i = i + 1;
    }
    let groups = sets.group_by_class(n, Ghost(cls));
    let ghost sgroups = spec_group_indices(cls, n as int).1;
    let mut out: Vec<(i64, i64)> = Vec::new();
    let mut g: usize = 0;
    proof {
        assert(cls =~= spec_point_classes(points@, radius as int));
    }
    while g < groups.len()
        invariant
            n == points@.len(),
            points_in_range(points@),
            groups@.map_values(|v: Vec<usize>| v@) == sgroups,
            forall|p: int, q: int|
                0 <= p < groups@.len() && 0 <= q < groups@[p]@.len() ==> #[trigger] groups@[p]@[q]
                    < n,
            g <= groups@.len(),
            out@.len() == g,
            points_in_range(out@),
            forall|p: int|
                0 <= p < g ==> #[trigger] out@[p] == spec_centroid(
                    sgroups[p].map_values(|t: usize| points@[t as int]),
                ),
        decreases groups@.len() - g,
    {
        let members = &groups[g];
        let ghost cluster: Seq<(i64, i64)> = members@.map_values(|t: usize| points@[t as int]);
        proof {
            assert(groups@.map_values(|v: Vec<usize>| v@)[g as int] == members@);
            assert(points_in_range(cluster));
        }
        let mut sum_x: i128 = 0;
        let mut sum_y: i128 = 0;
        let mut q: usize = 0;
        while q < members.len()
            invariant
                n == points@.len(),
                points_in_range(points@),
                forall|t: int| 0 <= t < members@.len() ==> #[trigger] members@[t] < n,
                cluster == members@.map_values(|t: usize| points@[t as int]),
                q <= members@.len(),
                sum_x == spec_sum_x(cluster.subrange(0, q as int)),
                sum_y == spec_sum_y(cluster.subrange(0, q as int)),
                -(q as int) * (crate::fixed::FX_MAX as int) <= sum_x <= (q as int) * (
                crate::fixed::FX_MAX as int),
                -(q as int) * (crate::fixed::FX_MAX as int) <= sum_y <= (q as int) * (
                crate::fixed::FX_MAX as int),
            decreases members@.len() - q,
        {
            let pt = points[members[q]];
            proof {
                assert(cluster[q as int] == pt);
                assert(cluster.subrange(0, q + 1 as int).drop_last() =~= cluster.subrange(
                    0,
                    q as int,
                ));
                assert(cluster.subrange(0, q + 1 as int).last() == pt);
                let m = crate::fixed::FX_MAX as int;
                assert((q as int) * m + m == (q + 1) * m) by (nonlinear_arith);
                assert(-((q as int) * m) - m == -((q + 1) * m)) by (nonlinear_arith);
            }
            sum_x = sum_x + (pt.0 as i128);
            sum_y = sum_y + (pt.1 as i128);
            q = q + 1;
        }
        if members.len() > 0 {
            proof {
                assert(cluster.subrange(0, members@.len() as int) =~= cluster);
                lemma_centroid_in_range(cluster);
            }
            let cnt: i128 = members.len() as i128;
            let cx = crate::fixed::tdiv_wide(sum_x, cnt);
            let cy = crate::fixed::tdiv_wide(sum_y, cnt);
            out.push((cx as i64, cy as i64));
        } else {
            proof {
                assert(cluster =~= Seq::<(i64, i64)>::empty());
            }
            out.push((0, 0));
        }
        g = g + 1;
    }
    proof {
        assert(out@ =~= spec_cluster_points(points@, radius as int));
    }
    out
}

/// A segment whose endpoints' vertical difference stays under 2 units.
pub open spec fn spec_is_horizontal(l: PdfLine) -> bool {
    -2000 < l.from.1 - l.to.1 < 2000
}

/// A segment whose endpoints' horizontal difference stays under 2 units.
pub open spec fn spec_is_vertical(l: PdfLine) -> bool {
    -2000 < l.from.0 - l.to.0 < 2000
}

pub open spec fn spec_horizontals(lines: Seq<PdfLine>, k: int) -> Seq<PdfLine>
    decreases k,
{
    if k <= 0 {
        Seq::empty()
    } else {
        let prev = spec_horizontals(lines, k - 1);
        if spec_is_horizontal(lines[k - 1]) {
            prev.push(lines[k - 1])
        } else {
            prev
        }
    }
}

pub open spec fn spec_verticals(lines: Seq<PdfLine>, k: int) -> Seq<PdfLine>
    decreases k,
{
    if k <= 0 {
        Seq::empty()
    } else {
        let prev = spec_verticals(lines, k - 1);
        if !spec_is_horizontal(lines[k - 1]) && spec_is_vertical(lines[k - 1]) {
            prev.push(lines[k - 1])
        } else {
            prev
        }
    }
}

pub open spec fn spec_min(a: i64, b: i64) -> i64 {
    if a <= b {
        a
    } else {
        b
    }
}

pub open spec fn spec_max(a: i64, b: i64) -> i64 {
    if a >= b {
        a
    } else {
        b
    }
}

/// Whether a horizontal and a vertical segment cross, within a 10-unit
/// tolerance at the ends of either span.
pub open spec fn spec_hv_intersects(h: PdfLine, v: PdfLine) -> bool {
    let h_y = h.from.1;
    let h_min_x = spec_min(h.from.0, h.to.0);
    let h_max_x = spec_max(h.from.0, h.to.0);
    let v_x = v.from.0;
    let v_min_y = spec_min(v.from.1, v.to.1);
    let v_max_y = spec_max(v.from.1, v.to.1);
    &&& (-10_000 <= v_x - h_min_x <= 10_000 || -10_000 <= v_x - h_max_x <= 10_000 || (v_x >= h_min_x
        && v_x <= h_max_x))
    &&& (-10_000 <= h_y - v_min_y <= 10_000 || -10_000 <= h_y - v_max_y <= 10_000 || (h_y >= v_min_y
        && h_y <= v_max_y))
}

/// The crossings of one horizontal with the first `k` verticals.
pub open spec fn spec_row_crossings(h: PdfLine, vs: Seq<PdfLine>, k: int) -> Seq<(i64, i64)>
    decreases k,
{
    if k <= 0 {
        Seq::empty()
    } else {
        let prev = spec_row_crossings(h, vs, k - 1);
        if spec_hv_intersects(h, vs[k - 1]) {
            prev.push((vs[k - 1].from.0, h.from.1))
        } else {
            prev
        }
    }
}

pub open spec fn spec_crossings(hs: Seq<PdfLine>, vs: Seq<PdfLine>, k: int) -> Seq<(i64, i64)>
    decreases k,
{
    if k <= 0 {
        Seq::empty()
    } else {
        spec_crossings(hs, vs, k - 1) + spec_row_crossings(hs[k - 1], vs, vs.len() as int)
    }
}

/// The merged grid points of a cluster's ruling lines: every
/// horizontal/vertical crossing, with near-duplicates within 10 units
/// replaced by their centroid.  Empty when either orientation is missing.
pub open spec fn spec_lines_to_intersections(lines: Seq<PdfLine>) -> Seq<(i64, i64)> {
    let hs = spec_horizontals(lines, lines.len() as int);
    let vs = spec_verticals(lines, lines.len() as int);
    if hs.len() == 0 || vs.len() == 0 {
        Seq::empty()
    } else {
        spec_cluster_points(spec_crossings(hs, vs, hs.len() as int), 10_000)
    }
}

fn is_horizontal(l: &PdfLine) -> (r: bool)
    requires
        in_range(l.from.1 as int),
        in_range(l.to.1 as int),
    ensures
        r == spec_is_horizontal(*l),
{
    let d = l.from.1 - l.to.1;
    -2000 < d && d < 2000
}

fn is_vertical(l: &PdfLine) -> (r: bool)
    requires
        in_range(l.from.0 as int),
        in_range(l.to.0 as int),
    ensures
        r == spec_is_vertical(*l),
{
    let d = l.from.0 - l.to.0;
    -2000 < d && d < 2000
}

pub open spec fn line_in_range(l: PdfLine) -> bool {
    in_range(l.from.0 as int) && in_range(l.from.1 as int) && in_range(l.to.0 as int) && in_range(
        l.to.1 as int,
    )
}

pub open spec fn lines_in_range(s: Seq<PdfLine>) -> bool {
    forall|i: int| 0 <= i < s.len() ==> line_in_range(#[trigger] s[i])
}

fn hv_intersects(h: &PdfLine, v: &PdfLine) -> (r: bool)
    requires
        line_in_range(*h),
        line_in_range(*v),
    ensures
        r == spec_hv_intersects(*h, *v),
{
    let h_y = h.from.1;
    let h_min_x = if h.from.0 <= h.to.0 {
        h.from.0
    } else {
        h.to.0
    };
    let h_max_x = if h.from.0 >= h.to.0 {
        h.from.0
    } else {
        h.to.0
    };
    let v_x = v.from.0;
    let v_min_y = if v.from.1 <= v.to.1 {
        v.from.1
    } else {
        v.to.1
    };
    let v_max_y = if v.from.1 >= v.to.1 {
        v.from.1
    } else {
        v.to.1
    };
    let dx1 = v_x - h_min_x;
    let dx2 = v_x - h_max_x;
    let dy1 = h_y - v_min_y;
    let dy2 = h_y - v_max_y;
    ((-10_000 <= dx1 && dx1 <= 10_000) || (-10_000 <= dx2 && dx2 <= 10_000) || (v_x >= h_min_x && v_x
        <= h_max_x)) && ((-10_000 <= dy1 && dy1 <= 10_000) || (-10_000 <= dy2 && dy2 <= 10_000) || (
    h_y >= v_min_y && h_y <= v_max_y))
}

/// Crossings of every horizontal with every vertical segment, merged into
/// grid points.
fn lines_to_intersections(lines: &Vec<PdfLine>) -> (r: Vec<(i64, i64)>)
    requires
        lines_in_range(lines@),
    ensures
        r@ == spec_lines_to_intersections(lines@),
        points_in_range(r@),
{
    let mut hs: Vec<PdfLine> = Vec::new();
    let mut vs: Vec<PdfLine> = Vec::new();
    let mut i: usize = 0;
    while i < lines.len()
        invariant
            lines_in_range(lines@),
            i <= lines@.len(),
            hs@ == spec_horizontals(lines@, i as int),
            vs@ == spec_verticals(lines@, i as int),
            lines_in_range(hs@),
            lines_in_range(vs@),
        decreases lines@.len() - i,
    {
        let l = lines[i];
        if is_horizontal(&l) {
            hs.push(l);
        } else if is_vertical(&l) {
            vs.push(l);
        }
        i = i + 1;
    }
    if hs.len() == 0 || vs.len() == 0 {
        return Vec::new();
    }
    let mut crossings: Vec<(i64, i64)> = Vec::new();
    let mut a: usize = 0;
    while a < hs.len()
        invariant
            lines_in_range(hs@),
            lines_in_range(vs@),
            a <= hs@.len(),
            crossings@ == spec_crossings(hs@, vs@, a as int),
            points_in_range(crossings@),
        decreases hs@.len() - a,
    {
        let h = hs[a];
        let mut b: usize = 0;
        while b < vs.len()
            invariant
                lines_in_range(hs@),
                lines_in_range(vs@),
                a < hs@.len(),
                h == hs@[a as int],
                b <= vs@.len(),
                crossings@ == spec_crossings(hs@, vs@, a as int) + spec_row_crossings(
                    h,
                    vs@,
                    b as int,
                ),
                points_in_range(crossings@),
            decreases vs@.len() - b,
        {
            if hv_intersects(&h, &vs[b]) {
                crossings.push((vs[b].from.0, h.from.1));
            }
            b = b + 1;
        }
        proof {
            assert(crossings@ == spec_crossings(hs@, vs@, a + 1));
        }
        a = a + 1;
    }
    cluster_points(&crossings, 10_000)
}

/// Rounding division by the 3-unit grid epsilon, halves away from zero.
pub open spec fn spec_quantize(v: int) -> int {
    if v >= 0 {
        (v + 1500) / 3000
    } else {
        -((-v + 1500) / 3000)
    }
}

fn quantize(v: i64) -> (r: i64)
    requires
        in_range(v as int),
    ensures
        r as int == spec_quantize(v as int),
{
    if v >= 0 {
        let q = crate::fixed::tdiv_wide((v as i128) + 1500, 3000);
        proof {
            crate::fixed::lemma_tdiv_bounds(v as int + 1500, 3000);
        }
        q as i64
    } else {
        let q = crate::fixed::tdiv_wide(-(v as i128) + 1500, 3000);
        proof {
            crate::fixed::lemma_tdiv_bounds(-(v as int) + 1500, 3000);
        }
        -(q as i64)
    }
}

/// The grid sort key of a point: quantized y first, then quantized x.
pub open spec fn spec_grid_key(p: (i64, i64)) -> (i64, i64) {
    (spec_quantize(p.1 as int) as i64, spec_quantize(p.0 as int) as i64)
}

/// Grid points ordered top row first, left to right within equal quantized
/// coordinates, stably.
pub open spec fn spec_sorted_points(pts: Seq<(i64, i64)>) -> Seq<(i64, i64)> {
    crate::sort::spec_sort_idx(pts.map_values(|p: (i64, i64)| spec_grid_key(p)), true).map_values(
        |t: usize| pts[t as int],
    )
}

/// Splits the ordered points into grid rows: a point joins the current row
/// while its y stays within the 3-unit epsilon of the row's first point.
pub open spec fn spec_group_grid_rows(pts: Seq<(i64, i64)>, k: int) -> (
    Seq<Seq<(i64, i64)>>,
    Seq<(i64, i64)>,
)
    decreases k,
{
    if k <= 0 {
        (Seq::empty(), Seq::empty())
    } else {
        let (rows, cur) = spec_group_grid_rows(pts, k - 1);
        let pt = pts[k - 1];
        if cur.len() == 0 {
            (rows, seq![pt])
        } else if -3000 <= pt.1 - cur[0].1 <= 3000 {
            (rows, cur.push(pt))
        } else {
            (rows.push(cur), seq![pt])
        }
    }
}

pub open spec fn spec_grid_rows(pts: Seq<(i64, i64)>) -> Seq<Seq<(i64, i64)>> {
    let (rows, cur) = spec_group_grid_rows(pts, pts.len() as int);
    if cur.len() == 0 {
        rows
    } else {
        rows.push(cur)
    }
}

/// One row sorted left to right by x, stably.
pub open spec fn spec_sort_row(row: Seq<(i64, i64)>) -> Seq<(i64, i64)> {
    crate::sort::spec_sort_idx(row.map_values(|p: (i64, i64)| (p.0, 0i64)), true).map_values(
        |t: usize| row[t as int],
    )
}

/// Cells of one adjacent row pair: the x-th point of the upper row and the
/// (x+1)-th point of the lower row form opposite corners.
pub open spec fn spec_row_cells(row: Seq<(i64, i64)>, next: Seq<(i64, i64)>, k: int) -> Seq<
    BoundaryV,
>
    decreases k,
{
    if k <= 0 {
        Seq::empty()
    } else {
        spec_row_cells(row, next, k - 1).push(
            BoundaryV {
                minx: row[k - 1].0,
                maxx: next[k as int].0,
                miny: row[k - 1].1,
                maxy: next[k as int].1,
                elements: Seq::empty(),
            },
        )
    }
}

pub open spec fn spec_cols_limit(row: Seq<(i64, i64)>, next: Seq<(i64, i64)>) -> int {
    let cols = if row.len() <= next.len() {
        row.len() as int
    } else {
        next.len() as int
    };
    cols - 1
}

/// All cells of the grid, top row pair first.
pub open spec fn spec_grid_cells(rows: Seq<Seq<(i64, i64)>>, k: int) -> Seq<BoundaryV>
    decreases k,
{
    if k <= 0 || k >= rows.len() {
        Seq::empty()
    } else {
        spec_grid_cells(rows, k - 1) + spec_row_cells(
            rows[k - 1],
            rows[k],
            spec_cols_limit(rows[k - 1], rows[k]),
        )
    }
}

/// The table a merged grid-point set yields: its cells and centre, or
/// nothing when at most one cell forms.
pub open spec fn spec_intersections_to_table(pts: Seq<(i64, i64)>) -> Option<TableV> {
    let sorted = spec_sorted_points(pts);
    let rows = spec_grid_rows(sorted).map_values(|row: Seq<(i64, i64)>| spec_sort_row(row));
    let cells = spec_grid_cells(rows, rows.len() as int - 1);
    let tl = if rows.len() > 0 && rows[0].len() > 0 {
        rows[0][0]
    } else {
        (0, 0)
    };
    let br = if rows.len() > 0 && rows[rows.len() - 1].len() > 0 {
        rows[rows.len() - 1][rows[rows.len() - 1].len() - 1]
    } else {
        (0, 0)
    };
    if cells.len() <= 1 {
        None
    } else {
        Some(
            TableV {
                boundaries: cells,
                x: crate::fixed::tdiv(tl.0 + br.0, 2) as i64,
                y: crate::fixed::tdiv(tl.1 + br.1, 2) as i64,
            },
        )
    }
}

fn permute_points(pts: &Vec<(i64, i64)>, idx: &Vec<usize>) -> (r: Vec<(i64, i64)>)
    requires
        forall|i: int| 0 <= i < idx@.len() ==> #[trigger] idx@[i] < pts@.len(),
    ensures
        r@ == idx@.map_values(|t: usize| pts@[t as int]),
{
    let mut out: Vec<(i64, i64)> = Vec::new();
    let mut i: usize = 0;
    while i < idx.len()
        invariant
            forall|t: int| 0 <= t < idx@.len() ==> #[trigger] idx@[t] < pts@.len(),
            i <= idx@.len(),
            out@.len() == i,
            forall|t: int| 0 <= t < i ==> #[trigger] out@[t] == pts@[idx@[t] as int],
        decreases idx@.len() - i,
    {
        out.push(pts[idx[i]]);
        i = i + 1;
    }
    proof {
        assert(out@ =~= idx@.map_values(|t: usize| pts@[t as int]));
    }
    out
}

/// Orders the merged grid points into rows and builds the table's cell
/// boundaries; a grid with at most one cell is discarded.
fn intersections_to_table(points: &Vec<(i64, i64)>) -> (r: Option<PdfTable>)
    requires
        points_in_range(points@),
    ensures
        match r {
            Some(t) => spec_intersections_to_table(points@) == Some(t@),
            None => spec_intersections_to_table(points@) is None,
        },
{
    let mut keys: Vec<(i64, i64)> = Vec::new();
    let mut i: usize = 0;
    while i < points.len()
        invariant
            points_in_range(points@),
            i <= points@.len(),
            keys@.len() == i,
            forall|t: int| 0 <= t < i ==> #[trigger] keys@[t] == spec_grid_key(points@[t]),
        decreases points@.len() - i,
    {
        let p = points[i];
        proof {
            assert(in_range(points@[i as int].0 as int) && in_range(points@[i as int].1 as int));
        }
        keys.push((quantize(p.1), quantize(p.0)));
        i = i + 1;
    }
    proof {
        assert(keys@ =~= points@.map_values(|p: (i64, i64)| spec_grid_key(p)));
    }
    let order = crate::sort::sort_indices(&keys, true);
    let sorted = permute_points(points, &order);
    let ghost ssorted = spec_sorted_points(points@);
    proof {
        assert(sorted@ == ssorted);
        assert forall|t: int| 0 <= t < sorted@.len() implies in_range(
            #[trigger] sorted@[t].0 as int,
        ) && in_range(sorted@[t].1 as int) by {
            assert(sorted@[t] == points@[order@[t] as int]);
            assert(in_range(points@[order@[t] as int].0 as int));
            assert(in_range(points@[order@[t] as int].1 as int));
        }
        assert(points_in_range(sorted@));
    }
    let mut rows: Vec<Vec<(i64, i64)>> = Vec::new();
    let mut cur: Vec<(i64, i64)> = Vec::new();
    let mut k: usize = 0;
    while k < sorted.len()
        invariant
            points_in_range(sorted@),
            k <= sorted@.len(),
            rows@.map_values(|v: Vec<(i64, i64)>| v@) == spec_group_grid_rows(sorted@, k as int).0,
            cur@ == spec_group_grid_rows(sorted@, k as int).1,
        decreases sorted@.len() - k,
    {
        let pt = sorted[k];
        if cur.len() == 0 {
            cur.push(pt);
        } else {
            let d = (pt.1 as i128) - (cur[0].1 as i128);
            if -3000 <= d && d <= 3000 {
                cur.push(pt);
            } else {
                rows.push(cur);
                cur = Vec::new();
                cur.push(pt);
                proof {
                    assert(rows@.map_values(|v: Vec<(i64, i64)>| v@) =~= spec_group_grid_rows(
                        sorted@,
                        k + 1,
                    ).0);
                }
            }
        }
        proof {
            assert(cur@ =~= spec_group_grid_rows(sorted@, k + 1).1);
        }
        k = k + 1;
    }
    if cur.len() > 0 {
        rows.push(cur);
    }
    let ghost grows = spec_grid_rows(ssorted);
    proof {
        assert(rows@.map_values(|v: Vec<(i64, i64)>| v@) =~= grows);
    }
    let mut srows: Vec<Vec<(i64, i64)>> = Vec::new();
    let mut t: usize = 0;
    while t < rows.len()
        invariant
            t <= rows@.len(),
            rows@.map_values(|v: Vec<(i64, i64)>| v@) == grows,
            srows@.len() == t,
            forall|p: int|
                0 <= p < t ==> #[trigger] srows@[p]@ == spec_sort_row(grows[p]),
        decreases rows@.len() - t,
    {
        let row = &rows[t];
        let mut rkeys: Vec<(i64, i64)> = Vec::new();
        let mut u: usize = 0;
        while u < row.len()
            invariant
                u <= row@.len(),
                rkeys@.len() == u,
                forall|s: int| 0 <= s < u ==> #[trigger] rkeys@[s] == (row@[s].0, 0i64),
            decreases row@.len() - u,
        {
            rkeys.push((row[u].0, 0));
            u = u + 1;
        }
        proof {
            assert(rkeys@ =~= row@.map_values(|p: (i64, i64)| (p.0, 0i64)));
        }
        let rorder = crate::sort::sort_indices(&rkeys, true);
        let sorted_row = permute_points(row, &rorder);
        proof {
            assert(rows@.map_values(|v: Vec<(i64, i64)>| v@)[t as int] == row@);
            assert(sorted_row@ == spec_sort_row(grows[t as int]));
        }
        srows.push(sorted_row);
        t = t + 1;
    }
    let ghost sgrid = grows.map_values(|row: Seq<(i64, i64)>| spec_sort_row(row));
    proof {
        assert(srows@.map_values(|v: Vec<(i64, i64)>| v@) =~= sgrid);
    }
    let mut boundaries: Vec<TableBoundary> = Vec::new();
    let mut y: usize = 0;
    while y + 1 < srows.len()
        invariant
            srows@.map_values(|v: Vec<(i64, i64)>| v@) == sgrid,
            srows@.len() == sgrid.len(),
            y <= sgrid.len(),
            sgrid.len() > 0 ==> y < sgrid.len(),
            boundaries@.map_values(|b: TableBoundary| b@) == spec_grid_cells(sgrid, y as int),
        decreases srows@.len() - y,
    {
        let cols = if srows[y].len() <= srows[y + 1].len() {
            srows[y].len()
        } else {
            srows[y + 1].len()
        };
        let mut x: usize = 0;
        proof {
            assert(srows@.map_values(|v: Vec<(i64, i64)>| v@)[y as int] == srows@[y as int]@);
            assert(srows@.map_values(|v: Vec<(i64, i64)>| v@)[y + 1] == srows@[y + 1]@);
        }
        while x + 1 < cols
            invariant
                srows@.map_values(|v: Vec<(i64, i64)>| v@) == sgrid,
                srows@.len() == sgrid.len(),
                sgrid.len() <= usize::MAX,
                y + 1 < sgrid.len(),
                cols as int == (if sgrid[y as int].len() <= sgrid[y + 1].len() {
                    sgrid[y as int].len() as int
                } else {
                    sgrid[y + 1].len() as int
                }),
                x <= spec_cols_limit(sgrid[y as int], sgrid[y + 1]) || (x == 0 && cols == 0),
                boundaries@.map_values(|b: TableBoundary| b@) == spec_grid_cells(sgrid, y as int)
                    + spec_row_cells(sgrid[y as int], sgrid[y + 1], x as int),
            decreases cols - x,
        {
            proof {
                assert(srows@.map_values(|v: Vec<(i64, i64)>| v@)[y as int] == srows@[y as int]@);
                assert(srows@.map_values(|v: Vec<(i64, i64)>| v@)[y + 1] == srows@[y + 1]@);
            }
            let top_left = srows[y][x];
            let bottom_right = srows[y + 1][x + 1];
            boundaries.push(
                TableBoundary {
                    minx: top_left.0,
                    maxx: bottom_right.0,
                    miny: top_left.1,
                    maxy: bottom_right.1,
                    elements: Vec::new(),
                },
            );
            proof {
                let gc = spec_grid_cells(sgrid, y as int);
                let rc = spec_row_cells(sgrid[y as int], sgrid[y + 1], x as int);
                let cell = BoundaryV {
                    minx: sgrid[y as int][x as int].0,
                    maxx: sgrid[y + 1][x + 1].0,
                    miny: sgrid[y as int][x as int].1,
                    maxy: sgrid[y + 1][x + 1].1,
                    elements: Seq::empty(),
                };
                assert(spec_row_cells(sgrid[y as int], sgrid[y + 1], x + 1) == rc.push(cell));
                assert(boundaries@.last()@ =~~= cell);
                assert(boundaries@.map_values(|b: TableBoundary| b@) =~~= (gc + rc).push(
                    boundaries@.last()@,
                ));
                assert((gc + rc).push(cell) =~~= gc + rc.push(cell));
                assert(boundaries@.map_values(|b: TableBoundary| b@) =~~= gc + spec_row_cells(
                    sgrid[y as int],
                    sgrid[y + 1],
                    x + 1,
                ));
            }
            x = x + 1;
        }
        proof {
            assert(spec_row_cells(sgrid[y as int], sgrid[y + 1], spec_cols_limit(
                sgrid[y as int],
                sgrid[y + 1],
            )) == spec_row_cells(sgrid[y as int], sgrid[y + 1], x as int));
            assert(boundaries@.map_values(|b: TableBoundary| b@) =~~= spec_grid_cells(
                sgrid,
                y + 1,
            ));
        }
        y = y + 1;
    }
    proof {
        if srows@.len() > 0 {
            assert(y as int == sgrid.len() - 1 || (sgrid.len() == 0));
        }
        assert(boundaries@.map_values(|b: TableBoundary| b@) =~~= spec_grid_cells(
            sgrid,
            sgrid.len() as int - 1,
        ));
    }
    if boundaries.len() <= 1 {
        return None;
    }
    let tl = if srows.len() > 0 && srows[0].len() > 0 {
        srows[0][0]
    } else {
        (0, 0)
    };
    let last = srows.len() - 1;
    let br = if srows.len() > 0 && srows[last].len() > 0 {
        srows[last][srows[last].len() - 1]
    } else {
        (0, 0)
    };
    proof {
        lemma_sorted_grid_in_range(points@);
        assert(sgrid == spec_table_grid(points@));
        if srows@.len() > 0 {
            assert(srows@.map_values(|v: Vec<(i64, i64)>| v@)[0] == srows@[0]@);
            assert(srows@.map_values(|v: Vec<(i64, i64)>| v@)[last as int] == srows@[last as int]@);
            if srows@[0]@.len() > 0 {
                assert(tl == spec_table_grid(points@)[0][0]);
            }
            if srows@[last as int]@.len() > 0 {
                assert(br == spec_table_grid(points@)[last as int][srows@[last as int]@.len() - 1]);
            }
        }
        assert(in_range(tl.0 as int) && in_range(tl.1 as int));
        assert(in_range(br.0 as int) && in_range(br.1 as int));
    }
    let cx = crate::fixed::tdiv_wide((tl.0 as i128) + (br.0 as i128), 2);
    let cy = crate::fixed::tdiv_wide((tl.1 as i128) + (br.1 as i128), 2);
    proof {
        crate::fixed::lemma_tdiv_bounds(tl.0 as int + br.0 as int, 2);
        crate::fixed::lemma_tdiv_bounds(tl.1 as int + br.1 as int, 2);
    }
    Some(PdfTable { boundaries, x: cx as i64, y: cy as i64 })
}

/// The sorted, row-grouped, row-sorted grid of a point set.
pub open spec fn spec_table_grid(pts: Seq<(i64, i64)>) -> Seq<Seq<(i64, i64)>> {
    spec_grid_rows(spec_sorted_points(pts)).map_values(|row: Seq<(i64, i64)>| spec_sort_row(row))
}

/// Every point of the sorted, row-grouped, row-sorted grid is one of the
/// input points, so it stays in range.
proof fn lemma_sorted_grid_in_range(pts: Seq<(i64, i64)>)
    requires
        points_in_range(pts),
        pts.len() <= usize::MAX,
    ensures
        points_in_range(spec_sorted_points(pts)),
        forall|p: int, q: int|
            0 <= p < spec_table_grid(pts).len() && 0 <= q < spec_table_grid(pts)[p].len()
                ==> in_range((#[trigger] spec_table_grid(pts)[p][q]).0 as int) && in_range(
                spec_table_grid(pts)[p][q].1 as int,
            ),
{
    let sorted = spec_sorted_points(pts);
    let keys = pts.map_values(|p: (i64, i64)| spec_grid_key(p));
    crate::sort::lemma_sort_idx_props(keys, keys.len() as int, true);
    assert(points_in_range(sorted));
    let rows0 = spec_grid_rows(sorted);
    lemma_grid_rows_in_range(sorted, sorted.len() as int);
    assert forall|p: int| 0 <= p < rows0.len() implies points_in_range(#[trigger] rows0[p]) by {}
    let rows = spec_table_grid(pts);
    assert forall|p: int, q: int|
        0 <= p < spec_table_grid(pts).len() && 0 <= q < spec_table_grid(pts)[p].len()
        implies in_range((#[trigger] spec_table_grid(pts)[p][q]).0 as int) && in_range(
        spec_table_grid(pts)[p][q].1 as int,
    ) by {
        let row = rows0[p];
        let rkeys = row.map_values(|pt: (i64, i64)| (pt.0, 0i64));
        crate::sort::lemma_sort_idx_props(rkeys, rkeys.len() as int, true);
        assert(rows[p] == spec_sort_row(row));
        assert(rows[p][q] == row[crate::sort::spec_sort_idx(rkeys, true)[q] as int]);
    }
}

/// Every row the grouping produces consists of input points.
proof fn lemma_grid_rows_in_range(pts: Seq<(i64, i64)>, k: int)
    requires
        points_in_range(pts),
        0 <= k <= pts.len(),
    ensures
        forall|p: int|
            0 <= p < spec_group_grid_rows(pts, k).0.len() ==> points_in_range(
                #[trigger] spec_group_grid_rows(pts, k).0[p],
            ),
        points_in_range(spec_group_grid_rows(pts, k).1),
        spec_group_grid_rows(pts, k).1.len() <= k,
        forall|p: int|
            0 <= p < spec_group_grid_rows(pts, k).0.len() ==> #[trigger] spec_group_grid_rows(
                pts,
                k,
            ).0[p].len() <= k,
        forall|p: int|
            0 <= p < spec_grid_rows(pts).len() && k == pts.len() ==> points_in_range(
                #[trigger] spec_grid_rows(pts)[p],
            ) && spec_grid_rows(pts)[p].len() <= k,
    decreases k,
{
    if k <= 0 {
    } else {
        lemma_grid_rows_in_range(pts, k - 1);
        let (rows, cur) = spec_group_grid_rows(pts, k - 1);
        let pt = pts[k - 1];
        assert(in_range(pts[k - 1].0 as int) && in_range(pts[k - 1].1 as int));
        if cur.len() == 0 {
            assert(points_in_range(seq![pt]));
            assert(spec_group_grid_rows(pts, k).1 == seq![pt]);
            assert(seq![pt].len() == 1);
            assert(spec_group_grid_rows(pts, k).1.len() <= k);
        } else if -3000 <= pt.1 - cur[0].1 <= 3000 {
            assert(points_in_range(cur.push(pt)));
            assert(spec_group_grid_rows(pts, k).1 == cur.push(pt));
            assert(cur.len() <= k - 1);
            assert(spec_group_grid_rows(pts, k).1.len() <= k);
        } else {
            assert(points_in_range(seq![pt]));
            assert(spec_group_grid_rows(pts, k).1 == seq![pt]);
            assert(seq![pt].len() == 1);
            assert(spec_group_grid_rows(pts, k).1.len() <= k);
        }
    }
}

/// A segment with both endpoints saturated into coordinate range.
pub open spec fn spec_clamp_line(l: PdfLine) -> PdfLine {
    PdfLine {
        from: (spec_clamp(l.from.0 as int) as i64, spec_clamp(l.from.1 as int) as i64),
        to: (spec_clamp(l.to.0 as int) as i64, spec_clamp(l.to.1 as int) as i64),
    }
}

pub open spec fn spec_clamp_lines(s: Seq<PdfLine>) -> Seq<PdfLine> {
    s.map_values(|l: PdfLine| spec_clamp_line(l))
}

/// The tables of a page: saturate, deduplicate and cluster the segments,
/// intersect each cluster, and keep every grid with at least two cells.
pub open spec fn spec_tables_of_clusters(clusters: Seq<Seq<PdfLine>>, k: int) -> Seq<TableV>
    decreases k,
{
    if k <= 0 {
        Seq::empty()
    } else {
        let prev = spec_tables_of_clusters(clusters, k - 1);
        let inters = spec_lines_to_intersections(clusters[k - 1]);
        if inters.len() == 0 {
            prev
        } else {
            match spec_intersections_to_table(inters) {
                Some(t) => prev.push(t),
                None => prev,
            }
        }
    }
}

pub open spec fn spec_from_lines(lines: Seq<PdfLine>) -> Seq<TableV> {
    let clusters = spec_cluster_lines(spec_deduplicate_lines(spec_clamp_lines(lines)));
    spec_tables_of_clusters(clusters, clusters.len() as int)
}

proof fn lemma_dedup_in_range(lines: Seq<PdfLine>, k: int)
    requires
        lines_in_range(lines),
        k <= lines.len(),
    ensures
        lines_in_range(spec_dedup_prefix(lines, k)),
    decreases k,
{
    if k <= 0 {
    } else {
        lemma_dedup_in_range(lines, k - 1);
        let prev = spec_dedup_prefix(lines, k - 1);
        if !spec_dup_found(prev, lines[k - 1]) {
            assert(lines_in_range(prev.push(lines[k - 1])));
        }
    }
}

impl PdfTable {
    /// Detects every table formed by the page's ruling lines.
    pub fn from_lines(lines: Vec<PdfLine>) -> (r: Vec<PdfTable>)
        ensures
            r@.map_values(|t: PdfTable| t@) == spec_from_lines(lines@),
    {
        let mut clamped: Vec<PdfLine> = Vec::new();
        let mut i: usize = 0;
        while i < lines.len()
            invariant
                i <= lines@.len(),
                clamped@.len() == i,
                forall|t: int| 0 <= t < i ==> #[trigger] clamped@[t] == spec_clamp_line(lines@[t]),
                lines_in_range(clamped@),
            decreases lines@.len() - i,
        {
            let l = lines[i];
            clamped.push(
                PdfLine {
                    from: (fx_clamp(l.from.0), fx_clamp(l.from.1)),
                    to: (fx_clamp(l.to.0), fx_clamp(l.to.1)),
                },
            );
            i = i + 1;
        }
        proof {
            assert(clamped@ =~= spec_clamp_lines(lines@));
            lemma_dedup_in_range(clamped@, clamped@.len() as int);
        }
        let unique = deduplicate_lines(&clamped);
        let clusters = cluster_lines(&unique);
        let ghost sclusters = spec_cluster_lines(unique@);
        let mut tables: Vec<PdfTable> = Vec::new();
        let mut c: usize = 0;
        proof {
            assert forall|p: int, q: int|
                0 <= p < sclusters.len() && 0 <= q < sclusters[p].len() implies line_in_range(
                #[trigger] sclusters[p][q],
            ) by {
                assert(clusters@.map_values(|g: Vec<PdfLine>| g@)[p] == clusters@[p]@);
                assert(line_in_range(clusters@[p]@[q]));
            }
        }
        while c < clusters.len()
            invariant
                clusters@.map_values(|g: Vec<PdfLine>| g@) == sclusters,
                clusters@.len() == sclusters.len(),
                forall|p: int, q: int|
                    0 <= p < sclusters.len() && 0 <= q < sclusters[p].len() ==> line_in_range(
                        #[trigger] sclusters[p][q],
                    ),
                c <= sclusters.len(),
                tables@.map_values(|t: PdfTable| t@) == spec_tables_of_clusters(
                    sclusters,
                    c as int,
                ),
            decreases clusters@.len() - c,
        {
            proof {
                assert(clusters@.map_values(|g: Vec<PdfLine>| g@)[c as int] == clusters@[c as int]@);
                assert(lines_in_range(clusters@[c as int]@));
            }
            let inters = lines_to_intersections(&clusters[c]);
            if inters.len() > 0 {
                match intersections_to_table(&inters) {
                    Some(t) => {
                        tables.push(t);
                        proof {
                            assert(tables@.map_values(|t: PdfTable| t@) =~~= spec_tables_of_clusters(
                                sclusters,
                                c + 1,
                            ));
                        }
                    },
                    None => {},
                }
            }
            c = c + 1;
        }
        proof {
            assert(sclusters =~= spec_cluster_lines(spec_deduplicate_lines(spec_clamp_lines(
                lines@,
            ))));
        }
        tables
    }
}

/// Whether a run's position lies strictly inside a cell's open rectangle.
pub open spec fn spec_text_inside(b: BoundaryV, t: TextV) -> bool {
    t.x > b.minx && t.x < b.maxx && t.y < b.maxy && t.y > b.miny
}

impl TableBoundary {
    /// Claims the run when it lies strictly inside this cell.
    pub fn assign(&mut self, element: &PdfText) -> (r: bool)
        ensures
            r == spec_text_inside(old(self)@, element@),
            r ==> final(self)@ == (BoundaryV {
                elements: old(self)@.elements.push(element@),
                ..old(self)@
            }),
            !r ==> final(self)@ == old(self)@,
    {
        if element.x > self.minx && element.x < self.maxx && element.y < self.maxy && element.y
            > self.miny {
            self.elements.push(clone_text(element));
            proof {
                assert(texts_view(self.elements@) =~= texts_view(old(self).elements@).push(
                    element@,
                ));
            }
            true
        } else {
            false
        }
    }
}

/// The first cell at or after `i` that claims the run, with the updated
/// cell list.
pub open spec fn spec_assign_from(bs: Seq<BoundaryV>, t: TextV, i: int) -> (Seq<BoundaryV>, bool)
    decreases bs.len() - i,
{
    if i < 0 || i >= bs.len() {
        (bs, false)
    } else if spec_text_inside(bs[i], t) {
        (bs.update(i, BoundaryV { elements: bs[i].elements.push(t), ..bs[i] }), true)
    } else {
        spec_assign_from(bs, t, i + 1)
    }
}

impl PdfTable {
    /// Offers the run to each cell in order; the first cell it lies in
    /// claims it.
    pub fn assign(&mut self, element: &PdfText) -> (r: bool)
        ensures
            final(self)@.boundaries == spec_assign_from(old(self)@.boundaries, element@, 0).0,
            r == spec_assign_from(old(self)@.boundaries, element@, 0).1,
            final(self)@.x == old(self)@.x,
            final(self)@.y == old(self)@.y,
    {
        let ghost bs0 = self@.boundaries;
        let mut i: usize = 0;
        while i < self.boundaries.len()
            invariant
                self@.boundaries == bs0,
                bs0 == old(self)@.boundaries,
                self@.x == old(self)@.x,
                self@.y == old(self)@.y,
                self.boundaries@.len() == bs0.len(),
                i <= bs0.len(),
                spec_assign_from(bs0, element@, 0) == spec_assign_from(bs0, element@, i as int),
            decreases bs0.len() - i,
        {
            let mut b = self.boundaries.remove(i);
            let ghost bv = b@;
            proof {
                assert(bs0[i as int] == bv);
            }
            let hit = b.assign(element);
            self.boundaries.insert(i, b);
            if hit {
                proof {
                    assert(self.boundaries@.map_values(|x: TableBoundary| x@) =~~= bs0.update(
                        i as int,
                        BoundaryV { elements: bs0[i as int].elements.push(element@), ..bs0[i as int] },
                    ));
                }
                return true;
            }
            proof {
                assert(self.boundaries@.map_values(|x: TableBoundary| x@) =~~= bs0);
            }
            i = i + 1;
        }
        false
    }
}

/// Copy of a run list, with the same images.
fn clone_texts(ts: &Vec<PdfText>) -> (r: Vec<PdfText>)
    ensures
        texts_view(r@) == texts_view(ts@),
{
    let mut out: Vec<PdfText> = Vec::new();
    let mut i: usize = 0;
    while i < ts.len()
        invariant
            i <= ts@.len(),
            out@.len() == i,
            forall|t: int| 0 <= t < i ==> #[trigger] out@[t]@ == ts@[t]@,
        decreases ts@.len() - i,
    {
        out.push(clone_text(&ts[i]));
        i = i + 1;
    }
    proof {
        assert(texts_view(out@) =~~= texts_view(ts@));
    }
    out
}

/// Runs ordered top to bottom, left to right within equal heights, stably.
pub open spec fn spec_sort_transform_row(ts: Seq<TextV>) -> Seq<TextV> {
    crate::sort::spec_sort_idx(ts.map_values(|t: TextV| (t.y, t.x)), false).map_values(
        |i: usize| ts[i as int],
    )
}

/// Sorts runs into reading order: descending y, then ascending x, stably.
pub fn sort_transform_row(elements: Vec<PdfText>) -> (r: Vec<PdfText>)
    ensures
        texts_view(r@) == spec_sort_transform_row(texts_view(elements@)),
{
    let mut keys: Vec<(i64, i64)> = Vec::new();
    let mut i: usize = 0;
    while i < elements.len()
        invariant
            i <= elements@.len(),
            keys@.len() == i,
            forall|t: int| 0 <= t < i ==> #[trigger] keys@[t] == (elements@[t]@.y, elements@[t]@.x),
        decreases elements@.len() - i,
    {
        keys.push((elements[i].y, elements[i].x));
        i = i + 1;
    }
    proof {
        assert(keys@ =~= texts_view(elements@).map_values(|t: TextV| (t.y, t.x)));
    }
    let order = crate::sort::sort_indices(&keys, false);
    let mut out: Vec<PdfText> = Vec::new();
    let mut j: usize = 0;
    while j < order.len()
        invariant
            order@.len() <= elements@.len(),
            forall|t: int| 0 <= t < order@.len() ==> #[trigger] order@[t] < elements@.len(),
            j <= order@.len(),
            out@.len() == j,
            forall|t: int| 0 <= t < j ==> #[trigger] out@[t]@ == elements@[order@[t] as int]@,
        decreases order@.len() - j,
    {
        out.push(clone_text(&elements[order[j]]));
        j = j + 1;
    }
    proof {
        assert(texts_view(out@) =~~= spec_sort_transform_row(texts_view(elements@)));
    }
    out
}

impl TableBoundary {
    /// This cell's runs in reading order.
    pub fn get_sorted_elements(self) -> (r: Vec<PdfText>)
        ensures
            texts_view(r@) == spec_sort_transform_row(self@.elements),
    {
        sort_transform_row(self.elements)
    }
}

pub fn clone_boundary(b: &TableBoundary) -> (r: TableBoundary)
    ensures
        r@ == b@,
{
    let r = TableBoundary {
        minx: b.minx,
        maxx: b.maxx,
        miny: b.miny,
        maxy: b.maxy,
        elements: clone_texts(&b.elements),
    };
    proof {
        assert(r@ =~~= b@);
    }
    r
}

pub fn clone_table(t: &PdfTable) -> (r: PdfTable)
    ensures
        r@ == t@,
{
    let mut boundaries: Vec<TableBoundary> = Vec::new();
    let mut i: usize = 0;
    while i < t.boundaries.len()
        invariant
            i <= t.boundaries@.len(),
            boundaries@.len() == i,
            forall|p: int| 0 <= p < i ==> #[trigger] boundaries@[p]@ == t.boundaries@[p]@,
        decreases t.boundaries@.len() - i,
    {
        boundaries.push(clone_boundary(&t.boundaries[i]));
        i = i + 1;
    }
    let r = PdfTable { boundaries, x: t.x, y: t.y };
    proof {
        assert(r@ =~~= t@);
    }
    r
}

fn clone_element(e: &PdfElement) -> (r: PdfElement)
    ensures
        r@ == e@,
{
    match e {
        PdfElement::Text(t) => PdfElement::Text(clone_text(t)),
        PdfElement::Table(t) => PdfElement::Table(clone_table(t)),
    }
}

/// Cell boundaries ordered top row first, left to right within a height.
pub open spec fn spec_sorted_boundaries(bs: Seq<BoundaryV>) -> Seq<BoundaryV> {
    crate::sort::spec_sort_idx(bs.map_values(|b: BoundaryV| (b.miny, b.minx)), false).map_values(
        |i: usize| bs[i as int],
    )
}

/// First existing cell row whose reference height matches the cell, within
/// the 1-unit row tolerance.
pub open spec fn spec_brow_index(rows: Seq<Seq<BoundaryV>>, b: BoundaryV, p: int) -> Option<int>
    decreases rows.len() - p,
{
    if p < 0 || p >= rows.len() {
        None
    } else if rows[p].len() > 0 && -1000 < rows[p][0].miny - b.miny < 1000 {
        Some(p)
    } else {
        spec_brow_index(rows, b, p + 1)
    }
}

/// Groups sorted cells into rows of approximately equal height.
pub open spec fn spec_group_brows(bs: Seq<BoundaryV>, k: int) -> Seq<Seq<BoundaryV>>
    decreases k,
{
    if k <= 0 {
        Seq::empty()
    } else {
        let rows = spec_group_brows(bs, k - 1);
        let b = bs[k - 1];
        match spec_brow_index(rows, b, 0) {
            Some(p) => rows.update(p, rows[p].push(b)),
            None => rows.push(seq![b]),
        }
    }
}

/// One cell row ordered left to right by cell left edge.
pub open spec fn spec_sort_brow(row: Seq<BoundaryV>) -> Seq<BoundaryV> {
    crate::sort::spec_sort_idx(row.map_values(|b: BoundaryV| (b.minx, 0i64)), true).map_values(
        |i: usize| row[i as int],
    )
}

/// The table's cell texts: cells sorted, grouped into rows, each row sorted
/// left to right, each cell's runs in reading order.
pub open spec fn spec_table_sorted_elements(bs: Seq<BoundaryV>) -> Seq<Seq<Seq<TextV>>> {
    let sorted = spec_sorted_boundaries(bs);
    let rows = spec_group_brows(sorted, sorted.len() as int);
    rows.map_values(
        |row: Seq<BoundaryV>|
            spec_sort_brow(row).map_values(
                |cell: BoundaryV| spec_sort_transform_row(cell.elements),
            ),
    )
}

pub open spec fn boundaries_view(bs: Seq<TableBoundary>) -> Seq<BoundaryV> {
    bs.map_values(|b: TableBoundary| b@)
}

fn permute_boundaries(bs: &Vec<TableBoundary>, idx: &Vec<usize>) -> (r: Vec<TableBoundary>)
    requires
        forall|i: int| 0 <= i < idx@.len() ==> #[trigger] idx@[i] < bs@.len(),
    ensures
        boundaries_view(r@) == idx@.map_values(|t: usize| bs@[t as int]@),
{
    let mut out: Vec<TableBoundary> = Vec::new();
    let mut i: usize = 0;
    while i < idx.len()
        invariant
            forall|t: int| 0 <= t < idx@.len() ==> #[trigger] idx@[t] < bs@.len(),
            i <= idx@.len(),
            out@.len() == i,
            forall|t: int| 0 <= t < i ==> #[trigger] out@[t]@ == bs@[idx@[t] as int]@,
        decreases idx@.len() - i,
    {
        out.push(clone_boundary(&bs[idx[i]]));
        i = i + 1;
    }
    proof {
        assert(boundaries_view(out@) =~= idx@.map_values(|t: usize| bs@[t as int]@));
    }
    out
}

impl PdfTable {
    /// Sorts this table's cells into reading order and returns, per cell
    /// row, each cell's runs in reading order.
    pub fn get_sorted_elements(&mut self) -> (r: Vec<Vec<Vec<PdfText>>>)
        ensures
            final(self)@.boundaries == spec_sorted_boundaries(old(self)@.boundaries),
            final(self)@.x == old(self)@.x,
            final(self)@.y == old(self)@.y,
            r@.map_values(
                |row: Vec<Vec<PdfText>>|
                    row@.map_values(|cell: Vec<PdfText>| texts_view(cell@)),
            ) == spec_table_sorted_elements(old(self)@.boundaries),
    {
        let ghost bs0 = self@.boundaries;
        let mut keys: Vec<(i64, i64)> = Vec::new();
        let mut i: usize = 0;
        while i < self.boundaries.len()
            invariant
                self@.boundaries == bs0,
                bs0 == old(self)@.boundaries,
                self@.x == old(self)@.x,
                self@.y == old(self)@.y,
                i <= self.boundaries@.len(),
                self.boundaries@.len() == bs0.len(),
                keys@.len() == i,
                forall|t: int| 0 <= t < i ==> #[trigger] keys@[t] == (bs0[t].miny, bs0[t].minx),
            decreases self.boundaries@.len() - i,
        {
            keys.push((self.boundaries[i].miny, self.boundaries[i].minx));
            proof {
                assert(self.boundaries@.map_values(|b: TableBoundary| b@)[i as int]
                    == self.boundaries@[i as int]@);
            }
            i = i + 1;
        }
        proof {
            assert(keys@ =~= bs0.map_values(|b: BoundaryV| (b.miny, b.minx)));
        }
        let order = crate::sort::sort_indices(&keys, false);
        let sorted = permute_boundaries(&self.boundaries, &order);
        self.boundaries = sorted;
        let ghost sbs = spec_sorted_boundaries(bs0);
        proof {
            assert(self@.boundaries =~= sbs);
        }
        let mut rows: Vec<Vec<TableBoundary>> = Vec::new();
        let mut k: usize = 0;
        proof {
            assert(rows@.map_values(|row: Vec<TableBoundary>| boundaries_view(row@))
                =~= spec_group_brows(sbs, 0));
        }
        while k < self.boundaries.len()
            invariant
                self@.boundaries == sbs,
                bs0 == old(self)@.boundaries,
                sbs == spec_sorted_boundaries(bs0),
                self@.x == old(self)@.x,
                self@.y == old(self)@.y,
                self.boundaries@.len() == sbs.len(),
                k <= sbs.len(),
                rows@.map_values(|row: Vec<TableBoundary>| boundaries_view(row@))
                    == spec_group_brows(sbs, k as int),
            decreases sbs.len() - k,
        {
            let ghost rowsv = spec_group_brows(sbs, k as int);
            let b = clone_boundary(&self.boundaries[k]);
            proof {
                assert(self.boundaries@.map_values(|x: TableBoundary| x@)[k as int]
                    == self.boundaries@[k as int]@);
                assert(b@ == sbs[k as int]);
            }
            let mut p: usize = 0;
            let mut found = false;
            while p < rows.len() && !found
                invariant
                    rows@.map_values(|row: Vec<TableBoundary>| boundaries_view(row@)) == rowsv,
                    rows@.len() == rowsv.len(),
                    p <= rowsv.len(),
                    found ==> p < rowsv.len() && spec_brow_index(rowsv, b@, 0) == Some(p as int),
                    !found ==> spec_brow_index(rowsv, b@, 0) == spec_brow_index(
                        rowsv,
                        b@,
                        p as int,
                    ),
                decreases rowsv.len() - p, (if found { 0int } else { 1int }),
            {
                proof {
                    assert(rows@.map_values(|row: Vec<TableBoundary>| boundaries_view(row@))[
                        p as int] == boundaries_view(rows@[p as int]@));
                }
                let row = &rows[p];
                if row.len() > 0 {
                    let d = (row[0].miny as i128) - (b.miny as i128);
                    proof {
                        assert(boundaries_view(rows@[p as int]@)[0] == rows@[p as int]@[0]@);
                    }
                    if -1000 < d && d < 1000 {
                        found = true;
                    } else {
                        p = p + 1;
                    }
                } else {
                    p = p + 1;
                }
            }
            if found {
                let mut member = rows.remove(p);
                member.push(b);
                rows.insert(p, member);
                proof {
                    assert(rows@.map_values(|row: Vec<TableBoundary>| boundaries_view(row@))
                        =~~= spec_group_brows(sbs, k + 1));
                }
            } else {
                let mut single: Vec<TableBoundary> = Vec::new();
                single.push(b);
                rows.push(single);
                proof {
                    assert(rows@.map_values(|row: Vec<TableBoundary>| boundaries_view(row@))
                        =~~= spec_group_brows(sbs, k + 1));
                }
            }
            k = k + 1;
        }
        let ghost growsv = spec_group_brows(sbs, sbs.len() as int);
        let mut out: Vec<Vec<Vec<PdfText>>> = Vec::new();
        let mut t: usize = 0;
        while t < rows.len()
            invariant
                rows@.map_values(|row: Vec<TableBoundary>| boundaries_view(row@)) == growsv,
                rows@.len() == growsv.len(),
                t <= growsv.len(),
                out@.len() == t,
                forall|s: int|
                    0 <= s < t ==> (#[trigger] out@[s])@.map_values(
                        |cell: Vec<PdfText>| texts_view(cell@),
                    ) == spec_sort_brow(growsv[s]).map_values(
                        |cell: BoundaryV| spec_sort_transform_row(cell.elements),
                    ),
            decreases growsv.len() - t,
        {
            proof {
                assert(rows@.map_values(|row: Vec<TableBoundary>| boundaries_view(row@))[t as int]
                    == boundaries_view(rows@[t as int]@));
            }
            let row = &rows[t];
            let mut rkeys: Vec<(i64, i64)> = Vec::new();
            let mut u: usize = 0;
            while u < row.len()
                invariant
                    u <= row@.len(),
                    rkeys@.len() == u,
                    forall|s: int| 0 <= s < u ==> #[trigger] rkeys@[s] == (row@[s]@.minx, 0i64),
                decreases row@.len() - u,
            {
                rkeys.push((row[u].minx, 0));
                proof {
                    assert(boundaries_view(row@)[u as int] == row@[u as int]@);
                }
                u = u + 1;
            }
            proof {
                assert(rkeys@ =~= boundaries_view(row@).map_values(
                    |b: BoundaryV| (b.minx, 0i64),
                ));
            }
            let rorder = crate::sort::sort_indices(&rkeys, true);
            let mut cells: Vec<Vec<PdfText>> = Vec::new();
            let mut c: usize = 0;
            while c < rorder.len()
                invariant
                    forall|s: int| 0 <= s < rorder@.len() ==> #[trigger] rorder@[s] < row@.len(),
                    c <= rorder@.len(),
                    cells@.len() == c,
                    forall|s: int|
                        0 <= s < c ==> #[trigger] texts_view(cells@[s]@)
                            == spec_sort_transform_row(row@[rorder@[s] as int]@.elements),
                decreases rorder@.len() - c,
            {
                let cell = clone_boundary(&row[rorder[c]]);
                let sorted_cell = cell.get_sorted_elements();
                cells.push(sorted_cell);
                c = c + 1;
            }
            proof {
                assert(cells@.map_values(|cell: Vec<PdfText>| texts_view(cell@))
                    =~~= spec_sort_brow(boundaries_view(row@)).map_values(
                    |cell: BoundaryV| spec_sort_transform_row(cell.elements),
                ));
            }
            out.push(cells);
            t = t + 1;
        }
        proof {
            assert(out@.map_values(
                |row: Vec<Vec<PdfText>>| row@.map_values(|cell: Vec<PdfText>| texts_view(cell@)),
            ) =~~= spec_table_sorted_elements(bs0));
        }
        out
    }
}

pub open spec fn spec_ev_y(e: ElementV) -> i64 {
    match e {
        ElementV::Text(t) => t.y,
        ElementV::Table(t) => t.y,
    }
}

pub open spec fn spec_ev_x(e: ElementV) -> i64 {
    match e {
        ElementV::Text(t) => t.x,
        ElementV::Table(t) => t.x,
    }
}

/// Elements in reading order: descending y, then ascending x, stably.
pub open spec fn spec_sort_elements(es: Seq<ElementV>) -> Seq<ElementV> {
    crate::sort::spec_sort_idx(
        es.map_values(|e: ElementV| (spec_ev_y(e), spec_ev_x(e))),
        false,
    ).map_values(|i: usize| es[i as int])
}

/// Sorts a row's elements into reading order in place.
pub fn sort_transform_elements(elements: &mut Vec<PdfElement>)
    ensures
        elements_view(final(elements)@) == spec_sort_elements(elements_view(old(elements)@)),
{
    let ghost ev0 = elements_view(elements@);
    let mut keys: Vec<(i64, i64)> = Vec::new();
    let mut i: usize = 0;
    while i < elements.len()
        invariant
            elements_view(elements@) == ev0,
            elements@.len() == ev0.len(),
            i <= ev0.len(),
            keys@.len() == i,
            forall|t: int|
                0 <= t < i ==> #[trigger] keys@[t] == (spec_ev_y(ev0[t]), spec_ev_x(ev0[t])),
        decreases ev0.len() - i,
    {
        let y = elements[i].get_y();
        let x = elements[i].get_x();
        proof {
            assert(elements@.map_values(|e: PdfElement| e@)[i as int] == elements@[i as int]@);
        }
        keys.push((y, x));
        i = i + 1;
    }
    proof {
        assert(keys@ =~= ev0.map_values(|e: ElementV| (spec_ev_y(e), spec_ev_x(e))));
    }
    let order = crate::sort::sort_indices(&keys, false);
    let mut out: Vec<PdfElement> = Vec::new();
    let mut j: usize = 0;
    while j < order.len()
        invariant
            elements_view(elements@) == ev0,
            elements@.len() == ev0.len(),
            forall|t: int| 0 <= t < order@.len() ==> #[trigger] order@[t] < ev0.len(),
            j <= order@.len(),
            out@.len() == j,
            forall|t: int| 0 <= t < j ==> #[trigger] out@[t]@ == ev0[order@[t] as int],
        decreases order@.len() - j,
    {
        out.push(clone_element(&elements[order[j]]));
        proof {
            assert(elements@.map_values(|e: PdfElement| e@)[order@[j as int] as int]
                == elements@[order@[j as int] as int]@);
        }
        j = j + 1;
    }
    *elements = out;
    proof {
        assert(elements_view(elements@) =~= spec_sort_elements(ev0));
    }
}

pub open spec fn spec_texts_of(units: Seq<UnitV>, k: int) -> Seq<TextV>
    decreases k,
{
    if k <= 0 {
        Seq::empty()
    } else {
        let prev = spec_texts_of(units, k - 1);
        match units[k - 1] {
            UnitV::Text(t) => prev.push(t),
            UnitV::Line(_) => prev,
        }
    }
}

pub open spec fn spec_lines_of(units: Seq<UnitV>, k: int) -> Seq<PdfLine>
    decreases k,
{
    if k <= 0 {
        Seq::empty()
    } else {
        let prev = spec_lines_of(units, k - 1);
        match units[k - 1] {
            UnitV::Text(_) => prev,
            UnitV::Line(l) => prev.push(l),
        }
    }
}

/// Offers a run to every table at or after `j`, in order; each table's
/// first containing cell claims a copy.  True when any table claimed it.
pub open spec fn spec_offer_tables(tables: Seq<TableV>, t: TextV, j: int) -> (Seq<TableV>, bool)
    decreases tables.len() - j,
{
    if j < 0 || j >= tables.len() {
        (tables, false)
    } else {
        let (nbs, hit) = spec_assign_from(tables[j].boundaries, t, 0);
        let tables2 = tables.update(j, TableV { boundaries: nbs, ..tables[j] });
        let (rest, any) = spec_offer_tables(tables2, t, j + 1);
        (rest, hit || any)
    }
}

/// Distributes the first `k` runs over the tables; runs no table claims
/// are kept as free-flowing text.
pub open spec fn spec_distribute(tables: Seq<TableV>, texts: Seq<TextV>, k: int) -> (
    Seq<TableV>,
    Seq<TextV>,
)
    decreases k,
{
    if k <= 0 {
        (tables, Seq::empty())
    } else {
        let (tb, kept) = spec_distribute(tables, texts, k - 1);
        let (tb2, hit) = spec_offer_tables(tb, texts[k - 1], 0);
        (
            tb2,
            if hit {
                kept
            } else {
                kept.push(texts[k - 1])
            },
        )
    }
}

/// Splits the interpreter's units into free text and detected tables: the
/// page's line segments become tables, and each run either joins a table
/// cell or stays a free element.
pub open spec fn spec_units_to_elements(units: Seq<UnitV>) -> Seq<ElementV> {
    let texts = spec_texts_of(units, units.len() as int);
    let lines = spec_lines_of(units, units.len() as int);
    let tables0 = spec_from_lines(lines);
    let (tables, kept) = spec_distribute(tables0, texts, texts.len() as int);
    kept.map_values(|t: TextV| ElementV::Text(t)) + tables.map_values(
        |t: TableV| ElementV::Table(t),
    )
}

pub open spec fn tables_view(ts: Seq<PdfTable>) -> Seq<TableV> {
    ts.map_values(|t: PdfTable| t@)
}

/// Turns raw units into layout elements: detects tables from the line
/// segments and assigns runs to table cells.
pub fn units_to_elements(units: Vec<PdfUnit>) -> (r: Vec<PdfElement>)
    ensures
        elements_view(r@) == spec_units_to_elements(units_view(units@)),
{
    let ghost uv = units_view(units@);
    let mut texts: Vec<PdfText> = Vec::new();
    let mut lines: Vec<PdfLine> = Vec::new();
    let mut i: usize = 0;
    while i < units.len()
        invariant
            uv == units_view(units@),
            units@.len() == uv.len(),
            i <= uv.len(),
            texts_view(texts@) == spec_texts_of(uv, i as int),
            lines@ == spec_lines_of(uv, i as int),
        decreases uv.len() - i,
    {
        proof {
            assert(units@.map_values(|u: PdfUnit| u@)[i as int] == units@[i as int]@);
        }
        match &units[i] {
            PdfUnit::Text(t) => {
                texts.push(clone_text(t));
                proof {
                    assert(texts_view(texts@) =~= spec_texts_of(uv, i + 1));
                }
            },
            PdfUnit::Line(l) => {
                lines.push(*l);
            },
        }
        i = i + 1;
    }
    let mut tables = PdfTable::from_lines(lines);
    let ghost tables0 = spec_from_lines(spec_lines_of(uv, uv.len() as int));
    proof {
        assert(tables_view(tables@) == tables0);
    }
    let ghost stexts = spec_texts_of(uv, uv.len() as int);
    let mut new_texts: Vec<PdfText> = Vec::new();
    let mut k: usize = 0;
    while k < texts.len()
        invariant
            texts_view(texts@) == stexts,
            texts@.len() == stexts.len(),
            k <= stexts.len(),
            tables_view(tables@) == spec_distribute(tables0, stexts, k as int).0,
            tables@.len() == tables0.len(),
            texts_view(new_texts@) == spec_distribute(tables0, stexts, k as int).1,
        decreases stexts.len() - k,
    {
        let text = clone_text(&texts[k]);
        proof {
            assert(texts@.map_values(|t: PdfText| t@)[k as int] == texts@[k as int]@);
        }
        let ghost tb_in = tables_view(tables@);
        let mut assigned = false;
        let mut ti: usize = 0;
        while ti < tables.len()
            invariant
                text@ == stexts[k as int],
                tables@.len() == tb_in.len(),
                ti <= tb_in.len(),
                spec_offer_tables(tb_in, text@, 0).0 == spec_offer_tables(
                    tables_view(tables@),
                    text@,
                    ti as int,
                ).0,
                spec_offer_tables(tb_in, text@, 0).1 == (assigned || spec_offer_tables(
                    tables_view(tables@),
                    text@,
                    ti as int,
                ).1),
            decreases tb_in.len() - ti,
        {
            let ghost tv_cur = tables_view(tables@);
            let mut tb = tables.remove(ti);
            let ghost tbv = tb@;
            proof {
                assert(tv_cur[ti as int] == tbv);
            }
            let hit = tb.assign(&text);
            tables.insert(ti, tb);
            if hit {
                assigned = true;
            }
            proof {
                assert(tables_view(tables@) =~~= tv_cur.update(
                    ti as int,
                    TableV {
                        boundaries: spec_assign_from(tbv.boundaries, text@, 0).0,
                        ..tv_cur[ti as int]
                    },
                ));
            }
            ti = ti + 1;
        }
        if !assigned {
            new_texts.push(text);
            proof {
                assert(texts_view(new_texts@) =~= spec_distribute(tables0, stexts, k + 1).1);
            }
        }
        k = k + 1;
    }
    let mut elements: Vec<PdfElement> = Vec::new();
    let mut a: usize = 0;
    let ghost skept = spec_distribute(tables0, stexts, stexts.len() as int).1;
    let ghost stables = spec_distribute(tables0, stexts, stexts.len() as int).0;
    while a < new_texts.len()
        invariant
            texts_view(new_texts@) == skept,
            new_texts@.len() == skept.len(),
            a <= skept.len(),
            elements@.len() == a,
            forall|t: int| 0 <= t < a ==> #[trigger] elements@[t]@ == ElementV::Text(skept[t]),
        decreases skept.len() - a,
    {
        proof {
            assert(new_texts@.map_values(|t: PdfText| t@)[a as int] == new_texts@[a as int]@);
        }
        elements.push(PdfElement::Text(clone_text(&new_texts[a])));
        a = a + 1;
    }
    let mut b: usize = 0;
    while b < tables.len()
        invariant
            tables_view(tables@) == stables,
            tables@.len() == stables.len(),
            b <= stables.len(),
            elements@.len() == skept.len() + b,
            forall|t: int|
                0 <= t < skept.len() ==> #[trigger] elements@[t]@ == ElementV::Text(skept[t]),
            forall|t: int|
                0 <= t < b ==> #[trigger] elements@[skept.len() + t]@ == ElementV::Table(
                    stables[t],
                ),
        decreases stables.len() - b,
    {
        proof {
            assert(tables@.map_values(|t: PdfTable| t@)[b as int] == tables@[b as int]@);
        }
        elements.push(PdfElement::Table(clone_table(&tables[b])));
        b = b + 1;
    }
    proof {
        let rhs = spec_units_to_elements(uv);
        assert(rhs == skept.map_values(|t: TextV| ElementV::Text(t)) + stables.map_values(
            |t: TableV| ElementV::Table(t),
        ));
        assert(rhs.len() == skept.len() + stables.len());
        assert forall|t: int| 0 <= t < rhs.len() implies elements_view(elements@)[t] == rhs[t] by {
            assert(elements_view(elements@)[t] == elements@[t]@);
            if t < skept.len() {
                assert(rhs[t] == skept.map_values(|x: TextV| ElementV::Text(x))[t]);
                assert(rhs[t] == ElementV::Text(skept[t]));
            } else {
                assert(rhs[t] == stables.map_values(|x: TableV| ElementV::Table(x))[t
                    - skept.len()]);
                assert(rhs[t] == ElementV::Table(stables[t - skept.len()]));
                let j = t - skept.len();
                assert(elements@[skept.len() + j]@ == ElementV::Table(stables[j]));
                assert(elements@[t]@ == ElementV::Table(stables[t - skept.len()]));
            }
        }
        assert(elements_view(elements@) =~~= rhs);
    }
    elements
}

/// Elements sorted by descending y alone, stably (row grouping happens
/// next, so x order within a row is settled later).
pub open spec fn spec_sort_by_y(es: Seq<ElementV>) -> Seq<ElementV> {
    crate::sort::spec_sort_idx(
        es.map_values(|e: ElementV| (spec_ev_y(e), 0i64)),
        false,
    ).map_values(|i: usize| es[i as int])
}

/// Groups the sorted elements into rows: the reference height moves only
/// when an element leaves the 1-unit band around it.
pub open spec fn spec_group_element_rows(es: Seq<ElementV>, k: int) -> (
    Seq<Seq<ElementV>>,
    Seq<ElementV>,
    i64,
)
    decreases k,
{
    if k <= 0 {
        (
            Seq::empty(),
            Seq::empty(),
            if es.len() > 0 {
                spec_ev_y(es[0])
            } else {
                0
            },
        )
    } else {
        let (rows, cur, cy) = spec_group_element_rows(es, k - 1);
        let e = es[k - 1];
        let d = cy - spec_ev_y(e);
        if d > 1000 || d < -1000 {
            let rows2 = if cur.len() > 0 {
                rows.push(cur)
            } else {
                rows
            };
            (rows2, Seq::empty().push(e), spec_ev_y(e))
        } else {
            (rows, cur.push(e), cy)
        }
    }
}

pub open spec fn spec_element_rows(es: Seq<ElementV>) -> Seq<Seq<ElementV>> {
    let (rows, cur, _cy) = spec_group_element_rows(es, es.len() as int);
    if cur.len() > 0 {
        rows.push(cur)
    } else {
        rows
    }
}

/// A row's representative height: the greatest element y.
pub open spec fn spec_row_height(row: Seq<ElementV>, k: int) -> int
    decreases k,
{
    if k <= 0 {
        i64::MIN as int
    } else {
        let prev = spec_row_height(row, k - 1);
        if spec_ev_y(row[k - 1]) as int >= prev {
            spec_ev_y(row[k - 1]) as int
        } else {
            prev
        }
    }
}

pub open spec fn spec_row_gaps(rows: Seq<Seq<ElementV>>) -> Seq<int> {
    Seq::new(
        (rows.len() - 1) as nat,
        |i: int|
            spec_row_height(rows[i], rows[i].len() as int) - spec_row_height(
                rows[i + 1],
                rows[i + 1].len() as int,
            ),
    )
}

/// Rows with spacer rows inserted: after the first row when its gap
/// exceeds 20 units, and after any row whose following gap exceeds 1.3
/// times the gap before it.
pub open spec fn spec_insert_spacers(rows: Seq<Seq<ElementV>>, gaps: Seq<int>, k: int) -> Seq<
    Seq<ElementV>,
>
    decreases k,
{
    if k <= 0 {
        Seq::empty()
    } else {
        let prev = spec_insert_spacers(rows, gaps, k - 1);
        let i = k - 1;
        let withrow = prev.push(rows[i]);
        let with0 = if i == 0 && gaps[0] > 20_000 {
            withrow.push(Seq::empty())
        } else {
            withrow
        };
        if i > 0 && i < gaps.len() && 10 * gaps[i] > 13 * gaps[i - 1] {
            with0.push(Seq::empty())
        } else {
            with0
        }
    }
}

/// Reading-order rows with paragraph spacers: sort by descending y, group
/// into rows, and insert spacer rows at section breaks.
pub open spec fn spec_elements_into_matrix(es: Seq<ElementV>) -> Seq<Seq<ElementV>> {
    if es.len() == 0 {
        Seq::empty()
    } else {
        let rows = spec_element_rows(spec_sort_by_y(es));
        let gaps = spec_row_gaps(rows);
        if gaps.len() == 0 {
            rows
        } else {
            spec_insert_spacers(rows, gaps, rows.len() as int)
        }
    }
}

pub open spec fn matrix_view(m: Seq<Vec<PdfElement>>) -> Seq<Seq<ElementV>> {
    m.map_values(|row: Vec<PdfElement>| elements_view(row@))
}

/// Splits elements into rows of approximately equal height, top first, and
/// inserts an empty spacer row at each detected section break.
pub fn elements_into_matrix(elements: Vec<PdfElement>) -> (r: Vec<Vec<PdfElement>>)
    ensures
        matrix_view(r@) == spec_elements_into_matrix(elements_view(elements@)),
{
    let ghost ev0 = elements_view(elements@);
    if elements.len() == 0 {
        proof {
            assert(matrix_view(Seq::empty()) =~= spec_elements_into_matrix(ev0));
        }
        return Vec::new();
    }
    let mut sorted = elements;
    let mut keys: Vec<(i64, i64)> = Vec::new();
    let mut i: usize = 0;
    while i < sorted.len()
        invariant
            elements_view(sorted@) == ev0,
            sorted@.len() == ev0.len(),
            i <= ev0.len(),
            keys@.len() == i,
            forall|t: int| 0 <= t < i ==> #[trigger] keys@[t] == (spec_ev_y(ev0[t]), 0i64),
        decreases ev0.len() - i,
    {
        let y = sorted[i].get_y();
        proof {
            assert(sorted@.map_values(|e: PdfElement| e@)[i as int] == sorted@[i as int]@);
        }
        keys.push((y, 0));
        i = i + 1;
    }
    proof {
        assert(keys@ =~= ev0.map_values(|e: ElementV| (spec_ev_y(e), 0i64)));
    }
    let order = crate::sort::sort_indices(&keys, false);
    let mut ordered: Vec<PdfElement> = Vec::new();
    let mut j: usize = 0;
    while j < order.len()
        invariant
            elements_view(sorted@) == ev0,
            sorted@.len() == ev0.len(),
            forall|t: int| 0 <= t < order@.len() ==> #[trigger] order@[t] < ev0.len(),
            j <= order@.len(),
            ordered@.len() == j,
            forall|t: int| 0 <= t < j ==> #[trigger] ordered@[t]@ == ev0[order@[t] as int],
        decreases order@.len() - j,
    {
        ordered.push(clone_element(&sorted[order[j]]));
        proof {
            assert(sorted@.map_values(|e: PdfElement| e@)[order@[j as int] as int]
                == sorted@[order@[j as int] as int]@);
        }
        j = j + 1;
    }
    let ghost sev = spec_sort_by_y(ev0);
    proof {
        assert(elements_view(ordered@) =~= sev);
        assert(sev.len() == ev0.len());
    }
    let mut rows: Vec<Vec<PdfElement>> = Vec::new();
    let mut cur: Vec<PdfElement> = Vec::new();
    let mut cy: i64 = ordered[0].get_y();
    proof {
        assert(elements_view(ordered@)[0] == ordered@[0]@);
        assert(cy == spec_group_element_rows(sev, 0).2);
    }
    let mut k: usize = 0;
    while k < ordered.len()
        invariant
            elements_view(ordered@) == sev,
            ordered@.len() == sev.len(),
            k <= sev.len(),
            matrix_view(rows@) == spec_group_element_rows(sev, k as int).0,
            elements_view(cur@) == spec_group_element_rows(sev, k as int).1,
            cy == spec_group_element_rows(sev, k as int).2,
        decreases sev.len() - k,
    {
        let e = clone_element(&ordered[k]);
        proof {
            assert(elements_view(ordered@)[k as int] == ordered@[k as int]@);
        }
        let ey = e.get_y();
        let d = (cy as i128) - (ey as i128);
        if d > 1000 || d < -1000 {
            if cur.len() > 0 {
                rows.push(cur);
                cur = Vec::new();
            }
            cur.push(e);
            cy = ey;
            proof {
                assert(matrix_view(rows@) =~~= spec_group_element_rows(sev, k + 1).0);
                assert(elements_view(cur@) =~= spec_group_element_rows(sev, k + 1).1);
            }
        } else {
            cur.push(e);
            proof {
                assert(elements_view(cur@) =~= spec_group_element_rows(sev, k + 1).1);
            }
        }
        k = k + 1;
    }
    if cur.len() > 0 {
        rows.push(cur);
    }
    let ghost srows = spec_element_rows(sev);
    proof {
        assert(matrix_view(rows@) =~~= srows);
    }
    let mut heights: Vec<i64> = Vec::new();
    let mut t: usize = 0;
    while t < rows.len()
        invariant
            matrix_view(rows@) == srows,
            rows@.len() == srows.len(),
            t <= srows.len(),
            heights@.len() == t,
            forall|p: int|
                0 <= p < t ==> #[trigger] heights@[p] as int == spec_row_height(
                    srows[p],
                    srows[p].len() as int,
                ),
        decreases srows.len() - t,
    {
        proof {
            assert(matrix_view(rows@)[t as int] == elements_view(rows@[t as int]@));
        }
        let row = &rows[t];
        let mut h: i64 = i64::MIN;
        let mut u: usize = 0;
        while u < row.len()
            invariant
                elements_view(row@) == srows[t as int],
                row@.len() == srows[t as int].len(),
                u <= row@.len(),
                h as int == spec_row_height(srows[t as int], u as int),
            decreases row@.len() - u,
        {
            let y = row[u].get_y();
            proof {
                assert(elements_view(row@)[u as int] == row@[u as int]@);
            }
            if y >= h {
                h = y;
            }
            u = u + 1;
        }
        heights.push(h);
        t = t + 1;
    }
    if rows.len() <= 1 {
        proof {
            assert(spec_row_gaps(srows).len() == 0);
        }
        return rows;
    }
    let ghost gaps = spec_row_gaps(srows);
    let mut out: Vec<Vec<PdfElement>> = Vec::new();
    let mut w: usize = 0;
    while w < rows.len()
        invariant
            matrix_view(rows@) == srows,
            rows@.len() == srows.len(),
            srows.len() > 1,
            heights@.len() == srows.len(),
            forall|p: int|
                0 <= p < srows.len() ==> #[trigger] heights@[p] as int == spec_row_height(
                    srows[p],
                    srows[p].len() as int,
                ),
            gaps == spec_row_gaps(srows),
            gaps.len() == srows.len() - 1,
            w <= srows.len(),
            matrix_view(out@) == spec_insert_spacers(srows, gaps, w as int),
        decreases srows.len() - w,
    {
        let ghost out0 = matrix_view(out@);
        let mut row: Vec<PdfElement> = Vec::new();
        let mut c: usize = 0;
        let rlen = rows[w].len();
        while c < rlen
            invariant
                matrix_view(rows@) == srows,
                rows@.len() == srows.len(),
                w < srows.len(),
                rlen == rows@[w as int]@.len(),
                c <= rlen,
                row@.len() == c,
                forall|p: int| 0 <= p < c ==> #[trigger] row@[p]@ == srows[w as int][p],
            decreases rlen - c,
        {
            row.push(clone_element(&rows[w][c]));
            proof {
                assert(matrix_view(rows@)[w as int] == elements_view(rows@[w as int]@));
                assert(elements_view(rows@[w as int]@)[c as int] == rows@[w as int]@[c as int]@);
            }
            c = c + 1;
        }
        proof {
            assert(elements_view(row@) =~= srows[w as int]);
        }
        out.push(row);
        if w == 0 {
            let gap0 = (heights[0] as i128) - (heights[1] as i128);
            proof {
                assert(gaps[0] == spec_row_height(srows[0], srows[0].len() as int)
                    - spec_row_height(srows[1], srows[1].len() as int));
            }
            if gap0 > 20_000 {
                out.push(Vec::new());
            }
        } else if w < rows.len() - 1 {
            let prev_gap = (heights[w - 1] as i128) - (heights[w] as i128);
            let curr_gap = (heights[w] as i128) - (heights[w + 1] as i128);
            proof {
                assert(gaps[w as int] == spec_row_height(srows[w as int], srows[w as int].len() as int)
                    - spec_row_height(srows[w + 1], srows[w + 1].len() as int));
                assert(gaps[w - 1] == spec_row_height(
                    srows[w - 1],
                    srows[w - 1].len() as int,
                ) - spec_row_height(srows[w as int], srows[w as int].len() as int));
            }
            if 10 * curr_gap > 13 * prev_gap {
                out.push(Vec::new());
            }
        }
        proof {
            assert(matrix_view(out@) =~~= spec_insert_spacers(srows, gaps, w + 1));
        }
        w = w + 1;
    }
    proof {
        assert(matrix_view(out@) == spec_elements_into_matrix(ev0));
    }
    out
}

/// The full layout pass: units into elements, elements into spaced rows,
/// each row sorted into reading order.
pub open spec fn spec_pdf_units_to_elements(units: Seq<UnitV>) -> Seq<Seq<ElementV>> {
    spec_elements_into_matrix(spec_units_to_elements(units)).map_values(
        |row: Seq<ElementV>| spec_sort_elements(row),
    )
}

/// Lays out one page's units as rows of elements in reading order.
pub fn pdf_units_to_elements(units: Vec<PdfUnit>) -> (r: Vec<Vec<PdfElement>>)
    ensures
        matrix_view(r@) == spec_pdf_units_to_elements(units_view(units@)),
{
    let elements = units_to_elements(units);
    let mut matrix = elements_into_matrix(elements);
    let ghost m0 = matrix_view(matrix@);
    let mut i: usize = 0;
    while i < matrix.len()
        invariant
            matrix@.len() == m0.len(),
            i <= m0.len(),
            forall|p: int|
                i <= p < m0.len() ==> #[trigger] elements_view(matrix@[p]@) == m0[p],
            forall|p: int|
                0 <= p < i ==> #[trigger] elements_view(matrix@[p]@) == spec_sort_elements(m0[p]),
        decreases m0.len() - i,
    {
        let mut row = matrix.remove(i);
        sort_transform_elements(&mut row);
        matrix.insert(i, row);
        i = i + 1;
    }
    proof {
        assert(matrix_view(matrix@) =~~= spec_pdf_units_to_elements(units_view(units@)));
    }
    matrix
}

} // verus!

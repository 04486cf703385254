//! The markdown renderer and the page-by-page driver.
//!
//! Headings are classified by each run's font size relative to the page's
//! median font size; runs pick up inline code, bold, italic and underline
//! markup; detected tables become pipe tables; pages are separated by a
//! marker comment line.  All output is UTF-8 bytes.

use crate::bytes::{bytes_contain, clone_bytes, push_bytes, remove_all, spec_contains, spec_lower,
    spec_remove_all, spec_trim, to_lowercase, trim_bytes};
use crate::fixed::{tdiv, tdiv_wide};
use crate::pdf_element::{clone_table, elements_view, matrix_view, texts_view, units_view,
    ElementV, PdfElement, PdfTable, PdfText, PdfUnit, TableV, TextV, UnitV};
use crate::pdf_page::{errs_view, spec_stream, ErrV, OperatorError, PageInput, PdfCursor, PdfPage};
use vstd::prelude::*;

verus! {

broadcast use vstd::std_specs::vec::group_vec_axioms, vstd::seq::group_seq_axioms;

/// The median of the values: middle element of the sorted list, the two
/// middles averaged (truncating) for even counts, nothing for no values.
pub open spec fn spec_median(values: Seq<i64>) -> Option<i64> {
    if values.len() == 0 {
        None
    } else {
        let sorted = crate::sort::spec_sort_idx(
            values.map_values(|v: i64| (v, 0i64)),
            true,
        ).map_values(|i: usize| values[i as int]);
        let n = sorted.len() as int;
        if n % 2 == 1 {
            Some(sorted[n / 2])
        } else {
            Some(tdiv(sorted[n / 2 - 1] as int + sorted[n / 2] as int, 2) as i64)
        }
    }
}

/// The median font size of a page's runs.
pub fn median(values: Vec<i64>) -> (r: Option<i64>)
    ensures
        r == spec_median(values@),
{
    if values.len() == 0 {
        return None;
    }
    let mut keys: Vec<(i64, i64)> = Vec::new();
    let mut i: usize = 0;
    while i < values.len()
        invariant
            i <= values@.len(),
            keys@.len() == i,
            forall|t: int| 0 <= t < i ==> #[trigger] keys@[t] == (values@[t], 0i64),
        decreases values@.len() - i,
    {
        keys.push((values[i], 0));
        i = i + 1;
    }
    proof {
        assert(keys@ =~= values@.map_values(|v: i64| (v, 0i64)));
    }
    let order = crate::sort::sort_indices(&keys, true);
    let mut sorted: Vec<i64> = Vec::new();
    let mut j: usize = 0;
    while j < order.len()
        invariant
            forall|t: int| 0 <= t < order@.len() ==> #[trigger] order@[t] < values@.len(),
            j <= order@.len(),
            sorted@.len() == j,
            forall|t: int| 0 <= t < j ==> #[trigger] sorted@[t] == values@[order@[t] as int],
        decreases order@.len() - j,
    {
        sorted.push(values[order[j]]);
        j = j + 1;
    }
    proof {
        assert(sorted@ =~= crate::sort::spec_sort_idx(
            values@.map_values(|v: i64| (v, 0i64)),
            true,
        ).map_values(|i: usize| values@[i as int]));
        assert(sorted@.len() == values@.len());
    }
    let n = sorted.len();
    if n % 2 == 1 {
        Some(sorted[n / 2])
    } else {
        let a = sorted[n / 2 - 1];
        let b = sorted[n / 2];
        let m = tdiv_wide((a as i128) + (b as i128), 2);
        proof {
            crate::fixed::lemma_tdiv_bounds(a as int + b as int, 2);
        }
        Some(m as i64)
    }
}

/// The heading level a font size earns relative to the median: 3 or more
/// times the base gives a top-level heading, 2.5 the second level, 2 the
/// third; anything smaller is body text, as is everything when the base is
/// not positive.
pub open spec fn spec_header_level(font_size: int, median_size: Option<i64>) -> u8 {
    let base: int = match median_size {
        Some(m) => m as int,
        None => 12_000,
    };
    if base <= 0 {
        0
    } else if font_size >= 3 * base {
        1
    } else if 2 * font_size >= 5 * base {
        2
    } else if font_size >= 2 * base {
        3
    } else {
        0
    }
}

/// Classifies a font size against the page's median; 0 means body text.
pub fn font_size_to_header(font_size: i64, median_size: Option<i64>) -> (r: u8)
    ensures
        r == spec_header_level(font_size as int, median_size),
{
    let base: i64 = match median_size {
        Some(m) => m,
        None => 12_000,
    };
    let fs = font_size as i128;
    let b = base as i128;
    if b <= 0 {
        0
    } else if fs >= 3 * b {
        1
    } else if 2 * fs >= 5 * b {
        2
    } else if fs >= 2 * b {
        3
    } else {
        0
    }
}

/// The `#` prefix of a heading level, with its following space.
pub open spec fn spec_hashes(level: u8) -> Seq<u8> {
    if level == 1 {
        seq![35u8]
    } else if level == 2 {
        seq![35u8, 35u8]
    } else if level == 3 {
        seq![35u8, 35u8, 35u8]
    } else {
        Seq::empty()
    }
}

fn push_hashes(out: &mut Vec<u8>, level: u8)
    requires
        level <= 3,
    ensures
        final(out)@ == old(out)@ + spec_hashes(level),
{
    if level >= 1 {
        out.push(35);
    }
    if level >= 2 {
        out.push(35);
    }
    if level == 3 {
        out.push(35);
    }
    proof {
        assert(out@ =~= old(out)@ + spec_hashes(level));
    }
}

/// A white fill colour, `#FFFFFF`.
pub open spec fn spec_is_white(c: Seq<u8>) -> bool {
    c.len() == 7 && c[0] == 35 && c[1] == 70 && c[2] == 70 && c[3] == 70 && c[4] == 70 && c[5]
        == 70 && c[6] == 70
}

fn is_white(c: &Vec<u8>) -> (r: bool)
    ensures
        r == spec_is_white(c@),
{
    c.len() == 7 && c[0] == 35 && c[1] == 70 && c[2] == 70 && c[3] == 70 && c[4] == 70 && c[5]
        == 70 && c[6] == 70
}

pub open spec fn spec_bold_needle() -> Seq<u8> {
    seq![98u8, 111u8, 108u8, 100u8]
}

pub open spec fn spec_italic_needle() -> Seq<u8> {
    seq![105u8, 116u8, 97u8, 108u8, 105u8, 99u8]
}

/// The markdown of one run, and the heading level it resolved to: inline
/// code for a non-white colour, bold and italic from the font name, then
/// underline, then the heading prefix from the font size against the
/// median.
pub open spec fn spec_pdftext_to_md(t: TextV, median_size: Option<i64>) -> (Seq<u8>, u8) {
    let text0 = t.text;
    let text1 = match t.color {
        Some(c) => if !spec_is_white(c) {
            seq![96u8] + text0 + seq![96u8, 32u8]
        } else {
            text0
        },
        None => text0,
    };
    let bold = match t.font_name {
        Some(n) => spec_contains(spec_lower(n), spec_bold_needle()),
        None => false,
    };
    let italic_name = match t.font_name {
        Some(n) => spec_contains(spec_lower(n), spec_italic_needle()),
        None => false,
    };
    let text2 = if bold {
        seq![42u8, 42u8] + spec_trim(text1) + seq![42u8, 42u8, 32u8]
    } else {
        text1
    };
    let text3 = if t.italic || italic_name {
        seq![42u8] + spec_trim(text2) + seq![42u8, 32u8]
    } else {
        text2
    };
    let text4 = if t.underlined {
        seq![60u8, 117u8, 62u8] + spec_trim(text3) + seq![60u8, 47u8, 117u8, 62u8, 32u8]
    } else {
        text3
    };
    let level = spec_header_level(
        match t.font_size {
            Some(s) => s as int,
            None => 0,
        },
        median_size,
    );
    if level != 0 {
        (spec_hashes(level) + seq![32u8] + spec_trim(text4) + seq![32u8], level)
    } else {
        (text4, 0)
    }
}

/// Renders one run as markdown; returns the text and its heading level
/// (0 for body text).
#[verifier::rlimit(100)]
#[verifier::spinoff_prover]
pub fn pdftext_to_md(unit: &crate::pdf_element::PdfText, median_size: Option<i64>) -> (r: (
    Vec<u8>,
    u8,
))
    ensures
        (r.0@, r.1) == spec_pdftext_to_md(unit@, median_size),
{
    let mut text = clone_bytes(&unit.text);
    match &unit.color {
        Some(c) => {
            if !is_white(c) {
                let mut wrapped: Vec<u8> = Vec::new();
                wrapped.push(96);
                let mut t = text;
                wrapped.append(&mut t);
                wrapped.push(96);
                wrapped.push(32);
                text = wrapped;
                proof {
                    assert(text@ =~= seq![96u8] + unit@.text + seq![96u8, 32u8]);
                }
            }
        },
        None => {},
    }
    let mut italic = unit.italic;
    let mut bold = false;
    match &unit.font_name {
        Some(name) => {
            let lwc = to_lowercase(name);
            let mut bold_needle: Vec<u8> = Vec::new();
            bold_needle.push(98);
            bold_needle.push(111);
            bold_needle.push(108);
            bold_needle.push(100);
            proof {
                assert(bold_needle@ =~= spec_bold_needle());
            }
            if bytes_contain(&lwc, bold_needle.as_slice()) {
                bold = true;
            }
            let mut italic_needle: Vec<u8> = Vec::new();
            italic_needle.push(105);
            italic_needle.push(116);
            italic_needle.push(97);
            italic_needle.push(108);
            italic_needle.push(105);
            italic_needle.push(99);
            proof {
                assert(italic_needle@ =~= spec_italic_needle());
            }
            if bytes_contain(&lwc, italic_needle.as_slice()) {
                italic = true;
            }
        },
        None => {},
    }
    if bold {
        let trimmed = trim_bytes(&text);
        let mut wrapped: Vec<u8> = Vec::new();
        wrapped.push(42);
        wrapped.push(42);
        let mut t = trimmed;
        wrapped.append(&mut t);
        wrapped.push(42);
        wrapped.push(42);
        wrapped.push(32);
        let ghost old_text = text@;
        text = wrapped;
        proof {
            assert(text@ =~= seq![42u8, 42u8] + spec_trim(old_text) + seq![42u8, 42u8, 32u8]);
        }
    }
    if italic {
        let trimmed = trim_bytes(&text);
        let mut wrapped: Vec<u8> = Vec::new();
        wrapped.push(42);
        let mut t = trimmed;
        wrapped.append(&mut t);
        wrapped.push(42);
        wrapped.push(32);
        let ghost old_text = text@;
        text = wrapped;
        proof {
            assert(text@ =~= seq![42u8] + spec_trim(old_text) + seq![42u8, 32u8]);
        }
    }
    if unit.underlined {
        let trimmed = trim_bytes(&text);
        let mut wrapped: Vec<u8> = Vec::new();
        wrapped.push(60);
        wrapped.push(117);
        wrapped.push(62);
        let mut t = trimmed;
        wrapped.append(&mut t);
        wrapped.push(60);
        wrapped.push(47);
        wrapped.push(117);
        wrapped.push(62);
        wrapped.push(32);
        let ghost old_text = text@;
        text = wrapped;
        proof {
            assert(text@ =~= seq![60u8, 117u8, 62u8] + spec_trim(old_text) + seq![60u8, 47u8,
                117u8, 62u8, 32u8]);
        }
    }
    let size = match unit.font_size {
        Some(s) => s,
        None => 0,
    };
    let level = font_size_to_header(size, median_size);
    if level != 0 {
        let trimmed = trim_bytes(&text);
        let mut wrapped: Vec<u8> = Vec::new();
        push_hashes(&mut wrapped, level);
        wrapped.push(32);
        let mut t = trimmed;
        wrapped.append(&mut t);
        wrapped.push(32);
        let ghost old_text = text@;
        text = wrapped;
        proof {
            assert(text@ =~= spec_hashes(level) + seq![32u8] + spec_trim(old_text) + seq![32u8]);
        }
        (text, level)
    } else {
        (text, 0)
    }
}

/// The cells of one row joined with a separator.
pub open spec fn spec_join(cells: Seq<Seq<u8>>, sep: Seq<u8>, k: int) -> Seq<u8>
    decreases k,
{
    if k <= 0 {
        Seq::empty()
    } else if k == 1 {
        cells[0]
    } else {
        spec_join(cells, sep, k - 1) + sep + cells[k - 1]
    }
}

fn join_cells(cells: &Vec<Vec<u8>>, sep: &[u8]) -> (r: Vec<u8>)
    ensures
        r@ == spec_join(cells@.map_values(|c: Vec<u8>| c@), sep@, cells@.len() as int),
{
    let ghost cv = cells@.map_values(|c: Vec<u8>| c@);
    let mut out: Vec<u8> = Vec::new();
    let mut i: usize = 0;
    while i < cells.len()
        invariant
            cv == cells@.map_values(|c: Vec<u8>| c@),
            cells@.len() == cv.len(),
            i <= cv.len(),
            out@ == spec_join(cv, sep@, i as int),
        decreases cv.len() - i,
    {
        if i > 0 {
            push_bytes(&mut out, sep);
        }
        let mut piece = clone_bytes(&cells[i]);
        out.append(&mut piece);
        proof {
            assert(cells@.map_values(|c: Vec<u8>| c@)[i as int] == cells@[i as int]@);
            if i == 0 {
                assert(out@ =~= spec_join(cv, sep@, 1));
            } else {
                assert(out@ =~= spec_join(cv, sep@, i as int) + sep@ + cv[i as int]);
            }
        }
        i = i + 1;
    }
    out
}

/// The dashes separator row of a pipe table with `n` columns.
pub open spec fn spec_dashes_row(n: int) -> Seq<u8>
    decreases n,
{
    if n <= 0 {
        Seq::empty()
    } else if n == 1 {
        seq![45u8, 45u8, 45u8]
    } else {
        spec_dashes_row(n - 1) + seq![124u8] + seq![45u8, 45u8, 45u8]
    }
}

/// One pipe-table line: `| a | b |` with a trailing newline.
pub open spec fn spec_table_line(cells: Seq<Seq<u8>>) -> Seq<u8> {
    seq![124u8, 32u8] + spec_join(cells, seq![32u8, 124u8, 32u8], cells.len() as int) + seq![32u8,
        124u8, 10u8]
}

/// A pipe table: the header row, a dashes separator, then the body rows.
pub open spec fn spec_markdown_table(
    headers: Seq<Seq<u8>>,
    rows: Seq<Seq<Seq<u8>>>,
    k: int,
) -> Seq<u8>
    decreases k,
{
    if k <= 0 {
        spec_table_line(headers) + seq![124u8] + spec_dashes_row(headers.len() as int) + seq![124u8,
            10u8]
    } else {
        spec_markdown_table(headers, rows, k - 1) + spec_table_line(rows[k - 1])
    }
}

/// Renders a pipe table from a header row and body rows.
pub fn to_markdown_table(headers: &Vec<Vec<u8>>, rows: &Vec<Vec<Vec<u8>>>) -> (r: Vec<u8>)
    ensures
        r@ == spec_markdown_table(
            headers@.map_values(|c: Vec<u8>| c@),
            rows@.map_values(|row: Vec<Vec<u8>>| row@.map_values(|c: Vec<u8>| c@)),
            rows@.len() as int,
        ),
{
    let ghost hv = headers@.map_values(|c: Vec<u8>| c@);
    let ghost rv = rows@.map_values(|row: Vec<Vec<u8>>| row@.map_values(|c: Vec<u8>| c@));
    let mut out: Vec<u8> = Vec::new();
    out.push(124);
    out.push(32);
    let mut joined = join_cells(headers, &[32, 124, 32]);
    out.append(&mut joined);
    out.push(32);
    out.push(124);
    out.push(10);
    proof {
        assert(out@ =~= spec_table_line(hv));
    }
    out.push(124);
    let mut d: usize = 0;
    let ghost line0 = out@;
    while d < headers.len()
        invariant
            d <= headers@.len(),
            out@ == line0 + spec_dashes_row(d as int),
        decreases headers@.len() - d,
    {
        if d > 0 {
            out.push(124);
        }
        out.push(45);
        out.push(45);
        out.push(45);
        proof {
            if d == 0 {
                assert(out@ =~= line0 + spec_dashes_row(1));
            } else {
                assert(out@ =~= line0 + (spec_dashes_row(d as int) + seq![124u8] + seq![45u8, 45u8,
                    45u8]));
            }
        }
        d = d + 1;
    }
    out.push(124);
    out.push(10);
    proof {
        assert(out@ =~= spec_markdown_table(hv, rv, 0));
        assert(hv.len() == headers@.len());
    }
    let mut r: usize = 0;
    while r < rows.len()
        invariant
            hv == headers@.map_values(|c: Vec<u8>| c@),
            rv == rows@.map_values(|row: Vec<Vec<u8>>| row@.map_values(|c: Vec<u8>| c@)),
            rows@.len() == rv.len(),
            r <= rv.len(),
            out@ == spec_markdown_table(hv, rv, r as int),
        decreases rv.len() - r,
    {
        out.push(124);
        out.push(32);
        let mut joined = join_cells(&rows[r], &[32, 124, 32]);
        out.append(&mut joined);
        out.push(32);
        out.push(124);
        out.push(10);
        proof {
            assert(rows@.map_values(|row: Vec<Vec<u8>>| row@.map_values(|c: Vec<u8>| c@))[r as int]
                == rows@[r as int]@.map_values(|c: Vec<u8>| c@));
            assert(out@ =~= spec_markdown_table(hv, rv, r as int) + spec_table_line(rv[r as int]));
        }
        r = r + 1;
    }
    out
}

/// How deep nested form XObjects may recurse.
pub const XOBJECT_DEPTH_LIMIT: u32 = 32;

/// A per-page conversion diagnostic, page numbers starting at 1.
#[derive(Debug)]
pub enum Diagnostic {
    /// The page's content stream could not be decoded; the page marker was
    /// still emitted.
    PageDecode(usize),
    /// One operator of the page was skipped as recoverable.
    Operator(usize, OperatorError),
}

pub enum DiagV {
    PageDecode(usize),
    Operator(usize, ErrV),
}

impl View for Diagnostic {
    type V = DiagV;

    open spec fn view(&self) -> DiagV {
        match self {
            Diagnostic::PageDecode(n) => DiagV::PageDecode(*n),
            Diagnostic::Operator(n, e) => DiagV::Operator(*n, e@),
        }
    }
}

pub open spec fn diags_view(ds: Seq<Diagnostic>) -> Seq<DiagV> {
    ds.map_values(|d: Diagnostic| d@)
}

/// The decimal digits of `n`.
pub open spec fn spec_dec(n: int) -> Seq<u8>
    decreases n,
{
    if n < 10 {
        seq![(48 + (if n >= 0 { n } else { 0 })) as u8]
    } else {
        spec_dec(n / 10) + seq![(48 + n % 10) as u8]
    }
}

/// Appends the decimal form of `n`.
pub fn push_decimal(out: &mut Vec<u8>, n: usize)
    ensures
        final(out)@ == old(out)@ + spec_dec(n as int),
    decreases n,
{
    if n >= 10 {
        push_decimal(out, n / 10);
    }
    out.push(48 + ((n % 10) as u8));
    proof {
        assert(out@ =~= old(out)@ + spec_dec(n as int));
    }
}

/// The page-boundary marker line for page `n`.
pub open spec fn spec_page_marker(n: int) -> Seq<u8> {
    let head = seq![10u8, 10u8, 60u8, 33u8, 45u8, 45u8, 32u8, 83u8, 45u8, 84u8, 73u8, 84u8, 76u8,
        69u8, 58u8, 32u8, 80u8, 97u8, 103u8, 101u8, 32u8, 110u8, 117u8, 109u8, 98u8, 101u8, 114u8,
        32u8];
    let tail = seq![32u8, 45u8, 45u8, 62u8, 10u8];
    head + spec_dec(n) + tail
}

/// Appends the marker comment line naming page `n`, preceded by a blank
/// line.
fn push_page_marker(out: &mut Vec<u8>, n: usize)
    ensures
        final(out)@ == old(out)@ + spec_page_marker(n as int),
{
    let head: [u8; 28] = [10, 10, 60, 33, 45, 45, 32, 83, 45, 84, 73, 84, 76, 69, 58, 32, 80, 97,
        103, 101, 32, 110, 117, 109, 98, 101, 114, 32];
    push_bytes(out, &head);
    push_decimal(out, n);
    let tail: [u8; 5] = [32, 45, 45, 62, 10];
    push_bytes(out, &tail);
    proof {
        assert(out@ =~= old(out)@ + spec_page_marker(n as int));
    }
}

/// The nominal font sizes of the text runs among the first `k` units.
pub open spec fn spec_font_sizes(units: Seq<UnitV>, k: int) -> Seq<i64>
    decreases k,
{
    if k <= 0 {
        Seq::empty()
    } else {
        let prev = spec_font_sizes(units, k - 1);
        match units[k - 1] {
            UnitV::Text(t) => match t.font_size {
                Some(s) => prev.push(s),
                None => prev,
            },
            UnitV::Line(_) => prev,
        }
    }
}

fn font_sizes(units: &Vec<PdfUnit>) -> (r: Vec<i64>)
    ensures
        r@ == spec_font_sizes(units_view(units@), units@.len() as int),
{
    let mut out: Vec<i64> = Vec::new();
    let mut i: usize = 0;
    while i < units.len()
        invariant
            i <= units@.len(),
            out@ == spec_font_sizes(units_view(units@), i as int),
        decreases units@.len() - i,
    {
        proof {
            assert(units_view(units@)[i as int] == units@[i as int]@);
        }
        match &units[i] {
            PdfUnit::Text(t) => match t.font_size {
                Some(s) => {
                    out.push(s);
                },
                None => {},
            },
            PdfUnit::Line(_) => {},
        }
        i = i + 1;
    }
    out
}

/// The markdown of one detected table: its sorted cell texts as a pipe
/// table whose first cell row is the header; cell contents never become
/// headings (the baseline font size is forced far above any run).
pub open spec fn spec_cell_text(cell: Seq<TextV>) -> Seq<u8> {
    spec_join(
        cell.map_values(|t: TextV| spec_pdftext_to_md(t, Some(1_000_000)).0),
        seq![32u8],
        cell.len() as int,
    )
}

pub open spec fn spec_render_table_el(t: TableV) -> Seq<u8> {
    let grid = crate::pdf_element::spec_table_sorted_elements(t.boundaries).map_values(
        |row: Seq<Seq<TextV>>| row.map_values(|cell: Seq<TextV>| spec_cell_text(cell)),
    );
    if grid.len() == 0 {
        Seq::empty()
    } else {
        spec_markdown_table(grid[0], grid.skip(1), grid.len() - 1)
    }
}

/// Renders one table element.
fn render_table_el(t: &PdfTable) -> (r: Vec<u8>)
    ensures
        r@ == spec_render_table_el(t@),
{
    let mut sorted = clone_table(t);
    let cells = sorted.get_sorted_elements();
    let ghost gridv = crate::pdf_element::spec_table_sorted_elements(t@.boundaries).map_values(
        |row: Seq<Seq<TextV>>| row.map_values(|cell: Seq<TextV>| spec_cell_text(cell)),
    );
    let mut grid: Vec<Vec<Vec<u8>>> = Vec::new();
    let mut i: usize = 0;
    while i < cells.len()
        invariant
            cells@.map_values(
                |row: Vec<Vec<PdfText>>| row@.map_values(|cell: Vec<PdfText>| texts_view(cell@)),
            ) == crate::pdf_element::spec_table_sorted_elements(t@.boundaries),
            gridv == crate::pdf_element::spec_table_sorted_elements(t@.boundaries).map_values(
                |row: Seq<Seq<TextV>>| row.map_values(|cell: Seq<TextV>| spec_cell_text(cell)),
            ),
            cells@.len() == gridv.len(),
            i <= gridv.len(),
            grid@.len() == i,
            forall|p: int|
                0 <= p < i ==> (#[trigger] grid@[p])@.map_values(|c: Vec<u8>| c@) == gridv[p],
        decreases gridv.len() - i,
    {
        proof {
            assert(cells@.map_values(
                |row: Vec<Vec<PdfText>>| row@.map_values(|cell: Vec<PdfText>| texts_view(cell@)),
            )[i as int] == cells@[i as int]@.map_values(|cell: Vec<PdfText>| texts_view(cell@)));
        }
        let row = &cells[i];
        let mut out_row: Vec<Vec<u8>> = Vec::new();
        let mut j: usize = 0;
        while j < row.len()
            invariant
                j <= row@.len(),
                out_row@.len() == j,
                forall|q: int|
                    0 <= q < j ==> (#[trigger] out_row@[q])@ == spec_cell_text(
                        texts_view(row@[q]@),
                    ),
            decreases row@.len() - j,
        {
            proof {
                assert(row@.map_values(|cell: Vec<PdfText>| texts_view(cell@))[j as int]
                    == texts_view(row@[j as int]@));
            }
            let cell = &row[j];
            let mut parts: Vec<Vec<u8>> = Vec::new();
            let mut c: usize = 0;
            while c < cell.len()
                invariant
                    c <= cell@.len(),
                    parts@.len() == c,
                    forall|w: int|
                        0 <= w < c ==> (#[trigger] parts@[w])@ == spec_pdftext_to_md(
                            cell@[w]@,
                            Some(1_000_000),
                        ).0,
                decreases cell@.len() - c,
            {
                let (piece, _lvl) = pdftext_to_md(&cell[c], Some(1_000_000));
                parts.push(piece);
                c = c + 1;
            }
            let joined = join_cells(&parts, &[32]);
            proof {
                assert(parts@.map_values(|p: Vec<u8>| p@) =~= texts_view(row@[j as int]@).map_values(
                    |t: TextV| spec_pdftext_to_md(t, Some(1_000_000)).0,
                ));
                assert([32u8]@ =~= seq![32u8]);
                assert(joined@ =~= spec_cell_text(texts_view(row@[j as int]@)));
            }
            out_row.push(joined);
            j = j + 1;
        }
        proof {
            assert(out_row@.map_values(|c: Vec<u8>| c@) =~= row@.map_values(
                |cell: Vec<PdfText>| texts_view(cell@),
            ).map_values(|cell: Seq<TextV>| spec_cell_text(cell)));
            assert(gridv[i as int] == crate::pdf_element::spec_table_sorted_elements(
                t@.boundaries,
            )[i as int].map_values(|cell: Seq<TextV>| spec_cell_text(cell)));
        }
        grid.push(out_row);
        i = i + 1;
    }
    if grid.len() == 0 {
        return Vec::new();
    }
    let mut headers: Vec<Vec<u8>> = Vec::new();
    let first = &grid[0];
    let mut h: usize = 0;
    while h < first.len()
        invariant
            h <= first@.len(),
            headers@.len() == h,
            forall|q: int| 0 <= q < h ==> (#[trigger] headers@[q])@ == first@[q]@,
        decreases first@.len() - h,
    {
        headers.push(clone_bytes(&first[h]));
        h = h + 1;
    }
    let mut body: Vec<Vec<Vec<u8>>> = Vec::new();
    let mut b: usize = 1;
    while b < grid.len()
        invariant
            1 <= b <= grid@.len(),
            grid@.len() >= 1,
            body@.len() == b - 1,
            forall|q: int|
                0 <= q < b - 1 ==> (#[trigger] body@[q])@.map_values(|c: Vec<u8>| c@) == grid@[q
                    + 1]@.map_values(|c: Vec<u8>| c@),
        decreases grid@.len() - b,
    {
        let row = &grid[b];
        let mut copied: Vec<Vec<u8>> = Vec::new();
        let mut q: usize = 0;
        while q < row.len()
            invariant
                q <= row@.len(),
                copied@.len() == q,
                forall|w: int| 0 <= w < q ==> (#[trigger] copied@[w])@ == row@[w]@,
            decreases row@.len() - q,
        {
            copied.push(clone_bytes(&row[q]));
            q = q + 1;
        }
        proof {
            assert(copied@.map_values(|c: Vec<u8>| c@) =~= row@.map_values(|c: Vec<u8>| c@));
        }
        body.push(copied);
        b = b + 1;
    }
    let r = to_markdown_table(&headers, &body);
    proof {
        assert(headers@.map_values(|c: Vec<u8>| c@) =~= gridv[0]);
        assert(grid@[0]@.map_values(|c: Vec<u8>| c@) == gridv[0]);
        assert(body@.map_values(|row: Vec<Vec<u8>>| row@.map_values(|c: Vec<u8>| c@))
            =~= gridv.skip(1));
        assert(body@.len() == gridv.len() - 1);
    }
    r
}

/// The markdown one text element contributes within a row, given the
/// previous row's heading level: equal consecutive heading levels join
/// with a line break instead of a second prefix, and a heading-to-body
/// transition inserts a blank line.
pub open spec fn spec_render_text_el(t: TextV, median_size: Option<i64>, pre: u8) -> (Seq<u8>, u8) {
    let (text, lvl) = spec_pdftext_to_md(t, median_size);
    let (prefix, text2) = if lvl != 0 && pre == lvl {
        (seq![60u8, 98u8, 114u8, 62u8], spec_remove_all(text, spec_hashes(lvl)))
    } else {
        (Seq::<u8>::empty(), text)
    };
    let prefix2 = if pre != 0 && lvl != pre {
        prefix + seq![10u8]
    } else {
        prefix
    };
    (prefix2 + text2 + seq![32u8], lvl)
}

fn render_text_el(t: &PdfText, median_size: Option<i64>, pre: u8) -> (r: (Vec<u8>, u8))
    ensures
        (r.0@, r.1) == spec_render_text_el(t@, median_size, pre),
{
    let (text, lvl) = pdftext_to_md(t, median_size);
    let mut out: Vec<u8> = Vec::new();
    let mut body = text;
    if lvl != 0 && pre == lvl {
        out.push(60);
        out.push(98);
        out.push(114);
        out.push(62);
        let hashes: [u8; 3] = [35, 35, 35];
        proof {
            assert(lvl <= 3) by {
                assert(lvl == spec_pdftext_to_md(t@, median_size).1);
            }
        }
        let stripped = if lvl == 1 {
            remove_all(&body, &[35])
        } else if lvl == 2 {
            remove_all(&body, &[35, 35])
        } else {
            remove_all(&body, &hashes)
        };
        proof {
            if lvl == 1 {
                assert([35u8]@ =~= spec_hashes(lvl));
            } else if lvl == 2 {
                assert([35u8, 35u8]@ =~= spec_hashes(lvl));
            } else {
                assert([35u8, 35u8, 35u8]@ =~= spec_hashes(lvl));
            }
        }
        body = stripped;
    }
    if pre != 0 && lvl != pre {
        out.push(10);
    }
    let mut b = body;
    out.append(&mut b);
    out.push(32);
    proof {
        assert(out@ =~= spec_render_text_el(t@, median_size, pre).0);
    }
    (out, lvl)
}

/// What one row of laid-out elements contributes: each run's markdown in
/// order, tables as pipe tables; the row's final heading level is that of
/// its last text element.
pub open spec fn spec_render_row(
    row: Seq<ElementV>,
    median_size: Option<i64>,
    pre: u8,
    j: int,
) -> (Seq<u8>, u8)
    decreases j,
{
    if j <= 0 {
        (Seq::empty(), 0)
    } else {
        let (acc, cur) = spec_render_row(row, median_size, pre, j - 1);
        match row[j - 1] {
            ElementV::Text(t) => {
                let (piece, lvl) = spec_render_text_el(t, median_size, pre);
                (acc + piece, lvl)
            },
            ElementV::Table(t) => (acc + spec_render_table_el(t), cur),
        }
    }
}

fn render_row(row: &Vec<PdfElement>, median_size: Option<i64>, pre: u8) -> (r: (Vec<u8>, u8))
    ensures
        (r.0@, r.1) == spec_render_row(
            elements_view(row@),
            median_size,
            pre,
            row@.len() as int,
        ),
{
    let mut out: Vec<u8> = Vec::new();
    let mut cur: u8 = 0;
    let mut j: usize = 0;
    while j < row.len()
        invariant
            j <= row@.len(),
            (out@, cur) == spec_render_row(elements_view(row@), median_size, pre, j as int),
        decreases row@.len() - j,
    {
        proof {
            assert(elements_view(row@)[j as int] == row@[j as int]@);
        }
        match &row[j] {
            PdfElement::Text(t) => {
                let (mut piece, lvl) = render_text_el(t, median_size, pre);
                out.append(&mut piece);
                cur = lvl;
            },
            PdfElement::Table(t) => {
                let mut piece = render_table_el(t);
                out.append(&mut piece);
            },
        }
        j = j + 1;
    }
    (out, cur)
}

/// What a page's rows contribute: rows in order, a blank line after each
/// all-body row, and the carried heading level between consecutive rows.
pub open spec fn spec_render_rows(
    rows: Seq<Seq<ElementV>>,
    median_size: Option<i64>,
    k: int,
) -> (Seq<u8>, u8)
    decreases k,
{
    if k <= 0 {
        (Seq::empty(), 0)
    } else {
        let (acc, pre) = spec_render_rows(rows, median_size, k - 1);
        let (rowd, cur) = spec_render_row(rows[k - 1], median_size, pre, rows[k - 1].len() as int);
        let rowd2 = if cur == 0 {
            rowd + seq![10u8]
        } else {
            rowd
        };
        (acc + rowd2, cur)
    }
}

fn render_rows(matrix: &Vec<Vec<PdfElement>>, median_size: Option<i64>) -> (r: (Vec<u8>, u8))
    ensures
        (r.0@, r.1) == spec_render_rows(matrix_view(matrix@), median_size, matrix@.len() as int),
{
    let mut out: Vec<u8> = Vec::new();
    let mut pre: u8 = 0;
    let mut k: usize = 0;
    while k < matrix.len()
        invariant
            k <= matrix@.len(),
            (out@, pre) == spec_render_rows(matrix_view(matrix@), median_size, k as int),
        decreases matrix@.len() - k,
    {
        proof {
            assert(matrix_view(matrix@)[k as int] == elements_view(matrix@[k as int]@));
        }
        let (mut rowd, cur) = render_row(&matrix[k], median_size, pre);
        out.append(&mut rowd);
        if cur == 0 {
            out.push(10);
        }
        pre = cur;
        k = k + 1;
    }
    (out, pre)
}

/// What the whole conversion of the first `k` pages yields: markdown with
/// a marker line per page, and the per-page diagnostics.  A page whose
/// content could not be decoded keeps its marker and adds a diagnostic;
/// no page's failure stops the following pages.
pub open spec fn spec_run(pages: Seq<PageInput>, k: int) -> (Seq<u8>, Seq<DiagV>)
    decreases k,
{
    if k <= 0 {
        (Seq::empty(), Seq::empty())
    } else {
        let (acc, dgs) = spec_run(pages, k - 1);
        let md0 = acc + spec_page_marker(k);
        match pages[k - 1] {
            PageInput::Undecodable => (md0, dgs.push(DiagV::PageDecode(k as usize))),
            PageInput::Content(p) => {
                let st = spec_stream(
                    p,
                    p.ops,
                    0,
                    PdfCursor::spec_initial(),
                    None,
                    Seq::empty(),
                    Seq::empty(),
                    XOBJECT_DEPTH_LIMIT as int,
                );
                let med = spec_median(spec_font_sizes(st.1, st.1.len() as int));
                let matrix = crate::pdf_element::spec_pdf_units_to_elements(st.1);
                let (body, _pre) = spec_render_rows(matrix, med, matrix.len() as int);
                (
                    md0 + body,
                    dgs + st.2.map_values(|e: ErrV| DiagV::Operator(k as usize, e)),
                )
            },
        }
    }
}

/// Interprets and renders one decodable page, appending its markdown and
/// its operator diagnostics.
#[verifier::rlimit(100)]
#[verifier::spinoff_prover]
fn render_content_page(p: &PdfPage, n: usize, md: &mut Vec<u8>, diags: &mut Vec<Diagnostic>)
    ensures
        ({
            let st = spec_stream(
                *p,
                p.ops,
                0,
                PdfCursor::spec_initial(),
                None,
                Seq::empty(),
                Seq::empty(),
                XOBJECT_DEPTH_LIMIT as int,
            );
            let med = spec_median(spec_font_sizes(st.1, st.1.len() as int));
            let matrix = crate::pdf_element::spec_pdf_units_to_elements(st.1);
            &&& final(md)@ == old(md)@ + spec_render_rows(matrix, med, matrix.len() as int).0
            &&& diags_view(final(diags)@) == diags_view(old(diags)@) + st.2.map_values(
                |e: ErrV| DiagV::Operator(n as usize, e),
            )
        }),
{
    let ghost st = spec_stream(
        *p,
        p.ops,
        0,
        PdfCursor::spec_initial(),
        None,
        Seq::empty(),
        Seq::empty(),
        XOBJECT_DEPTH_LIMIT as int,
    );
    let mut cursor = PdfCursor::new();
    let mut errs: Vec<OperatorError> = Vec::new();
    let units = p.handle_stream(&p.ops, &mut cursor, XOBJECT_DEPTH_LIMIT, &mut errs);
    proof {
        assert(errs_view(errs@) =~= st.2);
    }
    let sizes = font_sizes(&units);
    let med = median(sizes);
    let matrix = crate::pdf_element::pdf_units_to_elements(units);
    let (mut body, _pre) = render_rows(&matrix, med);
    md.append(&mut body);
    let ghost dv0 = diags_view(diags@);
    let mut e: usize = 0;
    proof {
        assert(dv0 + st.2.subrange(0, 0).map_values(|er: ErrV| DiagV::Operator(n as usize, er))
            =~= dv0);
    }
    while e < errs.len()
        invariant
            errs_view(errs@) == st.2,
            errs@.len() == st.2.len(),
            e <= st.2.len(),
            diags_view(diags@) == dv0 + st.2.subrange(0, e as int).map_values(
                |er: ErrV| DiagV::Operator(n as usize, er),
            ),
        decreases st.2.len() - e,
    {
        let ghost dprev = diags_view(diags@);
        let err = &errs[e];
        diags.push(
            Diagnostic::Operator(
                n,
                OperatorError {
                    op_index: err.op_index,
                    operator: clone_bytes(&err.operator),
                    cause: err.cause,
                },
            ),
        );
        proof {
            assert(errs_view(errs@)[e as int] == errs@[e as int]@);
            assert(diags_view(diags@) =~= dprev.push(DiagV::Operator(n as usize, st.2[e as int])));
            assert(st.2.subrange(0, e + 1).map_values(
                |er: ErrV| DiagV::Operator(n as usize, er),
            ) =~= st.2.subrange(0, e as int).map_values(
                |er: ErrV| DiagV::Operator(n as usize, er),
            ).push(DiagV::Operator(n as usize, st.2[e as int])));
        }
        e = e + 1;
    }
    proof {
        assert(st.2.subrange(0, st.2.len() as int) =~= st.2);
    }
}

/// Converts decoded pages to markdown, one page at a time; every page gets
/// its marker line, and recoverable failures become diagnostics instead of
/// stopping the conversion.
pub fn run(pages: &Vec<PageInput>) -> (r: (Vec<u8>, Vec<Diagnostic>))
    ensures
        (r.0@, diags_view(r.1@)) == spec_run(pages@, pages@.len() as int),
{
    let mut md: Vec<u8> = Vec::new();
    let mut diags: Vec<Diagnostic> = Vec::new();
    let total = pages.len();
    let mut i: usize = 0;
    proof {
        assert(diags_view(diags@) =~= Seq::<DiagV>::empty());
    }
    while i < total
        invariant
            total == pages@.len(),
            i <= total,
            (md@, diags_view(diags@)) == spec_run(pages@, i as int),
        decreases total - i,
    {
        let n = i + 1;
        push_page_marker(&mut md, n);
        match &pages[i] {
            PageInput::Undecodable => {
                let ghost dprev = diags_view(diags@);
                diags.push(Diagnostic::PageDecode(n));
                proof {
                    assert(diags_view(diags@) =~= dprev.push(DiagV::PageDecode(n as usize)));
                }
            },
            PageInput::Content(p) => {
                render_content_page(p, n, &mut md, &mut diags);
            },
        }
        proof {
            assert((md@, diags_view(diags@)) == spec_run(pages@, i + 1));
        }
        i = i + 1;
    }
    (md, diags)
}

} // verus!

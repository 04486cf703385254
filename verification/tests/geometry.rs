//! Tests of the table detector and the layout segmenter.

use markitup::dsu::DisjointSet;
use markitup::pdf_element::{
    elements_into_matrix, PdfElement, PdfLine, PdfTable, PdfText, PdfUnit, units_to_elements,
};

fn line(x1: i64, y1: i64, x2: i64, y2: i64) -> PdfLine {
    PdfLine { from: (x1, y1), to: (x2, y2) }
}

fn text_at(s: &str, x: i64, y: i64) -> PdfText {
    PdfText {
        text: s.as_bytes().to_vec(),
        italic: false,
        font_name: None,
        font_size: Some(12_000),
        x,
        y,
        underlined: false,
        color: None,
    }
}

fn cell(x1: i64, y1: i64, x2: i64, y2: i64) -> Vec<PdfLine> {
    vec![
        line(x1, y1, x2, y1),
        line(x2, y1, x2, y2),
        line(x2, y2, x1, y2),
        line(x1, y2, x1, y1),
    ]
}

/// Four touching cell rectangles form a 3-by-3 intersection grid: one
/// table with 4 cell boundaries.
#[test]
fn table_from_four_cell_rectangles() {
    let mut lines = Vec::new();
    lines.extend(cell(0, 0, 50_000, 50_000));
    lines.extend(cell(50_000, 0, 100_000, 50_000));
    lines.extend(cell(0, 50_000, 50_000, 100_000));
    lines.extend(cell(50_000, 50_000, 100_000, 100_000));
    let tables = PdfTable::from_lines(lines);
    assert_eq!(tables.len(), 1);
    assert_eq!(tables[0].boundaries.len(), 4);
}

/// Two adjacent cell rectangles yield a 2-by-3 grid: a table with two
/// cells.
#[test]
fn table_from_adjacent_cell_rectangles() {
    let mut lines = Vec::new();
    lines.extend(cell(0, 0, 50_000, 100_000));
    lines.extend(cell(50_000, 0, 100_000, 100_000));
    let tables = PdfTable::from_lines(lines);
    assert_eq!(tables.len(), 1);
    assert_eq!(tables[0].boundaries.len(), 2);
}

/// A bare rectangle gives a 2-by-2 grid, a single cell, and single-cell
/// grids are discarded.
#[test]
fn no_table_from_plain_rectangle() {
    let lines = vec![
        line(0, 0, 100_000, 0),
        line(100_000, 0, 100_000, 100_000),
        line(100_000, 100_000, 0, 100_000),
        line(0, 100_000, 0, 0),
    ];
    let tables = PdfTable::from_lines(lines);
    assert_eq!(tables.len(), 0);
}

/// Two elements merged by `union` share a representative; untouched
/// elements keep their own.
#[test]
fn union_find_merges_and_separates() {
    let mut sets = DisjointSet::new(5);
    sets.union(0, 1);
    sets.union(1, 2);
    let r0 = sets.find(0);
    let r1 = sets.find(1);
    let r2 = sets.find(2);
    let r3 = sets.find(3);
    let r4 = sets.find(4);
    assert_eq!(r0, r1);
    assert_eq!(r1, r2);
    assert_ne!(r0, r3);
    assert_ne!(r3, r4);
}

/// Two segments sharing an endpoint within 10 units merge into one
/// cluster; 50 units apart they stay separate.  Observed through table
/// detection: only the touching horizontal/vertical pair, extended to a
/// grid, forms one table.
#[test]
fn touching_segments_cluster_together() {
    // Two far-apart pairs of touching cells: two separate clusters, two
    // tables.
    let mut lines = Vec::new();
    lines.extend(cell(0, 0, 50_000, 100_000));
    lines.extend(cell(50_000, 0, 100_000, 100_000));
    let far = 10_000_000;
    lines.extend(cell(far, 0, far + 50_000, 100_000));
    lines.extend(cell(far + 50_000, 0, far + 100_000, 100_000));
    let tables = PdfTable::from_lines(lines);
    assert_eq!(tables.len(), 2);
}

/// Four rows with inter-row gaps of 10, 10 and 14 units get a spacer row
/// after the gap that grew by more than 1.3 times; gaps of 10, 10 and 12
/// do not.
#[test]
fn section_break_on_growing_gap() {
    let rows = vec![
        PdfElement::Text(text_at("a", 0, 100_000)),
        PdfElement::Text(text_at("b", 0, 90_000)),
        PdfElement::Text(text_at("c", 0, 80_000)),
        PdfElement::Text(text_at("d", 0, 66_000)),
    ];
    let matrix = elements_into_matrix(rows);
    // rows a, b, c, spacer, d
    assert_eq!(matrix.len(), 5);
    assert_eq!(matrix[3].len(), 0);

    let rows2 = vec![
        PdfElement::Text(text_at("a", 0, 100_000)),
        PdfElement::Text(text_at("b", 0, 90_000)),
        PdfElement::Text(text_at("c", 0, 80_000)),
        PdfElement::Text(text_at("d", 0, 68_000)),
    ];
    let matrix2 = elements_into_matrix(rows2);
    assert_eq!(matrix2.len(), 4);
    assert!(matrix2.iter().all(|r| !r.is_empty()));
}

/// A first inter-row gap over 20 units inserts a spacer after the first
/// row.
#[test]
fn section_break_on_large_first_gap() {
    let rows = vec![
        PdfElement::Text(text_at("a", 0, 100_000)),
        PdfElement::Text(text_at("b", 0, 70_000)),
        PdfElement::Text(text_at("c", 0, 50_000)),
    ];
    let matrix = elements_into_matrix(rows);
    assert_eq!(matrix.len(), 4);
    assert_eq!(matrix[1].len(), 0);
}

/// A run strictly inside a cell is claimed by the table; one outside every
/// cell stays free text.
#[test]
fn text_assignment_to_cells() {
    let mut units: Vec<PdfUnit> = Vec::new();
    for l in cell(0, 0, 50_000, 100_000) {
        units.push(PdfUnit::Line(l));
    }
    for l in cell(50_000, 0, 100_000, 100_000) {
        units.push(PdfUnit::Line(l));
    }
    units.push(PdfUnit::Text(text_at("inside", 25_000, 50_000)));
    units.push(PdfUnit::Text(text_at("outside", 500_000, 500_000)));
    let elements = units_to_elements(units);
    let mut free = 0;
    let mut tables = 0;
    for e in &elements {
        match e {
            PdfElement::Text(t) => {
                free += 1;
                assert_eq!(t.text, b"outside".to_vec());
            }
            PdfElement::Table(t) => {
                tables += 1;
                let total: usize = t.boundaries.iter().map(|b| b.elements.len()).sum();
                assert_eq!(total, 1);
            }
        }
    }
    assert_eq!(free, 1);
    assert_eq!(tables, 1);
}

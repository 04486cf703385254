//! Tests of the markdown renderer and the end-to-end page conversion.

use markitup::pdf2md::{font_size_to_header, median, pdftext_to_md, run, to_markdown_table,
    Diagnostic};
use markitup::pdf_content::{FontEntry, PdfObj, PdfOp, TextArg};
use markitup::pdf_element::PdfText;
use markitup::pdf_page::{OpErrorCause, PageInput, PdfPage};

fn op(name: &str, operands: Vec<PdfObj>) -> PdfOp {
    PdfOp { operator: name.as_bytes().to_vec(), operands }
}

fn text_operand(s: &str) -> PdfObj {
    PdfObj::Text(TextArg { bytes: s.as_bytes().to_vec(), decodings: vec![] })
}

fn plain_text(s: &str, size: Option<i64>) -> PdfText {
    PdfText {
        text: s.as_bytes().to_vec(),
        italic: false,
        font_name: None,
        font_size: size,
        x: 0,
        y: 0,
        underlined: false,
        color: None,
    }
}

/// A font size of exactly twice the median is the third heading level;
/// 1.999 times the median is body text.
#[test]
fn heading_boundary_at_twice_median() {
    assert_eq!(font_size_to_header(24_000, Some(12_000)), 3);
    assert_eq!(font_size_to_header(23_988, Some(12_000)), 0);
    assert_eq!(font_size_to_header(30_000, Some(12_000)), 2);
    assert_eq!(font_size_to_header(36_000, Some(12_000)), 1);
    assert_eq!(font_size_to_header(35_999, Some(12_000)), 2);
}

#[test]
fn median_of_font_sizes() {
    assert_eq!(median(vec![]), None);
    assert_eq!(median(vec![12_000]), Some(12_000));
    assert_eq!(median(vec![36_000, 12_000, 12_000, 12_000]), Some(12_000));
    assert_eq!(median(vec![10_000, 30_000, 20_000]), Some(20_000));
    assert_eq!(median(vec![10_000, 20_000]), Some(15_000));
}

#[test]
fn bold_and_italic_from_font_name() {
    let mut t = plain_text("word", Some(12_000));
    t.font_name = Some(b"Times-Bold".to_vec());
    let (md, level) = pdftext_to_md(&t, Some(12_000));
    assert_eq!(String::from_utf8(md).unwrap(), "**word** ");
    assert_eq!(level, 0);

    let mut t2 = plain_text("word", Some(12_000));
    t2.font_name = Some(b"Times-Italic".to_vec());
    let (md2, _) = pdftext_to_md(&t2, Some(12_000));
    assert_eq!(String::from_utf8(md2).unwrap(), "*word* ");
}

#[test]
fn underline_and_color_markup() {
    let mut t = plain_text("word", Some(12_000));
    t.underlined = true;
    let (md, _) = pdftext_to_md(&t, Some(12_000));
    assert_eq!(String::from_utf8(md).unwrap(), "<u>word</u> ");

    let mut t2 = plain_text("word", Some(12_000));
    t2.color = Some(b"#FF0000".to_vec());
    let (md2, _) = pdftext_to_md(&t2, Some(12_000));
    assert_eq!(String::from_utf8(md2).unwrap(), "`word` ");

    // white is not marked
    let mut t3 = plain_text("word", Some(12_000));
    t3.color = Some(b"#FFFFFF".to_vec());
    let (md3, _) = pdftext_to_md(&t3, Some(12_000));
    assert_eq!(String::from_utf8(md3).unwrap(), "word");
}

#[test]
fn pipe_table_layout() {
    let headers = vec![b"a".to_vec(), b"b".to_vec()];
    let rows = vec![vec![b"1".to_vec(), b"2".to_vec()]];
    let md = to_markdown_table(&headers, &rows);
    assert_eq!(String::from_utf8(md).unwrap(), "| a | b |\n|---|---|\n| 1 | 2 |\n");
}

fn title_and_body_page() -> PdfPage {
    let fonts = vec![FontEntry { alias: b"F1".to_vec(), base_name: Some(b"Helvetica".to_vec()) }];
    let ops = vec![
        op("BT", vec![]),
        op("Tf", vec![PdfObj::Name(b"F1".to_vec()), PdfObj::Number(36_000)]),
        op(
            "Tm",
            vec![
                PdfObj::Number(1_000),
                PdfObj::Number(0),
                PdfObj::Number(0),
                PdfObj::Number(1_000),
                PdfObj::Number(0),
                PdfObj::Number(700_000),
            ],
        ),
        op("Tj", vec![text_operand("Title")]),
        op("Tf", vec![PdfObj::Name(b"F1".to_vec()), PdfObj::Number(12_000)]),
        op(
            "Tm",
            vec![
                PdfObj::Number(1_000),
                PdfObj::Number(0),
                PdfObj::Number(0),
                PdfObj::Number(1_000),
                PdfObj::Number(0),
                PdfObj::Number(600_000),
            ],
        ),
        op("Tj", vec![text_operand("body one")]),
        op(
            "Tm",
            vec![
                PdfObj::Number(1_000),
                PdfObj::Number(0),
                PdfObj::Number(0),
                PdfObj::Number(1_000),
                PdfObj::Number(0),
                PdfObj::Number(580_000),
            ],
        ),
        op("Tj", vec![text_operand("body two")]),
        op(
            "Tm",
            vec![
                PdfObj::Number(1_000),
                PdfObj::Number(0),
                PdfObj::Number(0),
                PdfObj::Number(1_000),
                PdfObj::Number(0),
                PdfObj::Number(560_000),
            ],
        ),
        op("Tj", vec![text_operand("body three")]),
        op("ET", vec![]),
    ];
    PdfPage { ops, fonts, xobjects: vec![] }
}

/// One page with a large title run and three body runs renders the page
/// marker, a top-level heading, a blank separator, and the body lines.
#[test]
fn end_to_end_title_page() {
    let pages = vec![PageInput::Content(title_and_body_page())];
    let (md, diags) = run(&pages);
    let text = String::from_utf8(md).unwrap();
    assert_eq!(
        text,
        "\n\n<!-- S-TITLE: Page number 1 -->\n# Title  \nbody one \nbody two \nbody three \n"
    );
    assert!(diags.is_empty());
}

/// Rendering the same input twice gives byte-identical output.
#[test]
fn rendering_is_deterministic() {
    let pages1 = vec![PageInput::Content(title_and_body_page())];
    let pages2 = vec![PageInput::Content(title_and_body_page())];
    let (md1, _) = run(&pages1);
    let (md2, _) = run(&pages2);
    assert_eq!(md1, md2);
    let (md3, _) = run(&pages1);
    assert_eq!(md1, md3);
}

/// An undecodable page keeps its marker, adds a diagnostic, and does not
/// stop the following pages.
#[test]
fn undecodable_page_is_reported_and_skipped() {
    let pages = vec![PageInput::Undecodable, PageInput::Content(title_and_body_page())];
    let (md, diags) = run(&pages);
    let text = String::from_utf8(md).unwrap();
    assert!(text.starts_with("\n\n<!-- S-TITLE: Page number 1 -->\n"));
    assert!(text.contains("<!-- S-TITLE: Page number 2 -->"));
    assert!(text.contains("# Title"));
    assert_eq!(diags.len(), 1);
    match &diags[0] {
        Diagnostic::PageDecode(n) => assert_eq!(*n, 1),
        _ => panic!("expected a page-decode diagnostic"),
    }
}

/// A malformed operator is skipped with a diagnostic and the rest of the
/// page still renders.
#[test]
fn malformed_operator_is_recoverable() {
    let mut page = title_and_body_page();
    page.ops.insert(1, op("cm", vec![PdfObj::Number(1_000), PdfObj::Number(0)]));
    page.ops.insert(2, op("TL", vec![text_operand("oops")]));
    let pages = vec![PageInput::Content(page)];
    let (md, diags) = run(&pages);
    assert!(String::from_utf8(md).unwrap().contains("# Title"));
    assert_eq!(diags.len(), 2);
    match &diags[0] {
        Diagnostic::Operator(n, e) => {
            assert_eq!(*n, 1);
            assert_eq!(e.op_index, 1);
            assert_eq!(e.cause, OpErrorCause::MissingOperands);
        }
        _ => panic!("expected an operator diagnostic"),
    }
    match &diags[1] {
        Diagnostic::Operator(_, e) => assert_eq!(e.cause, OpErrorCause::BadOperand),
        _ => panic!("expected an operator diagnostic"),
    }
}

/// An unknown font alias in `Tf` is a recoverable operator error.
#[test]
fn unknown_font_is_reported() {
    let mut page = title_and_body_page();
    page.ops.insert(1, op("Tf", vec![PdfObj::Name(b"F9".to_vec()), PdfObj::Number(10_000)]));
    let pages = vec![PageInput::Content(page)];
    let (_md, diags) = run(&pages);
    assert_eq!(diags.len(), 1);
    match &diags[0] {
        Diagnostic::Operator(_, e) => assert_eq!(e.cause, OpErrorCause::UnknownFont),
        _ => panic!("expected an operator diagnostic"),
    }
}

fn tm_op(x: i64, y: i64) -> PdfOp {
    op(
        "Tm",
        vec![
            PdfObj::Number(1_000),
            PdfObj::Number(0),
            PdfObj::Number(0),
            PdfObj::Number(1_000),
            PdfObj::Number(x),
            PdfObj::Number(y),
        ],
    )
}

/// Two consecutive heading rows of the same level join with a line break
/// inside one heading; the transition back to body text inserts a blank
/// line.
#[test]
fn heading_continuation_joins_lines() {
    let fonts = vec![FontEntry { alias: b"F1".to_vec(), base_name: Some(b"Helvetica".to_vec()) }];
    let mut ops = vec![
        op("BT", vec![]),
        op("Tf", vec![PdfObj::Name(b"F1".to_vec()), PdfObj::Number(36_000)]),
        tm_op(0, 700_000),
        op("Tj", vec![text_operand("Title one")]),
        tm_op(0, 690_000),
        op("Tj", vec![text_operand("Title two")]),
        op("Tf", vec![PdfObj::Name(b"F1".to_vec()), PdfObj::Number(12_000)]),
    ];
    for (i, y) in [680_000i64, 670_000, 660_000, 650_000].iter().enumerate() {
        ops.push(tm_op(0, *y));
        ops.push(text_op(&format!("body {}", i + 1)));
    }
    ops.push(op("ET", vec![]));
    let pages = vec![PageInput::Content(PdfPage { ops, fonts, xobjects: vec![] })];
    let (md, diags) = run(&pages);
    assert!(diags.is_empty());
    let text = String::from_utf8(md).unwrap();
    assert_eq!(
        text,
        "\n\n<!-- S-TITLE: Page number 1 -->\n# Title one  <br> Title two  \nbody 1 \nbody 2 \nbody 3 \nbody 4 \n"
    );
}

fn text_op(s: &str) -> PdfOp {
    op("Tj", vec![text_operand(s)])
}

/// Ruling lines drawn as touching rectangles become a pipe table through
/// the whole pipeline, and runs inside cells never turn into headings.
#[test]
fn table_renders_as_pipe_table() {
    let re = |x: i64, y: i64, w: i64, h: i64| {
        op(
            "re",
            vec![PdfObj::Number(x), PdfObj::Number(y), PdfObj::Number(w), PdfObj::Number(h)],
        )
    };
    let ops = vec![
        re(0, 0, 50_000, 100_000),
        re(50_000, 0, 50_000, 100_000),
        op("BT", vec![]),
        tm_op(25_000, 50_000),
        text_op("left"),
        tm_op(75_000, 50_000),
        text_op("right"),
        tm_op(0, 500_000),
        text_op("free"),
        op("ET", vec![]),
    ];
    let pages = vec![PageInput::Content(PdfPage { ops, fonts: vec![], xobjects: vec![] })];
    let (md, diags) = run(&pages);
    assert!(diags.is_empty());
    let text = String::from_utf8(md).unwrap();
    assert!(text.contains("| left | right |\n|---|---|\n"), "got: {text:?}");
    assert!(text.contains("free"));
    assert!(!text.contains("# "));
}

/// A 24pt title over a 12pt median is exactly twice the base size: the
/// third heading level, not the first.
#[test]
fn twice_median_title_is_level_three() {
    let mut page = title_and_body_page();
    // shrink the title run from three times the median to exactly twice
    page.ops[1] = op("Tf", vec![PdfObj::Name(b"F1".to_vec()), PdfObj::Number(24_000)]);
    let pages = vec![PageInput::Content(page)];
    let (md, _) = run(&pages);
    let text = String::from_utf8(md).unwrap();
    assert!(text.contains("\n### Title"), "got: {text:?}");
}

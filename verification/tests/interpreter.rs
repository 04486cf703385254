//! Tests of the page-content interpreter and text decoding.

use markitup::pdf_content::{
    extract_text_from_obj, Decoding, FontEntry, PdfObj, PdfOp, TextArg, XObjectEntry,
};
use markitup::pdf_element::{PdfUnit, PdfText};
use markitup::pdf_page::{OperatorError, PdfCursor, PdfPage};

fn op(name: &str, operands: Vec<PdfObj>) -> PdfOp {
    PdfOp { operator: name.as_bytes().to_vec(), operands }
}

fn text_operand(s: &str) -> PdfObj {
    PdfObj::Text(TextArg { bytes: s.as_bytes().to_vec(), decodings: vec![] })
}

fn interpret(page: &PdfPage) -> (Vec<PdfUnit>, Vec<OperatorError>) {
    let mut cursor = PdfCursor::new();
    let mut errs = Vec::new();
    let units = page.handle_stream(&page.ops, &mut cursor, 32, &mut errs);
    (units, errs)
}

fn texts(units: &[PdfUnit]) -> Vec<&PdfText> {
    units
        .iter()
        .filter_map(|u| match u {
            PdfUnit::Text(t) => Some(t),
            PdfUnit::Line(_) => None,
        })
        .collect()
}

/// UTF-16 byte-order marks select the big- or little-endian decoding; the
/// result differs from the raw bytes.
#[test]
fn utf16_fallback_decoding() {
    let be = PdfObj::Text(TextArg { bytes: vec![0xFE, 0xFF, 0x00, 0x54], decodings: vec![] });
    assert_eq!(extract_text_from_obj(&be, &Vec::new()), b"T".to_vec());
    let le = PdfObj::Text(TextArg { bytes: vec![0xFF, 0xFE, 0x54, 0x00], decodings: vec![] });
    assert_eq!(extract_text_from_obj(&le, &Vec::new()), b"T".to_vec());
}

/// Invalid UTF-8 falls back to a lossy decoding with replacement
/// characters, never a failure.
#[test]
fn utf8_lossy_fallback() {
    let bad = PdfObj::Text(TextArg { bytes: vec![0xFF], decodings: vec![] });
    let out = extract_text_from_obj(&bad, &Vec::new());
    assert_eq!(out, "\u{FFFD}".as_bytes().to_vec());
}

/// A recorded font-encoding decoding wins over the byte fallbacks when the
/// current font alias matches.
#[test]
fn font_encoding_decoding_wins() {
    let obj = PdfObj::Text(TextArg {
        bytes: vec![0x41],
        decodings: vec![Decoding { alias: b"F1".to_vec(), text: b"decoded".to_vec() }],
    });
    assert_eq!(extract_text_from_obj(&obj, &b"F1".to_vec()), b"decoded".to_vec());
    assert_eq!(extract_text_from_obj(&obj, &b"F2".to_vec()), b"A".to_vec());
}

/// Text position comes from the translation of `CTM × TM`.
#[test]
fn text_position_from_matrices() {
    let page = PdfPage {
        ops: vec![
            op(
                "cm",
                vec![
                    PdfObj::Number(1_000),
                    PdfObj::Number(0),
                    PdfObj::Number(0),
                    PdfObj::Number(1_000),
                    PdfObj::Number(5_000),
                    PdfObj::Number(7_000),
                ],
            ),
            op("BT", vec![]),
            op("Td", vec![PdfObj::Number(10_000), PdfObj::Number(20_000)]),
            op("Tj", vec![text_operand("x")]),
            op("ET", vec![]),
        ],
        fonts: vec![],
        xobjects: vec![],
    };
    let (units, errs) = interpret(&page);
    assert!(errs.is_empty());
    let ts = texts(&units);
    assert_eq!(ts.len(), 1);
    assert_eq!((ts[0].x, ts[0].y), (15_000, 27_000));
}

/// `q` saves and `Q` restores the graphics state; a pop from an empty
/// stack yields the initial state.
#[test]
fn state_save_restore() {
    let page = PdfPage {
        ops: vec![
            op(
                "cm",
                vec![
                    PdfObj::Number(1_000),
                    PdfObj::Number(0),
                    PdfObj::Number(0),
                    PdfObj::Number(1_000),
                    PdfObj::Number(100_000),
                    PdfObj::Number(0),
                ],
            ),
            op("q", vec![]),
            op(
                "cm",
                vec![
                    PdfObj::Number(1_000),
                    PdfObj::Number(0),
                    PdfObj::Number(0),
                    PdfObj::Number(1_000),
                    PdfObj::Number(200_000),
                    PdfObj::Number(0),
                ],
            ),
            op("Q", vec![]),
            op("Tj", vec![text_operand("a")]),
            op("Q", vec![]),
            op("Tj", vec![text_operand("b")]),
        ],
        fonts: vec![],
        xobjects: vec![],
    };
    let (units, _) = interpret(&page);
    let ts = texts(&units);
    assert_eq!(ts.len(), 2);
    assert_eq!(ts[0].x, 100_000);
    assert_eq!(ts[1].x, 0);
}

/// `re` emits the four edges of the rectangle.
#[test]
fn rectangle_becomes_four_edges() {
    let page = PdfPage {
        ops: vec![op(
            "re",
            vec![
                PdfObj::Number(0),
                PdfObj::Number(0),
                PdfObj::Number(10_000),
                PdfObj::Number(20_000),
            ],
        )],
        fonts: vec![],
        xobjects: vec![],
    };
    let (units, errs) = interpret(&page);
    assert!(errs.is_empty());
    assert_eq!(units.len(), 4);
    assert!(units.iter().all(|u| matches!(u, PdfUnit::Line(_))));
}

/// A stroke-colour operator right after shown text marks that run as
/// underlined.
#[test]
fn stroke_color_marks_underline() {
    let page = PdfPage {
        ops: vec![
            op("Tj", vec![text_operand("u")]),
            op(
                "RG",
                vec![PdfObj::Number(1_000), PdfObj::Number(0), PdfObj::Number(0)],
            ),
        ],
        fonts: vec![],
        xobjects: vec![],
    };
    let (units, _) = interpret(&page);
    let ts = texts(&units);
    assert_eq!(ts.len(), 1);
    assert!(ts[0].underlined);
}

/// A non-black fill colour marks the next run with its hex form.
#[test]
fn fill_color_marks_next_run() {
    let page = PdfPage {
        ops: vec![
            op(
                "rg",
                vec![PdfObj::Number(1_000), PdfObj::Number(0), PdfObj::Number(0)],
            ),
            op("Tj", vec![text_operand("red")]),
            op("Tj", vec![text_operand("plain")]),
        ],
        fonts: vec![],
        xobjects: vec![],
    };
    let (units, _) = interpret(&page);
    let ts = texts(&units);
    assert_eq!(ts[0].color, Some(b"#FF0000".to_vec()));
    assert_eq!(ts[1].color, None);
}

/// Text-run count equals the number of text-showing operators executed,
/// through form-XObject expansion; image XObjects are skipped by name.
#[test]
fn text_runs_count_through_xobjects() {
    let child_ops = vec![op("Tj", vec![text_operand("inner")])];
    let page = PdfPage {
        ops: vec![
            op("Tj", vec![text_operand("one")]),
            op("Do", vec![PdfObj::Name(b"Fm1".to_vec())]),
            op("Do", vec![PdfObj::Name(b"Im1".to_vec())]),
            op("Tj", vec![text_operand("two")]),
        ],
        fonts: vec![],
        xobjects: vec![XObjectEntry { name: b"Fm1".to_vec(), ops: child_ops }],
    };
    let (units, errs) = interpret(&page);
    assert!(errs.is_empty());
    assert_eq!(texts(&units).len(), 3);
}

/// A self-referential form XObject is cut off by the recursion bound with
/// a diagnostic instead of looping.
#[test]
fn self_referential_xobject_is_bounded() {
    let page = PdfPage {
        ops: vec![op("Do", vec![PdfObj::Name(b"Fm1".to_vec())])],
        fonts: vec![],
        xobjects: vec![XObjectEntry {
            name: b"Fm1".to_vec(),
            ops: vec![
                op("Tj", vec![text_operand("x")]),
                op("Do", vec![PdfObj::Name(b"Fm1".to_vec())]),
            ],
        }],
    };
    let mut cursor = PdfCursor::new();
    let mut errs = Vec::new();
    let units = page.handle_stream(&page.ops, &mut cursor, 3, &mut errs);
    assert_eq!(texts(&units).len(), 3);
    assert_eq!(errs.len(), 1);
}

/// A marked-content dictionary with an `ActualText` attribute emits a run.
#[test]
fn marked_content_actual_text() {
    let dict = PdfObj::Dict(vec![markitup::pdf_content::DictEntry {
        key: b"ActualText".to_vec(),
        value: text_operand("hidden"),
    }]);
    let page = PdfPage {
        ops: vec![op("BDC", vec![PdfObj::Name(b"Span".to_vec()), dict])],
        fonts: vec![],
        xobjects: vec![],
    };
    let (units, errs) = interpret(&page);
    assert!(errs.is_empty());
    let ts = texts(&units);
    assert_eq!(ts.len(), 1);
    assert_eq!(ts[0].text, b"hidden".to_vec());
}

/// `Tf` selects the size and resolves the name; the emitted size scales by
/// the text matrix's vertical component.
#[test]
fn font_selection_and_scaling() {
    let page = PdfPage {
        ops: vec![
            op("Tf", vec![PdfObj::Name(b"F1".to_vec()), PdfObj::Number(12_000)]),
            op(
                "Tm",
                vec![
                    PdfObj::Number(1_000),
                    PdfObj::Number(0),
                    PdfObj::Number(0),
                    PdfObj::Number(2_000),
                    PdfObj::Number(0),
                    PdfObj::Number(0),
                ],
            ),
            op("Tj", vec![text_operand("x")]),
        ],
        fonts: vec![FontEntry { alias: b"F1".to_vec(), base_name: Some(b"Times-Bold".to_vec()) }],
        xobjects: vec![],
    };
    let (units, errs) = interpret(&page);
    assert!(errs.is_empty());
    let ts = texts(&units);
    assert_eq!(ts[0].font_size, Some(24_000));
    assert_eq!(ts[0].font_name, Some(b"Times-Bold".to_vec()));
}

/// A `Do` naming an unregistered form XObject is an unresolved-resource
/// error; interpretation continues.
#[test]
fn unknown_xobject_is_reported() {
    let page = PdfPage {
        ops: vec![
            op("Do", vec![PdfObj::Name(b"Fx9".to_vec())]),
            op("Tj", vec![text_operand("after")]),
        ],
        fonts: vec![],
        xobjects: vec![],
    };
    let (units, errs) = interpret(&page);
    assert_eq!(texts(&units).len(), 1);
    assert_eq!(errs.len(), 1);
    assert_eq!(errs[0].cause, markitup::pdf_page::OpErrorCause::UnknownResource);
}

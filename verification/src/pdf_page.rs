//! The page-content interpreter.
//!
//! `PdfPage::handle_stream` executes a decoded operator list over a
//! `PdfCursor` (the graphics/text state) and emits the page's positioned
//! text runs and line segments, recursing through resolved form XObjects.
//! Malformed operators are skipped and reported as recoverable
//! `OperatorError`s; nothing here panics or aborts the page.

use crate::bytes::{clone_bytes, contains2, is1, is2, is3, push_hex_byte, spec_contains,
    spec_hex_byte, spec_is1, spec_is2, spec_is3};
use crate::fixed::{fx_clamp, fx_clamp_wide, fx_mul, in_range, spec_clamp, spec_fx_mul, tdiv_wide};
use crate::pdf_content::{find_actual_text, find_font, find_xobject, extract_text_from_objs,
    extract_text_from_obj, spec_actual_text_key, spec_dict_get, spec_extract_text,
    spec_extract_texts, spec_find_font, spec_find_xobject, FontEntry, PdfObj, PdfOp, XObjectEntry};
use crate::pdf_element::{units_view, view_opt_bytes, PdfLine, PdfText, PdfUnit, TextV, UnitV};
use crate::pdf_state::{Matrix3x3, PdfState};
use vstd::prelude::*;

verus! {

broadcast use vstd::std_specs::vec::group_vec_axioms, vstd::seq::group_seq_axioms;

/// One page's decoded content, as plain values.
pub struct PdfPage {
    /// The decoded content-stream operations, in execution order.
    pub ops: Vec<PdfOp>,
    /// The page's font dictionary: alias to `BaseFont` name.
    pub fonts: Vec<FontEntry>,
    /// The page's resolved form XObjects.
    pub xobjects: Vec<XObjectEntry>,
}

/// A page as handed in by the unverified shell: decoded content, or a
/// marker that the page's content stream could not be decoded.
pub enum PageInput {
    Content(PdfPage),
    Undecodable,
}

/// Why one operator was skipped.
#[derive(Clone, Copy, Debug, PartialEq, Eq, Structural)]
pub enum OpErrorCause {
    /// Too few operands.
    MissingOperands,
    /// An operand had the wrong type, such as a non-numeric matrix entry.
    BadOperand,
    /// `Tf` named a font alias absent from the font table.
    UnknownFont,
    /// A referenced resource (an XObject, a `BaseFont` name, an
    /// `ActualText` entry) could not be resolved.
    UnknownResource,
    /// Nested form XObjects exceeded the recursion bound.
    DepthLimit,
}

/// A recoverable per-operator failure: the operator was skipped and
/// interpretation continued.
#[derive(Debug)]
pub struct OperatorError {
    /// Index of the operator within its own stream.
    pub op_index: usize,
    pub operator: Vec<u8>,
    pub cause: OpErrorCause,
}

pub struct ErrV {
    pub op_index: usize,
    pub operator: Seq<u8>,
    pub cause: OpErrorCause,
}

impl View for OperatorError {
    type V = ErrV;

    open spec fn view(&self) -> ErrV {
        ErrV { op_index: self.op_index, operator: self.operator@, cause: self.cause }
    }
}

pub open spec fn errs_view(es: Seq<OperatorError>) -> Seq<ErrV> {
    es.map_values(|e: OperatorError| e@)
}

/// The interpreter's mutable state: current font, graphics/text state, and
/// the save/restore stack.
pub struct PdfCursor {
    pub current_font_alias: Vec<u8>,
    pub current_font_name: Option<Vec<u8>>,
    pub current_font_size: Option<i64>,
    pub state: PdfState,
    pub state_stack: Vec<PdfState>,
}

#[verifier::ext_equal]
pub struct CursorV {
    pub alias: Seq<u8>,
    pub name: Option<Seq<u8>>,
    pub size: Option<i64>,
    pub state: PdfState,
    pub stack: Seq<PdfState>,
}

impl View for PdfCursor {
    type V = CursorV;

    open spec fn view(&self) -> CursorV {
        CursorV {
            alias: self.current_font_alias@,
            name: view_opt_bytes(self.current_font_name),
            size: self.current_font_size,
            state: self.state,
            stack: self.state_stack@,
        }
    }
}

pub open spec fn cursor_wf(c: CursorV) -> bool {
    &&& c.state.wf()
    &&& forall|i: int| 0 <= i < c.stack.len() ==> (#[trigger] c.stack[i]).wf()
    &&& match c.size {
        Some(s) => in_range(s as int),
        None => true,
    }
}

impl PdfCursor {
    pub open spec fn spec_initial() -> CursorV {
        CursorV {
            alias: Seq::empty(),
            name: None,
            size: None,
            state: PdfState::spec_initial(),
            stack: Seq::empty(),
        }
    }

    pub fn new() -> (r: PdfCursor)
        ensures
            r@ == PdfCursor::spec_initial(),
            cursor_wf(r@),
    {
        let r = PdfCursor {
            current_font_alias: Vec::new(),
            current_font_name: None,
            current_font_size: None,
            state: PdfState::new(),
            state_stack: Vec::new(),
        };
        proof {
            assert(r@ =~~= PdfCursor::spec_initial());
        }
        r
    }
}

/// One colour channel scaled from the unit interval to `0..=255`, halves
/// rounded away from zero, out-of-range values saturated.
pub open spec fn spec_channel(v: int) -> u8 {
    if v <= 0 {
        0
    } else {
        let x = (v * 255 + 500) / 1000;
        if x > 255 {
            255
        } else {
            x as u8
        }
    }
}

/// The `#RRGGBB` form of an RGB fill colour given in fixed-point channels.
pub open spec fn spec_rgb_hex(r: int, g: int, b: int) -> Seq<u8> {
    seq![35u8] + spec_hex_byte(spec_channel(r)) + spec_hex_byte(spec_channel(g)) + spec_hex_byte(
        spec_channel(b),
    )
}

fn channel(v: i64) -> (r: u8)
    ensures
        r == spec_channel(v as int),
{
    if v <= 0 {
        0
    } else {
        let x = tdiv_wide((v as i128) * 255 + 500, 1000);
        proof {
            crate::fixed::lemma_tdiv_bounds(v as int * 255 + 500, 1000);
        }
        if x > 255 {
            255
        } else {
            x as u8
        }
    }
}

/// Formats a fill colour as `#RRGGBB`.
pub fn rgb_to_hex(r: i64, g: i64, b: i64) -> (out: Vec<u8>)
    ensures
        out@ == spec_rgb_hex(r as int, g as int, b as int),
{
    let mut out: Vec<u8> = Vec::new();
    out.push(35);
    push_hex_byte(&mut out, channel(r));
    push_hex_byte(&mut out, channel(g));
    push_hex_byte(&mut out, channel(b));
    proof {
        assert(out@ =~= spec_rgb_hex(r as int, g as int, b as int));
    }
    out
}

/// The first `n` operands as numbers, or nothing if any is missing or not
/// numeric.
pub open spec fn spec_read_nums(operands: Vec<PdfObj>, n: int) -> Option<Seq<i64>>
    decreases n,
{
    if n <= 0 {
        Some(Seq::empty())
    } else {
        match spec_read_nums(operands, n - 1) {
            None => None,
            Some(s) => {
                if n - 1 < operands@.len() {
                    match operands@[n - 1] {
                        PdfObj::Number(v) => Some(s.push(v)),
                        _ => None,
                    }
                } else {
                    None
                }
            },
        }
    }
}

proof fn lemma_read_nums_none(operands: Vec<PdfObj>, m: int, n: int)
    requires
        m <= n,
        spec_read_nums(operands, m) is None,
    ensures
        spec_read_nums(operands, n) is None,
    decreases n - m,
{
    if m < n {
        lemma_read_nums_none(operands, m, n - 1);
    }
}

fn read_nums(operands: &Vec<PdfObj>, n: usize) -> (r: Option<Vec<i64>>)
    ensures
        match r {
            Some(v) => spec_read_nums(*operands, n as int) == Some(v@) && v@.len() == n,
            None => spec_read_nums(*operands, n as int) is None,
        },
{
    let mut out: Vec<i64> = Vec::new();
    let mut i: usize = 0;
    while i < n
        invariant
            i <= n,
            out@.len() == i,
            spec_read_nums(*operands, i as int) == Some(out@),
        decreases n - i,
    {
        if i >= operands.len() {
            proof {
                assert(spec_read_nums(*operands, i + 1) is None);
                lemma_read_nums_none(*operands, i + 1, n as int);
            }
            return None;
        }
        match &operands[i] {
            PdfObj::Number(v) => {
                out.push(*v);
            },
            _ => {
                proof {
                    assert(spec_read_nums(*operands, i + 1) is None);
                    lemma_read_nums_none(*operands, i + 1, n as int);
                }
                return None;
            },
        }
        i = i + 1;
    }
    Some(out)
}

/// Appends an operator error to the diagnostics.
pub open spec fn spec_diag(
    diags: Seq<ErrV>,
    i: int,
    operator: Seq<u8>,
    cause: OpErrorCause,
) -> Seq<ErrV> {
    diags.push(ErrV { op_index: i as usize, operator, cause })
}

/// Where text shown now lands: the translation of `CTM × TM`.
pub open spec fn spec_pos(cur: CursorV) -> (i64, i64) {
    let combined = cur.state.ctm.spec_multiply(cur.state.tm);
    (combined.e, combined.f)
}

/// The run a text-showing operator emits: positioned at the current text
/// origin, slanted when the text matrix shears, sized by the text matrix's
/// vertical scale, and carrying any pending fill colour.
pub open spec fn spec_text_unit(cur: CursorV, text: Seq<u8>, color: Option<Seq<u8>>) -> TextV {
    TextV {
        text,
        italic: cur.state.tm.c != 0,
        font_name: cur.name,
        font_size: match cur.size {
            Some(s) => Some(spec_fx_mul(s as int, cur.state.tm.d as int) as i64),
            None => None,
        },
        x: spec_pos(cur).0,
        y: spec_pos(cur).1,
        underlined: false,
        color,
    }
}

/// The run a marked-content `ActualText` attribute emits: bare text at the
/// current position.
pub open spec fn spec_marked_unit(cur: CursorV, text: Seq<u8>, color: Option<Seq<u8>>) -> TextV {
    TextV {
        text,
        italic: false,
        font_name: None,
        font_size: None,
        x: spec_pos(cur).0,
        y: spec_pos(cur).1,
        underlined: false,
        color,
    }
}

/// Marks the most recently emitted text run as underlined, if the last
/// unit is a text run.
pub open spec fn spec_mark_underlined(units: Seq<UnitV>) -> Seq<UnitV> {
    if units.len() > 0 {
        match units.last() {
            UnitV::Text(t) => units.update(
                units.len() - 1,
                UnitV::Text(TextV { underlined: true, ..t }),
            ),
            UnitV::Line(_) => units,
        }
    } else {
        units
    }
}


/// Which error a failed numeric read reports: missing operands when the
/// list is short, a bad operand otherwise.
pub open spec fn spec_num_cause(op: PdfOp, n: int) -> OpErrorCause {
    if op.operands@.len() < n {
        OpErrorCause::MissingOperands
    } else {
        OpErrorCause::BadOperand
    }
}

pub open spec fn spec_edge(cur: CursorV, from: (int, int), to: (int, int)) -> UnitV {
    let seg = cur.state.spec_re(from, to);
    UnitV::Line(
        PdfLine { from: (seg.0.0 as i64, seg.0.1 as i64), to: (seg.1.0 as i64, seg.1.1 as i64) },
    )
}

/// The four edges of the rectangle `x y w h`, each mapped through the
/// current transformation matrix.
pub open spec fn spec_rect_units(cur: CursorV, x: int, y: int, w: int, h: int) -> Seq<UnitV> {
    let x2 = spec_clamp(x + w);
    let y2 = spec_clamp(y + h);
    let p1 = (spec_clamp(x), spec_clamp(y));
    let p2 = (x2, spec_clamp(y));
    let p3 = (x2, y2);
    let p4 = (spec_clamp(x), y2);
    seq![
        spec_edge(cur, p1, p2),
        spec_edge(cur, p2, p3),
        spec_edge(cur, p3, p4),
        spec_edge(cur, p4, p1),
    ]
}

/// What one operator other than `Do` does: the new cursor and pending
/// colour, the units it emits, at most one recoverable error, and whether
/// it retroactively underlines the last emitted run.
#[verifier::ext_equal]
pub struct OpEffect {
    pub cur: CursorV,
    pub color: Option<Seq<u8>>,
    pub emitted: Seq<UnitV>,
    pub err: Option<ErrV>,
    pub underline: bool,
}

pub open spec fn spec_no_effect(cur: CursorV, color: Option<Seq<u8>>) -> OpEffect {
    OpEffect { cur, color, emitted: Seq::empty(), err: None, underline: false }
}

pub open spec fn spec_err_effect(
    cur: CursorV,
    color: Option<Seq<u8>>,
    i: int,
    operator: Seq<u8>,
    cause: OpErrorCause,
) -> OpEffect {
    OpEffect {
        cur,
        color,
        emitted: Seq::empty(),
        err: Some(ErrV { op_index: i as usize, operator, cause }),
        underline: false,
    }
}

/// The effect of one operator on the interpreter, for every operator but
/// `Do` (which recurses and is handled by `spec_stream` itself).
pub open spec fn spec_op_effect(
    page: PdfPage,
    op: PdfOp,
    i: int,
    cur: CursorV,
    color: Option<Seq<u8>>,
) -> OpEffect {
    let name = op.operator@;
    if spec_is2(name, 84, 106) || spec_is2(name, 84, 74) || spec_is1(name, 39) || spec_is1(
        name,
        34,
    ) {
        // Tj | TJ | ' | " : show text, the quote forms advancing a line first
        let cur2 = if spec_is1(name, 39) || spec_is1(name, 34) {
            CursorV { state: cur.state.spec_td(0, -cur.state.leading as int), ..cur }
        } else {
            cur
        };
        let text = spec_extract_texts(op.operands, cur2.alias);
        OpEffect {
            cur: cur2,
            color: None,
            emitted: seq![UnitV::Text(spec_text_unit(cur2, text, color))],
            err: None,
            underline: false,
        }
    } else if spec_is2(name, 66, 84) {
        // BT : reset the text matrix
        spec_no_effect(
            CursorV { state: PdfState { tm: Matrix3x3::spec_identity(), ..cur.state }, ..cur },
            color,
        )
    } else if spec_is1(name, 113) {
        // q : save the graphics state
        spec_no_effect(CursorV { stack: cur.stack.push(cur.state), ..cur }, color)
    } else if spec_is1(name, 81) {
        // Q : restore the graphics state; an empty stack yields the initial state
        let cur2 = if cur.stack.len() > 0 {
            CursorV { state: cur.stack.last(), stack: cur.stack.drop_last(), ..cur }
        } else {
            CursorV { state: PdfState::spec_initial(), ..cur }
        };
        spec_no_effect(cur2, color)
    } else if spec_is2(name, 69, 84) {
        // ET : end of text object, no state change
        spec_no_effect(cur, color)
    } else if spec_is2(name, 84, 102) {
        // Tf : select font alias and size, resolve the BaseFont name
        if op.operands@.len() < 2 {
            spec_err_effect(cur, color, i, name, OpErrorCause::MissingOperands)
        } else {
            match op.operands@[0] {
                PdfObj::Name(alias) => {
                    let size = match op.operands@[1] {
                        PdfObj::Number(v) => Some(spec_clamp(v as int) as i64),
                        _ => None,
                    };
                    let cur2 = CursorV { alias: alias@, size, ..cur };
                    match spec_find_font(page.fonts, alias@) {
                        Some(fe) => match fe.base_name {
                            Some(bn) => spec_no_effect(CursorV { name: Some(bn@), ..cur2 }, color),
                            None => spec_err_effect(
                                cur2,
                                color,
                                i,
                                name,
                                OpErrorCause::UnknownResource,
                            ),
                        },
                        None => spec_err_effect(cur2, color, i, name, OpErrorCause::UnknownFont),
                    }
                },
                _ => spec_err_effect(cur, color, i, name, OpErrorCause::BadOperand),
            }
        }
    } else if spec_is2(name, 99, 109) {
        // cm : replace the current transformation matrix
        match spec_read_nums(op.operands, 6) {
            Some(v) => spec_no_effect(
                CursorV {
                    state: PdfState {
                        ctm: Matrix3x3::spec_clamped(
                            v[0] as int,
                            v[1] as int,
                            v[2] as int,
                            v[3] as int,
                            v[4] as int,
                            v[5] as int,
                        ),
                        ..cur.state
                    },
                    ..cur
                },
                color,
            ),
            None => spec_err_effect(cur, color, i, name, spec_num_cause(op, 6)),
        }
    } else if spec_is2(name, 84, 109) {
        // Tm : replace the text matrix
        match spec_read_nums(op.operands, 6) {
            Some(v) => spec_no_effect(
                CursorV {
                    state: PdfState {
                        tm: Matrix3x3::spec_clamped(
                            v[0] as int,
                            v[1] as int,
                            v[2] as int,
                            v[3] as int,
                            v[4] as int,
                            v[5] as int,
                        ),
                        ..cur.state
                    },
                    ..cur
                },
                color,
            ),
            None => spec_err_effect(cur, color, i, name, spec_num_cause(op, 6)),
        }
    } else if spec_is2(name, 84, 100) {
        // Td : translate the text matrix
        match spec_read_nums(op.operands, 2) {
            Some(v) => spec_no_effect(
                CursorV { state: cur.state.spec_td(v[0] as int, v[1] as int), ..cur },
                color,
            ),
            None => spec_err_effect(cur, color, i, name, spec_num_cause(op, 2)),
        }
    } else if spec_is2(name, 84, 68) {
        // TD : Td, and set the leading to the negated vertical step
        match spec_read_nums(op.operands, 2) {
            Some(v) => spec_no_effect(
                CursorV {
                    state: PdfState {
                        leading: -spec_clamp(v[1] as int) as i64,
                        ..cur.state.spec_td(v[0] as int, v[1] as int)
                    },
                    ..cur
                },
                color,
            ),
            None => spec_err_effect(cur, color, i, name, spec_num_cause(op, 2)),
        }
    } else if spec_is2(name, 84, 76) {
        // TL : set the leading
        match spec_read_nums(op.operands, 1) {
            Some(v) => spec_no_effect(
                CursorV {
                    state: PdfState { leading: spec_clamp(v[0] as int) as i64, ..cur.state },
                    ..cur
                },
                color,
            ),
            None => spec_err_effect(cur, color, i, name, spec_num_cause(op, 1)),
        }
    } else if spec_is2(name, 84, 42) {
        // T* : advance a line by the current leading
        spec_no_effect(
            CursorV { state: cur.state.spec_td(0, -cur.state.leading as int), ..cur },
            color,
        )
    } else if spec_is2(name, 115, 99) || spec_is2(name, 114, 103) {
        // sc | rg : a non-black fill colour marks the next run
        if op.operands@.len() < 3 {
            spec_no_effect(cur, color)
        } else {
            match spec_read_nums(op.operands, 3) {
                Some(v) => {
                    if v[0] != 0 || v[1] != 0 || v[2] != 0 {
                        spec_no_effect(
                            cur,
                            Some(spec_rgb_hex(v[0] as int, v[1] as int, v[2] as int)),
                        )
                    } else {
                        spec_no_effect(cur, color)
                    }
                },
                None => spec_err_effect(cur, color, i, name, OpErrorCause::BadOperand),
            }
        }
    } else if spec_is2(name, 83, 67) || spec_is2(name, 82, 71) {
        // SC | RG : a stroke colour right after text marks that run as
        // underlined (a documented heuristic for drawn underlines)
        OpEffect { cur, color, emitted: Seq::empty(), err: None, underline: true }
    } else if spec_is1(name, 109) {
        // m : set the current path point
        match spec_read_nums(op.operands, 2) {
            Some(v) => spec_no_effect(
                CursorV {
                    state: PdfState {
                        m: (spec_clamp(v[0] as int) as i64, spec_clamp(v[1] as int) as i64),
                        ..cur.state
                    },
                    ..cur
                },
                color,
            ),
            None => spec_err_effect(cur, color, i, name, spec_num_cause(op, 2)),
        }
    } else if spec_is1(name, 108) {
        // l : a line from the current path point
        match spec_read_nums(op.operands, 2) {
            Some(v) => {
                let seg = cur.state.spec_l((v[0] as int, v[1] as int));
                let line = PdfLine {
                    from: (seg.0.0 as i64, seg.0.1 as i64),
                    to: (seg.1.0 as i64, seg.1.1 as i64),
                };
                OpEffect {
                    cur,
                    color,
                    emitted: seq![UnitV::Line(line)],
                    err: None,
                    underline: false,
                }
            },
            None => spec_err_effect(cur, color, i, name, spec_num_cause(op, 2)),
        }
    } else if spec_is2(name, 114, 101) {
        // re : a rectangle becomes its four edges
        match spec_read_nums(op.operands, 4) {
            Some(v) => OpEffect {
                cur,
                color,
                emitted: spec_rect_units(cur, v[0] as int, v[1] as int, v[2] as int, v[3] as int),
                err: None,
                underline: false,
            },
            None => spec_err_effect(cur, color, i, name, spec_num_cause(op, 4)),
        }
    } else if spec_is3(name, 66, 68, 67) {
        // BDC : marked content; an ActualText attribute emits a run
        if op.operands@.len() < 2 {
            spec_err_effect(cur, color, i, name, OpErrorCause::MissingOperands)
        } else {
            match op.operands@[1] {
                PdfObj::Dict(entries) => match spec_dict_get(entries, spec_actual_text_key(), 0) {
                    Some(obj) => {
                        let text = spec_extract_text(obj, cur.alias);
                        OpEffect {
                            cur,
                            color: None,
                            emitted: seq![UnitV::Text(spec_marked_unit(cur, text, color))],
                            err: None,
                            underline: false,
                        }
                    },
                    None => spec_err_effect(cur, color, i, name, OpErrorCause::UnknownResource),
                },
                _ => spec_no_effect(cur, color),
            }
        }
    } else {
        // any other operator is ignored
        spec_no_effect(cur, color)
    }
}

/// The interpreter, one operator at a time from index `i`: returns the
/// final cursor and the accumulated units and diagnostics.  `color` is the
/// pending fill colour for the next emitted run; `depth` bounds recursion
/// through form XObjects.
pub open spec fn spec_stream(
    page: PdfPage,
    ops: Vec<PdfOp>,
    i: int,
    cur: CursorV,
    color: Option<Seq<u8>>,
    units: Seq<UnitV>,
    diags: Seq<ErrV>,
    depth: int,
) -> (CursorV, Seq<UnitV>, Seq<ErrV>)
    decreases depth, ops@.len() - i,
{
    if i < 0 || i >= ops@.len() || depth < 0 {
        (cur, units, diags)
    } else {
        let op = ops@[i];
        let name = op.operator@;
        if spec_is2(name, 68, 111) {
            // Do : interpret a form XObject in place
            if op.operands@.len() == 0 {
                spec_stream(
                    page,
                    ops,
                    i + 1,
                    cur,
                    color,
                    units,
                    spec_diag(diags, i, name, OpErrorCause::MissingOperands),
                    depth,
                )
            } else {
                match op.operands@[0] {
                    PdfObj::Name(n) => {
                        if spec_contains(n@, seq![73u8, 109u8]) {
                            // image XObjects are skipped by name
                            spec_stream(page, ops, i + 1, cur, color, units, diags, depth)
                        } else {
                            match spec_find_xobject(page.xobjects, n@) {
                                Some(xi) => {
                                    if depth == 0 {
                                        spec_stream(
                                            page,
                                            ops,
                                            i + 1,
                                            cur,
                                            color,
                                            units,
                                            spec_diag(diags, i, name, OpErrorCause::DepthLimit),
                                            depth,
                                        )
                                    } else {
                                        let (cur2, cu, cd) = spec_stream(
                                            page,
                                            page.xobjects@[xi].ops,
                                            0,
                                            cur,
                                            None,
                                            Seq::empty(),
                                            Seq::empty(),
                                            depth - 1,
                                        );
                                        spec_stream(
                                            page,
                                            ops,
                                            i + 1,
                                            cur2,
                                            color,
                                            units + cu,
                                            diags + cd,
                                            depth,
                                        )
                                    }
                                },
                                None => spec_stream(
                                    page,
                                    ops,
                                    i + 1,
                                    cur,
                                    color,
                                    units,
                                    spec_diag(diags, i, name, OpErrorCause::UnknownResource),
                                    depth,
                                ),
                            }
                        }
                    },
                    _ => spec_stream(
                        page,
                        ops,
                        i + 1,
                        cur,
                        color,
                        units,
                        spec_diag(diags, i, name, OpErrorCause::BadOperand),
                        depth,
                    ),
                }
            }
        } else {
            let eff = spec_op_effect(page, op, i, cur, color);
            let units2 = if eff.underline {
                spec_mark_underlined(units)
            } else {
                units + eff.emitted
            };
            let diags2 = match eff.err {
                Some(e) => diags.push(e),
                None => diags,
            };
            spec_stream(page, ops, i + 1, eff.cur, eff.color, units2, diags2, depth)
        }
    }
}

fn push_diag(diags: &mut Vec<OperatorError>, i: usize, operator: &Vec<u8>, cause: OpErrorCause)
    ensures
        errs_view(final(diags)@) == errs_view(old(diags)@).push(
            ErrV { op_index: i, operator: operator@, cause },
        ),
{
    diags.push(OperatorError { op_index: i, operator: clone_bytes(operator), cause });
    proof {
        assert(errs_view(diags@) =~= errs_view(old(diags)@).push(
            ErrV { op_index: i, operator: operator@, cause },
        ));
    }
}

impl PdfPage {
    #[verifier::rlimit(100)]
    #[verifier::spinoff_prover]
    fn op_show_text(
        &self,
        op: &PdfOp,
        i: usize,
        cursor: &mut PdfCursor,
        color: &mut Option<Vec<u8>>,
        units: &mut Vec<PdfUnit>,
        diags: &mut Vec<OperatorError>,
    )
        requires
            cursor_wf(old(cursor)@),
            spec_is2(op.operator@, 84, 106) || spec_is2(op.operator@, 84, 74)
                || spec_is1(op.operator@, 39) || spec_is1(op.operator@, 34),
        ensures
            ({
                let eff = spec_op_effect(*self, *op, i as int, old(cursor)@, view_opt_bytes(*old(color)));
                &&& cursor_wf(final(cursor)@)
                &&& final(cursor)@ == eff.cur
                &&& view_opt_bytes(*final(color)) == eff.color
                &&& units_view(final(units)@) == (if eff.underline {
                    spec_mark_underlined(units_view(old(units)@))
                } else {
                    units_view(old(units)@) + eff.emitted
                })
                &&& errs_view(final(diags)@) == (match eff.err {
                    Some(e) => errs_view(old(diags)@).push(e),
                    None => errs_view(old(diags)@),
                })
            }),
    {
        let ghost units0 = units_view(units@);
        let ghost color0 = view_opt_bytes(*color);
            if is1(&op.operator, 39) || is1(&op.operator, 34) {
                let neg_leading = -cursor.state.leading;
                cursor.state.td(0, neg_leading);
            }
            let text = extract_text_from_objs(&op.operands, &cursor.current_font_alias);
            let pos = cursor.state.current_position();
            let fs = match cursor.current_font_size {
                Some(s) => Some(fx_mul(s, cursor.state.tm.d)),
                None => None,
            };
            let c = color.take();
            let run = PdfText {
                text,
                italic: cursor.state.tm.c != 0,
                font_name: match &cursor.current_font_name {
                    Some(n) => Some(clone_bytes(n)),
                    None => None,
                },
                font_size: fs,
                x: pos.0,
                y: pos.1,
                underlined: false,
                color: c,
            };
            proof {
                assert(run@ =~~= spec_text_unit(
                    cursor@,
                    spec_extract_texts(op.operands, cursor@.alias),
                    color0,
                ));
            }
            units.push(PdfUnit::Text(run));
            proof {
                assert(units_view(units@) =~= units0 + seq![UnitV::Text(spec_text_unit(
                    cursor@,
                    spec_extract_texts(op.operands, cursor@.alias),
                    color0,
                ))]);
            }
    }

    #[verifier::rlimit(100)]
    #[verifier::spinoff_prover]
    fn op_marked_content(
        &self,
        op: &PdfOp,
        i: usize,
        cursor: &mut PdfCursor,
        color: &mut Option<Vec<u8>>,
        units: &mut Vec<PdfUnit>,
        diags: &mut Vec<OperatorError>,
    )
        requires
            cursor_wf(old(cursor)@),
            spec_is3(op.operator@, 66, 68, 67),
        ensures
            ({
                let eff = spec_op_effect(*self, *op, i as int, old(cursor)@, view_opt_bytes(*old(color)));
                &&& cursor_wf(final(cursor)@)
                &&& final(cursor)@ == eff.cur
                &&& view_opt_bytes(*final(color)) == eff.color
                &&& units_view(final(units)@) == (if eff.underline {
                    spec_mark_underlined(units_view(old(units)@))
                } else {
                    units_view(old(units)@) + eff.emitted
                })
                &&& errs_view(final(diags)@) == (match eff.err {
                    Some(e) => errs_view(old(diags)@).push(e),
                    None => errs_view(old(diags)@),
                })
            }),
    {
        let ghost units0 = units_view(units@);
        let ghost color0 = view_opt_bytes(*color);
        // BDC
        if op.operands.len() < 2 {
            push_diag(diags, i, &op.operator, OpErrorCause::MissingOperands);
            proof {
                assert(units_view(units@) =~= units0 + Seq::<UnitV>::empty());
            }
        } else {
            match &op.operands[1] {
                PdfObj::Dict(entries) => {
                    match find_actual_text(entries) {
                        Some(ei) => {
                            let text = extract_text_from_obj(
                                &entries[ei].value,
                                &cursor.current_font_alias,
                            );
                            let pos = cursor.state.current_position();
                            let c = color.take();
                            let run = PdfText {
                                text,
                                italic: false,
                                font_name: None,
                                font_size: None,
                                x: pos.0,
                                y: pos.1,
                                underlined: false,
                                color: c,
                            };
                            proof {
                                assert(run@ =~~= spec_marked_unit(
                                    cursor@,
                                    spec_extract_text(entries@[ei as int].value, cursor@.alias),
                                    color0,
                                ));
                            }
                            units.push(PdfUnit::Text(run));
                            proof {
                                assert(units_view(units@) =~= units0 + seq![UnitV::Text(
                                    spec_marked_unit(
                                        cursor@,
                                        spec_extract_text(
                                            entries@[ei as int].value,
                                            cursor@.alias,
                                        ),
                                        color0,
                                    ),
                                )]);
                            }
                        },
                        None => {
                            push_diag(diags, i, &op.operator, OpErrorCause::UnknownResource);
                            proof {
                                assert(units_view(units@) =~= units0 + Seq::<UnitV>::empty());
                            }
                        },
                    }
                },
                _ => {
                    proof {
                        assert(units_view(units@) =~= units0 + Seq::<UnitV>::empty());
                    }
                },
            }
        }

    }

    #[verifier::rlimit(100)]
    #[verifier::spinoff_prover]
    fn op_select_font(
        &self,
        op: &PdfOp,
        i: usize,
        cursor: &mut PdfCursor,
        color: &mut Option<Vec<u8>>,
        units: &mut Vec<PdfUnit>,
        diags: &mut Vec<OperatorError>,
    )
        requires
            cursor_wf(old(cursor)@),
            spec_is2(op.operator@, 84, 102),
        ensures
            ({
                let eff = spec_op_effect(*self, *op, i as int, old(cursor)@, view_opt_bytes(*old(color)));
                &&& cursor_wf(final(cursor)@)
                &&& final(cursor)@ == eff.cur
                &&& view_opt_bytes(*final(color)) == eff.color
                &&& units_view(final(units)@) == (if eff.underline {
                    spec_mark_underlined(units_view(old(units)@))
                } else {
                    units_view(old(units)@) + eff.emitted
                })
                &&& errs_view(final(diags)@) == (match eff.err {
                    Some(e) => errs_view(old(diags)@).push(e),
                    None => errs_view(old(diags)@),
                })
            }),
    {
        let ghost units0 = units_view(units@);
        let ghost color0 = view_opt_bytes(*color);
        // Tf
        if op.operands.len() < 2 {
            push_diag(diags, i, &op.operator, OpErrorCause::MissingOperands);
        } else {
            let alias_ok = match &op.operands[0] {
                PdfObj::Name(_) => true,
                _ => false,
            };
            if alias_ok {
                match &op.operands[0] {
                    PdfObj::Name(alias) => {
                        cursor.current_font_alias = clone_bytes(alias);
                    },
                    _ => {},
                }
                cursor.current_font_size = match &op.operands[1] {
                    PdfObj::Number(v) => Some(fx_clamp(*v)),
                    _ => None,
                };
                match find_font(&self.fonts, &cursor.current_font_alias) {
                    Some(fi) => {
                        match &self.fonts[fi].base_name {
                            Some(bn) => {
                                cursor.current_font_name = Some(clone_bytes(bn));
                            },
                            None => {
                                push_diag(
                                    diags,
                                    i,
                                    &op.operator,
                                    OpErrorCause::UnknownResource,
                                );
                            },
                        }
                    },
                    None => {
                        push_diag(diags, i, &op.operator, OpErrorCause::UnknownFont);
                    },
                }
            } else {
                push_diag(diags, i, &op.operator, OpErrorCause::BadOperand);
            }
        }
        proof {
            assert(units_view(units@) =~= units0 + Seq::<UnitV>::empty());
        }

    }

    #[verifier::rlimit(100)]
    #[verifier::spinoff_prover]
    fn op_fill_color(
        &self,
        op: &PdfOp,
        i: usize,
        cursor: &mut PdfCursor,
        color: &mut Option<Vec<u8>>,
        units: &mut Vec<PdfUnit>,
        diags: &mut Vec<OperatorError>,
    )
        requires
            cursor_wf(old(cursor)@),
            spec_is2(op.operator@, 115, 99) || spec_is2(op.operator@, 114, 103),
        ensures
            ({
                let eff = spec_op_effect(*self, *op, i as int, old(cursor)@, view_opt_bytes(*old(color)));
                &&& cursor_wf(final(cursor)@)
                &&& final(cursor)@ == eff.cur
                &&& view_opt_bytes(*final(color)) == eff.color
                &&& units_view(final(units)@) == (if eff.underline {
                    spec_mark_underlined(units_view(old(units)@))
                } else {
                    units_view(old(units)@) + eff.emitted
                })
                &&& errs_view(final(diags)@) == (match eff.err {
                    Some(e) => errs_view(old(diags)@).push(e),
                    None => errs_view(old(diags)@),
                })
            }),
    {
        let ghost units0 = units_view(units@);
        if op.operands.len() >= 3 {
            match read_nums(&op.operands, 3) {
                Some(v) => {
                    if v[0] != 0 || v[1] != 0 || v[2] != 0 {
                        *color = Some(rgb_to_hex(v[0], v[1], v[2]));
                    }
                },
                None => {
                    push_diag(diags, i, &op.operator, OpErrorCause::BadOperand);
                },
            }
        }
        proof {
            assert(units_view(units@) =~= units0 + Seq::<UnitV>::empty());
        }
    }

    #[verifier::rlimit(100)]
    #[verifier::spinoff_prover]
    fn op_stroke_color(
        &self,
        op: &PdfOp,
        i: usize,
        cursor: &mut PdfCursor,
        color: &mut Option<Vec<u8>>,
        units: &mut Vec<PdfUnit>,
        diags: &mut Vec<OperatorError>,
    )
        requires
            cursor_wf(old(cursor)@),
            spec_is2(op.operator@, 83, 67) || spec_is2(op.operator@, 82, 71),
        ensures
            ({
                let eff = spec_op_effect(*self, *op, i as int, old(cursor)@, view_opt_bytes(*old(color)));
                &&& cursor_wf(final(cursor)@)
                &&& final(cursor)@ == eff.cur
                &&& view_opt_bytes(*final(color)) == eff.color
                &&& units_view(final(units)@) == (if eff.underline {
                    spec_mark_underlined(units_view(old(units)@))
                } else {
                    units_view(old(units)@) + eff.emitted
                })
                &&& errs_view(final(diags)@) == (match eff.err {
                    Some(e) => errs_view(old(diags)@).push(e),
                    None => errs_view(old(diags)@),
                })
            }),
    {
        let ghost units0 = units_view(units@);
        if units.len() > 0 {
            match units.pop() {
                Some(u) => match u {
                    PdfUnit::Text(mut t) => {
                        t.underlined = true;
                        units.push(PdfUnit::Text(t));
                        proof {
                            assert(units_view(units@) =~= spec_mark_underlined(units0));
                        }
                    },
                    PdfUnit::Line(l) => {
                        units.push(PdfUnit::Line(l));
                        proof {
                            assert(units_view(units@) =~= units0);
                            assert(units_view(units@) =~= spec_mark_underlined(units0));
                        }
                    },
                },
                None => {},
            }
        }
    }

    #[verifier::rlimit(100)]
    #[verifier::spinoff_prover]
    fn op_path(
        &self,
        op: &PdfOp,
        i: usize,
        cursor: &mut PdfCursor,
        color: &mut Option<Vec<u8>>,
        units: &mut Vec<PdfUnit>,
        diags: &mut Vec<OperatorError>,
    )
        requires
            cursor_wf(old(cursor)@),
            spec_is1(op.operator@, 109) || spec_is1(op.operator@, 108) || spec_is2(
                op.operator@,
                114,
                101,
            ),
        ensures
            ({
                let eff = spec_op_effect(*self, *op, i as int, old(cursor)@, view_opt_bytes(*old(color)));
                &&& cursor_wf(final(cursor)@)
                &&& final(cursor)@ == eff.cur
                &&& view_opt_bytes(*final(color)) == eff.color
                &&& units_view(final(units)@) == (if eff.underline {
                    spec_mark_underlined(units_view(old(units)@))
                } else {
                    units_view(old(units)@) + eff.emitted
                })
                &&& errs_view(final(diags)@) == (match eff.err {
                    Some(e) => errs_view(old(diags)@).push(e),
                    None => errs_view(old(diags)@),
                })
            }),
    {
        let ghost units0 = units_view(units@);
        let ghost color0 = view_opt_bytes(*color);
        if is1(&op.operator, 109) {
            // m
            match read_nums(&op.operands, 2) {
                Some(v) => {
                    cursor.state.m(v[0], v[1]);
                },
                None => {
                    let cause = if op.operands.len() < 2 {
                        OpErrorCause::MissingOperands
                    } else {
                        OpErrorCause::BadOperand
                    };
                    push_diag(diags, i, &op.operator, cause);
                },
            }
            proof {
                assert(units_view(units@) =~= units0 + Seq::<UnitV>::empty());
            }
        } else if is1(&op.operator, 108) {
            // l
            match read_nums(&op.operands, 2) {
                Some(v) => {
                    let seg = cursor.state.l((v[0], v[1]));
                    units.push(PdfUnit::Line(PdfLine { from: seg.0, to: seg.1 }));
                    proof {
                        let sseg = cursor@.state.spec_l((v@[0] as int, v@[1] as int));
                        assert(units_view(units@) =~= units0 + seq![UnitV::Line(PdfLine {
                            from: (sseg.0.0 as i64, sseg.0.1 as i64),
                            to: (sseg.1.0 as i64, sseg.1.1 as i64),
                        })]);
                    }
                },
                None => {
                    let cause = if op.operands.len() < 2 {
                        OpErrorCause::MissingOperands
                    } else {
                        OpErrorCause::BadOperand
                    };
                    push_diag(diags, i, &op.operator, cause);
                    proof {
                        assert(units_view(units@) =~= units0 + Seq::<UnitV>::empty());
                    }
                },
            }
        } else {
            // re
            match read_nums(&op.operands, 4) {
                Some(v) => {
                    let x = fx_clamp(v[0]);
                    let y = fx_clamp(v[1]);
                    let x2 = fx_clamp_wide((v[0] as i128) + (v[2] as i128));
                    let y2 = fx_clamp_wide((v[1] as i128) + (v[3] as i128));
                    let e1 = cursor.state.re((x, y), (x2, y));
                    let e2 = cursor.state.re((x2, y), (x2, y2));
                    let e3 = cursor.state.re((x2, y2), (x, y2));
                    let e4 = cursor.state.re((x, y2), (x, y));
                    units.push(PdfUnit::Line(PdfLine { from: e1.0, to: e1.1 }));
                    units.push(PdfUnit::Line(PdfLine { from: e2.0, to: e2.1 }));
                    units.push(PdfUnit::Line(PdfLine { from: e3.0, to: e3.1 }));
                    units.push(PdfUnit::Line(PdfLine { from: e4.0, to: e4.1 }));
                    proof {
                        assert(units_view(units@) =~= units0 + spec_rect_units(
                            cursor@,
                            v@[0] as int,
                            v@[1] as int,
                            v@[2] as int,
                            v@[3] as int,
                        ));
                    }
                },
                None => {
                    let cause = if op.operands.len() < 4 {
                        OpErrorCause::MissingOperands
                    } else {
                        OpErrorCause::BadOperand
                    };
                    push_diag(diags, i, &op.operator, cause);
                    proof {
                        assert(units_view(units@) =~= units0 + Seq::<UnitV>::empty());
                    }
                },
            }
        }
    }

    #[verifier::rlimit(100)]
    #[verifier::spinoff_prover]
    fn op_state(
        &self,
        op: &PdfOp,
        i: usize,
        cursor: &mut PdfCursor,
        color: &mut Option<Vec<u8>>,
        units: &mut Vec<PdfUnit>,
        diags: &mut Vec<OperatorError>,
    )
        requires
            cursor_wf(old(cursor)@),
            !spec_is2(op.operator@, 68, 111),
            !spec_is2(op.operator@, 84, 106),
            !spec_is2(op.operator@, 84, 74),
            !spec_is1(op.operator@, 39),
            !spec_is1(op.operator@, 34),
            !spec_is3(op.operator@, 66, 68, 67),
            !spec_is2(op.operator@, 84, 102),
            !spec_is2(op.operator@, 115, 99),
            !spec_is2(op.operator@, 114, 103),
            !spec_is2(op.operator@, 83, 67),
            !spec_is2(op.operator@, 82, 71),
            !spec_is1(op.operator@, 109),
            !spec_is1(op.operator@, 108),
            !spec_is2(op.operator@, 114, 101),
        ensures
            ({
                let eff = spec_op_effect(*self, *op, i as int, old(cursor)@, view_opt_bytes(*old(color)));
                &&& cursor_wf(final(cursor)@)
                &&& final(cursor)@ == eff.cur
                &&& view_opt_bytes(*final(color)) == eff.color
                &&& units_view(final(units)@) == (if eff.underline {
                    spec_mark_underlined(units_view(old(units)@))
                } else {
                    units_view(old(units)@) + eff.emitted
                })
                &&& errs_view(final(diags)@) == (match eff.err {
                    Some(e) => errs_view(old(diags)@).push(e),
                    None => errs_view(old(diags)@),
                })
            }),
    {
        let ghost units0 = units_view(units@);
        let ghost color0 = view_opt_bytes(*color);
        if is2(&op.operator, 66, 84) {
            // BT
            cursor.state.bt();
            proof {
                assert(units_view(units@) =~= units0 + Seq::<UnitV>::empty());
            }
        } else if is1(&op.operator, 113) {
            // q
            let snapshot = cursor.state;
            cursor.state_stack.push(snapshot);
            proof {
                assert(units_view(units@) =~= units0 + Seq::<UnitV>::empty());
            }
        } else if is1(&op.operator, 81) {
            // Q
            match cursor.state_stack.pop() {
                Some(s) => {
                    cursor.state = s;
                },
                None => {
                    cursor.state = PdfState::new();
                },
            }
            proof {
                assert(units_view(units@) =~= units0 + Seq::<UnitV>::empty());
            }
        } else if is2(&op.operator, 69, 84) {
            // ET
            cursor.state.et();
            proof {
                assert(units_view(units@) =~= units0 + Seq::<UnitV>::empty());
            }
        } else if is2(&op.operator, 99, 109) {
            // cm
            match read_nums(&op.operands, 6) {
                Some(v) => {
                    cursor.state.cm(v[0], v[1], v[2], v[3], v[4], v[5]);
                },
                None => {
                    let cause = if op.operands.len() < 6 {
                        OpErrorCause::MissingOperands
                    } else {
                        OpErrorCause::BadOperand
                    };
                    push_diag(diags, i, &op.operator, cause);
                },
            }
            proof {
                assert(units_view(units@) =~= units0 + Seq::<UnitV>::empty());
            }
        } else if is2(&op.operator, 84, 109) {
            // Tm
            match read_nums(&op.operands, 6) {
                Some(v) => {
                    cursor.state.tm(v[0], v[1], v[2], v[3], v[4], v[5]);
                },
                None => {
                    let cause = if op.operands.len() < 6 {
                        OpErrorCause::MissingOperands
                    } else {
                        OpErrorCause::BadOperand
                    };
                    push_diag(diags, i, &op.operator, cause);
                },
            }
            proof {
                assert(units_view(units@) =~= units0 + Seq::<UnitV>::empty());
            }
        } else if is2(&op.operator, 84, 100) {
            // Td
            match read_nums(&op.operands, 2) {
                Some(v) => {
                    cursor.state.td(v[0], v[1]);
                },
                None => {
                    let cause = if op.operands.len() < 2 {
                        OpErrorCause::MissingOperands
                    } else {
                        OpErrorCause::BadOperand
                    };
                    push_diag(diags, i, &op.operator, cause);
                },
            }
            proof {
                assert(units_view(units@) =~= units0 + Seq::<UnitV>::empty());
            }
        } else if is2(&op.operator, 84, 68) {
            // TD
            match read_nums(&op.operands, 2) {
                Some(v) => {
                    cursor.state.td_capital(v[0], v[1]);
                },
                None => {
                    let cause = if op.operands.len() < 2 {
                        OpErrorCause::MissingOperands
                    } else {
                        OpErrorCause::BadOperand
                    };
                    push_diag(diags, i, &op.operator, cause);
                },
            }
            proof {
                assert(units_view(units@) =~= units0 + Seq::<UnitV>::empty());
            }
        } else if is2(&op.operator, 84, 76) {
            // TL
            match read_nums(&op.operands, 1) {
                Some(v) => {
                    cursor.state.tl(v[0]);
                },
                None => {
                    let cause = if op.operands.len() < 1 {
                        OpErrorCause::MissingOperands
                    } else {
                        OpErrorCause::BadOperand
                    };
                    push_diag(diags, i, &op.operator, cause);
                },
            }
            proof {
                assert(units_view(units@) =~= units0 + Seq::<UnitV>::empty());
            }
        } else if is2(&op.operator, 84, 42) {
            // T*
            let neg_leading = -cursor.state.leading;
            cursor.state.td(0, neg_leading);
            proof {
                assert(units_view(units@) =~= units0 + Seq::<UnitV>::empty());
            }
        } else {
            proof {
                assert(units_view(units@) =~= units0 + Seq::<UnitV>::empty());
            }
        }
    }

    /// Applies one operator other than `Do` to the cursor, the pending
    /// colour, the emitted units and the diagnostics.
    fn handle_op(
        &self,
        op: &PdfOp,
        i: usize,
        cursor: &mut PdfCursor,
        color: &mut Option<Vec<u8>>,
        units: &mut Vec<PdfUnit>,
        diags: &mut Vec<OperatorError>,
    )
        requires
            cursor_wf(old(cursor)@),
            !spec_is2(op.operator@, 68, 111),
        ensures
            ({
                let eff = spec_op_effect(*self, *op, i as int, old(cursor)@, view_opt_bytes(*old(color)));
                &&& cursor_wf(final(cursor)@)
                &&& final(cursor)@ == eff.cur
                &&& view_opt_bytes(*final(color)) == eff.color
                &&& units_view(final(units)@) == (if eff.underline {
                    spec_mark_underlined(units_view(old(units)@))
                } else {
                    units_view(old(units)@) + eff.emitted
                })
                &&& errs_view(final(diags)@) == (match eff.err {
                    Some(e) => errs_view(old(diags)@).push(e),
                    None => errs_view(old(diags)@),
                })
            }),
    {
        if is2(&op.operator, 84, 106) || is2(&op.operator, 84, 74) || is1(&op.operator, 39) || is1(
            &op.operator,
            34,
        ) {
            self.op_show_text(op, i, cursor, color, units, diags);
        } else if is3(&op.operator, 66, 68, 67) {
            self.op_marked_content(op, i, cursor, color, units, diags);
        } else if is2(&op.operator, 84, 102) {
            self.op_select_font(op, i, cursor, color, units, diags);
        } else if is2(&op.operator, 115, 99) || is2(&op.operator, 114, 103) || is2(
            &op.operator,
            83,
            67,
        ) || is2(&op.operator, 82, 71) {
            if is2(&op.operator, 115, 99) || is2(&op.operator, 114, 103) {
                self.op_fill_color(op, i, cursor, color, units, diags);
            } else {
                self.op_stroke_color(op, i, cursor, color, units, diags);
            }
        } else if is1(&op.operator, 109) || is1(&op.operator, 108) || is2(&op.operator, 114, 101) {
            self.op_path(op, i, cursor, color, units, diags);
        } else {
            self.op_state(op, i, cursor, color, units, diags);
        }
    }

    /// Executes the operator list over the cursor, appending recoverable
    /// operator errors to `diags` and returning the emitted units.
    #[verifier::rlimit(100)]
    #[verifier::spinoff_prover]
    pub fn handle_stream(
        &self,
        ops: &Vec<PdfOp>,
        cursor: &mut PdfCursor,
        depth: u32,
        diags: &mut Vec<OperatorError>,
    ) -> (units: Vec<PdfUnit>)
        requires
            cursor_wf(old(cursor)@),
        ensures
            ({
                let r = spec_stream(
                    *self,
                    *ops,
                    0,
                    old(cursor)@,
                    None,
                    Seq::empty(),
                    Seq::empty(),
                    depth as int,
                );
                &&& cursor_wf(final(cursor)@)
                &&& final(cursor)@ == r.0
                &&& units_view(units@) == r.1
                &&& errs_view(final(diags)@) == errs_view(old(diags)@) + r.2
            }),
        decreases depth,
    {
        let ghost goal = spec_stream(
            *self,
            *ops,
            0,
            cursor@,
            None,
            Seq::empty(),
            Seq::empty(),
            depth as int,
        );
        let ghost d0 = errs_view(diags@);
        let ghost mut gdiags: Seq<ErrV> = Seq::empty();
        let mut units: Vec<PdfUnit> = Vec::new();
        let mut color: Option<Vec<u8>> = None;
        let mut i: usize = 0;
        proof {
            assert(d0 + gdiags =~= d0);
            assert(units_view(units@) =~= Seq::<UnitV>::empty());
        }
        while i < ops.len()
            invariant
                cursor_wf(cursor@),
                i <= ops@.len(),
                errs_view(diags@) == d0 + gdiags,
                spec_stream(
                    *self,
                    *ops,
                    i as int,
                    cursor@,
                    view_opt_bytes(color),
                    units_view(units@),
                    gdiags,
                    depth as int,
                ) == goal,
            decreases ops@.len() - i,
        {
            let ghost units0 = units_view(units@);
            let ghost gd0 = gdiags;
            let op = &ops[i];
            let ghost name = op.operator@;
            if is2(&op.operator, 68, 111) {
                // Do
                if op.operands.len() == 0 {
                    push_diag(diags, i, &op.operator, OpErrorCause::MissingOperands);
                    proof {
                        gdiags = spec_diag(gdiags, i as int, name, OpErrorCause::MissingOperands);
                        assert(errs_view(diags@) =~= d0 + gdiags);
                    }
                } else {
                    match &op.operands[0] {
                        PdfObj::Name(n) => {
                            if contains2(n, 73, 109) {
                                // image XObject: skipped
                            } else {
                                match find_xobject(&self.xobjects, n) {
                                    Some(xi) => {
                                        if depth == 0 {
                                            push_diag(
                                                diags,
                                                i,
                                                &op.operator,
                                                OpErrorCause::DepthLimit,
                                            );
                                            proof {
                                                gdiags = spec_diag(
                                                    gdiags,
                                                    i as int,
                                                    name,
                                                    OpErrorCause::DepthLimit,
                                                );
                                                assert(errs_view(diags@) =~= d0 + gdiags);
                                            }
                                        } else {
                                            let ghost triple = spec_stream(
                                                *self,
                                                self.xobjects@[xi as int].ops,
                                                0,
                                                cursor@,
                                                None,
                                                Seq::empty(),
                                                Seq::empty(),
                                                depth - 1,
                                            );
                                            let mut cu = self.handle_stream(
                                                &self.xobjects[xi].ops,
                                                cursor,
                                                depth - 1,
                                                diags,
                                            );
                                            units.append(&mut cu);
                                            proof {
                                                gdiags = gd0 + triple.2;
                                                assert(errs_view(diags@) =~= d0 + gdiags);
                                                assert(units_view(units@) =~= units0 + triple.1);
                                            }
                                        }
                                    },
                                    None => {
                                        push_diag(
                                            diags,
                                            i,
                                            &op.operator,
                                            OpErrorCause::UnknownResource,
                                        );
                                        proof {
                                            gdiags = spec_diag(
                                                gdiags,
                                                i as int,
                                                name,
                                                OpErrorCause::UnknownResource,
                                            );
                                            assert(errs_view(diags@) =~= d0 + gdiags);
                                        }
                                    },
                                }
                            }
                        },
                        _ => {
                            push_diag(diags, i, &op.operator, OpErrorCause::BadOperand);
                            proof {
                                gdiags = spec_diag(gdiags, i as int, name, OpErrorCause::BadOperand);
                                assert(errs_view(diags@) =~= d0 + gdiags);
                            }
                        },
                    }
                }
            } else {
                let ghost eff = spec_op_effect(
                    *self,
                    *op,
                    i as int,
                    cursor@,
                    view_opt_bytes(color),
                );
                self.handle_op(op, i, cursor, &mut color, &mut units, diags);
                proof {
                    match eff.err {
                        Some(e) => {
                            gdiags = gd0.push(e);
                            assert(errs_view(diags@) =~= d0 + gdiags);
                        },
                        None => {
                        },
                    }
                }
            }
            proof {
                assert(spec_stream(
                    *self,
                    *ops,
                    i + 1,
                    cursor@,
                    view_opt_bytes(color),
                    units_view(units@),
                    gdiags,
                    depth as int,
                ) == goal);
            }
            i = i + 1;
        }
        units
    }
}

} // verus!

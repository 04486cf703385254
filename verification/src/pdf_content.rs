//! Plain-value model of decoded page content.
//!
//! The unverified shell parses the PDF container and hands the interpreter
//! one `PdfPage` per page: the decoded operator list, the page's font
//! table, and the resolved form-XObject streams.  Every number is already a
//! fixed-point coordinate, and every string operand carries the text that
//! each of the page's font encodings decodes it to, so that no outside
//! library is touched from verified code.

use crate::bytes::{bytes_eq, clone_bytes};
use vstd::prelude::*;

verus! {

broadcast use vstd::std_specs::vec::group_vec_axioms, vstd::seq::group_seq_axioms;

/// What one font encoding makes of a string operand's bytes.
pub struct Decoding {
    /// The font alias (the name selected by `Tf`) whose encoding was used.
    pub alias: Vec<u8>,
    /// The decoded text, as UTF-8 bytes.
    pub text: Vec<u8>,
}

/// A string operand: its raw bytes plus its decoding under each font of the
/// surrounding stream's (merged, scoped) encoding table.
pub struct TextArg {
    pub bytes: Vec<u8>,
    pub decodings: Vec<Decoding>,
}

/// An array operand (as in `TJ`); its decodings apply to the concatenation
/// of the string bytes it contains.
pub struct ArrayArg {
    pub items: Vec<PdfObj>,
    pub decodings: Vec<Decoding>,
}

pub struct DictEntry {
    pub key: Vec<u8>,
    pub value: PdfObj,
}

/// A decoded operand.  Anything the interpreter does not read is `Other`.
pub enum PdfObj {
    /// A numeric operand, in fixed-point thousandths.
    Number(i64),
    Name(Vec<u8>),
    Text(TextArg),
    Array(ArrayArg),
    Dict(Vec<DictEntry>),
    Other,
}

/// One content-stream operation: operator and operands, in stream order.
pub struct PdfOp {
    pub operator: Vec<u8>,
    pub operands: Vec<PdfObj>,
}

/// The text bytes an operand contributes when shown: strings and names as
/// they stand, arrays flattened in order, everything else nothing.
pub open spec fn spec_flatten(obj: PdfObj) -> Seq<u8>
    decreases obj,
{
    match obj {
        PdfObj::Name(b) => b@,
        PdfObj::Text(t) => t.bytes@,
        PdfObj::Array(a) => spec_flatten_prefix(a.items, a.items@.len() as int),
        _ => Seq::empty(),
    }
}

/// The concatenated text bytes of the first `k` items.
pub open spec fn spec_flatten_prefix(items: Vec<PdfObj>, k: int) -> Seq<u8>
    decreases items, k,
{
    if k <= 0 || k > items@.len() {
        Seq::empty()
    } else {
        spec_flatten_prefix(items, k - 1) + spec_flatten(items@[k - 1])
    }
}

/// Flattens one operand to the bytes it would show.
pub fn extract_bytes_from_obj(obj: &PdfObj) -> (r: Vec<u8>)
    ensures
        r@ == spec_flatten(*obj),
    decreases *obj,
{
    match obj {
        PdfObj::Name(b) => clone_bytes(b),
        PdfObj::Text(t) => clone_bytes(&t.bytes),
        PdfObj::Array(a) => {
            let mut out: Vec<u8> = Vec::new();
            let mut i: usize = 0;
            while i < a.items.len()
                invariant
                    *obj == PdfObj::Array(*a),
                    i <= a.items@.len(),
                    out@ == spec_flatten_prefix(a.items, i as int),
                decreases a.items@.len() - i,
            {
                proof {
                    assert(decreases_to!(*obj => obj->Array_0));
                    assert(decreases_to!(obj->Array_0 => obj->Array_0.items));
                    assert(decreases_to!(obj->Array_0.items => obj->Array_0.items[i as int]));
                    assert(obj->Array_0 == *a);
                }
                let mut piece = extract_bytes_from_obj(&a.items[i]);
                out.append(&mut piece);
                i = i + 1;
            }
            out
        },
        _ => Vec::new(),
    }
}

/// One font of a stream's (merged, scoped) font table.
pub struct FontEntry {
    pub alias: Vec<u8>,
    /// The font's `BaseFont` name; `None` where the font dictionary gives
    /// none (selecting such a font is a recoverable operator error).
    pub base_name: Option<Vec<u8>>,
}

/// A resolved form XObject: its decoded operator list, interpreted in place
/// of a `Do` operator that names it.
pub struct XObjectEntry {
    pub name: Vec<u8>,
    pub ops: Vec<PdfOp>,
}

/// The first decoding recorded for `alias`, if any.
pub open spec fn spec_lookup_from(decs: Vec<Decoding>, alias: Seq<u8>, i: int) -> Option<Seq<u8>>
    decreases decs@.len() - i,
{
    if i < 0 || i >= decs@.len() {
        None
    } else if decs@[i].alias@ == alias {
        Some(decs@[i].text@)
    } else {
        spec_lookup_from(decs, alias, i + 1)
    }
}

pub open spec fn spec_lookup_decoding(decs: Vec<Decoding>, alias: Seq<u8>) -> Option<Seq<u8>> {
    spec_lookup_from(decs, alias, 0)
}

fn lookup_decoding(decs: &Vec<Decoding>, alias: &Vec<u8>) -> (r: Option<Vec<u8>>)
    ensures
        match r {
            Some(t) => spec_lookup_decoding(*decs, alias@) == Some(t@),
            None => spec_lookup_decoding(*decs, alias@) is None,
        },
{
    let mut i: usize = 0;
    while i < decs.len()
        invariant
            i <= decs@.len(),
            spec_lookup_decoding(*decs, alias@) == spec_lookup_from(*decs, alias@, i as int),
        decreases decs@.len() - i,
    {
        if bytes_eq(&decs[i].alias, alias.as_slice()) {
            return Some(clone_bytes(&decs[i].text));
        }
        i = i + 1;
    }
    None
}

/// What the UTF-16 big-endian code units of `bytes` after the 2-byte order
/// mark are; a trailing odd byte is dropped.
pub open spec fn spec_units_be(bytes: Seq<u8>) -> Seq<u16> {
    Seq::new(
        ((bytes.len() - 2) / 2) as nat,
        |i: int| (bytes[2 + 2 * i] * 256 + bytes[3 + 2 * i]) as u16,
    )
}

/// The little-endian counterpart.
pub open spec fn spec_units_le(bytes: Seq<u8>) -> Seq<u16> {
    Seq::new(
        ((bytes.len() - 2) / 2) as nat,
        |i: int| (bytes[3 + 2 * i] * 256 + bytes[2 + 2 * i]) as u16,
    )
}

/// What `String::from_utf16_lossy` makes of a code-unit sequence, as UTF-8
/// bytes.
pub uninterp spec fn utf16_lossy_of(units: Seq<u16>) -> Seq<u8>;

/// Relies on `String::from_utf16_lossy`: the result is a function of the
/// code units alone; code units below 0x80 decode to themselves.
#[verifier::external_body]
fn utf16_lossy(units: &Vec<u16>) -> (r: Vec<u8>)
    ensures
        r@ == utf16_lossy_of(units@),
        (forall|i: int| 0 <= i < units@.len() ==> units@[i] < 128) ==> r@ == units@.map_values(
            |u: u16| u as u8,
        ),
{
    String::from_utf16_lossy(units.as_slice()).into_bytes()
}

/// What `String::from_utf8_lossy` makes of a byte sequence, as UTF-8 bytes.
pub uninterp spec fn utf8_lossy_of(bytes: Seq<u8>) -> Seq<u8>;

/// Relies on `String::from_utf8_lossy`: the result is a function of the
/// bytes alone; valid UTF-8, and in particular plain ASCII, passes through
/// unchanged.
#[verifier::external_body]
fn utf8_lossy(bytes: &Vec<u8>) -> (r: Vec<u8>)
    ensures
        r@ == utf8_lossy_of(bytes@),
        (forall|i: int| 0 <= i < bytes@.len() ==> bytes@[i] < 128) ==> r@ == bytes@,
{
    String::from_utf8_lossy(bytes.as_slice()).into_owned().into_bytes()
}

/// Shown-text bytes turned into text when no font encoding applies: UTF-16
/// behind a byte-order mark, else lossy UTF-8.
pub open spec fn spec_fallback_decode(bytes: Seq<u8>) -> Seq<u8> {
    if bytes.len() >= 2 && bytes[0] == 0xfeu8 && bytes[1] == 0xffu8 {
        utf16_lossy_of(spec_units_be(bytes))
    } else if bytes.len() >= 2 && bytes[0] == 0xffu8 && bytes[1] == 0xfeu8 {
        utf16_lossy_of(spec_units_le(bytes))
    } else {
        utf8_lossy_of(bytes)
    }
}

fn collect_units(bytes: &Vec<u8>, big_endian: bool) -> (r: Vec<u16>)
    requires
        bytes@.len() >= 2,
    ensures
        big_endian ==> r@ == spec_units_be(bytes@),
        !big_endian ==> r@ == spec_units_le(bytes@),
{
    let mut units: Vec<u16> = Vec::new();
    let mut i: usize = 0;
    let total = (bytes.len() - 2) / 2;
    while i < total
        invariant
            bytes@.len() >= 2,
            bytes@.len() <= usize::MAX,
            total == (bytes@.len() - 2) / 2,
            2 * total + 2 <= bytes@.len(),
            i <= total,
            units@.len() == i,
            forall|j: int|
                0 <= j < i ==> units@[j] == (if big_endian {
                    (bytes@[2 + 2 * j] * 256 + bytes@[3 + 2 * j]) as u16
                } else {
                    (bytes@[3 + 2 * j] * 256 + bytes@[2 + 2 * j]) as u16
                }),
        decreases total - i,
    {
        let a = bytes[2 * i + 2];
        let b = bytes[2 * i + 3];
        let unit: u16 = if big_endian {
            (a as u16) * 256 + (b as u16)
        } else {
            (b as u16) * 256 + (a as u16)
        };
        units.push(unit);
        i = i + 1;
    }
    proof {
        if big_endian {
            assert(units@ =~= spec_units_be(bytes@));
        } else {
            assert(units@ =~= spec_units_le(bytes@));
        }
    }
    units
}

/// The byte-order-mark fallback chain over raw shown-text bytes.
pub fn fallback_decode(bytes: &Vec<u8>) -> (r: Vec<u8>)
    ensures
        r@ == spec_fallback_decode(bytes@),
{
    if bytes.len() >= 2 {
        let b0 = bytes[0];
        let b1 = bytes[1];
        if b0 == 0xfe && b1 == 0xff {
            let units = collect_units(bytes, true);
            return utf16_lossy(&units);
        }
        if b0 == 0xff && b1 == 0xfe {
            let units = collect_units(bytes, false);
            return utf16_lossy(&units);
        }
    }
    utf8_lossy(bytes)
}

/// The text one operand shows under the font `alias`: a recorded encoding
/// decoding where one exists, else the byte-order-mark fallback over the
/// operand's flattened bytes.
pub open spec fn spec_extract_text(obj: PdfObj, alias: Seq<u8>) -> Seq<u8> {
    let found = match obj {
        PdfObj::Text(t) => spec_lookup_decoding(t.decodings, alias),
        PdfObj::Array(a) => spec_lookup_decoding(a.decodings, alias),
        _ => None,
    };
    match found {
        Some(t) => t,
        None => spec_fallback_decode(spec_flatten(obj)),
    }
}

pub fn extract_text_from_obj(obj: &PdfObj, alias: &Vec<u8>) -> (r: Vec<u8>)
    ensures
        r@ == spec_extract_text(*obj, alias@),
{
    let found = match obj {
        PdfObj::Text(t) => lookup_decoding(&t.decodings, alias),
        PdfObj::Array(a) => lookup_decoding(&a.decodings, alias),
        _ => None,
    };
    match found {
        Some(t) => t,
        None => {
            let bytes = extract_bytes_from_obj(obj);
            fallback_decode(&bytes)
        },
    }
}

/// The concatenated text of the first `k` operands under the font `alias`.
pub open spec fn spec_extract_texts_prefix(objs: Vec<PdfObj>, alias: Seq<u8>, k: int) -> Seq<u8>
    decreases k,
{
    if k <= 0 || k > objs@.len() {
        Seq::empty()
    } else {
        spec_extract_texts_prefix(objs, alias, k - 1) + spec_extract_text(objs@[k - 1], alias)
    }
}

pub open spec fn spec_extract_texts(objs: Vec<PdfObj>, alias: Seq<u8>) -> Seq<u8> {
    spec_extract_texts_prefix(objs, alias, objs@.len() as int)
}

/// The text a text-showing operator's operand list shows, operand by
/// operand, under the current font.
pub fn extract_text_from_objs(objs: &Vec<PdfObj>, alias: &Vec<u8>) -> (r: Vec<u8>)
    ensures
        r@ == spec_extract_texts(*objs, alias@),
{
    let mut out: Vec<u8> = Vec::new();
    let mut i: usize = 0;
    while i < objs.len()
        invariant
            i <= objs@.len(),
            out@ == spec_extract_texts_prefix(*objs, alias@, i as int),
        decreases objs@.len() - i,
    {
        let mut piece = extract_text_from_obj(&objs[i], alias);
        out.append(&mut piece);
        i = i + 1;
    }
    out
}

/// The first font entry for `alias`, if any.
pub open spec fn spec_find_font_from(fonts: Vec<FontEntry>, alias: Seq<u8>, i: int) -> Option<
    FontEntry,
>
    decreases fonts@.len() - i,
{
    if i < 0 || i >= fonts@.len() {
        None
    } else if fonts@[i].alias@ == alias {
        Some(fonts@[i])
    } else {
        spec_find_font_from(fonts, alias, i + 1)
    }
}

pub open spec fn spec_find_font(fonts: Vec<FontEntry>, alias: Seq<u8>) -> Option<FontEntry> {
    spec_find_font_from(fonts, alias, 0)
}

/// Index of the first font entry for `alias`.
pub fn find_font(fonts: &Vec<FontEntry>, alias: &Vec<u8>) -> (r: Option<usize>)
    ensures
        match r {
            Some(i) => i < fonts@.len() && spec_find_font(*fonts, alias@) == Some(fonts@[i as int]),
            None => spec_find_font(*fonts, alias@) is None,
        },
{
    let mut i: usize = 0;
    while i < fonts.len()
        invariant
            i <= fonts@.len(),
            spec_find_font(*fonts, alias@) == spec_find_font_from(*fonts, alias@, i as int),
        decreases fonts@.len() - i,
    {
        if bytes_eq(&fonts[i].alias, alias.as_slice()) {
            return Some(i);
        }
        i = i + 1;
    }
    None
}

/// The first form XObject registered under `name`, if any.
pub open spec fn spec_find_xobject_from(xs: Vec<XObjectEntry>, name: Seq<u8>, i: int) -> Option<
    int,
>
    decreases xs@.len() - i,
{
    if i < 0 || i >= xs@.len() {
        None
    } else if xs@[i].name@ == name {
        Some(i)
    } else {
        spec_find_xobject_from(xs, name, i + 1)
    }
}

pub open spec fn spec_find_xobject(xs: Vec<XObjectEntry>, name: Seq<u8>) -> Option<int> {
    spec_find_xobject_from(xs, name, 0)
}

pub fn find_xobject(xs: &Vec<XObjectEntry>, name: &Vec<u8>) -> (r: Option<usize>)
    ensures
        match r {
            Some(i) => spec_find_xobject(*xs, name@) == Some(i as int) && i < xs@.len(),
            None => spec_find_xobject(*xs, name@) is None,
        },
{
    let mut i: usize = 0;
    while i < xs.len()
        invariant
            i <= xs@.len(),
            spec_find_xobject(*xs, name@) == spec_find_xobject_from(*xs, name@, i as int),
        decreases xs@.len() - i,
    {
        if bytes_eq(&xs[i].name, name.as_slice()) {
            return Some(i);
        }
        i = i + 1;
    }
    None
}

/// The first value stored under `key` in a dictionary operand.
pub open spec fn spec_dict_get(entries: Vec<DictEntry>, key: Seq<u8>, i: int) -> Option<PdfObj>
    decreases entries@.len() - i,
{
    if i < 0 || i >= entries@.len() {
        None
    } else if entries@[i].key@ == key {
        Some(entries@[i].value)
    } else {
        spec_dict_get(entries, key, i + 1)
    }
}

/// The `ActualText` key of a marked-content dictionary.
pub open spec fn spec_actual_text_key() -> Seq<u8> {
    seq![65u8, 99u8, 116u8, 117u8, 97u8, 108u8, 84u8, 101u8, 120u8, 116u8]
}

/// Index of the first `ActualText` entry of a dictionary operand.
pub fn find_actual_text(entries: &Vec<DictEntry>) -> (r: Option<usize>)
    ensures
        match r {
            Some(i) => i < entries@.len() && spec_dict_get(*entries, spec_actual_text_key(), 0)
                == Some(entries@[i as int].value),
            None => spec_dict_get(*entries, spec_actual_text_key(), 0) is None,
        },
{
    let mut i: usize = 0;
    while i < entries.len()
        invariant
            i <= entries@.len(),
            spec_dict_get(*entries, spec_actual_text_key(), 0) == spec_dict_get(
                *entries,
                spec_actual_text_key(),
                i as int,
            ),
        decreases entries@.len() - i,
    {
        let k = &entries[i].key;
        let hit = k.len() == 10 && k[0] == 65 && k[1] == 99 && k[2] == 116 && k[3] == 117 && k[4]
            == 97 && k[5] == 108 && k[6] == 84 && k[7] == 101 && k[8] == 120 && k[9] == 116;
        if hit {
            proof {
                assert(k@ =~= spec_actual_text_key());
            }
            return Some(i);
        }
        proof {
            assert(k@ != spec_actual_text_key());
        }
        i = i + 1;
    }
    None
}

} // verus!

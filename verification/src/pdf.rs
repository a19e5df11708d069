//! The PDF document adapter: redacts the text shown by a page's content
//! stream while leaving every other instruction untouched.
//!
//! A page is modelled as its font-resource table (resource name to declared
//! encoding) and its decoded instruction list.  A current font encoding is
//! tracked across the instructions: every font-selection instruction (`Tf`)
//! must carry a name operand — else the whole file is aborted — and sets the
//! current encoding from the font table.  Text-showing instructions (`Tj`,
//! `TJ`) have their string operands decoded under the current encoding,
//! redacted, and re-encoded with the same codec, recursing into
//! positioned-array operands.  A declared encoding that resolves to no
//! supported codec, or text shown before any font selection, falls back to
//! the single-byte Latin-1-compatible codec; decoding never hard-fails.
//! Operands the adapter does not rewrite are carried through opaquely.

use vstd::prelude::*;

use crate::codec::codec_decode;
use crate::codec::codec_encode;
use crate::codec::decode_with_codec;
use crate::codec::encode_with_codec;
use crate::codec::PdfCodec;
use crate::engine::records_rel;
use crate::engine::redact_text_get_data;
use crate::engine::redacted_chars;
use crate::engine::sources_bounded;
use crate::engine::sources_of;
use crate::engine::RedactedData;
use crate::error::RedactError;
use crate::pattern::CompiledPattern;

verus! {

/// How a PDF string operand is written out again.
#[derive(Clone, Copy, Debug, PartialEq, Eq, Structural)]
pub enum PdfStrFormat {
    /// A literal `(...)` string.
    Literal,
    /// A hexadecimal `<...>` string.
    Hexadecimal,
}

/// One operand of a content-stream instruction, as far as the adapter reads
/// it: string operands are redacted, arrays are recursed into, names select
/// fonts, and everything else is carried through untouched.
pub enum PdfObject {
    /// A string operand: raw bytes and their written format.
    Text(Vec<u8>, PdfStrFormat),
    /// A positioned/kerned array operand; its strings are redacted too.
    Array(Vec<PdfObject>),
    /// A name operand, e.g. a font resource name.
    Name(Vec<u8>),
    /// Any other operand, untouched by redaction.
    Other(lopdf::Object),
}

/// `lopdf::Object` values are carried through the library opaquely.
#[verifier::external_type_specification]
#[verifier::external_body]
pub struct ExLopdfObject(lopdf::Object);

/// One content-stream instruction: its operator and operands.
pub struct PdfOperation {
    /// The operator bytes, e.g. `Tj` or `Tf`.
    pub operator: Vec<u8>,
    /// The instruction's operands.
    pub operands: Vec<PdfObject>,
}

/// One page: its font-resource table and its decoded instruction list.
pub struct PdfPage {
    /// Resource name to declared encoding, from the page's font resources.
    pub fonts: Vec<(Vec<u8>, String)>,
    /// The page's content-stream instructions, in order.
    pub operations: Vec<PdfOperation>,
}

/// Whether the operator shows text: `Tj` or `TJ`.
pub open spec fn is_text_show_op(operator: Seq<u8>) -> bool {
    operator == seq!['T' as u8, 'j' as u8] || operator == seq!['T' as u8, 'J' as u8]
}

/// Whether the operator selects a font: `Tf`.
pub open spec fn is_font_op(operator: Seq<u8>) -> bool {
    operator == seq!['T' as u8, 'f' as u8]
}

/// The declared encoding of the first font resource with this name.
pub open spec fn font_encoding_of(fonts: Seq<(Vec<u8>, String)>, name: Seq<u8>) -> Option<
    Seq<char>,
>
    decreases fonts.len(),
{
    if fonts.len() == 0 {
        None
    } else if fonts.first().0@ == name {
        Some(fonts.first().1@)
    } else {
        font_encoding_of(fonts.drop_first(), name)
    }
}

/// The codec a declared encoding resolves to: `WinAnsiEncoding` and
/// `MacRomanEncoding` select their codec, anything else — a different or
/// missing declaration, or no font selected yet — falls back to Latin-1.
pub open spec fn resolve_codec_spec(declared: Option<Seq<char>>) -> PdfCodec {
    match declared {
        Some(name) => if name == "WinAnsiEncoding"@ {
            PdfCodec::WinAnsi
        } else if name == "MacRomanEncoding"@ {
            PdfCodec::MacRoman
        } else {
            PdfCodec::Latin1
        },
        None => PdfCodec::Latin1,
    }
}

/// The view of an optionally declared encoding name.
pub open spec fn declared_view(declared: Option<String>) -> Option<Seq<char>> {
    match declared {
        Some(s) => Some(s@),
        None => None,
    }
}

/// How a well-formed instruction changes the current encoding: a
/// font-selection instruction with a name operand re-resolves it from the
/// font table, everything else keeps it.
pub open spec fn op_step(
    fonts: Seq<(Vec<u8>, String)>,
    c: PdfCodec,
    op: PdfOperation,
) -> PdfCodec {
    if is_font_op(op.operator@) && op.operands@.len() > 0 && op.operands@.first() is Name {
        resolve_codec_spec(font_encoding_of(fonts, op.operands@.first()->Name_0@))
    } else {
        c
    }
}

/// The current encoding after the given instructions have run, starting
/// from `c0`.
pub open spec fn encoding_after(
    fonts: Seq<(Vec<u8>, String)>,
    ops: Seq<PdfOperation>,
    c0: PdfCodec,
) -> PdfCodec
    decreases ops.len(),
{
    if ops.len() == 0 {
        c0
    } else {
        op_step(fonts, encoding_after(fonts, ops.drop_last(), c0), ops.last())
    }
}

/// How many matches redaction finds inside one operand, decoded under `c`.
pub open spec fn object_match_count(o: PdfObject, sources: Seq<Seq<char>>, c: PdfCodec) -> nat
    decreases o,
{
    match o {
        PdfObject::Text(bytes, _) => crate::engine::total_matches(
            codec_decode(c, bytes@),
            sources,
        ),
        PdfObject::Array(items) => objects_match_count(items@, sources, c),
        PdfObject::Name(_) => 0,
        PdfObject::Other(_) => 0,
    }
}

/// How many matches redaction finds inside an operand list.
pub open spec fn objects_match_count(
    items: Seq<PdfObject>,
    sources: Seq<Seq<char>>,
    c: PdfCodec,
) -> nat
    decreases items,
{
    if items.len() == 0 {
        0
    } else {
        objects_match_count(items.drop_last(), sources, c) + object_match_count(
            items.last(),
            sources,
            c,
        )
    }
}

/// `out` is `orig` with its string contents redacted under the codec `c`,
/// and `recs` the records emitted for it: strings are decoded, run through
/// the engine and re-encoded with the same codec; arrays are rewritten
/// element by element; all else is untouched.
pub open spec fn object_redacted(
    orig: PdfObject,
    out: PdfObject,
    sources: Seq<Seq<char>>,
    recs: Seq<RedactedData>,
    c: PdfCodec,
) -> bool
    decreases orig,
{
    match orig {
        PdfObject::Text(bytes, fmt) => {
            &&& out matches PdfObject::Text(b2, f2)
            &&& f2 == fmt
            &&& records_rel(codec_decode(c, bytes@), sources, recs)
            &&& sources_bounded(codec_decode(c, bytes@), sources)
            &&& b2@ == codec_encode(c, redacted_chars(codec_decode(c, bytes@), sources, recs))
        },
        PdfObject::Array(items) => {
            &&& out matches PdfObject::Array(items2)
            &&& objects_redacted(items@, items2@, sources, recs, c)
        },
        PdfObject::Name(_) => out == orig && recs.len() == 0,
        PdfObject::Other(_) => out == orig && recs.len() == 0,
    }
}

/// Element-wise [`object_redacted`], with the records split in order.
pub open spec fn objects_redacted(
    a: Seq<PdfObject>,
    b: Seq<PdfObject>,
    sources: Seq<Seq<char>>,
    recs: Seq<RedactedData>,
    c: PdfCodec,
) -> bool
    decreases a,
{
    if a.len() == 0 {
        b.len() == 0 && recs.len() == 0
    } else {
        let k = objects_match_count(a.drop_last(), sources, c) as int;
        &&& b.len() == a.len()
        &&& objects_redacted(a.drop_last(), b.drop_last(), sources, recs.take(k), c)
        &&& object_redacted(a.last(), b.last(), sources, recs.skip(k), c)
    }
}

/// How many matches redaction finds in one instruction under codec `c`.
pub open spec fn operation_match_count(
    op: PdfOperation,
    sources: Seq<Seq<char>>,
    c: PdfCodec,
) -> nat {
    if is_text_show_op(op.operator@) {
        objects_match_count(op.operands@, sources, c)
    } else {
        0
    }
}

/// A text-showing instruction has its operands redacted under the current
/// codec; every other instruction is carried through unchanged.
pub open spec fn operation_redacted(
    orig: PdfOperation,
    out: PdfOperation,
    sources: Seq<Seq<char>>,
    recs: Seq<RedactedData>,
    c: PdfCodec,
) -> bool {
    if is_text_show_op(orig.operator@) {
        &&& out.operator@ == orig.operator@
        &&& objects_redacted(orig.operands@, out.operands@, sources, recs, c)
    } else {
        out == orig && recs.len() == 0
    }
}

/// A font-selection instruction must carry a name as first operand.
pub open spec fn font_op_ok(op: PdfOperation) -> bool {
    is_font_op(op.operator@) ==> op.operands@.len() > 0 && op.operands@.first() is Name
}

/// Every font-selection instruction on the page is well-formed.
pub open spec fn page_fonts_ok(page: PdfPage) -> bool {
    forall|i: int| 0 <= i < page.operations@.len() ==> font_op_ok(#[trigger] page.operations@[i])
}

/// How many matches redaction finds in an instruction list, threading the
/// tracked encoding from `c0`.
pub open spec fn ops_match_count(
    fonts: Seq<(Vec<u8>, String)>,
    ops: Seq<PdfOperation>,
    sources: Seq<Seq<char>>,
    c0: PdfCodec,
) -> nat
    decreases ops.len(),
{
    if ops.len() == 0 {
        0
    } else {
        ops_match_count(fonts, ops.drop_last(), sources, c0) + operation_match_count(
            ops.last(),
            sources,
            encoding_after(fonts, ops.drop_last(), c0),
        )
    }
}

/// Instruction-wise [`operation_redacted`] under the tracked encoding, with
/// the records split in order.
pub open spec fn ops_redacted(
    fonts: Seq<(Vec<u8>, String)>,
    a: Seq<PdfOperation>,
    b: Seq<PdfOperation>,
    sources: Seq<Seq<char>>,
    recs: Seq<RedactedData>,
    c0: PdfCodec,
) -> bool
    decreases a.len(),
{
    if a.len() == 0 {
        b.len() == 0 && recs.len() == 0
    } else {
        let k = ops_match_count(fonts, a.drop_last(), sources, c0) as int;
        &&& b.len() == a.len()
        &&& ops_redacted(fonts, a.drop_last(), b.drop_last(), sources, recs.take(k), c0)
        &&& operation_redacted(
            a.last(),
            b.last(),
            sources,
            recs.skip(k),
            encoding_after(fonts, a.drop_last(), c0),
        )
    }
}

/// How many matches redaction finds on one page; the tracked encoding
/// starts at the Latin-1 fallback.
pub open spec fn page_match_count(page: PdfPage, sources: Seq<Seq<char>>) -> nat {
    ops_match_count(page.fonts@, page.operations@, sources, PdfCodec::Latin1)
}

/// A page is redacted instruction by instruction under its font table; the
/// table itself stays.
pub open spec fn page_redacted(
    orig: PdfPage,
    out: PdfPage,
    sources: Seq<Seq<char>>,
    recs: Seq<RedactedData>,
) -> bool {
    &&& out.fonts == orig.fonts
    &&& ops_redacted(
        orig.fonts@,
        orig.operations@,
        out.operations@,
        sources,
        recs,
        PdfCodec::Latin1,
    )
}

/// How many matches redaction finds across the pages.
pub open spec fn pages_match_count(pages: Seq<PdfPage>, sources: Seq<Seq<char>>) -> nat
    decreases pages.len(),
{
    if pages.len() == 0 {
        0
    } else {
        pages_match_count(pages.drop_last(), sources) + page_match_count(pages.last(), sources)
    }
}

/// Page-wise [`page_redacted`], with the records concatenated in page
/// order.
pub open spec fn pages_redacted(
    a: Seq<PdfPage>,
    b: Seq<PdfPage>,
    sources: Seq<Seq<char>>,
    recs: Seq<RedactedData>,
) -> bool
    decreases a.len(),
{
    if a.len() == 0 {
        b.len() == 0 && recs.len() == 0
    } else {
        let k = pages_match_count(a.drop_last(), sources) as int;
        &&& b.len() == a.len()
        &&& pages_redacted(a.drop_last(), b.drop_last(), sources, recs.take(k))
        &&& page_redacted(a.last(), b.last(), sources, recs.skip(k))
    }
}

fn bytes_equal(a: &Vec<u8>, b: &Vec<u8>) -> (r: bool)
    ensures
        r == (a@ == b@),
{
    if a.len() != b.len() {
        return false;
    }
    let mut i: usize = 0;
    while i < a.len()
        invariant
            a@.len() == b@.len(),
            0 <= i <= a@.len(),
            forall|k: int| 0 <= k < i ==> a@[k] == b@[k],
        decreases a@.len() - i,
    {
        if a[i] != b[i] {
            return false;
        }
        i += 1;
    }
    proof {
        assert(a@ =~= b@);
    }
    true
}

fn is_text_show_exec(operator: &Vec<u8>) -> (r: bool)
    ensures
        r == is_text_show_op(operator@),
{
    if operator.len() == 2 && operator[0] == 'T' as u8 && (operator[1] == 'j' as u8 || operator[1]
        == 'J' as u8) {
        proof {
            if operator@[1] == 'j' as u8 {
                assert(operator@ =~= seq!['T' as u8, 'j' as u8]);
            } else {
                assert(operator@ =~= seq!['T' as u8, 'J' as u8]);
            }
        }
        true
    } else {
        false
    }
}

fn is_font_exec(operator: &Vec<u8>) -> (r: bool)
    ensures
        r == is_font_op(operator@),
{
    if operator.len() == 2 && operator[0] == 'T' as u8 && operator[1] == 'f' as u8 {
        proof {
            assert(operator@ =~= seq!['T' as u8, 'f' as u8]);
        }
        true
    } else {
        false
    }
}

fn lookup_font_encoding(fonts: &Vec<(Vec<u8>, String)>, name: &Vec<u8>) -> (r: Option<String>)
    ensures
        declared_view(r) == font_encoding_of(fonts@, name@),
{
    let mut i: usize = 0;
    proof {
        assert(fonts@.skip(0) =~= fonts@);
    }
    while i < fonts.len()
        invariant
            0 <= i <= fonts@.len(),
            font_encoding_of(fonts@, name@) == font_encoding_of(fonts@.skip(i as int), name@),
        decreases fonts@.len() - i,
    {
        proof {
            assert(fonts@.skip(i as int).first() == fonts@[i as int]);
            assert(fonts@.skip(i as int).drop_first() =~= fonts@.skip(i + 1));
        }
        if bytes_equal(&fonts[i].0, name) {
            return Some(fonts[i].1.clone());
        }
        i += 1;
    }
    proof {
        assert(fonts@.skip(fonts@.len() as int).len() == 0);
    }
    None
}

/// The declared encoding of the named font in this page's resource table:
/// what a text-showing instruction after `Tf` of that font decodes under.
pub fn font_encoding_for(page: &PdfPage, name: &Vec<u8>) -> (r: Option<String>)
    ensures
        declared_view(r) == font_encoding_of(page.fonts@, name@),
{
    lookup_font_encoding(&page.fonts, name)
}

/// The codec a declared encoding selects, with the Latin-1 fallback for
/// everything unresolvable.
pub fn resolve_codec(declared: Option<String>) -> (r: PdfCodec)
    ensures
        r == resolve_codec_spec(declared_view(declared)),
{
    match declared {
        None => PdfCodec::Latin1,
        Some(name) => {
            if name == "WinAnsiEncoding".to_owned() {
                PdfCodec::WinAnsi
            } else if name == "MacRomanEncoding".to_owned() {
                PdfCodec::MacRoman
            } else {
                PdfCodec::Latin1
            }
        },
    }
}

/// Redacts one operand under the current codec: decodes, redacts and
/// re-encodes a string; recurses into an array; carries everything else
/// through unchanged.
fn redact_object(o: PdfObject, patterns: &Vec<CompiledPattern>, c: PdfCodec) -> (r: (
    PdfObject,
    Vec<RedactedData>,
))
    ensures
        object_redacted(o, r.0, sources_of(patterns@), r.1@, c),
        r.1@.len() == object_match_count(o, sources_of(patterns@), c),
    decreases o,
{
    match o {
        PdfObject::Text(bytes, fmt) => {
            let decoded = decode_with_codec(c, &bytes);
            let (new_text, recs) = redact_text_get_data(&decoded, patterns);
            let out_bytes = encode_with_codec(c, &new_text);
            (PdfObject::Text(out_bytes, fmt), recs)
        },
        PdfObject::Array(items) => {
            let (new_items, recs) = redact_objects(items, patterns, c);
            (PdfObject::Array(new_items), recs)
        },
        PdfObject::Name(n) => (PdfObject::Name(n), Vec::new()),
        PdfObject::Other(obj) => (PdfObject::Other(obj), Vec::new()),
    }
}

/// Redacts an operand list element by element under one codec,
/// concatenating the records in operand order.
fn redact_objects(items: Vec<PdfObject>, patterns: &Vec<CompiledPattern>, c: PdfCodec) -> (r: (
    Vec<PdfObject>,
    Vec<RedactedData>,
))
    ensures
        objects_redacted(items@, r.0@, sources_of(patterns@), r.1@, c),
        r.1@.len() == objects_match_count(items@, sources_of(patterns@), c),
    decreases items@,
{
    let ghost orig = items@;
    let mut work = items;
    match work.pop() {
        None => {
            let out: Vec<PdfObject> = Vec::new();
            let recs: Vec<RedactedData> = Vec::new();
            proof {
                assert(orig.len() == 0);
            }
            (out, recs)
        },
        Some(last) => {
            proof {
                assert(work@ =~= orig.drop_last());
                assert(last == orig.last());
                assert(decreases_to!(orig => orig.drop_last()));
                assert(decreases_to!(orig => orig.last()));
            }
            let (mut out, mut recs) = redact_objects(work, patterns, c);
            let (new_last, mut last_recs) = redact_object(last, patterns, c);
            let ghost recs_front = recs@;
            let ghost recs_back = last_recs@;
            let ghost out0 = out@;
            out.push(new_last);
            recs.append(&mut last_recs);
            proof {
                let srcs = sources_of(patterns@);
                let k = objects_match_count(orig.drop_last(), srcs, c) as int;
                assert(recs@.take(k) =~= recs_front);
                assert(recs@.skip(k) =~= recs_back);
                assert(out@.drop_last() =~= out0);
                assert(out@.last() == new_last);
            }
            (out, recs)
        },
    }
}

/// Redacts the instructions of one page: validates font selections and
/// tracks the current encoding they declare, rewrites the operands of
/// text-showing instructions under it, and leaves the rest untouched.  A
/// font-selection instruction without a name operand aborts the page.
fn redact_page(page: PdfPage, patterns: &Vec<CompiledPattern>) -> (r: Result<
    (PdfPage, Vec<RedactedData>),
    RedactError,
>)
    ensures
        r matches Ok(p) ==> page_redacted(page, p.0, sources_of(patterns@), p.1@) && p.1@.len()
            == page_match_count(page, sources_of(patterns@)) && page_fonts_ok(page),
        r is Err <==> !page_fonts_ok(page),
        r matches Err(e) ==> e == RedactError::DocumentPageError,
{
    let ghost srcs = sources_of(patterns@);
    let PdfPage { fonts, operations } = page;
    let ghost orig_ops = operations@;
    let mut work = operations;
    let mut done: Vec<PdfOperation> = Vec::new();
    let mut recs: Vec<RedactedData> = Vec::new();
    let mut current: PdfCodec = PdfCodec::Latin1;
    while work.len() > 0
        invariant
            srcs == sources_of(patterns@),
            page.operations@ == orig_ops,
            page.fonts@ == fonts@,
            done@.len() + work@.len() == orig_ops.len(),
            work@ == orig_ops.skip(done@.len() as int),
            current == encoding_after(fonts@, orig_ops.take(done@.len() as int), PdfCodec::Latin1),
            ops_redacted(
                fonts@,
                orig_ops.take(done@.len() as int),
                done@,
                srcs,
                recs@,
                PdfCodec::Latin1,
            ),
            recs@.len() == ops_match_count(
                fonts@,
                orig_ops.take(done@.len() as int),
                srcs,
                PdfCodec::Latin1,
            ),
            forall|k: int| 0 <= k < done@.len() ==> font_op_ok(#[trigger] orig_ops[k]),
        decreases work@.len(),
    {
        let ghost i = done@.len() as int;
        proof {
            assert(orig_ops.take(i + 1).drop_last() =~= orig_ops.take(i));
            assert(orig_ops.take(i + 1).last() == orig_ops[i]);
            assert(work@.first() == orig_ops[i]);
        }
        let ghost c_here = current;
        let is_show = is_text_show_exec(&work[0].operator);
        let is_font = is_font_exec(&work[0].operator);
        if is_font {
            if work[0].operands.len() == 0 {
                return Err(RedactError::DocumentPageError);
            }
            match &work[0].operands[0] {
                PdfObject::Name(n) => {
                    let declared = lookup_font_encoding(&fonts, n);
                    current = resolve_codec(declared);
                    proof {
                        assert(orig_ops[i].operands@.first()->Name_0@ == n@);
                    }
                },
                _ => {
                    return Err(RedactError::DocumentPageError);
                },
            }
        }
        let op = work.remove(0);
        proof {
            assert(op == orig_ops[i]);
            assert(work@ =~= orig_ops.skip(i + 1));
            assert(font_op_ok(op));
            assert(current == op_step(fonts@, c_here, op));
            assert(current == encoding_after(fonts@, orig_ops.take(i + 1), PdfCodec::Latin1));
        }
        let ghost recs0 = recs@;
        let ghost k = ops_match_count(fonts@, orig_ops.take(i), srcs, PdfCodec::Latin1) as int;
        if is_show {
            let PdfOperation { operator, operands } = op;
            let (new_operands, mut op_recs) = redact_objects(operands, patterns, current);
            let ghost recs_back = op_recs@;
            let ghost done0 = done@;
            done.push(PdfOperation { operator, operands: new_operands });
            recs.append(&mut op_recs);
            proof {
                assert(recs@.take(k) =~= recs0);
                assert(recs@.skip(k) =~= recs_back);
                assert(done@.drop_last() =~= done0);
            }
        } else {
            let ghost done0 = done@;
            done.push(op);
            proof {
                assert(recs@.take(k) =~= recs0);
                assert(recs@.skip(k) =~= Seq::<RedactedData>::empty());
                assert(done@.drop_last() =~= done0);
            }
        }
    }
    proof {
        assert(orig_ops.take(orig_ops.len() as int) =~= orig_ops);
    }
    Ok((PdfPage { fonts, operations: done }, recs))
}

/// Rewrites the text shown by every page, in page order, and returns the
/// reveal records of the whole document.  Fails, leaving nothing to be
/// persisted — the page model is left drained — exactly when some page
/// holds a malformed font-selection instruction.
pub fn replace_text(pages: &mut Vec<PdfPage>, patterns: &Vec<CompiledPattern>) -> (r: Result<
    Vec<RedactedData>,
    RedactError,
>)
    ensures
        r is Ok <==> (forall|i: int|
            0 <= i < old(pages)@.len() ==> page_fonts_ok(#[trigger] old(pages)@[i])),
        r matches Ok(rs) ==> pages_redacted(old(pages)@, final(pages)@, sources_of(patterns@), rs@)
            && rs@.len() == pages_match_count(old(pages)@, sources_of(patterns@)),
        r matches Err(e) ==> e == RedactError::DocumentPageError,
        r is Err ==> final(pages)@.len() == 0,
{
    let ghost srcs = sources_of(patterns@);
    let mut work: Vec<PdfPage> = Vec::new();
    core::mem::swap(pages, &mut work);
    let ghost orig = work@;
    let mut done: Vec<PdfPage> = Vec::new();
    let mut recs: Vec<RedactedData> = Vec::new();
    while work.len() > 0
        invariant
            srcs == sources_of(patterns@),
            orig == old(pages)@,
            pages@.len() == 0,
            done@.len() + work@.len() == orig.len(),
            work@ == orig.skip(done@.len() as int),
            pages_redacted(orig.take(done@.len() as int), done@, srcs, recs@),
            recs@.len() == pages_match_count(orig.take(done@.len() as int), srcs),
            forall|k: int| 0 <= k < done@.len() ==> page_fonts_ok(#[trigger] orig[k]),
        decreases work@.len(),
    {
        let ghost i = done@.len() as int;
        proof {
            assert(orig.take(i + 1).drop_last() =~= orig.take(i));
            assert(orig.take(i + 1).last() == orig[i]);
            assert(work@.first() == orig[i]);
        }
        let page = work.remove(0);
        proof {
            assert(page == orig[i]);
            assert(work@ =~= orig.skip(i + 1));
        }
        let ghost recs0 = recs@;
        let ghost k = pages_match_count(orig.take(i), srcs) as int;
        match redact_page(page, patterns) {
            Err(e) => {
                return Err(e);
            },
            Ok((new_page, mut page_recs)) => {
                let ghost recs_back = page_recs@;
                let ghost done0 = done@;
                done.push(new_page);
                recs.append(&mut page_recs);
                proof {
                    assert(recs@.take(k) =~= recs0);
                    assert(recs@.skip(k) =~= recs_back);
                    assert(done@.drop_last() =~= done0);
                }
            },
        }
    }
    *pages = done;
    proof {
        assert(orig.take(orig.len() as int) =~= orig);
    }
    Ok(recs)
}

} // verus!

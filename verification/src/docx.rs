//! The word-processor document adapter: walks the document body's ordered
//! paragraph list and redacts the text content of each paragraph's runs,
//! including runs inside tracked insertions, leaving every other node and
//! all styling untouched.
//!
//! Table cells and other node kinds are out of scope: they are carried
//! through opaquely, a known completeness gap rather than a silent
//! mis-redaction.

use vstd::prelude::*;

use crate::engine::RedactedData;
use crate::engine::records_rel;
use crate::engine::redact_text_get_data;
use crate::engine::redacted_chars;
use crate::engine::sources_of;
use crate::engine::total_matches;
use crate::pattern::CompiledPattern;

verus! {

/// `docx_rs::RunChild` values are carried through the library opaquely.
#[verifier::external_type_specification]
#[verifier::external_body]
pub struct ExDocxRunChild(docx_rs::RunChild);

/// `docx_rs::RunProperty` values are carried through the library opaquely.
#[verifier::external_type_specification]
#[verifier::external_body]
pub struct ExDocxRunProperty(docx_rs::RunProperty);

/// `docx_rs::InsertChild` values are carried through the library opaquely.
#[verifier::external_type_specification]
#[verifier::external_body]
pub struct ExDocxInsertChild(docx_rs::InsertChild);

/// `docx_rs::ParagraphChild` values are carried through the library
/// opaquely.
#[verifier::external_type_specification]
#[verifier::external_body]
pub struct ExDocxParagraphChild(docx_rs::ParagraphChild);

/// `docx_rs::ParagraphProperty` values are carried through the library
/// opaquely.
#[verifier::external_type_specification]
#[verifier::external_body]
pub struct ExDocxParagraphProperty(docx_rs::ParagraphProperty);

/// `docx_rs::DocumentChild` values are carried through the library
/// opaquely.
#[verifier::external_type_specification]
#[verifier::external_body]
pub struct ExDocxDocumentChild(docx_rs::DocumentChild);

/// One text node of a run: its content and its space-preservation flag.
pub struct TextNode {
    /// The node's text content; this is what gets redacted.
    pub text: String,
    /// Whether the node preserves surrounding whitespace.
    pub preserve_space: bool,
}

/// A run's child: a text node, or anything else untouched.
pub enum RunChildNode {
    /// A text node, redacted in place.
    Text(TextNode),
    /// Any other run child, untouched.
    Other(docx_rs::RunChild),
}

/// One run: its styling and its children.
pub struct RunNode {
    /// The run's styling, untouched by redaction.
    pub property: docx_rs::RunProperty,
    /// The run's children, in order.
    pub children: Vec<RunChildNode>,
}

/// A tracked insertion's child: a run, or anything else untouched.
pub enum InsertChildNode {
    /// A run inside the insertion; its text nodes are redacted.
    Run(RunNode),
    /// Any other insertion child, untouched.
    Other(docx_rs::InsertChild),
}

/// One tracked insertion: its metadata and its children.
pub struct InsertNode {
    /// Who recorded the insertion.
    pub author: String,
    /// When the insertion was recorded.
    pub date: String,
    /// The insertion's children, in order.
    pub children: Vec<InsertChildNode>,
}

/// A paragraph's child: a plain run, a tracked insertion, or anything else
/// untouched.
pub enum ParagraphChildNode {
    /// A plain run.
    Run(RunNode),
    /// A tracked-insertion run group.
    Insert(InsertNode),
    /// Any other paragraph child, untouched.
    Other(docx_rs::ParagraphChild),
}

/// One paragraph: its identity, styling and ordered children.
pub struct ParagraphNode {
    /// The paragraph's identifier.
    pub id: String,
    /// The paragraph's styling, untouched by redaction.
    pub property: docx_rs::ParagraphProperty,
    /// Whether the paragraph takes part in numbering.
    pub has_numbering: bool,
    /// The paragraph's children, in order.
    pub children: Vec<ParagraphChildNode>,
}

/// A document body child: a paragraph, or anything else untouched.
pub enum DocumentChildNode {
    /// A paragraph of the body.
    Paragraph(ParagraphNode),
    /// Any other body child (tables among them), untouched.
    Other(docx_rs::DocumentChild),
}

/// How many matches redaction finds in one run child.
pub open spec fn run_child_match_count(c: RunChildNode, sources: Seq<Seq<char>>) -> nat {
    match c {
        RunChildNode::Text(t) => total_matches(t.text@, sources),
        RunChildNode::Other(_) => 0,
    }
}

/// How many matches redaction finds in a run's children.
pub open spec fn run_children_match_count(cs: Seq<RunChildNode>, sources: Seq<Seq<char>>) -> nat
    decreases cs.len(),
{
    if cs.len() == 0 {
        0
    } else {
        run_children_match_count(cs.drop_last(), sources) + run_child_match_count(
            cs.last(),
            sources,
        )
    }
}

/// How many matches redaction finds in one run.
pub open spec fn run_match_count(run: RunNode, sources: Seq<Seq<char>>) -> nat {
    run_children_match_count(run.children@, sources)
}

/// How many matches redaction finds in one insertion child.
pub open spec fn insert_child_match_count(c: InsertChildNode, sources: Seq<Seq<char>>) -> nat {
    match c {
        InsertChildNode::Run(r) => run_match_count(r, sources),
        InsertChildNode::Other(_) => 0,
    }
}

/// How many matches redaction finds in an insertion's children.
pub open spec fn insert_children_match_count(
    cs: Seq<InsertChildNode>,
    sources: Seq<Seq<char>>,
) -> nat
    decreases cs.len(),
{
    if cs.len() == 0 {
        0
    } else {
        insert_children_match_count(cs.drop_last(), sources) + insert_child_match_count(
            cs.last(),
            sources,
        )
    }
}

/// How many matches redaction finds in one paragraph child.
pub open spec fn para_child_match_count(c: ParagraphChildNode, sources: Seq<Seq<char>>) -> nat {
    match c {
        ParagraphChildNode::Run(r) => run_match_count(r, sources),
        ParagraphChildNode::Insert(i) => insert_children_match_count(i.children@, sources),
        ParagraphChildNode::Other(_) => 0,
    }
}

/// How many matches redaction finds in a paragraph's children.
pub open spec fn para_children_match_count(
    cs: Seq<ParagraphChildNode>,
    sources: Seq<Seq<char>>,
) -> nat
    decreases cs.len(),
{
    if cs.len() == 0 {
        0
    } else {
        para_children_match_count(cs.drop_last(), sources) + para_child_match_count(
            cs.last(),
            sources,
        )
    }
}

/// How many matches redaction finds in one paragraph.
pub open spec fn paragraph_match_count(p: ParagraphNode, sources: Seq<Seq<char>>) -> nat {
    para_children_match_count(p.children@, sources)
}

/// How many matches redaction finds in one body child.
pub open spec fn doc_child_match_count(c: DocumentChildNode, sources: Seq<Seq<char>>) -> nat {
    match c {
        DocumentChildNode::Paragraph(p) => paragraph_match_count(p, sources),
        DocumentChildNode::Other(_) => 0,
    }
}

/// How many matches redaction finds in the document body.
pub open spec fn doc_children_match_count(
    cs: Seq<DocumentChildNode>,
    sources: Seq<Seq<char>>,
) -> nat
    decreases cs.len(),
{
    if cs.len() == 0 {
        0
    } else {
        doc_children_match_count(cs.drop_last(), sources) + doc_child_match_count(
            cs.last(),
            sources,
        )
    }
}

/// A text node is redacted through the engine; its flag stays.
pub open spec fn text_node_redacted(
    orig: TextNode,
    out: TextNode,
    sources: Seq<Seq<char>>,
    recs: Seq<RedactedData>,
) -> bool {
    &&& out.preserve_space == orig.preserve_space
    &&& records_rel(orig.text@, sources, recs)
    &&& out.text@ == redacted_chars(orig.text@, sources, recs)
}

/// A run child is redacted if it is a text node, else untouched.
pub open spec fn run_child_redacted(
    orig: RunChildNode,
    out: RunChildNode,
    sources: Seq<Seq<char>>,
    recs: Seq<RedactedData>,
) -> bool {
    match orig {
        RunChildNode::Text(t) => {
            &&& out matches RunChildNode::Text(t2)
            &&& text_node_redacted(t, t2, sources, recs)
        },
        RunChildNode::Other(_) => out == orig && recs.len() == 0,
    }
}

/// Child-wise [`run_child_redacted`], records split in order.
pub open spec fn run_children_redacted(
    a: Seq<RunChildNode>,
    b: Seq<RunChildNode>,
    sources: Seq<Seq<char>>,
    recs: Seq<RedactedData>,
) -> bool
    decreases a.len(),
{
    if a.len() == 0 {
        b.len() == 0 && recs.len() == 0
    } else {
        let k = run_children_match_count(a.drop_last(), sources) as int;
        &&& b.len() == a.len()
        &&& run_children_redacted(a.drop_last(), b.drop_last(), sources, recs.take(k))
        &&& run_child_redacted(a.last(), b.last(), sources, recs.skip(k))
    }
}

/// A run keeps its styling; its children are redacted in order.
pub open spec fn run_redacted(
    orig: RunNode,
    out: RunNode,
    sources: Seq<Seq<char>>,
    recs: Seq<RedactedData>,
) -> bool {
    &&& out.property == orig.property
    &&& run_children_redacted(orig.children@, out.children@, sources, recs)
}

/// An insertion child is redacted if it is a run, else untouched.
pub open spec fn insert_child_redacted(
    orig: InsertChildNode,
    out: InsertChildNode,
    sources: Seq<Seq<char>>,
    recs: Seq<RedactedData>,
) -> bool {
    match orig {
        InsertChildNode::Run(r) => {
            &&& out matches InsertChildNode::Run(r2)
            &&& run_redacted(r, r2, sources, recs)
        },
        InsertChildNode::Other(_) => out == orig && recs.len() == 0,
    }
}

/// Child-wise [`insert_child_redacted`], records split in order.
pub open spec fn insert_children_redacted(
    a: Seq<InsertChildNode>,
    b: Seq<InsertChildNode>,
    sources: Seq<Seq<char>>,
    recs: Seq<RedactedData>,
) -> bool
    decreases a.len(),
{
    if a.len() == 0 {
        b.len() == 0 && recs.len() == 0
    } else {
        let k = insert_children_match_count(a.drop_last(), sources) as int;
        &&& b.len() == a.len()
        &&& insert_children_redacted(a.drop_last(), b.drop_last(), sources, recs.take(k))
        &&& insert_child_redacted(a.last(), b.last(), sources, recs.skip(k))
    }
}

/// A paragraph child is redacted if it is a run or an insertion, else
/// untouched.
pub open spec fn para_child_redacted(
    orig: ParagraphChildNode,
    out: ParagraphChildNode,
    sources: Seq<Seq<char>>,
    recs: Seq<RedactedData>,
) -> bool {
    match orig {
        ParagraphChildNode::Run(r) => {
            &&& out matches ParagraphChildNode::Run(r2)
            &&& run_redacted(r, r2, sources, recs)
        },
        ParagraphChildNode::Insert(i) => {
            &&& out matches ParagraphChildNode::Insert(i2)
            &&& i2.author == i.author
            &&& i2.date == i.date
            &&& insert_children_redacted(i.children@, i2.children@, sources, recs)
        },
        ParagraphChildNode::Other(_) => out == orig && recs.len() == 0,
    }
}

/// Child-wise [`para_child_redacted`], records split in order.
pub open spec fn para_children_redacted(
    a: Seq<ParagraphChildNode>,
    b: Seq<ParagraphChildNode>,
    sources: Seq<Seq<char>>,
    recs: Seq<RedactedData>,
) -> bool
    decreases a.len(),
{
    if a.len() == 0 {
        b.len() == 0 && recs.len() == 0
    } else {
        let k = para_children_match_count(a.drop_last(), sources) as int;
        &&& b.len() == a.len()
        &&& para_children_redacted(a.drop_last(), b.drop_last(), sources, recs.take(k))
        &&& para_child_redacted(a.last(), b.last(), sources, recs.skip(k))
    }
}

/// A paragraph keeps identity, styling and numbering; its children are
/// redacted in order.
pub open spec fn paragraph_redacted(
    orig: ParagraphNode,
    out: ParagraphNode,
    sources: Seq<Seq<char>>,
    recs: Seq<RedactedData>,
) -> bool {
    &&& out.id == orig.id
    &&& out.property == orig.property
    &&& out.has_numbering == orig.has_numbering
    &&& para_children_redacted(orig.children@, out.children@, sources, recs)
}

/// A body child is redacted if it is a paragraph, else untouched.
pub open spec fn doc_child_redacted(
    orig: DocumentChildNode,
    out: DocumentChildNode,
    sources: Seq<Seq<char>>,
    recs: Seq<RedactedData>,
) -> bool {
    match orig {
        DocumentChildNode::Paragraph(p) => {
            &&& out matches DocumentChildNode::Paragraph(p2)
            &&& paragraph_redacted(p, p2, sources, recs)
        },
        DocumentChildNode::Other(_) => out == orig && recs.len() == 0,
    }
}

/// Child-wise [`doc_child_redacted`], records split in order.
pub open spec fn doc_children_redacted(
    a: Seq<DocumentChildNode>,
    b: Seq<DocumentChildNode>,
    sources: Seq<Seq<char>>,
    recs: Seq<RedactedData>,
) -> bool
    decreases a.len(),
{
    if a.len() == 0 {
        b.len() == 0 && recs.len() == 0
    } else {
        let k = doc_children_match_count(a.drop_last(), sources) as int;
        &&& b.len() == a.len()
        &&& doc_children_redacted(a.drop_last(), b.drop_last(), sources, recs.take(k))
        &&& doc_child_redacted(a.last(), b.last(), sources, recs.skip(k))
    }
}

/// Redacts one run's text nodes, keeping its styling and everything else.
fn redact_run(run: RunNode, patterns: &Vec<CompiledPattern>) -> (r: (RunNode, Vec<RedactedData>))
    ensures
        run_redacted(run, r.0, sources_of(patterns@), r.1@),
        r.1@.len() == run_match_count(run, sources_of(patterns@)),
{
    let ghost srcs = sources_of(patterns@);
    let RunNode { property, children } = run;
    let ghost orig = children@;
    let mut work = children;
    let mut done: Vec<RunChildNode> = Vec::new();
    let mut recs: Vec<RedactedData> = Vec::new();
    while work.len() > 0
        invariant
            srcs == sources_of(patterns@),
            done@.len() + work@.len() == orig.len(),
            work@ == orig.skip(done@.len() as int),
            run_children_redacted(orig.take(done@.len() as int), done@, srcs, recs@),
            recs@.len() == run_children_match_count(orig.take(done@.len() as int), srcs),
        decreases work@.len(),
    {
        let ghost i = done@.len() as int;
        proof {
            assert(orig.take(i + 1).drop_last() =~= orig.take(i));
            assert(orig.take(i + 1).last() == orig[i]);
            assert(work@.first() == orig[i]);
        }
        let child = work.remove(0);
        proof {
            assert(child == orig[i]);
            assert(work@ =~= orig.skip(i + 1));
        }
        let ghost recs0 = recs@;
        let ghost k = run_children_match_count(orig.take(i), srcs) as int;
        let ghost done0 = done@;
        match child {
            RunChildNode::Text(t) => {
                let (new_text, mut t_recs) = redact_text_get_data(&t.text, patterns);
                let ghost recs_back = t_recs@;
                done.push(
                    RunChildNode::Text(
                        TextNode { text: new_text, preserve_space: t.preserve_space },
                    ),
                );
                recs.append(&mut t_recs);
                proof {
                    assert(recs@.take(k) =~= recs0);
                    assert(recs@.skip(k) =~= recs_back);
                    assert(done@.drop_last() =~= done0);
                }
            },
            RunChildNode::Other(o) => {
                done.push(RunChildNode::Other(o));
                proof {
                    assert(recs@.take(k) =~= recs0);
                    assert(recs@.skip(k) =~= Seq::<RedactedData>::empty());
                    assert(done@.drop_last() =~= done0);
                }
            },
        }
    }
    proof {
        assert(orig.take(orig.len() as int) =~= orig);
    }
    (RunNode { property, children: done }, recs)
}

/// Redacts the runs inside one tracked insertion, keeping its metadata.
fn redact_insert(ins: InsertNode, patterns: &Vec<CompiledPattern>) -> (r: (
    InsertNode,
    Vec<RedactedData>,
))
    ensures
        r.0.author == ins.author,
        r.0.date == ins.date,
        insert_children_redacted(ins.children@, r.0.children@, sources_of(patterns@), r.1@),
        r.1@.len() == insert_children_match_count(ins.children@, sources_of(patterns@)),
{
    let ghost srcs = sources_of(patterns@);
    let InsertNode { author, date, children } = ins;
    let ghost orig = children@;
    let mut work = children;
    let mut done: Vec<InsertChildNode> = Vec::new();
    let mut recs: Vec<RedactedData> = Vec::new();
    while work.len() > 0
        invariant
            srcs == sources_of(patterns@),
            done@.len() + work@.len() == orig.len(),
            work@ == orig.skip(done@.len() as int),
            insert_children_redacted(orig.take(done@.len() as int), done@, srcs, recs@),
            recs@.len() == insert_children_match_count(orig.take(done@.len() as int), srcs),
        decreases work@.len(),
    {
        let ghost i = done@.len() as int;
        proof {
            assert(orig.take(i + 1).drop_last() =~= orig.take(i));
            assert(orig.take(i + 1).last() == orig[i]);
            assert(work@.first() == orig[i]);
        }
        let child = work.remove(0);
        proof {
            assert(child == orig[i]);
            assert(work@ =~= orig.skip(i + 1));
        }
        let ghost recs0 = recs@;
        let ghost k = insert_children_match_count(orig.take(i), srcs) as int;
        let ghost done0 = done@;
        match child {
            InsertChildNode::Run(r) => {
                let (new_run, mut r_recs) = redact_run(r, patterns);
                let ghost recs_back = r_recs@;
                done.push(InsertChildNode::Run(new_run));
                recs.append(&mut r_recs);
                proof {
                    assert(recs@.take(k) =~= recs0);
                    assert(recs@.skip(k) =~= recs_back);
                    assert(done@.drop_last() =~= done0);
                }
            },
            InsertChildNode::Other(o) => {
                done.push(InsertChildNode::Other(o));
                proof {
                    assert(recs@.take(k) =~= recs0);
                    assert(recs@.skip(k) =~= Seq::<RedactedData>::empty());
                    assert(done@.drop_last() =~= done0);
                }
            },
        }
    }
    proof {
        assert(orig.take(orig.len() as int) =~= orig);
    }
    (InsertNode { author, date, children: done }, recs)
}

/// Walks one paragraph's children — plain runs and tracked-insertion runs —
/// redacts each run's text content in place, and appends the reveal records
/// to `all_redacted_data` in traversal order.  All other children and all
/// styling are left untouched.
pub fn replace_matches_in_paragraph(
    para: &mut ParagraphNode,
    patterns: &Vec<CompiledPattern>,
    all_redacted_data: &mut Vec<RedactedData>,
)
    ensures
        paragraph_redacted(
            *old(para),
            *final(para),
            sources_of(patterns@),
            final(all_redacted_data)@.skip(old(all_redacted_data)@.len() as int),
        ),
        final(all_redacted_data)@.len() == old(all_redacted_data)@.len() + paragraph_match_count(
            *old(para),
            sources_of(patterns@),
        ),
        final(all_redacted_data)@.take(old(all_redacted_data)@.len() as int) == old(
            all_redacted_data,
        )@,
{
    let ghost srcs = sources_of(patterns@);
    let mut work: Vec<ParagraphChildNode> = Vec::new();
    core::mem::swap(&mut para.children, &mut work);
    let ghost orig = work@;
    let mut done: Vec<ParagraphChildNode> = Vec::new();
    let mut recs: Vec<RedactedData> = Vec::new();
    while work.len() > 0
        invariant
            srcs == sources_of(patterns@),
            done@.len() + work@.len() == orig.len(),
            work@ == orig.skip(done@.len() as int),
            para_children_redacted(orig.take(done@.len() as int), done@, srcs, recs@),
            recs@.len() == para_children_match_count(orig.take(done@.len() as int), srcs),
        decreases work@.len(),
    {
        let ghost i = done@.len() as int;
        proof {
            assert(orig.take(i + 1).drop_last() =~= orig.take(i));
            assert(orig.take(i + 1).last() == orig[i]);
            assert(work@.first() == orig[i]);
        }
        let child = work.remove(0);
        proof {
            assert(child == orig[i]);
            assert(work@ =~= orig.skip(i + 1));
        }
        let ghost recs0 = recs@;
        let ghost k = para_children_match_count(orig.take(i), srcs) as int;
        let ghost done0 = done@;
        match child {
            ParagraphChildNode::Run(r) => {
                let (new_run, mut r_recs) = redact_run(r, patterns);
                let ghost recs_back = r_recs@;
                done.push(ParagraphChildNode::Run(new_run));
                recs.append(&mut r_recs);
                proof {
                    assert(recs@.take(k) =~= recs0);
                    assert(recs@.skip(k) =~= recs_back);
                    assert(done@.drop_last() =~= done0);
                }
            },
            ParagraphChildNode::Insert(ins) => {
                let (new_ins, mut i_recs) = redact_insert(ins, patterns);
                let ghost recs_back = i_recs@;
                done.push(ParagraphChildNode::Insert(new_ins));
                recs.append(&mut i_recs);
                proof {
                    assert(recs@.take(k) =~= recs0);
                    assert(recs@.skip(k) =~= recs_back);
                    assert(done@.drop_last() =~= done0);
                }
            },
            ParagraphChildNode::Other(o) => {
                done.push(ParagraphChildNode::Other(o));
                proof {
                    assert(recs@.take(k) =~= recs0);
                    assert(recs@.skip(k) =~= Seq::<RedactedData>::empty());
                    assert(done@.drop_last() =~= done0);
                }
            },
        }
    }
    para.children = done;
    let ghost out0 = all_redacted_data@;
    let mut new_recs = recs;
    all_redacted_data.append(&mut new_recs);
    proof {
        assert(orig.take(orig.len() as int) =~= orig);
        assert(all_redacted_data@.take(out0.len() as int) =~= out0);
        assert(all_redacted_data@.skip(out0.len() as int) =~= recs@);
    }
}

/// Redacts every paragraph of the document body in order, leaving other
/// body children untouched, and returns the reveal records of the whole
/// document in traversal order.  Never fails and does no I/O.
pub fn redact_document(children: &mut Vec<DocumentChildNode>, patterns: &Vec<CompiledPattern>) -> (r:
    Vec<RedactedData>)
    ensures
        doc_children_redacted(old(children)@, final(children)@, sources_of(patterns@), r@),
        r@.len() == doc_children_match_count(old(children)@, sources_of(patterns@)),
{
    let ghost srcs = sources_of(patterns@);
    let mut work: Vec<DocumentChildNode> = Vec::new();
    core::mem::swap(children, &mut work);
    let ghost orig = work@;
    let mut done: Vec<DocumentChildNode> = Vec::new();
    let mut recs: Vec<RedactedData> = Vec::new();
    while work.len() > 0
        invariant
            srcs == sources_of(patterns@),
            orig == old(children)@,
            done@.len() + work@.len() == orig.len(),
            work@ == orig.skip(done@.len() as int),
            doc_children_redacted(orig.take(done@.len() as int), done@, srcs, recs@),
            recs@.len() == doc_children_match_count(orig.take(done@.len() as int), srcs),
        decreases work@.len(),
    {
        let ghost i = done@.len() as int;
        proof {
            assert(orig.take(i + 1).drop_last() =~= orig.take(i));
            assert(orig.take(i + 1).last() == orig[i]);
            assert(work@.first() == orig[i]);
        }
        let child = work.remove(0);
        proof {
            assert(child == orig[i]);
            assert(work@ =~= orig.skip(i + 1));
        }
        let ghost recs0 = recs@;
        let ghost k = doc_children_match_count(orig.take(i), srcs) as int;
        let ghost done0 = done@;
        match child {
            DocumentChildNode::Paragraph(mut p) => {
                let mut p_recs: Vec<RedactedData> = Vec::new();
                replace_matches_in_paragraph(&mut p, patterns, &mut p_recs);
                let ghost recs_back = p_recs@;
                done.push(DocumentChildNode::Paragraph(p));
                recs.append(&mut p_recs);
                proof {
                    assert(recs_back.skip(0) =~= recs_back);
                    assert(recs@.take(k) =~= recs0);
                    assert(recs@.skip(k) =~= recs_back);
                    assert(done@.drop_last() =~= done0);
                }
            },
            DocumentChildNode::Other(o) => {
                done.push(DocumentChildNode::Other(o));
                proof {
                    assert(recs@.take(k) =~= recs0);
                    assert(recs@.skip(k) =~= Seq::<RedactedData>::empty());
                    assert(done@.drop_last() =~= done0);
                }
            },
        }
    }
    *children = done;
    proof {
        assert(orig.take(orig.len() as int) =~= orig);
    }
    recs
}

} // verus!

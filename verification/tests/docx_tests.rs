use raf::docx::redact_document;
use raf::docx::replace_matches_in_paragraph;
use raf::docx::DocumentChildNode;
use raf::docx::InsertChildNode;
use raf::docx::InsertNode;
use raf::docx::ParagraphChildNode;
use raf::docx::ParagraphNode;
use raf::docx::RunChildNode;
use raf::docx::RunNode;
use raf::docx::TextNode;
use raf::engine::RedactedData;
use raf::pattern::get_pattern_vec;
use raf::pattern::Pattern;
use raf::pattern::CompiledPattern;

fn number_patterns() -> Vec<CompiledPattern> {
    let catalog = vec![Pattern {
        pattern: "\\d+".to_string(),
        types: vec!["numbers".to_string()],
    }];
    get_pattern_vec(catalog, &vec!["numbers".to_string()]).unwrap()
}

fn run_with_text(text: &str) -> RunNode {
    RunNode {
        property: docx_rs::RunProperty::new(),
        children: vec![RunChildNode::Text(TextNode {
            text: text.to_string(),
            preserve_space: true,
        })],
    }
}

fn paragraph(children: Vec<ParagraphChildNode>) -> ParagraphNode {
    ParagraphNode {
        id: "p1".to_string(),
        property: docx_rs::ParagraphProperty::new(),
        has_numbering: false,
        children,
    }
}

fn text_of(child: &ParagraphChildNode) -> String {
    match child {
        ParagraphChildNode::Run(run) => match &run.children[0] {
            RunChildNode::Text(t) => t.text.clone(),
            _ => panic!("expected a text node"),
        },
        _ => panic!("expected a run"),
    }
}

#[test]
fn paragraph_runs_and_insertions_are_redacted_in_order() {
    let patterns = number_patterns();
    let mut para = paragraph(vec![
        ParagraphChildNode::Run(run_with_text("call 555 now")),
        ParagraphChildNode::Insert(InsertNode {
            author: "author_one".to_string(),
            date: "2020-01-01T00:00:00Z".to_string(),
            children: vec![InsertChildNode::Run(run_with_text("id 42"))],
        }),
    ]);
    let mut recs: Vec<RedactedData> = Vec::new();
    replace_matches_in_paragraph(&mut para, &patterns, &mut recs);
    assert_eq!(recs.len(), 2);
    assert_eq!(recs[0].unredacted_text, "555");
    assert_eq!(recs[1].unredacted_text, "42");
    let first = text_of(&para.children[0]);
    assert!(!first.contains("555"));
    assert_eq!(first, format!("call [REDACTED:{}] now", recs[0].redacted_text));
    match &para.children[1] {
        ParagraphChildNode::Insert(ins) => {
            assert_eq!(ins.author, "author_one");
            match &ins.children[0] {
                InsertChildNode::Run(run) => match &run.children[0] {
                    RunChildNode::Text(t) => {
                        assert!(!t.text.contains("42"));
                        assert!(t.preserve_space);
                    },
                    _ => panic!("expected a text node"),
                },
                _ => panic!("expected a run"),
            }
        },
        _ => panic!("expected an insertion"),
    }
}

#[test]
fn paragraph_without_matches_is_unchanged() {
    let patterns = number_patterns();
    let mut para = paragraph(vec![ParagraphChildNode::Run(run_with_text("no digits"))]);
    let mut recs: Vec<RedactedData> = Vec::new();
    replace_matches_in_paragraph(&mut para, &patterns, &mut recs);
    assert!(recs.is_empty());
    assert_eq!(text_of(&para.children[0]), "no digits");
}

#[test]
fn document_body_paragraphs_are_redacted() {
    let patterns = number_patterns();
    let mut children = vec![
        DocumentChildNode::Paragraph(paragraph(vec![ParagraphChildNode::Run(run_with_text(
            "one 1",
        ))])),
        DocumentChildNode::Paragraph(paragraph(vec![ParagraphChildNode::Run(run_with_text(
            "two 22",
        ))])),
    ];
    let recs = redact_document(&mut children, &patterns);
    assert_eq!(recs.len(), 2);
    assert_eq!(recs[0].unredacted_text, "1");
    assert_eq!(recs[1].unredacted_text, "22");
    match &children[1] {
        DocumentChildNode::Paragraph(p) => {
            assert!(!text_of(&p.children[0]).contains("22"));
        },
        _ => panic!("expected a paragraph"),
    }
}

use raf::error::RedactError;
use raf::pattern::get_pattern_vec;
use raf::pattern::Pattern;

fn catalog() -> Vec<Pattern> {
    vec![
        Pattern {
            pattern: "\\d{3}-\\d{4}".to_string(),
            types: vec!["phone".to_string(), "pii".to_string()],
        },
        Pattern { pattern: "\\w+@\\w+".to_string(), types: vec!["emails".to_string()] },
        Pattern { pattern: "\\d+".to_string(), types: vec!["numbers".to_string()] },
    ]
}

#[test]
fn resolution_filters_by_category_keeping_catalog_order() {
    let types = vec!["numbers".to_string(), "phone".to_string()];
    let resolved = get_pattern_vec(catalog(), &types).unwrap();
    let sources: Vec<String> = resolved.iter().map(|p| p.source().clone()).collect();
    assert_eq!(sources, vec!["\\d{3}-\\d{4}".to_string(), "\\d+".to_string()]);
}

#[test]
fn resolution_is_idempotent() {
    let types = vec!["emails".to_string(), "pii".to_string()];
    let first = get_pattern_vec(catalog(), &types).unwrap();
    let second = get_pattern_vec(catalog(), &types).unwrap();
    let s1: Vec<String> = first.iter().map(|p| p.source().clone()).collect();
    let s2: Vec<String> = second.iter().map(|p| p.source().clone()).collect();
    assert_eq!(s1, s2);
    assert_eq!(s1, vec!["\\d{3}-\\d{4}".to_string(), "\\w+@\\w+".to_string()]);
}

#[test]
fn unknown_category_is_not_an_error() {
    let types = vec!["no_such_category".to_string()];
    let resolved = get_pattern_vec(catalog(), &types).unwrap();
    assert!(resolved.is_empty());
}

#[test]
fn invalid_regex_outside_the_request_is_ignored() {
    let mut cat = catalog();
    cat.push(Pattern { pattern: "[".to_string(), types: vec!["broken".to_string()] });
    let types = vec!["numbers".to_string()];
    let resolved = get_pattern_vec(cat.clone(), &types).unwrap();
    assert_eq!(resolved.len(), 1);
    let err = get_pattern_vec(cat, &vec!["broken".to_string()]).unwrap_err();
    assert_eq!(err, RedactError::PatternCompileError);
}

#[test]
fn error_messages_name_their_kind() {
    assert_eq!(RedactError::CatalogError.message(), "failed to read the pattern catalog");
    assert_eq!(RedactError::PatternCompileError.message(), "invalid regex pattern");
    assert_eq!(RedactError::UnsupportedFormat.message(), "extension not implemented");
    assert_eq!(RedactError::DocumentLoadError.message(), "unable to load the document");
    assert_eq!(
        RedactError::DocumentPageError.message(),
        "missing or unreadable page or font operand"
    );
    assert_eq!(RedactError::DocumentWriteError.message(), "unable to write the redacted output");
    assert_eq!(RedactError::DirectoryReadError.message(), "directory entry cannot be read");
    assert_eq!(RedactError::OutputDirCreateError.message(), "failed to create output folder");
}

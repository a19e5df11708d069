use raf::engine::redact_text_get_data;
use raf::engine::TOKEN_LEN;
use raf::error::RedactError;
use raf::pattern::get_pattern_vec;
use raf::pattern::Pattern;
use raf::pattern::CompiledPattern;

fn compile(pairs: &[(&str, &str)], wanted: &[&str]) -> Vec<CompiledPattern> {
    let catalog: Vec<Pattern> = pairs
        .iter()
        .map(|(p, t)| Pattern { pattern: p.to_string(), types: vec![t.to_string()] })
        .collect();
    let types: Vec<String> = wanted.iter().map(|t| t.to_string()).collect();
    get_pattern_vec(catalog, &types).unwrap()
}

#[test]
fn redacts_a_number_with_a_fresh_token() {
    let patterns = compile(&[("\\d+", "numbers")], &["numbers"]);
    let (out, recs) = redact_text_get_data(&"Hello 123 world!".to_string(), &patterns);
    assert_eq!(recs.len(), 1);
    assert_eq!(recs[0].unredacted_text, "123");
    let tok = recs[0].redacted_text.clone();
    assert_eq!(tok.len(), TOKEN_LEN);
    assert!(tok.chars().all(|c| c.is_ascii_alphanumeric()));
    assert_eq!(out, format!("Hello [REDACTED:{}] world!", tok));
    assert_eq!(out.matches(&format!("[REDACTED:{}]", tok)).count(), 1);
}

#[test]
fn no_patterns_leave_text_unchanged() {
    let patterns = compile(&[], &[]);
    let (out, recs) = redact_text_get_data(&"nothing to hide".to_string(), &patterns);
    assert_eq!(out, "nothing to hide");
    assert!(recs.is_empty());
}

#[test]
fn unmatched_pattern_leaves_text_unchanged() {
    let patterns = compile(&[("\\d+", "numbers")], &["numbers"]);
    let (out, recs) = redact_text_get_data(&"no digits here".to_string(), &patterns);
    assert_eq!(out, "no digits here");
    assert!(recs.is_empty());
}

#[test]
fn empty_text_stays_empty() {
    let patterns = compile(&[("\\d+", "numbers")], &["numbers"]);
    let (out, recs) = redact_text_get_data(&String::new(), &patterns);
    assert_eq!(out, "");
    assert!(recs.is_empty());
}

#[test]
fn matches_are_recorded_in_descending_offset_order() {
    let patterns = compile(&[("\\d+", "numbers")], &["numbers"]);
    let (out, recs) = redact_text_get_data(&"1 22 333".to_string(), &patterns);
    assert_eq!(recs.len(), 3);
    assert_eq!(recs[0].unredacted_text, "333");
    assert_eq!(recs[1].unredacted_text, "22");
    assert_eq!(recs[2].unredacted_text, "1");
    assert!(recs.iter().all(|r| r.redacted_text.len() == TOKEN_LEN));
    // put the originals back in place of the wrapped tokens: the input returns
    let mut restored = out;
    for r in &recs {
        restored = restored.replace(
            &format!("[REDACTED:{}]", r.redacted_text),
            &r.unredacted_text,
        );
    }
    assert_eq!(restored, "1 22 333");
}

#[test]
fn multibyte_text_offsets_are_character_based() {
    let patterns = compile(&[("\\d+", "n")], &["n"]);
    let (out, recs) = redact_text_get_data(&"héllo 123 wörld 4".to_string(), &patterns);
    assert_eq!(recs.len(), 2);
    assert_eq!(recs[0].unredacted_text, "4");
    assert_eq!(recs[1].unredacted_text, "123");
    assert_eq!(
        out,
        format!(
            "héllo [REDACTED:{}] wörld [REDACTED:{}]",
            recs[1].redacted_text, recs[0].redacted_text
        )
    );
}

#[test]
fn overlapping_patterns_redact_independently() {
    let patterns = compile(&[("\\d+", "n"), ("b1", "n")], &["n"]);
    let (_, recs) = redact_text_get_data(&"ab12".to_string(), &patterns);
    // one match per pattern, records concatenated in catalog order
    assert_eq!(recs.len(), 2);
    assert_eq!(recs[0].unredacted_text, "12");
    assert_eq!(recs[1].unredacted_text, "b1");
}

#[test]
fn empty_matches_still_get_full_tokens() {
    let patterns = compile(&[("x*", "n")], &["n"]);
    let (out, recs) = redact_text_get_data(&"ab".to_string(), &patterns);
    assert_eq!(recs.len(), 3);
    assert!(recs.iter().all(|r| r.unredacted_text.is_empty() && r.redacted_text.len() == TOKEN_LEN));
    assert_eq!(
        out,
        format!(
            "[REDACTED:{}]a[REDACTED:{}]b[REDACTED:{}]",
            recs[2].redacted_text, recs[1].redacted_text, recs[0].redacted_text
        )
    );
}

#[test]
fn token_is_independent_of_the_match() {
    let patterns = compile(&[("secret", "words")], &["words"]);
    let (out, recs) = redact_text_get_data(&"a secret here".to_string(), &patterns);
    assert_eq!(recs.len(), 1);
    // the token leaks neither the content nor the length of the match
    assert_eq!(recs[0].redacted_text.len(), TOKEN_LEN);
    assert_ne!(recs[0].redacted_text, "secret");
    assert!(!out.contains("secret"));
}

#[test]
fn invalid_selected_pattern_is_fatal() {
    let catalog = vec![Pattern { pattern: "(".to_string(), types: vec!["bad".to_string()] }];
    let err = get_pattern_vec(catalog, &vec!["bad".to_string()]).unwrap_err();
    assert_eq!(err, RedactError::PatternCompileError);
}

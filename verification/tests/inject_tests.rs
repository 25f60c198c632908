use braid::inject::{find_injection_point, inject, InjectionError};
use braid::inject_checks::{
    assess_injection_quality, injection_age_at, injection_age_seconds, injection_timestamp,
    is_injection_stale, is_stale_at,
};

#[test]
fn find_basic_injection_point() {
    let text = "# My File\n\n<braid-seed>\nold content\n</braid-seed>\n\n# Footer\n";
    let point = find_injection_point(text).unwrap();
    assert_eq!(&text[point.content_start..point.content_end], "old content\n");
}

#[test]
fn no_tags_returns_error() {
    let text = "# Just a regular file\nNo tags here.\n";
    assert_eq!(find_injection_point(text), Err(InjectionError::NoOpenTag));
}

#[test]
fn missing_close_tag_returns_error() {
    let text = "# File\n<braid-seed>\nsome content\n";
    assert_eq!(find_injection_point(text), Err(InjectionError::NoCloseTag));
}

#[test]
fn multiple_open_tags_returns_error() {
    let text = "<braid-seed>\na\n</braid-seed>\n<braid-seed>\nb\n</braid-seed>\n";
    assert_eq!(find_injection_point(text), Err(InjectionError::MultipleOpenTags));
}

#[test]
fn empty_content_between_tags() {
    let text = "before\n<braid-seed>\n</braid-seed>\nafter\n";
    let point = find_injection_point(text).unwrap();
    assert_eq!(&text[point.content_start..point.content_end], "");
}

#[test]
fn inject_replaces_content() {
    let text = "before\n<braid-seed>\nold\n</braid-seed>\nafter\n";
    let point = find_injection_point(text).unwrap();
    let result = inject(text, &point, "new content\n");
    assert!(result.contains("new content"));
    assert!(result.contains("before"));
    assert!(result.contains("after"));
    assert!(!result.contains("old"));
}

#[test]
fn inject_idempotency() {
    let text = "before\n<braid-seed>\nold\n</braid-seed>\nafter\n";
    let content = "injected\n";
    let point1 = find_injection_point(text).unwrap();
    let result1 = inject(text, &point1, content);
    let point2 = find_injection_point(&result1).unwrap();
    let result2 = inject(&result1, &point2, content);
    assert_eq!(result1, result2, "injection must be idempotent");
}

#[test]
fn preserves_content_outside_tags() {
    let header = "# AGENTS.md\n\nHuman-written instructions here.\n\n";
    let footer = "\n\n## More human content\nDo not touch this.\n";
    let text = format!("{header}<braid-seed>\nold stuff\n</braid-seed>{footer}");
    let point = find_injection_point(&text).unwrap();
    let result = inject(&text, &point, "new stuff\n");
    assert!(result.starts_with(header));
    assert!(result.ends_with(footer));
}

#[test]
fn tags_in_code_block_ignored() {
    let text = "# File\n```\n<braid-seed>\nnot real\n</braid-seed>\n```\n\n<braid-seed>\nreal content\n</braid-seed>\n";
    let point = find_injection_point(text).unwrap();
    assert_eq!(&text[point.content_start..point.content_end], "real content\n");
}

#[test]
fn unicode_preservation() {
    let text = "# Dátá\n\n<braid-seed>\nöld cöntënt ñ\n</braid-seed>\n\n# Föötér\n";
    let point = find_injection_point(text).unwrap();
    let result = inject(text, &point, "nëw cöntënt ü\n");
    assert!(result.contains("nëw cöntënt ü"));
    assert!(result.contains("Dátá"));
    assert!(result.contains("Föötér"));
}

#[test]
fn trailing_newline_after_injection() {
    let text = "before\n<braid-seed>\nold\n</braid-seed>\nafter";
    let point = find_injection_point(text).unwrap();
    let result = inject(text, &point, "new");
    assert!(result.contains("new\n</braid-seed>"));
}

#[test]
fn injection_error_display() {
    let err = InjectionError::NoOpenTag;
    let msg = err.message();
    assert!(msg.contains("<braid-seed>"));
    assert!(msg.contains("Add these tags"));
}

#[test]
fn lens_law_get_set() {
    let text = "header\n<braid-seed>\noriginal\n</braid-seed>\nfooter\n";
    let new_content = "injected content\n";
    let point = find_injection_point(text).unwrap();
    let result = inject(text, &point, new_content);
    let point2 = find_injection_point(&result).unwrap();
    let got = &result[point2.content_start..point2.content_end];
    assert_eq!(got, new_content, "lens law: get(set(s, a)) = a");
}

#[test]
fn lens_law_set_get() {
    let text = "header\n<braid-seed>\nexisting content\n</braid-seed>\nfooter\n";
    let point = find_injection_point(text).unwrap();
    let existing = &text[point.content_start..point.content_end];
    let result = inject(text, &point, existing);
    assert_eq!(result, text, "lens law: set(s, get(s)) = s");
}

#[test]
fn lens_law_set_set() {
    let text = "header\n<braid-seed>\noriginal\n</braid-seed>\nfooter\n";
    let p1 = find_injection_point(text).unwrap();
    let r1 = inject(text, &p1, "first\n");
    let p2 = find_injection_point(&r1).unwrap();
    let r2 = inject(&r1, &p2, "second\n");
    let p3 = find_injection_point(text).unwrap();
    let r3 = inject(text, &p3, "second\n");
    assert_eq!(r2, r3, "lens law: set(set(s, a), b) = set(s, b)");
}

#[test]
fn multiline_content_preserved() {
    let text = "before\n<braid-seed>\n</braid-seed>\nafter\n";
    let content = "line one\nline two\nline three\n";
    let point = find_injection_point(text).unwrap();
    let result = inject(text, &point, content);
    let point2 = find_injection_point(&result).unwrap();
    let got = &result[point2.content_start..point2.content_end];
    assert_eq!(got, content);
}

#[test]
fn complex_markdown_context() {
    let text = "# Project\n\n## Config\n\n- item 1\n- item 2\n\n<braid-seed>\nold\n</braid-seed>\n\n## Links\n\n[link](https://example.com)\n";
    let point = find_injection_point(text).unwrap();
    let result = inject(text, &point, "new\n");
    assert!(result.contains("# Project"));
    assert!(result.contains("- item 1"));
    assert!(result.contains("[link](https://example.com)"));
    assert!(result.contains("new"));
    assert!(!result.contains("old"));
}

#[test]
fn tags_in_annotated_code_block_ignored() {
    let text = "```markdown\n<braid-seed>\nfake\n</braid-seed>\n```\n\n<braid-seed>\nreal\n</braid-seed>\n";
    let point = find_injection_point(text).unwrap();
    assert_eq!(&text[point.content_start..point.content_end], "real\n");
}

#[test]
fn open_in_code_close_outside_errors() {
    let text = "```\n<braid-seed>\n```\n</braid-seed>\n";
    assert!(find_injection_point(text).is_err());
}

#[test]
fn quality_assessment_complete_content() {
    let content = "\
### Store Context
Braid datom store | 100 datoms, 50 entities

### Active Constraints
- [?] ADR-TEST-001 — Test constraint

### Recent Entities
- :spec/inv-test-001 — Test entity

### Open Questions
- [?] Some open question

### Next Actions
Next actions:
  1. Connect — Test action
     run: braid status

### Quick Reference
```bash
braid status
```
";
    let quality = assess_injection_quality(content);
    assert_eq!(quality.section_count, 5);
    assert!(quality.has_store_context);
    assert!(quality.has_next_action);
    assert!(quality.has_quick_reference);
    let score = quality.score_percent as f64 / 100.0;
    assert!(score > 0.9, "Complete content should score >0.9, got {}", score);
}

#[test]
fn quality_assessment_minimal_content() {
    let content = "### Store Context\nsome content\n";
    let quality = assess_injection_quality(content);
    assert_eq!(quality.section_count, 1);
    assert!(quality.has_store_context);
    assert!(!quality.has_next_action);
    let score = quality.score_percent as f64 / 100.0;
    assert!(score < 0.5, "Minimal content should score <0.5, got {}", score);
}

#[test]
fn injection_age_parses_timestamp() {
    let now = std::time::SystemTime::now()
        .duration_since(std::time::UNIX_EPOCH)
        .unwrap()
        .as_secs();
    let content = format!("<!-- Updated: {} | Store: 100 datoms -->", now);
    let age = injection_age_seconds(&content);
    assert!(age.is_some());
    assert!(age.unwrap() < 5, "Just-generated content should be <5s old");
}

#[test]
fn injection_age_old_timestamp() {
    let content = "<!-- Updated: 1000000000 | Store: 100 datoms -->";
    let age = injection_age_seconds(content);
    assert!(age.is_some());
    assert!(age.unwrap() > 3600, "Old timestamp should be stale");
    assert!(is_injection_stale(content));
}

#[test]
fn injection_age_no_timestamp() {
    let content = "No timestamp here";
    assert!(injection_age_seconds(content).is_none());
    assert!(is_injection_stale(content), "No timestamp means stale");
}

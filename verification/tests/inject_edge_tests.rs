use braid::inject::{find_injection_point, inject, InjectionError, InjectionPoint};
use braid::inject_checks::{
    assess_injection_quality, injection_age_at, injection_timestamp, is_stale_at,
};

#[test]
fn point_offsets_cover_tags_and_newlines() {
    let text = "a\n<braid-seed>\nx\n</braid-seed>\nb";
    let p = find_injection_point(text).unwrap();
    assert_eq!(
        p,
        InjectionPoint { tag_start: 2, tag_end: 31, content_start: 15, content_end: 17 }
    );
}

#[test]
fn open_tag_without_newline_starts_content_right_after() {
    let text = "<braid-seed>inline</braid-seed>";
    let p = find_injection_point(text).unwrap();
    assert_eq!(p.content_start, 12);
    assert_eq!(&text[p.content_start..p.content_end], "inline");
    assert_eq!(p.tag_end, text.len());
}

#[test]
fn close_tag_inside_code_block_is_skipped() {
    let text = "<braid-seed>\nx\n```\n</braid-seed>\n```\n</braid-seed>\n";
    assert_eq!(
        find_injection_point(text),
        Ok(InjectionPoint { tag_start: 0, content_start: 13, content_end: 37, tag_end: 51 })
    );
}

#[test]
fn close_tag_inside_code_block_is_no_close_tag() {
    let text = "<braid-seed>\nx\n```\n</braid-seed>\n```\n";
    assert_eq!(find_injection_point(text), Err(InjectionError::NoCloseTag));
}

#[test]
fn indented_fence_opens_code_block() {
    let text = "   ```\n<braid-seed>\n   ```\n<braid-seed>\nok\n</braid-seed>\n";
    let p = find_injection_point(text).unwrap();
    assert_eq!(&text[p.content_start..p.content_end], "ok\n");
}

#[test]
fn inject_keeps_everything_outside_the_content() {
    let text = "head\n<braid-seed>\nold\n</braid-seed>\ntail";
    let p = find_injection_point(text).unwrap();
    let r = inject(text, &p, "x");
    assert_eq!(r, "head\n<braid-seed>\nx\n</braid-seed>\ntail");
}

#[test]
fn inject_empty_content_adds_no_newline() {
    let text = "<braid-seed>\nold\n</braid-seed>\n";
    let p = find_injection_point(text).unwrap();
    let r = inject(text, &p, "");
    assert_eq!(r, "<braid-seed>\n</braid-seed>\n");
}

#[test]
fn error_messages_name_the_problem() {
    assert_eq!(
        InjectionError::NoCloseTag.message(),
        "found <braid-seed> but no matching </braid-seed> tag"
    );
    assert_eq!(
        InjectionError::MultipleOpenTags.message(),
        "multiple <braid-seed> tags found \u{2014} only one injection point is allowed"
    );
}

#[test]
fn timestamp_needs_a_space_after_it() {
    assert_eq!(injection_timestamp("<!-- Updated: 42 | x -->"), Some(42));
    assert_eq!(injection_timestamp("<!-- Updated: 42-->"), None);
    assert_eq!(injection_timestamp("<!-- Updated: 4x2 | -->"), None);
    assert_eq!(injection_timestamp("<!-- Updated: +7 | -->"), Some(7));
}

#[test]
fn age_of_future_timestamp_is_zero() {
    assert_eq!(injection_age_at("<!-- Updated: 500 | -->", 100), Some(0));
    assert_eq!(injection_age_at("<!-- Updated: 100 | -->", 500), Some(400));
    assert_eq!(injection_age_at("nothing", 500), None);
}

#[test]
fn stale_after_more_than_an_hour() {
    let content = "<!-- Updated: 1000 | Store: 1 datoms -->";
    assert!(!is_stale_at(content, 1000 + 3600));
    assert!(is_stale_at(content, 1000 + 3601));
    assert!(is_stale_at("no stamp", 0));
}

#[test]
fn token_estimate_counts_words_four_thirds() {
    let q = assess_injection_quality("a b  c\td");
    assert_eq!(q.token_count, 5);
    let q = assess_injection_quality("one\u{3000}two three");
    assert_eq!(q.token_count, 4);
    let q = assess_injection_quality("");
    assert_eq!(q.token_count, 0);
    assert_eq!(q.section_count, 0);
    assert_eq!(q.score_percent, 0);
}

#[test]
fn quality_score_is_capped_and_weighted() {
    let q = assess_injection_quality("### Session Context\nnext: x\n### Quick Reference\n");
    assert_eq!(q.section_count, 1);
    assert!(q.has_next_action);
    assert_eq!(q.score_percent, 25 + 25 + 8 + 10);
}

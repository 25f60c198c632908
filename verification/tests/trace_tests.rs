use braid::trace::{
    extract_spec_refs, find_spec_ref_start, is_comment_line, is_test_file, module_from_path,
    parse_spec_ref, scan_content,
};

#[test]
fn extract_spec_refs_basic() {
    let refs = extract_spec_refs("// INV-STORE-001: Append-only immutability");
    assert_eq!(refs, vec!["INV-STORE-001"]);
}

#[test]
fn extract_spec_refs_multiple() {
    let refs = extract_spec_refs("/// Traces to: INV-STORE-001, ADR-SEED-002");
    assert_eq!(refs, vec!["INV-STORE-001", "ADR-SEED-002"]);
}

#[test]
fn extract_spec_refs_neg() {
    let refs = extract_spec_refs("// NEG-MUTATION-001: No in-place mutation");
    assert_eq!(refs, vec!["NEG-MUTATION-001"]);
}

#[test]
fn extract_spec_refs_no_match() {
    let refs = extract_spec_refs("// This is a normal comment");
    assert!(refs.is_empty());
}

#[test]
fn extract_spec_refs_in_prose() {
    let refs = extract_spec_refs("// See INV-QUERY-024 and ADR-BILATERAL-003 for details");
    assert_eq!(refs, vec!["INV-QUERY-024", "ADR-BILATERAL-003"]);
}

#[test]
fn extract_spec_refs_no_false_positive_from_non_comment() {
    let refs = extract_spec_refs("INV-lowercase-001");
    assert!(refs.is_empty());
}

#[test]
fn parse_spec_ref_valid() {
    assert_eq!(parse_spec_ref("INV-STORE-001"), Some("INV-STORE-001".to_string()));
    assert_eq!(parse_spec_ref("ADR-SEED-002"), Some("ADR-SEED-002".to_string()));
    assert_eq!(parse_spec_ref("NEG-MUTATION-001"), Some("NEG-MUTATION-001".to_string()));
}

#[test]
fn parse_spec_ref_invalid() {
    assert_eq!(parse_spec_ref("FOO-BAR-001"), None);
    assert_eq!(parse_spec_ref("INV-lower-001"), None);
    assert_eq!(parse_spec_ref("INV-STORE"), None);
    assert_eq!(parse_spec_ref("INV-STORE-"), None);
}

#[test]
fn module_from_path_kernel() {
    assert_eq!(module_from_path("crates/braid-kernel/src/store.rs"), "braid_kernel::store");
}

#[test]
fn module_from_path_cli() {
    assert_eq!(module_from_path("crates/braid/src/commands/trace.rs"), "braid::commands::trace");
}

#[test]
fn module_from_path_mod() {
    assert_eq!(module_from_path("crates/braid/src/commands/mod.rs"), "braid::commands");
}

#[test]
fn is_test_file_positive() {
    assert!(is_test_file("crates/braid-kernel/tests/store_test.rs"));
    assert!(is_test_file("crates/braid/src/tests/integration.rs"));
    assert!(is_test_file("tests/bilateral_tests.rs"));
}

#[test]
fn is_test_file_negative() {
    assert!(!is_test_file("crates/braid/src/commands/trace.rs"));
    assert!(!is_test_file("crates/braid-kernel/src/store.rs"));
}

#[test]
fn is_comment_line_true() {
    assert!(is_comment_line("// INV-STORE-001"));
    assert!(is_comment_line("/// Doc comment"));
    assert!(is_comment_line("//! Module doc"));
}

#[test]
fn is_comment_line_false() {
    assert!(!is_comment_line("let x = 1;"));
    assert!(!is_comment_line("fn main() {"));
}

#[test]
fn spec_ref_start_is_earliest_prefix() {
    assert_eq!(find_spec_ref_start("xx NEG-A-1 ADR-B-2"), Some(3));
    assert_eq!(find_spec_ref_start("no refs"), None);
    assert_eq!(find_spec_ref_start("ADR-"), Some(0));
}

#[test]
fn spec_ref_digits_are_one_to_four() {
    assert_eq!(parse_spec_ref("INV-A-12345"), None);
    assert_eq!(parse_spec_ref("INV-A-1234x"), Some("INV-A-1234".to_string()));
    assert_eq!(parse_spec_ref("INV-A-1"), Some("INV-A-1".to_string()));
}

#[test]
fn refs_after_a_failed_candidate_are_still_found() {
    let refs = extract_spec_refs("INV-x INV-OK-7 ADR-NO- NEG-YES-0042!");
    assert_eq!(refs, vec!["INV-OK-7", "NEG-YES-0042"]);
}

#[test]
fn module_path_strips_repeated_crates_prefix_and_lib() {
    assert_eq!(module_from_path("crates/crates/a-b/src/lib.rs"), "a_b");
    assert_eq!(module_from_path("x/y.rs.rs"), "x::y");
}

#[test]
fn scan_skips_code_in_doc_comments_and_non_comments() {
    let content = "// INV-A-1\nlet s = \"INV-B-2\";\n/// ```\n/// INV-C-3\n/// ```\n   //! ADR-D-4  \r\n";
    let refs = scan_content(content, "crates/x/tests/t.rs");
    let names: Vec<&str> = refs.iter().map(|r| r.spec_ref.as_str()).collect();
    assert_eq!(names, vec!["INV-A-1", "ADR-D-4"]);
    assert!(refs.iter().all(|r| r.is_test && r.file == "crates/x/tests/t.rs"));
}

use braid::error::{BraidError, IoErrorKind, IoFailure, KernelFailure, OutputMode};

#[test]
fn error_display_has_four_parts() {
    let err = BraidError::Parse("unexpected token".into());
    let display = err.to_string();
    assert!(display.contains("error:"), "must have 'error:' prefix");
    assert!(display.contains("why:"), "must have 'why:' section");
    assert!(display.contains("fix:"), "must have 'fix:' section");
    assert!(display.contains("ref:"), "must have 'ref:' section");
}

#[test]
fn io_not_found_has_init_hint() {
    let err = BraidError::Io(IoFailure::new(IoErrorKind::NotFound, "test"));
    let info = err.error_info();
    assert_eq!(info.what, "store not found");
    assert!(info.fix.contains("braid init"));
}

#[test]
fn empty_result_references_diagnostics() {
    let err = BraidError::EmptyResult("no matches".into());
    let info = err.error_info();
    assert_eq!(info.spec_ref, "INV-INTERFACE-012");
}

#[test]
fn all_variants_have_spec_ref() {
    let variants: Vec<BraidError> = vec![
        BraidError::Parse("test".into()),
        BraidError::DatalogParse("test".into()),
        BraidError::Validation("test".into()),
        BraidError::EmptyResult("test".into()),
        BraidError::Io(IoFailure::other("test")),
    ];
    for v in &variants {
        let info = v.error_info();
        assert!(!info.spec_ref.is_empty(), "spec_ref must not be empty for {:?}", v);
        assert!(!info.fix.is_empty(), "fix must not be empty for {:?}", v);
    }
}

#[test]
fn recovery_hint_delegates_to_error_info() {
    let err = BraidError::Parse("test".into());
    assert_eq!(err.recovery_hint(), err.error_info().fix);
}

#[test]
fn render_json_has_structured_error() {
    let err = BraidError::Parse("unexpected '}'".into());
    let rendered = err.render(OutputMode::Json);
    let parsed: serde_json::Value = serde_json::from_str(&rendered).unwrap();
    let error_obj = &parsed["error"];
    assert_eq!(error_obj["what"], "parse error");
    assert_eq!(error_obj["why"], "unexpected '}'");
    assert!(error_obj["fix"].as_str().unwrap().contains("EDN"));
    assert_eq!(error_obj["spec_ref"], "INV-INTERFACE-009");
}

#[test]
fn render_agent_has_navigative_structure() {
    let err = BraidError::Io(IoFailure::new(IoErrorKind::NotFound, "test"));
    let rendered = err.render(OutputMode::Agent);
    assert!(rendered.starts_with("error: store not found"));
    assert!(rendered.contains("fix: braid init"));
    assert!(rendered.contains("ref: INV-STORE-001"));
}

#[test]
fn render_human_matches_display() {
    let err = BraidError::Validation("bad input".into());
    let rendered = err.render(OutputMode::Human);
    assert_eq!(rendered, err.to_string());
}

#[test]
fn render_json_all_variants_parseable() {
    let variants: Vec<BraidError> = vec![
        BraidError::Parse("test".into()),
        BraidError::DatalogParse("bad query".into()),
        BraidError::Validation("out of range".into()),
        BraidError::EmptyResult("no matches".into()),
        BraidError::Io(IoFailure::other("disk full")),
    ];
    for v in &variants {
        let json_str = v.render(OutputMode::Json);
        let parsed: Result<serde_json::Value, _> = serde_json::from_str(&json_str);
        assert!(parsed.is_ok(), "JSON must parse for {:?}", v);
        let parsed = parsed.unwrap();
        assert!(parsed["error"]["what"].is_string());
        assert!(parsed["error"]["fix"].is_string());
        assert!(parsed["error"]["spec_ref"].is_string());
    }
}

#[test]
fn display_text_exact() {
    let err = BraidError::Io(IoFailure::new(IoErrorKind::PermissionDenied, "denied"));
    assert_eq!(
        err.to_string(),
        "error: permission denied\n  why: denied\n  fix: Check permissions: ls -la .braid/\n  ref: INV-STORE-001"
    );
    let err = BraidError::Io(IoFailure::new(IoErrorKind::AlreadyExists, "x"));
    assert_eq!(err.error_info().what, "store already exists");
    assert_eq!(err.detail_string(), "x");
}

#[test]
fn agent_render_exact() {
    let err = BraidError::EmptyResult("none".into());
    assert_eq!(
        err.render(OutputMode::Agent),
        "error: no results\n\nnone\n\nfix: braid query --attribute :db/ident  # list all entities | ref: INV-INTERFACE-012\n"
    );
}

#[test]
fn io_failure_converts_into_braid_error() {
    let e: BraidError = IoFailure::other("disk").into();
    assert_eq!(e.error_info().what, "IO error");
}

#[test]
fn kernel_error_uses_its_recovery_hint() {
    let err = BraidError::Kernel(KernelFailure::new("schema attribute missing", "unknown attribute"));
    let info = err.error_info();
    assert_eq!(info.what, "kernel computation error");
    assert_eq!(info.why, "schema attribute missing");
    assert_eq!(info.spec_ref, "INV-STORE-001");
    assert_eq!(
        err.to_string(),
        "error: kernel computation error\n  why: unknown attribute\n  fix: Check inputs and retry. Run `braid status` for store state.\n  ref: INV-STORE-001"
    );
}

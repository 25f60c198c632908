use braid::export::{render_adr, render_invariant, render_namespace_spec, render_neg, StoreElement};
use braid::namespaces::{extract_namespace, extract_namespace_name, in_namespace};

fn element(id: &str, kind: &str) -> StoreElement {
    StoreElement {
        id: id.to_string(),
        element_type: kind.to_string(),
        namespace: ":element.ns/store".to_string(),
        title: format!("Title {id}"),
        body: String::new(),
        statement: String::new(),
        falsification: String::new(),
        verification: String::new(),
        problem: String::new(),
        decision_text: String::new(),
        violation: String::new(),
        status: String::new(),
        confidence_text: None,
        traces_to: Vec::new(),
    }
}

#[test]
fn invariant_rendering_exact() {
    let mut e = element("INV-STORE-001", ":element.type/invariant");
    e.traces_to = vec!["SEED.md".to_string(), "C1".to_string()];
    e.statement = "Append only".to_string();
    e.confidence_text = Some("0.95".to_string());
    e.body = "Details.".to_string();
    let mut out = String::from(">");
    render_invariant(&mut out, &e);
    assert_eq!(
        out,
        ">### INV-STORE-001: Title INV-STORE-001\n\n- **Traces to**: SEED.md, C1\n- **Type**: Invariant\n- **Statement**: Append only\n- **Confidence**: 0.95\n\nDetails.\n\n"
    );
}

#[test]
fn adr_and_neg_rendering_exact() {
    let mut a = element("ADR-X-1", "adr");
    a.problem = "P".to_string();
    a.decision_text = "D".to_string();
    let mut out = String::new();
    render_adr(&mut out, &a);
    assert_eq!(out, "### ADR-X-1: Title ADR-X-1\n\n- **Type**: ADR\n\n**Problem**: P\n\n**Decision**: D\n\n");
    let mut n = element("NEG-X-1", "negative");
    n.violation = "V".to_string();
    let mut out = String::new();
    render_neg(&mut out, &n);
    assert_eq!(out, "### NEG-X-1: Title NEG-X-1\n\n- **Type**: Negative Case\n- **Violation**: V\n\n");
}

#[test]
fn namespace_document_sorts_each_section_by_id() {
    let es = vec![
        element("INV-S-002", "invariant"),
        element("ADR-S-001", "adr"),
        element("INV-S-001", "invariant"),
    ];
    let doc = render_namespace_spec("STORE", &es);
    assert!(doc.starts_with("# STORE \u{2014} Generated Specification\n\n"));
    let i1 = doc.find("### INV-S-001").unwrap();
    let i2 = doc.find("### INV-S-002").unwrap();
    let a1 = doc.find("## Architecture Decision Records").unwrap();
    assert!(i1 < i2 && i2 < a1);
    assert!(!doc.contains("## Negative Cases"));
}

#[test]
fn namespace_document_keeps_input_order_for_equal_ids() {
    let mut first = element("INV-S-1", "invariant");
    first.title = "first".to_string();
    let mut second = element("INV-S-1", "invariant");
    second.title = "second".to_string();
    let doc = render_namespace_spec("S", &vec![first, second]);
    assert!(doc.find("first").unwrap() < doc.find("second").unwrap());
}

#[test]
fn namespaces_of_spec_ids() {
    assert_eq!(extract_namespace("INV-STORE-001"), Some("STORE"));
    assert_eq!(extract_namespace("ADR-A-B-7"), Some("A-B"));
    assert_eq!(extract_namespace("FOO-STORE-001"), None);
    assert_eq!(extract_namespace("NEG-X"), None);
    assert_eq!(extract_namespace_name(":element.ns/store"), "STORE");
    assert_eq!(extract_namespace_name(":spec.ns/seed"), "SEED");
    assert_eq!(extract_namespace_name("other"), "OTHER");
    assert!(in_namespace("INV-STORE-001", "store"));
    assert!(!in_namespace("INV-STORE-001", "seed"));
    assert!(!in_namespace("bogus", "store"));
}

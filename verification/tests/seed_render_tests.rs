use braid::inject::{find_injection_point, inject};
use braid::seed_render::{render_injection, ConstraintRef, ContextSection, StateEntry};

fn sample_sections() -> Vec<ContextSection> {
    vec![
        ContextSection::Orientation("Store has data.\r\nSecond line".to_string()),
        ContextSection::Constraints(vec![
            ConstraintRef { id: "INV-A-1".to_string(), summary: String::new(), satisfied: Some(true) },
            ConstraintRef { id: "INV-B-2".to_string(), summary: "must hold".to_string(), satisfied: None },
        ]),
        ContextSection::State(vec![
            StateEntry { content: "#hash".to_string() },
            StateEntry { content: "entity one".to_string() },
        ]),
        ContextSection::Warnings(Vec::new()),
        ContextSection::Directive("Task: x\nrun: braid status".to_string()),
    ]
}

#[test]
fn generated_content_has_comment_sections_and_footer() {
    let content = render_injection(1700000000, 10, 3, &sample_sections());
    assert!(content.starts_with(
        "<!-- Generated by braid. Do not edit manually. Regenerate: braid seed --inject AGENTS.md -->\n<!-- Updated: 1700000000 | Store: 10 datoms, 3 entities -->\n\n"
    ));
    assert!(content.contains("### Session Context\nStore has data.\nSecond line\n\n"));
    assert!(content.contains("- [ok] INV-A-1\n- [?] INV-B-2 \u{2014} must hold\n"));
    assert!(content.contains("### Recent Entities\n- entity one\n- ... and 1 more entities\n\n"));
    assert!(!content.contains("Open Questions"));
    assert!(content.contains("### Next Actions\nrun: braid status\n\n"));
    assert!(!content.contains("Task: x"));
    assert!(content.ends_with("braid seed --inject AGENTS.md          # Refresh this section\n```\n"));
}

#[test]
fn at_most_fifteen_entities_are_listed() {
    let entries: Vec<StateEntry> = (0..20).map(|i| StateEntry { content: format!("e{i}") }).collect();
    let content = render_injection(0, 0, 0, &vec![ContextSection::State(entries)]);
    assert!(content.contains("- e14\n- ... and 5 more entities\n"));
    assert!(!content.contains("- e15\n"));
}

#[test]
fn generated_content_round_trips_through_injection() {
    let original = "# AGENTS.md\n\nInstructions.\n\n<braid-seed>\n<!-- placeholder -->\n</braid-seed>\n\n# End\n";
    let content = render_injection(1, 2, 3, &sample_sections());
    let p1 = find_injection_point(original).unwrap();
    let r1 = inject(original, &p1, &content);
    let p2 = find_injection_point(&r1).unwrap();
    assert_eq!(&r1[p2.content_start..p2.content_end], content);
    let r2 = inject(&r1, &p2, &content);
    assert_eq!(r1, r2, "full round-trip must be idempotent");
}

use braid::routing::{marshal_command, ArgValue, ObserveArgs, RoutableCommand};

fn s(x: &str) -> String {
    x.to_string()
}

fn str_arg(x: &str) -> ArgValue {
    ArgValue::Str(x.to_string())
}

#[test]
fn status_and_next_have_no_arguments() {
    assert_eq!(marshal_command(&RoutableCommand::Status), Some(("braid_status", vec![])));
    assert_eq!(marshal_command(&RoutableCommand::Next), Some(("braid_task_ready", vec![])));
}

#[test]
fn query_datalog_flag_wins_over_positional() {
    let cmd = RoutableCommand::Query {
        entity: Some(s(":e/1")),
        attribute: None,
        datalog: Some(s("[:find ?e]")),
        positional_datalog: Some(s("[:find ?x]")),
    };
    assert_eq!(
        marshal_command(&cmd),
        Some(("braid_query", vec![("datalog", str_arg("[:find ?e]")), ("entity", str_arg(":e/1"))]))
    );
    let cmd = RoutableCommand::Query {
        entity: None,
        attribute: Some(s(":db/doc")),
        datalog: None,
        positional_datalog: Some(s("[:find ?x]")),
    };
    assert_eq!(
        marshal_command(&cmd),
        Some(("braid_query", vec![("datalog", str_arg("[:find ?x]")), ("attribute", str_arg(":db/doc"))]))
    );
}

#[test]
fn observe_sends_set_fields_only() {
    let o = ObserveArgs {
        text: s("cache is stale"),
        confidence: serde_json::Value::from(0.7),
        tag: vec![s("perf")],
        category: None,
        relates_to: Some(s("INV-STORE-001")),
        rationale: None,
        alternatives: None,
        no_auto_crystallize: true,
    };
    assert_eq!(
        marshal_command(&RoutableCommand::Observe(Some(o))),
        Some((
            "braid_observe",
            vec![
                ("text", str_arg("cache is stale")),
                ("confidence", ArgValue::Json(serde_json::Value::from(0.7))),
                ("tags", ArgValue::Strs(vec![s("perf")])),
                ("relates_to", str_arg("INV-STORE-001")),
                ("no_auto_crystallize", ArgValue::Bool(true)),
            ]
        ))
    );
    assert_eq!(marshal_command(&RoutableCommand::Observe(None)), None);
}

#[test]
fn harvest_defaults_task_to_continue() {
    let cmd = RoutableCommand::Harvest { task: None, commit: true, force: false, no_reconcile: false };
    assert_eq!(
        marshal_command(&cmd),
        Some(("braid_harvest", vec![("task", str_arg("continue")), ("commit", ArgValue::Bool(true))]))
    );
}

#[test]
fn done_routes_a_single_id_only() {
    let one = RoutableCommand::Done { ids: vec![s("t-1")] };
    assert_eq!(marshal_command(&one), Some(("braid_task_close", vec![("id", str_arg("t-1"))])));
    let two = RoutableCommand::Done { ids: vec![s("t-1"), s("t-2")] };
    assert_eq!(marshal_command(&two), None);
    assert_eq!(marshal_command(&RoutableCommand::Done { ids: vec![] }), None);
}

#[test]
fn task_create_leaves_out_defaults() {
    let plain = RoutableCommand::TaskCreate {
        title: s("Fix bug"),
        priority: 2,
        task_type: s("task"),
        description: None,
        traces_to: vec![],
        labels: vec![],
        force: false,
    };
    assert_eq!(marshal_command(&plain), Some(("braid_task_create", vec![("title", str_arg("Fix bug"))])));
    let full = RoutableCommand::TaskCreate {
        title: s("Epic"),
        priority: 0,
        task_type: s("epic"),
        description: Some(s("big")),
        traces_to: vec![s("INV-X-001")],
        labels: vec![s("a"), s("b")],
        force: true,
    };
    assert_eq!(
        marshal_command(&full),
        Some((
            "braid_task_create",
            vec![
                ("title", str_arg("Epic")),
                ("priority", ArgValue::Int(0)),
                ("task_type", str_arg("epic")),
                ("description", str_arg("big")),
                ("traces_to", ArgValue::Strs(vec![s("INV-X-001")])),
                ("labels", ArgValue::Strs(vec![s("a"), s("b")])),
                ("force", ArgValue::Bool(true)),
            ]
        ))
    );
}

#[test]
fn seed_sends_budget_only_when_not_default() {
    let d = RoutableCommand::Seed { task: Some(s("t")), seed_budget: 2000 };
    assert_eq!(marshal_command(&d), Some(("braid_seed", vec![("task", str_arg("t"))])));
    let b = RoutableCommand::Seed { task: None, seed_budget: 500 };
    assert_eq!(
        marshal_command(&b),
        Some(("braid_seed", vec![("task", str_arg("continue")), ("budget", ArgValue::Uint(500))]))
    );
}

#[test]
fn write_assert_routes_a_single_datom() {
    let one = RoutableCommand::WriteAssert { datoms: vec![s(":e"), s(":a"), s("v")], rationale: s("why") };
    assert_eq!(
        marshal_command(&one),
        Some((
            "braid_write",
            vec![
                ("entity", str_arg(":e")),
                ("attribute", str_arg(":a")),
                ("value", str_arg("v")),
                ("rationale", str_arg("why")),
            ]
        ))
    );
    let many = RoutableCommand::WriteAssert { datoms: vec![s(":e"); 6], rationale: s("") };
    assert_eq!(marshal_command(&many), None);
}

#[test]
fn other_commands_use_direct_mode() {
    assert_eq!(marshal_command(&RoutableCommand::Other), None);
    let go = RoutableCommand::Go { id: s("t-9") };
    assert_eq!(marshal_command(&go), Some(("braid_task_go", vec![("id", str_arg("t-9"))])));
}

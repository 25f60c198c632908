//! CLI auto-routing: which command line commands the daemon can serve, and
//! the MCP tool name and arguments each one is sent as.
use vstd::prelude::*;

verus! {

/// The observation fields of `braid observe "text"` and of
/// `braid observe create "text"`.
#[derive(Debug, Clone)]
pub struct ObserveArgs {
    pub text: String,
    /// The confidence, as the JSON number it is sent as.
    pub confidence: serde_json::Value,
    pub tag: Vec<String>,
    pub category: Option<String>,
    pub relates_to: Option<String>,
    pub rationale: Option<String>,
    pub alternatives: Option<String>,
    pub no_auto_crystallize: bool,
}

/// A command line command, with the fields that routing reads.
#[derive(Debug, Clone)]
pub enum RoutableCommand {
    /// `braid status`.
    Status,
    /// `braid query`.
    Query {
        entity: Option<String>,
        attribute: Option<String>,
        datalog: Option<String>,
        positional_datalog: Option<String>,
    },
    /// `braid observe`: the observation when one is created (`None` for the
    /// list, search, show and recent subcommands, and without text).
    Observe(Option<ObserveArgs>),
    /// `braid harvest`.
    Harvest { task: Option<String>, commit: bool, force: bool, no_reconcile: bool },
    /// `braid go`.
    Go { id: String },
    /// `braid next`.
    Next,
    /// `braid done`.
    Done { ids: Vec<String> },
    /// `braid task create`.
    TaskCreate {
        title: String,
        priority: i64,
        task_type: String,
        description: Option<String>,
        traces_to: Vec<String>,
        labels: Vec<String>,
        force: bool,
    },
    /// `braid seed`.
    Seed { task: Option<String>, seed_budget: u64 },
    /// `braid write assert`.
    WriteAssert { datoms: Vec<String>, rationale: String },
    /// Any other command (init, daemon, shell, bilateral, topology, ...).
    Other,
}

/// The value of one tool argument.
#[derive(Debug, Clone, PartialEq)]
pub enum ArgValue {
    Str(String),
    Strs(Vec<String>),
    Bool(bool),
    Int(i64),
    Uint(u64),
    Json(serde_json::Value),
}

/// An argument value as a mathematical value.
pub enum ArgView {
    Str(Seq<char>),
    Strs(Seq<Seq<char>>),
    Bool(bool),
    Int(int),
    Json(serde_json::Value),
}

/// Strings as character sequences.
pub open spec fn strs_view(v: Seq<String>) -> Seq<Seq<char>> {
    v.map_values(|s: String| s@)
}

/// The view of an argument value.
pub open spec fn arg_view(a: ArgValue) -> ArgView {
    match a {
        ArgValue::Str(s) => ArgView::Str(s@),
        ArgValue::Strs(v) => ArgView::Strs(strs_view(v@)),
        ArgValue::Bool(b) => ArgView::Bool(b),
        ArgValue::Int(n) => ArgView::Int(n as int),
        ArgValue::Uint(n) => ArgView::Int(n as int),
        ArgValue::Json(j) => ArgView::Json(j),
    }
}

/// The view of named arguments.
pub open spec fn args_view(v: Seq<(&'static str, ArgValue)>) -> Seq<(Seq<char>, ArgView)> {
    v.map_values(|p: (&'static str, ArgValue)| (p.0@, arg_view(p.1)))
}

/// The view of a routing result.
pub open spec fn marshal_view(r: Option<(&'static str, Vec<(&'static str, ArgValue)>)>) -> Option<
    (Seq<char>, Seq<(Seq<char>, ArgView)>),
> {
    match r {
        Some((tool, args)) => Some((tool@, args_view(args@))),
        None => None,
    }
}

/// `key: value` when the option is set.
pub open spec fn opt_arg(key: Seq<char>, o: Option<String>) -> Seq<(Seq<char>, ArgView)> {
    match o {
        Some(s) => seq![(key, ArgView::Str(s@))],
        None => Seq::empty(),
    }
}

/// `key: true` when the flag is set.
pub open spec fn flag_arg(key: Seq<char>, b: bool) -> Seq<(Seq<char>, ArgView)> {
    if b {
        seq![(key, ArgView::Bool(true))]
    } else {
        Seq::empty()
    }
}

/// `key: [values]` when there are values.
pub open spec fn strs_arg(key: Seq<char>, v: Seq<String>) -> Seq<(Seq<char>, ArgView)> {
    if v.len() > 0 {
        seq![(key, ArgView::Strs(strs_view(v)))]
    } else {
        Seq::empty()
    }
}

/// The task of a harvest or seed: the one given, or `continue`.
pub open spec fn task_or_continue(task: Option<String>) -> Seq<char> {
    match task {
        Some(t) => t@,
        None => "continue"@,
    }
}

/// The arguments of an observation.
pub open spec fn observe_args(o: ObserveArgs) -> Seq<(Seq<char>, ArgView)> {
    seq![("text"@, ArgView::Str(o.text@)), ("confidence"@, ArgView::Json(o.confidence))]
        + strs_arg("tags"@, o.tag@) + opt_arg("category"@, o.category) + opt_arg(
        "relates_to"@,
        o.relates_to,
    ) + opt_arg("rationale"@, o.rationale) + opt_arg("alternatives"@, o.alternatives)
        + flag_arg("no_auto_crystallize"@, o.no_auto_crystallize)
}

/// The tool and arguments a command is routed as, or `None` for direct mode.
pub open spec fn spec_marshal(cmd: RoutableCommand) -> Option<(Seq<char>, Seq<(Seq<char>, ArgView)>)> {
    match cmd {
        RoutableCommand::Status => Some(("braid_status"@, Seq::empty())),
        RoutableCommand::Query { entity, attribute, datalog, positional_datalog } => {
            let d = if datalog is Some {
                datalog
            } else {
                positional_datalog
            };
            Some(
                (
                    "braid_query"@,
                    opt_arg("datalog"@, d) + opt_arg("entity"@, entity) + opt_arg(
                        "attribute"@,
                        attribute,
                    ),
                ),
            )
        },
        RoutableCommand::Observe(None) => None,
        RoutableCommand::Observe(Some(o)) => Some(("braid_observe"@, observe_args(o))),
        RoutableCommand::Harvest { task, commit, force, no_reconcile } => Some(
            (
                "braid_harvest"@,
                seq![("task"@, ArgView::Str(task_or_continue(task)))] + flag_arg("commit"@, commit)
                    + flag_arg("force"@, force) + flag_arg("no_reconcile"@, no_reconcile),
            ),
        ),
        RoutableCommand::Go { id } => Some(("braid_task_go"@, seq![("id"@, ArgView::Str(id@))])),
        RoutableCommand::Next => Some(("braid_task_ready"@, Seq::empty())),
        RoutableCommand::Done { ids } => if ids@.len() == 1 {
            Some(("braid_task_close"@, seq![("id"@, ArgView::Str(ids@[0]@))]))
        } else {
            None
        },
        RoutableCommand::TaskCreate {
            title,
            priority,
            task_type,
            description,
            traces_to,
            labels,
            force,
        } => Some(
            (
                "braid_task_create"@,
                seq![("title"@, ArgView::Str(title@))] + (if priority != 2 {
                    seq![("priority"@, ArgView::Int(priority as int))]
                } else {
                    Seq::empty()
                }) + (if task_type@ != "task"@ {
                    seq![("task_type"@, ArgView::Str(task_type@))]
                } else {
                    Seq::empty()
                }) + opt_arg("description"@, description) + strs_arg("traces_to"@, traces_to@)
                    + strs_arg("labels"@, labels@) + flag_arg("force"@, force),
            ),
        ),
        RoutableCommand::Seed { task, seed_budget } => Some(
            (
                "braid_seed"@,
                seq![("task"@, ArgView::Str(task_or_continue(task)))] + (if seed_budget != 2000 {
                    seq![("budget"@, ArgView::Int(seed_budget as int))]
                } else {
                    Seq::empty()
                }),
            ),
        ),
        RoutableCommand::WriteAssert { datoms, rationale } => if datoms@.len() == 3 {
            Some(
                (
                    "braid_write"@,
                    seq![
                        ("entity"@, ArgView::Str(datoms@[0]@)),
                        ("attribute"@, ArgView::Str(datoms@[1]@)),
                        ("value"@, ArgView::Str(datoms@[2]@)),
                    ] + (if rationale@.len() > 0 {
                        seq![("rationale"@, ArgView::Str(rationale@))]
                    } else {
                        Seq::empty()
                    }),
                ),
            )
        } else {
            None
        },
        RoutableCommand::Other => None,
    }
}

fn copy_strings(v: &Vec<String>) -> (r: Vec<String>)
    ensures
        r@ == v@,
{
    let mut r: Vec<String> = Vec::new();
    let mut k: usize = 0;
    while k < v.len()
        invariant
            k <= v@.len(),
            r@ == v@.subrange(0, k as int),
        decreases v.len() - k,
    {
        r.push(v[k].clone());
        assert(r@ =~= v@.subrange(0, k + 1));
        k = k + 1;
    }
    assert(v@.subrange(0, v@.len() as int) =~= v@);
    r
}

fn push_arg(args: &mut Vec<(&'static str, ArgValue)>, key: &'static str, value: ArgValue)
    ensures
        args_view(final(args)@) == args_view(old(args)@) + seq![(key@, arg_view(value))],
{
    let ghost before = args@;
    args.push((key, value));
    assert(args_view(args@) =~= args_view(before) + seq![(key@, arg_view(value))]);
}

fn push_opt(args: &mut Vec<(&'static str, ArgValue)>, key: &'static str, o: &Option<String>)
    ensures
        args_view(final(args)@) == args_view(old(args)@) + opt_arg(key@, *o),
{
    match o {
        Some(s) => push_arg(args, key, ArgValue::Str(s.clone())),
        None => assert(args_view(args@) =~= args_view(args@) + opt_arg(key@, *o)),
    }
}

fn push_flag(args: &mut Vec<(&'static str, ArgValue)>, key: &'static str, b: bool)
    ensures
        args_view(final(args)@) == args_view(old(args)@) + flag_arg(key@, b),
{
    if b {
        push_arg(args, key, ArgValue::Bool(true));
    } else {
        assert(args_view(args@) =~= args_view(args@) + flag_arg(key@, b));
    }
}

fn push_strs(args: &mut Vec<(&'static str, ArgValue)>, key: &'static str, v: &Vec<String>)
    ensures
        args_view(final(args)@) == args_view(old(args)@) + strs_arg(key@, v@),
{
    if v.len() > 0 {
        push_arg(args, key, ArgValue::Strs(copy_strings(v)));
    } else {
        assert(args_view(args@) =~= args_view(args@) + strs_arg(key@, v@));
    }
}

fn task_value(task: &Option<String>) -> (r: ArgValue)
    ensures
        arg_view(r) == ArgView::Str(task_or_continue(*task)),
{
    match task {
        Some(t) => ArgValue::Str(t.clone()),
        None => ArgValue::Str("continue".to_owned()),
    }
}

fn observe_arguments(o: &ObserveArgs) -> (r: Vec<(&'static str, ArgValue)>)
    ensures
        args_view(r@) == observe_args(*o),
{
    let mut args: Vec<(&'static str, ArgValue)> = Vec::new();
    assert(args_view(args@) =~= Seq::empty());
    push_arg(&mut args, "text", ArgValue::Str(o.text.clone()));
    push_arg(&mut args, "confidence", ArgValue::Json(o.confidence.clone()));
    push_strs(&mut args, "tags", &o.tag);
    push_opt(&mut args, "category", &o.category);
    push_opt(&mut args, "relates_to", &o.relates_to);
    push_opt(&mut args, "rationale", &o.rationale);
    push_opt(&mut args, "alternatives", &o.alternatives);
    push_flag(&mut args, "no_auto_crystallize", o.no_auto_crystallize);
    assert(args_view(args@) =~= observe_args(*o));
    args
}

/// Map a command line command to its daemon-routable MCP tool name and
/// arguments; `None` for commands that use direct mode.
///
/// Optional arguments are sent only when set, a default priority (2), task
/// type (`task`) or seed budget (2000) is left out, harvest and seed default
/// their task to `continue`, and `done` and `write assert` are routed only
/// for a single id or a single datom.
pub fn marshal_command(cmd: &RoutableCommand) -> (r: Option<(&'static str, Vec<(&'static str, ArgValue)>)>)
    ensures
        marshal_view(r) == spec_marshal(*cmd),
{
    let mut args: Vec<(&'static str, ArgValue)> = Vec::new();
    assert(args_view(args@) =~= Seq::empty());
    match cmd {
        RoutableCommand::Status => Some(("braid_status", args)),
        RoutableCommand::Query { entity, attribute, datalog, positional_datalog } => {
            let d = if datalog.is_some() {
                datalog
            } else {
                positional_datalog
            };
            push_opt(&mut args, "datalog", d);
            push_opt(&mut args, "entity", entity);
            push_opt(&mut args, "attribute", attribute);
            Some(("braid_query", args))
        },
        RoutableCommand::Observe(None) => None,
        RoutableCommand::Observe(Some(o)) => Some(("braid_observe", observe_arguments(o))),
        RoutableCommand::Harvest { task, commit, force, no_reconcile } => {
            push_arg(&mut args, "task", task_value(task));
            push_flag(&mut args, "commit", *commit);
            push_flag(&mut args, "force", *force);
            push_flag(&mut args, "no_reconcile", *no_reconcile);
            Some(("braid_harvest", args))
        },
        RoutableCommand::Go { id } => {
            push_arg(&mut args, "id", ArgValue::Str(id.clone()));
            Some(("braid_task_go", args))
        },
        RoutableCommand::Next => Some(("braid_task_ready", args)),
        RoutableCommand::Done { ids } => {
            if ids.len() == 1 {
                push_arg(&mut args, "id", ArgValue::Str(ids[0].clone()));
                Some(("braid_task_close", args))
            } else {
                None
            }
        },
        RoutableCommand::TaskCreate {
            title,
            priority,
            task_type,
            description,
            traces_to,
            labels,
            force,
        } => {
            push_arg(&mut args, "title", ArgValue::Str(title.clone()));
            if *priority != 2 {
                push_arg(&mut args, "priority", ArgValue::Int(*priority));
            }
            let default_type = "task".to_owned();
            if *task_type != default_type {
                push_arg(&mut args, "task_type", ArgValue::Str(task_type.clone()));
            }
            push_opt(&mut args, "description", description);
            push_strs(&mut args, "traces_to", traces_to);
            push_strs(&mut args, "labels", labels);
            push_flag(&mut args, "force", *force);
            Some(("braid_task_create", args))
        },
        RoutableCommand::Seed { task, seed_budget } => {
            push_arg(&mut args, "task", task_value(task));
            if *seed_budget != 2000 {
                push_arg(&mut args, "budget", ArgValue::Uint(*seed_budget));
            }
            Some(("braid_seed", args))
        },
        RoutableCommand::WriteAssert { datoms, rationale } => {
            if datoms.len() == 3 {
                push_arg(&mut args, "entity", ArgValue::Str(datoms[0].clone()));
                push_arg(&mut args, "attribute", ArgValue::Str(datoms[1].clone()));
                push_arg(&mut args, "value", ArgValue::Str(datoms[2].clone()));
                if rationale.as_str().as_bytes().len() > 0 {
                    push_arg(&mut args, "rationale", ArgValue::Str(rationale.clone()));
                }
                Some(("braid_write", args))
            } else {
                None
            }
        },
        RoutableCommand::Other => None,
    }
}

// ---------------------------------------------------------------------------
// Laws
// ---------------------------------------------------------------------------

/// An item of either part is an item of the concatenation.
proof fn lemma_in_concat<T>(a: Seq<T>, b: Seq<T>, x: T)
    ensures
        a.contains(x) ==> (a + b).contains(x),
        b.contains(x) ==> (a + b).contains(x),
{
    if a.contains(x) {
        let i = choose|i: int| 0 <= i < a.len() && a[i] == x;
        assert((a + b)[i] == x);
    }
    if b.contains(x) {
        let i = choose|i: int| 0 <= i < b.len() && b[i] == x;
        assert((a + b)[a.len() + i] == x);
    }
}

/// A set option is sent under its key.
proof fn lemma_opt_sent(key: Seq<char>, o: Option<String>)
    ensures
        o matches Some(v) ==> opt_arg(key, o).contains((key, ArgView::Str(v@))),
{
    if let Some(v) = o {
        assert(opt_arg(key, o)[0] == (key, ArgView::Str(v@)));
    }
}

/// A set flag is sent as `true` under its key.
proof fn lemma_flag_sent(key: Seq<char>, b: bool)
    ensures
        b ==> flag_arg(key, b).contains((key, ArgView::Bool(true))),
{
    if b {
        assert(flag_arg(key, b)[0] == (key, ArgView::Bool(true)));
    }
}

/// The argument `(key, value)` is among the routed arguments.
pub open spec fn sends(r: Option<(Seq<char>, Seq<(Seq<char>, ArgView)>)>, key: Seq<char>, value: ArgView) -> bool {
    r matches Some((_, args)) && args.contains((key, value))
}

/// Routing keeps what the command says: a `harvest` is routed to
/// `braid_harvest` with its task (or `continue`) and every flag that is set
/// (`commit`, `force`, `no_reconcile`) sent as `true`; a `task create` is
/// routed with its title and every set flag and option; a `query` with every
/// option it sets (the `--datalog` flag before the positional query).
pub proof fn law_set_flags_are_sent(cmd: RoutableCommand)
    ensures
        match cmd {
            RoutableCommand::Harvest { task, commit, force, no_reconcile } => {
                let r = spec_marshal(cmd);
                &&& r matches Some((tool, _)) && tool == "braid_harvest"@
                &&& sends(r, "task"@, ArgView::Str(task_or_continue(task)))
                &&& commit ==> sends(r, "commit"@, ArgView::Bool(true))
                &&& force ==> sends(r, "force"@, ArgView::Bool(true))
                &&& no_reconcile ==> sends(r, "no_reconcile"@, ArgView::Bool(true))
            },
            RoutableCommand::TaskCreate {
                title,
                priority,
                task_type,
                description,
                traces_to,
                labels,
                force,
            } => {
                let r = spec_marshal(cmd);
                &&& r matches Some((tool, _)) && tool == "braid_task_create"@
                &&& sends(r, "title"@, ArgView::Str(title@))
                &&& priority != 2 ==> sends(r, "priority"@, ArgView::Int(priority as int))
                &&& task_type@ != "task"@ ==> sends(r, "task_type"@, ArgView::Str(task_type@))
                &&& description matches Some(d) ==> sends(r, "description"@, ArgView::Str(d@))
                &&& traces_to@.len() > 0 ==> sends(
                    r,
                    "traces_to"@,
                    ArgView::Strs(strs_view(traces_to@)),
                )
                &&& labels@.len() > 0 ==> sends(r, "labels"@, ArgView::Strs(strs_view(labels@)))
                &&& force ==> sends(r, "force"@, ArgView::Bool(true))
            },
            RoutableCommand::Query { entity, attribute, datalog, positional_datalog } => {
                let r = spec_marshal(cmd);
                &&& r matches Some((tool, _)) && tool == "braid_query"@
                &&& entity matches Some(e) ==> sends(r, "entity"@, ArgView::Str(e@))
                &&& attribute matches Some(a) ==> sends(r, "attribute"@, ArgView::Str(a@))
                &&& datalog matches Some(d) ==> sends(r, "datalog"@, ArgView::Str(d@))
                &&& (datalog is None ==> (positional_datalog matches Some(d) ==> sends(
                    r,
                    "datalog"@,
                    ArgView::Str(d@),
                )))
            },
            RoutableCommand::Observe(Some(o)) => {
                let r = spec_marshal(cmd);
                &&& r matches Some((tool, _)) && tool == "braid_observe"@
                &&& sends(r, "text"@, ArgView::Str(o.text@))
                &&& sends(r, "confidence"@, ArgView::Json(o.confidence))
                &&& o.tag@.len() > 0 ==> sends(r, "tags"@, ArgView::Strs(strs_view(o.tag@)))
                &&& o.category matches Some(v) ==> sends(r, "category"@, ArgView::Str(v@))
                &&& o.relates_to matches Some(v) ==> sends(r, "relates_to"@, ArgView::Str(v@))
                &&& o.rationale matches Some(v) ==> sends(r, "rationale"@, ArgView::Str(v@))
                &&& o.alternatives matches Some(v) ==> sends(r, "alternatives"@, ArgView::Str(v@))
                &&& o.no_auto_crystallize ==> sends(r, "no_auto_crystallize"@, ArgView::Bool(true))
            },
            _ => true,
        },
{
    match cmd {
        RoutableCommand::Harvest { task, commit, force, no_reconcile } => {
            lemma_harvest_sent(task, commit, force, no_reconcile);
        },
        RoutableCommand::TaskCreate {
            title,
            priority,
            task_type,
            description,
            traces_to,
            labels,
            force,
        } => {
            lemma_task_create_sent(title, priority, task_type, description, traces_to, labels, force);
        },
        RoutableCommand::Query { entity, attribute, datalog, positional_datalog } => {
            lemma_query_sent(entity, attribute, datalog, positional_datalog);
        },
        RoutableCommand::Observe(Some(o)) => {
            lemma_observe_sent(o);
        },
        _ => {},
    }
}

#[verifier::spinoff_prover]
proof fn lemma_harvest_sent(task: Option<String>, commit: bool, force: bool, no_reconcile: bool)
    ensures
        ({
            let r = spec_marshal(RoutableCommand::Harvest { task, commit, force, no_reconcile });
            &&& r matches Some((tool, _)) && tool == "braid_harvest"@
            &&& sends(r, "task"@, ArgView::Str(task_or_continue(task)))
            &&& commit ==> sends(r, "commit"@, ArgView::Bool(true))
            &&& force ==> sends(r, "force"@, ArgView::Bool(true))
            &&& no_reconcile ==> sends(r, "no_reconcile"@, ArgView::Bool(true))
        }),
{
    let t = seq![("task"@, ArgView::Str(task_or_continue(task)))];
    let a = flag_arg("commit"@, commit);
    let b = flag_arg("force"@, force);
    let c = flag_arg("no_reconcile"@, no_reconcile);
    assert((t + a + b + c)[0] == t[0]);
    lemma_flag_sent("commit"@, commit);
    lemma_flag_sent("force"@, force);
    lemma_flag_sent("no_reconcile"@, no_reconcile);
    lemma_in_concat(t, a, ("commit"@, ArgView::Bool(true)));
    lemma_in_concat(t + a, b, ("commit"@, ArgView::Bool(true)));
    lemma_in_concat(t + a + b, c, ("commit"@, ArgView::Bool(true)));
    lemma_in_concat(t + a, b, ("force"@, ArgView::Bool(true)));
    lemma_in_concat(t + a + b, c, ("force"@, ArgView::Bool(true)));
    lemma_in_concat(t + a + b, c, ("no_reconcile"@, ArgView::Bool(true)));
}

#[verifier::spinoff_prover]
proof fn lemma_task_create_sent(
    title: String,
    priority: i64,
    task_type: String,
    description: Option<String>,
    traces_to: Vec<String>,
    labels: Vec<String>,
    force: bool,
)
    ensures
        ({
            let r = spec_marshal(
                RoutableCommand::TaskCreate {
                    title,
                    priority,
                    task_type,
                    description,
                    traces_to,
                    labels,
                    force,
                },
            );
            &&& r matches Some((tool, _)) && tool == "braid_task_create"@
            &&& sends(r, "title"@, ArgView::Str(title@))
            &&& priority != 2 ==> sends(r, "priority"@, ArgView::Int(priority as int))
            &&& task_type@ != "task"@ ==> sends(r, "task_type"@, ArgView::Str(task_type@))
            &&& description matches Some(d) ==> sends(r, "description"@, ArgView::Str(d@))
            &&& traces_to@.len() > 0 ==> sends(r, "traces_to"@, ArgView::Strs(strs_view(traces_to@)))
            &&& labels@.len() > 0 ==> sends(r, "labels"@, ArgView::Strs(strs_view(labels@)))
            &&& force ==> sends(r, "force"@, ArgView::Bool(true))
        }),
{
    let t = seq![("title"@, ArgView::Str(title@))];
    let p: Seq<(Seq<char>, ArgView)> = if priority != 2 {
        seq![("priority"@, ArgView::Int(priority as int))]
    } else {
        Seq::empty()
    };
    let ty: Seq<(Seq<char>, ArgView)> = if task_type@ != "task"@ {
        seq![("task_type"@, ArgView::Str(task_type@))]
    } else {
        Seq::empty()
    };
    let d = opt_arg("description"@, description);
    let tr = strs_arg("traces_to"@, traces_to@);
    let l = strs_arg("labels"@, labels@);
    let f = flag_arg("force"@, force);
    let all = t + p + ty + d + tr + l + f;
    assert(all[0] == t[0]);
    lemma_opt_sent("description"@, description);
    lemma_flag_sent("force"@, force);
    if let Some(dv) = description {
        let x = ("description"@, ArgView::Str(dv@));
        lemma_in_concat(t + p + ty, d, x);
        lemma_in_concat(t + p + ty + d, tr, x);
        lemma_in_concat(t + p + ty + d + tr, l, x);
        lemma_in_concat(t + p + ty + d + tr + l, f, x);
    }
    lemma_in_concat(t + p + ty + d + tr + l, f, ("force"@, ArgView::Bool(true)));
    if priority != 2 {
        let x = ("priority"@, ArgView::Int(priority as int));
        assert(p[0] == x);
        lemma_in_concat(t, p, x);
        lemma_in_concat(t + p, ty, x);
        lemma_in_concat(t + p + ty, d, x);
        lemma_in_concat(t + p + ty + d, tr, x);
        lemma_in_concat(t + p + ty + d + tr, l, x);
        lemma_in_concat(t + p + ty + d + tr + l, f, x);
    }
    if task_type@ != "task"@ {
        let x = ("task_type"@, ArgView::Str(task_type@));
        assert(ty[0] == x);
        lemma_in_concat(t + p, ty, x);
        lemma_in_concat(t + p + ty, d, x);
        lemma_in_concat(t + p + ty + d, tr, x);
        lemma_in_concat(t + p + ty + d + tr, l, x);
        lemma_in_concat(t + p + ty + d + tr + l, f, x);
    }
    if traces_to@.len() > 0 {
        let x = ("traces_to"@, ArgView::Strs(strs_view(traces_to@)));
        assert(tr[0] == x);
        lemma_in_concat(t + p + ty + d, tr, x);
        lemma_in_concat(t + p + ty + d + tr, l, x);
        lemma_in_concat(t + p + ty + d + tr + l, f, x);
    }
    if labels@.len() > 0 {
        let x = ("labels"@, ArgView::Strs(strs_view(labels@)));
        assert(l[0] == x);
        lemma_in_concat(t + p + ty + d + tr, l, x);
        lemma_in_concat(t + p + ty + d + tr + l, f, x);
    }
}

#[verifier::spinoff_prover]
proof fn lemma_query_sent(
    entity: Option<String>,
    attribute: Option<String>,
    datalog: Option<String>,
    positional_datalog: Option<String>,
)
    ensures
        ({
            let r = spec_marshal(
                RoutableCommand::Query { entity, attribute, datalog, positional_datalog },
            );
            &&& r matches Some((tool, _)) && tool == "braid_query"@
            &&& entity matches Some(e) ==> sends(r, "entity"@, ArgView::Str(e@))
            &&& attribute matches Some(a) ==> sends(r, "attribute"@, ArgView::Str(a@))
            &&& datalog matches Some(d) ==> sends(r, "datalog"@, ArgView::Str(d@))
            &&& (datalog is None ==> (positional_datalog matches Some(d) ==> sends(
                r,
                "datalog"@,
                ArgView::Str(d@),
            )))
        }),
{
    let dl = if datalog is Some {
        datalog
    } else {
        positional_datalog
    };
    let a = opt_arg("datalog"@, dl);
    let b = opt_arg("entity"@, entity);
    let c = opt_arg("attribute"@, attribute);
    lemma_opt_sent("datalog"@, dl);
    lemma_opt_sent("entity"@, entity);
    lemma_opt_sent("attribute"@, attribute);
    if let Some(v) = dl {
        let x = ("datalog"@, ArgView::Str(v@));
        lemma_in_concat(a, b, x);
        lemma_in_concat(a + b, c, x);
    }
    if let Some(v) = entity {
        let x = ("entity"@, ArgView::Str(v@));
        lemma_in_concat(a, b, x);
        lemma_in_concat(a + b, c, x);
    }
    if let Some(v) = attribute {
        lemma_in_concat(a + b, c, ("attribute"@, ArgView::Str(v@)));
    }
}

#[verifier::spinoff_prover]
proof fn lemma_observe_sent(o: ObserveArgs)
    ensures
        ({
            let r = spec_marshal(RoutableCommand::Observe(Some(o)));
            &&& r matches Some((tool, _)) && tool == "braid_observe"@
            &&& sends(r, "text"@, ArgView::Str(o.text@))
            &&& sends(r, "confidence"@, ArgView::Json(o.confidence))
            &&& o.tag@.len() > 0 ==> sends(r, "tags"@, ArgView::Strs(strs_view(o.tag@)))
            &&& o.category matches Some(v) ==> sends(r, "category"@, ArgView::Str(v@))
            &&& o.relates_to matches Some(v) ==> sends(r, "relates_to"@, ArgView::Str(v@))
            &&& o.rationale matches Some(v) ==> sends(r, "rationale"@, ArgView::Str(v@))
            &&& o.alternatives matches Some(v) ==> sends(r, "alternatives"@, ArgView::Str(v@))
            &&& o.no_auto_crystallize ==> sends(r, "no_auto_crystallize"@, ArgView::Bool(true))
        }),
{
    let h = seq![("text"@, ArgView::Str(o.text@)), ("confidence"@, ArgView::Json(o.confidence))];
    let g = strs_arg("tags"@, o.tag@);
    let c = opt_arg("category"@, o.category);
    let rt = opt_arg("relates_to"@, o.relates_to);
    let ra = opt_arg("rationale"@, o.rationale);
    let al = opt_arg("alternatives"@, o.alternatives);
    let f = flag_arg("no_auto_crystallize"@, o.no_auto_crystallize);
    let all = h + g + c + rt + ra + al + f;
    assert(observe_args(o) =~= all);
    assert(all[0] == h[0]);
    assert(all[1] == h[1]);
    if o.tag@.len() > 0 {
        assert(g[0] == ("tags"@, ArgView::Strs(strs_view(o.tag@))));
        assert(all[2] == g[0]);
    }
    lemma_opt_sent("category"@, o.category);
    lemma_opt_sent("relates_to"@, o.relates_to);
    lemma_opt_sent("rationale"@, o.rationale);
    lemma_opt_sent("alternatives"@, o.alternatives);
    lemma_flag_sent("no_auto_crystallize"@, o.no_auto_crystallize);
    if let Some(v) = o.category {
        let x = ("category"@, ArgView::Str(v@));
        lemma_in_concat(h + g, c, x);
        lemma_in_concat(h + g + c, rt, x);
        lemma_in_concat(h + g + c + rt, ra, x);
        lemma_in_concat(h + g + c + rt + ra, al, x);
        lemma_in_concat(h + g + c + rt + ra + al, f, x);
    }
    if let Some(v) = o.relates_to {
        let x = ("relates_to"@, ArgView::Str(v@));
        lemma_in_concat(h + g + c, rt, x);
        lemma_in_concat(h + g + c + rt, ra, x);
        lemma_in_concat(h + g + c + rt + ra, al, x);
        lemma_in_concat(h + g + c + rt + ra + al, f, x);
    }
    if let Some(v) = o.rationale {
        let x = ("rationale"@, ArgView::Str(v@));
        lemma_in_concat(h + g + c + rt, ra, x);
        lemma_in_concat(h + g + c + rt + ra, al, x);
        lemma_in_concat(h + g + c + rt + ra + al, f, x);
    }
    if let Some(v) = o.alternatives {
        let x = ("alternatives"@, ArgView::Str(v@));
        lemma_in_concat(h + g + c + rt + ra, al, x);
        lemma_in_concat(h + g + c + rt + ra + al, f, x);
    }
    lemma_in_concat(h + g + c + rt + ra + al, f, ("no_auto_crystallize"@, ArgView::Bool(true)));
}

/// Which commands go to the daemon, and as what: `status` and `next` go
/// with no arguments; `go` with its id; `done` only for a single id, sent as
/// `id`; `write assert` only for a single datom, sent as entity, attribute
/// and value (and the rationale when there is one); `seed` with its task (or
/// `continue`) and, when it is not the default 2000, its budget; `observe`
/// only when an observation is created; any other command not at all.
pub proof fn law_routing_choices(cmd: RoutableCommand)
    ensures
        match cmd {
            RoutableCommand::Status => spec_marshal(cmd) == Some(
                ("braid_status"@, Seq::<(Seq<char>, ArgView)>::empty()),
            ),
            RoutableCommand::Next => spec_marshal(cmd) == Some(
                ("braid_task_ready"@, Seq::<(Seq<char>, ArgView)>::empty()),
            ),
            RoutableCommand::Go { id } => sends(spec_marshal(cmd), "id"@, ArgView::Str(id@)),
            RoutableCommand::Done { ids } => {
                &&& (spec_marshal(cmd) is Some <==> ids@.len() == 1)
                &&& ids@.len() == 1 ==> sends(spec_marshal(cmd), "id"@, ArgView::Str(ids@[0]@))
            },
            RoutableCommand::WriteAssert { datoms, rationale } => {
                let r = spec_marshal(cmd);
                &&& (r is Some <==> datoms@.len() == 3)
                &&& datoms@.len() == 3 ==> {
                    &&& sends(r, "entity"@, ArgView::Str(datoms@[0]@))
                    &&& sends(r, "attribute"@, ArgView::Str(datoms@[1]@))
                    &&& sends(r, "value"@, ArgView::Str(datoms@[2]@))
                    &&& rationale@.len() > 0 ==> sends(r, "rationale"@, ArgView::Str(rationale@))
                }
            },
            RoutableCommand::Seed { task, seed_budget } => {
                let r = spec_marshal(cmd);
                &&& sends(r, "task"@, ArgView::Str(task_or_continue(task)))
                &&& seed_budget != 2000 ==> sends(r, "budget"@, ArgView::Int(seed_budget as int))
            },
            RoutableCommand::Observe(None) => spec_marshal(cmd) is None,
            RoutableCommand::Other => spec_marshal(cmd) is None,
            _ => true,
        },
{
    match cmd {
        RoutableCommand::Go { id } => {
            assert(seq![("id"@, ArgView::Str(id@))][0] == ("id"@, ArgView::Str(id@)));
        },
        RoutableCommand::Done { ids } => {
            if ids@.len() == 1 {
                assert(seq![("id"@, ArgView::Str(ids@[0]@))][0] == ("id"@, ArgView::Str(ids@[0]@)));
            }
        },
        RoutableCommand::WriteAssert { datoms, rationale } => {
            if datoms@.len() == 3 {
                let h = seq![
                    ("entity"@, ArgView::Str(datoms@[0]@)),
                    ("attribute"@, ArgView::Str(datoms@[1]@)),
                    ("value"@, ArgView::Str(datoms@[2]@)),
                ];
                let t: Seq<(Seq<char>, ArgView)> = if rationale@.len() > 0 {
                    seq![("rationale"@, ArgView::Str(rationale@))]
                } else {
                    Seq::empty()
                };
                assert((h + t)[0] == h[0]);
                assert((h + t)[1] == h[1]);
                assert((h + t)[2] == h[2]);
                if rationale@.len() > 0 {
                    assert((h + t)[3] == t[0]);
                }
            }
        },
        RoutableCommand::Seed { task, seed_budget } => {
            let h = seq![("task"@, ArgView::Str(task_or_continue(task)))];
            let t: Seq<(Seq<char>, ArgView)> = if seed_budget != 2000 {
                seq![("budget"@, ArgView::Int(seed_budget as int))]
            } else {
                Seq::empty()
            };
            assert((h + t)[0] == h[0]);
            if seed_budget != 2000 {
                assert((h + t)[1] == t[0]);
            }
        },
        _ => {},
    }
}

} // verus!

//! The markdown written between the `<braid-seed>` tags: a generation
//! comment with the time and store size, the sections of the assembled seed
//! context, and a quick-reference footer.
use vstd::prelude::*;
use vstd::utf8::*;
use crate::text::{
    boundary, bytes_to_string, decimal, lemma_ascii_valid, lemma_first_not_continuation,
    line_bounds, line_end, matches_at, nl_from, push_decimal_valid, push_span, push_str_bytes,
    starts_with, utf8,
};

verus! {

broadcast use vstd::utf8::group_utf8_lib;

// ---------------------------------------------------------------------------
// The assembled seed context
// ---------------------------------------------------------------------------

/// A constraint of the seed context and whether it is satisfied.
#[derive(Clone, Debug)]
pub struct ConstraintRef {
    pub id: String,
    pub summary: String,
    /// `Some(true)` satisfied, `Some(false)` violated, `None` unknown.
    pub satisfied: Option<bool>,
}

/// An entity of the seed context's state section.
#[derive(Clone, Debug)]
pub struct StateEntry {
    pub content: String,
}

/// A section of the assembled seed context.
#[derive(Clone, Debug)]
pub enum ContextSection {
    /// Orientation text.
    Orientation(String),
    /// Active constraints.
    Constraints(Vec<ConstraintRef>),
    /// Recent entities.
    State(Vec<StateEntry>),
    /// Open questions.
    Warnings(Vec<String>),
    /// Next actions.
    Directive(String),
}

// ---------------------------------------------------------------------------
// Specification
// ---------------------------------------------------------------------------

/// The bytes of `Task: `.
pub open spec fn task_prefix() -> Seq<u8> {
    utf8("Task: "@)
}

/// The lines of `b[i..]` (as `str::lines` cuts them), each followed by a
/// newline; with `skip_task`, lines starting with `Task: ` are left out.
pub open spec fn line_dump_from(b: Seq<u8>, i: int, skip_task: bool) -> Seq<u8>
    decreases b.len() - i,
{
    if i < 0 || i >= b.len() {
        Seq::empty()
    } else {
        let e = nl_from(b, i);
        let line = b.subrange(i, line_end(b, i));
        let here = if skip_task && starts_with(line, task_prefix()) {
            Seq::empty()
        } else {
            line + seq![0x0au8]
        };
        if e < b.len() && e + 1 > i {
            here + line_dump_from(b, e + 1, skip_task)
        } else {
            here
        }
    }
}

/// The status mark of a constraint.
pub open spec fn status_mark(s: Option<bool>) -> Seq<char> {
    match s {
        Some(true) => "[ok]"@,
        Some(false) => "[!!]"@,
        None => "[?]"@,
    }
}

/// The list item of a constraint.
pub open spec fn constraint_line(c: ConstraintRef) -> Seq<u8> {
    if c.summary@.len() == 0 {
        utf8("- "@) + utf8(status_mark(c.satisfied)) + utf8(" "@) + utf8(c.id@) + utf8("\n"@)
    } else {
        utf8("- "@) + utf8(status_mark(c.satisfied)) + utf8(" "@) + utf8(c.id@) + utf8(
            " \u{2014} "@,
        ) + utf8(c.summary@) + utf8("\n"@)
    }
}

/// The list items of constraints.
pub open spec fn constraint_lines(v: Seq<ConstraintRef>) -> Seq<u8>
    decreases v.len(),
{
    if v.len() == 0 {
        Seq::empty()
    } else {
        constraint_lines(v.drop_last()) + constraint_line(v.last())
    }
}

/// An entry is worth showing: its content does not start with `#`.
pub open spec fn meaningful(e: StateEntry) -> bool {
    !starts_with(utf8(e.content@), seq![0x23u8])
}

/// The contents of the meaningful entries, in order.
pub open spec fn meaningful_contents(v: Seq<StateEntry>) -> Seq<Seq<u8>>
    decreases v.len(),
{
    if v.len() == 0 {
        Seq::empty()
    } else if meaningful(v.last()) {
        meaningful_contents(v.drop_last()).push(utf8(v.last().content@))
    } else {
        meaningful_contents(v.drop_last())
    }
}

/// The list items `- TEXT` of some texts.
pub open spec fn bullet_lines(v: Seq<Seq<u8>>) -> Seq<u8>
    decreases v.len(),
{
    if v.len() == 0 {
        Seq::empty()
    } else {
        bullet_lines(v.drop_last()) + utf8("- "@) + v.last() + utf8("\n"@)
    }
}

/// The entity lines: the first fifteen meaningful entries, then a count of
/// the entries not shown, if any.
pub open spec fn entity_lines(v: Seq<StateEntry>) -> Seq<u8> {
    let m = meaningful_contents(v);
    let shown = if m.len() <= 15 {
        m
    } else {
        m.subrange(0, 15)
    };
    bullet_lines(shown) + if v.len() > shown.len() {
        utf8("- ... and "@) + decimal((v.len() - shown.len()) as nat) + utf8(" more entities\n"@)
    } else {
        Seq::empty()
    }
}

/// The markdown of one section.
pub open spec fn section_text(s: ContextSection) -> Seq<u8> {
    match s {
        ContextSection::Orientation(t) => utf8("### Session Context\n"@) + line_dump_from(
            utf8(t@),
            0,
            false,
        ) + utf8("\n"@),
        ContextSection::Constraints(v) => if v@.len() == 0 {
            Seq::empty()
        } else {
            utf8("### Active Constraints\n"@) + constraint_lines(v@) + utf8("\n"@)
        },
        ContextSection::State(v) => if v@.len() == 0 {
            Seq::empty()
        } else {
            utf8("### Recent Entities\n"@) + entity_lines(v@) + utf8("\n"@)
        },
        ContextSection::Warnings(v) => if v@.len() == 0 {
            Seq::empty()
        } else {
            utf8("### Open Questions\n"@) + bullet_lines(v@.map_values(|s: String| utf8(s@)))
                + utf8("\n"@)
        },
        ContextSection::Directive(t) => utf8("### Next Actions\n"@) + line_dump_from(
            utf8(t@),
            0,
            true,
        ) + utf8("\n"@),
    }
}

/// The markdown of the sections, in order.
pub open spec fn sections_text(v: Seq<ContextSection>) -> Seq<u8>
    decreases v.len(),
{
    if v.len() == 0 {
        Seq::empty()
    } else {
        sections_text(v.drop_last()) + section_text(v.last())
    }
}

/// The generation comment: how to regenerate, the time and the store size.
pub open spec fn generation_comment(now: int, datoms: int, entities: int) -> Seq<u8> {
    utf8(
        "<!-- Generated by braid. Do not edit manually. Regenerate: braid seed --inject AGENTS.md -->\n<!-- Updated: "@,
    ) + decimal(now as nat) + utf8(" | Store: "@) + decimal(datoms as nat) + utf8(" datoms, "@)
        + decimal(entities as nat) + utf8(" entities -->\n\n"@)
}

/// The quick-reference footer.
pub open spec fn quick_reference() -> Seq<u8> {
    utf8("### Quick Reference\n"@) + utf8("```bash\n"@) + utf8(
        "braid status                           # Dashboard + next action\n"@,
    ) + utf8("braid observe \"...\" --confidence 0.7    # Capture knowledge\n"@) + utf8(
        "braid harvest --commit                 # End-of-session extraction\n"@,
    ) + utf8("braid seed --inject AGENTS.md          # Refresh this section\n"@) + utf8("```\n"@)
}

/// The injected markdown.
pub open spec fn spec_injection_content(
    now: int,
    datoms: int,
    entities: int,
    sections: Seq<ContextSection>,
) -> Seq<u8> {
    generation_comment(now, datoms, entities) + sections_text(sections) + quick_reference()
}

// ---------------------------------------------------------------------------
// Rendering
// ---------------------------------------------------------------------------

/// The first `n` items of `s`, or all of them when there are fewer.
pub open spec fn take_at_most<A>(s: Seq<A>, n: int) -> Seq<A> {
    if s.len() <= n {
        s
    } else {
        s.subrange(0, n)
    }
}

fn push_line_dump(v: &mut Vec<u8>, t: &str, skip_task: bool)
    requires
        valid_utf8(old(v)@),
    ensures
        final(v)@ == old(v)@ + line_dump_from(utf8(t@), 0, skip_task),
        valid_utf8(final(v)@),
{
    let b = t.as_bytes();
    let ghost start = v@;
    let task = "Task: ".as_bytes();
    let mut i: usize = 0;
    proof {
        if b@.len() > 0 {
            lemma_first_not_continuation(b@);
        }
    }
    while i < b.len()
        invariant
            i <= b@.len(),
            valid_utf8(b@),
            valid_utf8(v@),
            boundary(b@, i as int),
            task@ == task_prefix(),
            v@ + line_dump_from(b@, i as int, skip_task) == start + line_dump_from(b@, 0, skip_task),
        decreases b@.len() - i,
    {
        let (e, end) = line_bounds(b, i);
        let line = vstd::slice::slice_subrange(b, i, end);
        let ghost before = v@;
        let ghost rest = line_dump_from(b@, i as int, skip_task);
        if !(skip_task && matches_at(line, task, 0)) {
            push_span(v, b, i, end);
            proof {
                lemma_ascii_valid(seq![0x0au8]);
                valid_utf8_concat(v@, seq![0x0au8]);
            }
            let ghost mid = v@;
            v.push(0x0au8);
            assert(v@ =~= mid + seq![0x0au8]);
        }
        if e < b.len() {
            i = e + 1;
            assert(v@ + line_dump_from(b@, i as int, skip_task) =~= before + rest);
        } else {
            i = b.len();
            assert(line_dump_from(b@, i as int, skip_task) =~= Seq::<u8>::empty());
            assert(v@ + line_dump_from(b@, i as int, skip_task) =~= before + rest);
        }
    }
    assert(line_dump_from(b@, i as int, skip_task) =~= Seq::<u8>::empty());
    assert(v@ =~= v@ + line_dump_from(b@, i as int, skip_task));
}

fn push_status_mark(v: &mut Vec<u8>, s: Option<bool>)
    requires
        valid_utf8(old(v)@),
    ensures
        final(v)@ == old(v)@ + utf8(status_mark(s)),
        valid_utf8(final(v)@),
{
    match s {
        Some(true) => push_str_bytes(v, "[ok]"),
        Some(false) => push_str_bytes(v, "[!!]"),
        None => push_str_bytes(v, "[?]"),
    }
}

fn push_constraint_line(v: &mut Vec<u8>, c: &ConstraintRef)
    requires
        valid_utf8(old(v)@),
    ensures
        final(v)@ == old(v)@ + constraint_line(*c),
        valid_utf8(final(v)@),
{
    let ghost start = v@;
    push_str_bytes(v, "- ");
    push_status_mark(v, c.satisfied);
    push_str_bytes(v, " ");
    push_str_bytes(v, c.id.as_str());
    let ghost mid = v@;
    if c.summary.as_str().is_empty() {
        push_str_bytes(v, "\n");
        assert(v@ =~= start + constraint_line(*c));
    } else {
        push_str_bytes(v, " \u{2014} ");
        push_str_bytes(v, c.summary.as_str());
        push_str_bytes(v, "\n");
        assert(v@ =~= start + constraint_line(*c));
    }
}

fn push_constraint_lines(v: &mut Vec<u8>, cs: &Vec<ConstraintRef>)
    requires
        valid_utf8(old(v)@),
    ensures
        final(v)@ == old(v)@ + constraint_lines(cs@),
        valid_utf8(final(v)@),
{
    let ghost start = v@;
    let mut k: usize = 0;
    assert(cs@.subrange(0, 0) =~= Seq::<ConstraintRef>::empty());
    while k < cs.len()
        invariant
            k <= cs@.len(),
            valid_utf8(v@),
            v@ == start + constraint_lines(cs@.subrange(0, k as int)),
        decreases cs@.len() - k,
    {
        let ghost before = v@;
        assert(cs@.subrange(0, k + 1).drop_last() =~= cs@.subrange(0, k as int));
        assert(cs@.subrange(0, k + 1).last() == cs@[k as int]);
        push_constraint_line(v, &cs[k]);
        assert(v@ =~= start + constraint_lines(cs@.subrange(0, k + 1)));
        k = k + 1;
    }
    assert(cs@.subrange(0, k as int) =~= cs@);
}

fn push_bullets(v: &mut Vec<u8>, ls: &Vec<String>)
    requires
        valid_utf8(old(v)@),
    ensures
        final(v)@ == old(v)@ + bullet_lines(ls@.map_values(|s: String| utf8(s@))),
        valid_utf8(final(v)@),
{
    let ghost start = v@;
    let ghost texts = ls@.map_values(|s: String| utf8(s@));
    let mut k: usize = 0;
    assert(texts.subrange(0, 0) =~= Seq::<Seq<u8>>::empty());
    while k < ls.len()
        invariant
            k <= ls@.len(),
            texts == ls@.map_values(|s: String| utf8(s@)),
            valid_utf8(v@),
            v@ == start + bullet_lines(texts.subrange(0, k as int)),
        decreases ls@.len() - k,
    {
        let ghost before = v@;
        assert(texts.subrange(0, k + 1).drop_last() =~= texts.subrange(0, k as int));
        assert(texts.subrange(0, k + 1).last() == utf8(ls@[k as int]@));
        push_str_bytes(v, "- ");
        push_str_bytes(v, ls[k].as_str());
        push_str_bytes(v, "\n");
        assert(v@ =~= before + utf8("- "@) + utf8(ls@[k as int]@) + utf8("\n"@));
        k = k + 1;
    }
    assert(texts.subrange(0, k as int) =~= texts);
}

fn push_entity_lines(v: &mut Vec<u8>, es: &Vec<StateEntry>)
    requires
        valid_utf8(old(v)@),
    ensures
        final(v)@ == old(v)@ + entity_lines(es@),
        valid_utf8(final(v)@),
{
    let ghost start = v@;
    let mut k: usize = 0;
    let mut shown: usize = 0;
    assert(es@.subrange(0, 0) =~= Seq::<StateEntry>::empty());
    while k < es.len()
        invariant
            k <= es@.len(),
            valid_utf8(v@),
            shown == take_at_most(meaningful_contents(es@.subrange(0, k as int)), 15).len(),
            shown <= k,
            v@ == start + bullet_lines(
                take_at_most(meaningful_contents(es@.subrange(0, k as int)), 15),
            ),
        decreases es@.len() - k,
    {
        let ghost pre = es@.subrange(0, k as int);
        let ghost nx = es@.subrange(0, k + 1);
        assert(nx.drop_last() =~= pre);
        assert(nx.last() == es@[k as int]);
        let content = es[k].content.as_str();
        let cb = content.as_bytes();
        let keep = !(cb.len() > 0 && cb[0] == 0x23);
        proof {
            if cb@.len() > 0 {
                assert(cb@.subrange(0, 1)[0] == cb@[0]);
                if cb@[0] == 0x23 {
                    assert(cb@.subrange(0, 1) =~= seq![0x23u8]);
                }
            }
            assert(keep == meaningful(es@[k as int]));
        }
        let ghost mc = meaningful_contents(pre);
        if keep && shown < 15 {
            let ghost before = v@;
            push_str_bytes(v, "- ");
            push_str_bytes(v, content);
            push_str_bytes(v, "\n");
            proof {
                assert(v@ =~= before + utf8("- "@) + utf8(content@) + utf8("\n"@));
                assert(take_at_most(mc, 15).push(utf8(content@)).drop_last() =~= take_at_most(
                    mc,
                    15,
                ));
                assert(meaningful_contents(nx) == mc.push(utf8(content@)));
                assert(take_at_most(mc.push(utf8(content@)), 15) =~= take_at_most(mc, 15).push(
                    utf8(content@),
                ));
                assert(v@ =~= start + bullet_lines(take_at_most(meaningful_contents(nx), 15)));
            }
            shown = shown + 1;
        } else {
            proof {
                if keep {
                    assert(take_at_most(mc.push(utf8(content@)), 15) =~= take_at_most(mc, 15));
                }
            }
        }
        k = k + 1;
    }
    assert(es@.subrange(0, k as int) =~= es@);
    if es.len() > shown {
        push_str_bytes(v, "- ... and ");
        push_decimal_valid(v, (es.len() - shown) as u64);
        push_str_bytes(v, " more entities\n");
    }
    assert(v@ =~= start + entity_lines(es@));
}

fn push_section(v: &mut Vec<u8>, s: &ContextSection)
    requires
        valid_utf8(old(v)@),
    ensures
        final(v)@ == old(v)@ + section_text(*s),
        valid_utf8(final(v)@),
{
    let ghost start = v@;
    match s {
        ContextSection::Orientation(t) => {
            push_str_bytes(v, "### Session Context\n");
            push_line_dump(v, t.as_str(), false);
            push_str_bytes(v, "\n");
            assert(v@ =~= start + section_text(*s));
        },
        ContextSection::Constraints(cs) => {
            if cs.len() > 0 {
                push_str_bytes(v, "### Active Constraints\n");
                push_constraint_lines(v, cs);
                push_str_bytes(v, "\n");
            }
            assert(v@ =~= start + section_text(*s));
        },
        ContextSection::State(es) => {
            if es.len() > 0 {
                push_str_bytes(v, "### Recent Entities\n");
                push_entity_lines(v, es);
                push_str_bytes(v, "\n");
            }
            assert(v@ =~= start + section_text(*s));
        },
        ContextSection::Warnings(ls) => {
            if ls.len() > 0 {
                push_str_bytes(v, "### Open Questions\n");
                push_bullets(v, ls);
                push_str_bytes(v, "\n");
            }
            assert(v@ =~= start + section_text(*s));
        },
        ContextSection::Directive(t) => {
            push_str_bytes(v, "### Next Actions\n");
            push_line_dump(v, t.as_str(), true);
            push_str_bytes(v, "\n");
            assert(v@ =~= start + section_text(*s));
        },
    }
}

/// Render the injected markdown: the generation comment (time `now` and
/// the store's datom and entity counts), each section of the assembled
/// context, and the quick reference.
#[verifier::spinoff_prover]
#[verifier::rlimit(40)]
pub fn render_injection(
    now: u64,
    datom_count: usize,
    entity_count: usize,
    sections: &Vec<ContextSection>,
) -> (r: String)
    ensures
        utf8(r@) == spec_injection_content(
            now as int,
            datom_count as int,
            entity_count as int,
            sections@,
        ),
{
    let mut v: Vec<u8> = Vec::new();
    proof {
        lemma_ascii_valid(v@);
    }
    push_str_bytes(
        &mut v,
        "<!-- Generated by braid. Do not edit manually. Regenerate: braid seed --inject AGENTS.md -->\n<!-- Updated: ",
    );
    push_decimal_valid(&mut v, now);
    push_str_bytes(&mut v, " | Store: ");
    push_decimal_valid(&mut v, datom_count as u64);
    push_str_bytes(&mut v, " datoms, ");
    push_decimal_valid(&mut v, entity_count as u64);
    push_str_bytes(&mut v, " entities -->\n\n");
    let ghost head = v@;
    assert(head =~= generation_comment(now as int, datom_count as int, entity_count as int));
    let mut k: usize = 0;
    assert(sections@.subrange(0, 0) =~= Seq::<ContextSection>::empty());
    while k < sections.len()
        invariant
            k <= sections@.len(),
            valid_utf8(v@),
            v@ == head + sections_text(sections@.subrange(0, k as int)),
        decreases sections@.len() - k,
    {
        assert(sections@.subrange(0, k + 1).drop_last() =~= sections@.subrange(0, k as int));
        let ghost before = v@;
        push_section(&mut v, &sections[k]);
        assert(v@ =~= head + sections_text(sections@.subrange(0, k + 1)));
        k = k + 1;
    }
    assert(sections@.subrange(0, k as int) =~= sections@);
    let ghost body = v@;
    push_str_bytes(&mut v, "### Quick Reference\n");
    push_str_bytes(&mut v, "```bash\n");
    push_str_bytes(&mut v, "braid status                           # Dashboard + next action\n");
    push_str_bytes(&mut v, "braid observe \"...\" --confidence 0.7    # Capture knowledge\n");
    push_str_bytes(&mut v, "braid harvest --commit                 # End-of-session extraction\n");
    push_str_bytes(&mut v, "braid seed --inject AGENTS.md          # Refresh this section\n");
    push_str_bytes(&mut v, "```\n");
    assert(v@ =~= body + quick_reference());
    bytes_to_string(v)
}

} // verus!

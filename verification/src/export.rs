//! Rendering promoted spec elements back to markdown: one document per
//! namespace, with invariants, ADRs and negative cases each listed in order
//! of their ids.
use vstd::prelude::*;
use vstd::utf8::*;
use vstd::string::StringExecFns;
use crate::text::{
    contains, contains_bytes, utf8,
};

verus! {

broadcast use vstd::utf8::group_utf8_lib;

// ---------------------------------------------------------------------------
// Byte-wise order of ids
// ---------------------------------------------------------------------------

/// `x` comes strictly before `y` in byte-wise lexicographic order (the order
/// of `String`).
pub open spec fn lex_lt(x: Seq<u8>, y: Seq<u8>) -> bool
    decreases x.len(),
{
    if x.len() == 0 {
        y.len() > 0
    } else if y.len() == 0 {
        false
    } else if x[0] != y[0] {
        x[0] < y[0]
    } else {
        lex_lt(x.drop_first(), y.drop_first())
    }
}

pub proof fn lemma_lex_irreflexive(x: Seq<u8>)
    ensures
        !lex_lt(x, x),
    decreases x.len(),
{
    if x.len() > 0 {
        lemma_lex_irreflexive(x.drop_first());
    }
}

pub proof fn lemma_lex_total(x: Seq<u8>, y: Seq<u8>)
    ensures
        lex_lt(x, y) || lex_lt(y, x) || x == y,
    decreases x.len(),
{
    if x.len() > 0 && y.len() > 0 && x[0] == y[0] {
        lemma_lex_total(x.drop_first(), y.drop_first());
        if x.drop_first() == y.drop_first() {
            assert(x =~= seq![x[0]] + x.drop_first());
            assert(y =~= seq![y[0]] + y.drop_first());
        }
    } else if x.len() == 0 && y.len() == 0 {
        assert(x =~= y);
    }
}

pub proof fn lemma_lex_transitive(x: Seq<u8>, y: Seq<u8>, z: Seq<u8>)
    requires
        lex_lt(x, y),
        lex_lt(y, z),
    ensures
        lex_lt(x, z),
    decreases x.len(),
{
    if x.len() > 0 && y.len() > 0 && z.len() > 0 && x[0] == y[0] && y[0] == z[0] {
        lemma_lex_transitive(x.drop_first(), y.drop_first(), z.drop_first());
    }
}

pub proof fn lemma_lex_asymmetric(x: Seq<u8>, y: Seq<u8>)
    requires
        lex_lt(x, y),
    ensures
        !lex_lt(y, x),
    decreases x.len(),
{
    if x.len() > 0 && y.len() > 0 && x[0] == y[0] {
        lemma_lex_asymmetric(x.drop_first(), y.drop_first());
    }
}

/// Whether `a` comes strictly before `b` in byte-wise order.
fn bytes_lt(a: &[u8], b: &[u8]) -> (r: bool)
    ensures
        r == lex_lt(a@, b@),
{
    let mut k: usize = 0;
    assert(a@.subrange(0, a@.len() as int) =~= a@);
    assert(b@.subrange(0, b@.len() as int) =~= b@);
    while k < a.len() && k < b.len()
        invariant
            k <= a@.len(),
            k <= b@.len(),
            a@.subrange(0, k as int) == b@.subrange(0, k as int),
            lex_lt(a@, b@) == lex_lt(a@.subrange(k as int, a@.len() as int), b@.subrange(
                k as int,
                b@.len() as int,
            )),
        decreases a@.len() - k,
    {
        let ghost x = a@.subrange(k as int, a@.len() as int);
        let ghost y = b@.subrange(k as int, b@.len() as int);
        assert(x[0] == a@[k as int]);
        assert(y[0] == b@[k as int]);
        if a[k] != b[k] {
            return a[k] < b[k];
        }
        assert(x.drop_first() =~= a@.subrange(k + 1, a@.len() as int));
        assert(y.drop_first() =~= b@.subrange(k + 1, b@.len() as int));
        assert(a@.subrange(0, k + 1) =~= a@.subrange(0, k as int).push(a@[k as int]));
        assert(b@.subrange(0, k + 1) =~= b@.subrange(0, k as int).push(b@[k as int]));
        k = k + 1;
    }
    k == a.len() && k < b.len()
}

// ---------------------------------------------------------------------------
// Spec elements
// ---------------------------------------------------------------------------

/// A spec element reconstructed from store datoms for export rendering.
#[derive(Clone, Debug)]
pub struct StoreElement {
    pub id: String,
    pub element_type: String,
    pub namespace: String,
    pub title: String,
    pub body: String,
    pub statement: String,
    pub falsification: String,
    pub verification: String,
    pub problem: String,
    pub decision_text: String,
    pub violation: String,
    pub status: String,
    /// The confidence as it is printed, with two decimals, if there is one.
    pub confidence_text: Option<String>,
    pub traces_to: Vec<String>,
}

/// The id of an element as bytes.
pub open spec fn id_of(e: StoreElement) -> Seq<u8> {
    utf8(e.id@)
}

/// Element `i` of `es` comes strictly before element `j`: by id, then by
/// position.
pub open spec fn ranks_before(es: Seq<StoreElement>, i: int, j: int) -> bool {
    lex_lt(id_of(es[i]), id_of(es[j])) || (id_of(es[i]) == id_of(es[j]) && i < j)
}

/// The element's type contains `kind`.
pub open spec fn of_kind(e: StoreElement, kind: Seq<char>) -> bool {
    contains(utf8(e.element_type@), utf8(kind))
}

/// `r` lists, in strictly increasing (id, position) order, exactly the
/// positions of the elements of `es` whose type contains `kind`: the stable
/// sort by id of those elements.
pub open spec fn is_sorted_selection(r: Seq<int>, es: Seq<StoreElement>, kind: Seq<char>) -> bool {
    &&& forall|k: int| 0 <= k < r.len() ==> 0 <= #[trigger] r[k] < es.len()
    &&& forall|k: int| 0 <= k < r.len() ==> of_kind(es[#[trigger] r[k]], kind)
    &&& forall|i: int|
        0 <= i < es.len() && of_kind(es[i], kind) ==> exists|k: int|
            0 <= k < r.len() && #[trigger] r[k] == i
    &&& forall|a: int, b: int| 0 <= a < b < r.len() ==> ranks_before(es, #[trigger] r[a], #[trigger] r[b])
}

/// The positions of the selected elements, sorted.
fn sorted_selection(es: &[StoreElement], kind: &str) -> (r: Vec<usize>)
    ensures
        is_sorted_selection(positions(r@), es@, kind@),
{
    let mut r: Vec<usize> = Vec::new();
    let mut i: usize = 0;
    let ghost kd = kind@;
    while i < es.len()
        invariant
            i <= es@.len(),
            kd == kind@,
            forall|k: int| 0 <= k < r@.len() ==> #[trigger] r@[k] < i,
            forall|k: int| 0 <= k < r@.len() ==> of_kind(es@[#[trigger] r@[k] as int], kd),
            forall|j: int|
                0 <= j < i && of_kind(es@[j], kd) ==> exists|k: int|
                    0 <= k < r@.len() && #[trigger] r@[k] == j,
            forall|a: int, b: int|
                0 <= a < b < r@.len() ==> ranks_before(
                    es@,
                    #[trigger] r@[a] as int,
                    #[trigger] r@[b] as int,
                ),
        decreases es@.len() - i,
    {
        let selected = contains_bytes(es[i].element_type.as_str().as_bytes(), kind.as_bytes());
        if selected {
            let key = es[i].id.as_str().as_bytes();
            // The first position whose id is greater than this one's.
            let mut p: usize = 0;
            while p < r.len() && !bytes_lt(key, es[r[p]].id.as_str().as_bytes())
                invariant
                    p <= r@.len(),
                    i < es@.len(),
                    forall|k: int| 0 <= k < r@.len() ==> #[trigger] r@[k] < i,
                    forall|q: int| 0 <= q < p ==> !lex_lt(id_of(es@[i as int]), id_of(es@[#[trigger] r@[q] as int])),
                    key@ == id_of(es@[i as int]),
                decreases r@.len() - p,
            {
                p = p + 1;
            }
            let ghost old_r = r@;
            proof {
                // Everything before `p` ranks before `i`; everything from `p`
                // on ranks after it.
                assert forall|q: int| 0 <= q < p implies ranks_before(
                    es@,
                    #[trigger] old_r[q] as int,
                    i as int,
                ) by {
                    lemma_lex_total(id_of(es@[i as int]), id_of(es@[old_r[q] as int]));
                }
                assert forall|q: int| p <= q < old_r.len() implies ranks_before(
                    es@,
                    i as int,
                    #[trigger] old_r[q] as int,
                ) by {
                    if q > p {
                        assert(ranks_before(es@, old_r[p as int] as int, old_r[q] as int));
                        let kp = id_of(es@[old_r[p as int] as int]);
                        let kq = id_of(es@[old_r[q] as int]);
                        if lex_lt(kp, kq) {
                            lemma_lex_transitive(id_of(es@[i as int]), kp, kq);
                        }
                    }
                }
            }
            r.insert(p, i);
            proof {
                assert forall|a: int, b: int| 0 <= a < b < r@.len() implies ranks_before(
                    es@,
                    #[trigger] r@[a] as int,
                    #[trigger] r@[b] as int,
                ) by {
                    if b < p {
                        assert(r@[a] == old_r[a] && r@[b] == old_r[b]);
                    } else if b == p {
                        assert(r@[a] == old_r[a]);
                    } else if a < p {
                        assert(r@[a] == old_r[a] && r@[b] == old_r[b - 1]);
                        assert(ranks_before(es@, old_r[a] as int, old_r[b - 1] as int));
                    } else if a == p {
                        assert(r@[b] == old_r[b - 1]);
                    } else {
                        assert(r@[a] == old_r[a - 1] && r@[b] == old_r[b - 1]);
                        assert(ranks_before(es@, old_r[a - 1] as int, old_r[b - 1] as int));
                    }
                }
                assert forall|j: int|
                    0 <= j < i + 1 && of_kind(es@[j], kd) implies exists|k: int|
                        0 <= k < r@.len() && #[trigger] r@[k] == j by {
                    if j == i {
                        assert(r@[p as int] == i);
                    } else {
                        let k = choose|k: int| 0 <= k < old_r.len() && #[trigger] old_r[k] == j;
                        if k < p {
                            assert(r@[k] == j);
                        } else {
                            assert(r@[k + 1] == j);
                        }
                    }
                }
                assert forall|k: int| 0 <= k < r@.len() implies #[trigger] r@[k] < i + 1 by {
                    if k < p {
                        assert(r@[k] == old_r[k]);
                    } else if k > p {
                        assert(r@[k] == old_r[k - 1]);
                    }
                }
                assert forall|k: int| 0 <= k < r@.len() implies of_kind(
                    es@[#[trigger] r@[k] as int],
                    kd,
                ) by {
                    if k < p {
                        assert(r@[k] == old_r[k]);
                    } else if k > p {
                        assert(r@[k] == old_r[k - 1]);
                    }
                }
            }
        }
        i = i + 1;
    }
    proof {
        let rv = positions(r@);
        assert forall|j: int| 0 <= j < es@.len() && of_kind(es@[j], kd) implies exists|k: int|
            0 <= k < rv.len() && #[trigger] rv[k] == j by {
            let k = choose|k: int| 0 <= k < r@.len() && #[trigger] r@[k] == j;
            assert(rv[k] == j);
        }
    }
    r
}

// ---------------------------------------------------------------------------
// The order of a selection is unique
// ---------------------------------------------------------------------------

/// `r` lists positions of `es` in strictly increasing (id, position) order.
pub open spec fn strictly_ranked(r: Seq<int>, es: Seq<StoreElement>) -> bool {
    &&& forall|k: int| 0 <= k < r.len() ==> 0 <= #[trigger] r[k] < es.len()
    &&& forall|a: int, b: int| 0 <= a < b < r.len() ==> ranks_before(es, #[trigger] r[a], #[trigger] r[b])
}

proof fn lemma_ranks_asymmetric(es: Seq<StoreElement>, i: int, j: int)
    requires
        ranks_before(es, i, j),
    ensures
        !ranks_before(es, j, i),
        i != j,
{
    if lex_lt(id_of(es[i]), id_of(es[j])) {
        lemma_lex_asymmetric(id_of(es[i]), id_of(es[j]));
        lemma_lex_irreflexive(id_of(es[i]));
    } else {
        lemma_lex_irreflexive(id_of(es[i]));
    }
}

/// Two strictly ranked lists of the same positions are the same list.
pub proof fn lemma_ranked_unique(r1: Seq<int>, r2: Seq<int>, es: Seq<StoreElement>)
    requires
        strictly_ranked(r1, es),
        strictly_ranked(r2, es),
        forall|x: int| r1.contains(x) <==> r2.contains(x),
    ensures
        r1 == r2,
    decreases r1.len(),
{
    if r1.len() == 0 {
        if r2.len() > 0 {
            assert(r2.contains(r2[0]));
        }
        assert(r1 =~= r2);
    } else {
        assert(r1.contains(r1[0]));
        let j = choose|j: int| 0 <= j < r2.len() && r2[j] == r1[0];
        assert(r2.contains(r2[0]));
        let i = choose|i: int| 0 <= i < r1.len() && r1[i] == r2[0];
        if j > 0 {
            assert(ranks_before(es, r2[0], r2[j]));
            if i > 0 {
                assert(ranks_before(es, r1[0], r1[i]));
                lemma_ranks_asymmetric(es, r1[0], r1[i]);
            } else {
                lemma_ranks_asymmetric(es, r2[0], r2[j]);
            }
        }
        assert(r1[0] == r2[0]);
        let t1 = r1.drop_first();
        let t2 = r2.drop_first();
        assert forall|x: int| t1.contains(x) <==> t2.contains(x) by {
            if t1.contains(x) {
                let a = choose|a: int| 0 <= a < t1.len() && t1[a] == x;
                assert(ranks_before(es, r1[0], r1[a + 1]));
                lemma_ranks_asymmetric(es, r1[0], r1[a + 1]);
                assert(r1.contains(x));
                let b = choose|b: int| 0 <= b < r2.len() && r2[b] == x;
                assert(b != 0);
                assert(t2[b - 1] == x);
            }
            if t2.contains(x) {
                let a = choose|a: int| 0 <= a < t2.len() && t2[a] == x;
                assert(ranks_before(es, r2[0], r2[a + 1]));
                lemma_ranks_asymmetric(es, r2[0], r2[a + 1]);
                assert(r2.contains(x));
                let b = choose|b: int| 0 <= b < r1.len() && r1[b] == x;
                assert(b != 0);
                assert(t1[b - 1] == x);
            }
        }
        assert forall|a: int, b: int| 0 <= a < b < t1.len() implies ranks_before(
            es,
            #[trigger] t1[a],
            #[trigger] t1[b],
        ) by {
            assert(ranks_before(es, r1[a + 1], r1[b + 1]));
        }
        assert forall|a: int, b: int| 0 <= a < b < t2.len() implies ranks_before(
            es,
            #[trigger] t2[a],
            #[trigger] t2[b],
        ) by {
            assert(ranks_before(es, r2[a + 1], r2[b + 1]));
        }
        lemma_ranked_unique(t1, t2, es);
        assert(r1 =~= seq![r1[0]] + t1);
        assert(r2 =~= seq![r2[0]] + t2);
    }
}

/// The stable sort by id of the elements of a kind is unique: two lists
/// that both order exactly those elements by (id, position) are equal.
pub proof fn law_sorted_selection_unique(
    r1: Seq<int>,
    r2: Seq<int>,
    es: Seq<StoreElement>,
    kind: Seq<char>,
)
    requires
        is_sorted_selection(r1, es, kind),
        is_sorted_selection(r2, es, kind),
    ensures
        r1 == r2,
{
    assert forall|x: int| r1.contains(x) <==> r2.contains(x) by {
        if r1.contains(x) {
            let k = choose|k: int| 0 <= k < r1.len() && r1[k] == x;
            assert(of_kind(es[r1[k]], kind));
        }
        if r2.contains(x) {
            let k = choose|k: int| 0 <= k < r2.len() && r2[k] == x;
            assert(of_kind(es[r2[k]], kind));
        }
    }
    lemma_ranked_unique(r1, r2, es);
}

// ---------------------------------------------------------------------------
// Rendering
// ---------------------------------------------------------------------------

/// The strings joined with `sep` between them.
pub open spec fn join_text(parts: Seq<Seq<char>>, sep: Seq<char>) -> Seq<char>
    decreases parts.len(),
{
    if parts.len() == 0 {
        Seq::empty()
    } else if parts.len() == 1 {
        parts[0]
    } else {
        join_text(parts.drop_last(), sep) + sep + parts.last()
    }
}

/// The views of some strings.
pub open spec fn texts(v: Seq<String>) -> Seq<Seq<char>> {
    v.map_values(|s: String| s@)
}

/// `label` and `value` and a newline, when `value` is not empty.
pub open spec fn field_line(label: Seq<char>, value: Seq<char>) -> Seq<char> {
    if value.len() == 0 {
        Seq::empty()
    } else {
        label + value + "\n"@
    }
}

/// The heading of an element and its traces-to line.
pub open spec fn element_head(e: StoreElement) -> Seq<char> {
    "### "@ + e.id@ + ": "@ + e.title@ + "\n\n"@ + if e.traces_to@.len() == 0 {
        Seq::empty()
    } else {
        "- **Traces to**: "@ + join_text(texts(e.traces_to@), ", "@) + "\n"@
    }
}

/// The body paragraph of an element and the closing blank line.
pub open spec fn element_tail(e: StoreElement) -> Seq<char> {
    (if e.body@.len() == 0 {
        Seq::empty()
    } else {
        "\n"@ + e.body@ + "\n"@
    }) + "\n"@
}

/// The markdown of an invariant.
pub open spec fn spec_render_invariant(e: StoreElement) -> Seq<char> {
    element_head(e) + "- **Type**: Invariant\n"@ + field_line("- **Statement**: "@, e.statement@)
        + field_line("- **Falsification**: "@, e.falsification@) + field_line(
        "- **Verification**: "@,
        e.verification@,
    ) + match e.confidence_text {
        Some(c) => "- **Confidence**: "@ + c@ + "\n"@,
        None => Seq::empty(),
    } + element_tail(e)
}

/// The markdown of an ADR.
pub open spec fn spec_render_adr(e: StoreElement) -> Seq<char> {
    element_head(e) + "- **Type**: ADR\n"@ + field_line("\n**Problem**: "@, e.problem@) + field_line(
        "\n**Decision**: "@,
        e.decision_text@,
    ) + element_tail(e)
}

/// The markdown of a negative case.
pub open spec fn spec_render_neg(e: StoreElement) -> Seq<char> {
    element_head(e) + "- **Type**: Negative Case\n"@ + field_line("- **Violation**: "@, e.violation@)
        + element_tail(e)
}

fn append_field(out: &mut String, label: &str, value: &str)
    ensures
        final(out)@ == old(out)@ + field_line(label@, value@),
{
    if !value.is_empty() {
        out.append(label);
        out.append(value);
        out.append("\n");
    }
    assert(final(out)@ =~= old(out)@ + field_line(label@, value@));
}

fn append_joined(out: &mut String, parts: &Vec<String>, sep: &str)
    ensures
        final(out)@ == old(out)@ + join_text(texts(parts@), sep@),
{
    let ghost start = out@;
    let mut k: usize = 0;
    assert(texts(parts@).subrange(0, 0) =~= Seq::<Seq<char>>::empty());
    while k < parts.len()
        invariant
            k <= parts@.len(),
            out@ == start + join_text(texts(parts@).subrange(0, k as int), sep@),
        decreases parts@.len() - k,
    {
        let ghost before = out@;
        let ghost pre = texts(parts@).subrange(0, k as int);
        let ghost nx = texts(parts@).subrange(0, k + 1);
        assert(nx.drop_last() =~= pre);
        if k > 0 {
            out.append(sep);
        }
        out.append(parts[k].as_str());
        proof {
            if k == 0 {
                assert(out@ =~= start + nx[0]);
            } else {
                assert(out@ =~= start + (join_text(pre, sep@) + sep@ + nx.last()));
            }
        }
        k = k + 1;
    }
    assert(texts(parts@).subrange(0, k as int) =~= texts(parts@));
}

fn append_head(out: &mut String, elem: &StoreElement)
    ensures
        final(out)@ == old(out)@ + element_head(*elem),
{
    let ghost start = out@;
    out.append("### ");
    out.append(elem.id.as_str());
    out.append(": ");
    out.append(elem.title.as_str());
    out.append("\n\n");
    if elem.traces_to.len() > 0 {
        out.append("- **Traces to**: ");
        append_joined(out, &elem.traces_to, ", ");
        out.append("\n");
    }
    assert(out@ =~= start + element_head(*elem));
}

fn append_tail(out: &mut String, elem: &StoreElement)
    ensures
        final(out)@ == old(out)@ + element_tail(*elem),
{
    let ghost start = out@;
    if !elem.body.as_str().is_empty() {
        out.append("\n");
        out.append(elem.body.as_str());
        out.append("\n");
    }
    out.append("\n");
    assert(out@ =~= start + element_tail(*elem));
}

/// Render an invariant: heading, traces, type, statement, falsification,
/// verification, confidence and body.
pub fn render_invariant(out: &mut String, elem: &StoreElement)
    ensures
        final(out)@ == old(out)@ + spec_render_invariant(*elem),
{
    let ghost start = out@;
    append_head(out, elem);
    out.append("- **Type**: Invariant\n");
    append_field(out, "- **Statement**: ", elem.statement.as_str());
    append_field(out, "- **Falsification**: ", elem.falsification.as_str());
    append_field(out, "- **Verification**: ", elem.verification.as_str());
    match &elem.confidence_text {
        Some(c) => {
            out.append("- **Confidence**: ");
            out.append(c.as_str());
            out.append("\n");
        },
        None => {},
    }
    append_tail(out, elem);
    assert(out@ =~= start + spec_render_invariant(*elem));
}

/// Render an ADR: heading, traces, type, problem, decision and body.
pub fn render_adr(out: &mut String, elem: &StoreElement)
    ensures
        final(out)@ == old(out)@ + spec_render_adr(*elem),
{
    let ghost start = out@;
    append_head(out, elem);
    out.append("- **Type**: ADR\n");
    append_field(out, "\n**Problem**: ", elem.problem.as_str());
    append_field(out, "\n**Decision**: ", elem.decision_text.as_str());
    append_tail(out, elem);
    assert(out@ =~= start + spec_render_adr(*elem));
}

/// Render a negative case: heading, traces, type, violation and body.
pub fn render_neg(out: &mut String, elem: &StoreElement)
    ensures
        final(out)@ == old(out)@ + spec_render_neg(*elem),
{
    let ghost start = out@;
    append_head(out, elem);
    out.append("- **Type**: Negative Case\n");
    append_field(out, "- **Violation**: ", elem.violation.as_str());
    append_tail(out, elem);
    assert(out@ =~= start + spec_render_neg(*elem));
}

/// The markdown of an element as an invariant (0), an ADR (1) or a negative
/// case (2).
pub open spec fn render_as(e: StoreElement, kind: int) -> Seq<char> {
    if kind == 0 {
        spec_render_invariant(e)
    } else if kind == 1 {
        spec_render_adr(e)
    } else {
        spec_render_neg(e)
    }
}

/// The markdown of the elements at positions `r`, in that order.
pub open spec fn render_all(es: Seq<StoreElement>, r: Seq<int>, kind: int) -> Seq<char>
    decreases r.len(),
{
    if r.len() == 0 {
        Seq::empty()
    } else {
        render_all(es, r.drop_last(), kind) + render_as(es[r.last()], kind)
    }
}

/// A section: its heading and the elements at positions `r`, or nothing
/// when there are none.
pub open spec fn section(heading: Seq<char>, es: Seq<StoreElement>, r: Seq<int>, kind: int) -> Seq<
    char,
> {
    if r.len() == 0 {
        Seq::empty()
    } else {
        heading + render_all(es, r, kind)
    }
}

/// The document of a namespace: its header, then the invariants, ADRs and
/// negative cases at positions `inv`, `adr` and `neg`.
pub open spec fn spec_namespace_doc(
    ns: Seq<char>,
    es: Seq<StoreElement>,
    inv: Seq<int>,
    adr: Seq<int>,
    neg: Seq<int>,
) -> Seq<char> {
    "# "@ + ns + " \u{2014} Generated Specification\n\n"@
        + "> Auto-generated by `braid write export` from store entities.\n"@
        + "> Edit the store (via `braid write promote` / `braid write assert`), not this file.\n\n"@
        + "---\n\n"@ + section("## Invariants\n\n"@, es, inv, 0) + section(
        "## Architecture Decision Records\n\n"@,
        es,
        adr,
        1,
    ) + section("## Negative Cases\n\n"@, es, neg, 2)
}

/// The positions as integers.
pub open spec fn positions(r: Seq<usize>) -> Seq<int> {
    r.map_values(|x: usize| x as int)
}

fn append_section(out: &mut String, heading: &str, es: &[StoreElement], r: &Vec<usize>, kind: u8)
    requires
        kind <= 2,
        forall|k: int| 0 <= k < r@.len() ==> #[trigger] r@[k] < es@.len(),
    ensures
        final(out)@ == old(out)@ + section(heading@, es@, positions(r@), kind as int),
{
    let ghost start = out@;
    if r.len() == 0 {
        assert(positions(r@).len() == 0);
        return;
    }
    out.append(heading);
    let ghost mid = out@;
    let mut k: usize = 0;
    assert(positions(r@).subrange(0, 0) =~= Seq::<int>::empty());
    while k < r.len()
        invariant
            k <= r@.len(),
            kind <= 2,
            forall|j: int| 0 <= j < r@.len() ==> #[trigger] r@[j] < es@.len(),
            out@ == mid + render_all(es@, positions(r@).subrange(0, k as int), kind as int),
        decreases r@.len() - k,
    {
        let ghost pre = positions(r@).subrange(0, k as int);
        let ghost nx = positions(r@).subrange(0, k + 1);
        assert(nx.drop_last() =~= pre);
        assert(nx.last() == r@[k as int] as int);
        let e = &es[r[k]];
        if kind == 0 {
            render_invariant(out, e);
        } else if kind == 1 {
            render_adr(out, e);
        } else {
            render_neg(out, e);
        }
        assert(out@ =~= mid + render_all(es@, nx, kind as int));
        k = k + 1;
    }
    assert(positions(r@).subrange(0, k as int) =~= positions(r@));
    assert(out@ =~= start + section(heading@, es@, positions(r@), kind as int));
}

/// Render the specification document of one namespace: a header, then its
/// invariants, ADRs and negative cases (elements whose type contains
/// `invariant`, `adr` or `negative`), each section sorted by id and left out
/// when empty.
pub fn render_namespace_spec(namespace: &str, elements: &[StoreElement]) -> (r: String)
    ensures
        exists|inv: Seq<int>, adr: Seq<int>, neg: Seq<int>|
            #![trigger spec_namespace_doc(namespace@, elements@, inv, adr, neg)]
            is_sorted_selection(inv, elements@, "invariant"@) && is_sorted_selection(
                adr,
                elements@,
                "adr"@,
            ) && is_sorted_selection(neg, elements@, "negative"@) && r@ == spec_namespace_doc(
                namespace@,
                elements@,
                inv,
                adr,
                neg,
            ),
{
    let mut out = String::new();
    out.append("# ");
    out.append(namespace);
    out.append(" \u{2014} Generated Specification\n\n");
    out.append("> Auto-generated by `braid write export` from store entities.\n");
    out.append(
        "> Edit the store (via `braid write promote` / `braid write assert`), not this file.\n\n",
    );
    out.append("---\n\n");
    let invariants = sorted_selection(elements, "invariant");
    let adrs = sorted_selection(elements, "adr");
    let negs = sorted_selection(elements, "negative");
    proof {
        assert forall|k: int| 0 <= k < invariants@.len() implies #[trigger] invariants@[k]
            < elements@.len() by {
            assert(positions(invariants@)[k] == invariants@[k] as int);
        }
        assert forall|k: int| 0 <= k < adrs@.len() implies #[trigger] adrs@[k] < elements@.len() by {
            assert(positions(adrs@)[k] == adrs@[k] as int);
        }
        assert forall|k: int| 0 <= k < negs@.len() implies #[trigger] negs@[k] < elements@.len() by {
            assert(positions(negs@)[k] == negs@[k] as int);
        }
    }
    append_section(&mut out, "## Invariants\n\n", elements, &invariants, 0);
    append_section(&mut out, "## Architecture Decision Records\n\n", elements, &adrs, 1);
    append_section(&mut out, "## Negative Cases\n\n", elements, &negs, 2);
    assert(out@ =~= spec_namespace_doc(
        namespace@,
        elements@,
        positions(invariants@),
        positions(adrs@),
        positions(negs@),
    ));
    out
}

} // verus!

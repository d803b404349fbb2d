//! Workflow definitions: their validation (names, dependencies, limits and
//! dependency cycles), content-type detection, and the ring of server-sent
//! events.
use vstd::prelude::*;
use crate::store::views;
use crate::text::{trim, alphanumeric};

verus! {

/// `serde_json::Value`, carried through as the value a condition compares with.
#[verifier::external_type_specification]
#[verifier::external_body]
pub struct ExJsonValue(serde_json::Value);

/// Run a step only when the output of `on_step` equals `equals`.
#[derive(Debug)]
pub struct Condition {
    pub on_step: String,
    pub equals: serde_json::Value,
}

/// One step of a workflow.
#[derive(Debug)]
pub struct StepDef {
    pub name: String,
    pub depends_on: Vec<String>,
    pub max_attempts: u32,
    pub base_delay_ms: u64,
    pub timeout_ms: Option<u64>,
    pub sub_workflow: Option<String>,
    pub optional: bool,
    pub condition: Option<Condition>,
}

/// An event that starts a workflow.
#[derive(Debug, Clone)]
pub struct TriggerDef {
    pub event: String,
}

/// A workflow: named steps with dependencies.
#[derive(Debug)]
pub struct WorkflowDef {
    pub name: String,
    pub description: Option<String>,
    pub timeout_ms: Option<u64>,
    pub triggers: Vec<TriggerDef>,
    pub steps: Vec<StepDef>,
}

/// The stored state of a run.
#[derive(Debug, Clone)]
pub struct RunRecord {
    pub run_id: String,
    pub wf_name: String,
    pub state: String,
    pub idem_key: Option<String>,
    pub created_at_ms: u64,
}

/// The stored state of one step of a run.
#[derive(Debug, Clone)]
pub struct StepRecord {
    pub state: String,
    pub attempt: u32,
    pub scheduled_at_ms: u64,
    pub started_at_ms: Option<u64>,
    pub output: Option<Vec<u8>>,
    pub error: Option<String>,
}

// ── The dependency graph ────────────────────────────────────────────────────

/// The names of the steps.
pub open spec fn step_names(steps: Seq<StepDef>) -> Seq<Seq<char>> {
    steps.map_values(|s: StepDef| s.name@)
}

/// The dependency names of a step.
pub open spec fn deps_of(s: StepDef) -> Seq<Seq<char>> {
    views(s.depends_on@)
}

/// Step `i` depends on step `j`.
pub open spec fn edge(steps: Seq<StepDef>, i: int, j: int) -> bool {
    0 <= i < steps.len() && 0 <= j < steps.len() && deps_of(steps[i]).contains(steps[j].name@)
}

/// `p` is a walk of at least one dependency edge.
pub open spec fn is_walk(steps: Seq<StepDef>, p: Seq<int>) -> bool {
    &&& p.len() >= 2
    &&& forall|k: int| 0 <= k < p.len() - 1 ==> #[trigger] edge(steps, p[k], p[k + 1])
}

/// Step `i` lies on a dependency cycle.
pub open spec fn on_cycle(steps: Seq<StepDef>, i: int) -> bool {
    exists|p: Seq<int>| #[trigger] is_walk(steps, p) && p[0] == i && p.last() == i
}

/// Some step depends on itself, directly or through other steps.
pub open spec fn has_cycle(steps: Seq<StepDef>) -> bool {
    exists|i: int| 0 <= i < steps.len() && #[trigger] on_cycle(steps, i)
}

/// Step names are pairwise distinct.
pub open spec fn distinct_names(steps: Seq<StepDef>) -> bool {
    forall|i: int, j: int| 0 <= i < steps.len() && 0 <= j < steps.len() && i != j
        ==> #[trigger] steps[i].name@ != #[trigger] steps[j].name@
}

/// The message naming the step `name` of a dependency cycle.
pub open spec fn cycle_message(name: Seq<char>) -> Seq<char> {
    "dependency cycle detected involving step '"@ + name + "'"@
}

/// The number of unvisited (colour 0) entries.
pub open spec fn whites(c: Seq<u8>) -> nat
    decreases c.len(),
{
    if c.len() == 0 {
        0
    } else {
        whites(c.drop_last()) + if c.last() == 0 { 1nat } else { 0nat }
    }
}

proof fn lemma_whites_shrink(a: Seq<u8>, b: Seq<u8>, i: int)
    requires
        a.len() == b.len(),
        forall|k: int| 0 <= k < a.len() && a[k] != 0 ==> b[k] != 0,
        0 <= i < a.len() ==> a[i] == 0 && b[i] != 0,
    ensures
        whites(b) <= whites(a),
        0 <= i < a.len() ==> whites(b) < whites(a),
    decreases a.len(),
{
    if a.len() > 0 {
        let n = a.len() - 1;
        lemma_whites_shrink(a.drop_last(), b.drop_last(), if i == n { -1 } else { i });
        assert(a.drop_last().len() == b.drop_last().len());
        assert(a[n] != 0 ==> b[n] != 0);
    }
}

/// The position of the step named `name`, if any.
pub open spec fn step_index(steps: Seq<StepDef>, name: Seq<char>) -> Option<int> {
    if exists|j: int| 0 <= j < steps.len() && steps[j].name@ == name {
        Some(choose|j: int| 0 <= j < steps.len() && steps[j].name@ == name)
    } else {
        None
    }
}

/// The depth-first search of the cycle check, from the unvisited step `node`
/// with colouring `c` (0 unvisited, 1 on the current path, 2 finished): the
/// step is put on the path and its dependencies are searched in order.
/// Answers the dependency name at which the search met a step on the current
/// path, if it did, and the colouring after the search.  `fuel` bounds the
/// depth; the number of unvisited steps is always enough.
pub open spec fn visit(steps: Seq<StepDef>, node: int, c: Seq<u8>, fuel: nat) -> (Option<Seq<char>>, Seq<u8>)
    decreases fuel, 1nat, 0nat,
{
    visit_deps(steps, node, 0, c.update(node, 1), fuel)
}

/// The search of the dependencies of `node` from the `k`-th on; when they are
/// all done the step is finished.
pub open spec fn visit_deps(steps: Seq<StepDef>, node: int, k: int, c: Seq<u8>, fuel: nat) -> (Option<Seq<char>>, Seq<u8>)
    decreases fuel, 0nat, deps_of(steps[node]).len() - k,
{
    let deps = deps_of(steps[node]);
    if k < 0 || k >= deps.len() {
        (None, c.update(node, 2))
    } else {
        match step_index(steps, deps[k]) {
            None => visit_deps(steps, node, k + 1, c, fuel),
            Some(nb) => if c[nb] == 1 {
                (Some(deps[k]), c)
            } else if c[nb] == 0 {
                if fuel == 0 {
                    (None, c)
                } else {
                    let (e, c2) = visit(steps, nb, c, (fuel - 1) as nat);
                    if e is Some {
                        (e, c2)
                    } else {
                        visit_deps(steps, node, k + 1, c2, fuel)
                    }
                }
            } else {
                visit_deps(steps, node, k + 1, c, fuel)
            },
        }
    }
}

/// The search from every unvisited step from the `i`-th on, in order.
pub open spec fn visit_all(steps: Seq<StepDef>, i: int, c: Seq<u8>) -> Option<Seq<char>>
    decreases steps.len() - i,
{
    if i < 0 || i >= steps.len() {
        None
    } else if c[i] == 0 {
        let (e, c2) = visit(steps, i, c, steps.len());
        if e is Some {
            e
        } else {
            visit_all(steps, i + 1, c2)
        }
    } else {
        visit_all(steps, i + 1, c)
    }
}

/// The dependency name that the cycle check reports: the first dependency at
/// which a depth-first search over the steps in order (each step's
/// dependencies in order) meets a step on its current path.
pub open spec fn cycle_step(steps: Seq<StepDef>) -> Option<Seq<char>> {
    visit_all(steps, 0, Seq::new(steps.len(), |k: int| 0u8))
}

/// The search only moves steps on: a visited step stays visited, and the
/// searched step is visited.
proof fn lemma_visit_props(steps: Seq<StepDef>, node: int, c: Seq<u8>, fuel: nat)
    requires
        c.len() == steps.len(),
        0 <= node < c.len(),
    ensures
        visit(steps, node, c, fuel).1.len() == c.len(),
        forall|k: int| 0 <= k < c.len() && c[k] != 0 ==> #[trigger] visit(steps, node, c, fuel).1[k] != 0,
        visit(steps, node, c, fuel).1[node] != 0,
    decreases fuel, 1nat, 0nat,
{
    lemma_deps_props(steps, node, 0, c.update(node, 1), fuel);
}

proof fn lemma_deps_props(steps: Seq<StepDef>, node: int, k: int, c: Seq<u8>, fuel: nat)
    requires
        c.len() == steps.len(),
        0 <= node < c.len(),
        c[node] != 0,
        0 <= k,
    ensures
        visit_deps(steps, node, k, c, fuel).1.len() == c.len(),
        forall|q: int| 0 <= q < c.len() && c[q] != 0 ==> #[trigger] visit_deps(steps, node, k, c, fuel).1[q] != 0,
        visit_deps(steps, node, k, c, fuel).1[node] != 0,
    decreases fuel, 0nat, deps_of(steps[node]).len() - k,
{
    let deps = deps_of(steps[node]);
    if k < deps.len() {
        match step_index(steps, deps[k]) {
            None => lemma_deps_props(steps, node, k + 1, c, fuel),
            Some(nb) => {
                assert(0 <= nb < steps.len() && steps[nb].name@ == deps[k]) by {
                    assert(exists|j: int| 0 <= j < steps.len() && steps[j].name@ == deps[k]);
                }
                if c[nb] == 1 {
                } else if c[nb] == 0 {
                    if fuel > 0 {
                        let (e, c2) = visit(steps, nb, c, (fuel - 1) as nat);
                        lemma_visit_props(steps, nb, c, (fuel - 1) as nat);
                        if e is None {
                            lemma_deps_props(steps, node, k + 1, c2, fuel);
                        }
                    }
                } else {
                    lemma_deps_props(steps, node, k + 1, c, fuel);
                }
            },
        }
    }
}

/// Any fuel from the number of unvisited steps on gives the same search.
proof fn lemma_visit_fuel(steps: Seq<StepDef>, node: int, c: Seq<u8>, f1: nat, f2: nat)
    requires
        c.len() == steps.len(),
        0 <= node < c.len(),
        c[node] == 0,
        f1 >= whites(c),
        f2 >= whites(c),
    ensures
        visit(steps, node, c, f1) == visit(steps, node, c, f2),
    decreases f1, 1nat, 0nat,
{
    let c1 = c.update(node, 1);
    lemma_whites_shrink(c, c1, node);
    lemma_deps_fuel(steps, node, 0, c1, f1, f2);
}

proof fn lemma_deps_fuel(steps: Seq<StepDef>, node: int, k: int, c: Seq<u8>, f1: nat, f2: nat)
    requires
        c.len() == steps.len(),
        0 <= node < c.len(),
        c[node] != 0,
        0 <= k,
        f1 > whites(c),
        f2 > whites(c),
    ensures
        visit_deps(steps, node, k, c, f1) == visit_deps(steps, node, k, c, f2),
    decreases f1, 0nat, deps_of(steps[node]).len() - k,
{
    let deps = deps_of(steps[node]);
    if k < deps.len() {
        match step_index(steps, deps[k]) {
            None => lemma_deps_fuel(steps, node, k + 1, c, f1, f2),
            Some(nb) => {
                assert(0 <= nb < steps.len() && steps[nb].name@ == deps[k]) by {
                    assert(exists|j: int| 0 <= j < steps.len() && steps[j].name@ == deps[k]);
                }
                if c[nb] == 1 {
                } else if c[nb] == 0 {
                    lemma_visit_fuel(steps, nb, c, (f1 - 1) as nat, (f2 - 1) as nat);
                    let (e, c2) = visit(steps, nb, c, (f1 - 1) as nat);
                    lemma_visit_props(steps, nb, c, (f1 - 1) as nat);
                    lemma_whites_shrink(c, c2, -1);
                    if e is None {
                        lemma_deps_fuel(steps, node, k + 1, c2, f1, f2);
                    }
                } else {
                    lemma_deps_fuel(steps, node, k + 1, c, f1, f2);
                }
            },
        }
    }
}

/// There are no more unvisited entries than entries.
proof fn lemma_whites_le_len(c: Seq<u8>)
    ensures
        whites(c) <= c.len(),
    decreases c.len(),
{
    if c.len() > 0 {
        lemma_whites_le_len(c.drop_last());
    }
}

/// The colouring of a depth-first search: 0 unvisited, 1 on the current path
/// `stack`, 2 finished; finished steps only depend on finished steps, and no
/// cycle passes through a finished step.
pub open spec fn dfs_inv(steps: Seq<StepDef>, c: Seq<u8>, stack: Seq<int>) -> bool {
    &&& c.len() == steps.len()
    &&& forall|k: int| 0 <= k < c.len() ==> #[trigger] c[k] <= 2
    &&& forall|k: int| 0 <= k < c.len() ==> (c[k] == 1 <==> stack.contains(k))
    &&& forall|k: int| 0 <= k < stack.len() ==> 0 <= #[trigger] stack[k] < steps.len()
    &&& forall|k: int| 0 <= k < stack.len() - 1 ==> #[trigger] edge(steps, stack[k], stack[k + 1])
    &&& forall|u: int, v: int| #[trigger] edge(steps, u, v) && c[u] == 2 ==> c[v] == 2
    &&& forall|p: Seq<int>| #[trigger] is_walk(steps, p) && p[0] == p.last() ==> c[p[0]] != 2
}

/// A walk that starts at a finished step stays among finished steps.
proof fn lemma_walk_stays_finished(steps: Seq<StepDef>, c: Seq<u8>, p: Seq<int>, k: int)
    requires
        c.len() == steps.len(),
        forall|u: int, v: int| #[trigger] edge(steps, u, v) && c[u] == 2 ==> c[v] == 2,
        is_walk(steps, p),
        c[p[0]] == 2,
        0 <= k < p.len(),
    ensures
        c[p[k]] == 2,
    decreases k,
{
    if k > 0 {
        lemma_walk_stays_finished(steps, c, p, k - 1);
        let j = k - 1;
        assert(edge(steps, p[j], p[j + 1]));
    }
}

/// The position of the step named `name`, if any.
fn find_step(steps: &Vec<StepDef>, name: &String) -> (r: Option<usize>)
    requires
        distinct_names(steps@),
    ensures
        r is None ==> !step_names(steps@).contains(name@),
        r matches Some(j) ==> j < steps@.len() && steps@[j as int].name@ == name@,
        r matches Some(j) ==> step_index(steps@, name@) == Some(j as int),
        r is None ==> step_index(steps@, name@) is None,
{
    let mut j: usize = 0;
    while j < steps.len()
        invariant
            distinct_names(steps@),
            j <= steps@.len(),
            forall|k: int| 0 <= k < j ==> steps@[k].name@ != name@,
        decreases steps@.len() - j,
    {
        if steps[j].name == *name {
            proof {
                let q = choose|q: int| 0 <= q < steps@.len() && steps@[q].name@ == name@;
                if q != j as int {
                    assert(steps@[q].name@ != steps@[j as int].name@);
                }
            }
            return Some(j);
        }
        j = j + 1;
    }
    proof {
        if exists|q: int| 0 <= q < steps@.len() && steps@[q].name@ == name@ {
            let q = choose|q: int| 0 <= q < steps@.len() && steps@[q].name@ == name@;
            assert(steps@[q].name@ != name@);
        }
        if step_names(steps@).contains(name@) {
            let k = choose|k: int| 0 <= k < step_names(steps@).len() && step_names(steps@)[k] == name@;
            assert(steps@[k].name@ == name@);
        }
    }
    None
}

/// The message naming `name` as part of a cycle.
fn cycle_error(name: &String) -> (r: String)
    ensures
        r@ == cycle_message(name@),
{
    let mut v: Vec<char> = Vec::new();
    crate::text::push_str(&mut v, "dependency cycle detected involving step '");
    crate::text::push_str(&mut v, name.as_str());
    crate::text::push_str(&mut v, "'");
    crate::text::string_from_chars(v.as_slice())
}

/// Depth-first search from the unvisited step `node`, below the path `stack`.
fn dfs(node: usize, steps: &Vec<StepDef>, color: &mut Vec<u8>, Ghost(stack): Ghost<Seq<int>>) -> (r: Result<(), String>)
    requires
        distinct_names(steps@),
        node < steps@.len(),
        dfs_inv(steps@, old(color)@, stack),
        old(color)@[node as int] == 0,
        stack.len() > 0 ==> edge(steps@, stack.last(), node as int),
    ensures
        final(color)@.len() == old(color)@.len(),
        forall|k: int| 0 <= k < old(color)@.len() && old(color)@[k] != 0 ==> #[trigger] final(color)@[k] == old(color)@[k],
        whites(final(color)@) < whites(old(color)@),
        r is Ok ==> dfs_inv(steps@, final(color)@, stack) && final(color)@[node as int] == 2,
        r matches Err(m) ==> exists|i: int| 0 <= i < steps@.len() && on_cycle(steps@, i) && m@ == cycle_message(steps@[i].name@),
        r matches Err(m) ==> visit(steps@, node as int, old(color)@, whites(old(color)@)).0 matches Some(nm)
            && m@ == cycle_message(nm),
        r is Ok ==> visit(steps@, node as int, old(color)@, whites(old(color)@)) == (None::<Seq<char>>, final(color)@),
    decreases whites(old(color)@),
{
    let ghost c0 = color@;
    let ghost f = whites(c0);
    assert(c0 == old(color)@);
    let ghost st = stack.push(node as int);
    color.set(node, 1);
    proof {
        lemma_whites_shrink(c0, color@, node as int);
        assert forall|k: int| 0 <= k < color@.len() implies (color@[k] == 1 <==> st.contains(k)) by {
            if st.contains(k) && k != node {
                let q = choose|q: int| 0 <= q < st.len() && st[q] == k;
                assert(stack[q] == k);
            }
            if k != node && c0[k] == 1 {
                let q = choose|q: int| 0 <= q < stack.len() && stack[q] == k;
                assert(st[q] == k);
            }
            if k == node {
                assert(st[stack.len() as int] == k);
            }
        }
        assert forall|k: int| 0 <= k < st.len() - 1 implies #[trigger] edge(steps@, st[k], st[k + 1]) by {
            if k < stack.len() - 1 {
                assert(st[k] == stack[k] && st[k + 1] == stack[k + 1]);
            } else {
                assert(st[k] == stack.last());
            }
        }
        assert forall|p: Seq<int>| #[trigger] is_walk(steps@, p) && p[0] == p.last() implies color@[p[0]] != 2 by {
            assert(c0[p[0]] != 2);
            let z: int = 0;
            assert(edge(steps@, p[z], p[z + 1]));
        }
        assert forall|u: int, v: int| #[trigger] edge(steps@, u, v) && color@[u] == 2 implies color@[v] == 2 by {
            assert(c0[u] == 2);
            assert(c0[v] == 2);
        }
    }
    let deps = &steps[node].depends_on;
    let mut k: usize = 0;
    while k < deps.len()
        invariant
            distinct_names(steps@),
            node < steps@.len(),
            deps == steps@[node as int].depends_on,
            k <= deps@.len(),
            st == stack.push(node as int),
            c0 == old(color)@,
            dfs_inv(steps@, color@, st),
            color@.len() == c0.len(),
            forall|q: int| 0 <= q < c0.len() && c0[q] != 0 ==> #[trigger] color@[q] == c0[q],
            color@[node as int] == 1,
            whites(color@) < whites(c0),
            forall|q: int| 0 <= q < k ==> forall|j: int| 0 <= j < steps@.len() && steps@[j].name@ == #[trigger] deps@[q]@ ==> color@[j] == 2,
            f == whites(c0),
            visit(steps@, node as int, c0, f) == visit_deps(steps@, node as int, k as int, color@, f),
        decreases deps@.len() - k,
    {
        let ghost c1 = color@;
        match find_step(steps, &deps[k]) {
            Some(nb) => {
                proof {
                    assert(deps_of(steps@[node as int])[k as int] == deps@[k as int]@);
                    assert(edge(steps@, node as int, nb as int));
                }
                if color[nb] == 1 {
                    proof {
                        let q = choose|q: int| 0 <= q < st.len() && st[q] == nb as int;
                        let p = st.subrange(q, st.len() as int).push(nb as int);
                        assert forall|t: int| 0 <= t < p.len() - 1 implies #[trigger] edge(steps@, p[t], p[t + 1]) by {
                            if t < st.len() - q - 1 {
                                assert(p[t] == st[q + t] && p[t + 1] == st[q + t + 1]);
                            } else {
                                assert(p[t] == st.last());
                            }
                        }
                        assert(is_walk(steps@, p));
                        assert(on_cycle(steps@, nb as int));
                    }
                    return Err(cycle_error(&deps[k]));
                }
                if color[nb] == 0 {
                    proof {
                        lemma_visit_fuel(steps@, nb as int, c1, whites(c1), (f - 1) as nat);
                    }
                    match dfs(nb, steps, color, Ghost(st)) {
                        Ok(()) => {},
                        Err(e) => return Err(e),
                    }
                }
                proof {
                    assert(visit_deps(steps@, node as int, k as int, c1, f) == visit_deps(steps@, node as int, k + 1, color@, f));
                }
                proof {
                    assert forall|q: int| 0 <= q < k + 1 implies forall|j: int| 0 <= j < steps@.len()
                        && steps@[j].name@ == #[trigger] deps@[q]@ ==> color@[j] == 2 by {
                        assert forall|j: int| 0 <= j < steps@.len() && steps@[j].name@ == #[trigger] deps@[q]@ implies color@[j] == 2 by {
                            if q == k {
                                assert(j == nb);
                            } else {
                                assert(c1[j] == 2);
                            }
                        }
                    }
                }
            },
            None => {
                proof {
                    assert forall|q: int| 0 <= q < k + 1 implies forall|j: int| 0 <= j < steps@.len()
                        && steps@[j].name@ == #[trigger] deps@[q]@ ==> color@[j] == 2 by {
                        assert forall|j: int| 0 <= j < steps@.len() && steps@[j].name@ == #[trigger] deps@[q]@ implies color@[j] == 2 by {
                            if q == k {
                                assert(step_names(steps@)[j] == steps@[j].name@);
                            }
                        }
                    }
                }
            },
        }
        k = k + 1;
    }
    let ghost c2 = color@;
    color.set(node, 2);
    proof {
        assert forall|v: int| #[trigger] edge(steps@, node as int, v) implies c2[v] == 2 by {
            let q = choose|q: int| 0 <= q < deps_of(steps@[node as int]).len() && deps_of(steps@[node as int])[q] == steps@[v].name@;
            assert(deps@[q]@ == steps@[v].name@);
        }
        assert forall|k2: int| 0 <= k2 < color@.len() implies (color@[k2] == 1 <==> stack.contains(k2)) by {
            if k2 != node {
                assert(color@[k2] == c2[k2]);
                if st.contains(k2) {
                    let q = choose|q: int| 0 <= q < st.len() && st[q] == k2;
                    assert(q < stack.len());
                    assert(stack[q] == k2);
                }
                if stack.contains(k2) {
                    let q = choose|q: int| 0 <= q < stack.len() && stack[q] == k2;
                    assert(st[q] == k2);
                }
            } else {
                if stack.contains(k2) {
                    let q = choose|q: int| 0 <= q < stack.len() && stack[q] == k2;
                    assert(st[q] == k2);
                    assert(c0[k2] == 1);
                }
            }
        }
        assert forall|u: int, v: int| #[trigger] edge(steps@, u, v) && color@[u] == 2 implies color@[v] == 2 by {
            if u == node {
                assert(c2[v] == 2);
            } else {
                assert(c2[u] == 2);
            }
        }
        assert forall|p: Seq<int>| #[trigger] is_walk(steps@, p) && p[0] == p.last() implies color@[p[0]] != 2 by {
            if p[0] == node {
                let z: int = 0;
                assert(edge(steps@, p[z], p[z + 1]));
                assert(edge(steps@, node as int, p[z + 1]));
                assert(c2[p[1]] == 2);
                let p1 = p.subrange(1, p.len() as int);
                if p1.len() >= 2 {
                    assert forall|t: int| 0 <= t < p1.len() - 1 implies #[trigger] edge(steps@, p1[t], p1[t + 1]) by {
                        let j = t + 1;
                        assert(edge(steps@, p[j], p[j + 1]));
                        assert(p1[t] == p[j] && p1[t + 1] == p[j + 1]);
                    }
                    assert(p1[0] == p[1]);
                    lemma_walk_stays_finished(steps@, c2, p1, p1.len() - 1);
                    assert(p1[p1.len() - 1] == p.last());
                    assert(c2[node as int] == 1);
                } else {
                    assert(p.last() == p[1]);
                    assert(c2[node as int] == 1);
                }
            } else {
                let z: int = 0;
                assert(edge(steps@, p[z], p[z + 1]));
                assert(c2[p[0]] != 2);
                assert(color@[p[0]] == c2[p[0]]);
            }
        }
        assert forall|q: int| 0 <= q < c0.len() && c0[q] != 0 implies #[trigger] color@[q] == c0[q] by {
            if q != node {
                assert(c2[q] == c0[q]);
            }
        }
        lemma_whites_shrink(c2, color@, -1);
    }
    Ok(())
}

/// `Err` naming a step of a dependency cycle when the steps have one.
fn detect_cycle(steps: &Vec<StepDef>) -> (r: Result<(), String>)
    requires
        distinct_names(steps@),
    ensures
        r is Ok <==> !has_cycle(steps@),
        r matches Err(m) ==> exists|i: int| 0 <= i < steps@.len() && on_cycle(steps@, i) && m@ == cycle_message(steps@[i].name@),
        r matches Err(m) ==> cycle_step(steps@) matches Some(nm) && m@ == cycle_message(nm),
        r is Ok ==> cycle_step(steps@) is None,
{
    let n = steps.len();
    let mut color: Vec<u8> = Vec::new();
    let mut m: usize = 0;
    while m < n
        invariant
            m <= n == steps@.len(),
            color@.len() == m,
            forall|k: int| 0 <= k < m ==> #[trigger] color@[k] == 0,
        decreases n - m,
    {
        color.push(0);
        m = m + 1;
    }
    proof {
        assert forall|p: Seq<int>| #[trigger] is_walk(steps@, p) && p[0] == p.last() implies color@[p[0]] != 2 by {
            let z: int = 0;
            assert(edge(steps@, p[z], p[z + 1]));
        }
    }
    proof {
        assert(color@ =~= Seq::new(n as nat, |k: int| 0u8));
    }
    let mut i: usize = 0;
    while i < n
        invariant
            distinct_names(steps@),
            i <= n == steps@.len(),
            dfs_inv(steps@, color@, Seq::<int>::empty()),
            forall|j: int| 0 <= j < i ==> #[trigger] color@[j] == 2,
            cycle_step(steps@) == visit_all(steps@, i as int, color@),
        decreases n - i,
    {
        if color[i] == 0 {
            let ghost c1 = color@;
            proof {
                lemma_whites_le_len(c1);
                lemma_visit_fuel(steps@, i as int, c1, whites(c1), n as nat);
            }
            match dfs(i, steps, &mut color, Ghost(Seq::<int>::empty())) {
                Ok(()) => {
                    proof {
                        assert forall|j: int| 0 <= j < i + 1 implies #[trigger] color@[j] == 2 by {
                            if j < i {
                                assert(c1[j] == 2);
                            }
                        }
                    }
                },
                Err(e) => return Err(e),
            }
        }
        i = i + 1;
    }
    proof {
        assert forall|k: int| 0 <= k < steps@.len() implies !#[trigger] on_cycle(steps@, k) by {
            if on_cycle(steps@, k) {
                let p = choose|p: Seq<int>| #[trigger] is_walk(steps@, p) && p[0] == k && p.last() == k;
                assert(color@[k] == 2);
            }
        }
    }
    Ok(())
}

// ── Validation ──────────────────────────────────────────────────────────────

/// Characters allowed in workflow names: alphanumerics, `-` and `_`.
pub open spec fn name_char(c: char) -> bool {
    alphanumeric(c) || c == '-' || c == '_'
}

/// Whether every character of `s` is allowed in a name.
pub open spec fn good_name(s: Seq<char>) -> bool {
    forall|i: int| 0 <= i < s.len() ==> name_char(#[trigger] s[i])
}

/// The first `i` in `from..n` with `p(i)`.
pub open spec fn first_where(n: int, p: spec_fn(int) -> bool, from: int) -> Option<int>
    decreases n - from,
{
    if from >= n {
        None
    } else if p(from) {
        Some(from)
    } else {
        first_where(n, p, from + 1)
    }
}

/// Step `i` is unnamed or repeats an earlier name.
pub open spec fn bad_step_name(names: Seq<Seq<char>>, i: int) -> bool {
    names[i].len() == 0 || names.take(i).contains(names[i])
}

/// The first dependency of step `i` that names no step.
pub open spec fn unknown_dep(steps: Seq<StepDef>, i: int) -> Option<int> {
    first_where(deps_of(steps[i]).len() as int, |j: int| !step_names(steps).contains(deps_of(steps[i])[j]), 0)
}

/// Whether a sub-workflow reference is malformed.
pub open spec fn bad_sub(s: StepDef) -> bool {
    s.sub_workflow matches Some(sw) && (sw@.len() == 0 || !good_name(sw@))
}

/// Whether a condition refers to no step.
pub open spec fn bad_condition(steps: Seq<StepDef>, i: int) -> bool {
    steps[i].condition matches Some(c) && !step_names(steps).contains(c.on_step@)
}

/// `"step '" + name + rest`.
pub open spec fn step_msg(name: Seq<char>, rest: Seq<char>) -> Seq<char> {
    "step '"@ + name + rest
}

/// The complaint about the first rule that `def` breaks, cycles aside: the
/// workflow name, the step names, dependencies, attempt counts, timeouts,
/// sub-workflow references and conditions, checked in that order.
pub open spec fn validation_fault(def: WorkflowDef) -> Option<Seq<char>> {
    let steps = def.steps@;
    let names = step_names(steps);
    let n = steps.len() as int;
    let dup = first_where(n, |i: int| bad_step_name(names, i), 0);
    let unknown = first_where(n, |i: int| unknown_dep(steps, i) is Some, 0);
    let attempts = first_where(n, |i: int| steps[i].max_attempts < 1, 0);
    let timeout = first_where(n, |i: int| steps[i].timeout_ms == Some(0u64), 0);
    let sub = first_where(n, |i: int| bad_sub(steps[i]), 0);
    let cond = first_where(n, |i: int| bad_condition(steps, i), 0);
    if def.name@.len() == 0 {
        Some("name must not be empty"@)
    } else if !good_name(def.name@) {
        Some("name '"@ + def.name@ + "' contains invalid characters (only alphanumeric, '-', '_' allowed)"@)
    } else if n == 0 {
        Some("workflow must have at least one step"@)
    } else if dup is Some {
        if names[dup.unwrap()].len() == 0 {
            Some("step name must not be empty"@)
        } else {
            Some("duplicate step name '"@ + names[dup.unwrap()] + "'"@)
        }
    } else if unknown is Some {
        let i = unknown.unwrap();
        Some(step_msg(names[i], "' depends on unknown step '"@ + deps_of(steps[i])[unknown_dep(steps, i).unwrap()] + "'"@))
    } else if attempts is Some {
        Some(step_msg(names[attempts.unwrap()], "' max_attempts must be >= 1"@))
    } else if timeout is Some {
        Some(step_msg(names[timeout.unwrap()], "' timeout_ms must be > 0"@))
    } else if def.timeout_ms == Some(0u64) {
        Some("timeout_ms must be > 0"@)
    } else if sub is Some {
        let i = sub.unwrap();
        let sw = steps[i].sub_workflow.unwrap()@;
        if sw.len() == 0 {
            Some(step_msg(names[i], "' sub_workflow must not be empty"@))
        } else {
            Some(step_msg(names[i], "' sub_workflow '"@ + sw + "' contains invalid characters"@))
        }
    } else if cond is Some {
        let i = cond.unwrap();
        Some(step_msg(names[i], "' condition references unknown step '"@ + steps[i].condition.unwrap().on_step@ + "'"@))
    } else {
        None
    }
}

proof fn lemma_first_where_none(n: int, p: spec_fn(int) -> bool, from: int)
    requires
        first_where(n, p, from) is None,
    ensures
        forall|i: int| from <= i < n ==> !#[trigger] p(i),
    decreases n - from,
{
    if from < n {
        lemma_first_where_none(n, p, from + 1);
    }
}

/// `a`, `x` and `b` one after the other.
fn join3(a: &str, x: &str, b: &str) -> (r: String)
    ensures
        r@ == a@ + x@ + b@,
{
    let mut v: Vec<char> = Vec::new();
    crate::text::push_str(&mut v, a);
    crate::text::push_str(&mut v, x);
    crate::text::push_str(&mut v, b);
    crate::text::string_from_chars(v.as_slice())
}

/// `a`, `x`, `b`, `y` and `c` one after the other.
fn join5(a: &str, x: &str, b: &str, y: &str, c: &str) -> (r: String)
    ensures
        r@ == a@ + x@ + b@ + y@ + c@,
{
    let mut v: Vec<char> = Vec::new();
    crate::text::push_str(&mut v, a);
    crate::text::push_str(&mut v, x);
    crate::text::push_str(&mut v, b);
    crate::text::push_str(&mut v, y);
    crate::text::push_str(&mut v, c);
    crate::text::string_from_chars(v.as_slice())
}

/// Whether every character of `s` is allowed in a name.
fn is_good_name(s: &str) -> (r: bool)
    ensures
        r == good_name(s@),
{
    let v = crate::text::chars_of(s);
    let mut i: usize = 0;
    while i < v.len()
        invariant
            v@ == s@,
            i <= v@.len(),
            forall|k: int| 0 <= k < i ==> name_char(#[trigger] v@[k]),
        decreases v@.len() - i,
    {
        let c = v[i];
        if !(crate::text::is_alphanumeric(c) || c == '-' || c == '_') {
            return false;
        }
        i = i + 1;
    }
    true
}

/// Whether some step is named `name`.
fn names_contain(steps: &Vec<StepDef>, name: &String) -> (r: bool)
    ensures
        r == step_names(steps@).contains(name@),
{
    let mut j: usize = 0;
    while j < steps.len()
        invariant
            j <= steps@.len(),
            forall|k: int| 0 <= k < j ==> steps@[k].name@ != name@,
        decreases steps@.len() - j,
    {
        if steps[j].name == *name {
            proof {
                assert(step_names(steps@)[j as int] == name@);
            }
            return true;
        }
        j = j + 1;
    }
    proof {
        if step_names(steps@).contains(name@) {
            let k = choose|k: int| 0 <= k < step_names(steps@).len() && step_names(steps@)[k] == name@;
            assert(steps@[k].name@ == name@);
        }
    }
    false
}

/// Whether a step before `i` has the name of step `i`.
fn name_seen_before(steps: &Vec<StepDef>, i: usize) -> (r: bool)
    requires
        i < steps@.len(),
    ensures
        r == step_names(steps@).take(i as int).contains(step_names(steps@)[i as int]),
{
    let ghost pre = step_names(steps@).take(i as int);
    let mut j: usize = 0;
    while j < i
        invariant
            i < steps@.len(),
            j <= i,
            pre == step_names(steps@).take(i as int),
            forall|k: int| 0 <= k < j ==> steps@[k].name@ != steps@[i as int].name@,
        decreases i - j,
    {
        if steps[j].name == steps[i].name {
            proof {
                assert(pre[j as int] == steps@[i as int].name@);
            }
            return true;
        }
        j = j + 1;
    }
    proof {
        if pre.contains(step_names(steps@)[i as int]) {
            let k = choose|k: int| 0 <= k < pre.len() && pre[k] == step_names(steps@)[i as int];
            assert(steps@[k].name@ == steps@[i as int].name@);
        }
    }
    false
}

/// The first dependency of step `i` that names no step.
fn find_unknown_dep(steps: &Vec<StepDef>, i: usize) -> (r: Option<usize>)
    requires
        i < steps@.len(),
    ensures
        r is None <==> unknown_dep(steps@, i as int) is None,
        r matches Some(j) ==> unknown_dep(steps@, i as int) == Some(j as int) && j < steps@[i as int].depends_on@.len(),
{
    let deps = &steps[i].depends_on;
    let ghost p = |j: int| !step_names(steps@).contains(deps_of(steps@[i as int])[j]);
    let ghost n = deps_of(steps@[i as int]).len() as int;
    let mut j: usize = 0;
    while j < deps.len()
        invariant
            i < steps@.len(),
            deps == steps@[i as int].depends_on,
            n == deps@.len(),
            j <= deps@.len(),
            p == (|j: int| !step_names(steps@).contains(deps_of(steps@[i as int])[j])),
            first_where(n, p, 0) == first_where(n, p, j as int),
        decreases deps@.len() - j,
    {
        let known = names_contain(steps, &deps[j]);
        proof {
            assert(deps_of(steps@[i as int])[j as int] == deps@[j as int]@);
        }
        if !known {
            return Some(j);
        }
        j = j + 1;
    }
    None
}

/// Validate a workflow definition: `Err` with the complaint about the first
/// rule broken, or naming the step at which the dependency search first meets
/// a step on its current path (see `cycle_step`).
pub fn validate_workflow(def: &WorkflowDef) -> (r: Result<(), String>)
    ensures
        validation_fault(*def) matches Some(m) ==> (r matches Err(e) && e@ == m),
        validation_fault(*def) is None && !has_cycle(def.steps@) ==> r is Ok,
        validation_fault(*def) is None && has_cycle(def.steps@) ==> (r matches Err(e)
            && exists|i: int| 0 <= i < def.steps@.len() && on_cycle(def.steps@, i) && e@ == cycle_message(def.steps@[i].name@)),
        validation_fault(*def) is None && has_cycle(def.steps@) ==> (r matches Err(e)
            && cycle_step(def.steps@) matches Some(nm) && e@ == cycle_message(nm)),
{
    let steps = &def.steps;
    let ghost sv = steps@;
    let ghost names = step_names(sv);
    let n = steps.len();
    if def.name.as_str().unicode_len() == 0 {
        return Err(crate::text::owned("name must not be empty"));
    }
    if !is_good_name(def.name.as_str()) {
        return Err(join3("name '", def.name.as_str(), "' contains invalid characters (only alphanumeric, '-', '_' allowed)"));
    }
    if n == 0 {
        return Err(crate::text::owned("workflow must have at least one step"));
    }
    proof {
        assert(def.name@.len() != 0);
    }

    let ghost p_dup = |i: int| bad_step_name(names, i);
    let mut i: usize = 0;
    while i < n
        invariant
            steps == def.steps,
            sv == steps@,
            names == step_names(sv),
            n == sv.len(),
            i <= n,
            def.name@.len() != 0,
            good_name(def.name@),
            n > 0,
            p_dup == (|i: int| bad_step_name(names, i)),
            first_where(n as int, p_dup, 0) == first_where(n as int, p_dup, i as int),
        decreases n - i,
    {
        if steps[i].name.as_str().unicode_len() == 0 {
            proof {
                assert(names[i as int].len() == 0);
            }
            return Err(crate::text::owned("step name must not be empty"));
        }
        if name_seen_before(steps, i) {
            return Err(join3("duplicate step name '", steps[i].name.as_str(), "'"));
        }
        i = i + 1;
    }
    let ghost p_unk = |i: int| unknown_dep(sv, i) is Some;
    let mut i: usize = 0;
    while i < n
        invariant
            steps == def.steps,
            sv == steps@,
            names == step_names(sv),
            n == sv.len(),
            i <= n,
            def.name@.len() != 0,
            good_name(def.name@),
            n > 0,
            p_dup == (|i: int| bad_step_name(names, i)),
            first_where(n as int, p_dup, 0) is None,
            p_unk == (|i: int| unknown_dep(sv, i) is Some),
            first_where(n as int, p_unk, 0) == first_where(n as int, p_unk, i as int),
        decreases n - i,
    {
        match find_unknown_dep(steps, i) {
            Some(j) => {
                let r = join5("step '", steps[i].name.as_str(), "' depends on unknown step '",
                    steps[i].depends_on[j].as_str(), "'");
                proof {
                    assert(deps_of(sv[i as int])[j as int] == sv[i as int].depends_on@[j as int]@);
                    assert(r@ =~= step_msg(names[i as int], "' depends on unknown step '"@
                        + deps_of(sv[i as int])[j as int] + "'"@));
                }
                return Err(r);
            },
            None => {},
        }
        i = i + 1;
    }

    let ghost p_att = |i: int| sv[i].max_attempts < 1;
    let mut i: usize = 0;
    while i < n
        invariant
            steps == def.steps,
            sv == steps@,
            names == step_names(sv),
            n == sv.len(),
            i <= n,
            def.name@.len() != 0,
            good_name(def.name@),
            n > 0,
            p_dup == (|i: int| bad_step_name(names, i)),
            first_where(n as int, p_dup, 0) is None,
            p_unk == (|i: int| unknown_dep(sv, i) is Some),
            first_where(n as int, p_unk, 0) is None,
            p_att == (|i: int| sv[i].max_attempts < 1),
            first_where(n as int, p_att, 0) == first_where(n as int, p_att, i as int),
        decreases n - i,
    {
        if steps[i].max_attempts < 1 {
            return Err(join3("step '", steps[i].name.as_str(), "' max_attempts must be >= 1"));
        }
        i = i + 1;
    }

    let ghost p_to = |i: int| sv[i].timeout_ms == Some(0u64);
    let mut i: usize = 0;
    while i < n
        invariant
            steps == def.steps,
            sv == steps@,
            names == step_names(sv),
            n == sv.len(),
            i <= n,
            def.name@.len() != 0,
            good_name(def.name@),
            n > 0,
            p_dup == (|i: int| bad_step_name(names, i)),
            first_where(n as int, p_dup, 0) is None,
            p_unk == (|i: int| unknown_dep(sv, i) is Some),
            first_where(n as int, p_unk, 0) is None,
            p_att == (|i: int| sv[i].max_attempts < 1),
            first_where(n as int, p_att, 0) is None,
            p_to == (|i: int| sv[i].timeout_ms == Some(0u64)),
            first_where(n as int, p_to, 0) == first_where(n as int, p_to, i as int),
        decreases n - i,
    {
        if steps[i].timeout_ms == Some(0u64) {
            return Err(join3("step '", steps[i].name.as_str(), "' timeout_ms must be > 0"));
        }
        i = i + 1;
    }

    if def.timeout_ms == Some(0u64) {
        return Err(crate::text::owned("timeout_ms must be > 0"));
    }

    let ghost p_sub = |i: int| bad_sub(sv[i]);
    let mut i: usize = 0;
    while i < n
        invariant
            steps == def.steps,
            sv == steps@,
            names == step_names(sv),
            n == sv.len(),
            i <= n,
            def.name@.len() != 0,
            good_name(def.name@),
            n > 0,
            p_dup == (|i: int| bad_step_name(names, i)),
            first_where(n as int, p_dup, 0) is None,
            p_unk == (|i: int| unknown_dep(sv, i) is Some),
            first_where(n as int, p_unk, 0) is None,
            p_att == (|i: int| sv[i].max_attempts < 1),
            first_where(n as int, p_att, 0) is None,
            p_to == (|i: int| sv[i].timeout_ms == Some(0u64)),
            first_where(n as int, p_to, 0) is None,
            def.timeout_ms != Some(0u64),
            p_sub == (|i: int| bad_sub(sv[i])),
            first_where(n as int, p_sub, 0) == first_where(n as int, p_sub, i as int),
        decreases n - i,
    {
        match &steps[i].sub_workflow {
            Some(sw) => {
                if sw.as_str().unicode_len() == 0 {
                    return Err(join3("step '", steps[i].name.as_str(), "' sub_workflow must not be empty"));
                }
                if !is_good_name(sw.as_str()) {
                    let r = join5("step '", steps[i].name.as_str(), "' sub_workflow '", sw.as_str(),
                        "' contains invalid characters");
                    proof {
                        assert(r@ =~= step_msg(names[i as int], "' sub_workflow '"@ + sw@ + "' contains invalid characters"@));
                    }
                    return Err(r);
                }
            },
            None => {},
        }
        i = i + 1;
    }

    let ghost p_cond = |i: int| bad_condition(sv, i);
    let mut i: usize = 0;
    while i < n
        invariant
            steps == def.steps,
            sv == steps@,
            names == step_names(sv),
            n == sv.len(),
            i <= n,
            def.name@.len() != 0,
            good_name(def.name@),
            n > 0,
            p_dup == (|i: int| bad_step_name(names, i)),
            first_where(n as int, p_dup, 0) is None,
            p_unk == (|i: int| unknown_dep(sv, i) is Some),
            first_where(n as int, p_unk, 0) is None,
            p_att == (|i: int| sv[i].max_attempts < 1),
            first_where(n as int, p_att, 0) is None,
            p_to == (|i: int| sv[i].timeout_ms == Some(0u64)),
            first_where(n as int, p_to, 0) is None,
            def.timeout_ms != Some(0u64),
            p_sub == (|i: int| bad_sub(sv[i])),
            first_where(n as int, p_sub, 0) is None,
            p_cond == (|i: int| bad_condition(sv, i)),
            first_where(n as int, p_cond, 0) == first_where(n as int, p_cond, i as int),
        decreases n - i,
    {
        match &steps[i].condition {
            Some(c) => {
                if !names_contain(steps, &c.on_step) {
                    let r = join5("step '", steps[i].name.as_str(), "' condition references unknown step '",
                        c.on_step.as_str(), "'");
                    proof {
                        assert(r@ =~= step_msg(names[i as int], "' condition references unknown step '"@ + c.on_step@ + "'"@));
                    }
                    return Err(r);
                }
            },
            None => {},
        }
        i = i + 1;
    }

    proof {
        lemma_first_where_none(n as int, p_dup, 0);
        assert forall|a: int, b: int| 0 <= a < sv.len() && 0 <= b < sv.len() && a != b
            implies #[trigger] sv[a].name@ != #[trigger] sv[b].name@ by {
            if a < b {
                assert(!p_dup(b));
                assert(names.take(b)[a] == names[a]);
            } else {
                assert(!p_dup(a));
                assert(names.take(a)[b] == names[b]);
            }
        }
        assert(validation_fault(*def) is None);
    }
    detect_cycle(steps)
}

// ── Content types ───────────────────────────────────────────────────────────

/// The part of `s` before its first `;` (all of `s` when it has none).
pub open spec fn before_semicolon(s: Seq<char>) -> Seq<char> {
    match crate::strings::first_index(s, ';') {
        Some(i) => s.take(i),
        None => s,
    }
}

/// Whether a content-type header names YAML: its media type, trimmed, is
/// `application/yaml`, `application/x-yaml`, `text/yaml` or `text/x-yaml`.
pub open spec fn yaml_type(ct: Seq<char>) -> bool {
    let t = trim(before_semicolon(ct));
    t == "application/yaml"@ || t == "application/x-yaml"@ || t == "text/yaml"@ || t == "text/x-yaml"@
}

/// Whether `v` holds exactly the characters of `s`.
fn chars_eq(v: &Vec<char>, s: &str) -> (r: bool)
    ensures
        r == (v@ == s@),
{
    let w = crate::text::chars_of(s);
    if v.len() != w.len() {
        return false;
    }
    let mut i: usize = 0;
    while i < v.len()
        invariant
            w@ == s@,
            v@.len() == w@.len(),
            i <= v@.len(),
            forall|k: int| 0 <= k < i ==> v@[k] == w@[k],
        decreases v@.len() - i,
    {
        if v[i] != w[i] {
            return false;
        }
        i = i + 1;
    }
    assert(v@ =~= w@);
    true
}

/// Whether the content-type header `content_type` names YAML.
pub fn is_yaml_content_type(content_type: &str) -> (r: bool)
    ensures
        r == yaml_type(content_type@),
{
    let v = crate::text::chars_of(content_type);
    let head = match crate::strings::find_char(&v, ';') {
        Some(i) => crate::text::slice_vec(&v, 0, i),
        None => v,
    };
    proof {
        assert(head@ =~= before_semicolon(content_type@));
    }
    let t = crate::text::trim_chars(&head);
    chars_eq(&t, "application/yaml") || chars_eq(&t, "application/x-yaml") || chars_eq(&t, "text/yaml")
        || chars_eq(&t, "text/x-yaml")
}

// ── Server-sent events ──────────────────────────────────────────────────────

/// An event pushed to server-sent-event clients.
#[derive(Debug, Clone)]
pub struct SseEvent {
    pub kind: String,
    pub run_id: String,
    pub wf_name: Option<String>,
    pub step: Option<String>,
    pub state: String,
    pub ts_ms: u64,
    pub seq: u64,
}

/// How many events the ring keeps.
pub const SSE_RING_CAPACITY: usize = 200;

/// The most recent events, oldest first, and the last sequence number given.
pub struct SseRing {
    pub events: Vec<SseEvent>,
    pub seq: u64,
}

impl SseRing {
    /// At most `SSE_RING_CAPACITY` events are kept, in increasing sequence
    /// order, none above the last sequence number given.
    pub open spec fn wf(&self) -> bool {
        &&& self.events@.len() <= SSE_RING_CAPACITY
        &&& forall|i: int, j: int| 0 <= i < j < self.events@.len() ==> #[trigger] self.events@[i].seq < #[trigger] self.events@[j].seq
        &&& forall|i: int| 0 <= i < self.events@.len() ==> #[trigger] self.events@[i].seq <= self.seq
    }

    /// An empty ring at sequence 0.
    pub fn new() -> (r: Self)
        ensures
            r.wf(),
            r.events@.len() == 0,
            r.seq == 0,
    {
        SseRing { events: Vec::new(), seq: 0 }
    }
}

/// Append an event with the next sequence number, dropping the oldest one
/// when the ring is full.
pub fn sse_push(ring: &mut SseRing, kind: &str, run_id: &str, wf_name: Option<&str>, step: Option<&str>, state: &str, ts_ms: u64)
    requires
        old(ring).wf(),
        old(ring).seq < u64::MAX,
    ensures
        final(ring).wf(),
        final(ring).seq == old(ring).seq + 1,
        final(ring).events@.drop_last() == if old(ring).events@.len() >= SSE_RING_CAPACITY {
            old(ring).events@.drop_first()
        } else {
            old(ring).events@
        },
        final(ring).events@.len() >= 1,
        ({
            let e = final(ring).events@.last();
            &&& e.kind@ == kind@ && e.run_id@ == run_id@ && e.state@ == state@
            &&& crate::text::opt_view(e.wf_name) == crate::text::opt_str_view(wf_name)
            &&& crate::text::opt_view(e.step) == crate::text::opt_str_view(step)
            &&& e.ts_ms == ts_ms && e.seq == old(ring).seq + 1
        }),
{
    ring.seq = ring.seq + 1;
    let ev = SseEvent {
        kind: crate::text::owned(kind),
        run_id: crate::text::owned(run_id),
        wf_name: match wf_name {
            Some(w) => Some(crate::text::owned(w)),
            None => None,
        },
        step: match step {
            Some(x) => Some(crate::text::owned(x)),
            None => None,
        },
        state: crate::text::owned(state),
        ts_ms,
        seq: ring.seq,
    };
    if ring.events.len() >= SSE_RING_CAPACITY {
        ring.events.remove(0);
    }
    let ghost before = ring.events@;
    proof {
        assert forall|i: int| 0 <= i < before.len() implies #[trigger] before[i].seq < ring.seq by {
            if old(ring).events@.len() >= SSE_RING_CAPACITY {
                assert(before[i] == old(ring).events@[i + 1]);
            } else {
                assert(before[i] == old(ring).events@[i]);
            }
        }
        assert forall|i: int, j: int| 0 <= i < j < before.len() implies #[trigger] before[i].seq < #[trigger] before[j].seq by {
            if old(ring).events@.len() >= SSE_RING_CAPACITY {
                assert(before[i] == old(ring).events@[i + 1]);
                assert(before[j] == old(ring).events@[j + 1]);
            } else {
                assert(before[i] == old(ring).events@[i]);
                assert(before[j] == old(ring).events@[j]);
            }
        }
    }
    ring.events.push(ev);
    proof {
        assert(ring.events@.drop_last() =~= before);
        assert forall|i: int, j: int| 0 <= i < j < ring.events@.len() implies #[trigger] ring.events@[i].seq < #[trigger] ring.events@[j].seq by {
            assert(ring.events@[i] == before[i]);
            if j < before.len() {
                assert(ring.events@[j] == before[j]);
            }
        }
        assert forall|i: int| 0 <= i < ring.events@.len() implies #[trigger] ring.events@[i].seq <= ring.seq by {
            if i < before.len() {
                assert(ring.events@[i] == before[i]);
            }
        }
    }
}

/// Whether two events hold the same values.
pub open spec fn same_event(a: SseEvent, b: SseEvent) -> bool {
    a.kind == b.kind && a.run_id == b.run_id && a.wf_name == b.wf_name && a.step == b.step
        && a.state == b.state && a.ts_ms == b.ts_ms && a.seq == b.seq
}

/// Copies of the kept events with a sequence number above `since`, oldest first.
pub fn events_since(ring: &SseRing, since: u64) -> (r: Vec<SseEvent>)
    ensures
        r@.len() == ring.events@.filter(|e: SseEvent| e.seq > since).len(),
        forall|i: int| 0 <= i < r@.len() ==> same_event(#[trigger] r@[i], ring.events@.filter(|e: SseEvent| e.seq > since)[i]),
{
    let ghost p = |e: SseEvent| e.seq > since;
    let mut out: Vec<SseEvent> = Vec::new();
    let mut i: usize = 0;
    proof {
        reveal(Seq::filter);
        assert(ring.events@.take(0) =~= Seq::<SseEvent>::empty());
    }
    while i < ring.events.len()
        invariant
            i <= ring.events@.len(),
            p == (|e: SseEvent| e.seq > since),
            out@.len() == ring.events@.take(i as int).filter(p).len(),
            forall|k: int| 0 <= k < out@.len() ==> same_event(#[trigger] out@[k], ring.events@.take(i as int).filter(p)[k]),
        decreases ring.events@.len() - i,
    {
        proof {
            assert(ring.events@.take(i + 1) =~= ring.events@.take(i as int).push(ring.events@[i as int]));
            ring.events@.take(i as int).lemma_filter_push(ring.events@[i as int], p);
        }
        let e = &ring.events[i];
        if e.seq > since {
            let c = SseEvent {
                kind: e.kind.clone(),
                run_id: e.run_id.clone(),
                wf_name: crate::text::copy_opt_string(&e.wf_name),
                step: crate::text::copy_opt_string(&e.step),
                state: e.state.clone(),
                ts_ms: e.ts_ms,
                seq: e.seq,
            };
            out.push(c);
        }
        i = i + 1;
    }
    proof {
        assert(ring.events@.take(ring.events@.len() as int) =~= ring.events@);
    }
    out
}

/// One event in `text/event-stream` form: its sequence number as the id and
/// its JSON as the data.
pub fn sse_frame(seq: u64, json: &str) -> (r: String)
    ensures
        r@ == "id: "@ + crate::text::dec(seq as nat) + "\ndata: "@ + json@ + "\n\n"@,
{
    let mut v: Vec<char> = Vec::new();
    crate::text::push_str(&mut v, "id: ");
    let d = crate::text::u64_to_dec(seq);
    crate::text::push_chars(&mut v, &d);
    crate::text::push_str(&mut v, "\ndata: ");
    crate::text::push_str(&mut v, json);
    crate::text::push_str(&mut v, "\n\n");
    crate::text::string_from_chars(v.as_slice())
}

} // verus!

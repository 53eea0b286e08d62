//! Properties of the renderer, stated over the rendering model and proved
//! once for all graphs.

use vstd::prelude::*;

use crate::graph::ModuleModel;
use crate::graph::ReasonModel;
use crate::graph::contains_id;
use crate::graph::find_first;
use crate::graph::lemma_find_first_props;
use crate::render::EntryModel;
use crate::render::entries_for_module;
use crate::render::entries_for_reason;
use crate::render::entries_for_reasons;
use crate::render::lemma_off_path_count_push_lt;
use crate::render::off_path_count;

verus! {

/// Each reason edge is rendered exactly once and in its place: the entries
/// for a list of reasons are the entries of its parts, in order, so a module
/// reachable along two distinct reason chains is rendered once per chain.
pub proof fn lemma_reasons_render_once(
    ms: Seq<ModuleModel>,
    rs1: Seq<ReasonModel>,
    rs2: Seq<ReasonModel>,
    path: Seq<Seq<char>>,
    level: int,
)
    ensures
        entries_for_reasons(ms, rs1 + rs2, path, level) == entries_for_reasons(
            ms,
            rs1,
            path,
            level,
        ) + entries_for_reasons(ms, rs2, path, level),
    decreases rs2.len(),
{
    if rs2.len() == 0 {
        assert(rs1 + rs2 =~= rs1);
        assert(entries_for_reasons(ms, rs1, path, level) + entries_for_reasons(
            ms,
            rs2,
            path,
            level,
        ) =~= entries_for_reasons(ms, rs1, path, level));
    } else {
        lemma_reasons_render_once(ms, rs1, rs2.drop_last(), path, level);
        assert((rs1 + rs2).drop_last() =~= rs1 + rs2.drop_last());
        assert((rs1 + rs2).last() == rs2.last());
        let a = entries_for_reasons(ms, rs1, path, level);
        let b = entries_for_reasons(ms, rs2.drop_last(), path, level);
        let c = entries_for_reason(ms, rs2.last(), path, level);
        assert((a + b) + c =~= a + (b + c));
    }
}

/// A module that already lies on its own ancestor path renders as its entry
/// followed by exactly one circular-dependency marker, and the branch stops
/// there: nothing below it is visited.
pub proof fn lemma_cycle_branch_stops(
    ms: Seq<ModuleModel>,
    m: ModuleModel,
    path: Seq<Seq<char>>,
    level: int,
)
    requires
        contains_id(ms, m.id),
        path.contains(m.id),
    ensures
        entries_for_module(ms, m, path, level) == seq![
            EntryModel::Visited { level, name: m.name, id: m.id },
            EntryModel::Cycle { level: level + 2 },
        ],
{
}

/// A reason without a module reference renders as one end-of-chain marker and
/// nothing else: it never recurses, whatever the request string says.
pub proof fn lemma_reason_without_module_is_end(
    ms: Seq<ModuleModel>,
    user_request: Option<Seq<char>>,
    path: Seq<Seq<char>>,
    level: int,
)
    ensures
        entries_for_reason(
            ms,
            ReasonModel { module_id: None, user_request },
            path,
            level,
        ) == seq![EntryModel::End { level: level + 2 }],
{
}

/// A reason whose module id the graph does not hold renders exactly as a
/// reason with no module reference at all: a dangling reference is a
/// boundary, not an error.
pub proof fn lemma_dangling_reason_like_none(
    ms: Seq<ModuleModel>,
    id: Seq<char>,
    user_request: Option<Seq<char>>,
    other_request: Option<Seq<char>>,
    path: Seq<Seq<char>>,
    level: int,
)
    requires
        !contains_id(ms, id),
    ensures
        entries_for_reason(
            ms,
            ReasonModel { module_id: Some(id), user_request },
            path,
            level,
        ) == entries_for_reason(
            ms,
            ReasonModel { module_id: None, user_request: other_request },
            path,
            level,
        ),
{
    lemma_find_first_props(ms, id);
}

/// An acyclicity certificate: a rank on module ids that strictly falls along
/// every reason edge that resolves within the graph.
pub open spec fn ranked_acyclic(ms: Seq<ModuleModel>, rank: Map<Seq<char>, nat>) -> bool {
    forall|i: int, j: int|
        0 <= i < ms.len() && 0 <= j < ms[i].reasons.len() && (#[trigger] ms[i].reasons[j]).module_id
            is Some ==> (contains_id(ms, ms[i].reasons[j].module_id.unwrap())
            ==> rank[ms[i].reasons[j].module_id.unwrap()] < rank[ms[i].id])
}

/// No entry of the rendered tree is a circular-dependency marker.
pub open spec fn no_cycle_marker(es: Seq<EntryModel>) -> bool {
    forall|k: int| 0 <= k < es.len() ==> !((#[trigger] es[k]) is Cycle)
}

proof fn lemma_no_cycle_marker_concat(a: Seq<EntryModel>, b: Seq<EntryModel>)
    requires
        no_cycle_marker(a),
        no_cycle_marker(b),
    ensures
        no_cycle_marker(a + b),
{
    assert forall|k: int| 0 <= k < (a + b).len() implies !((a + b)[k] is Cycle) by {
        if k < a.len() {
            assert((a + b)[k] == a[k]);
        } else {
            assert((a + b)[k] == b[k - a.len()]);
        }
    }
}

proof fn lemma_acyclic_module(
    ms: Seq<ModuleModel>,
    rank: Map<Seq<char>, nat>,
    m: ModuleModel,
    path: Seq<Seq<char>>,
    level: int,
)
    requires
        ranked_acyclic(ms, rank),
        exists|i: int| 0 <= i < ms.len() && ms[i] == m,
        forall|p: Seq<char>| #[trigger] path.contains(p) ==> rank[p] > rank[m.id],
    ensures
        no_cycle_marker(entries_for_module(ms, m, path, level)),
    decreases off_path_count(ms, path), 0nat, 0nat,
{
    let i = choose|i: int| 0 <= i < ms.len() && ms[i] == m;
    assert(contains_id(ms, m.id)) by {
        assert(0 <= i < ms.len() && ms[i].id == m.id);
    }
    assert(!path.contains(m.id));
    lemma_off_path_count_push_lt(ms, path, m.id);
    let branch = path.push(m.id);
    assert forall|j: int|
        0 <= j < m.reasons.len() && (#[trigger] m.reasons[j]).module_id is Some implies (
    contains_id(ms, m.reasons[j].module_id.unwrap()) ==> rank[m.reasons[j].module_id.unwrap()]
        < rank[m.id]) by {
        assert(ms[i].reasons[j] == m.reasons[j]);
    }
    assert forall|p: Seq<char>| #[trigger] branch.contains(p) implies rank[p] >= rank[m.id] by {
        let k = choose|k: int| 0 <= k < branch.len() && branch[k] == p;
        if k < path.len() {
            assert(path[k] == p);
            assert(path.contains(p));
        } else {
            assert(p == m.id);
        }
    }
    lemma_acyclic_reasons(ms, rank, m.reasons, branch, level, rank[m.id]);
    let head = EntryModel::Visited { level, name: m.name, id: m.id };
    lemma_no_cycle_marker_concat(seq![head], entries_for_reasons(ms, m.reasons, branch, level));
}

proof fn lemma_acyclic_reasons(
    ms: Seq<ModuleModel>,
    rank: Map<Seq<char>, nat>,
    rs: Seq<ReasonModel>,
    path: Seq<Seq<char>>,
    level: int,
    bound: nat,
)
    requires
        ranked_acyclic(ms, rank),
        forall|j: int|
            0 <= j < rs.len() && (#[trigger] rs[j]).module_id is Some ==> (contains_id(
                ms,
                rs[j].module_id.unwrap(),
            ) ==> rank[rs[j].module_id.unwrap()] < bound),
        forall|p: Seq<char>| #[trigger] path.contains(p) ==> rank[p] >= bound,
    ensures
        no_cycle_marker(entries_for_reasons(ms, rs, path, level)),
    decreases off_path_count(ms, path), rs.len(), 1nat,
{
    if rs.len() > 0 {
        lemma_acyclic_reasons(ms, rank, rs.drop_last(), path, level, bound);
        lemma_acyclic_reason(ms, rank, rs.last(), path, level, bound);
        lemma_no_cycle_marker_concat(
            entries_for_reasons(ms, rs.drop_last(), path, level),
            entries_for_reason(ms, rs.last(), path, level),
        );
    }
}

proof fn lemma_acyclic_reason(
    ms: Seq<ModuleModel>,
    rank: Map<Seq<char>, nat>,
    r: ReasonModel,
    path: Seq<Seq<char>>,
    level: int,
    bound: nat,
)
    requires
        ranked_acyclic(ms, rank),
        r.module_id is Some ==> (contains_id(ms, r.module_id.unwrap()) ==> rank[r.module_id.unwrap()]
            < bound),
        forall|p: Seq<char>| #[trigger] path.contains(p) ==> rank[p] >= bound,
    ensures
        no_cycle_marker(entries_for_reason(ms, r, path, level)),
    decreases off_path_count(ms, path), 0nat, 2nat,
{
    match r.module_id {
        None => {},
        Some(id) => {
            lemma_find_first_props(ms, id);
            match find_first(ms, id) {
                None => {},
                Some(m2) => {
                    assert(contains_id(ms, id));
                    assert(m2.id == id);
                    assert forall|p: Seq<char>| #[trigger] path.contains(p) implies rank[p]
                        > rank[m2.id] by {
                        assert(rank[p] >= bound);
                    }
                    lemma_acyclic_module(ms, rank, m2, path, level + 2);
                },
            }
        },
    }
}

/// In a graph whose reason edges admit a strictly falling rank — a
/// certificate that no cycle is reachable anywhere — the render of any root
/// holds no circular-dependency marker: every branch ends at a graph
/// boundary, never at a cycle.
pub proof fn lemma_acyclic_renders_without_cycle_markers(
    ms: Seq<ModuleModel>,
    rank: Map<Seq<char>, nat>,
    root_id: Seq<char>,
)
    requires
        ranked_acyclic(ms, rank),
        contains_id(ms, root_id),
    ensures
        no_cycle_marker(entries_for_module(ms, find_first(ms, root_id).unwrap(), Seq::empty(), 0)),
{
    lemma_find_first_props(ms, root_id);
    let m = find_first(ms, root_id).unwrap();
    assert forall|p: Seq<char>| #[trigger] Seq::<Seq<char>>::empty().contains(p) implies rank[p]
        > rank[m.id] by {
        let k = choose|k: int| 0 <= k < 0 && Seq::<Seq<char>>::empty()[k] == p;
    }
    lemma_acyclic_module(ms, rank, m, Seq::empty(), 0);
}

} // verus!

//! The reason-tree renderer: a depth-first walk over reason edges that emits
//! one entry per visited module or boundary, detecting cycles against the
//! current root-to-node path.

use vstd::prelude::*;

use crate::graph::BuildResult;
use crate::graph::Module;
use crate::graph::ModuleModel;
use crate::graph::ReasonModel;
use crate::graph::contains_id;
use crate::graph::find_first;
use crate::graph::find_module_by_id;
use crate::graph::lemma_deep_view_push;
use crate::graph::lemma_find_first_props;
use crate::text::lines_of;
use crate::text::render_text;

verus! {

/// One emitted line of the rendered tree, before text formatting: a visited
/// module, a cycle marker, or an end-of-chain boundary. `level` is the
/// indentation width in spaces.
pub enum RenderEntry {
    /// A visited module, with its display name and id.
    Visited { level: usize, name: String, id: String },
    /// The current module already lay on the root-to-node path.
    Cycle { level: usize },
    /// A reason without a module, or with an id the graph does not hold.
    End { level: usize },
}

/// Mathematical model of a [`RenderEntry`].
pub enum EntryModel {
    /// A visited module.
    Visited { level: int, name: Seq<char>, id: Seq<char> },
    /// A cycle marker.
    Cycle { level: int },
    /// An end-of-chain boundary marker.
    End { level: int },
}

impl View for RenderEntry {
    type V = EntryModel;

    open spec fn view(&self) -> EntryModel {
        match self {
            RenderEntry::Visited { level, name, id } => EntryModel::Visited {
                level: *level as int,
                name: name@,
                id: id@,
            },
            RenderEntry::Cycle { level } => EntryModel::Cycle { level: *level as int },
            RenderEntry::End { level } => EntryModel::End { level: *level as int },
        }
    }
}

impl DeepView for RenderEntry {
    type V = EntryModel;

    open spec fn deep_view(&self) -> EntryModel {
        self.view()
    }
}

/// How many modules of `ms` have an id that does not yet lie on `path`: an
/// upper bound on how much deeper the traversal can still descend.
pub open spec fn off_path_count(ms: Seq<ModuleModel>, path: Seq<Seq<char>>) -> nat
    decreases ms.len(),
{
    if ms.len() == 0 {
        0
    } else {
        off_path_count(ms.drop_last(), path) + if path.contains(ms.last().id) {
            0nat
        } else {
            1nat
        }
    }
}

/// Lengthening the path never raises the count of off-path modules.
pub proof fn lemma_off_path_count_push_le(ms: Seq<ModuleModel>, path: Seq<Seq<char>>, id: Seq<char>)
    ensures
        off_path_count(ms, path.push(id)) <= off_path_count(ms, path),
    decreases ms.len(),
{
    if ms.len() > 0 {
        lemma_off_path_count_push_le(ms.drop_last(), path, id);
        if path.contains(ms.last().id) {
            assert(path.push(id).contains(ms.last().id)) by {
                let k = choose|k: int| 0 <= k < path.len() && path[k] == ms.last().id;
                assert(path.push(id)[k] == ms.last().id);
            }
        }
    }
}

/// Putting the id of a module of `ms` onto the path strictly lowers the count
/// of off-path modules, as long as the path did not hold that id already.
pub proof fn lemma_off_path_count_push_lt(ms: Seq<ModuleModel>, path: Seq<Seq<char>>, id: Seq<char>)
    requires
        contains_id(ms, id),
        !path.contains(id),
    ensures
        off_path_count(ms, path.push(id)) < off_path_count(ms, path),
    decreases ms.len(),
{
    let i = choose|i: int| 0 <= i < ms.len() && ms[i].id == id;
    if ms.last().id == id {
        lemma_off_path_count_push_le(ms.drop_last(), path, id);
        assert(path.push(id).contains(id)) by {
            assert(path.push(id)[path.len() as int] == id);
        }
    } else {
        assert(0 <= i < ms.len() - 1);
        assert(ms.drop_last()[i] == ms[i]);
        lemma_off_path_count_push_lt(ms.drop_last(), path, id);
        if path.contains(ms.last().id) {
            assert(path.push(id).contains(ms.last().id)) by {
                let k = choose|k: int| 0 <= k < path.len() && path[k] == ms.last().id;
                assert(path.push(id)[k] == ms.last().id);
            }
        }
    }
}

/// The entries the renderer emits for module `m`, reached with `path` the ids
/// of its ancestors (root to parent) and `level` its indentation width.
///
/// The module's own entry always comes first. If the module lies on `path`,
/// one cycle marker follows and the branch stops; otherwise each reason is
/// rendered in order, with the module's id added to the path of every child.
pub open spec fn entries_for_module(
    ms: Seq<ModuleModel>,
    m: ModuleModel,
    path: Seq<Seq<char>>,
    level: int,
) -> Seq<EntryModel>
    decreases off_path_count(ms, path), 0nat, 0nat
        when contains_id(ms, m.id)
{
    let head = EntryModel::Visited { level, name: m.name, id: m.id };
    if path.contains(m.id) {
        seq![head, EntryModel::Cycle { level: level + 2 }]
    } else {
        proof {
            lemma_off_path_count_push_lt(ms, path, m.id);
        }
        seq![head] + entries_for_reasons(ms, m.reasons, path.push(m.id), level)
    }
}

/// The entries emitted for a list of reasons of one module, in order.
pub open spec fn entries_for_reasons(
    ms: Seq<ModuleModel>,
    rs: Seq<ReasonModel>,
    path: Seq<Seq<char>>,
    level: int,
) -> Seq<EntryModel>
    decreases off_path_count(ms, path), rs.len(), 1nat,
{
    if rs.len() == 0 {
        Seq::empty()
    } else {
        entries_for_reasons(ms, rs.drop_last(), path, level) + entries_for_reason(
            ms,
            rs.last(),
            path,
            level,
        )
    }
}

/// The entries emitted for a single reason edge: a subtree two levels deeper
/// when the referenced module resolves, and one end marker when the reference
/// is absent or dangles.
pub open spec fn entries_for_reason(
    ms: Seq<ModuleModel>,
    r: ReasonModel,
    path: Seq<Seq<char>>,
    level: int,
) -> Seq<EntryModel>
    decreases off_path_count(ms, path), 0nat, 2nat,
{
    match r.module_id {
        None => seq![EntryModel::End { level: level + 2 }],
        Some(id) => match find_first(ms, id) {
            None => seq![EntryModel::End { level: level + 2 }],
            Some(m2) => {
                proof {
                    lemma_find_first_props(ms, id);
                }
                entries_for_module(ms, m2, path, level + 2)
            },
        },
    }
}

/// No more modules stand off the path than the graph holds.
proof fn lemma_off_path_count_le_len(ms: Seq<ModuleModel>, path: Seq<Seq<char>>)
    ensures
        off_path_count(ms, path) <= ms.len(),
    decreases ms.len(),
{
    if ms.len() > 0 {
        lemma_off_path_count_le_len(ms.drop_last(), path);
    }
}

/// Whether `id` lies on the path.
fn path_contains(path: &Vec<String>, id: &String) -> (b: bool)
    ensures
        b == path.deep_view().contains(id@),
{
    let mut i: usize = 0;
    while i < path.len()
        invariant
            i <= path.len(),
            forall|k: int| 0 <= k < i ==> path@[k]@ != id@,
        decreases path.len() - i,
    {
        if path[i] == *id {
            proof {
                assert(path.deep_view()[i as int] == path@[i as int]@);
                assert(path.deep_view()[i as int] == id@);
            }
            return true;
        }
        i = i + 1;
    }
    proof {
        assert forall|k: int| 0 <= k < path@.len() implies path.deep_view()[k] != id@ by {
            assert(path.deep_view()[k] == path@[k]@);
        }
        if path.deep_view().contains(id@) {
            let k = choose|k: int|
                0 <= k < path.deep_view().len() && path.deep_view()[k] == id@;
            assert(path.deep_view()[k] != id@);
        }
    }
    false
}

/// A copy of the path, for the branch about to descend.
fn clone_path(path: &Vec<String>) -> (r: Vec<String>)
    ensures
        r.deep_view() == path.deep_view(),
{
    let mut r: Vec<String> = Vec::new();
    let mut i: usize = 0;
    while i < path.len()
        invariant
            i <= path.len(),
            r@.len() == i,
            forall|k: int| 0 <= k < i ==> r@[k] == path@[k],
        decreases path.len() - i,
    {
        r.push(path[i].clone());
        i = i + 1;
    }
    proof {
        assert forall|k: int| 0 <= k < r@.len() implies r.deep_view()[k] == path.deep_view()[k] by {
            assert(r.deep_view()[k] == r@[k]@);
            assert(path.deep_view()[k] == path@[k]@);
        }
        assert(r.deep_view() =~= path.deep_view());
    }
    r
}

/// Walks the reason edges of `module` depth-first and appends one entry per
/// visited module or boundary to `out`, exactly as [`entries_for_module`]
/// lays them out. `path` holds the ids of the module's ancestors, root to
/// parent; `level` is the module's indentation width.
pub fn traverse_reasons(
    root: &BuildResult,
    module: Module,
    path: &Vec<String>,
    level: usize,
    out: &mut Vec<RenderEntry>,
)
    requires
        contains_id(root@, module@.id),
        level + 2 * off_path_count(root@, path.deep_view()) + 2 <= usize::MAX,
    ensures
        final(out).deep_view() == old(out).deep_view() + entries_for_module(
            root@,
            module@,
            path.deep_view(),
            level as int,
        ),
    decreases off_path_count(root@, path.deep_view()),
{
    let ghost head = EntryModel::Visited {
        level: level as int,
        name: module@.name,
        id: module@.id,
    };
    let head_entry = RenderEntry::Visited {
        level,
        name: module.name.clone(),
        id: module.id.clone(),
    };
    let ghost head_value = head_entry;
    proof {
        assert(head_value@ == head);
    }
    let ghost out0: Vec<RenderEntry> = *old(out);
    out.push(head_entry);
    proof {
        lemma_deep_view_push(out0, *out, head_value);
    }
    let ghost base = out0.deep_view().push(head);
    if path_contains(path, &module.id) {
        let ghost out1: Vec<RenderEntry> = *out;
        let marker = RenderEntry::Cycle { level: level + 2 };
        let ghost marker_value = marker;
        out.push(marker);
        proof {
            lemma_deep_view_push(out1, *out, marker_value);
            assert(out.deep_view() =~= out0.deep_view() + entries_for_module(
                root@,
                module@,
                path.deep_view(),
                level as int,
            ));
        }
        return ;
    }
    let mut branch_path = clone_path(path);
    let ghost branch0: Vec<String> = branch_path;
    let id_copy = module.id.clone();
    let ghost id_value = id_copy;
    branch_path.push(id_copy);
    proof {
        lemma_deep_view_push(branch0, branch_path, id_value);
        assert(branch_path.deep_view() == path.deep_view().push(module@.id));
        lemma_off_path_count_push_lt(root@, path.deep_view(), module@.id);
    }
    let ghost path_v = path.deep_view();
    let ghost branch_v = branch_path.deep_view();
    proof {
        assert(module@.reasons.take(0) =~= Seq::<ReasonModel>::empty());
        assert(base + Seq::<EntryModel>::empty() =~= base);
    }
    let mut j: usize = 0;
    while j < module.reasons.len()
        invariant
            j <= module.reasons.len(),
            contains_id(root@, module@.id),
            path_v == path.deep_view(),
            branch_path.deep_view() == branch_v,
            branch_v == path_v.push(module@.id),
            off_path_count(root@, branch_v) < off_path_count(root@, path_v),
            level + 2 * off_path_count(root@, path_v) + 2 <= usize::MAX,
            out.deep_view() == base + entries_for_reasons(
                root@,
                module@.reasons.take(j as int),
                branch_v,
                level as int,
            ),
        decreases module.reasons.len() - j,
    {
        let ghost taken = entries_for_reasons(
            root@,
            module@.reasons.take(j as int),
            branch_v,
            level as int,
        );
        let ghost out_pre: Vec<RenderEntry> = *out;
        proof {
            assert(module@.reasons[j as int] == module.reasons@[j as int]@);
        }
        match &module.reasons[j].module_id {
            None => {
                let marker = RenderEntry::End { level: level + 2 };
                let ghost marker_value = marker;
                out.push(marker);
                proof {
                    lemma_deep_view_push(out_pre, *out, marker_value);
                }
            },
            Some(id) => {
                match find_module_by_id(&root.modules, id.clone()) {
                    None => {
                        let marker = RenderEntry::End { level: level + 2 };
                        let ghost marker_value = marker;
                        out.push(marker);
                        proof {
                            lemma_deep_view_push(out_pre, *out, marker_value);
                        }
                    },
                    Some(child) => {
                        proof {
                            lemma_find_first_props(root@, id@);
                        }
                        traverse_reasons(root, child, &branch_path, level + 2, out);
                    },
                }
            },
        }
        j = j + 1;
        proof {
            let rs = module@.reasons;
            assert(rs.take(j as int).drop_last() =~= rs.take(j as int - 1));
            assert(rs.take(j as int).last() == rs[j as int - 1]);
            let step = entries_for_reason(root@, rs[j as int - 1], branch_v, level as int);
            assert(entries_for_reasons(root@, rs.take(j as int), branch_v, level as int) == taken
                + step);
            assert((base + taken) + step =~= base + (taken + step));
        }
    }
    proof {
        assert(module@.reasons.take(module.reasons.len() as int) =~= module@.reasons);
        assert(base + entries_for_reasons(root@, module@.reasons, branch_v, level as int)
            =~= out0.deep_view() + (seq![head] + entries_for_reasons(
            root@,
            module@.reasons,
            branch_v,
            level as int,
        )));
        assert(out.deep_view() == out0.deep_view() + entries_for_module(
            root@,
            module@,
            path_v,
            level as int,
        ));
    }
}

/// The render fails exactly when the root id is absent from the graph.
#[derive(Debug, PartialEq, Eq, Structural)]
pub struct NotFoundError;

/// The entries a render of the graph produces from `root_id`: `None` when the
/// graph holds no module with that id (the operation fails, no output).
pub open spec fn rendered_entries(ms: Seq<ModuleModel>, root_id: Seq<char>) -> Option<
    Seq<EntryModel>,
> {
    match find_first(ms, root_id) {
        None => None,
        Some(m) => Some(entries_for_module(ms, m, Seq::empty(), 0)),
    }
}

/// The text lines a render of the graph produces from `root_id`: `None` when
/// the graph holds no module with that id.
pub open spec fn rendered_lines(ms: Seq<ModuleModel>, root_id: Seq<char>) -> Option<
    Seq<Seq<char>>,
> {
    match rendered_entries(ms, root_id) {
        None => None,
        Some(es) => Some(lines_of(es)),
    }
}

/// Resolves `root_id` and renders the reason tree below it as entries.
/// Fails, producing nothing, exactly when the graph holds no module with id
/// `root_id`; a dangling id met further down is a boundary, not a failure.
pub fn render_entries(root: &BuildResult, root_id: String) -> (r: Result<
    Vec<RenderEntry>,
    NotFoundError,
>)
    requires
        2 * root@.len() + 2 <= usize::MAX,
    ensures
        r is Ok <==> contains_id(root@, root_id@),
        (r matches Ok(entries) ==> Some(entries.deep_view()) == rendered_entries(
            root@,
            root_id@,
        )),
{
    proof {
        lemma_find_first_props(root@, root_id@);
    }
    match find_module_by_id(&root.modules, root_id) {
        None => Err(NotFoundError),
        Some(m) => {
            let path: Vec<String> = Vec::new();
            let mut out: Vec<RenderEntry> = Vec::new();
            proof {
                assert(path.deep_view() =~= Seq::<Seq<char>>::empty());
                lemma_off_path_count_le_len(root@, path.deep_view());
                assert(out.deep_view() =~= Seq::<EntryModel>::empty());
            }
            traverse_reasons(root, m, &path, 0, &mut out);
            Ok(out)
        },
    }
}

/// Resolves `root_id` and renders the reason tree below it as plain text
/// lines. Fails, producing nothing, exactly when the graph holds no module
/// with id `root_id`.
pub fn render(root: &BuildResult, root_id: String) -> (r: Result<Vec<String>, NotFoundError>)
    requires
        2 * root@.len() + 2 <= usize::MAX,
    ensures
        r is Ok <==> contains_id(root@, root_id@),
        (r matches Ok(lines) ==> Some(lines.deep_view()) == rendered_lines(root@, root_id@)),
{
    match render_entries(root, root_id) {
        Err(e) => Err(e),
        Ok(entries) => Ok(render_text(&entries)),
    }
}

} // verus!

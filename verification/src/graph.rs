//! The module graph: records parsed from a build result, and the id lookup
//! the renderer uses to resolve reason edges.

use vstd::prelude::*;

verus! {

/// Why the build system included a module: either another module (referred to
/// by its id, which may dangle) required it, or an external request did.
pub struct Reason {
    /// The id of the module responsible for requiring this one, if any.
    /// The reference is weak: it may point to an id absent from the graph.
    pub module_id: Option<String>,
    /// A descriptive string for reasons that came from an external request.
    pub user_request: Option<String>,
}

/// One module of the dependency graph.
pub struct Module {
    /// Unique identifier of the module within the graph.
    pub id: String,
    /// Secondary descriptive string used for build bookkeeping; display only.
    pub identifier: String,
    /// Human-readable display name.
    pub name: String,
    /// Why this module was included, in the order the reasons are rendered.
    pub reasons: Vec<Reason>,
}

/// The whole graph, as an ordered sequence of modules.
pub struct BuildResult {
    /// The modules of the graph. Lookup by id scans in order, so of two
    /// modules sharing an id the first one listed wins.
    pub modules: Vec<Module>,
}

/// Mathematical model of a [`Reason`].
pub struct ReasonModel {
    /// The referenced module id, if any.
    pub module_id: Option<Seq<char>>,
    /// The external request string, if any.
    pub user_request: Option<Seq<char>>,
}

/// Mathematical model of a [`Module`].
pub struct ModuleModel {
    /// Unique identifier.
    pub id: Seq<char>,
    /// Secondary descriptive string.
    pub identifier: Seq<char>,
    /// Display name.
    pub name: Seq<char>,
    /// The reasons, in order.
    pub reasons: Seq<ReasonModel>,
}

impl View for Reason {
    type V = ReasonModel;

    open spec fn view(&self) -> ReasonModel {
        ReasonModel {
            module_id: self.module_id.deep_view(),
            user_request: self.user_request.deep_view(),
        }
    }
}

impl DeepView for Reason {
    type V = ReasonModel;

    open spec fn deep_view(&self) -> ReasonModel {
        self.view()
    }
}

impl View for Module {
    type V = ModuleModel;

    open spec fn view(&self) -> ModuleModel {
        ModuleModel {
            id: self.id@,
            identifier: self.identifier@,
            name: self.name@,
            reasons: self.reasons.deep_view(),
        }
    }
}

impl DeepView for Module {
    type V = ModuleModel;

    open spec fn deep_view(&self) -> ModuleModel {
        self.view()
    }
}

impl View for BuildResult {
    type V = Seq<ModuleModel>;

    open spec fn view(&self) -> Seq<ModuleModel> {
        self.modules.deep_view()
    }
}

/// Pushing one element extends the deep view by that element's view.
pub proof fn lemma_deep_view_push<T: DeepView>(pre: Vec<T>, post: Vec<T>, e: T)
    requires
        post@ == pre@.push(e),
    ensures
        post.deep_view() == pre.deep_view().push(e.deep_view()),
{
    assert forall|k: int| 0 <= k < post@.len() implies post.deep_view()[k] == pre.deep_view().push(
        e.deep_view(),
    )[k] by {
        assert(post.deep_view()[k] == post@[k].deep_view());
        if k < pre@.len() {
            assert(post@[k] == pre@[k]);
            assert(pre.deep_view()[k] == pre@[k].deep_view());
        } else {
            assert(post@[k] == e);
        }
    }
    assert(post.deep_view() =~= pre.deep_view().push(e.deep_view()));
}

impl Clone for Reason {
    /// A clone carries the same model as the original.
    fn clone(&self) -> (res: Self)
        ensures
            res@ == self@,
    {
        Reason {
            module_id: match &self.module_id {
                Some(id) => Some(id.clone()),
                None => None,
            },
            user_request: match &self.user_request {
                Some(req) => Some(req.clone()),
                None => None,
            },
        }
    }
}

impl Clone for Module {
    /// A clone carries the same model as the original.
    fn clone(&self) -> (res: Self)
        ensures
            res@ == self@,
    {
        let mut reasons: Vec<Reason> = Vec::new();
        let mut i: usize = 0;
        while i < self.reasons.len()
            invariant
                i <= self.reasons.len(),
                reasons@.len() == i,
                forall|k: int| 0 <= k < i ==> reasons@[k]@ == self.reasons@[k]@,
            decreases self.reasons.len() - i,
        {
            reasons.push(self.reasons[i].clone());
            i = i + 1;
        }
        proof {
            assert forall|k: int| 0 <= k < reasons@.len() implies reasons.deep_view()[k]
                == self.reasons.deep_view()[k] by {
                assert(reasons.deep_view()[k] == reasons@[k]@);
                assert(self.reasons.deep_view()[k] == self.reasons@[k]@);
            }
            assert(reasons.deep_view() =~= self.reasons.deep_view());
        }
        Module {
            id: self.id.clone(),
            identifier: self.identifier.clone(),
            name: self.name.clone(),
            reasons,
        }
    }
}

impl Clone for BuildResult {
    /// A clone carries the same model as the original.
    fn clone(&self) -> (res: Self)
        ensures
            res@ == self@,
    {
        let mut modules: Vec<Module> = Vec::new();
        let mut i: usize = 0;
        while i < self.modules.len()
            invariant
                i <= self.modules.len(),
                modules@.len() == i,
                forall|k: int| 0 <= k < i ==> modules@[k]@ == self.modules@[k]@,
            decreases self.modules.len() - i,
        {
            modules.push(self.modules[i].clone());
            i = i + 1;
        }
        proof {
            assert forall|k: int| 0 <= k < modules@.len() implies modules.deep_view()[k]
                == self.modules.deep_view()[k] by {
                assert(modules.deep_view()[k] == modules@[k]@);
                assert(self.modules.deep_view()[k] == self.modules@[k]@);
            }
            assert(modules.deep_view() =~= self.modules.deep_view());
        }
        BuildResult { modules }
    }
}

/// The first module at or after position `i` whose id is `id`, if any.
pub open spec fn find_from(ms: Seq<ModuleModel>, id: Seq<char>, i: int) -> Option<ModuleModel>
    decreases ms.len() - i,
{
    if i < 0 || i >= ms.len() {
        None
    } else if ms[i].id == id {
        Some(ms[i])
    } else {
        find_from(ms, id, i + 1)
    }
}

/// The first module of the graph whose id is `id`, if any.
pub open spec fn find_first(ms: Seq<ModuleModel>, id: Seq<char>) -> Option<ModuleModel> {
    find_from(ms, id, 0)
}

/// Whether some module of the graph has id `id`.
pub open spec fn contains_id(ms: Seq<ModuleModel>, id: Seq<char>) -> bool {
    exists|i: int| 0 <= i < ms.len() && ms[i].id == id
}

proof fn lemma_find_from_props(ms: Seq<ModuleModel>, id: Seq<char>, i: int)
    requires
        0 <= i <= ms.len(),
    ensures
        match find_from(ms, id, i) {
            Some(m) => {
                &&& m.id == id
                &&& exists|j: int| i <= j < ms.len() && ms[j] == m
            },
            None => forall|j: int| i <= j < ms.len() ==> ms[j].id != id,
        },
    decreases ms.len() - i,
{
    if i < ms.len() && ms[i].id != id {
        lemma_find_from_props(ms, id, i + 1);
    }
}

/// The lookup succeeds exactly when the graph holds the id; a found module is
/// one of the graph's entries and bears the id it was found under.
pub proof fn lemma_find_first_props(ms: Seq<ModuleModel>, id: Seq<char>)
    ensures
        find_first(ms, id) is Some <==> contains_id(ms, id),
        match find_first(ms, id) {
            Some(m) => {
                &&& m.id == id
                &&& exists|j: int| 0 <= j < ms.len() && ms[j] == m
            },
            None => true,
        },
{
    lemma_find_from_props(ms, id, 0);
    if find_first(ms, id) is None {
        assert(forall|j: int| 0 <= j < ms.len() ==> ms[j].id != id);
    }
}

/// Returns a copy of the first module whose id equals `id`, scanning the
/// modules in order, or `None` when no module bears that id.
pub fn find_module_by_id(modules: &Vec<Module>, id: String) -> (r: Option<Module>)
    ensures
        r.deep_view() == find_first(modules.deep_view(), id@),
{
    let mut j: usize = 0;
    while j < modules.len()
        invariant
            j <= modules.len(),
            find_first(modules.deep_view(), id@) == find_from(modules.deep_view(), id@, j as int),
        decreases modules.len() - j,
    {
        proof {
            assert(modules.deep_view()[j as int] == modules@[j as int]@);
        }
        if modules[j].id == id {
            return Some(modules[j].clone());
        }
        j = j + 1;
    }
    None
}

} // verus!

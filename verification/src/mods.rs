//! Mods of a SoupRune workspace: the active project configuration, mod
//! manifests, and the graph of mods with their dependency load order.

use vstd::prelude::*;
use vstd::string::*;

pub mod laws;
pub mod table;

use crate::order::{lemma_lex_irreflexive, lemma_lex_total, lemma_lex_transitive, lex_less, str_equal, str_less};
use table::{dependency_table, entries_view, table_keys, table_of};

verus! {

/// `projects/config.toml`: which mod is active, in which language.
#[derive(Clone, Debug, PartialEq, Eq)]
pub struct ActiveProjectConfig {
    pub mod_name: String,
    pub language: Option<String>,
}

/// The runtime wasm module of a mod.
#[derive(Clone, Debug, PartialEq, Eq)]
pub struct ModLibrary {
    pub wasm: String,
}

/// The content wasm module of a mod.
#[derive(Clone, Debug, PartialEq, Eq)]
pub struct ContentLibrary {
    pub wasm: String,
}

/// A mod's `mod.toml`. `dependencies` holds the `[dependencies]` table as
/// (mod name, version requirement) pairs. A graph records a manifest with
/// that table in ascending name order, each name once (see
/// [`ModGraph::insert`]).
#[derive(Clone, Debug, PartialEq, Eq)]
pub struct ModManifest {
    pub name: String,
    pub version: Option<String>,
    pub dependencies: Vec<(String, String)>,
    pub mod_library: Option<ModLibrary>,
    pub content_library: Option<ContentLibrary>,
}

/// The names of the mods that a manifest depends on, in order.
pub open spec fn dependency_names(m: ModManifest) -> Seq<Seq<char>> {
    m.dependencies@.map_values(|d: (String, String)| d.0@)
}

/// The `[dependencies]` entries of a manifest as plain values.
pub open spec fn dependency_entries(m: ModManifest) -> Seq<(Seq<char>, Seq<char>)> {
    entries_view(m.dependencies@)
}

/// `stored` is `m` as a graph records it: the same manifest, with its
/// dependency table set pair by pair.
pub open spec fn recorded_from(stored: ModManifest, m: ModManifest) -> bool {
    &&& stored.name == m.name
    &&& stored.version == m.version
    &&& stored.mod_library == m.mod_library
    &&& stored.content_library == m.content_library
    &&& dependency_entries(stored) == table_of(dependency_entries(m))
}

proof fn lemma_dependency_names_are_keys(m: ModManifest)
    ensures
        dependency_names(m) == table_keys(dependency_entries(m)),
{
    assert(dependency_names(m) =~= table_keys(dependency_entries(m)));
}

pub open spec fn manifest_names(s: Seq<ModManifest>) -> Seq<Seq<char>> {
    s.map_values(|m: ModManifest| m.name@)
}

/// Names in strictly ascending order (so also without repeats).
pub open spec fn names_ascending(names: Seq<Seq<char>>) -> bool {
    forall|i: int, j: int| 0 <= i < j < names.len() ==> lex_less(#[trigger] names[i], #[trigger] names[j])
}

/// The manifests of a sorted list, keyed by name.
pub open spec fn manifest_map(s: Seq<ModManifest>) -> Map<Seq<char>, ModManifest> {
    Map::new(
        |n: Seq<char>| manifest_names(s).contains(n),
        |n: Seq<char>| s[manifest_names(s).index_of(n)],
    )
}

pub proof fn lemma_ascending_no_duplicates(names: Seq<Seq<char>>)
    requires
        names_ascending(names),
    ensures
        names.no_duplicates(),
{
    assert forall|i: int, j: int| 0 <= i < names.len() && 0 <= j < names.len() && i != j implies names[i]
        != names[j] by {
        if i < j {
            assert(lex_less(names[i], names[j]));
        } else {
            assert(lex_less(names[j], names[i]));
        }
        lemma_lex_irreflexive(names[i]);
    }
}

/// In a list with ascending names, the entry found under a name is the one
/// at the position of that name.
pub proof fn lemma_manifest_map_at(s: Seq<ModManifest>, i: int)
    requires
        names_ascending(manifest_names(s)),
        0 <= i < s.len(),
    ensures
        manifest_map(s).contains_key(s[i].name@),
        manifest_map(s)[s[i].name@] == s[i],
{
    let names = manifest_names(s);
    lemma_ascending_no_duplicates(names);
    assert(names[i] == s[i].name@);
    assert(names.contains(s[i].name@));
    let k = names.index_of(s[i].name@);
    assert(names[k] == names[i]);
}

/// The mods found under `projects/`, keyed by name.
#[derive(Debug)]
pub struct ModGraph {
    manifests: Vec<ModManifest>,
}

impl View for ModGraph {
    type V = Map<Seq<char>, ModManifest>;

    closed spec fn view(&self) -> Map<Seq<char>, ModManifest> {
        manifest_map(self.manifests@)
    }
}

impl ModGraph {
    #[verifier::type_invariant]
    spec fn sorted_by_name(self) -> bool {
        &&& names_ascending(manifest_names(self.manifests@))
        &&& forall|i: int|
            0 <= i < self.manifests@.len() ==> names_ascending(
                dependency_names(#[trigger] self.manifests@[i]),
            )
    }

    /// A graph without mods.
    pub fn new() -> (graph: Self)
        ensures
            graph@ == Map::<Seq<char>, ModManifest>::empty(),
    {
        let graph = ModGraph { manifests: Vec::new() };
        assert(graph@ =~= Map::<Seq<char>, ModManifest>::empty());
        graph
    }

    /// Records a manifest, with its dependency table in ascending name
    /// order and each name once (of two pairs with one name, the later one
    /// stays); one already recorded under the same name is replaced.
    pub fn insert(&mut self, manifest: ModManifest)
        ensures
            final(self)@ == old(self)@.insert(manifest.name@, final(self)@[manifest.name@]),
            recorded_from(final(self)@[manifest.name@], manifest),
    {
        let dependencies = dependency_table(&manifest.dependencies);
        let ModManifest { name, version, dependencies: _, mod_library, content_library } = manifest;
        let stored = ModManifest { name, version, dependencies, mod_library, content_library };
        proof {
            lemma_dependency_names_are_keys(stored);
        }
        self.record(stored);
    }

    /// Records a manifest whose dependency names ascend.
    fn record(&mut self, manifest: ModManifest)
        requires
            names_ascending(dependency_names(manifest)),
        ensures
            final(self)@ == old(self)@.insert(manifest.name@, manifest),
    {
        proof {
            use_type_invariant(&*self);
        }
        let ghost old_entries = self.manifests@;
        let ghost old_names = manifest_names(old_entries);
        let ghost new_name = manifest.name@;
        let mut entries: Vec<ModManifest> = Vec::new();
        std::mem::swap(&mut entries, &mut self.manifests);
        let n = entries.len();
        let mut pos: usize = 0;
        while pos < n && str_less(entries[pos].name.as_str(), manifest.name.as_str())
            invariant
                n == entries.len(),
                entries@ == old_entries,
                old_names == manifest_names(old_entries),
                new_name == manifest.name@,
                pos <= n,
                forall|k: int| 0 <= k < pos ==> lex_less(#[trigger] old_names[k], new_name),
            decreases n - pos,
        {
            proof {
                assert(old_names[pos as int] == entries@[pos as int].name@);
            }
            pos = pos + 1;
        }
        proof {
            lemma_ascending_no_duplicates(old_names);
        }
        if pos < n && entries[pos].name == manifest.name {
            entries.set(pos, manifest);
            proof {
                let names = manifest_names(entries@);
                assert forall|i: int, j: int| 0 <= i < j < names.len() implies lex_less(
                    #[trigger] names[i],
                    #[trigger] names[j],
                ) by {
                    assert(names[i] == old_names[i]);
                    assert(names[j] == old_names[j]);
                }
                assert(manifest_map(entries@) =~= manifest_map(old_entries).insert(
                    new_name,
                    manifest,
                )) by {
                    assert forall|m: Seq<char>| #[trigger] names.contains(m) <==> old_names.contains(
                        m,
                    ) || m == new_name by {
                        if names.contains(m) {
                            let i = names.index_of(m);
                            if i != pos {
                                assert(old_names[i] == m);
                            }
                        }
                        if old_names.contains(m) {
                            let i = old_names.index_of(m);
                            assert(names[i] == m);
                        }
                        if m == new_name {
                            assert(names[pos as int] == m);
                        }
                    }
                    lemma_ascending_no_duplicates(names);
                    assert forall|m: Seq<char>| #[trigger] names.contains(m) implies manifest_map(
                        entries@,
                    )[m] == manifest_map(old_entries).insert(new_name, manifest)[m] by {
                        let i = names.index_of(m);
                        assert(names[i] == entries@[i].name@);
                        lemma_manifest_map_at(entries@, i);
                        if m != new_name {
                            assert(names[pos as int] == new_name);
                            assert(i != pos);
                            assert(old_names[i] == old_entries[i].name@);
                            lemma_manifest_map_at(old_entries, i);
                        } else {
                            assert(names[pos as int] == new_name);
                            assert(i == pos);
                        }
                    }
                }
            }
        } else {
            entries.insert(pos, manifest);
            proof {
                let names = manifest_names(entries@);
                if pos < n {
                    assert(old_names[pos as int] != new_name);
                    assert(!lex_less(old_names[pos as int], new_name));
                    lemma_lex_total(old_names[pos as int], new_name);
                }
                assert forall|i: int, j: int| 0 <= i < j < names.len() implies lex_less(
                    #[trigger] names[i],
                    #[trigger] names[j],
                ) by {
                    if j < pos {
                        assert(names[i] == old_names[i] && names[j] == old_names[j]);
                    } else if j == pos {
                        assert(names[i] == old_names[i]);
                    } else if i == pos {
                        assert(names[j] == old_names[j - 1]);
                        if j - 1 > pos {
                            lemma_lex_transitive(new_name, old_names[pos as int], old_names[j - 1]);
                        }
                    } else if i < pos {
                        assert(names[i] == old_names[i] && names[j] == old_names[j - 1]);
                    } else {
                        assert(names[i] == old_names[i - 1] && names[j] == old_names[j - 1]);
                    }
                }
                assert(manifest_map(entries@) =~= manifest_map(old_entries).insert(
                    new_name,
                    manifest,
                )) by {
                    assert forall|m: Seq<char>| #[trigger] names.contains(m) <==> old_names.contains(
                        m,
                    ) || m == new_name by {
                        if names.contains(m) {
                            let i = names.index_of(m);
                            if i < pos {
                                assert(old_names[i] == m);
                            } else if i > pos {
                                assert(old_names[i - 1] == m);
                            }
                        }
                        if old_names.contains(m) {
                            let i = old_names.index_of(m);
                            if i < pos {
                                assert(names[i] == m);
                            } else {
                                assert(names[i + 1] == m);
                            }
                        }
                        if m == new_name {
                            assert(names[pos as int] == m);
                        }
                    }
                    lemma_ascending_no_duplicates(names);
                    assert forall|m: Seq<char>| #[trigger] names.contains(m) implies manifest_map(
                        entries@,
                    )[m] == manifest_map(old_entries).insert(new_name, manifest)[m] by {
                        let i = names.index_of(m);
                        assert(names[i] == entries@[i].name@);
                        assert(names[pos as int] == new_name);
                        lemma_manifest_map_at(entries@, i);
                        if i < pos {
                            assert(old_names[i] == old_entries[i].name@);
                            lemma_manifest_map_at(old_entries, i);
                        } else if i > pos {
                            assert(old_names[i - 1] == old_entries[i - 1].name@);
                            lemma_manifest_map_at(old_entries, i - 1);
                        }
                    }
                }
            }
        }
        self.manifests = entries;
    }

    /// The manifest recorded under `name`, if any.
    pub fn get(&self, name: &str) -> (found: Option<&ModManifest>)
        ensures
            match found {
                Some(m) => self@.contains_key(name@) && self@[name@] == *m && names_ascending(
                    dependency_names(*m),
                ),
                None => !self@.contains_key(name@),
            },
    {
        proof {
            use_type_invariant(self);
        }
        let ghost names = manifest_names(self.manifests@);
        let n = self.manifests.len();
        for i in 0..n
            invariant
                n == self.manifests.len(),
                names == manifest_names(self.manifests@),
                names_ascending(names),
                forall|k: int| 0 <= k < i ==> #[trigger] names[k] != name@,
        {
            proof {
                assert(names[i as int] == self.manifests@[i as int].name@);
            }
            if str_equal(self.manifests[i].name.as_str(), name) {
                proof {
                    use_type_invariant(self);
                    lemma_manifest_map_at(self.manifests@, i as int);
                }
                return Some(&self.manifests[i]);
            }
        }
        proof {
            assert forall|m: Seq<char>| #[trigger] names.contains(m) implies m != name@ by {
                let k = names.index_of(m);
            }
        }
        None
    }

    /// All manifests, in ascending name order.
    pub fn manifests(&self) -> (all: &[ModManifest])
        ensures
            names_ascending(manifest_names(all@)),
            manifest_names(all@).to_set() == self@.dom(),
            forall|i: int| 0 <= i < all@.len() ==> self@[#[trigger] all@[i].name@] == all@[i],
            forall|i: int|
                0 <= i < all@.len() ==> names_ascending(dependency_names(#[trigger] all@[i])),
    {
        proof {
            use_type_invariant(self);
            assert(manifest_names(self.manifests@).to_set() =~= self@.dom());
            assert forall|i: int| 0 <= i < self.manifests@.len() implies self@[
                #[trigger] self.manifests@[i].name@] == self.manifests@[i] by {
                lemma_manifest_map_at(self.manifests@, i);
            }
        }
        self.manifests.as_slice()
    }
}

impl Default for ModGraph {
    fn default() -> (graph: Self)
        ensures
            graph@ == Map::<Seq<char>, ModManifest>::empty(),
    {
        ModGraph::new()
    }
}

/// Why a mod has no load order.
pub enum OrderIssue {
    /// The named mod depends, directly or not, on itself.
    Cyclic(Seq<char>),
    /// The named mod is required but no manifest of it was found.
    Unknown(Seq<char>),
}

/// Depth-first visit of `name`: its dependencies are loaded first, each mod
/// once. `stack` holds the mods whose visit is under way, `order` the mods
/// already placed; `fuel` bounds the depth and never runs out for the
/// top-level call (see `lemma_stack_below_dom`).
pub open spec fn visit(
    g: Map<Seq<char>, ModManifest>,
    name: Seq<char>,
    stack: Seq<Seq<char>>,
    order: Seq<Seq<char>>,
    fuel: nat,
) -> Result<Seq<Seq<char>>, OrderIssue>
    decreases fuel, 0nat, 0nat,
{
    if order.contains(name) {
        Ok(order)
    } else if stack.contains(name) {
        Err(OrderIssue::Cyclic(name))
    } else if !g.contains_key(name) {
        Err(OrderIssue::Unknown(name))
    } else if fuel == 0 {
        Err(OrderIssue::Cyclic(name))
    } else {
        match visit_deps(g, dependency_names(g[name]), stack.push(name), order, (fuel - 1) as nat) {
            Ok(placed) => Ok(placed.push(name)),
            Err(issue) => Err(issue),
        }
    }
}

/// Visits the mods of `deps` in turn.
pub open spec fn visit_deps(
    g: Map<Seq<char>, ModManifest>,
    deps: Seq<Seq<char>>,
    stack: Seq<Seq<char>>,
    order: Seq<Seq<char>>,
    fuel: nat,
) -> Result<Seq<Seq<char>>, OrderIssue>
    decreases fuel, 1nat, deps.len(),
{
    if deps.len() == 0 {
        Ok(order)
    } else {
        match visit_deps(g, deps.drop_last(), stack, order, fuel) {
            Ok(placed) => visit(g, deps.last(), stack, placed, fuel),
            Err(issue) => Err(issue),
        }
    }
}

/// The load order of `name`: every mod it depends on, directly or not,
/// before the mods that depend on it, and `name` last.
pub open spec fn spec_dependency_order(
    g: Map<Seq<char>, ModManifest>,
    name: Seq<char>,
) -> Result<Seq<Seq<char>>, OrderIssue> {
    visit(g, name, seq![], seq![], g.dom().len())
}

/// Why a load order could not be made.
#[derive(Clone, Debug, PartialEq, Eq)]
pub enum DependencyError {
    /// `cyclic mod dependency involving <name>`
    Cyclic(String),
    /// `unknown mod dependency <name>`
    Unknown(String),
}

pub open spec fn issue_of(e: DependencyError) -> OrderIssue {
    match e {
        DependencyError::Cyclic(n) => OrderIssue::Cyclic(n@),
        DependencyError::Unknown(n) => OrderIssue::Unknown(n@),
    }
}

pub open spec fn order_result_view(r: Result<Vec<String>, DependencyError>) -> Result<
    Seq<Seq<char>>,
    OrderIssue,
> {
    match r {
        Ok(v) => Ok(v.deep_view()),
        Err(e) => Err(issue_of(e)),
    }
}

pub open spec fn spec_issue_message(issue: OrderIssue) -> Seq<char> {
    match issue {
        OrderIssue::Cyclic(n) => "cyclic mod dependency involving "@ + n,
        OrderIssue::Unknown(n) => "unknown mod dependency "@ + n,
    }
}

impl DependencyError {
    /// The error as text.
    pub fn message(&self) -> (text: String)
        ensures
            text@ == spec_issue_message(issue_of(*self)),
    {
        match self {
            DependencyError::Cyclic(name) => {
                let mut text = "cyclic mod dependency involving ".to_owned();
                text.append(name.as_str());
                text
            },
            DependencyError::Unknown(name) => {
                let mut text = "unknown mod dependency ".to_owned();
                text.append(name.as_str());
                text
            },
        }
    }
}

/// Once the visit of a prefix of `deps` fails, the visit of `deps` fails
/// in the same way.
proof fn lemma_visit_deps_error_persists(
    g: Map<Seq<char>, ModManifest>,
    deps: Seq<Seq<char>>,
    k: int,
    stack: Seq<Seq<char>>,
    order: Seq<Seq<char>>,
    fuel: nat,
)
    requires
        0 <= k <= deps.len(),
        visit_deps(g, deps.take(k), stack, order, fuel) is Err,
    ensures
        visit_deps(g, deps, stack, order, fuel) == visit_deps(g, deps.take(k), stack, order, fuel),
    decreases deps.len() - k,
{
    if k < deps.len() {
        assert(deps.take(k + 1).drop_last() =~= deps.take(k));
        lemma_visit_deps_error_persists(g, deps, k + 1, stack, order, fuel);
    } else {
        assert(deps.take(k) =~= deps);
    }
}

/// Whether `v` holds `name`.
fn contains_name(v: &Vec<String>, name: &str) -> (found: bool)
    ensures
        found == v.deep_view().contains(name@),
{
    let n = v.len();
    for i in 0..n
        invariant
            n == v.len(),
            forall|k: int| 0 <= k < i ==> v.deep_view()[k] != name@,
    {
        if str_equal(v[i].as_str(), name) {
            assert(v.deep_view()[i as int] == name@);
            return true;
        }
    }
    proof {
        assert forall|k: int| 0 <= k < v.deep_view().len() implies v.deep_view()[k] != name@ by {}
    }
    false
}

impl ModGraph {
    /// The graph holds finitely many mods.
    pub proof fn lemma_dom_finite(&self)
        ensures
            self@.dom().finite(),
    {
        assert(self@.dom() =~= manifest_names(self.manifests@).to_set());
    }

    /// A stack of distinct known mods is shorter than the number of mods,
    /// as long as some known mod is not on it.
    proof fn lemma_stack_below_dom(&self, stack: Seq<Seq<char>>, name: Seq<char>)
        requires
            stack.no_duplicates(),
            forall|k: int| 0 <= k < stack.len() ==> self@.contains_key(#[trigger] stack[k]),
            !stack.contains(name),
            self@.contains_key(name),
        ensures
            stack.len() < self@.dom().len(),
    {
        self.lemma_dom_finite();
        let pushed = stack.push(name);
        assert(pushed.no_duplicates());
        pushed.unique_seq_to_set();
        assert(pushed.to_set().subset_of(self@.dom()));
        vstd::set_lib::lemma_len_subset(pushed.to_set(), self@.dom());
    }

    fn visit(
        &self,
        mod_name: &str,
        stack: &mut Vec<String>,
        order: &mut Vec<String>,
        Ghost(fuel): Ghost<nat>,
    ) -> (result: Result<(), DependencyError>)
        requires
            old(stack).deep_view().no_duplicates(),
            forall|k: int|
                0 <= k < old(stack).deep_view().len() ==> self@.contains_key(
                    #[trigger] old(stack).deep_view()[k],
                ),
            old(stack).deep_view().len() + fuel == self@.dom().len(),
        ensures
            match visit(self@, mod_name@, old(stack).deep_view(), old(order).deep_view(), fuel) {
                Ok(placed) => result is Ok && final(order).deep_view() == placed
                    && final(stack).deep_view() == old(stack).deep_view(),
                Err(issue) => result is Err && issue_of(result->Err_0) == issue,
            },
        decreases fuel,
    {
        let ghost g = self@;
        let ghost name = mod_name@;
        let ghost stack0 = stack.deep_view();
        let ghost order0 = order.deep_view();
        if contains_name(order, mod_name) {
            return Ok(());
        }
        if contains_name(stack, mod_name) {
            return Err(DependencyError::Cyclic(mod_name.to_owned()));
        }
        let manifest = match self.get(mod_name) {
            Some(m) => m,
            None => {
                return Err(DependencyError::Unknown(mod_name.to_owned()));
            },
        };
        proof {
            self.lemma_stack_below_dom(stack0, name);
        }
        let ghost inner_fuel: nat = (fuel - 1) as nat;
        let ghost deps = dependency_names(*manifest);
        stack.push(mod_name.to_owned());
        let ghost stack1 = stack.deep_view();
        proof {
            assert(stack1 =~= stack0.push(name));
            assert(visit_deps(g, deps.take(0), stack1, order0, inner_fuel) == Ok::<
                Seq<Seq<char>>,
                OrderIssue,
            >(order0)) by {
                assert(deps.take(0).len() == 0);
            }
        }
        let n = manifest.dependencies.len();
        for i in 0..n
            invariant
                n == manifest.dependencies.len(),
                g == self@,
                deps == dependency_names(*manifest),
                g.contains_key(name),
                g[name] == *manifest,
                stack1 == stack0.push(name),
                stack.deep_view() == stack1,
                stack1.no_duplicates(),
                forall|k: int| 0 <= k < stack1.len() ==> g.contains_key(#[trigger] stack1[k]),
                stack1.len() + inner_fuel == g.dom().len(),
                inner_fuel + 1 == fuel,
                name == mod_name@,
                stack0 == old(stack).deep_view(),
                order0 == old(order).deep_view(),
                !order0.contains(name),
                !stack0.contains(name),
                visit_deps(g, deps.take(i as int), stack1, order0, inner_fuel) == Ok::<
                    Seq<Seq<char>>,
                    OrderIssue,
                >(order.deep_view()),
        {
            let ghost before = order.deep_view();
            proof {
                assert(deps.take(i + 1).drop_last() =~= deps.take(i as int));
                assert(deps.take(i + 1).last() == manifest.dependencies@[i as int].0@);
            }
            let outcome = self.visit(
                manifest.dependencies[i].0.as_str(),
                stack,
                order,
                Ghost(inner_fuel),
            );
            match outcome {
                Ok(()) => {},
                Err(e) => {
                    proof {
                        assert(visit_deps(g, deps.take(i + 1), stack1, order0, inner_fuel) == Err::<
                            Seq<Seq<char>>,
                            OrderIssue,
                        >(issue_of(e)));
                        lemma_visit_deps_error_persists(g, deps, i + 1, stack1, order0, inner_fuel);
                    }
                    return Err(e);
                },
            }
        }
        proof {
            assert(deps.take(n as int) =~= deps);
        }
        let ghost before_pop = stack@;
        let _ = stack.pop();
        let ghost before_push = order.deep_view();
        order.push(mod_name.to_owned());
        proof {
            assert(stack@ =~= before_pop.drop_last());
            assert(stack.deep_view() =~= stack1.drop_last());
            assert(stack1.drop_last() =~= stack0);
            assert(order.deep_view() =~= before_push.push(name));
        }
        Ok(())
    }

    /// The load order of `mod_name`: the mods it depends on, directly or not,
    /// each once and before the mods that need it, then `mod_name` itself.
    pub fn dependency_order(&self, mod_name: &str) -> (order: Result<Vec<String>, DependencyError>)
        ensures
            order_result_view(order) == spec_dependency_order(self@, mod_name@),
    {
        let mut stack: Vec<String> = Vec::new();
        let mut order: Vec<String> = Vec::new();
        proof {
            assert(stack.deep_view() =~= Seq::<Seq<char>>::empty());
            assert(order.deep_view() =~= Seq::<Seq<char>>::empty());
        }
        let ghost fuel: nat = self@.dom().len();
        match self.visit(mod_name, &mut stack, &mut order, Ghost(fuel)) {
            Ok(()) => Ok(order),
            Err(e) => Err(e),
        }
    }
}

} // verus!

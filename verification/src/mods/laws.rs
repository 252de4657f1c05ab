//! What the load order of a mod is: exactly the mods it needs, directly or
//! not, each placed after the mods it depends on; and when there is none,
//! the error names a needed mod that is missing or that depends on itself.

use vstd::prelude::*;

use super::{dependency_names, spec_dependency_order, visit, visit_deps, ModManifest, OrderIssue};

verus! {

/// `a` lists `b` among its dependencies.
pub open spec fn depends_on(g: Map<Seq<char>, ModManifest>, a: Seq<char>, b: Seq<char>) -> bool {
    g.contains_key(a) && dependency_names(g[a]).contains(b)
}

/// Each mod of `p` depends on the next one.
pub open spec fn is_dep_path(g: Map<Seq<char>, ModManifest>, p: Seq<Seq<char>>) -> bool {
    &&& p.len() >= 1
    &&& forall|k: int| #![trigger p[k]] 0 <= k < p.len() - 1 ==> depends_on(g, p[k], p[k + 1])
}

/// `b` is `a` or a mod that `a` needs, directly or not.
pub open spec fn reaches(g: Map<Seq<char>, ModManifest>, a: Seq<char>, b: Seq<char>) -> bool {
    exists|p: Seq<Seq<char>>| #[trigger] is_dep_path(g, p) && p[0] == a && p.last() == b
}

/// `b` is a mod that `a` needs, through one dependency or more.
pub open spec fn reaches_plus(g: Map<Seq<char>, ModManifest>, a: Seq<char>, b: Seq<char>) -> bool {
    exists|p: Seq<Seq<char>>|
        #[trigger] is_dep_path(g, p) && p.len() >= 2 && p[0] == a && p.last() == b
}

/// `a` needs itself.
pub open spec fn on_cycle(g: Map<Seq<char>, ModManifest>, a: Seq<char>) -> bool {
    reaches_plus(g, a, a)
}

/// Every mod of `order` is known, appears once, and comes after each mod
/// it depends on.
pub open spec fn well_placed(g: Map<Seq<char>, ModManifest>, order: Seq<Seq<char>>) -> bool {
    &&& order.no_duplicates()
    &&& forall|k: int| 0 <= k < order.len() ==> g.contains_key(#[trigger] order[k])
    &&& forall|k: int, i: int|
        #![trigger dependency_names(g[order[k]])[i]]
        0 <= k < order.len() && 0 <= i < dependency_names(g[order[k]]).len()
            ==> order.take(k).contains(dependency_names(g[order[k]])[i])
}

proof fn lemma_path_single(g: Map<Seq<char>, ModManifest>, a: Seq<char>)
    ensures
        reaches(g, a, a),
{
    let p = seq![a];
    assert(is_dep_path(g, p));
}

proof fn lemma_path_step(g: Map<Seq<char>, ModManifest>, a: Seq<char>, b: Seq<char>, c: Seq<char>)
    requires
        reaches(g, a, b),
        depends_on(g, b, c),
    ensures
        reaches(g, a, c),
        reaches_plus(g, a, c),
{
    let p = choose|p: Seq<Seq<char>>| #[trigger] is_dep_path(g, p) && p[0] == a && p.last() == b;
    let q = p.push(c);
    assert forall|k: int| #![trigger q[k]] 0 <= k < q.len() - 1 implies depends_on(g, q[k], q[k + 1]) by {
        if k < p.len() - 1 {
            assert(p[k] == q[k] && p[k + 1] == q[k + 1]);
        }
    }
    assert(is_dep_path(g, q));
}

proof fn lemma_plus_step(g: Map<Seq<char>, ModManifest>, a: Seq<char>, b: Seq<char>, c: Seq<char>)
    requires
        reaches_plus(g, a, b),
        depends_on(g, b, c),
    ensures
        reaches_plus(g, a, c),
{
    let p = choose|p: Seq<Seq<char>>|
        #[trigger] is_dep_path(g, p) && p.len() >= 2 && p[0] == a && p.last() == b;
    let q = p.push(c);
    assert forall|k: int| #![trigger q[k]] 0 <= k < q.len() - 1 implies depends_on(g, q[k], q[k + 1]) by {
        if k < p.len() - 1 {
            assert(p[k] == q[k] && p[k + 1] == q[k + 1]);
        }
    }
    assert(is_dep_path(g, q));
}

proof fn lemma_path_prepend(g: Map<Seq<char>, ModManifest>, a: Seq<char>, b: Seq<char>, c: Seq<char>)
    requires
        depends_on(g, a, b),
        reaches(g, b, c),
    ensures
        reaches(g, a, c),
{
    let p = choose|p: Seq<Seq<char>>| #[trigger] is_dep_path(g, p) && p[0] == b && p.last() == c;
    let q = seq![a] + p;
    assert forall|k: int| #![trigger q[k]] 0 <= k < q.len() - 1 implies depends_on(g, q[k], q[k + 1]) by {
        if k > 0 {
            assert(q[k] == p[k - 1] && q[k + 1] == p[k]);
        }
    }
    assert(is_dep_path(g, q));
}

/// A successful visit places `name` and what it needs, keeps what was
/// placed before in front, places nothing of the stack, and places only
/// mods that `name` needs.
proof fn lemma_visit_places(
    g: Map<Seq<char>, ModManifest>,
    name: Seq<char>,
    stack: Seq<Seq<char>>,
    order: Seq<Seq<char>>,
    fuel: nat,
)
    requires
        well_placed(g, order),
        visit(g, name, stack, order, fuel) is Ok,
    ensures
        ({
            let placed = visit(g, name, stack, order, fuel)->Ok_0;
            &&& well_placed(g, placed)
            &&& order.is_prefix_of(placed)
            &&& placed.contains(name)
            &&& forall|x: Seq<char>|
                stack.contains(x) && #[trigger] placed.contains(x) ==> order.contains(x)
            &&& forall|i: int|
                order.len() <= i < placed.len() ==> reaches(g, name, #[trigger] placed[i])
            &&& !order.contains(name) ==> placed.last() == name
        }),
    decreases fuel, 0nat, 0nat,
{
    if order.contains(name) {
        assert(order.is_prefix_of(order));
    } else {
        let deps = dependency_names(g[name]);
        let pushed = stack.push(name);
        lemma_visit_deps_places(g, deps, pushed, order, (fuel - 1) as nat);
        let p = visit_deps(g, deps, pushed, order, (fuel - 1) as nat)->Ok_0;
        let placed = p.push(name);
        assert(pushed.contains(name)) by {
            assert(pushed[stack.len() as int] == name);
        }
        assert(!p.contains(name));
        assert(placed.no_duplicates()) by {
            assert forall|i: int, j: int| 0 <= i < j < placed.len() implies placed[i] != placed[j] by {
                if j == p.len() {
                    assert(p[i] == placed[i]);
                } else {
                    assert(p[i] == placed[i] && p[j] == placed[j]);
                }
            }
        }
        assert forall|k: int| 0 <= k < placed.len() implies g.contains_key(#[trigger] placed[k]) by {
            if k < p.len() {
                assert(p[k] == placed[k]);
            }
        }
        assert forall|k: int, i: int|
            0 <= k < placed.len() && 0 <= i < dependency_names(g[placed[k]]).len() implies placed.take(
            k,
        ).contains(#[trigger] dependency_names(g[placed[k]])[i]) by {
            if k < p.len() {
                assert(placed[k] == p[k]);
                assert(placed.take(k) =~= p.take(k));
            } else {
                assert(placed.take(k) =~= p);
                assert(p.contains(deps[i]));
            }
        }
        assert(order.is_prefix_of(placed)) by {
            assert forall|i: int| 0 <= i < order.len() implies order[i] == placed[i] by {
                assert(order[i] == p[i]);
            }
        }
        assert(placed.contains(name)) by {
            assert(placed[p.len() as int] == name);
        }
        assert forall|x: Seq<char>| stack.contains(x) && #[trigger] placed.contains(x) implies order.contains(
            x,
        ) by {
            let j = choose|j: int| 0 <= j < placed.len() && placed[j] == x;
            if j < p.len() {
                assert(p[j] == x);
                assert(p.contains(x));
                let s = choose|s: int| 0 <= s < stack.len() && stack[s] == x;
                assert(pushed[s] == x);
                assert(pushed.contains(x));
            } else {
                assert(x == name);
            }
        }
        assert forall|i: int| order.len() <= i < placed.len() implies reaches(
            g,
            name,
            #[trigger] placed[i],
        ) by {
            if i == p.len() {
                lemma_path_single(g, name);
            } else {
                assert(placed[i] == p[i]);
                let di = choose|di: int| 0 <= di < deps.len() && reaches(g, #[trigger] deps[di], p[i]);
                assert(deps.contains(deps[di]));
                assert(depends_on(g, name, deps[di]));
                lemma_path_prepend(g, name, deps[di], p[i]);
            }
        }
    }
}

proof fn lemma_visit_deps_places(
    g: Map<Seq<char>, ModManifest>,
    deps: Seq<Seq<char>>,
    stack: Seq<Seq<char>>,
    order: Seq<Seq<char>>,
    fuel: nat,
)
    requires
        well_placed(g, order),
        visit_deps(g, deps, stack, order, fuel) is Ok,
    ensures
        ({
            let placed = visit_deps(g, deps, stack, order, fuel)->Ok_0;
            &&& well_placed(g, placed)
            &&& order.is_prefix_of(placed)
            &&& forall|i: int| 0 <= i < deps.len() ==> placed.contains(#[trigger] deps[i])
            &&& forall|x: Seq<char>|
                stack.contains(x) && #[trigger] placed.contains(x) ==> order.contains(x)
            &&& forall|i: int|
                #![trigger placed[i]]
                order.len() <= i < placed.len() ==> exists|di: int|
                    0 <= di < deps.len() && reaches(g, #[trigger] deps[di], placed[i])
        }),
    decreases fuel, 1nat, deps.len(),
{
    if deps.len() == 0 {
        assert(order.is_prefix_of(order));
    } else {
        let init = deps.drop_last();
        lemma_visit_deps_places(g, init, stack, order, fuel);
        let p1 = visit_deps(g, init, stack, order, fuel)->Ok_0;
        lemma_visit_places(g, deps.last(), stack, p1, fuel);
        let placed = visit(g, deps.last(), stack, p1, fuel)->Ok_0;
        assert(order.is_prefix_of(placed)) by {
            assert forall|i: int| 0 <= i < order.len() implies order[i] == placed[i] by {
                assert(order[i] == p1[i]);
                assert(p1[i] == placed[i]);
            }
        }
        assert forall|i: int| 0 <= i < deps.len() implies placed.contains(#[trigger] deps[i]) by {
            if i < init.len() {
                assert(init[i] == deps[i]);
                assert(p1.contains(init[i]));
                let j = choose|j: int| 0 <= j < p1.len() && p1[j] == init[i];
                assert(placed[j] == p1[j]);
            }
        }
        assert forall|x: Seq<char>| stack.contains(x) && #[trigger] placed.contains(x) implies order.contains(
            x,
        ) by {
            if !p1.contains(x) {
                assert(false);
            }
        }
        assert forall|i: int| #![trigger placed[i]] order.len() <= i < placed.len() implies exists|di: int|
            0 <= di < deps.len() && reaches(g, #[trigger] deps[di], placed[i]) by {
            if i < p1.len() {
                assert(placed[i] == p1[i]);
                let di = choose|di: int| 0 <= di < init.len() && reaches(g, #[trigger] init[di], p1[i]);
                assert(deps[di] == init[di]);
            } else {
                assert(reaches(g, deps[deps.len() - 1], placed[i]));
            }
        }
    }
}

/// Places of `order` go down along dependencies: every mod that a placed
/// mod needs is placed, and a mod needed through one dependency or more is
/// placed strictly earlier.
proof fn lemma_well_placed_paths(
    g: Map<Seq<char>, ModManifest>,
    order: Seq<Seq<char>>,
    p: Seq<Seq<char>>,
    start: int,
    k: int,
)
    requires
        well_placed(g, order),
        is_dep_path(g, p),
        0 <= start < order.len(),
        order[start] == p[0],
        0 <= k < p.len(),
    ensures
        exists|j: int| 0 <= j <= start && order[j] == p[k] && (k > 0 ==> j < start),
    decreases k,
{
    if k == 0 {
        assert(order[start] == p[0]);
    } else {
        lemma_well_placed_paths(g, order, p, start, k - 1);
        let j = choose|j: int| 0 <= j <= start && order[j] == p[k - 1] && (k - 1 > 0 ==> j < start);
        assert(depends_on(g, p[k - 1], p[k]));
        let deps = dependency_names(g[order[j]]);
        let i = choose|i: int| 0 <= i < deps.len() && deps[i] == p[k];
        assert(order.take(j).contains(deps[i]));
        let m = choose|m: int| 0 <= m < order.take(j).len() && order.take(j)[m] == deps[i];
        assert(order[m] == p[k]);
    }
}

/// A successful load order holds exactly the mods that `name` needs
/// (itself included), each once, each after every mod it depends on, with
/// `name` last; and then no needed mod is missing or needs itself.
pub proof fn lemma_load_order_is_topological(g: Map<Seq<char>, ModManifest>, name: Seq<char>)
    requires
        spec_dependency_order(g, name) is Ok,
    ensures
        ({
            let order = spec_dependency_order(g, name)->Ok_0;
            &&& well_placed(g, order)
            &&& order.len() > 0 && order.last() == name
            &&& forall|m: Seq<char>| #[trigger] order.contains(m) <==> reaches(g, name, m)
            &&& forall|m: Seq<char>|
                #[trigger] reaches(g, name, m) ==> g.contains_key(m) && !on_cycle(g, m)
        }),
{
    let empty = Seq::<Seq<char>>::empty();
    assert(well_placed(g, empty));
    lemma_visit_places(g, name, empty, empty, g.dom().len());
    let order = spec_dependency_order(g, name)->Ok_0;
    let start = order.len() - 1;
    assert forall|m: Seq<char>| #[trigger] order.contains(m) <==> reaches(g, name, m) by {
        if order.contains(m) {
            let i = choose|i: int| 0 <= i < order.len() && order[i] == m;
            assert(reaches(g, name, order[i]));
        }
        if reaches(g, name, m) {
            let p = choose|p: Seq<Seq<char>>| #[trigger] is_dep_path(g, p) && p[0] == name && p.last() == m;
            lemma_well_placed_paths(g, order, p, start, p.len() - 1);
        }
    }
    assert forall|m: Seq<char>| #[trigger] reaches(g, name, m) implies g.contains_key(m) && !on_cycle(
        g,
        m,
    ) by {
        assert(order.contains(m));
        let i = choose|i: int| 0 <= i < order.len() && order[i] == m;
        assert(g.contains_key(order[i]));
        if on_cycle(g, m) {
            let p = choose|p: Seq<Seq<char>>|
                #[trigger] is_dep_path(g, p) && p.len() >= 2 && p[0] == m && p.last() == m;
            lemma_well_placed_paths(g, order, p, i, p.len() - 1);
            let j = choose|j: int| 0 <= j <= i && order[j] == p[p.len() - 1] && j < i;
            assert(order[j] == order[i]);
        }
    }
}

/// A stack of distinct known mods leaves room for one more known mod not
/// on it.
proof fn lemma_stack_room(g: Map<Seq<char>, ModManifest>, stack: Seq<Seq<char>>, name: Seq<char>)
    requires
        g.dom().finite(),
        stack.no_duplicates(),
        forall|k: int| 0 <= k < stack.len() ==> g.contains_key(#[trigger] stack[k]),
        !stack.contains(name),
        g.contains_key(name),
    ensures
        stack.len() < g.dom().len(),
{
    let pushed = stack.push(name);
    assert(pushed.no_duplicates());
    pushed.unique_seq_to_set();
    assert(pushed.to_set().subset_of(g.dom()));
    vstd::set_lib::lemma_len_subset(pushed.to_set(), g.dom());
}

/// What makes a visit from `root` fail: the mod it names is needed by
/// `root` and is either unknown or needs itself.
pub open spec fn error_explained(
    g: Map<Seq<char>, ModManifest>,
    root: Seq<char>,
    outcome: Result<Seq<Seq<char>>, OrderIssue>,
) -> bool {
    match outcome {
        Ok(_) => true,
        Err(OrderIssue::Unknown(m)) => reaches(g, root, m) && !g.contains_key(m),
        Err(OrderIssue::Cyclic(m)) => reaches(g, root, m) && on_cycle(g, m),
    }
}

proof fn lemma_visit_error(
    g: Map<Seq<char>, ModManifest>,
    root: Seq<char>,
    name: Seq<char>,
    stack: Seq<Seq<char>>,
    order: Seq<Seq<char>>,
    fuel: nat,
)
    requires
        g.dom().finite(),
        reaches(g, root, name),
        forall|k: int| 0 <= k < stack.len() ==> reaches_plus(g, #[trigger] stack[k], name),
        stack.no_duplicates(),
        forall|k: int| 0 <= k < stack.len() ==> g.contains_key(#[trigger] stack[k]),
        stack.len() + fuel == g.dom().len(),
    ensures
        error_explained(g, root, visit(g, name, stack, order, fuel)),
    decreases fuel, 0nat, 0nat,
{
    if order.contains(name) {
    } else if stack.contains(name) {
        let k = choose|k: int| 0 <= k < stack.len() && stack[k] == name;
        assert(reaches_plus(g, stack[k], name));
    } else if !g.contains_key(name) {
    } else {
        lemma_stack_room(g, stack, name);
        let deps = dependency_names(g[name]);
        let pushed = stack.push(name);
        assert forall|i: int| 0 <= i < deps.len() implies reaches(g, root, #[trigger] deps[i])
            && forall|k: int| 0 <= k < pushed.len() ==> reaches_plus(g, #[trigger] pushed[k], deps[i]) by {
            assert(deps.contains(deps[i]));
            assert(depends_on(g, name, deps[i]));
            lemma_path_step(g, root, name, deps[i]);
            assert forall|k: int| 0 <= k < pushed.len() implies reaches_plus(
                g,
                #[trigger] pushed[k],
                deps[i],
            ) by {
                if k < stack.len() {
                    assert(pushed[k] == stack[k]);
                    lemma_plus_step(g, stack[k], name, deps[i]);
                } else {
                    lemma_path_single(g, name);
                    lemma_path_step(g, name, name, deps[i]);
                }
            }
        }
        assert forall|k: int| 0 <= k < pushed.len() implies g.contains_key(#[trigger] pushed[k]) by {
            if k < stack.len() {
                assert(pushed[k] == stack[k]);
            }
        }
        lemma_visit_deps_error(g, root, deps, pushed, order, (fuel - 1) as nat);
    }
}

proof fn lemma_visit_deps_error(
    g: Map<Seq<char>, ModManifest>,
    root: Seq<char>,
    deps: Seq<Seq<char>>,
    stack: Seq<Seq<char>>,
    order: Seq<Seq<char>>,
    fuel: nat,
)
    requires
        g.dom().finite(),
        forall|i: int|
            0 <= i < deps.len() ==> reaches(g, root, #[trigger] deps[i]) && forall|k: int|
                0 <= k < stack.len() ==> reaches_plus(g, #[trigger] stack[k], deps[i]),
        stack.no_duplicates(),
        forall|k: int| 0 <= k < stack.len() ==> g.contains_key(#[trigger] stack[k]),
        stack.len() + fuel == g.dom().len(),
    ensures
        error_explained(g, root, visit_deps(g, deps, stack, order, fuel)),
    decreases fuel, 1nat, deps.len(),
{
    if deps.len() > 0 {
        let init = deps.drop_last();
        assert forall|i: int| 0 <= i < init.len() implies reaches(g, root, #[trigger] init[i])
            && forall|k: int| 0 <= k < stack.len() ==> reaches_plus(g, #[trigger] stack[k], init[i]) by {
            assert(init[i] == deps[i]);
        }
        lemma_visit_deps_error(g, root, init, stack, order, fuel);
        match visit_deps(g, init, stack, order, fuel) {
            Ok(placed) => {
                let last = deps[deps.len() - 1];
                assert(reaches(g, root, last));
                lemma_visit_error(g, root, last, stack, placed, fuel);
            },
            Err(_) => {},
        }
    }
}

/// When `name` has no load order, the error names a mod that `name` needs
/// (directly or not, or `name` itself) and that is unknown, or that needs
/// itself.
pub proof fn lemma_load_order_error(g: Map<Seq<char>, ModManifest>, name: Seq<char>)
    requires
        g.dom().finite(),
    ensures
        error_explained(g, name, spec_dependency_order(g, name)),
{
    lemma_path_single(g, name);
    lemma_visit_error(g, name, name, seq![], seq![], g.dom().len());
}

} // verus!

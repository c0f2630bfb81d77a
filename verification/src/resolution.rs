//! Dependency resolution: the order in which the vars of an alias are resolved, and the
//! gathering of their choices.
use vstd::prelude::*;
use crate::identifiers::{Identifier, IdView, Identifiers, ids_view, spec_parse};
use crate::choices::{Choice, ChoiceView, choices_view};
use crate::vars::{Var, VarView, var_command};
use crate::dependencies::{
    Dependencies, ExecutionSequence, ErrorsDependencies, choice_map_view, substitute_all,
    strings_view,
};
use crate::resolver::{Resolver, ResolverContext, ErrorsResolver};

verus! {

/// The dependencies of a var: the identifiers named by its command.
pub open spec fn var_deps(v: VarView) -> Seq<IdView> {
    spec_parse(var_command(v), v.name.namespace)
}

/// `x` is a known var that depends on `y`.
pub open spec fn depends_on(m: Map<IdView, VarView>, x: IdView, y: IdView) -> bool {
    m.contains_key(x) && var_deps(m[x]).contains(y)
}

/// `p` starts at one of `roots` and each of its steps goes from a known var to one of its
/// dependencies.
pub open spec fn is_dep_path(m: Map<IdView, VarView>, roots: Seq<IdView>, p: Seq<IdView>) -> bool {
    &&& p.len() > 0
    &&& roots.contains(p[0])
    &&& forall|i: int| 0 <= i < p.len() - 1 ==> #[trigger] depends_on(m, p[i], p[i + 1])
}

/// `x` is one of `roots` or is reached from one through dependencies of known vars.
pub open spec fn reachable(m: Map<IdView, VarView>, roots: Seq<IdView>, x: IdView) -> bool {
    exists|p: Seq<IdView>| #[trigger] is_dep_path(m, roots, p) && p.last() == x
}

/// A collection of vars, looked up by identifier.
pub trait VarsCollection {
    /// The vars, by identifier.
    spec fn vars_map(&self) -> Map<IdView, VarView>;

    /// The collection is finite and holds each var under its own identifier.
    proof fn lemma_vars_map(&self)
        ensures
            self.vars_map().dom().finite(),
            forall|k: IdView| #[trigger]
                self.vars_map().contains_key(k) ==> self.vars_map()[k].name == k,
    ;

    /// The var with identifier `id`.
    fn get(&self, id: &Identifier) -> (r: Option<&Var>)
        ensures
            match r {
                Some(v) => self.vars_map().contains_key(id@) && v@ == self.vars_map()[id@],
                None => !self.vars_map().contains_key(id@),
            },
    ;
}

/// Default choices of vars, which spare resolving them.
pub trait VarsDefaultValues {
    /// The default choices, by identifier.
    spec fn defaults_map(&self) -> Map<IdView, Seq<ChoiceView>>;

    /// The default choices of `id`.
    fn default_value(&self, id: &Identifier) -> (r: Option<Vec<Choice>>)
        ensures
            match r {
                Some(cs) => self.defaults_map().contains_key(id@) && choices_view(cs@)
                    == self.defaults_map()[id@],
                None => !self.defaults_map().contains_key(id@),
            },
    ;
}

/// Why dependencies could not be resolved.
#[derive(Debug)]
pub enum ErrorDependencyResolution {
    /// These dependencies are not known vars.
    MissingDependencies(Identifiers),
    /// Defaults were given for these unknown vars.
    UnknowVarsDefaults(Identifiers),
    /// The var could not be resolved.
    NoChoiceForVar { var_name: Identifier, error: ErrorsResolver },
}

/// Whether `v` holds `x`.
pub fn ids_contains(v: &Vec<Identifier>, x: &Identifier) -> (r: bool)
    ensures
        r == ids_view(v@).contains(x@),
{
    let mut i: usize = 0;
    while i < v.len()
        invariant
            i <= v.len(),
            forall|k: int| 0 <= k < i ==> v@[k]@ != x@,
        decreases v.len() - i,
    {
        if v[i].equals(x) {
            assert(ids_view(v@)[i as int] == x@);
            return true;
        }
        i = i + 1;
    }
    assert forall|k: int| 0 <= k < ids_view(v@).len() implies ids_view(v@)[k] != x@ by {
        assert(ids_view(v@)[k] == v@[k]@);
    }
    false
}

pub proof fn lemma_root_reachable(m: Map<IdView, VarView>, roots: Seq<IdView>, i: int)
    requires
        0 <= i < roots.len(),
    ensures
        reachable(m, roots, roots[i]),
{
    let p = seq![roots[i]];
    assert(is_dep_path(m, roots, p));
}

pub proof fn lemma_step_reachable(m: Map<IdView, VarView>, roots: Seq<IdView>, x: IdView, y: IdView)
    requires
        reachable(m, roots, x),
        depends_on(m, x, y),
    ensures
        reachable(m, roots, y),
{
    let p = choose|p: Seq<IdView>| #[trigger] is_dep_path(m, roots, p) && p.last() == x;
    let q = p.push(y);
    assert forall|i: int| 0 <= i < q.len() - 1 implies #[trigger] depends_on(m, q[i], q[i + 1]) by {
        if i < p.len() - 1 {
            assert(q[i] == p[i] && q[i + 1] == p[i + 1]);
        }
    }
    assert(is_dep_path(m, roots, q));
}

/// Everything reachable lies in any set that holds the roots and the dependencies of the
/// known vars it holds.
pub proof fn lemma_closure(m: Map<IdView, VarView>, roots: Seq<IdView>, s: Set<IdView>)
    requires
        forall|i: int| 0 <= i < roots.len() ==> s.contains(#[trigger] roots[i]),
        forall|x: IdView, y: IdView| s.contains(x) && #[trigger] depends_on(m, x, y) ==> s.contains(y),
    ensures
        forall|x: IdView| reachable(m, roots, x) ==> s.contains(x),
{
    assert forall|x: IdView| reachable(m, roots, x) implies s.contains(x) by {
        let p = choose|p: Seq<IdView>| #[trigger] is_dep_path(m, roots, p) && p.last() == x;
        lemma_path_in_set(m, roots, s, p, p.len() - 1);
    }
}

proof fn lemma_path_in_set(m: Map<IdView, VarView>, roots: Seq<IdView>, s: Set<IdView>, p: Seq<IdView>, i: int)
    requires
        is_dep_path(m, roots, p),
        0 <= i < p.len(),
        forall|i: int| 0 <= i < roots.len() ==> s.contains(#[trigger] roots[i]),
        forall|x: IdView, y: IdView| s.contains(x) && #[trigger] depends_on(m, x, y) ==> s.contains(y),
    ensures
        s.contains(p[i]),
    decreases i,
{
    if i == 0 {
        let k = choose|k: int| 0 <= k < roots.len() && roots[k] == p[0];
    } else {
        lemma_path_in_set(m, roots, s, p, i - 1);
        let j = i - 1;
        assert(depends_on(m, p[j], p[j + 1]));
    }
}

/// The invariant of the search for the execution sequence: the candidates still to visit
/// (`cv`), the vars seen (`ss`), those placed in the sequence (`ins`), the identifiers found
/// missing (`mv`) and the sequence so far (`ov`).
#[verifier::opaque]
pub open spec fn search_state(
    m: Map<IdView, VarView>,
    roots: Seq<IdView>,
    cv: Seq<IdView>,
    ss: Set<IdView>,
    ins: Set<IdView>,
    mv: Seq<IdView>,
    ov: Seq<IdView>,
) -> bool {
    &&& forall|i: int| 0 <= i < cv.len() ==> reachable(m, roots, #[trigger] cv[i])
    &&& forall|x: IdView| ss.contains(x) ==> reachable(m, roots, x) && m.contains_key(x)
    &&& ss.subset_of(m.dom())
    &&& ins.subset_of(ss)
    &&& forall|i: int| 0 <= i < mv.len() ==> reachable(m, roots, #[trigger] mv[i]) && !m.contains_key(mv[i])
    &&& ov.no_duplicates()
    &&& forall|x: IdView| ov.contains(x) <==> ins.contains(x)
    &&& forall|x: IdView| ss.contains(x) && !ins.contains(x) ==> cv.contains(x)
    &&& forall|i: int| 0 <= i < roots.len() ==> ({
        let x = #[trigger] roots[i];
        cv.contains(x) || ss.contains(x) || mv.contains(x)
    })
    &&& forall|x: IdView, y: IdView| ss.contains(x) && #[trigger] depends_on(m, x, y) ==> (cv.contains(y) || ss.contains(y) || mv.contains(y))
}

proof fn lemma_state_init(m: Map<IdView, VarView>, roots: Seq<IdView>)
    ensures
        search_state(m, roots, roots, Set::empty(), Set::empty(), Seq::empty(), Seq::empty()),
{
    reveal(search_state);
    assert forall|i: int| 0 <= i < roots.len() implies reachable(m, roots, #[trigger] roots[i]) by {
        lemma_root_reachable(m, roots, i);
    }
    assert forall|i: int| 0 <= i < roots.len() implies roots.contains(#[trigger] roots[i]) by {}
}

pub proof fn lemma_push_contains<A>(s: Seq<A>, a: A)
    ensures
        forall|x: A| s.push(a).contains(x) <==> s.contains(x) || x == a,
{
    assert forall|x: A| s.push(a).contains(x) <==> s.contains(x) || x == a by {
        if s.push(a).contains(x) && x != a {
            let k = choose|k: int| 0 <= k < s.push(a).len() && s.push(a)[k] == x;
            assert(s[k] == x);
        }
        if s.contains(x) {
            let k = choose|k: int| 0 <= k < s.len() && s[k] == x;
            assert(s.push(a)[k] == x);
        }
        if x == a {
            assert(s.push(a)[s.len() as int] == a);
        }
    }
}

proof fn lemma_pop_contains(cv0: Seq<IdView>, x: IdView)
    requires
        cv0.len() > 0,
        cv0.contains(x),
        x != cv0.last(),
    ensures
        cv0.drop_last().contains(x),
{
    let k = choose|k: int| 0 <= k < cv0.len() && cv0[k] == x;
    assert(cv0.drop_last()[k] == x);
}

proof fn lemma_pop_reach(m: Map<IdView, VarView>, roots: Seq<IdView>, cv0: Seq<IdView>)
    requires
        cv0.len() > 0,
        forall|i: int| 0 <= i < cv0.len() ==> reachable(m, roots, #[trigger] cv0[i]),
    ensures
        forall|i: int| 0 <= i < cv0.drop_last().len() ==> reachable(m, roots, #[trigger] cv0.drop_last()[i]),
        reachable(m, roots, cv0.last()),
{
    assert forall|i: int| 0 <= i < cv0.drop_last().len() implies reachable(m, roots, #[trigger] cv0.drop_last()[i]) by {
        assert(cv0.drop_last()[i] == cv0[i]);
    }
    assert(reachable(m, roots, cv0[cv0.len() - 1]));
}

/// The popped candidate has been placed already, or is being placed now after its
/// dependencies.
proof fn lemma_state_seen(
    m: Map<IdView, VarView>,
    roots: Seq<IdView>,
    cv0: Seq<IdView>,
    ss: Set<IdView>,
    ins: Set<IdView>,
    mv: Seq<IdView>,
    ov: Seq<IdView>,
)
    requires
        search_state(m, roots, cv0, ss, ins, mv, ov),
        cv0.len() > 0,
        ss.contains(cv0.last()),
    ensures
        ins.contains(cv0.last()) ==> search_state(m, roots, cv0.drop_last(), ss, ins, mv, ov),
        !ins.contains(cv0.last()) ==> search_state(
            m,
            roots,
            cv0.drop_last(),
            ss,
            ins.insert(cv0.last()),
            mv,
            ov.push(cv0.last()),
        ),
{
    reveal(search_state);
    let cur = cv0.last();
    let cv = cv0.drop_last();
    lemma_pop_reach(m, roots, cv0);
    assert forall|x: IdView| cv0.contains(x) && x != cur implies cv.contains(x) by {
        lemma_pop_contains(cv0, x);
    }
    if !ins.contains(cur) {
        let ins2 = ins.insert(cur);
        let ov2 = ov.push(cur);
        assert forall|x: IdView| ov2.contains(x) <==> ins2.contains(x) by {
            if ov2.contains(x) && x != cur {
                let k = choose|k: int| 0 <= k < ov2.len() && ov2[k] == x;
                assert(ov[k] == x);
            }
            if ov.contains(x) {
                let k = choose|k: int| 0 <= k < ov.len() && ov[k] == x;
                assert(ov2[k] == x);
            }
            if x == cur {
                assert(ov2[ov.len() as int] == cur);
            }
        }
        assert(ov2.no_duplicates()) by {
            assert forall|i: int, j: int| 0 <= i < ov2.len() && 0 <= j < ov2.len() && i != j implies ov2[i] != ov2[j] by {
                if i == ov.len() as int {
                    assert(ov2[j] == ov[j]);
                    assert(ov.contains(ov[j]));
                } else if j == ov.len() as int {
                    assert(ov2[i] == ov[i]);
                    assert(ov.contains(ov[i]));
                } else {
                    assert(ov2[i] == ov[i] && ov2[j] == ov[j]);
                }
            }
        }
    }
}

/// A var seen for the first time has no dependencies: it is placed at the front.
proof fn lemma_state_leaf(
    m: Map<IdView, VarView>,
    roots: Seq<IdView>,
    cv0: Seq<IdView>,
    ss: Set<IdView>,
    ins: Set<IdView>,
    mv: Seq<IdView>,
    ov: Seq<IdView>,
)
    requires
        search_state(m, roots, cv0, ss, ins, mv, ov),
        cv0.len() > 0,
        !ss.contains(cv0.last()),
        m.contains_key(cv0.last()),
        var_deps(m[cv0.last()]).len() == 0,
    ensures
        search_state(
            m,
            roots,
            cv0.drop_last(),
            ss.insert(cv0.last()),
            ins.insert(cv0.last()),
            mv,
            seq![cv0.last()] + ov,
        ),
{
    reveal(search_state);
    let cur = cv0.last();
    let cv = cv0.drop_last();
    let ss2 = ss.insert(cur);
    let ins2 = ins.insert(cur);
    let ov2 = seq![cur] + ov;
    lemma_pop_reach(m, roots, cv0);
    assert forall|x: IdView| cv0.contains(x) && x != cur implies cv.contains(x) by {
        lemma_pop_contains(cv0, x);
    }
    assert(!ins.contains(cur));
    assert(!ov.contains(cur));
    assert forall|x: IdView| ov2.contains(x) <==> ins2.contains(x) by {
        if ov2.contains(x) && x != cur {
            let k = choose|k: int| 0 <= k < ov2.len() && ov2[k] == x;
            assert(ov[k - 1] == x);
        }
        if ov.contains(x) {
            let k = choose|k: int| 0 <= k < ov.len() && ov[k] == x;
            assert(ov2[k + 1] == x);
        }
        if x == cur {
            assert(ov2[0] == cur);
        }
    }
    assert(ov2.no_duplicates()) by {
        assert forall|i: int, j: int| 0 <= i < ov2.len() && 0 <= j < ov2.len() && i != j implies ov2[i] != ov2[j] by {
            if i == 0 {
                assert(ov2[j] == ov[j - 1]);
            } else if j == 0 {
                assert(ov2[i] == ov[i - 1]);
            } else {
                assert(ov2[i] == ov[i - 1] && ov2[j] == ov[j - 1]);
            }
        }
    }
    assert forall|x: IdView, y: IdView| ss2.contains(x) && #[trigger] depends_on(m, x, y) implies (cv.contains(y) || ss2.contains(y) || mv.contains(y)) by {
        if x == cur {
            assert(var_deps(m[cur]).contains(y));
        }
    }
}

/// A var seen for the first time has dependencies: it goes back on the stack, then them.
proof fn lemma_state_node(
    m: Map<IdView, VarView>,
    roots: Seq<IdView>,
    cv0: Seq<IdView>,
    ss: Set<IdView>,
    ins: Set<IdView>,
    mv: Seq<IdView>,
    ov: Seq<IdView>,
)
    requires
        search_state(m, roots, cv0, ss, ins, mv, ov),
        cv0.len() > 0,
        !ss.contains(cv0.last()),
        m.contains_key(cv0.last()),
    ensures
        search_state(
            m,
            roots,
            cv0.drop_last().push(cv0.last()) + var_deps(m[cv0.last()]),
            ss.insert(cv0.last()),
            ins,
            mv,
            ov,
        ),
{
    reveal(search_state);
    let cur = cv0.last();
    let deps = var_deps(m[cur]);
    let c1 = cv0.drop_last();
    let cv = c1.push(cur) + deps;
    let ss2 = ss.insert(cur);
    lemma_pop_reach(m, roots, cv0);
    assert(c1.push(cur) =~= cv0);
    assert forall|x: IdView| cv0.contains(x) implies cv.contains(x) by {
        let k = choose|k: int| 0 <= k < cv0.len() && cv0[k] == x;
        assert(cv[k] == x);
    }
    assert forall|k: int| 0 <= k < deps.len() implies cv.contains(#[trigger] deps[k]) by {
        assert(cv[cv0.len() + k] == deps[k]);
    }
    assert forall|i: int| 0 <= i < cv.len() implies reachable(m, roots, #[trigger] cv[i]) by {
        if i < cv0.len() {
            assert(cv[i] == cv0[i]);
        } else {
            assert(cv[i] == deps[i - cv0.len()]);
            assert(depends_on(m, cur, deps[i - cv0.len()]));
            lemma_step_reachable(m, roots, cur, deps[i - cv0.len()]);
        }
    }
    assert forall|x: IdView, y: IdView| ss2.contains(x) && #[trigger] depends_on(m, x, y) implies (cv.contains(y) || ss2.contains(y) || mv.contains(y)) by {
        if x == cur {
            let k = choose|k: int| 0 <= k < deps.len() && deps[k] == y;
            assert(cv.contains(deps[k]));
        }
    }
}

/// A candidate that is not a known var is recorded as missing.
proof fn lemma_state_missing(
    m: Map<IdView, VarView>,
    roots: Seq<IdView>,
    cv0: Seq<IdView>,
    ss: Set<IdView>,
    ins: Set<IdView>,
    mv: Seq<IdView>,
    ov: Seq<IdView>,
)
    requires
        search_state(m, roots, cv0, ss, ins, mv, ov),
        cv0.len() > 0,
        !ss.contains(cv0.last()),
        !m.contains_key(cv0.last()),
    ensures
        search_state(m, roots, cv0.drop_last(), ss, ins, mv.push(cv0.last()), ov),
{
    reveal(search_state);
    let cur = cv0.last();
    let cv = cv0.drop_last();
    let mv2 = mv.push(cur);
    lemma_pop_reach(m, roots, cv0);
    assert forall|x: IdView| cv0.contains(x) && x != cur implies cv.contains(x) by {
        lemma_pop_contains(cv0, x);
    }
    assert forall|x: IdView| mv.contains(x) implies mv2.contains(x) by {
        let k = choose|k: int| 0 <= k < mv.len() && mv[k] == x;
        assert(mv2[k] == x);
    }
    assert(mv2[mv.len() as int] == cur);
    assert forall|i: int| 0 <= i < mv2.len() implies reachable(m, roots, #[trigger] mv2[i]) && !m.contains_key(mv2[i]) by {
        if i < mv.len() {
            assert(mv2[i] == mv[i]);
        }
    }
}

/// With no candidate left, the seen vars and the missing identifiers are all that is
/// reachable.
proof fn lemma_state_done(
    m: Map<IdView, VarView>,
    roots: Seq<IdView>,
    ss: Set<IdView>,
    ins: Set<IdView>,
    mv: Seq<IdView>,
    ov: Seq<IdView>,
)
    requires
        search_state(m, roots, Seq::empty(), ss, ins, mv, ov),
    ensures
        ov.no_duplicates(),
        forall|x: IdView| mv.contains(x) <==> reachable(m, roots, x) && !m.contains_key(x),
        mv.len() == 0 ==> forall|x: IdView| ov.contains(x) <==> reachable(m, roots, x),
        mv.len() == 0 ==> forall|x: IdView| reachable(m, roots, x) ==> m.contains_key(x),
{
    reveal(search_state);
    let s = ss.union(mv.to_set());
    assert forall|x: IdView, y: IdView| s.contains(x) && #[trigger] depends_on(m, x, y) implies s.contains(y) by {
        if !ss.contains(x) {
            let k = choose|k: int| 0 <= k < mv.len() && mv[k] == x;
            assert(!m.contains_key(mv[k]));
        }
    }
    assert forall|i: int| 0 <= i < roots.len() implies s.contains(#[trigger] roots[i]) by {}
    lemma_closure(m, roots, s);
    assert forall|x: IdView| mv.contains(x) <==> reachable(m, roots, x) && !m.contains_key(x) by {
        if mv.contains(x) {
            let k = choose|k: int| 0 <= k < mv.len() && mv[k] == x;
            assert(reachable(m, roots, mv[k]));
        }
        if reachable(m, roots, x) && !m.contains_key(x) {
            assert(s.contains(x));
            assert(!ss.contains(x));
            assert(mv.to_set().contains(x));
        }
    }
    assert forall|x: IdView| ss.contains(x) implies ins.contains(x) by {
        if !ins.contains(x) {
            assert(Seq::<IdView>::empty().contains(x));
        }
    }
    if mv.len() == 0 {
        assert forall|x: IdView| ov.contains(x) <==> reachable(m, roots, x) by {
            if reachable(m, roots, x) {
                assert(s.contains(x));
                assert(!mv.to_set().contains(x));
                assert(ss.contains(x));
            }
        }
        assert forall|x: IdView| reachable(m, roots, x) implies m.contains_key(x) by {
            assert(s.contains(x));
            assert(!mv.to_set().contains(x));
        }
    }
}

/// Each step of `p` goes from a known var to one of its dependencies.
pub open spec fn is_chain(m: Map<IdView, VarView>, p: Seq<IdView>) -> bool {
    forall|i: int| 0 <= i < p.len() - 1 ==> #[trigger] depends_on(m, p[i], p[i + 1])
}

/// `x` needs `y` through at least one dependency step.
pub open spec fn reaches(m: Map<IdView, VarView>, x: IdView, y: IdView) -> bool {
    exists|p: Seq<IdView>| #[trigger] is_chain(m, p) && p.len() >= 2 && p[0] == x && p.last() == y
}

/// No var reachable from `roots` needs itself.
pub open spec fn acyclic(m: Map<IdView, VarView>, roots: Seq<IdView>) -> bool {
    forall|x: IdView| reachable(m, roots, x) ==> !reaches(m, x, x)
}

/// No entry of `s` depends on an entry that comes after it.
pub open spec fn deps_first(m: Map<IdView, VarView>, s: Seq<IdView>) -> bool {
    forall|i: int, j: int| 0 <= i < j < s.len() ==> !#[trigger] depends_on(m, s[i], s[j])
}

proof fn lemma_reaches_step(m: Map<IdView, VarView>, x: IdView, y: IdView)
    requires
        depends_on(m, x, y),
    ensures
        reaches(m, x, y),
{
    let p = seq![x, y];
    assert forall|i: int| 0 <= i < p.len() - 1 implies #[trigger] depends_on(m, p[i], p[i + 1]) by {
        assert(i == 0);
    }
    assert(is_chain(m, p));
}

proof fn lemma_reaches_then(m: Map<IdView, VarView>, x: IdView, y: IdView, z: IdView)
    requires
        reaches(m, x, y),
        depends_on(m, y, z),
    ensures
        reaches(m, x, z),
{
    let p = choose|p: Seq<IdView>| #[trigger] is_chain(m, p) && p.len() >= 2 && p[0] == x && p.last() == y;
    let q = p.push(z);
    assert forall|i: int| 0 <= i < q.len() - 1 implies #[trigger] depends_on(m, q[i], q[i + 1]) by {
        if i < p.len() - 1 {
            assert(q[i] == p[i] && q[i + 1] == p[i + 1]);
        } else {
            assert(q[i] == y && q[i + 1] == z);
        }
    }
    assert(is_chain(m, q));
}

/// `p` was seen and is not placed yet: its entry waits on the stack.
pub open spec fn in_progress(ss: Set<IdView>, ins: Set<IdView>, p: IdView) -> bool {
    ss.contains(p) && !ins.contains(p)
}

/// The stack during the search: each var in progress waits at `pos[p]`; what lies above it
/// is needed by it, and each of its known dependencies is placed or still lies above it.
#[verifier::opaque]
spec fn progress_state(
    m: Map<IdView, VarView>,
    cv: Seq<IdView>,
    ss: Set<IdView>,
    ins: Set<IdView>,
    pos: Map<IdView, int>,
) -> bool {
    &&& forall|p: IdView| #[trigger] in_progress(ss, ins, p) ==> pos.contains_key(p) && 0 <= pos[p] < cv.len() && cv[pos[p]] == p
    &&& forall|p: IdView, i: int| in_progress(ss, ins, p) && pos[p] < i < cv.len() ==> #[trigger] reaches(m, p, cv[i])
    &&& forall|p: IdView, y: IdView|
        in_progress(ss, ins, p) && #[trigger] depends_on(m, p, y) && m.contains_key(y) ==> ins.contains(y) || exists|i: int|
            pos[p] < i < cv.len() && cv[i] == y
}

/// Without cycles, the sequence so far puts dependencies first and each placed var has its
/// known dependencies placed.
#[verifier::opaque]
spec fn order_state(m: Map<IdView, VarView>, roots: Seq<IdView>, ins: Set<IdView>, ov: Seq<IdView>) -> bool {
    acyclic(m, roots) ==> {
        &&& deps_first(m, ov)
        &&& forall|x: IdView, y: IdView| ins.contains(x) && #[trigger] depends_on(m, x, y) && m.contains_key(y) ==> ins.contains(y)
    }
}

proof fn lemma_order_init(m: Map<IdView, VarView>, roots: Seq<IdView>)
    ensures
        progress_state(m, roots, Set::empty(), Set::empty(), Map::empty()),
        order_state(m, roots, Set::empty(), Seq::empty()),
{
    reveal(progress_state);
    reveal(order_state);
}

/// Popping the top of the stack keeps the stack invariant when the popped identifier is
/// placed (or is no known var) and no new var is in progress.
proof fn lemma_progress_pop(
    m: Map<IdView, VarView>,
    cv0: Seq<IdView>,
    ss: Set<IdView>,
    ins: Set<IdView>,
    ss2: Set<IdView>,
    ins2: Set<IdView>,
    pos: Map<IdView, int>,
)
    requires
        progress_state(m, cv0, ss, ins, pos),
        cv0.len() > 0,
        forall|p: IdView| #[trigger] in_progress(ss2, ins2, p) ==> in_progress(ss, ins, p) && p != cv0.last(),
        ins.subset_of(ins2),
        m.contains_key(cv0.last()) ==> ins2.contains(cv0.last()),
    ensures
        progress_state(m, cv0.drop_last(), ss2, ins2, pos),
{
    reveal(progress_state);
    let cv = cv0.drop_last();
    let cur = cv0.last();
    assert forall|p: IdView| #[trigger] in_progress(ss2, ins2, p) implies pos.contains_key(p) && 0 <= pos[p] < cv.len() && cv[pos[p]] == p by {
        assert(in_progress(ss, ins, p));
        assert(cv0[pos[p]] == p);
    }
    assert forall|p: IdView, i: int| in_progress(ss2, ins2, p) && pos[p] < i < cv.len() implies #[trigger] reaches(m, p, cv[i]) by {
        assert(in_progress(ss, ins, p));
        assert(cv[i] == cv0[i]);
        assert(reaches(m, p, cv0[i]));
    }
    assert forall|p: IdView, y: IdView|
        in_progress(ss2, ins2, p) && #[trigger] depends_on(m, p, y) && m.contains_key(y) implies ins2.contains(y) || exists|i: int|
            pos[p] < i < cv.len() && cv[i] == y by {
        assert(in_progress(ss, ins, p));
        if !ins.contains(y) {
            let i = choose|i: int| pos[p] < i < cv0.len() && cv0[i] == y;
            if i < cv.len() {
                assert(cv[i] == y);
            } else {
                assert(y == cur);
            }
        }
    }
}

/// A var seen before and placed now: without cycles its entry is the one it left, so all its
/// known dependencies are placed already.
proof fn lemma_order_seen(
    m: Map<IdView, VarView>,
    roots: Seq<IdView>,
    cv0: Seq<IdView>,
    ss: Set<IdView>,
    ins: Set<IdView>,
    mv: Seq<IdView>,
    ov: Seq<IdView>,
    pos: Map<IdView, int>,
)
    requires
        search_state(m, roots, cv0, ss, ins, mv, ov),
        progress_state(m, cv0, ss, ins, pos),
        order_state(m, roots, ins, ov),
        cv0.len() > 0,
        ss.contains(cv0.last()),
    ensures
        ins.contains(cv0.last()) ==> progress_state(m, cv0.drop_last(), ss, ins, pos) && order_state(m, roots, ins, ov),
        !ins.contains(cv0.last()) ==> progress_state(m, cv0.drop_last(), ss, ins.insert(cv0.last()), pos)
            && order_state(m, roots, ins.insert(cv0.last()), ov.push(cv0.last())),
{
    let cur = cv0.last();
    if ins.contains(cur) {
        lemma_progress_pop(m, cv0, ss, ins, ss, ins, pos);
    } else {
        let ins2 = ins.insert(cur);
        lemma_progress_pop(m, cv0, ss, ins, ss, ins2, pos);
        reveal(order_state);
        if acyclic(m, roots) {
            reveal(search_state);
            reveal(progress_state);
            assert(in_progress(ss, ins, cur));
            assert(reachable(m, roots, cv0[cv0.len() - 1]));
            let k = pos[cur];
            if k < cv0.len() - 1 {
                assert(reaches(m, cur, cv0[cv0.len() - 1]));
                assert(false);
            }
            assert(m.contains_key(cur));
            assert forall|y: IdView| #[trigger] depends_on(m, cur, y) && m.contains_key(y) implies ins.contains(y) by {
                if !ins.contains(y) {
                    let i = choose|i: int| pos[cur] < i < cv0.len() && cv0[i] == y;
                }
            }
            let ov2 = ov.push(cur);
            assert forall|i: int, j: int| 0 <= i < j < ov2.len() implies !#[trigger] depends_on(m, ov2[i], ov2[j]) by {
                if j == ov.len() {
                    assert(ov2[i] == ov[i]);
                    assert(ov.contains(ov[i]));
                    assert(ins.contains(ov[i]));
                    if depends_on(m, ov[i], cur) {
                        assert(ins.contains(cur));
                    }
                } else {
                    assert(ov2[i] == ov[i] && ov2[j] == ov[j]);
                }
            }
            assert forall|x: IdView, y: IdView| ins2.contains(x) && #[trigger] depends_on(m, x, y) && m.contains_key(y) implies ins2.contains(y) by {
                if x == cur {
                    assert(ins.contains(y));
                }
            }
        }
    }
}

/// A var without dependencies goes to the front.
proof fn lemma_order_leaf(
    m: Map<IdView, VarView>,
    roots: Seq<IdView>,
    cv0: Seq<IdView>,
    ss: Set<IdView>,
    ins: Set<IdView>,
    ov: Seq<IdView>,
    pos: Map<IdView, int>,
)
    requires
        progress_state(m, cv0, ss, ins, pos),
        order_state(m, roots, ins, ov),
        cv0.len() > 0,
        !ss.contains(cv0.last()),
        m.contains_key(cv0.last()),
        var_deps(m[cv0.last()]).len() == 0,
    ensures
        progress_state(m, cv0.drop_last(), ss.insert(cv0.last()), ins.insert(cv0.last()), pos),
        order_state(m, roots, ins.insert(cv0.last()), seq![cv0.last()] + ov),
{
    let cur = cv0.last();
    let ss2 = ss.insert(cur);
    let ins2 = ins.insert(cur);
    assert forall|p: IdView| #[trigger] in_progress(ss2, ins2, p) implies in_progress(ss, ins, p) && p != cur by {}
    lemma_progress_pop(m, cv0, ss, ins, ss2, ins2, pos);
    reveal(order_state);
    if acyclic(m, roots) {
        let ov2 = seq![cur] + ov;
        assert forall|y: IdView| !depends_on(m, cur, y) by {
            if depends_on(m, cur, y) {
                assert(var_deps(m[cur]).contains(y));
            }
        }
        assert forall|i: int, j: int| 0 <= i < j < ov2.len() implies !#[trigger] depends_on(m, ov2[i], ov2[j]) by {
            if i == 0 {
                assert(ov2[i] == cur);
            } else {
                assert(ov2[i] == ov[i - 1] && ov2[j] == ov[j - 1]);
            }
        }
    }
}

/// A var with dependencies waits where it was popped, its dependencies above it.
proof fn lemma_order_node(
    m: Map<IdView, VarView>,
    cv0: Seq<IdView>,
    ss: Set<IdView>,
    ins: Set<IdView>,
    pos: Map<IdView, int>,
)
    requires
        progress_state(m, cv0, ss, ins, pos),
        cv0.len() > 0,
        !ss.contains(cv0.last()),
        ins.subset_of(ss),
        m.contains_key(cv0.last()),
    ensures
        progress_state(
            m,
            cv0.drop_last().push(cv0.last()) + var_deps(m[cv0.last()]),
            ss.insert(cv0.last()),
            ins,
            pos.insert(cv0.last(), cv0.len() - 1),
        ),
{
    reveal(progress_state);
    let cur = cv0.last();
    let deps = var_deps(m[cur]);
    let cv = cv0.drop_last().push(cur) + deps;
    let ss2 = ss.insert(cur);
    let pos2 = pos.insert(cur, cv0.len() - 1);
    let n = cv0.len();
    assert(cv0.drop_last().push(cur) =~= cv0);
    assert forall|i: int| 0 <= i < n implies cv[i] == #[trigger] cv0[i] by {}
    assert forall|p: IdView| #[trigger] in_progress(ss2, ins, p) implies pos2.contains_key(p) && 0 <= pos2[p] < cv.len() && cv[pos2[p]] == p by {
        if p != cur {
            assert(in_progress(ss, ins, p));
            assert(cv[pos[p]] == cv0[pos[p]]);
        }
    }
    assert forall|p: IdView, i: int| in_progress(ss2, ins, p) && pos2[p] < i < cv.len() implies #[trigger] reaches(m, p, cv[i]) by {
        if p == cur {
            assert(cv[i] == deps[i - n]);
            assert(depends_on(m, cur, deps[i - n]));
            lemma_reaches_step(m, cur, deps[i - n]);
        } else {
            assert(in_progress(ss, ins, p));
            assert(cv0[pos[p]] == p);
            assert(pos[p] < n - 1);
            if i < n {
                assert(reaches(m, p, cv0[i]));
            } else {
                assert(reaches(m, p, cv0[n - 1]));
                assert(cv[i] == deps[i - n]);
                assert(depends_on(m, cur, deps[i - n]));
                lemma_reaches_then(m, p, cur, deps[i - n]);
            }
        }
    }
    assert forall|p: IdView, y: IdView|
        in_progress(ss2, ins, p) && #[trigger] depends_on(m, p, y) && m.contains_key(y) implies ins.contains(y) || exists|i: int|
            pos2[p] < i < cv.len() && cv[i] == y by {
        if p == cur {
            let k = choose|k: int| 0 <= k < deps.len() && deps[k] == y;
            assert(cv[n + k] == y);
        } else {
            assert(in_progress(ss, ins, p));
            if !ins.contains(y) {
                let i = choose|i: int| pos[p] < i < cv0.len() && cv0[i] == y;
                assert(cv[i] == y);
            }
        }
    }
}

/// Without cycles, the dependencies of each entry of a complete sequence come before it.
proof fn lemma_deps_before(m: Map<IdView, VarView>, roots: Seq<IdView>, s: Seq<IdView>)
    requires
        acyclic(m, roots),
        deps_first(m, s),
        forall|x: IdView| s.contains(x) <==> reachable(m, roots, x),
    ensures
        forall|i: int, y: IdView| 0 <= i < s.len() && #[trigger] depends_on(m, s[i], y) ==> exists|j: int|
            0 <= j < i && s[j] == y,
{
    assert forall|i: int, y: IdView| 0 <= i < s.len() && #[trigger] depends_on(m, s[i], y) implies exists|j: int|
        0 <= j < i && s[j] == y by {
        assert(s.contains(s[i]));
        lemma_step_reachable(m, roots, s[i], y);
        assert(s.contains(y));
        let j = choose|j: int| 0 <= j < s.len() && s[j] == y;
        if j == i {
            assert(depends_on(m, y, y));
            lemma_reaches_step(m, y, y);
            assert(false);
        }
        if j > i {
            assert(!depends_on(m, s[i], s[j]));
            assert(false);
        }
        assert(0 <= j < i && s[j] == y);
    }
}

/// A point of the depth-first search for the execution sequence: the candidates still to
/// visit (the last one next), the vars seen, those placed in the sequence, the identifiers
/// found missing, and the sequence so far.
pub struct SearchView {
    pub cand: Seq<IdView>,
    pub seen: Seq<IdView>,
    pub inserted: Seq<IdView>,
    pub missing: Seq<IdView>,
    pub out: Seq<IdView>,
}

/// The search before its first step: the roots are the candidates.
pub open spec fn search_start(roots: Seq<IdView>) -> SearchView {
    SearchView {
        cand: roots,
        seen: Seq::empty(),
        inserted: Seq::empty(),
        missing: Seq::empty(),
        out: Seq::empty(),
    }
}

/// One step of the search: the last candidate is taken. A var seen before is placed at the
/// end of the sequence unless it is there already; an unknown identifier is missing; a known
/// var without dependencies is placed at the front of the sequence; any other var is seen
/// and is visited again after its dependencies, which become the next candidates.
pub open spec fn search_step(m: Map<IdView, VarView>, st: SearchView) -> SearchView {
    if st.cand.len() == 0 {
        st
    } else {
        let cur = st.cand.last();
        let rest = st.cand.drop_last();
        if st.seen.contains(cur) {
            if st.inserted.contains(cur) {
                SearchView { cand: rest, ..st }
            } else {
                SearchView { cand: rest, inserted: st.inserted.push(cur), out: st.out.push(cur), ..st }
            }
        } else if m.contains_key(cur) {
            if var_deps(m[cur]).len() == 0 {
                SearchView {
                    cand: rest,
                    seen: st.seen.push(cur),
                    inserted: st.inserted.push(cur),
                    out: seq![cur] + st.out,
                    ..st
                }
            } else {
                SearchView { cand: rest.push(cur) + var_deps(m[cur]), seen: st.seen.push(cur), ..st }
            }
        } else {
            SearchView { cand: rest, missing: st.missing.push(cur), ..st }
        }
    }
}

/// The search after `n` steps from `st`.
pub open spec fn search_run(m: Map<IdView, VarView>, st: SearchView, n: nat) -> SearchView
    decreases n,
{
    if n == 0 {
        st
    } else {
        search_run(m, search_step(m, st), (n - 1) as nat)
    }
}

/// One more step is one step after the others.
pub proof fn lemma_search_run_succ(m: Map<IdView, VarView>, st: SearchView, n: nat)
    ensures
        search_run(m, st, n + 1) == search_step(m, search_run(m, st, n)),
    decreases n,
{
    assert(search_run(m, st, n + 1) == search_run(m, search_step(m, st), n));
    if n > 0 {
        lemma_search_run_succ(m, search_step(m, st), (n - 1) as nat);
        assert(search_run(m, st, n) == search_run(m, search_step(m, st), (n - 1) as nat));
    }
}

/// Once no candidate is left, further steps change nothing: a finished search has one result.
pub proof fn lemma_search_finished(m: Map<IdView, VarView>, st: SearchView, a: nat, b: nat)
    requires
        a <= b,
        search_run(m, st, a).cand.len() == 0,
    ensures
        search_run(m, st, b) == search_run(m, st, a),
    decreases b - a,
{
    if a < b {
        lemma_search_finished(m, st, a, (b - 1) as nat);
        lemma_search_run_succ(m, st, (b - 1) as nat);
    }
}

/// The order in which the vars that `dep` needs, directly or through other vars, are to be
/// resolved; or the dependencies that are not known vars.
#[verifier::rlimit(40)]
pub fn execution_sequence_for_dependencies<VC: VarsCollection, D: Dependencies>(
    vars: &VC,
    dep: &D,
) -> (r: Result<ExecutionSequence, ErrorDependencyResolution>)
    ensures
        ({
            let m = vars.vars_map();
            let roots = spec_parse(dep.command_view(), dep.namespace_view());
            match r {
                Ok(seq) => {
                    &&& seq@.no_duplicates()
                    &&& forall|x: IdView| seq@.contains(x) <==> reachable(m, roots, x)
                    &&& forall|x: IdView| reachable(m, roots, x) ==> m.contains_key(x)
                    &&& acyclic(m, roots) ==> forall|i: int, y: IdView|
                        0 <= i < seq@.len() && #[trigger] depends_on(m, seq@[i], y) ==> exists|j: int|
                            0 <= j < i && seq@[j] == y
                },
                Err(ErrorDependencyResolution::MissingDependencies(ids)) => {
                    &&& ids_view(ids.0@).len() > 0
                    &&& forall|x: IdView|
                        ids_view(ids.0@).contains(x) <==> reachable(m, roots, x) && !m.contains_key(
                            x,
                        )
                },
                Err(_) => false,
            }
        }),
        exists|n: nat|
            {
                let fin = #[trigger] search_run(
                    vars.vars_map(),
                    search_start(spec_parse(dep.command_view(), dep.namespace_view())),
                    n,
                );
                &&& fin.cand.len() == 0
                &&& match r {
                    Ok(seq) => fin.missing.len() == 0 && seq@ == fin.out,
                    Err(ErrorDependencyResolution::MissingDependencies(ids)) => ids_view(ids.0@) == fin.missing,
                    Err(_) => false,
                }
            },
{
    let ghost m = vars.vars_map();
    let roots_v = dep.dependencies();
    let ghost roots = ids_view(roots_v@);
    proof {
        vars.lemma_vars_map();
        lemma_state_init(m, roots);
        lemma_order_init(m, roots);
    }
    let mut cand: Vec<Identifier> = roots_v;
    let mut seen: Vec<Identifier> = Vec::new();
    let mut inserted: Vec<Identifier> = Vec::new();
    let mut missing: Vec<Identifier> = Vec::new();
    let mut out: Vec<Identifier> = Vec::new();
    let ghost mut ss: Set<IdView> = Set::empty();
    let ghost mut ins: Set<IdView> = Set::empty();
    let ghost mut pos: Map<IdView, int> = Map::empty();
    assert(ids_view(seen@) =~= Seq::<IdView>::empty());
    assert(ids_view(inserted@) =~= Seq::<IdView>::empty());
    assert(ids_view(missing@) =~= Seq::<IdView>::empty());
    assert(ids_view(out@) =~= Seq::<IdView>::empty());
    let ghost mut steps: nat = 0;
    while cand.len() > 0
        invariant
            search_run(m, search_start(roots), steps) == (SearchView {
                cand: ids_view(cand@),
                seen: ids_view(seen@),
                inserted: ids_view(inserted@),
                missing: ids_view(missing@),
                out: ids_view(out@),
            }),
            m == vars.vars_map(),
            m.dom().finite(),
            forall|k: IdView| #[trigger] m.contains_key(k) ==> m[k].name == k,
            roots == spec_parse(dep.command_view(), dep.namespace_view()),
            search_state(m, roots, ids_view(cand@), ss, ins, ids_view(missing@), ids_view(out@)),
            progress_state(m, ids_view(cand@), ss, ins, pos),
            order_state(m, roots, ins, ids_view(out@)),
            forall|x: IdView| ss.contains(x) <==> ids_view(seen@).contains(x),
            forall|x: IdView| ins.contains(x) <==> ids_view(inserted@).contains(x),
        decreases m.dom().difference(ss).len(), ss.difference(ins).len(), cand.len(),
    {
        let ghost cv0 = ids_view(cand@);
        let ghost mv0 = ids_view(missing@);
        let ghost ov0 = ids_view(out@);
        let ghost st0 = search_run(m, search_start(roots), steps);
        proof {
            lemma_search_run_succ(m, search_start(roots), steps);
            steps = steps + 1;
        }
        let cur = cand.pop().unwrap();
        proof {
            assert(ids_view(cand@) =~= cv0.drop_last());
            assert(cur@ == cv0.last());
            reveal(search_state);
            vstd::set_lib::lemma_set_subset_finite(m.dom(), ss);
        }
        let is_seen = ids_contains(&seen, &cur);
        let is_inserted = ids_contains(&inserted, &cur);
        if is_seen {
            proof {
                lemma_state_seen(m, roots, cv0, ss, ins, mv0, ov0);
                lemma_order_seen(m, roots, cv0, ss, ins, mv0, ov0, pos);
            }
            if !is_inserted {
                proof {
                    ss.lemma_set_insert_diff_decreases(ins, cur@);
                    ins = ins.insert(cur@);
                }
                let ghost in0 = ids_view(inserted@);
                inserted.push(cur.clone());
                assert(ids_view(inserted@) =~= in0.push(cur@));
                proof { lemma_push_contains(in0, cur@); }
                out.push(cur);
                assert(ids_view(out@) =~= ov0.push(cv0.last()));
            }
        } else {
            match vars.get(&cur) {
                Some(v) => {
                    let deps = v.dependencies();
                    proof {
                        m.dom().lemma_set_insert_diff_decreases(ss, cur@);
                    }
                    let ghost se0 = ids_view(seen@);
                    seen.push(cur.clone());
                    assert(ids_view(seen@) =~= se0.push(cur@));
                    proof { lemma_push_contains(se0, cur@); }
                    if deps.len() == 0 {
                        proof {
                            lemma_state_leaf(m, roots, cv0, ss, ins, mv0, ov0);
                            lemma_order_leaf(m, roots, cv0, ss, ins, ov0, pos);
                            ss = ss.insert(cur@);
                            ins = ins.insert(cur@);
                        }
                        let ghost in0 = ids_view(inserted@);
                        inserted.push(cur.clone());
                        assert(ids_view(inserted@) =~= in0.push(cur@));
                        proof { lemma_push_contains(in0, cur@); }
                        out.insert(0, cur);
                        assert(ids_view(out@) =~= seq![cv0.last()] + ov0);
                    } else {
                        proof {
                            lemma_state_node(m, roots, cv0, ss, ins, mv0, ov0);
                            reveal(search_state);
                            lemma_order_node(m, cv0, ss, ins, pos);
                            pos = pos.insert(cur@, cv0.len() - 1);
                            ss = ss.insert(cur@);
                        }
                        let ghost c1 = ids_view(cand@);
                        cand.push(cur);
                        let mut j: usize = 0;
                        while j < deps.len()
                            invariant
                                j <= deps.len(),
                                ids_view(cand@) == c1.push(cv0.last()) + ids_view(deps@).subrange(0, j as int),
                            decreases deps.len() - j,
                        {
                            let ghost c2 = ids_view(cand@);
                            cand.push(deps[j].clone());
                            assert(ids_view(cand@) =~= c2.push(deps@[j as int]@));
                            assert(ids_view(deps@).subrange(0, j + 1) =~= ids_view(deps@).subrange(0, j as int).push(deps@[j as int]@));
                            j = j + 1;
                        }
                        assert(ids_view(deps@).subrange(0, j as int) =~= ids_view(deps@));
                    }
                },
                None => {
                    proof {
                        lemma_state_missing(m, roots, cv0, ss, ins, mv0, ov0);
                        lemma_progress_pop(m, cv0, ss, ins, ss, ins, pos);
                    }
                    missing.push(cur);
                    assert(ids_view(missing@) =~= mv0.push(cv0.last()));
                },
            }
        }
    }
    proof {
        assert(ids_view(cand@) =~= Seq::<IdView>::empty());
        assert(search_run(m, search_start(roots), steps).cand.len() == 0);
        lemma_state_done(m, roots, ss, ins, ids_view(missing@), ids_view(out@));
        reveal(order_state);
        if missing@.len() == 0 && acyclic(m, roots) {
            lemma_deps_before(m, roots, ids_view(out@));
        }
    }
    if missing.len() > 0 {
        Err(ErrorDependencyResolution::MissingDependencies(Identifiers(missing)))
    } else {
        assert(ids_view(missing@).len() == 0);
        Ok(ExecutionSequence::new(out))
    }
}


/// `l` with the entry for `k` set to `v`: replaced where `k` has an entry, appended
/// otherwise.
pub open spec fn map_set<V>(l: Seq<(IdView, V)>, k: IdView, v: V) -> Seq<(IdView, V)> {
    let i = crate::dependencies::key_index(l, k);
    if i >= 0 {
        l.update(i, (k, v))
    } else {
        l.push((k, v))
    }
}

/// No two entries of `l` share a key.
pub open spec fn distinct_keys<V>(l: Seq<(IdView, V)>) -> bool {
    forall|i: int, j: int| 0 <= i < j < l.len() ==> #[trigger] l[i].0 != #[trigger] l[j].0
}

/// Setting the value of a key keeps the keys of a list distinct.
pub proof fn lemma_map_set_distinct<V>(l: Seq<(IdView, V)>, k: IdView, v: V)
    requires
        distinct_keys(l),
    ensures
        distinct_keys(map_set(l, k, v)),
{
    crate::dependencies::lemma_key_index(l, k);
    let l2 = map_set(l, k, v);
    let i = crate::dependencies::key_index(l, k);
    assert forall|a: int, b: int| 0 <= a < b < l2.len() implies #[trigger] l2[a].0 != #[trigger] l2[b].0 by {
        if i >= 0 {
            assert(l2[a].0 == l[a].0);
            assert(l2[b].0 == l[b].0);
        } else if b < l.len() {
            assert(l2[a] == l[a]);
            assert(l2[b] == l[b]);
        } else {
            assert(l2[a] == l[a]);
        }
    }
}

/// Sets the choices of `id` in `l`, replacing those it had.
pub fn set_choices(l: &mut Vec<(Identifier, Vec<Choice>)>, id: Identifier, cs: Vec<Choice>)
    ensures
        choice_map_view(final(l)@) == map_set(choice_map_view(old(l)@), id@, choices_view(cs@)),
{
    let idx = crate::dependencies::find_entry(l, &id);
    proof {
        crate::dependencies::lemma_key_index_keys(
            choice_map_view(l@),
            l@.map_values(|e: (Identifier, Vec<Choice>)| (e.0@, ())),
            id@,
        );
    }
    let ghost l0 = l@;
    match idx {
        Some(i) => {
            l.set(i, (id, cs));
            assert(choice_map_view(l@) =~= choice_map_view(l0).update(i as int, (l@[i as int].0@, choices_view(cs@))));
        },
        None => {
            l.push((id, cs));
            assert(choice_map_view(l@) =~= choice_map_view(l0).push((l@[l0.len() as int].0@, choices_view(cs@))));
        },
    }
}

/// The choices of the successful results of `rs`, one result after the other.
pub open spec fn joined_choices(rs: Seq<Result<Vec<Choice>, ErrorsResolver>>) -> Seq<ChoiceView>
    decreases rs.len(),
{
    if rs.len() == 0 {
        Seq::empty()
    } else {
        joined_choices(rs.drop_last()) + match rs.last() {
            Ok(cs) => choices_view(cs@),
            Err(_) => Seq::empty(),
        }
    }
}

/// What the commands of a var give together, from what each command gave in turn: the
/// choices of all of them, one command after the other, when every one succeeded;
/// otherwise the first failure, as it is.
pub fn merge_dynamic_results(results: Vec<Result<Vec<Choice>, ErrorsResolver>>) -> (r: Result<
    Vec<Choice>,
    ErrorsResolver,
>)
    ensures
        match r {
            Ok(cs) => {
                &&& forall|i: int| 0 <= i < results@.len() ==> #[trigger] results@[i] is Ok
                &&& choices_view(cs@) == joined_choices(results@)
            },
            Err(e) => exists|k: int|
                {
                    &&& 0 <= k < results@.len()
                    &&& forall|j: int| 0 <= j < k ==> #[trigger] results@[j] is Ok
                    &&& #[trigger] results@[k] == Err::<Vec<Choice>, ErrorsResolver>(e)
                },
        },
{
    let ghost rs = results@;
    let mut rest = results;
    let mut all: Vec<Choice> = Vec::new();
    let n = rest.len();
    let mut k: usize = 0;
    assert(rs.subrange(0, 0) =~= Seq::<Result<Vec<Choice>, ErrorsResolver>>::empty());
    assert(rs.subrange(0, n as int) =~= rs);
    while rest.len() > 0
        invariant
            rs == results@,
            n == rs.len(),
            k + rest.len() == n,
            rest@ == rs.subrange(k as int, n as int),
            forall|j: int| 0 <= j < k ==> #[trigger] rs[j] is Ok,
            choices_view(all@) == joined_choices(rs.subrange(0, k as int)),
        decreases rest.len(),
    {
        let ghost before = rest@;
        assert(before[0] == rs[k as int]);
        let first = rest.remove(0);
        assert(rest@ =~= rs.subrange(k + 1, n as int));
        assert(rs.subrange(0, k + 1).drop_last() =~= rs.subrange(0, k as int));
        assert(rs.subrange(0, k + 1).last() == rs[k as int]);
        match first {
            Ok(mut cs) => {
                let ghost a0 = all@;
                let ghost c0 = cs@;
                all.append(&mut cs);
                assert(choices_view(all@) =~= choices_view(a0) + choices_view(c0));
            },
            Err(e) => {
                assert(rs[k as int] == Err::<Vec<Choice>, ErrorsResolver>(e));
                return Err(e);
            },
        }
        k = k + 1;
    }
    assert(rs.subrange(0, k as int) =~= rs);
    Ok(all)
}

/// What `resolver` is known to answer for the commands `cmds` of `var`, one command after the
/// other; nothing when it is not known for one of them.
pub open spec fn known_answers<R: Resolver>(resolver: R, var: VarView, cmds: Seq<Seq<char>>) -> Option<
    Seq<ChoiceView>,
>
    decreases cmds.len(),
{
    if cmds.len() == 0 {
        Some(Seq::empty())
    } else {
        match known_answers(resolver, var, cmds.drop_last()) {
            Some(a) => match resolver.dynamic_answer(var, cmds.last()) {
                Some(b) => Some(a + b),
                None => None,
            },
            None => None,
        }
    }
}

/// The answers for commands given one after the other are the answers for the first ones
/// followed by those for the others; the answer for one command is what the resolver is known
/// to answer for it. Together these fix what a command var is known to get: every command run,
/// its choices kept, in order.
pub proof fn lemma_known_answers_split<R: Resolver>(
    resolver: R,
    var: VarView,
    a: Seq<Seq<char>>,
    b: Seq<Seq<char>>,
)
    ensures
        known_answers(resolver, var, seq![]) == Some(Seq::<ChoiceView>::empty()),
        b.len() == 1 ==> known_answers(resolver, var, b) == resolver.dynamic_answer(var, b[0]),
        known_answers(resolver, var, a + b) == match (known_answers(resolver, var, a), known_answers(resolver, var, b)) {
            (Some(x), Some(y)) => Some(x + y),
            _ => None::<Seq<ChoiceView>>,
        },
    decreases b.len(),
{
    if b.len() == 1 {
        assert(b.drop_last() =~= Seq::<Seq<char>>::empty());
        match resolver.dynamic_answer(var, b[0]) {
            Some(y) => assert(Seq::<ChoiceView>::empty() + y =~= y),
            None => {},
        }
    }
    if b.len() == 0 {
        assert(a + b =~= a);
        match known_answers(resolver, var, a) {
            Some(x) => assert(x + Seq::<ChoiceView>::empty() =~= x),
            None => {},
        }
    } else {
        lemma_known_answers_split(resolver, var, a, b.drop_last());
        assert((a + b).drop_last() =~= a + b.drop_last());
        assert((a + b).last() == b.last());
        match (known_answers(resolver, var, a), known_answers(resolver, var, b.drop_last())) {
            (Some(x), Some(y)) => match resolver.dynamic_answer(var, b.last()) {
                Some(z) => assert(x + y + z =~= x + (y + z)),
                None => {},
            },
            _ => {},
        }
    }
}

/// The choices `resolver` is known to give for `var` whatever was chosen before: its value for
/// an input var, its pick for a static var; none for a var whose choices come from a command.
pub open spec fn known_answer<R: Resolver>(resolver: R, var: VarView) -> Option<Seq<ChoiceView>> {
    if var.from_command is Some {
        None
    } else if var.from_input is Some {
        match resolver.input_answer(var) {
            Some(c) => Some(seq![c]),
            None => None,
        }
    } else {
        resolver.static_answer(var)
    }
}

/// Where all the commands have known answers, so have the first `i` of them, and the command
/// at `i` has one.
proof fn lemma_known_prefix<R: Resolver>(resolver: R, var: VarView, cmds: Seq<Seq<char>>, i: int)
    requires
        0 <= i < cmds.len(),
        known_answers(resolver, var, cmds) is Some,
    ensures
        known_answers(resolver, var, cmds.subrange(0, i)) is Some,
        resolver.dynamic_answer(var, cmds[i]) is Some,
        known_answers(resolver, var, cmds.subrange(0, i + 1)) == Some(
            known_answers(resolver, var, cmds.subrange(0, i))->0 + resolver.dynamic_answer(var, cmds[i])->0,
        ),
    decreases cmds.len(),
{
    if i == cmds.len() - 1 {
        assert(cmds.subrange(0, i) =~= cmds.drop_last());
        assert(cmds.subrange(0, i + 1) =~= cmds);
    } else {
        let d = cmds.drop_last();
        assert(d.subrange(0, i) =~= cmds.subrange(0, i));
        assert(d.subrange(0, i + 1) =~= cmds.subrange(0, i + 1));
        assert(d[i] == cmds[i]);
        lemma_known_prefix(resolver, var, d, i);
    }
}

/// `r` succeeded with the choices `a`.
pub open spec fn gives<E>(r: Result<Vec<Choice>, E>, a: Seq<ChoiceView>) -> bool {
    match r {
        Ok(cs) => choices_view(cs@) == a,
        Err(_) => false,
    }
}

/// Resolves the choices of `var` with `resolver`: the commands of a var whose choices come
/// from a command are first completed with the choices of its dependencies, then run one
/// by one until one fails, and their results merged (see `merge_dynamic_results`); an input
/// var gets one typed value; static choices are offered as they are.
pub fn resolve_choice_for_var<R: Resolver>(
    resolver: &R,
    var: &Var,
    choices: &Vec<(Identifier, Vec<Choice>)>,
    ctx: &ResolverContext,
) -> (r: Result<Vec<Choice>, ErrorsResolver>)
    requires
        choice_map_view(ctx.choices@) == choice_map_view(choices@),
    ensures
        var@.from_command is Some ==> (substitute_all(
            var_command(var@),
            var_deps(var@),
            choice_map_view(choices@),
        ) matches Err(id) ==> r matches Err(
            ErrorsResolver::Dependencies(ErrorsDependencies::MissingChoicesForVar(e)),
        ) && e@ == id),
        var@.from_command is None && var@.from_input is Some ==> (r matches Ok(cs) ==> cs.len() == 1),
        var@.from_command is Some ==> (substitute_all(
            var_command(var@),
            var_deps(var@),
            choice_map_view(choices@),
        ) matches Ok(cmds) ==> (known_answers(*resolver, var@, cmds) matches Some(a) ==> gives(r, a))),
        known_answer(*resolver, var@) matches Some(a) ==> gives(r, a),
{
    if var.is_command() {
        let commands = match var.substitute_for_choices(choices) {
            Ok(c) => c,
            Err(e) => {
                return Err(ErrorsResolver::Dependencies(e));
            },
        };
        let ghost cmds = strings_view(commands@);
        let ghost kn = known_answers(*resolver, var@, cmds) is Some;
        let mut results: Vec<Result<Vec<Choice>, ErrorsResolver>> = Vec::new();
        let mut i: usize = 0;
        assert(cmds.subrange(0, 0) =~= Seq::<Seq<char>>::empty());
        while i < commands.len()
            invariant
                i <= commands.len(),
                cmds == strings_view(commands@),
                kn == (known_answers(*resolver, var@, cmds) is Some),
                results@.len() == i,
                substitute_all(var_command(var@), var_deps(var@), choice_map_view(ctx.choices@)) == Ok::<
                    Seq<Seq<char>>,
                    IdView,
                >(strings_view(commands@)),
                kn ==> forall|j: int| 0 <= j < i ==> (#[trigger] results@[j]) is Ok,
                kn ==> known_answers(*resolver, var@, cmds.subrange(0, i as int)) == Some(joined_choices(results@)),
            ensures
                kn ==> i == commands.len(),
                kn ==> forall|j: int| 0 <= j < results@.len() ==> (#[trigger] results@[j]) is Ok,
                kn ==> known_answers(*resolver, var@, cmds.subrange(0, i as int)) == Some(joined_choices(results@)),
            decreases commands.len() - i,
        {
            let cmd = commands[i].clone();
            assert(strings_view(commands@)[i as int] == cmd@);
            let found = resolver.resolve_dynamic(var, cmd, ctx);
            let failed = match &found {
                Ok(_) => false,
                Err(_) => true,
            };
            let ghost before = results@;
            proof {
                if kn {
                    lemma_known_prefix(*resolver, var@, cmds, i as int);
                }
            }
            results.push(found);
            proof {
                assert(results@.drop_last() =~= before);
                if kn {
                    assert forall|j: int| 0 <= j < i + 1 implies (#[trigger] results@[j]) is Ok by {
                        if j < i {
                            assert(results@[j] == before[j]);
                        }
                    }
                }
            }
            i = i + 1;
            if failed {
                break;
            }
        }
        proof {
            if kn {
                assert(cmds.subrange(0, i as int) =~= cmds);
            }
        }
        merge_dynamic_results(results)
    } else if var.is_input() {
        let prompt = match var.prompt() {
            Some(p) => p,
            None => "no provided prompt",
        };
        match resolver.resolve_input(var, prompt, ctx) {
            Ok(c) => {
                let ghost cv = c@;
                let mut v = Vec::new();
                v.push(c);
                assert(choices_view(v@) =~= seq![cv]);
                Ok(v)
            },
            Err(e) => Err(e),
        }
    } else {
        resolver.resolve_static(var, var.choices(), ctx)
    }
}

/// The outcome of resolving `var` from what resolving it gave: the choices as they are, or the
/// failure `e` as `NoChoiceForVar` naming the var, with `e` inside.
pub fn name_failure(var: &Var, outcome: Result<Vec<Choice>, ErrorsResolver>) -> (r: Result<
    Vec<Choice>,
    ErrorDependencyResolution,
>)
    ensures
        match outcome {
            Ok(cs) => r == Ok::<Vec<Choice>, ErrorDependencyResolution>(cs),
            Err(e) => r matches Err(ErrorDependencyResolution::NoChoiceForVar { var_name, error }) && var_name@
                == var@.name && error == e,
        },
{
    match outcome {
        Ok(cs) => Ok(cs),
        Err(err) => Err(ErrorDependencyResolution::NoChoiceForVar { var_name: var.name(), error: err }),
    }
}

/// Resolves the choices of `var` (see `resolve_choice_for_var`); a failure names the var and
/// carries the resolver's failure (see `name_failure`).
pub fn choice_for_var<R: Resolver>(
    resolver: &R,
    var: &Var,
    choices: &Vec<(Identifier, Vec<Choice>)>,
    ctx: &ResolverContext,
) -> (r: Result<Vec<Choice>, ErrorDependencyResolution>)
    requires
        choice_map_view(ctx.choices@) == choice_map_view(choices@),
    ensures
        r matches Err(e) ==> e matches ErrorDependencyResolution::NoChoiceForVar { var_name, .. }
            && var_name@ == var@.name,
        var@.from_command is Some ==> (substitute_all(
            var_command(var@),
            var_deps(var@),
            choice_map_view(choices@),
        ) matches Err(id) ==> r matches Err(ErrorDependencyResolution::NoChoiceForVar {
            error: ErrorsResolver::Dependencies(ErrorsDependencies::MissingChoicesForVar(e)),
            ..
        }) && e@ == id),
        var@.from_command is None && var@.from_input is Some ==> (r matches Ok(cs) ==> cs.len() == 1),
        var@.from_command is Some ==> (substitute_all(
            var_command(var@),
            var_deps(var@),
            choice_map_view(choices@),
        ) matches Ok(cmds) ==> (known_answers(*resolver, var@, cmds) matches Some(a) ==> gives(r, a))),
        known_answer(*resolver, var@) matches Some(a) ==> gives(r, a),
{
    name_failure(var, resolve_choice_for_var(resolver, var, choices, ctx))
}

/// The choices of each var of `vars`, in order: the default choices where there are some,
/// otherwise those that `resolver` gives, knowing the choices made so far.
pub fn choices_for_execution_sequence<VC: VarsCollection, DV: VarsDefaultValues, R: Resolver>(
    alias: &crate::aliases::Alias,
    vars_col: &VC,
    vars_defaults: &DV,
    resolver: &R,
    vars: ExecutionSequence,
) -> (r: Result<Vec<(Identifier, Vec<Choice>)>, ErrorDependencyResolution>)
    ensures
        match r {
            Ok(l) => {
                &&& forall|x: IdView| vars@.contains(x) ==> vars_col.vars_map().contains_key(x)
                &&& forall|x: IdView|
                    vars@.contains(x) <==> crate::dependencies::key_index(
                        choice_map_view(l@),
                        x,
                    ) >= 0
                &&& forall|x: IdView|
                    vars@.contains(x) && #[trigger] vars_defaults.defaults_map().contains_key(x)
                        ==> crate::dependencies::lookup(choice_map_view(l@), x) == Some(
                        vars_defaults.defaults_map()[x],
                    )
                &&& distinct_keys(choice_map_view(l@))
                &&& forall|x: IdView|
                    #![trigger crate::dependencies::lookup(choice_map_view(l@), x)]
                    vars@.contains(x) && !vars_defaults.defaults_map().contains_key(x)
                        && vars_col.vars_map().contains_key(x) && known_answer(*resolver, vars_col.vars_map()[x])
                        is Some ==> crate::dependencies::lookup(choice_map_view(l@), x) == known_answer(
                        *resolver,
                        vars_col.vars_map()[x],
                    )
            },
            Err(ErrorDependencyResolution::MissingDependencies(ids)) => {
                &&& ids_view(ids.0@).len() == 1
                &&& !vars_col.vars_map().contains_key(ids_view(ids.0@)[0])
                &&& exists|k: int|
                    {
                        &&& 0 <= k < vars@.len()
                        &&& #[trigger] vars@[k] == ids_view(ids.0@)[0]
                        &&& forall|j: int| 0 <= j < k ==> vars_col.vars_map().contains_key(#[trigger] vars@[j])
                    }
            },
            Err(ErrorDependencyResolution::NoChoiceForVar { var_name, .. }) => {
                &&& !vars_defaults.defaults_map().contains_key(var_name@)
                &&& vars_col.vars_map().contains_key(var_name@)
                &&& exists|k: int|
                    {
                        &&& 0 <= k < vars@.len()
                        &&& #[trigger] vars@[k] == var_name@
                        &&& forall|j: int| 0 <= j < k ==> vars_col.vars_map().contains_key(#[trigger] vars@[j])
                    }
            },
            Err(ErrorDependencyResolution::UnknowVarsDefaults(_)) => false,
        },
{
    let seq = vars.identifiers();
    let ghost sv = ids_view(seq@);
    let mut choices: Vec<(Identifier, Vec<Choice>)> = Vec::new();
    let full_name = alias.full_name();
    proof {
        vars_col.lemma_vars_map();
    }
    let mut i: usize = 0;
    while i < seq.len()
        invariant
            i <= seq.len(),
            sv == ids_view(seq@),
            sv == vars@,
            forall|k: IdView| #[trigger] vars_col.vars_map().contains_key(k) ==> vars_col.vars_map()[k].name == k,
            forall|j: int| 0 <= j < i ==> vars_col.vars_map().contains_key(#[trigger] sv[j]),
            forall|x: IdView|
                sv.subrange(0, i as int).contains(x) <==> crate::dependencies::key_index(
                    choice_map_view(choices@),
                    x,
                ) >= 0,
            forall|x: IdView|
                sv.subrange(0, i as int).contains(x) && #[trigger] vars_defaults.defaults_map().contains_key(x)
                    ==> crate::dependencies::lookup(choice_map_view(choices@), x) == Some(
                    vars_defaults.defaults_map()[x],
                ),
            distinct_keys(choice_map_view(choices@)),
            forall|x: IdView|
                #![trigger crate::dependencies::lookup(choice_map_view(choices@), x)]
                sv.subrange(0, i as int).contains(x) && !vars_defaults.defaults_map().contains_key(x)
                    && vars_col.vars_map().contains_key(x) && known_answer(*resolver, vars_col.vars_map()[x]) is Some
                    ==> crate::dependencies::lookup(choice_map_view(choices@), x) == known_answer(
                    *resolver,
                    vars_col.vars_map()[x],
                ),
        decreases seq.len() - i,
    {
        let var_name = &seq[i];
        assert(sv[i as int] == var_name@);
        assert(vars@.contains(var_name@));
        match vars_col.get(var_name) {
            Some(var) => {
                let chosen = match vars_defaults.default_value(var_name) {
                    Some(d) => d,
                    None => {
                        let ctx = ResolverContext {
                            alias: alias.clone(),
                            full_name: full_name.clone(),
                            choices: crate::aliases::clone_choice_map(&choices),
                            execution_sequence: vars.identifiers(),
                        };
                        match choice_for_var(resolver, var, &choices, &ctx) {
                            Ok(cs) => cs,
                            Err(e) => {
                                assert(vars@[i as int] == var_name@);
                                return Err(e);
                            },
                        }
                    },
                };
                let ghost before = choice_map_view(choices@);
                let ghost chosen_v = choices_view(chosen@);
                assert(!vars_defaults.defaults_map().contains_key(var_name@) && known_answer(*resolver, var@) is Some
                    ==> chosen_v == known_answer(*resolver, var@)->0);
                assert(var@.name == var_name@);
                let nm = var.name();
                assert(nm@ == var_name@);
                set_choices(&mut choices, nm, chosen);
                assert(choice_map_view(choices@) == map_set(before, var_name@, chosen_v));
                proof {
                    lemma_map_set(before, var_name@, chosen_v);
                    lemma_map_set_distinct(before, var_name@, chosen_v);
                    assert forall|x: IdView|
                        #![trigger crate::dependencies::lookup(choice_map_view(choices@), x)]
                        sv.subrange(0, i + 1).contains(x) && !vars_defaults.defaults_map().contains_key(x)
                            && vars_col.vars_map().contains_key(x) && known_answer(*resolver, vars_col.vars_map()[x])
                            is Some implies crate::dependencies::lookup(choice_map_view(choices@), x) == known_answer(
                        *resolver,
                        vars_col.vars_map()[x],
                    ) by {
                        if x != var_name@ {
                            assert(sv.subrange(0, i + 1).contains(x) ==> sv.subrange(0, i as int).contains(x)) by {
                                lemma_push_contains(sv.subrange(0, i as int), var_name@);
                            }
                            assert(crate::dependencies::lookup(before, x) == known_answer(*resolver, vars_col.vars_map()[x]));
                        } else {
                            assert(vars_col.vars_map()[x] == var@);
                        }
                    }
                    assert(sv.subrange(0, i + 1) =~= sv.subrange(0, i as int).push(var_name@));
                    lemma_push_contains(sv.subrange(0, i as int), var_name@);
                    assert forall|x: IdView|
                        sv.subrange(0, i + 1).contains(x) <==> crate::dependencies::key_index(
                            choice_map_view(choices@),
                            x,
                        ) >= 0 by {
                        assert(sv.subrange(0, i + 1).contains(x) <==> (sv.subrange(0, i as int).contains(x) || x == var_name@));
                        if x != var_name@ {
                            assert(crate::dependencies::key_index(choice_map_view(choices@), x)
                                == crate::dependencies::key_index(before, x));
                            assert(sv.subrange(0, i as int).contains(x) <==> crate::dependencies::key_index(before, x) >= 0);
                        } else {
                            assert(crate::dependencies::key_index(choice_map_view(choices@), x) >= 0);
                        }
                    }
                }
            },
            None => {
                let mut missing = Vec::new();
                missing.push(var_name.clone());
                assert(ids_view(missing@) =~= seq![var_name@]);
                assert(vars@[i as int] == var_name@);
                return Err(ErrorDependencyResolution::MissingDependencies(Identifiers(missing)));
            },
        }
        i = i + 1;
    }
    assert(sv.subrange(0, i as int) =~= sv);
    Ok(choices)
}

pub proof fn lemma_map_set<V>(l: Seq<(IdView, V)>, k: IdView, v: V)
    ensures
        crate::dependencies::key_index(map_set(l, k, v), k) >= 0,
        crate::dependencies::lookup(map_set(l, k, v), k) == Some(v),
        forall|x: IdView| x != k ==> crate::dependencies::key_index(map_set(l, k, v), x) == crate::dependencies::key_index(l, x),
        forall|x: IdView| x != k ==> crate::dependencies::lookup(map_set(l, k, v), x) == crate::dependencies::lookup(l, x),
{
    crate::dependencies::lemma_key_index(l, k);
    let l2 = map_set(l, k, v);
    crate::dependencies::lemma_key_index(l2, k);
    assert forall|x: IdView| x != k implies crate::dependencies::key_index(l2, x) == crate::dependencies::key_index(l, x) by {
        crate::dependencies::lemma_key_index(l, x);
        crate::dependencies::lemma_key_index(l2, x);
        lemma_key_index_same(l, l2, x, k);
    }
    assert forall|x: IdView| x != k implies crate::dependencies::lookup(l2, x) == crate::dependencies::lookup(l, x) by {
        crate::dependencies::lemma_key_index(l, x);
        if crate::dependencies::key_index(l, x) >= 0 {
            assert(l2[crate::dependencies::key_index(l, x)] == l[crate::dependencies::key_index(l, x)]);
        }
    }
    let i = crate::dependencies::key_index(l, k);
    if i >= 0 {
        lemma_key_index_same_k(l, l2, k);
    } else {
        lemma_key_index_push(l, k, v);
    }
}

proof fn lemma_key_index_same<V>(l: Seq<(IdView, V)>, l2: Seq<(IdView, V)>, x: IdView, k: IdView)
    requires
        x != k,
        l2.len() >= l.len(),
        forall|j: int| 0 <= j < l.len() ==> (l[j].0 == x <==> l2[j].0 == x),
        forall|j: int| l.len() <= j < l2.len() ==> l2[j].0 == k,
    ensures
        crate::dependencies::key_index(l2, x) == crate::dependencies::key_index(l, x),
    decreases l2.len(),
{
    if l2.len() > l.len() {
        lemma_key_index_same(l, l2.drop_last(), x, k);
    } else if l.len() > 0 {
        lemma_key_index_same(l.drop_last(), l2.drop_last(), x, k);
    }
}

proof fn lemma_key_index_same_k<V>(l: Seq<(IdView, V)>, l2: Seq<(IdView, V)>, k: IdView)
    requires
        l2.len() == l.len(),
        forall|j: int| 0 <= j < l.len() ==> (l[j].0 == k <==> l2[j].0 == k),
    ensures
        crate::dependencies::key_index(l2, k) == crate::dependencies::key_index(l, k),
    decreases l.len(),
{
    if l.len() > 0 {
        lemma_key_index_same_k(l.drop_last(), l2.drop_last(), k);
    }
}

proof fn lemma_key_index_push<V>(l: Seq<(IdView, V)>, k: IdView, v: V)
    requires
        crate::dependencies::key_index(l, k) == -1,
    ensures
        crate::dependencies::key_index(l.push((k, v)), k) == l.len(),
{
    assert(l.push((k, v)).drop_last() =~= l);
}

} // verus!

//! The repository of vars, with the default choices given for some of them.
use vstd::prelude::*;
use crate::identifiers::{Identifier, IdView, Identifiers, ids_view};
use crate::choices::{Choice, ChoiceView, choices_view};
use crate::vars::{Var, VarView};
use crate::dependencies::{Dependencies, choice_map_view, key_index, lookup, lemma_key_index};
use crate::resolution::{
    VarsCollection, VarsDefaultValues, var_deps, ErrorDependencyResolution, choice_for_var, map_set,
    set_choices, known_answers, known_answer, gives,
};
use crate::resolver::{Resolver, ResolverContext, ErrorsResolver};
use crate::dependencies::{substitute_all, ErrorsDependencies};
use crate::vars::var_command;

verus! {

/// The vars of `s` by identifier; where two share an identifier, the first one counts.
pub open spec fn vars_map_of(s: Seq<VarView>) -> Map<IdView, VarView>
    decreases s.len(),
{
    if s.len() == 0 {
        Map::empty()
    } else {
        let m = vars_map_of(s.drop_last());
        if m.contains_key(s.last().name) {
            m
        } else {
            m.insert(s.last().name, s.last())
        }
    }
}

/// The views of a sequence of vars.
pub open spec fn vars_view(s: Seq<Var>) -> Seq<VarView> {
    s.map_values(|v: Var| v@)
}

/// The map that a list of (identifier, value) stands for; the first entry of a key counts.
pub open spec fn assoc_map<V>(l: Seq<(IdView, V)>) -> Map<IdView, V> {
    Map::new(|k: IdView| key_index(l, k) >= 0, |k: IdView| lookup(l, k).unwrap())
}

/// Position of the first var of `s` named `k`, or -1.
pub open spec fn first_var_index(s: Seq<VarView>, k: IdView) -> int
    decreases s.len(),
{
    if s.len() == 0 {
        -1
    } else {
        let j = first_var_index(s.drop_last(), k);
        if j >= 0 {
            j
        } else if s.last().name == k {
            s.len() - 1
        } else {
            -1
        }
    }
}

pub proof fn lemma_vars_map_of(s: Seq<VarView>)
    ensures
        vars_map_of(s).dom().finite(),
        forall|k: IdView| #[trigger] vars_map_of(s).contains_key(k) ==> vars_map_of(s)[k].name == k,
        forall|k: IdView| vars_map_of(s).contains_key(k) <==> first_var_index(s, k) >= 0,
        forall|k: IdView| first_var_index(s, k) >= 0 ==> {
            let i = first_var_index(s, k);
            &&& 0 <= i < s.len()
            &&& s[i].name == k
            &&& vars_map_of(s)[k] == s[i]
        },
        forall|k: IdView| first_var_index(s, k) == -1 <==> forall|i: int| 0 <= i < s.len() ==> s[i].name != k,
    decreases s.len(),
{
    if s.len() > 0 {
        let p = s.drop_last();
        lemma_vars_map_of(p);
        assert forall|k: IdView| #![auto] {
            &&& (vars_map_of(s).contains_key(k) ==> vars_map_of(s)[k].name == k)
            &&& (vars_map_of(s).contains_key(k) <==> first_var_index(s, k) >= 0)
            &&& (first_var_index(s, k) >= 0 ==> {
                let i = first_var_index(s, k);
                &&& 0 <= i < s.len()
                &&& s[i].name == k
                &&& vars_map_of(s)[k] == s[i]
            })
            &&& (first_var_index(s, k) == -1 <==> forall|i: int| 0 <= i < s.len() ==> s[i].name != k)
        } by {
            let j = first_var_index(p, k);
            if j >= 0 {
                assert(p[j] == s[j]);
                assert(exists|i: int| 0 <= i < s.len() && s[i].name == k) by {
                    assert(s[j].name == k);
                }
            } else if s.last().name == k {
                assert(!vars_map_of(p).contains_key(k));
                assert(s[s.len() - 1].name == k);
            } else {
                assert(!vars_map_of(p).contains_key(k));
                assert forall|i: int| 0 <= i < s.len() implies s[i].name != k by {
                    if i < p.len() {
                        assert(p[i] == s[i]);
                        assert(p[i].name != k);
                    }
                }
            }
        }
    }
}

/// Position of the first var of `s` named `id`.
pub fn find_var(s: &[Var], id: &Identifier) -> (r: Option<usize>)
    ensures
        match r {
            Some(i) => i as int == first_var_index(vars_view(s@), id@) && i < s.len(),
            None => first_var_index(vars_view(s@), id@) == -1,
        },
{
    let ghost sv = vars_view(s@);
    let mut i: usize = 0;
    while i < s.len()
        invariant
            i <= s.len(),
            sv == vars_view(s@),
            first_var_index(sv.subrange(0, i as int), id@) == -1,
        decreases s.len() - i,
    {
        assert(sv.subrange(0, i + 1).drop_last() =~= sv.subrange(0, i as int));
        if s[i].name_ref().equals(id) {
            proof {
                lemma_first_index_prefix(sv, id@, i as int);
            }
            return Some(i);
        }
        i = i + 1;
    }
    assert(sv.subrange(0, i as int) =~= sv);
    None
}

proof fn lemma_first_index_prefix(s: Seq<VarView>, k: IdView, i: int)
    requires
        0 <= i < s.len(),
        first_var_index(s.subrange(0, i), k) == -1,
        s[i].name == k,
    ensures
        first_var_index(s, k) == i,
    decreases s.len(),
{
    if i == s.len() - 1 {
        assert(s.drop_last() =~= s.subrange(0, i));
    } else {
        assert(s.drop_last().subrange(0, i) =~= s.subrange(0, i));
        lemma_first_index_prefix(s.drop_last(), k, i);
    }
}

/// `base`, then each var of `s` whose identifier is not there yet, in the order of `s`.
pub open spec fn add_new_vars(base: Seq<VarView>, s: Seq<VarView>) -> Seq<VarView>
    decreases s.len(),
{
    if s.len() == 0 {
        base
    } else {
        let p = add_new_vars(base, s.drop_last());
        if first_var_index(p, s.last().name) >= 0 {
            p
        } else {
            p.push(s.last())
        }
    }
}

/// The dependencies of the vars of `s` that are not in `m`, var after var.
pub open spec fn missing_deps(s: Seq<VarView>, m: Map<IdView, VarView>) -> Seq<IdView>
    decreases s.len(),
{
    if s.len() == 0 {
        Seq::empty()
    } else {
        missing_deps(s.drop_last(), m) + var_deps(s.last()).filter(|d: IdView| !m.contains_key(d))
    }
}

/// The vars known to the application, each once, and default choices for some of them.
#[derive(Debug)]
pub struct VarsRepository {
    vars: Vec<Var>,
    defaults: Vec<(Identifier, Vec<Choice>)>,
}

impl View for VarsRepository {
    type V = Map<IdView, VarView>;

    closed spec fn view(&self) -> Map<IdView, VarView> {
        vars_map_of(vars_view(self.vars@))
    }
}

impl VarsRepository {
    /// The stored vars, in order.
    pub closed spec fn stored(&self) -> Seq<VarView> {
        vars_view(self.vars@)
    }

    /// The default choices, by identifier.
    pub closed spec fn defaults_view(&self) -> Map<IdView, Seq<ChoiceView>> {
        assoc_map(choice_map_view(self.defaults@))
    }

    /// No two stored vars share an identifier.
    pub closed spec fn wf(&self) -> bool {
        forall|i: int, j: int|
            0 <= i < j < self.vars@.len() ==> self.vars@[i]@.name != self.vars@[j]@.name
    }

    /// The map view is the stored vars by identifier, and no two stored vars share one.
    pub proof fn lemma_view_of_stored(&self)
        requires
            self.wf(),
        ensures
            self@ == vars_map_of(self.stored()),
            forall|i: int, j: int|
                0 <= i < j < self.stored().len() ==> #[trigger] self.stored()[i].name
                    != #[trigger] self.stored()[j].name,
    {
        assert forall|i: int, j: int| 0 <= i < j < self.stored().len() implies #[trigger] self.stored()[i].name
            != #[trigger] self.stored()[j].name by {
            assert(self.stored()[i] == self.vars@[i]@);
            assert(self.stored()[j] == self.vars@[j]@);
        }
    }

    /// An empty repository.
    pub fn empty() -> (r: VarsRepository)
        ensures
            r@ == Map::<IdView, VarView>::empty(),
            r.stored().len() == 0,
            r.defaults_view() == Map::<IdView, Seq<ChoiceView>>::empty(),
            r.wf(),
    {
        let r = VarsRepository { vars: Vec::new(), defaults: Vec::new() };
        assert(vars_view(r.vars@) =~= Seq::<VarView>::empty());
        assert(r.defaults_view() =~= Map::<IdView, Seq<ChoiceView>>::empty());
        r
    }

    /// A repository of `value`; of vars that share an identifier, the first is kept.
    pub fn new(value: Vec<Var>) -> (r: VarsRepository)
        ensures
            r@ == vars_map_of(vars_view(value@)),
            r.stored() == add_new_vars(Seq::empty(), vars_view(value@)),
            r.defaults_view() == Map::<IdView, Seq<ChoiceView>>::empty(),
            r.wf(),
    {
        let mut r = Self::empty();
        assert(r.stored() =~= Seq::<VarView>::empty());
        r.add_all(value);
        r
    }

    /// A repository of `value` with default choices.
    pub fn with_defaults(value: Vec<Var>, defaults: Vec<(Identifier, Vec<Choice>)>) -> (r: VarsRepository)
        ensures
            r@ == vars_map_of(vars_view(value@)),
            r.stored() == add_new_vars(Seq::empty(), vars_view(value@)),
            r.defaults_view() == assoc_map(choice_map_view(defaults@)),
            r.wf(),
    {
        let mut r = Self::new(value);
        r.defaults = defaults;
        r
    }

    fn add_all(&mut self, value: Vec<Var>)
        requires
            old(self).wf(),
        ensures
            final(self).wf(),
            final(self)@ == vars_map_of(old(self).stored() + vars_view(value@)),
            final(self).stored() == add_new_vars(old(self).stored(), vars_view(value@)),
            final(self).defaults == old(self).defaults,
    {
        let ghost base = self.stored();
        let ghost vv = vars_view(value@);
        let mut value = value;
        proof {
            assert(base + vv.subrange(0, 0) =~= base);
            assert(vv.subrange(0, 0) =~= Seq::<VarView>::empty());
            assert(vv.subrange(0, vv.len() as int) =~= vv);
        }
        let mut k: usize = 0;
        let n = value.len();
        while value.len() > 0
            invariant
                self.wf(),
                self.defaults == old(self).defaults,
                n == vv.len(),
                k + value.len() == n,
                vars_view(value@) == vv.subrange(k as int, n as int),
                self@ == vars_map_of(base + vv.subrange(0, k as int)),
                self.stored() == add_new_vars(base, vv.subrange(0, k as int)),
            decreases value.len(),
        {
            let ghost old_vals = value@;
            assert(vars_view(old_vals)[0] == vv.subrange(k as int, n as int)[0]);
            let v = value.remove(0);
            proof {
                assert(vars_view(value@) =~= vars_view(old_vals).drop_first());
                assert(v@ == vv[k as int]);
                assert(vars_view(value@) =~= vv.subrange(k + 1, n as int));
                assert((base + vv.subrange(0, k + 1)).drop_last() =~= base + vv.subrange(0, k as int));
                assert((base + vv.subrange(0, k + 1)).last() == v@);
                assert(vv.subrange(0, k + 1).drop_last() =~= vv.subrange(0, k as int));
                assert(vv.subrange(0, k + 1).last() == v@);
            }
            self.add(v);
            k = k + 1;
        }
        assert(vv.subrange(0, k as int) =~= vv);
    }

    /// Adds `v` unless a var with its identifier is already there.
    fn add(&mut self, v: Var)
        requires
            old(self).wf(),
        ensures
            final(self).wf(),
            final(self)@ == (if old(self)@.contains_key(v@.name) {
                old(self)@
            } else {
                old(self)@.insert(v@.name, v@)
            }),
            final(self).stored() == (if first_var_index(old(self).stored(), v@.name) >= 0 {
                old(self).stored()
            } else {
                old(self).stored().push(v@)
            }),
            final(self).defaults == old(self).defaults,
    {
        let ghost s0 = vars_view(self.vars@);
        proof {
            lemma_vars_map_of(s0);
        }
        match find_var(self.vars.as_slice(), v.name_ref()) {
            Some(_) => {},
            None => {
                self.vars.push(v);
                proof {
                    assert(vars_view(self.vars@) =~= s0.push(v@));
                    assert(vars_view(self.vars@).drop_last() =~= s0);
                    assert forall|i: int, j: int| 0 <= i < j < self.vars@.len() implies self.vars@[i]@.name
                        != self.vars@[j]@.name by {
                        if j == self.vars@.len() - 1 {
                            assert(s0[i] == self.vars@[i]@);
                        }
                    }
                }
            },
        }
    }

    /// Adds the vars of `other` that this repository does not have.
    pub fn merge(&mut self, other: VarsRepository)
        requires
            old(self).wf(),
        ensures
            final(self).wf(),
            final(self)@ == vars_map_of(old(self).stored() + other.stored()),
            final(self).stored() == add_new_vars(old(self).stored(), other.stored()),
            final(self).defaults_view() == old(self).defaults_view(),
    {
        self.add_all(other.vars);
    }

    /// The vars, each once.
    pub fn vars_iter(&self) -> (r: &[Var])
        ensures
            vars_view(r@) == self.stored(),
    {
        self.vars.as_slice()
    }

    /// Fails with the dependencies, var after var, that are not vars of the repository.
    pub fn ensure_no_missing_dependency(&self) -> (r: Result<(), ErrorsVarsRepository>)
        ensures
            match r {
                Ok(()) => missing_deps(self.stored(), self@).len() == 0,
                Err(ErrorsVarsRepository::MissingDependencies(ids)) => ids_view(ids.0@)
                    == missing_deps(self.stored(), self@) && ids_view(ids.0@).len() > 0,
                Err(_) => false,
            },
    {
        let ghost m = self@;
        let ghost s = self.stored();
        let mut missing: Vec<Identifier> = Vec::new();
        let mut i: usize = 0;
        while i < self.vars.len()
            invariant
                i <= self.vars.len(),
                m == self@,
                s == self.stored(),
                s == vars_view(self.vars@),
                ids_view(missing@) == missing_deps(s.subrange(0, i as int), m),
            decreases self.vars.len() - i,
        {
            let deps = self.vars[i].dependencies();
            let ghost before = ids_view(missing@);
            let mut j: usize = 0;
            while j < deps.len()
                invariant
                    j <= deps.len(),
                    m == self@,
                    ids_view(missing@) == before + ids_view(deps@).subrange(0, j as int).filter(
                        |d: IdView| !m.contains_key(d),
                    ),
                decreases deps.len() - j,
            {
                let found = self.get(&deps[j]);
                let ghost mid = ids_view(missing@);
                if found.is_none() {
                    missing.push(deps[j].clone());
                }
                proof {
                    let sub = ids_view(deps@).subrange(0, j + 1);
                    assert(sub.drop_last() =~= ids_view(deps@).subrange(0, j as int));
                    reveal(Seq::filter);
                    assert(sub.filter(|d: IdView| !m.contains_key(d)) == sub.drop_last().filter(
                        |d: IdView| !m.contains_key(d),
                    ) + (if !m.contains_key(sub.last()) {
                        seq![sub.last()]
                    } else {
                        Seq::empty()
                    }));
                    if found.is_none() {
                        assert(ids_view(missing@) =~= mid.push(deps@[j as int]@));
                    }
                    assert(ids_view(missing@) =~= before + sub.filter(|d: IdView| !m.contains_key(d)));
                }
                j = j + 1;
            }
            proof {
                assert(ids_view(deps@).subrange(0, j as int) =~= ids_view(deps@));
                assert(s.subrange(0, i + 1).drop_last() =~= s.subrange(0, i as int));
                assert(s.subrange(0, i + 1).last() == self.vars@[i as int]@);
            }
            i = i + 1;
        }
        assert(s.subrange(0, i as int) =~= s);
        if missing.len() == 0 {
            Ok(())
        } else {
            Err(ErrorsVarsRepository::MissingDependencies(Identifiers(missing)))
        }
    }

    /// Resolves `var` with `resolver` (see `choice_for_var`).
    pub fn resolve<R: Resolver>(
        resolver: &R,
        var: &Var,
        choices: &Vec<(Identifier, Vec<Choice>)>,
        ctx: &ResolverContext,
    ) -> (r: Result<Vec<Choice>, ErrorDependencyResolution>)
        requires
            choice_map_view(ctx.choices@) == choice_map_view(choices@),
        ensures
            r matches Err(e) ==> e matches ErrorDependencyResolution::NoChoiceForVar { var_name, .. }
                && var_name@ == var@.name,
            var@.from_command is Some ==> (substitute_all(
                var_command(var@),
                var_deps(var@),
                choice_map_view(choices@),
            ) matches Err(id) ==> r matches Err(ErrorDependencyResolution::NoChoiceForVar {
                error: ErrorsResolver::Dependencies(ErrorsDependencies::MissingChoicesForVar(e)),
                ..
            }) && e@ == id),
            var@.from_command is None && var@.from_input is Some ==> (r matches Ok(cs) ==> cs.len() == 1),
            var@.from_command is Some ==> (substitute_all(
                var_command(var@),
                var_deps(var@),
                choice_map_view(choices@),
            ) matches Ok(cmds) ==> (known_answers(*resolver, var@, cmds) matches Some(a) ==> gives(r, a))),
            known_answer(*resolver, var@) matches Some(a) ==> gives(r, a),
    {
        choice_for_var(resolver, var, choices, ctx)
    }
}

impl VarsCollection for VarsRepository {
    open spec fn vars_map(&self) -> Map<IdView, VarView> {
        self@
    }

    proof fn lemma_vars_map(&self) {
        lemma_vars_map_of(self.stored());
    }

    fn get(&self, id: &Identifier) -> (r: Option<&Var>) {
        proof {
            lemma_vars_map_of(vars_view(self.vars@));
        }
        match find_var(self.vars.as_slice(), id) {
            Some(i) => Some(&self.vars[i]),
            None => None,
        }
    }
}

/// Looks up the first entry of `l` for `id`.
pub fn assoc_get<'a>(l: &'a Vec<(Identifier, Vec<Choice>)>, id: &Identifier) -> (r: Option<&'a Vec<Choice>>)
    ensures
        match r {
            Some(cs) => assoc_map(choice_map_view(l@)).contains_key(id@) && choices_view(cs@)
                == assoc_map(choice_map_view(l@))[id@],
            None => !assoc_map(choice_map_view(l@)).contains_key(id@),
        },
{
    let idx = crate::dependencies::find_entry(l, id);
    proof {
        crate::dependencies::lemma_key_index_keys(
            choice_map_view(l@),
            l@.map_values(|e: (Identifier, Vec<Choice>)| (e.0@, ())),
            id@,
        );
    }
    match idx {
        Some(i) => Some(&l[i].1),
        None => None,
    }
}

impl VarsDefaultValues for VarsRepository {
    open spec fn defaults_map(&self) -> Map<IdView, Seq<ChoiceView>> {
        self.defaults_view()
    }

    fn default_value(&self, id: &Identifier) -> (r: Option<Vec<Choice>>) {
        match assoc_get(&self.defaults, id) {
            Some(cs) => Some(crate::choices::clone_choices(cs)),
            None => None,
        }
    }
}

/// Something whose default choices can be set.
pub trait VarsDefaultValuesSetter {
    /// The default choices.
    spec fn defaults_spec(&self) -> Map<IdView, Seq<ChoiceView>>;

    /// Makes `defaults` the default choices of their vars.
    fn set_defaults(&mut self, defaults: &Vec<(Identifier, Vec<Choice>)>)
        ensures
            assoc_map(choice_map_view(defaults@)).submap_of(final(self).defaults_spec()),
    ;
}

impl VarsDefaultValuesSetter for VarsRepository {
    open spec fn defaults_spec(&self) -> Map<IdView, Seq<ChoiceView>> {
        self.defaults_view()
    }

    /// Replaces the default choices by `defaults`.
    fn set_defaults(&mut self, defaults: &Vec<(Identifier, Vec<Choice>)>)
        ensures
            final(self).defaults_spec() == assoc_map(choice_map_view(defaults@)),
    {
        self.defaults = crate::aliases::clone_choice_map(defaults);
    }
}

/// Where `k` first occurs in `l` once the entry `e` is put before it.
proof fn lemma_key_index_prepend<V>(e: (IdView, V), l: Seq<(IdView, V)>, k: IdView)
    ensures
        key_index(seq![e] + l, k) == if e.0 == k {
            0
        } else if key_index(l, k) >= 0 {
            key_index(l, k) + 1
        } else {
            -1
        },
    decreases l.len(),
{
    if l.len() > 0 {
        let big = seq![e] + l;
        assert(big.drop_last() =~= seq![e] + l.drop_last());
        assert(big.last() == l.last());
        assert(big.len() - 1 == l.len());
        lemma_key_index_prepend(e, l.drop_last(), k);
        lemma_key_index(l.drop_last(), k);
        let j = key_index(big.drop_last(), k);
        assert(key_index(big, k) == if j >= 0 {
            j
        } else if big.last().0 == k {
            big.len() - 1
        } else {
            -1
        });
        let jl = key_index(l.drop_last(), k);
        assert(key_index(l, k) == if jl >= 0 {
            jl
        } else if l.last().0 == k {
            l.len() - 1
        } else {
            -1
        });
    } else {
        let big = seq![e] + l;
        assert(big.drop_last() =~= Seq::<(IdView, V)>::empty());
        assert(key_index(big.drop_last(), k) == -1);
        assert(big.last() == e);
        assert(key_index(l, k) == -1);
    }
}

/// Setting `k` in a list sets it in the map the list stands for.
proof fn lemma_assoc_map_set<V>(l: Seq<(IdView, V)>, k: IdView, v: V)
    ensures
        assoc_map(map_set(l, k, v)) == assoc_map(l).insert(k, v),
{
    crate::resolution::lemma_map_set(l, k, v);
    assert(assoc_map(map_set(l, k, v)) =~= assoc_map(l).insert(k, v));
}

/// The entries of `d` from `i` on, seen as a map: the entry at `i` overrides the later ones.
proof fn lemma_assoc_map_from<V>(d: Seq<(IdView, V)>, i: int)
    requires
        0 <= i < d.len(),
    ensures
        assoc_map(d.subrange(i, d.len() as int)) == assoc_map(d.subrange(i + 1, d.len() as int)).insert(d[i].0, d[i].1),
{
    let a = d.subrange(i, d.len() as int);
    let b = d.subrange(i + 1, d.len() as int);
    assert(a =~= seq![d[i]] + b);
    assert forall|k: IdView| key_index(a, k) == if d[i].0 == k {
        0
    } else if key_index(b, k) >= 0 {
        key_index(b, k) + 1
    } else {
        -1
    } by {
        lemma_key_index_prepend(d[i], b, k);
    }
    assert forall|k: IdView| key_index(b, k) >= 0 implies a[key_index(b, k) + 1] == b[key_index(b, k)] by {
        lemma_key_index(b, k);
    }
    assert(assoc_map(a) =~= assoc_map(b).insert(d[i].0, d[i].1));
}

/// Vars held in a plain list, for tests; the first var of an identifier counts.
pub struct VarsCollectionMock(pub Vec<Var>);

impl VarsCollection for VarsCollectionMock {
    open spec fn vars_map(&self) -> Map<IdView, VarView> {
        vars_map_of(vars_view(self.0@))
    }

    proof fn lemma_vars_map(&self) {
        lemma_vars_map_of(vars_view(self.0@));
    }

    fn get(&self, id: &Identifier) -> (r: Option<&Var>) {
        proof {
            lemma_vars_map_of(vars_view(self.0@));
        }
        match find_var(self.0.as_slice(), id) {
            Some(i) => Some(&self.0[i]),
            None => None,
        }
    }
}

/// Default choices held in a plain list, for tests.
pub struct VarsDefaultValuesMock(pub Vec<(Identifier, Vec<Choice>)>);

impl VarsDefaultValues for VarsDefaultValuesMock {
    open spec fn defaults_map(&self) -> Map<IdView, Seq<ChoiceView>> {
        assoc_map(choice_map_view(self.0@))
    }

    fn default_value(&self, id: &Identifier) -> (r: Option<Vec<Choice>>) {
        match assoc_get(&self.0, id) {
            Some(cs) => Some(crate::choices::clone_choices(cs)),
            None => None,
        }
    }
}

impl VarsDefaultValuesSetter for VarsDefaultValuesMock {
    open spec fn defaults_spec(&self) -> Map<IdView, Seq<ChoiceView>> {
        assoc_map(choice_map_view(self.0@))
    }

    /// Adds `defaults` to the default choices, each replacing the one of its var.
    fn set_defaults(&mut self, defaults: &Vec<(Identifier, Vec<Choice>)>)
        ensures
            final(self).defaults_spec() == old(self).defaults_spec().union_prefer_right(
                assoc_map(choice_map_view(defaults@)),
            ),
    {
        let ghost d = choice_map_view(defaults@);
        let ghost before = self.defaults_spec();
        let n = defaults.len();
        let mut i: usize = n;
        assert(d.subrange(n as int, n as int) =~= Seq::<(IdView, Seq<ChoiceView>)>::empty());
        assert(assoc_map(d.subrange(n as int, n as int)) =~= Map::<IdView, Seq<ChoiceView>>::empty());
        assert(before.union_prefer_right(Map::<IdView, Seq<ChoiceView>>::empty()) =~= before);
        while i > 0
            invariant
                i <= n,
                n == defaults@.len(),
                d == choice_map_view(defaults@),
                d.len() == n,
                self.defaults_spec() == before.union_prefer_right(assoc_map(d.subrange(i as int, n as int))),
            decreases i,
        {
            i = i - 1;
            let ghost cur = choice_map_view(self.0@);
            let (id, cs) = (defaults[i].0.clone(), crate::choices::clone_choices(&defaults[i].1));
            proof {
                lemma_assoc_map_from(d, i as int);
                assert(d[i as int] == (defaults@[i as int].0@, choices_view(defaults@[i as int].1@)));
            }
            set_choices(&mut self.0, id, cs);
            proof {
                lemma_assoc_map_set(cur, d[i as int].0, d[i as int].1);
                assert(self.defaults_spec() =~= before.union_prefer_right(assoc_map(d.subrange(i as int, n as int))));
            }
        }
        assert(d.subrange(0, n as int) =~= d);
    }
}

/// Why the repository is not usable.
#[derive(Debug)]
pub enum ErrorsVarsRepository {
    /// These dependencies are not vars of the repository.
    MissingDependencies(Identifiers),
    /// Defaults were given for these unknown vars.
    UnknowVarsDefaults(Identifiers),
    /// The var could not be resolved.
    NoChoiceForVar { var_name: Identifier, error: crate::resolver::ErrorsResolver },
}

} // verus!

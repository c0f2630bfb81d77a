//! Dependencies of a template and the substitution of choices into it.
use vstd::prelude::*;
use crate::text::{chars_of, string_of, extend_chars};
use crate::template::{replace_first_placeholder, replace_first_exec, ns_sep, ns_sep_exec};
use crate::identifiers::{Identifier, IdView, ids_view, spec_parse};
use crate::choices::{Choice, ChoiceView, choices_view};

verus! {

/// `origin` with the first `{{ name }}` of `dep` and then the first `{{ ns::name }}` of
/// `dep` (an empty namespace when it has none) replaced by `choice`.
pub open spec fn spec_substitute_choice(origin: Seq<char>, dep: IdView, choice: Seq<char>) -> Seq<
    char,
> {
    let first = replace_first_placeholder(origin, dep.name, choice);
    let ns = match dep.namespace {
        Some(n) => n,
        None => Seq::empty(),
    };
    replace_first_placeholder(first, ns + ns_sep() + dep.name, choice)
}

/// Position of the first entry whose key is `k`, or -1.
pub open spec fn key_index<V>(l: Seq<(IdView, V)>, k: IdView) -> int
    decreases l.len(),
{
    if l.len() == 0 {
        -1
    } else {
        let j = key_index(l.drop_last(), k);
        if j >= 0 {
            j
        } else if l.last().0 == k {
            l.len() - 1
        } else {
            -1
        }
    }
}

/// The value of the first entry whose key is `k`.
pub open spec fn lookup<V>(l: Seq<(IdView, V)>, k: IdView) -> Option<V> {
    let i = key_index(l, k);
    if i >= 0 {
        Some(l[i].1)
    } else {
        None
    }
}

pub proof fn lemma_key_index<V>(l: Seq<(IdView, V)>, k: IdView)
    ensures
        -1 <= key_index(l, k) < l.len(),
        key_index(l, k) >= 0 ==> l[key_index(l, k)].0 == k,
        key_index(l, k) >= 0 ==> forall|j: int| 0 <= j < key_index(l, k) ==> l[j].0 != k,
        key_index(l, k) == -1 <==> forall|j: int| 0 <= j < l.len() ==> l[j].0 != k,
    decreases l.len(),
{
    if l.len() > 0 {
        lemma_key_index(l.drop_last(), k);
        assert forall|j: int| 0 <= j < l.len() - 1 implies l.drop_last()[j] == l[j] by {}
    }
}

/// What a list of (identifier, choices) stands for.
pub open spec fn choice_map_view(l: Seq<(Identifier, Vec<Choice>)>) -> Seq<(IdView, Seq<ChoiceView>)> {
    l.map_values(|e: (Identifier, Vec<Choice>)| (e.0@, choices_view(e.1@)))
}

/// What a list of (identifier, choice) stands for.
pub open spec fn partial_choice_view(l: Seq<(Identifier, Choice)>) -> Seq<(IdView, ChoiceView)> {
    l.map_values(|e: (Identifier, Choice)| (e.0@, e.1@))
}

/// The commands `cmds`, substituted with each value in turn: all the commands with the first
/// value, then all of them with the second, and so on.
pub open spec fn expand(cmds: Seq<Seq<char>>, dep: IdView, values: Seq<ChoiceView>) -> Seq<
    Seq<char>,
>
    decreases values.len(),
{
    if values.len() == 0 {
        Seq::empty()
    } else {
        expand(cmds, dep, values.drop_last()) + cmds.map_values(
            |c: Seq<char>| spec_substitute_choice(c, dep, values.last().value),
        )
    }
}

/// Each value of a dependency gives its own copy of the commands: substituting the values
/// `values` of `dep` into `cmds` gives `|values| * |cmds|` commands, and the `j`-th command of
/// the `k`-th copy is the `j`-th of `cmds` with the `k`-th value put in.
pub proof fn lemma_expand_copies(cmds: Seq<Seq<char>>, dep: IdView, values: Seq<ChoiceView>)
    ensures
        expand(cmds, dep, values).len() == values.len() * cmds.len(),
        forall|k: int, j: int|
            0 <= k < values.len() && 0 <= j < cmds.len() ==> #[trigger] expand(cmds, dep, values)[k * cmds.len() + j]
                == spec_substitute_choice(#[trigger] cmds[j], dep, values[k].value),
    decreases values.len(),
{
    let m = cmds.len() as int;
    let n = values.len() as int;
    if n == 0 {
        assert(0 * m == 0) by (nonlinear_arith);
    } else {
        let p = values.drop_last();
        lemma_expand_copies(cmds, dep, p);
        let e = expand(cmds, dep, values);
        let ep = expand(cmds, dep, p);
        let last = cmds.map_values(|c: Seq<char>| spec_substitute_choice(c, dep, values.last().value));
        assert(e == ep + last);
        assert(ep.len() == (n - 1) * m);
        assert((n - 1) * m + m == n * m) by (nonlinear_arith);
        assert forall|k: int, j: int|
            0 <= k < n && 0 <= j < m implies #[trigger] e[k * m + j] == spec_substitute_choice(
            #[trigger] cmds[j],
            dep,
            values[k].value,
        ) by {
            if k < n - 1 {
                assert(k * m + j < (n - 1) * m) by (nonlinear_arith)
                    requires
                        0 <= k < n - 1,
                        0 <= j < m,
                ;
                assert(0 <= k * m) by (nonlinear_arith)
                    requires
                        0 <= k,
                        0 <= m,
                ;
                assert(e[k * m + j] == ep[k * m + j]);
                assert(p[k] == values[k]);
            } else {
                assert(k * m + j == (n - 1) * m + j);
                assert(e[k * m + j] == last[j]);
                assert(values[k] == values.last());
            }
        }
    }
}

/// With one dependency, each choice given for it makes one command, in the order the choices
/// are given: the template with that choice's value put in.
pub proof fn lemma_substitute_one_dependency(cmd: Seq<char>, dep: IdView, cs: Seq<ChoiceView>)
    ensures
        substitute_all(cmd, seq![dep], seq![(dep, cs)]) == Ok::<Seq<Seq<char>>, IdView>(
            Seq::new(cs.len(), |k: int| spec_substitute_choice(cmd, dep, cs[k].value)),
        ),
{
    let deps = seq![dep];
    let ch = seq![(dep, cs)];
    assert(deps.drop_last() =~= Seq::<IdView>::empty());
    assert(substitute_all(cmd, deps.drop_last(), ch) == Ok::<Seq<Seq<char>>, IdView>(seq![cmd]));
    lemma_key_index(ch, dep);
    assert(lookup(ch, dep) == Some(cs));
    lemma_expand_copies(seq![cmd], dep, cs);
    let e = expand(seq![cmd], dep, cs);
    assert(cs.len() * 1 == cs.len());
    assert forall|k: int| 0 <= k < cs.len() implies e[k] == spec_substitute_choice(cmd, dep, cs[k].value) by {
        assert(k * 1 + 0 == k);
        assert(seq![cmd][0] == cmd);
    }
    assert(e =~= Seq::new(cs.len(), |k: int| spec_substitute_choice(cmd, dep, cs[k].value)));
}

/// How many commands the given choices make: the product, over the dependencies, of the
/// number of choices given for each.
pub open spec fn combinations(deps: Seq<IdView>, choices: Seq<(IdView, Seq<ChoiceView>)>) -> nat
    decreases deps.len(),
{
    if deps.len() == 0 {
        1
    } else {
        combinations(deps.drop_last(), choices) * match lookup(choices, deps.last()) {
            Some(cs) => cs.len(),
            None => 0,
        }
    }
}

/// Substituting makes one command per combination of the choices given for the dependencies.
pub proof fn lemma_substitute_all_count(
    cmd: Seq<char>,
    deps: Seq<IdView>,
    choices: Seq<(IdView, Seq<ChoiceView>)>,
)
    ensures
        substitute_all(cmd, deps, choices) matches Ok(out) ==> out.len() == combinations(deps, choices),
    decreases deps.len(),
{
    if deps.len() > 0 {
        lemma_substitute_all_count(cmd, deps.drop_last(), choices);
        match substitute_all(cmd, deps.drop_last(), choices) {
            Ok(cmds) => match lookup(choices, deps.last()) {
                Some(cs) => {
                    lemma_expand_copies(cmds, deps.last(), cs);
                    assert(cs.len() * cmds.len() == cmds.len() * cs.len()) by (nonlinear_arith);
                },
                None => {},
            },
            Err(_) => {},
        }
    }
}

/// The commands obtained from `cmd` by substituting, dependency after dependency, every
/// choice of that dependency; or the first dependency that has no entry in `choices`.
pub open spec fn substitute_all(
    cmd: Seq<char>,
    deps: Seq<IdView>,
    choices: Seq<(IdView, Seq<ChoiceView>)>,
) -> Result<Seq<Seq<char>>, IdView>
    decreases deps.len(),
{
    if deps.len() == 0 {
        Ok(seq![cmd])
    } else {
        match substitute_all(cmd, deps.drop_last(), choices) {
            Err(e) => Err(e),
            Ok(cmds) => match lookup(choices, deps.last()) {
                None => Err(deps.last()),
                Some(cs) => Ok(expand(cmds, deps.last(), cs)),
            },
        }
    }
}

/// `cmd` with, dependency after dependency, the choice given for it substituted; the
/// dependencies without a choice are left as they are.
pub open spec fn substitute_partial(
    cmd: Seq<char>,
    deps: Seq<IdView>,
    choices: Seq<(IdView, ChoiceView)>,
) -> Seq<char>
    decreases deps.len(),
{
    if deps.len() == 0 {
        cmd
    } else {
        let prev = substitute_partial(cmd, deps.drop_last(), choices);
        match lookup(choices, deps.last()) {
            None => prev,
            Some(c) => spec_substitute_choice(prev, deps.last(), c.value),
        }
    }
}

pub proof fn lemma_substitute_all_err(
    cmd: Seq<char>,
    deps: Seq<IdView>,
    j: int,
    choices: Seq<(IdView, Seq<ChoiceView>)>,
)
    requires
        0 <= j <= deps.len(),
        substitute_all(cmd, deps.subrange(0, j), choices) is Err,
    ensures
        substitute_all(cmd, deps, choices) == substitute_all(cmd, deps.subrange(0, j), choices),
    decreases deps.len() - j,
{
    if j == deps.len() {
        assert(deps.subrange(0, j) =~= deps);
    } else {
        assert(deps.subrange(0, j + 1).drop_last() =~= deps.subrange(0, j));
        lemma_substitute_all_err(cmd, deps, j + 1, choices);
    }
}

/// The views of a sequence of strings.
pub open spec fn strings_view(v: Seq<String>) -> Seq<Seq<char>> {
    v.map_values(|s: String| s@)
}

/// Replaces the first `{{ name }}` and then the first `{{ ns::name }}` of `dependency` in
/// `origin` by `choice`.
pub fn substitute_choice(origin: &str, dependency: &Identifier, choice: &str) -> (r: String)
    ensures
        r@ == spec_substitute_choice(origin@, dependency@, choice@),
{
    let o = chars_of(origin);
    let name = chars_of(dependency.name());
    let c = chars_of(choice);
    let first = replace_first_exec(o.as_slice(), name.as_slice(), c.as_slice());
    let mut qualified = match dependency.namespace() {
        Some(ns) => chars_of(ns),
        None => Vec::new(),
    };
    let sep = ns_sep_exec();
    extend_chars(&mut qualified, sep.as_slice());
    extend_chars(&mut qualified, name.as_slice());
    let second = replace_first_exec(first.as_slice(), qualified.as_slice(), c.as_slice());
    string_of(second.as_slice())
}

/// Position of the first entry of `choices` for `id`.
pub fn find_entry<V>(choices: &Vec<(Identifier, V)>, id: &Identifier) -> (r: Option<usize>)
    ensures
        match r {
            Some(i) => i < choices@.len() && key_index(
                choices@.map_values(|e: (Identifier, V)| (e.0@, ())),
                id@,
            ) == i as int,
            None => key_index(choices@.map_values(|e: (Identifier, V)| (e.0@, ())), id@) == -1,
        },
{
    let ghost keys = choices@.map_values(|e: (Identifier, V)| (e.0@, ()));
    let mut i: usize = 0;
    while i < choices.len()
        invariant
            i <= choices.len(),
            keys == choices@.map_values(|e: (Identifier, V)| (e.0@, ())),
            key_index(keys.subrange(0, i as int), id@) == -1,
        decreases choices.len() - i,
    {
        proof {
            assert(keys.subrange(0, i + 1).drop_last() =~= keys.subrange(0, i as int));
        }
        if choices[i].0.equals(id) {
            proof {
                lemma_key_index_prefix(keys, id@, i as int);
            }
            return Some(i);
        }
        i = i + 1;
    }
    assert(keys.subrange(0, i as int) =~= keys);
    None
}

pub proof fn lemma_key_index_prefix<V>(l: Seq<(IdView, V)>, k: IdView, i: int)
    requires
        0 <= i < l.len(),
        key_index(l.subrange(0, i), k) == -1,
        l[i].0 == k,
    ensures
        key_index(l, k) == i,
    decreases l.len(),
{
    if i == l.len() - 1 {
        assert(l.drop_last() =~= l.subrange(0, i));
    } else {
        assert(l.drop_last().subrange(0, i) =~= l.subrange(0, i));
        lemma_key_index_prefix(l.drop_last(), k, i);
    }
}

pub proof fn lemma_key_index_keys<V, W>(l: Seq<(IdView, V)>, m: Seq<(IdView, W)>, k: IdView)
    requires
        l.len() == m.len(),
        forall|j: int| 0 <= j < l.len() ==> l[j].0 == m[j].0,
    ensures
        key_index(l, k) == key_index(m, k),
    decreases l.len(),
{
    if l.len() > 0 {
        lemma_key_index_keys(l.drop_last(), m.drop_last(), k);
    }
}

/// Substitutes, dependency after dependency, every choice given for it into `command`;
/// fails on the first dependency without an entry in `choices`.
pub fn substitute_for_choices(
    command: &str,
    deps: &Vec<Identifier>,
    choices: &Vec<(Identifier, Vec<Choice>)>,
) -> (r: Result<Vec<String>, ErrorsDependencies>)
    ensures
        match r {
            Ok(v) => substitute_all(command@, ids_view(deps@), choice_map_view(choices@)) == Ok::<
                Seq<Seq<char>>,
                IdView,
            >(strings_view(v@)),
            Err(ErrorsDependencies::MissingChoicesForVar(id)) => substitute_all(
                command@,
                ids_view(deps@),
                choice_map_view(choices@),
            ) == Err::<Seq<Seq<char>>, IdView>(id@),
        },
{
    let ghost cv = choice_map_view(choices@);
    let ghost dv = ids_view(deps@);
    let mut cmds: Vec<String> = Vec::new();
    cmds.push(command.to_owned());
    assert(strings_view(cmds@) =~= seq![command@]);
    let mut k: usize = 0;
    while k < deps.len()
        invariant
            k <= deps.len(),
            cv == choice_map_view(choices@),
            dv == ids_view(deps@),
            substitute_all(command@, dv.subrange(0, k as int), cv) == Ok::<Seq<Seq<char>>, IdView>(
                strings_view(cmds@),
            ),
        decreases deps.len() - k,
    {
        let dep = &deps[k];
        assert(dv.subrange(0, k + 1).drop_last() =~= dv.subrange(0, k as int));
        assert(dv.subrange(0, k + 1).last() == dep@);
        let idx = find_entry(choices, dep);
        proof {
            lemma_key_index_keys(cv, choices@.map_values(|e: (Identifier, Vec<Choice>)| (e.0@, ())), dep@);
        }
        match idx {
            None => {
                proof {
                    lemma_substitute_all_err(command@, dv, k + 1, cv);
                }
                return Err(ErrorsDependencies::MissingChoicesForVar(dep.clone()));
            },
            Some(i) => {
                let cs = &choices[i].1;
                assert(cv[i as int].1 == choices_view(cs@));
                let ghost old_cmds = strings_view(cmds@);
                let mut new_cmds: Vec<String> = Vec::new();
                let mut j: usize = 0;
                while j < cs.len()
                    invariant
                        j <= cs.len(),
                        strings_view(new_cmds@) == expand(
                            old_cmds,
                            dep@,
                            choices_view(cs@).subrange(0, j as int),
                        ),
                        old_cmds == strings_view(cmds@),
                    decreases cs.len() - j,
                {
                    let value = cs[j].value();
                    let ghost before = strings_view(new_cmds@);
                    let mut m: usize = 0;
                    while m < cmds.len()
                        invariant
                            m <= cmds.len(),
                            old_cmds == strings_view(cmds@),
                            value@ == choices_view(cs@)[j as int].value,
                            strings_view(new_cmds@) == before + old_cmds.subrange(0, m as int).map_values(
                                |c: Seq<char>| spec_substitute_choice(c, dep@, value@),
                            ),
                        decreases cmds.len() - m,
                    {
                        let s = substitute_choice(cmds[m].as_str(), dep, value);
                        let ghost prev = new_cmds@;
                        new_cmds.push(s);
                        assert(strings_view(new_cmds@) =~= strings_view(prev).push(s@));
                        assert(old_cmds.subrange(0, m + 1) =~= old_cmds.subrange(0, m as int).push(
                            old_cmds[m as int],
                        ));
                        assert(old_cmds.subrange(0, m + 1).map_values(
                            |c: Seq<char>| spec_substitute_choice(c, dep@, value@),
                        ) =~= old_cmds.subrange(0, m as int).map_values(
                            |c: Seq<char>| spec_substitute_choice(c, dep@, value@),
                        ).push(spec_substitute_choice(old_cmds[m as int], dep@, value@)));
                        m = m + 1;
                    }
                    assert(old_cmds.subrange(0, m as int) =~= old_cmds);
                    assert(choices_view(cs@).subrange(0, j + 1).drop_last() =~= choices_view(
                        cs@,
                    ).subrange(0, j as int));
                    j = j + 1;
                }
                assert(choices_view(cs@).subrange(0, j as int) =~= choices_view(cs@));
                assert(cv[i as int].1 == choices_view(cs@));
                cmds = new_cmds;
            },
        }
        k = k + 1;
    }
    assert(dv.subrange(0, k as int) =~= dv);
    Ok(cmds)
}

/// Substitutes into `command`, dependency after dependency, the choice given for it; the
/// dependencies without one are left in place.
pub fn substitute_for_choices_partial(
    command: &str,
    deps: &Vec<Identifier>,
    choices: &Vec<(Identifier, Choice)>,
) -> (r: String)
    ensures
        r@ == substitute_partial(command@, ids_view(deps@), partial_choice_view(choices@)),
{
    let ghost cv = partial_choice_view(choices@);
    let ghost dv = ids_view(deps@);
    let mut cmd = command.to_owned();
    let mut k: usize = 0;
    while k < deps.len()
        invariant
            k <= deps.len(),
            cv == partial_choice_view(choices@),
            dv == ids_view(deps@),
            substitute_partial(command@, dv.subrange(0, k as int), cv) == cmd@,
        decreases deps.len() - k,
    {
        let dep = &deps[k];
        assert(dv.subrange(0, k + 1).drop_last() =~= dv.subrange(0, k as int));
        assert(dv.subrange(0, k + 1).last() == dep@);
        let idx = find_entry(choices, dep);
        proof {
            lemma_key_index_keys(cv, choices@.map_values(|e: (Identifier, Choice)| (e.0@, ())), dep@);
        }
        match idx {
            None => {},
            Some(i) => {
                cmd = substitute_choice(cmd.as_str(), dep, choices[i].1.value());
            },
        }
        k = k + 1;
    }
    assert(dv.subrange(0, k as int) =~= dv);
    cmd
}

/// Something with a template whose placeholders name its dependencies.
pub trait Dependencies {
    /// The template.
    spec fn command_view(&self) -> Seq<char>;

    /// The namespace given to placeholders that name none.
    spec fn namespace_view(&self) -> Option<Seq<char>>;

    /// The template.
    fn command(&self) -> (r: &str)
        ensures
            r@ == self.command_view(),
    ;

    /// The namespace given to placeholders that name none.
    fn dependency_namespace(&self) -> (r: Option<&str>)
        ensures
            match r {
                Some(n) => self.namespace_view() == Some(n@),
                None => self.namespace_view() is None,
            },
    ;

    /// The identifiers named by the template's placeholders, in order.
    fn dependencies(&self) -> (r: Vec<Identifier>)
        ensures
            ids_view(r@) == spec_parse(self.command_view(), self.namespace_view()),
    {
        Identifier::parse(self.command(), self.dependency_namespace())
    }

    /// The commands obtained by substituting every given choice of every dependency.
    fn substitute_for_choices(&self, choices: &Vec<(Identifier, Vec<Choice>)>) -> (r: Result<
        Vec<String>,
        ErrorsDependencies,
    >)
        ensures
            match r {
                Ok(v) => substitute_all(
                    self.command_view(),
                    spec_parse(self.command_view(), self.namespace_view()),
                    choice_map_view(choices@),
                ) == Ok::<Seq<Seq<char>>, IdView>(strings_view(v@)),
                Err(ErrorsDependencies::MissingChoicesForVar(id)) => substitute_all(
                    self.command_view(),
                    spec_parse(self.command_view(), self.namespace_view()),
                    choice_map_view(choices@),
                ) == Err::<Seq<Seq<char>>, IdView>(id@),
            },
    {
        let deps = self.dependencies();
        substitute_for_choices(self.command(), &deps, choices)
    }

    /// The template with the given choices substituted.
    fn substitute_for_choices_partial(&self, choices: &Vec<(Identifier, Choice)>) -> (r: String)
        ensures
            r@ == substitute_partial(
                self.command_view(),
                spec_parse(self.command_view(), self.namespace_view()),
                partial_choice_view(choices@),
            ),
    {
        let deps = self.dependencies();
        substitute_for_choices_partial(self.command(), &deps, choices)
    }
}

/// The order in which vars are to be resolved.
#[derive(Debug)]
pub struct ExecutionSequence {
    inner: Vec<Identifier>,
}

impl View for ExecutionSequence {
    type V = Seq<IdView>;

    closed spec fn view(&self) -> Seq<IdView> {
        ids_view(self.inner@)
    }
}

impl ExecutionSequence {
    /// A sequence made of `inner`, in that order.
    pub fn new(inner: Vec<Identifier>) -> (r: ExecutionSequence)
        ensures
            r@ == ids_view(inner@),
    {
        ExecutionSequence { inner }
    }

    /// A copy of the identifiers, in order.
    pub fn identifiers(&self) -> (r: Vec<Identifier>)
        ensures
            ids_view(r@) == self@,
    {
        let r = self.inner.clone();
        assert(r@ =~= self.inner@);
        r
    }

    /// The identifiers, in order.
    pub fn as_slice(&self) -> (r: &[Identifier])
        ensures
            ids_view(r@) == self@,
    {
        self.inner.as_slice()
    }
}

/// Why substitution failed.
#[derive(Debug)]
pub enum ErrorsDependencies {
    /// No choice was given for this var.
    MissingChoicesForVar(Identifier),
}

} // verus!

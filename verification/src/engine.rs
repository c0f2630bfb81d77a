//! The engine: choose an alias, resolve its vars, record it and run it.
use vstd::prelude::*;
use std::collections::HashMap;
use crate::text::{chars_of, string_of, extend_chars, push_str};
use crate::identifiers::{Identifier, IdView, spec_display, ids_view};
use crate::choices::{Choice, ChoiceView};
use crate::aliases::{Alias, AliasView, ResolvedAlias, ResolvedAliasView, AliasAndDependencies};
use crate::aliases_repository::AliasCollection;
use crate::dependencies::{
    Dependencies, choice_map_view, substitute_all, key_index, lookup, ErrorsDependencies,
    strings_view,
};
use crate::resolution::{
    VarsCollection, VarsDefaultValues, ErrorDependencyResolution, reachable,
    execution_sequence_for_dependencies, choices_for_execution_sequence,
};
use crate::vars_repository::VarsDefaultValuesSetter;
use crate::resolver::{Resolver, ErrorsResolver};

verus! {

/// The prompt shown when choosing an alias.
pub const PROMPT: &'static str = "Choose an alias to run > ";

/// What the engine can be asked to do.
#[derive(Debug)]
pub enum SamCommand {
    ChooseAndExecuteAlias,
    ExecuteAlias { alias: Identifier },
    DisplayLastExecutedAlias,
    ExecuteLastExecutedAlias,
    ModifyThenExecuteLastAlias,
    DisplayHistory,
}

/// The most recent of `entries`, if any.
pub open spec fn latest(entries: Seq<ResolvedAliasView>) -> Option<ResolvedAliasView> {
    if entries.len() > 0 {
        Some(entries.last())
    } else {
        None
    }
}

/// The last `n` of `entries`, or all of them when there are fewer.
pub open spec fn last_window(entries: Seq<ResolvedAliasView>, n: nat) -> Seq<ResolvedAliasView> {
    if entries.len() <= n {
        entries
    } else {
        entries.subrange(entries.len() - n, entries.len() as int)
    }
}

/// Where resolved aliases are recorded.
pub trait SamHistory {
    /// The aliases recorded, oldest first.
    spec fn entries_view(&self) -> Seq<ResolvedAliasView>;

    /// Whether an alias just recorded is kept (a history bounded to no entry keeps none).
    spec fn retains(&self) -> bool;

    /// Whether the history can be read and written (a history kept in memory always can).
    spec fn available(&self) -> bool;

    /// Records `alias`: it becomes the most recent entry, after those kept from before (a
    /// bounded history may drop its oldest entries).
    fn put(&mut self, alias: ResolvedAlias) -> (r: Result<(), ErrorSamEngine>)
        ensures
            old(self).available() ==> r is Ok,
            r is Ok && old(self).retains() ==> latest(final(self).entries_view()) == Some(alias@),
            final(self).retains() == old(self).retains(),
            final(self).available() == old(self).available(),
            r is Ok ==> exists|k: int|
                0 <= k <= old(self).entries_view().len() + 1 && final(self).entries_view()
                    == #[trigger] old(self).entries_view().push(alias@).subrange(
                    k,
                    old(self).entries_view().len() + 1int,
                ),
    ;

    /// The last `n` aliases recorded (all of them when there are fewer).
    fn get_last_n(&self, n: usize) -> (r: Result<Vec<ResolvedAlias>, ErrorSamEngine>)
        ensures
            self.available() ==> r is Ok,
            r matches Ok(v) ==> v@.len() == last_window(self.entries_view(), n as nat).len()
                && forall|i: int|
                0 <= i < v@.len() ==> last_window(self.entries_view(), n as nat).contains(
                    #[trigger] v@[i]@,
                ),
    ;

    /// The most recent alias recorded.
    fn get_last(&self) -> (r: Result<Option<ResolvedAlias>, ErrorSamEngine>)
        ensures
            self.available() ==> r is Ok,
            r matches Ok(o) ==> match o {
                Some(a) => latest(self.entries_view()) == Some(a@),
                None => self.entries_view().len() == 0,
            },
    {
        let mut last = self.get_last_n(1)?;
        proof {
            let w = last_window(self.entries_view(), 1);
            if self.entries_view().len() > 0 {
                assert(w.len() == 1);
                assert(w[0] == self.entries_view().last());
                assert(w.contains(last@[0]@));
            }
        }
        Ok(last.pop())
    }
}

/// Where the engine reports what it does.
pub trait SamLogger {
    fn final_command(&self, alias: &Alias, fc: &str);

    fn command(&self, var: &str, cmd: &str);

    fn choice(&self, var: &str, choice: &str);

    fn alias(&self, alias: &Alias);
}

/// What runs the commands of a resolved alias.
pub trait SamExecutor {
    /// The aliases handed to this executor so far, oldest first, each with what it answered.
    /// An executor verified with this crate defines it and is held to the contract of
    /// `execute_resolved_alias`. One that keeps no record (those that run processes, outside the
    /// crate) leaves it empty: the contract does not hold of it, and what is proved of the engine
    /// about what it hands over speaks only of recording executors.
    open spec fn executed(&self) -> Seq<(ResolvedAliasView, Result<i32, ErrorSamEngine>)> {
        Seq::empty()
    }

    /// Runs the commands of `alias` with `env_variables`; the exit code.
    fn execute_resolved_alias(
        &mut self,
        alias: &ResolvedAlias,
        env_variables: &HashMap<String, String>,
    ) -> (r: Result<i32, ErrorSamEngine>)
        ensures
            final(self).executed() == old(self).executed().push((alias@, r)),
    ;
}

/// Between `before` and `after` the executor was handed nothing and the run failed, or it was
/// handed once an alias that is `alias` resolved against `m` and `d`, and its answer is `r`.
pub open spec fn ran_resolved(
    before: Seq<(ResolvedAliasView, Result<i32, ErrorSamEngine>)>,
    after: Seq<(ResolvedAliasView, Result<i32, ErrorSamEngine>)>,
    alias: AliasView,
    m: Map<IdView, crate::vars::VarView>,
    d: Map<IdView, Seq<ChoiceView>>,
    r: Result<i32, ErrorSamEngine>,
) -> bool {
    ||| after == before && r is Err
    ||| after.len() == before.len() + 1 && after.drop_last() == before && resolved_from(alias, after.last().0, m, d)
        && after.last().1 == r
}

/// Why the engine failed.
#[derive(Debug)]
pub enum ErrorSamEngine {
    ExitCode,
    InvalidAliasSelection,
    Resolver(ErrorsResolver),
    DependencyResolution(ErrorDependencyResolution),
    AliasRepositoryT(ErrorsAliasCollection),
    SubCommand(String),
    HistoryNotAvailable(String),
    ExecutorFailure(String),
}

/// Why an alias could not be selected.
#[derive(Debug)]
pub enum ErrorsAliasCollection {
    AliasSelectionFailure(ErrorsResolver),
    AliasInvalidSelection(Identifier),
    AliasDependencyResolution(ErrorDependencyResolution),
}

/// `alias` resolved against the vars `m` with defaults `d`: its identifier, description and
/// template are those of `alias`, it holds choices for exactly the vars reachable from its
/// dependencies (the defaults where there are some), and its commands are the template with
/// every combination of those choices substituted.
pub open spec fn resolved_from(
    alias: AliasView,
    ra: ResolvedAliasView,
    m: Map<IdView, crate::vars::VarView>,
    d: Map<IdView, Seq<ChoiceView>>,
) -> bool {
    let roots = crate::identifiers::spec_parse(alias.alias, alias.name.namespace);
    &&& ra.name == alias.name
    &&& ra.desc == alias.desc
    &&& ra.original_alias == alias.alias
    &&& forall|x: IdView| #[trigger] key_index(ra.choices, x) >= 0 <==> reachable(m, roots, x)
    &&& forall|x: IdView| reachable(m, roots, x) ==> m.contains_key(x)
    &&& forall|x: IdView|
        reachable(m, roots, x) && #[trigger] d.contains_key(x) ==> lookup(ra.choices, x) == Some(d[x])
    &&& substitute_all(alias.alias, roots, ra.choices) == Ok::<Seq<Seq<char>>, IdView>(
        ra.resolved_aliases,
    )
}

/// The last recorded alias is `alias` resolved against `m` and `d`.
pub open spec fn last_resolved_from(
    last: Option<ResolvedAliasView>,
    alias: AliasView,
    m: Map<IdView, crate::vars::VarView>,
    d: Map<IdView, Seq<ChoiceView>>,
) -> bool {
    match last {
        Some(ra) => resolved_from(alias, ra, m, d),
        None => false,
    }
}

/// The last recorded alias is one of `aliases`, resolved against `m` and `d`.
pub open spec fn last_resolved_from_some(
    last: Option<ResolvedAliasView>,
    aliases: Map<IdView, AliasView>,
    m: Map<IdView, crate::vars::VarView>,
    d: Map<IdView, Seq<ChoiceView>>,
) -> bool {
    match last {
        Some(ra) => aliases.contains_key(ra.name) && resolved_from(aliases[ra.name], ra, m, d),
        None => false,
    }
}

pub proof fn lemma_substitute_all_ok(
    cmd: Seq<char>,
    deps: Seq<IdView>,
    choices: Seq<(IdView, Seq<ChoiceView>)>,
)
    requires
        forall|i: int| 0 <= i < deps.len() ==> key_index(choices, #[trigger] deps[i]) >= 0,
    ensures
        substitute_all(cmd, deps, choices) is Ok,
    decreases deps.len(),
{
    if deps.len() > 0 {
        assert forall|i: int| 0 <= i < deps.drop_last().len() implies key_index(choices, #[trigger] deps.drop_last()[i]) >= 0 by {
            assert(deps.drop_last()[i] == deps[i]);
        }
        lemma_substitute_all_ok(cmd, deps.drop_last(), choices);
        assert(key_index(choices, deps[deps.len() - 1]) >= 0);
    }
}

/// The report of the last executed alias: its identifier and its commands.
pub open spec fn spec_report(name: IdView, commands: Seq<Seq<char>>) -> Seq<char>
    decreases commands.len(),
{
    if commands.len() == 0 {
        seq!['A', 'l', 'i', 'a', 's', ':', ' '] + spec_display(name) + seq!['\n'] + seq![
            'C',
            'o',
            'm',
            'm',
            'a',
            'n',
            'd',
            's',
            ':',
            '\n',
            '=',
            '=',
            '=',
            '=',
            '=',
            '=',
            '=',
            '=',
            '=',
            '\n',
            '\n',
        ]
    } else {
        spec_report(name, commands.drop_last()) + seq!['\t', '-', ' '] + commands.last() + seq![
            '\n',
            '\n',
        ]
    }
}

/// The report printed for a resolved alias: `Alias: name`, then its commands, one per line.
pub fn report(alias: &ResolvedAlias) -> (r: String)
    ensures
        r@ == spec_report(alias@.name, alias@.resolved_aliases),
{
    let mut v: Vec<char> = Vec::new();
    let head = "Alias: ";
    proof {
        reveal_strlit("Alias: ");
    }
    let hc = chars_of(head);
    extend_chars(&mut v, hc.as_slice());
    let d = alias.name().to_display();
    let dc = chars_of(d.as_str());
    extend_chars(&mut v, dc.as_slice());
    v.push('\n');
    let mid = "Commands:\n=========\n\n";
    proof {
        reveal_strlit("Commands:\n=========\n\n");
    }
    let mc = chars_of(mid);
    extend_chars(&mut v, mc.as_slice());
    let cmds = alias.commands();
    let ghost cv = alias@.resolved_aliases;
    assert(v@ =~= spec_report(alias@.name, cv.subrange(0, 0)));
    let mut i: usize = 0;
    while i < cmds.len()
        invariant
            i <= cmds.len(),
            strings_view(cmds@) == cv,
            v@ == spec_report(alias@.name, cv.subrange(0, i as int)),
        decreases cmds.len() - i,
    {
        v.push('\t');
        v.push('-');
        v.push(' ');
        let cc = chars_of(cmds[i].as_str());
        extend_chars(&mut v, cc.as_slice());
        v.push('\n');
        v.push('\n');
        assert(cv.subrange(0, i + 1).drop_last() =~= cv.subrange(0, i as int));
        assert(cv.subrange(0, i + 1).last() == cmds@[i as int]@);
        i = i + 1;
    }
    assert(cv.subrange(0, i as int) =~= cv);
    string_of(v.as_slice())
}

/// The vars that `a` needs are all known vars of `m`.
pub open spec fn needs_known_vars(a: AliasView, m: Map<IdView, crate::vars::VarView>) -> bool {
    forall|x: IdView| reachable(m, crate::identifiers::spec_parse(a.alias, a.name.namespace), x) ==> m.contains_key(x)
}

/// `r` is the failure that names the dependencies of `a`, direct or not, that are not vars
/// of `m`.
pub open spec fn missing_vars_error(
    r: Result<i32, ErrorSamEngine>,
    a: AliasView,
    m: Map<IdView, crate::vars::VarView>,
) -> bool {
    r matches Err(ErrorSamEngine::DependencyResolution(ErrorDependencyResolution::MissingDependencies(ids)))
        && forall|x: IdView|
        ids_view(ids.0@).contains(x) <==> reachable(m, crate::identifiers::spec_parse(a.alias, a.name.namespace), x)
            && !m.contains_key(x)
}

/// How running the alias `id` went from `before` to `after` with answer `r`: an unknown
/// alias is refused before anything runs; a known one is resolved and handed to the executor
/// once, or the run fails without reaching it; without reaching the executor, and with a history
/// that can be written, the refusal of an unknown alias and the missing-vars failure come only
/// from those causes.
pub open spec fn executed_alias<R, AR: AliasCollection, VR: VarsCollection, DV: VarsDefaultValues, H: SamHistory, E: SamExecutor>(
    before: SamEngine<R, AR, VR, DV, H, E>,
    after: SamEngine<R, AR, VR, DV, H, E>,
    id: IdView,
    r: Result<i32, ErrorSamEngine>,
) -> bool {
    let known = before.aliases.aliases_map().contains_key(id);
    let untouched = after.executor.executed() == before.executor.executed();
    &&& !known ==> untouched
    &&& known ==> ran_resolved(
        before.executor.executed(),
        after.executor.executed(),
        before.aliases.aliases_map()[id],
        before.vars.vars_map(),
        before.defaults.defaults_map(),
        r,
    )
    &&& !untouched && before.history.retains() ==> latest(after.history.entries_view()) == Some(
        after.executor.executed().last().0,
    )
    &&& untouched && before.history.available() ==> {
        &&& (r matches Err(ErrorSamEngine::AliasRepositoryT(ErrorsAliasCollection::AliasInvalidSelection(_))))
            ==> !known
        &&& (r matches Err(
            ErrorSamEngine::DependencyResolution(ErrorDependencyResolution::MissingDependencies(_)),
        )) ==> known && !needs_known_vars(before.aliases.aliases_map()[id], before.vars.vars_map())
    }
}

/// As `ran_resolved`, for an alias of `aliases` that the executor's alias names.
pub open spec fn ran_some_resolved(
    before: Seq<(ResolvedAliasView, Result<i32, ErrorSamEngine>)>,
    after: Seq<(ResolvedAliasView, Result<i32, ErrorSamEngine>)>,
    aliases: Map<IdView, AliasView>,
    m: Map<IdView, crate::vars::VarView>,
    d: Map<IdView, Seq<ChoiceView>>,
    r: Result<i32, ErrorSamEngine>,
) -> bool {
    ||| after == before && r is Err
    ||| after.len() == before.len() + 1 && aliases.contains_key(after.last().0.name) && ran_resolved(
        before,
        after,
        aliases[after.last().0.name],
        m,
        d,
        r,
    )
}

/// `q` holds the alias `a` of `aliases` with its full name and the vars it needs, each once,
/// in resolution order.
pub open spec fn qualifies(
    q: AliasAndDependencies,
    aliases: Map<IdView, AliasView>,
    m: Map<IdView, crate::vars::VarView>,
) -> bool {
    let a = q.alias@;
    let roots = crate::identifiers::spec_parse(a.alias, a.name.namespace);
    let d = ids_view(q.dependencies@);
    &&& aliases.contains_key(a.name)
    &&& aliases[a.name] == a
    &&& q.full_name@ == crate::aliases::spec_full_name(a.name)
    &&& d.no_duplicates()
    &&& forall|x: IdView| d.contains(x) <==> reachable(m, roots, x)
}

/// Every alias of `aliases` is in `q`.
pub open spec fn covers_aliases(q: Seq<AliasAndDependencies>, aliases: Map<IdView, AliasView>) -> bool {
    forall|k: IdView| #[trigger] aliases.contains_key(k) ==> exists|i: int| 0 <= i < q.len() && #[trigger] q[i].alias@.name == k
}

/// The aliases of `aliases`, each with its full name and the vars it needs in the order they
/// are resolved; it fails, with the missing vars, when an alias needs a var that is not known.
pub fn qualified_aliases<AC: AliasCollection, VC: VarsCollection>(
    aliases: &AC,
    vars: &VC,
) -> (r: Result<Vec<AliasAndDependencies>, ErrorDependencyResolution>)
    ensures
        r is Ok <==> forall|k: IdView| #[trigger] aliases.aliases_map().contains_key(k) ==> needs_known_vars(
            aliases.aliases_map()[k],
            vars.vars_map(),
        ),
        r is Err ==> r matches Err(ErrorDependencyResolution::MissingDependencies(_)),
        r matches Ok(v) ==> forall|i: int| 0 <= i < v@.len() ==> #[trigger] qualifies(v@[i], aliases.aliases_map(), vars.vars_map()),
        r matches Ok(v) ==> covers_aliases(v@, aliases.aliases_map()),
{
    let all = aliases.aliases();
    proof {
        aliases.lemma_aliases_map();
    }
    let ghost am = aliases.aliases_map();
    let ghost vm = vars.vars_map();
    let mut out: Vec<AliasAndDependencies> = Vec::new();
    let mut i: usize = 0;
    while i < all.len()
        invariant
            i <= all.len(),
            am == aliases.aliases_map(),
            vm == vars.vars_map(),
            forall|j: int| 0 <= j < all@.len() ==> am.contains_key(#[trigger] all@[j]@.name) && am[all@[j]@.name] == all@[j]@,
            forall|k: IdView| am.contains_key(k) ==> exists|j: int| 0 <= j < all@.len() && #[trigger] all@[j]@.name == k,
            out@.len() == i,
            forall|j: int| 0 <= j < i ==> #[trigger] qualifies(out@[j], am, vm) && out@[j].alias@ == all@[j]@,
            forall|j: int| 0 <= j < i ==> needs_known_vars(#[trigger] all@[j]@, vm),
        decreases all.len() - i,
    {
        let a = all[i];
        let seq = match execution_sequence_for_dependencies(vars, a) {
            Ok(s) => s,
            Err(e) => {
                proof {
                    let rts = crate::identifiers::spec_parse(a@.alias, a@.name.namespace);
                    if e is MissingDependencies {
                        let iv = ids_view(e->MissingDependencies_0.0@);
                        assert(iv.contains(iv[0]));
                        assert(reachable(vm, rts, iv[0]) && !vm.contains_key(iv[0]));
                        assert(am.contains_key(a@.name));
                        assert(!needs_known_vars(am[a@.name], vm));
                    }
                }
                return Err(e);
            },
        };
        let q = AliasAndDependencies { alias: a.clone(), full_name: a.full_name(), dependencies: seq.identifiers() };
        assert(qualifies(q, am, vm));
        out.push(q);
        i = i + 1;
    }
    proof {
        assert forall|k: IdView| #[trigger] am.contains_key(k) implies needs_known_vars(am[k], vm) by {
            let j = choose|j: int| 0 <= j < all@.len() && #[trigger] all@[j]@.name == k;
            assert(needs_known_vars(all@[j]@, vm));
        }
        assert forall|k: IdView| #[trigger] am.contains_key(k) implies exists|j: int| 0 <= j < out@.len() && #[trigger] out@[j].alias@.name == k by {
            let j = choose|j: int| 0 <= j < all@.len() && #[trigger] all@[j]@.name == k;
            assert(qualifies(out@[j], am, vm));
            assert(out@[j].alias@.name == k);
        }
        assert(covers_aliases(out@, am));
    }
    Ok(out)
}

/// Asks `r` to pick one of the aliases of `aliases`; the alias picked.
pub fn select_alias<'a, AC: AliasCollection, R: Resolver, VC: VarsCollection>(
    aliases: &'a AC,
    r: &R,
    vars: &VC,
    prompt: &str,
) -> (res: Result<&'a Alias, ErrorsAliasCollection>)
    ensures
        res matches Ok(a) ==> aliases.aliases_map().contains_key(a@.name) && aliases.aliases_map()[a@.name] == a@,
        res matches Err(ErrorsAliasCollection::AliasDependencyResolution(_)) <==> !(forall|k: IdView|
            #[trigger] aliases.aliases_map().contains_key(k) ==> needs_known_vars(aliases.aliases_map()[k], vars.vars_map())),
{
    let qualified = match qualified_aliases(aliases, vars) {
        Ok(q) => q,
        Err(e) => {
            return Err(ErrorsAliasCollection::AliasDependencyResolution(e));
        },
    };
    let selection = match r.select_identifier(qualified.as_slice(), prompt) {
        Ok(s) => s,
        Err(e) => {
            return Err(ErrorsAliasCollection::AliasSelectionFailure(e));
        },
    };
    let id = selection.alias.identifier();
    proof {
        aliases.lemma_aliases_map();
    }
    match aliases.get(&id) {
        Some(a) => Ok(a),
        None => Err(ErrorsAliasCollection::AliasInvalidSelection(id)),
    }
}

/// The engine that resolves and runs aliases.
pub struct SamEngine<R, AR, VR, DV, H, E> {
    pub resolver: R,
    pub aliases: AR,
    pub vars: VR,
    pub defaults: DV,
    pub history: H,
    pub env_variables: HashMap<String, String>,
    pub executor: E,
    /// What the engine has to show, line by line.
    pub output: Vec<String>,
}

impl<
    R: Resolver,
    AR: AliasCollection,
    VR: VarsCollection,
    DV: VarsDefaultValues + VarsDefaultValuesSetter,
    H: SamHistory,
    E: SamExecutor,
> SamEngine<R, AR, VR, DV, H, E> {
    /// Runs `command`; its exit code.
    pub fn run(&mut self, command: SamCommand) -> (r: Result<i32, ErrorSamEngine>)
        ensures
            final(self).defaults == old(self).defaults,
            final(self).aliases == old(self).aliases,
            final(self).vars == old(self).vars,
            command matches SamCommand::ExecuteAlias { alias } ==> (!old(self).aliases.aliases_map().contains_key(alias@) ==> (r matches Err(ErrorSamEngine::AliasRepositoryT(ErrorsAliasCollection::AliasInvalidSelection(id))) && id@ == alias@)),
            command matches SamCommand::ExecuteAlias { alias } ==> (r is Ok ==> old(self).aliases.aliases_map().contains_key(alias@) && (old(self).history.retains() ==> last_resolved_from(
                latest(final(self).history.entries_view()),
                old(self).aliases.aliases_map()[alias@],
                old(self).vars.vars_map(),
                old(self).defaults.defaults_map(),
            ))),
            command is ChooseAndExecuteAlias ==> (r is Ok && old(self).history.retains() ==> last_resolved_from_some(
                latest(final(self).history.entries_view()),
                old(self).aliases.aliases_map(),
                old(self).vars.vars_map(),
                old(self).defaults.defaults_map(),
            )),
            command is ChooseAndExecuteAlias ==> (!(forall|k: IdView| #[trigger] old(self).aliases.aliases_map().contains_key(k)
                ==> needs_known_vars(old(self).aliases.aliases_map()[k], old(self).vars.vars_map())) ==> r matches Err(
                ErrorSamEngine::AliasRepositoryT(ErrorsAliasCollection::AliasDependencyResolution(_)),
            )),
            command matches SamCommand::ExecuteAlias { alias } ==> (old(self).aliases.aliases_map().contains_key(alias@)
                && !needs_known_vars(old(self).aliases.aliases_map()[alias@], old(self).vars.vars_map())
                ==> missing_vars_error(r, old(self).aliases.aliases_map()[alias@], old(self).vars.vars_map())),
            command matches SamCommand::ExecuteAlias { alias } ==> executed_alias(*old(self), *final(self), alias@, r),
            command is ChooseAndExecuteAlias ==> ran_some_resolved(
                old(self).executor.executed(),
                final(self).executor.executed(),
                old(self).aliases.aliases_map(),
                old(self).vars.vars_map(),
                old(self).defaults.defaults_map(),
                r,
            ),
            command is ExecuteLastExecutedAlias ==> (old(self).history.available() ==> match latest(
                old(self).history.entries_view(),
            ) {
                Some(ra) => final(self).executor.executed() == old(self).executor.executed().push((ra, r)),
                None => final(self).executor.executed() == old(self).executor.executed(),
            }),
            command is DisplayLastExecutedAlias || command is DisplayHistory || command is ModifyThenExecuteLastAlias
                ==> final(self).executor.executed() == old(self).executor.executed(),
            command is ModifyThenExecuteLastAlias ==> r == Ok::<i32, ErrorSamEngine>(1),
            command is DisplayLastExecutedAlias || command is DisplayHistory ==> r is Ok ==> r == Ok::<i32, ErrorSamEngine>(0),
            command is DisplayLastExecutedAlias || command is DisplayHistory ==> (old(self).history.available() ==> r
                == Ok::<i32, ErrorSamEngine>(0)),
            command is DisplayLastExecutedAlias ==> (r is Ok ==> match latest(old(self).history.entries_view()) {
                Some(ra) => final(self).output@ == old(self).output@.push(final(self).output@.last())
                    && final(self).output@.last()@ == spec_report(ra.name, ra.resolved_aliases),
                None => final(self).output@ == old(self).output@,
            }),
            command is DisplayHistory ==> (r is Ok ==> {
                &&& final(self).output@.len() == old(self).output@.len() + last_window(
                    old(self).history.entries_view(),
                    10,
                ).len()
                &&& final(self).output@.subrange(0, old(self).output@.len() as int) == old(self).output@
                &&& forall|i: int|
                    old(self).output@.len() <= i < final(self).output@.len() ==> shows_one_of(
                        #[trigger] final(self).output@[i]@,
                        last_window(old(self).history.entries_view(), 10),
                    )
            }),
    {
        match command {
            SamCommand::ChooseAndExecuteAlias => self.choose_and_execute_alias(),
            SamCommand::ExecuteAlias { alias } => self.execute_alias(&alias),
            SamCommand::DisplayLastExecutedAlias => self.display_last_executed_alias(),
            SamCommand::ExecuteLastExecutedAlias => self.execute_last_executed_alias(),
            SamCommand::ModifyThenExecuteLastAlias => Ok(1),
            SamCommand::DisplayHistory => self.display_history(),
        }
    }

    fn choose_and_execute_alias(&mut self) -> (r: Result<i32, ErrorSamEngine>)
        ensures
            final(self).defaults == old(self).defaults,
            final(self).aliases == old(self).aliases,
            final(self).vars == old(self).vars,
            r is Ok && old(self).history.retains() ==> last_resolved_from_some(
                latest(final(self).history.entries_view()),
                old(self).aliases.aliases_map(),
                old(self).vars.vars_map(),
                old(self).defaults.defaults_map(),
            ),
            !(forall|k: IdView| #[trigger] old(self).aliases.aliases_map().contains_key(k) ==> needs_known_vars(
                old(self).aliases.aliases_map()[k],
                old(self).vars.vars_map(),
            )) ==> r matches Err(ErrorSamEngine::AliasRepositoryT(ErrorsAliasCollection::AliasDependencyResolution(_))),
            ran_some_resolved(
                old(self).executor.executed(),
                final(self).executor.executed(),
                old(self).aliases.aliases_map(),
                old(self).vars.vars_map(),
                old(self).defaults.defaults_map(),
                r,
            ),
    {
        let chosen = match select_alias(&self.aliases, &self.resolver, &self.vars, PROMPT) {
            Ok(a) => a.clone(),
            Err(e) => {
                return Err(ErrorSamEngine::AliasRepositoryT(e));
            },
        };
        proof {
            self.aliases.lemma_aliases_map();
        }
        self.run_alias(&chosen)
    }

    fn execute_alias(&mut self, alias_id: &Identifier) -> (r: Result<i32, ErrorSamEngine>)
        ensures
            executed_alias(*old(self), *final(self), alias_id@, r),
            final(self).defaults == old(self).defaults,
            final(self).aliases == old(self).aliases,
            final(self).vars == old(self).vars,
            !old(self).aliases.aliases_map().contains_key(alias_id@) ==> (r matches Err(ErrorSamEngine::AliasRepositoryT(ErrorsAliasCollection::AliasInvalidSelection(id))) && id@ == alias_id@),
            r is Ok ==> old(self).aliases.aliases_map().contains_key(alias_id@),
            old(self).aliases.aliases_map().contains_key(alias_id@) && !needs_known_vars(
                old(self).aliases.aliases_map()[alias_id@],
                old(self).vars.vars_map(),
            ) ==> missing_vars_error(r, old(self).aliases.aliases_map()[alias_id@], old(self).vars.vars_map()),
            r is Ok && old(self).history.retains() ==> last_resolved_from(
                latest(final(self).history.entries_view()),
                old(self).aliases.aliases_map()[alias_id@],
                old(self).vars.vars_map(),
                old(self).defaults.defaults_map(),
            ),
    {
        let alias = match self.aliases.get(alias_id) {
            Some(a) => a.clone(),
            None => {
                return Err(ErrorSamEngine::AliasRepositoryT(ErrorsAliasCollection::AliasInvalidSelection(alias_id.clone())));
            },
        };
        self.run_alias(&alias)
    }

    /// Resolves `alias`, records it and runs it.
    pub fn run_alias(&mut self, alias: &Alias) -> (r: Result<i32, ErrorSamEngine>)
        ensures
            final(self).defaults == old(self).defaults,
            final(self).aliases == old(self).aliases,
            final(self).vars == old(self).vars,
            r is Ok && old(self).history.retains() ==> last_resolved_from(
                latest(final(self).history.entries_view()),
                alias@,
                old(self).vars.vars_map(),
                old(self).defaults.defaults_map(),
            ),
            !needs_known_vars(alias@, old(self).vars.vars_map()) ==> (r matches Err(
                ErrorSamEngine::DependencyResolution(ErrorDependencyResolution::MissingDependencies(ids)),
            ) && forall|x: IdView|
                ids_view(ids.0@).contains(x) <==> reachable(
                    old(self).vars.vars_map(),
                    crate::identifiers::spec_parse(alias@.alias, alias@.name.namespace),
                    x,
                ) && !old(self).vars.vars_map().contains_key(x)),
            ran_resolved(
                old(self).executor.executed(),
                final(self).executor.executed(),
                alias@,
                old(self).vars.vars_map(),
                old(self).defaults.defaults_map(),
                r,
            ),
            final(self).executor.executed() != old(self).executor.executed() && old(self).history.retains()
                ==> latest(final(self).history.entries_view()) == Some(final(self).executor.executed().last().0),
            final(self).executor.executed() == old(self).executor.executed() && old(self).history.available() && (r matches Err(
                ErrorSamEngine::DependencyResolution(ErrorDependencyResolution::MissingDependencies(_)),
            )) ==> !needs_known_vars(alias@, old(self).vars.vars_map()),
            final(self).executor.executed() == old(self).executor.executed() && old(self).history.available()
                ==> !(r matches Err(ErrorSamEngine::AliasRepositoryT(_))),
    {
        let exec_seq = match execution_sequence_for_dependencies(&self.vars, alias) {
            Ok(s) => s,
            Err(e) => {
                proof {
                    let rts = crate::identifiers::spec_parse(alias.command_view(), alias.namespace_view());
                    assert(rts == crate::identifiers::spec_parse(alias@.alias, alias@.name.namespace));
                    if e is MissingDependencies {
                        let iv = ids_view(e->MissingDependencies_0.0@);
                        assert(iv.contains(iv[0]));
                        assert(reachable(self.vars.vars_map(), rts, iv[0]));
                    }
                }
                return Err(ErrorSamEngine::DependencyResolution(e));
            },
        };
        let ghost seq_v = exec_seq@;
        let choices = match choices_for_execution_sequence(alias, &self.vars, &self.defaults, &self.resolver, exec_seq) {
            Ok(c) => c,
            Err(e) => {
                proof {
                    if e is MissingDependencies {
                        let id0 = ids_view(e->MissingDependencies_0.0@)[0];
                        let k = choose|k: int|
                            {
                                &&& 0 <= k < seq_v.len()
                                &&& #[trigger] seq_v[k] == id0
                                &&& forall|j: int| 0 <= j < k ==> self.vars.vars_map().contains_key(#[trigger] seq_v[j])
                            };
                        assert(seq_v.contains(id0));
                    }
                }
                return Err(ErrorSamEngine::DependencyResolution(e));
            },
        };
        proof {
            let roots = crate::identifiers::spec_parse(alias.command_view(), alias.namespace_view());
            assert forall|i: int| 0 <= i < roots.len() implies key_index(choice_map_view(choices@), #[trigger] roots[i]) >= 0 by {
                crate::resolution::lemma_root_reachable(self.vars.vars_map(), roots, i);
            }
            lemma_substitute_all_ok(alias.command_view(), roots, choice_map_view(choices@));
        }
        let final_alias = match alias.with_choices(&choices) {
            Ok(a) => a,
            Err(e) => {
                return Err(ErrorSamEngine::Resolver(ErrorsResolver::Dependencies(e)));
            },
        };
        let for_history = final_alias.clone();
        self.history.put(for_history)?;
        let ghost before = self.executor.executed();
        let r = self.executor.execute_resolved_alias(&final_alias, &self.env_variables);
        assert(self.executor.executed().drop_last() =~= before);
        r
    }

    /// Shows the most recent alias recorded, if there is one.
    pub fn display_last_executed_alias(&mut self) -> (r: Result<i32, ErrorSamEngine>)
        ensures
            final(self).executor == old(self).executor,
            final(self).defaults == old(self).defaults,
            final(self).aliases == old(self).aliases,
            final(self).vars == old(self).vars,
            old(self).history.available() ==> r is Ok,
            r is Ok ==> r == Ok::<i32, ErrorSamEngine>(0),
            r is Ok ==> match latest(old(self).history.entries_view()) {
                Some(ra) => final(self).output@ == old(self).output@.push(
                    final(self).output@.last(),
                ) && final(self).output@.last()@ == spec_report(ra.name, ra.resolved_aliases),
                None => final(self).output@ == old(self).output@,
            },
    {
        let last = self.history.get_last()?;
        match last {
            Some(alias) => {
                let text = report(&alias);
                self.output.push(text);
            },
            None => {},
        }
        Ok(0)
    }

    /// Shows the last ten aliases recorded, each between two rules.
    pub fn display_history(&mut self) -> (r: Result<i32, ErrorSamEngine>)
        ensures
            final(self).executor == old(self).executor,
            final(self).defaults == old(self).defaults,
            final(self).aliases == old(self).aliases,
            final(self).vars == old(self).vars,
            old(self).history.available() ==> r is Ok,
            r is Ok ==> r == Ok::<i32, ErrorSamEngine>(0),
            r is Ok ==> final(self).output@.len() == old(self).output@.len() + last_window(
                old(self).history.entries_view(),
                10,
            ).len(),
            r is Ok ==> final(self).output@.subrange(0, old(self).output@.len() as int)
                == old(self).output@,
            r is Ok ==> forall|i: int|
                old(self).output@.len() <= i < final(self).output@.len() ==> shows_one_of(
                    #[trigger] final(self).output@[i]@,
                    last_window(old(self).history.entries_view(), 10),
                ),
    {
        let entries = self.history.get_last_n(10)?;
        let ghost start = self.output@;
        let ghost w = last_window(self.history.entries_view(), 10);
        assert(w == last_window(old(self).history.entries_view(), 10));
        assert(start == old(self).output@);
        let mut i: usize = 0;
        while i < entries.len()
            invariant
                i <= entries.len(),
                self.defaults == old(self).defaults,
                self.aliases == old(self).aliases,
                self.vars == old(self).vars,
                self.executor == old(self).executor,
                self.output@.len() == start.len() + i,
                self.output@.subrange(0, start.len() as int) == start,
                forall|j: int| 0 <= j < entries@.len() ==> w.contains(#[trigger] entries@[j]@),
                forall|k: int|
                    start.len() <= k < self.output@.len() ==> shows_one_of(#[trigger] self.output@[k]@, w),
            decreases entries.len() - i,
        {
            let text = history_entry(&entries[i]);
            let ghost ra = entries@[i as int]@;
            assert(w.contains(ra));
            self.output.push(text);
            assert(self.output@[self.output@.len() - 1]@ == spec_history_entry(ra));
            i = i + 1;
        }
        Ok(0)
    }

    /// Runs again the most recent alias recorded; with none, says so.
    pub fn execute_last_executed_alias(&mut self) -> (r: Result<i32, ErrorSamEngine>)
        ensures
            final(self).defaults == old(self).defaults,
            final(self).aliases == old(self).aliases,
            final(self).vars == old(self).vars,
            old(self).history.entries_view().len() == 0 && !(r is Err) ==> r == Ok::<i32, ErrorSamEngine>(0)
                && final(self).output@.len() == old(self).output@.len() + 1,
            old(self).history.available() && old(self).history.entries_view().len() == 0 ==> r == Ok::<
                i32,
                ErrorSamEngine,
            >(0) && final(self).output@.len() == old(self).output@.len() + 1 && final(self).output@.subrange(
                0,
                old(self).output@.len() as int,
            ) == old(self).output@ && final(self).output@.last()@ == "history empty"@,
            old(self).history.available() && old(self).history.entries_view().len() > 0 ==> final(self).output@
                == old(self).output@,
            old(self).history.available() ==> match latest(old(self).history.entries_view()) {
                Some(ra) => final(self).executor.executed() == old(self).executor.executed().push((ra, r)),
                None => final(self).executor.executed() == old(self).executor.executed(),
            },
    {
        let last = self.history.get_last()?;
        match last {
            Some(alias) => self.executor.execute_resolved_alias(&alias, &self.env_variables),
            None => {
                let ghost before = self.output@;
                self.output.push("history empty".to_owned());
                assert(self.output@.subrange(0, before.len() as int) =~= before);
                Ok(0)
            },
        }
    }
}

/// `text` is how one of the aliases of `window` is shown in the history.
pub open spec fn shows_one_of(text: Seq<char>, window: Seq<ResolvedAliasView>) -> bool {
    exists|ra: ResolvedAliasView| window.contains(ra) && text == spec_history_entry(ra)
}

/// A rule of thirteen `=`.
pub open spec fn rule() -> Seq<char> {
    seq!['=', '=', '=', '=', '=', '=', '=', '=', '=', '=', '=', '=', '=']
}

/// How an alias of the history is shown: a rule, the alias, and a rule again.
pub open spec fn spec_history_entry(ra: ResolvedAliasView) -> Seq<char> {
    seq!['\n'] + rule() + seq!['\n', '\n'] + crate::aliases::spec_resolved_display(ra) + seq!['\n'] + rule()
        + seq!['\n']
}

/// The text shown for `alias` in the history.
pub fn history_entry(alias: &ResolvedAlias) -> (r: String)
    ensures
        r@ == spec_history_entry(alias@),
{
    let mut v: Vec<char> = Vec::new();
    let sep = "\n=============\n\n";
    proof {
        reveal_strlit("\n=============\n\n");
    }
    push_str(&mut v, sep);
    let body = alias.to_display();
    push_str(&mut v, body.as_str());
    let tail = "\n=============\n";
    proof {
        reveal_strlit("\n=============\n");
    }
    push_str(&mut v, tail);
    assert(v@ =~= spec_history_entry(alias@));
    string_of(v.as_slice())
}

} // verus!

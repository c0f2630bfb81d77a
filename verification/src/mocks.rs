//! Simple implementations of the engine's collaborators: a logger that says nothing, an
//! executor that only records what it is asked to run, and a history kept in memory.
use vstd::prelude::*;
use std::collections::HashMap;
use crate::aliases::{Alias, AliasAndDependencies, ResolvedAlias, ResolvedAliasView};
use crate::choices::{Choice, ChoiceView, choices_view, clone_choices};
use crate::identifiers::Identifier;
use crate::vars::{Var, VarView};
use crate::resolver::{Resolver, ResolverContext, ErrorsResolver};
use crate::dependencies::{choice_map_view, lookup, find_entry, lemma_key_index, lemma_key_index_keys};
use crate::text::str_eq;
use crate::engine::{SamLogger, SamExecutor, SamHistory, ErrorSamEngine, latest, last_window};

verus! {

/// A logger that reports nothing.
pub struct SilentLogger;

impl SamLogger for SilentLogger {
    fn final_command(&self, _alias: &Alias, _fc: &str) {
    }

    fn command(&self, _var: &str, _cmd: &str) {
    }

    fn choice(&self, _var: &str, _choice: &str) {
    }

    fn alias(&self, _alias: &Alias) {
    }
}

/// An executor that runs nothing and records each alias it is handed, with the environment.
pub struct LogExecutor {
    pub commands: Vec<(ResolvedAlias, HashMap<String, String>)>,
}

impl Default for LogExecutor {
    fn default() -> (r: Self)
        ensures
            r.commands@.len() == 0,
    {
        LogExecutor { commands: Vec::new() }
    }
}

impl SamExecutor for LogExecutor {
    /// The aliases logged, each answered with 0.
    open spec fn executed(&self) -> Seq<(ResolvedAliasView, Result<i32, ErrorSamEngine>)> {
        self.commands@.map_values(
            |c: (ResolvedAlias, HashMap<String, String>)| (c.0@, Ok::<i32, ErrorSamEngine>(0)),
        )
    }

    fn execute_resolved_alias(
        &mut self,
        alias: &ResolvedAlias,
        env_variables: &HashMap<String, String>,
    ) -> (r: Result<i32, ErrorSamEngine>)
        ensures
            r == Ok::<i32, ErrorSamEngine>(0),
            final(self).commands@.len() == old(self).commands@.len() + 1,
            final(self).commands@.drop_last() == old(self).commands@,
            final(self).commands@.last().0@ == alias@,
            final(self).commands@.last().1@ == env_variables@,
    {
        let env = env_variables.clone();
        let ghost before = self.commands@;
        self.commands.push((alias.clone(), env));
        assert(self.commands@.map_values(
            |c: (ResolvedAlias, HashMap<String, String>)| (c.0@, Ok::<i32, ErrorSamEngine>(0)),
        ) =~= before.map_values(
            |c: (ResolvedAlias, HashMap<String, String>)| (c.0@, Ok::<i32, ErrorSamEngine>(0)),
        ).push((alias@, Ok::<i32, ErrorSamEngine>(0))));
        Ok(0)
    }
}

/// A history kept in memory, oldest entry first.
pub struct InMemoryHistory {
    pub aliases: Vec<ResolvedAlias>,
}

/// The views of resolved aliases.
pub open spec fn resolved_views(v: Seq<ResolvedAlias>) -> Seq<ResolvedAliasView> {
    v.map_values(|a: ResolvedAlias| a@)
}

impl Default for InMemoryHistory {
    fn default() -> (r: Self)
        ensures
            r.aliases@.len() == 0,
    {
        InMemoryHistory { aliases: Vec::new() }
    }
}

impl SamHistory for InMemoryHistory {
    open spec fn entries_view(&self) -> Seq<ResolvedAliasView> {
        resolved_views(self.aliases@)
    }

    open spec fn retains(&self) -> bool {
        true
    }

    open spec fn available(&self) -> bool {
        true
    }

    fn put(&mut self, alias: ResolvedAlias) -> (r: Result<(), ErrorSamEngine>)
        ensures
            r is Ok,
            final(self).entries_view() == old(self).entries_view().push(alias@),
    {
        let ghost before = self.aliases@;
        let ghost av = alias@;
        let ghost target = old(self).entries_view().push(alias@).subrange(
            0,
            old(self).entries_view().len() + 1int,
        );
        assert(target =~= resolved_views(before).push(av));
        self.aliases.push(alias);
        proof {
            assert(resolved_views(self.aliases@) =~= resolved_views(before).push(av));
            assert(self.entries_view() == target);
        }
        Ok(())
    }

    /// The last `n` aliases, most recent first.
    fn get_last_n(&self, n: usize) -> (r: Result<Vec<ResolvedAlias>, ErrorSamEngine>)
        ensures
            r is Ok,
            r matches Ok(v) ==> v@.len() == last_window(self.entries_view(), n as nat).len()
                && forall|i: int|
                0 <= i < v@.len() ==> #[trigger] v@[i]@ == self.entries_view()[self.entries_view().len()
                    - 1 - i],
    {
        let len = self.aliases.len();
        let mut out: Vec<ResolvedAlias> = Vec::new();
        let mut i: usize = 0;
        while i < n && i < len
            invariant
                len == self.aliases@.len(),
                i <= len,
                i <= n,
                out@.len() == i,
                forall|j: int| 0 <= j < i ==> #[trigger] out@[j]@ == self.aliases@[len - 1 - j]@,
            decreases len - i,
        {
            out.push(self.aliases[len - 1 - i].clone());
            i = i + 1;
        }
        proof {
            let e = self.entries_view();
            let w = last_window(e, n as nat);
            assert(e.len() == len);
            if len <= n {
                assert(w == e);
                assert(out@.len() == len);
            } else {
                assert(out@.len() == n);
                assert(w.len() == n);
            }
            assert forall|j: int| 0 <= j < out@.len() implies w.contains(#[trigger] out@[j]@) by {
                let k = w.len() - 1 - j;
                assert(0 <= k < w.len());
                assert(w[k] == e[len - 1 - j]);
            }
        }
        Ok(out)
    }
}

/// Position of the first entry of `t` whose command is `cmd`, or -1.
pub open spec fn command_index(t: Seq<(String, Vec<Choice>)>, cmd: Seq<char>) -> int
    decreases t.len(),
{
    if t.len() == 0 {
        -1
    } else {
        let j = command_index(t.drop_last(), cmd);
        if j >= 0 {
            j
        } else if t.last().0@ == cmd {
            t.len() - 1
        } else {
            -1
        }
    }
}

/// A resolver that answers from tables, as a script would: for a command, the choices of the
/// first entry for that command; for a static var, the choices of the first entry for its
/// identifier. It has no value for input vars and picks no alias.
pub struct ScriptedResolver {
    pub dynamic: Vec<(String, Vec<Choice>)>,
    pub statics: Vec<(Identifier, Vec<Choice>)>,
}

impl ScriptedResolver {
    /// The first entry of the command table for `cmd`.
    fn find_command(&self, cmd: &str) -> (r: Option<usize>)
        ensures
            match r {
                Some(i) => i < self.dynamic@.len() && command_index(self.dynamic@, cmd@) == i as int,
                None => command_index(self.dynamic@, cmd@) == -1,
            },
    {
        let mut i: usize = 0;
        while i < self.dynamic.len()
            invariant
                i <= self.dynamic@.len(),
                command_index(self.dynamic@.subrange(0, i as int), cmd@) == -1,
            decreases self.dynamic@.len() - i,
        {
            let ghost t = self.dynamic@;
            assert(t.subrange(0, i + 1).drop_last() =~= t.subrange(0, i as int));
            if str_eq(self.dynamic[i].0.as_str(), cmd) {
                proof {
                    lemma_command_index_prefix(t, cmd@, i as int);
                }
                return Some(i);
            }
            i = i + 1;
        }
        assert(self.dynamic@.subrange(0, i as int) =~= self.dynamic@);
        None
    }
}

/// The first entry for `cmd` found in a prefix is the first in the whole table.
proof fn lemma_command_index_prefix(t: Seq<(String, Vec<Choice>)>, cmd: Seq<char>, i: int)
    requires
        0 <= i < t.len(),
        command_index(t.subrange(0, i), cmd) == -1,
        t[i].0@ == cmd,
    ensures
        command_index(t, cmd) == i,
    decreases t.len(),
{
    if i == t.len() - 1 {
        assert(t.drop_last() =~= t.subrange(0, i));
    } else {
        assert(t.drop_last().subrange(0, i) =~= t.subrange(0, i));
        lemma_command_index_prefix(t.drop_last(), cmd, i);
    }
}

impl Resolver for ScriptedResolver {
    /// No value is known for input vars.
    open spec fn input_answer(&self, var: VarView) -> Option<ChoiceView> {
        None
    }

    /// The choices of the first entry for the command.
    open spec fn dynamic_answer(&self, var: VarView, cmd: Seq<char>) -> Option<Seq<ChoiceView>> {
        let i = command_index(self.dynamic@, cmd);
        if i >= 0 {
            Some(choices_view(self.dynamic@[i].1@))
        } else {
            None
        }
    }

    /// The choices of the first entry for the var's identifier.
    open spec fn static_answer(&self, var: VarView) -> Option<Seq<ChoiceView>> {
        lookup(choice_map_view(self.statics@), var.name)
    }

    fn resolve_input(&self, var: &Var, prompt: &str, _ctx: &ResolverContext) -> (r: Result<Choice, ErrorsResolver>) {
        Err(ErrorsResolver::NoInputWasProvided(var.name(), prompt.to_owned()))
    }

    fn resolve_dynamic(&self, var: &Var, cmd: String, _ctx: &ResolverContext) -> (r: Result<
        Vec<Choice>,
        ErrorsResolver,
    >) {
        match self.find_command(cmd.as_str()) {
            Some(i) => Ok(clone_choices(&self.dynamic[i].1)),
            None => Err(ErrorsResolver::NoChoiceWasAvailable(var.name())),
        }
    }

    fn resolve_static(&self, var: &Var, _choices: Vec<Choice>, _ctx: &ResolverContext) -> (r: Result<
        Vec<Choice>,
        ErrorsResolver,
    >) {
        let id = var.name();
        let found = find_entry(&self.statics, &id);
        proof {
            lemma_key_index_keys(
                choice_map_view(self.statics@),
                self.statics@.map_values(|e: (Identifier, Vec<Choice>)| (e.0@, ())),
                id@,
            );
            lemma_key_index(choice_map_view(self.statics@), id@);
        }
        match found {
            Some(i) => {
                assert(choice_map_view(self.statics@)[i as int].1 == choices_view(self.statics@[i as int].1@));
                Ok(clone_choices(&self.statics[i].1))
            },
            None => Err(ErrorsResolver::NoChoiceWasSelected(id)),
        }
    }

    fn select_identifier(&self, _identifiers: &[AliasAndDependencies], _prompt: &str) -> (r: Result<
        AliasAndDependencies,
        ErrorsResolver,
    >) {
        Err(ErrorsResolver::IdentifierSelectionEmpty)
    }
}

} // verus!

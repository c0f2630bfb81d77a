//! The resolver: where the choices of vars come from.
use vstd::prelude::*;
use crate::identifiers::Identifier;
use crate::choices::{Choice, ChoiceView, choices_view};
use crate::vars::{Var, VarView};
use crate::aliases::{Alias, AliasAndDependencies};
use crate::dependencies::{ErrorsDependencies, substitute_all, choice_map_view};
use crate::vars::var_command;
use crate::resolution::var_deps;

verus! {

/// What a resolver is told about the alias being resolved.
#[derive(Debug)]
pub struct ResolverContext {
    pub alias: Alias,
    pub full_name: String,
    pub choices: Vec<(Identifier, Vec<Choice>)>,
    pub execution_sequence: Vec<Identifier>,
}

/// Gets the choices of vars: by asking the user, by running commands, or otherwise.
///
/// Its outcomes depend on the user and on what commands print, so no contract is stated
/// for them: the callers hold for whatever comes back. What it is asked is fixed: the prompt
/// of an input var, a command of the var's template completed with the choices the context
/// carries, or the var's own static choices.
pub trait Resolver {
    /// The value this resolver is known to give for the input var `var`, where that is known.
    /// A resolver that asks a person knows none.
    closed spec fn input_answer(&self, var: VarView) -> Option<ChoiceView> {
        None
    }

    /// The choices this resolver is known to give for the command `cmd` of `var`, where they
    /// are known. A resolver that runs the command knows none.
    closed spec fn dynamic_answer(&self, var: VarView, cmd: Seq<char>) -> Option<Seq<ChoiceView>> {
        None
    }

    /// The choices this resolver is known to pick for the static var `var`, where they are
    /// known. A resolver that asks a person knows none.
    closed spec fn static_answer(&self, var: VarView) -> Option<Seq<ChoiceView>> {
        None
    }

    /// A value typed in for an input var, after `prompt`.
    fn resolve_input(&self, var: &Var, prompt: &str, ctx: &ResolverContext) -> (r: Result<
        Choice,
        ErrorsResolver,
    >)
        requires
            var@.from_input matches Some(p) ==> prompt@ == p,
        ensures
            self.input_answer(var@) matches Some(c) ==> r matches Ok(v) && v@ == c,
    ;

    /// The choices read from what the command `cmd` prints.
    fn resolve_dynamic(&self, var: &Var, cmd: String, ctx: &ResolverContext) -> (r: Result<
        Vec<Choice>,
        ErrorsResolver,
    >)
        requires
            substitute_all(var_command(var@), var_deps(var@), choice_map_view(ctx.choices@)) matches Ok(cmds)
                && cmds.contains(cmd@),
        ensures
            self.dynamic_answer(var@, cmd@) matches Some(cs) ==> r matches Ok(v) && choices_view(v@) == cs,
    ;

    /// The choices picked among the static `choices` of a var.
    fn resolve_static(&self, var: &Var, choices: Vec<Choice>, ctx: &ResolverContext) -> (r: Result<
        Vec<Choice>,
        ErrorsResolver,
    >)
        requires
            choices_view(choices@) == var@.choices,
        ensures
            self.static_answer(var@) matches Some(cs) ==> r matches Ok(v) && choices_view(v@) == cs,
    ;

    /// The alias picked among `identifiers`.
    fn select_identifier(&self, identifiers: &[AliasAndDependencies], prompt: &str) -> Result<
        AliasAndDependencies,
        ErrorsResolver,
    >;
}

/// Why a var could not be resolved.
#[derive(Debug)]
pub enum ErrorsResolver {
    /// Substituting the choices of its dependencies failed.
    Dependencies(ErrorsDependencies),
    /// No choice is available for the var.
    NoChoiceWasAvailable(Identifier),
    /// Gathering the choices failed, with this message.
    DynamicResolveFailure(Identifier, String),
    /// The command printed nothing on stdout (command, stderr).
    DynamicResolveEmpty(Identifier, String, String),
    /// No choice was selected.
    NoChoiceWasSelected(Identifier),
    /// No input was given, for this reason.
    NoInputWasProvided(Identifier, String),
    /// Nothing was selected.
    IdentifierSelectionEmpty,
    /// The selection failed, with this message.
    IdentifierSelectionInvalid(String),
}

} // verus!

//! The preview of an alias: its name, description and template with the default choices
//! filled in, the vars it needs and the current choices.
use vstd::prelude::*;
use crate::text::{push_str, string_of};
use crate::style::{bold, reset, bold_seq, reset_seq};
use crate::identifiers::{Identifier, IdView, spec_display, ids_view, spec_parse};
use crate::choices::{Choice, ChoiceView};
use crate::aliases::{Alias, AliasView};
use crate::aliases_repository::{AliasCollection, AliasesRepository, ErrorsAliasesRepository};
use crate::vars_repository::VarsRepository;
use crate::dependencies::{Dependencies, substitute_partial};
use crate::resolution::{VarsCollection, ErrorDependencyResolution, reachable, execution_sequence_for_dependencies, search_run, search_start};
use crate::previews::pairs_view;

verus! {

/// What to preview.
#[derive(Debug)]
pub enum PreviewCommand {
    PreviewAlias { alias_id: Identifier },
}

/// Why a preview failed.
#[derive(Debug)]
pub enum ErrorsPreviewEngine {
    /// The alias is not known.
    ErrorAliasesRepository(ErrorsAliasesRepository),
    /// The vars of the alias could not be ordered.
    ErrorDependencyResolution(ErrorDependencyResolution),
}

/// One line `- id` per identifier.
pub open spec fn spec_id_lines(ids: Seq<IdView>) -> Seq<char>
    decreases ids.len(),
{
    if ids.len() == 0 {
        Seq::empty()
    } else {
        spec_id_lines(ids.drop_last()) + seq!['-', ' '] + spec_display(ids.last()) + seq!['\n']
    }
}

/// One line `- id<TAB>= value` per current choice.
pub open spec fn spec_current_lines(choices: Seq<(IdView, ChoiceView)>) -> Seq<char>
    decreases choices.len(),
{
    if choices.len() == 0 {
        Seq::empty()
    } else {
        spec_current_lines(choices.drop_last()) + seq!['-', ' '] + spec_display(choices.last().0) + seq![
            '\t',
            '=',
            ' ',
        ] + choices.last().1.value + seq!['\n']
    }
}

/// A heading in bold.
pub open spec fn heading(text: Seq<char>) -> Seq<char> {
    bold_seq() + text + reset_seq()
}

/// The preview of the alias `id`, shown as `a` (its template with the current choices filled
/// in), whose vars are `deps`, with the current choices `choices`.
pub open spec fn spec_preview(id: IdView, a: AliasView, deps: Seq<IdView>, choices: Seq<(IdView, ChoiceView)>) -> Seq<char> {
    heading(seq!['N', 'a', 'm', 'e', ':']) + seq!['\t'] + spec_display(id) + seq!['\n', '\n'] + heading(
        seq!['D', 'e', 's', 'c', 'r', 'i', 'p', 't', 'i', 'o', 'n', ':'],
    ) + seq!['\n'] + a.desc + seq!['\n', '\n'] + heading(seq!['A', 'l', 'i', 'a', 's', ':']) + seq!['\n', '\n']
        + a.alias + seq!['\n'] + (if deps.len() > 0 {
        seq!['\n'] + heading(seq!['D', 'e', 'p', 'e', 'n', 'd', 'e', 'n', 'c', 'i', 'e', 's', ':']) + seq!['\n']
            + spec_id_lines(deps)
    } else {
        Seq::empty()
    }) + if choices.len() > 0 {
        seq!['\n'] + heading(
            seq!['C', 'u', 'r', 'r', 'e', 'n', 't', ' ', 'C', 'h', 'o', 'i', 'c', 'e', 's', ':'],
        ) + seq!['\n'] + spec_current_lines(choices)
    } else {
        Seq::empty()
    }
}

/// Previews aliases.
#[derive(Debug)]
pub struct PreviewEngine {
    pub aliases: AliasesRepository,
    pub vars: VarsRepository,
    pub defaults: Vec<(Identifier, Choice)>,
    /// What the engine wrote.
    pub output: String,
}

impl PreviewEngine {
    /// Runs `command`.
    pub fn run(&mut self, command: PreviewCommand) -> (r: Result<i32, ErrorsPreviewEngine>)
        ensures
            match command {
                PreviewCommand::PreviewAlias { alias_id } => preview_outcome(
                    *old(self),
                    *final(self),
                    alias_id@,
                    r,
                ),
            },
    {
        match command {
            PreviewCommand::PreviewAlias { alias_id } => self.preview_alias(&alias_id),
        }
    }

    /// Writes the preview of the alias `alias_id` (see `spec_preview`); the alias must be
    /// known, and its vars too.
    pub fn preview_alias(&mut self, alias_id: &Identifier) -> (r: Result<i32, ErrorsPreviewEngine>)
        ensures
            preview_outcome(*old(self), *final(self), alias_id@, r),
    {
        let found = match self.aliases.get(alias_id) {
            Some(a) => a,
            None => {
                return Err(ErrorsPreviewEngine::ErrorAliasesRepository(
                    ErrorsAliasesRepository::MissingAlias(alias_id.clone()),
                ));
            },
        };
        let alias = found.with_partial_choices(&self.defaults);
        let exec_seq = match execution_sequence_for_dependencies(&self.vars, &alias) {
            Ok(s) => s,
            Err(e) => {
                proof {
                    let rts = spec_parse(alias.command_view(), alias.namespace_view());
                    assert(rts == spec_parse(alias@.alias, alias@.name.namespace));
                    if e is MissingDependencies {
                        let iv = ids_view(e->MissingDependencies_0.0@);
                        assert(iv.contains(iv[0]));
                        assert(reachable(self.vars.vars_map(), rts, iv[0]));
                    }
                }
                return Err(ErrorsPreviewEngine::ErrorDependencyResolution(e));
            },
        };
        let ghost roots = spec_parse(alias@.alias, alias@.name.namespace);
        let ghost n0: nat = choose|n: nat|
            {
                let fin = #[trigger] search_run(self.vars.vars_map(), search_start(roots), n);
                &&& fin.cand.len() == 0
                &&& fin.missing.len() == 0 && exec_seq@ == fin.out
            };
        assert(search_run(self.vars.vars_map(), search_start(roots), n0).out == exec_seq@);
        let deps = exec_seq.identifiers();
        let text = preview_text(alias_id, &alias, &deps, &self.defaults);
        crate::text::push_string(&mut self.output, text.as_str());
        Ok(0)
    }
}

/// The preview text (see `spec_preview`).
pub fn preview_text(
    alias_id: &Identifier,
    alias: &Alias,
    deps: &Vec<Identifier>,
    defaults: &Vec<(Identifier, Choice)>,
) -> (r: String)
    ensures
        r@ == spec_preview(alias_id@, alias@, ids_view(deps@), pairs_view(defaults@)),
{
    let b = bold();
    let rs = reset();
    let mut v: Vec<char> = Vec::new();
    let h1 = "Name:";
    let h2 = "Description:";
    let h3 = "Alias:";
    proof {
        reveal_strlit("Name:");
        reveal_strlit("Description:");
        reveal_strlit("Alias:");
    }
    push_str(&mut v, b.as_str());
    push_str(&mut v, h1);
    push_str(&mut v, rs.as_str());
    v.push('\t');
    let d = alias_id.to_display();
    push_str(&mut v, d.as_str());
    v.push('\n');
    v.push('\n');
    push_str(&mut v, b.as_str());
    push_str(&mut v, h2);
    push_str(&mut v, rs.as_str());
    v.push('\n');
    push_str(&mut v, alias.desc());
    v.push('\n');
    v.push('\n');
    push_str(&mut v, b.as_str());
    push_str(&mut v, h3);
    push_str(&mut v, rs.as_str());
    v.push('\n');
    v.push('\n');
    push_str(&mut v, alias.alias());
    v.push('\n');
    let ghost head = v@;
    let dep_part = deps_section(deps);
    let choice_part = choices_section(defaults);
    push_str(&mut v, dep_part.as_str());
    push_str(&mut v, choice_part.as_str());
    assert(v@ =~= spec_preview(alias_id@, alias@, ids_view(deps@), pairs_view(defaults@)));
    string_of(v.as_slice())
}

/// The section listing the vars `deps`, when there are some.
fn deps_section(deps: &Vec<Identifier>) -> (r: String)
    ensures
        r@ == if deps@.len() > 0 {
            seq!['\n'] + heading(seq!['D', 'e', 'p', 'e', 'n', 'd', 'e', 'n', 'c', 'i', 'e', 's', ':']) + seq!['\n']
                + spec_id_lines(ids_view(deps@))
        } else {
            Seq::empty()
        },
{
    let mut v: Vec<char> = Vec::new();
    if deps.len() > 0 {
        let b = bold();
        let rs = reset();
        let h4 = "Dependencies:";
        proof {
            reveal_strlit("Dependencies:");
        }
        v.push('\n');
        push_str(&mut v, b.as_str());
        push_str(&mut v, h4);
        push_str(&mut v, rs.as_str());
        v.push('\n');
        let ghost start = v@;
        let ghost iv = ids_view(deps@);
        assert(iv.subrange(0, 0) =~= Seq::<IdView>::empty());
        assert(start + Seq::<char>::empty() =~= start);
        let mut i: usize = 0;
        while i < deps.len()
            invariant
                i <= deps@.len(),
                iv == ids_view(deps@),
                v@ == start + spec_id_lines(iv.subrange(0, i as int)),
            decreases deps@.len() - i,
        {
            v.push('-');
            v.push(' ');
            let dd = deps[i].to_display();
            push_str(&mut v, dd.as_str());
            v.push('\n');
            assert(iv.subrange(0, i + 1).drop_last() =~= iv.subrange(0, i as int));
            i = i + 1;
        }
        assert(iv.subrange(0, i as int) =~= iv);
    } else {
        assert(v@ =~= Seq::<char>::empty());
    }
    string_of(v.as_slice())
}

/// The section listing the current choices, when there are some.
fn choices_section(defaults: &Vec<(Identifier, Choice)>) -> (r: String)
    ensures
        r@ == if defaults@.len() > 0 {
            seq!['\n'] + heading(
                seq!['C', 'u', 'r', 'r', 'e', 'n', 't', ' ', 'C', 'h', 'o', 'i', 'c', 'e', 's', ':'],
            ) + seq!['\n'] + spec_current_lines(pairs_view(defaults@))
        } else {
            Seq::empty()
        },
{
    let mut v: Vec<char> = Vec::new();
    if defaults.len() > 0 {
        let b = bold();
        let rs = reset();
        let h5 = "Current Choices:";
        proof {
            reveal_strlit("Current Choices:");
        }
        v.push('\n');
        push_str(&mut v, b.as_str());
        push_str(&mut v, h5);
        push_str(&mut v, rs.as_str());
        v.push('\n');
        let ghost start = v@;
        let ghost cv = pairs_view(defaults@);
        assert(cv.subrange(0, 0) =~= Seq::<(IdView, ChoiceView)>::empty());
        assert(start + Seq::<char>::empty() =~= start);
        let mut j: usize = 0;
        while j < defaults.len()
            invariant
                j <= defaults@.len(),
                cv == pairs_view(defaults@),
                v@ == start + spec_current_lines(cv.subrange(0, j as int)),
            decreases defaults@.len() - j,
        {
            v.push('-');
            v.push(' ');
            let dd = defaults[j].0.to_display();
            push_str(&mut v, dd.as_str());
            v.push('\t');
            v.push('=');
            v.push(' ');
            push_str(&mut v, defaults[j].1.value());
            v.push('\n');
            assert(cv.subrange(0, j + 1).drop_last() =~= cv.subrange(0, j as int));
            j = j + 1;
        }
        assert(cv.subrange(0, j as int) =~= cv);
    } else {
        assert(v@ =~= Seq::<char>::empty());
    }
    string_of(v.as_slice())
}

/// What previewing `id` gives: the alias must be known (else the engine is unchanged and
/// fails), its vars too; then the preview is appended to the output, for an order of the vars
/// in which each one needed occurs once.
pub open spec fn preview_outcome(
    before: PreviewEngine,
    after: PreviewEngine,
    id: IdView,
    r: Result<i32, ErrorsPreviewEngine>,
) -> bool {
    let m = before.aliases.aliases_map();
    &&& after.aliases == before.aliases
    &&& after.vars == before.vars
    &&& after.defaults == before.defaults
    &&& (!m.contains_key(id) <==> r matches Err(ErrorsPreviewEngine::ErrorAliasesRepository(_)))
    &&& (r is Err ==> after.output@ == before.output@)
    &&& (m.contains_key(id) ==> ({
        let a0 = m[id];
        let a = AliasView {
            alias: substitute_partial(a0.alias, spec_parse(a0.alias, a0.name.namespace), pairs_view(before.defaults@)),
            ..a0
        };
        let roots = spec_parse(a.alias, a.name.namespace);
        let vm = before.vars.vars_map();
        &&& ((exists|x: IdView| reachable(vm, roots, x) && !vm.contains_key(x)) <==> r matches Err(
            ErrorsPreviewEngine::ErrorDependencyResolution(_),
        ))
        &&& (r is Ok ==> r == Ok::<i32, ErrorsPreviewEngine>(0) && exists|deps: Seq<IdView>|
            #![trigger spec_preview(id, a, deps, pairs_view(before.defaults@))]
            deps.no_duplicates() && (forall|x: IdView| deps.contains(x) <==> reachable(vm, roots, x))
                && after.output@ == before.output@ + spec_preview(id, a, deps, pairs_view(before.defaults@))
                && exists|n: nat|
                #![trigger search_run(vm, search_start(roots), n)]
                search_run(vm, search_start(roots), n).cand.len() == 0 && search_run(vm, search_start(roots), n).out
                    == deps)
    }))
}

} // verus!

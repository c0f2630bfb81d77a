//! The texts shown beside a selection: the preview command of an alias, and the descriptions
//! of aliases and choices.
use vstd::prelude::*;
use crate::text::{push_str, string_of};
use crate::identifiers::{Identifier, IdView, spec_display};
use crate::choices::{Choice, ChoiceView, choices_view};
use crate::aliases::{Alias, AliasAndDependencies, AliasView};
use crate::resolver::ResolverContext;
use crate::dependencies::choice_map_view;
use crate::dependencies::Dependencies;

verus! {

/// The option lines `-c 'id=value'` for `choices`.
pub open spec fn spec_choice_options(choices: Seq<(IdView, ChoiceView)>) -> Seq<char>
    decreases choices.len(),
{
    if choices.len() == 0 {
        Seq::empty()
    } else {
        spec_choice_options(choices.drop_last()) + seq![' ', '-', 'c', ' ', '\''] + spec_display(
            choices.last().0,
        ) + seq!['='] + choices.last().1.value + seq!['\'', ' ']
    }
}

/// The command that previews `id`: `cd <directory> && <program> preview '<id>' ` followed by
/// one ` -c 'var=value' ` per current choice.
pub open spec fn spec_preview_command(
    directory: Seq<char>,
    program: Seq<char>,
    id: IdView,
    choices: Seq<(IdView, ChoiceView)>,
) -> Seq<char> {
    seq!['c', 'd', ' '] + directory + seq![' ', '&', '&', ' '] + program + seq![
        ' ',
        'p',
        'r',
        'e',
        'v',
        'i',
        'e',
        'w',
        ' ',
        '\'',
    ] + spec_display(id) + seq!['\'', ' '] + spec_choice_options(choices)
}

/// The views of (identifier, choice) pairs.
pub open spec fn pairs_view(l: Seq<(Identifier, Choice)>) -> Seq<(IdView, ChoiceView)> {
    l.map_values(|p: (Identifier, Choice)| (p.0@, p.1@))
}

/// Builds the command that previews an alias with the current choices.
#[derive(Debug)]
pub struct PreviewSkim {
    pub choices: Vec<(Identifier, Choice)>,
    pub preview_prefix: String,
    pub directory: String,
}

impl PreviewSkim {
    /// A builder for `choices`, run from `directory` with the program `preview_prefix`.
    pub fn new(choices: Vec<(Identifier, Choice)>, preview_prefix: String, directory: String) -> (r: Self)
        ensures
            r.choices@ == choices@,
            r.preview_prefix@ == preview_prefix@,
            r.directory@ == directory@,
    {
        PreviewSkim { choices, preview_prefix, directory }
    }

    /// The command that previews `identifier` (see `spec_preview_command`).
    pub fn preview_for_identifier(&self, identifier: &Identifier) -> (r: String)
        ensures
            r@ == spec_preview_command(self.directory@, self.preview_prefix@, identifier@, pairs_view(self.choices@)),
    {
        let mut v: Vec<char> = Vec::new();
        let cd = "cd ";
        let and = " && ";
        let pv = " preview '";
        let close = "' ";
        proof {
            reveal_strlit("cd ");
            reveal_strlit(" && ");
            reveal_strlit(" preview '");
            reveal_strlit("' ");
        }
        push_str(&mut v, cd);
        push_str(&mut v, self.directory.as_str());
        push_str(&mut v, and);
        push_str(&mut v, self.preview_prefix.as_str());
        push_str(&mut v, pv);
        let d = identifier.to_display();
        push_str(&mut v, d.as_str());
        push_str(&mut v, close);
        let ghost head = v@;
        let ghost cv = pairs_view(self.choices@);
        assert(cv.subrange(0, 0) =~= Seq::<(IdView, ChoiceView)>::empty());
        let mut i: usize = 0;
        while i < self.choices.len()
            invariant
                i <= self.choices@.len(),
                cv == pairs_view(self.choices@),
                v@ == head + spec_choice_options(cv.subrange(0, i as int)),
            decreases self.choices@.len() - i,
        {
            let opt = " -c '";
            proof {
                reveal_strlit(" -c '");
            }
            push_str(&mut v, opt);
            let idd = self.choices[i].0.to_display();
            push_str(&mut v, idd.as_str());
            v.push('=');
            push_str(&mut v, self.choices[i].1.value());
            v.push('\'');
            v.push(' ');
            assert(cv.subrange(0, i + 1).drop_last() =~= cv.subrange(0, i as int));
            i = i + 1;
        }
        assert(cv.subrange(0, i as int) =~= cv);
        assert(v@ =~= spec_preview_command(self.directory@, self.preview_prefix@, identifier@, cv));
        string_of(v.as_slice())
    }

    /// The command that previews the alias selected, written `{}`.
    pub fn preview(&self) -> (r: String)
        ensures
            r@ == seq!['c', 'd', ' '] + self.directory@ + seq![' ', '&', '&', ' '] + self.preview_prefix@ + seq![
                ' ',
                'p',
                'r',
                'e',
                'v',
                'i',
                'e',
                'w',
                ' ',
                '\'',
                '{',
                '}',
                '\'',
                ' ',
            ],
    {
        let mut v: Vec<char> = Vec::new();
        let cd = "cd ";
        let and = " && ";
        let pv = " preview '{}' ";
        proof {
            reveal_strlit("cd ");
            reveal_strlit(" && ");
            reveal_strlit(" preview '{}' ");
        }
        push_str(&mut v, cd);
        push_str(&mut v, self.directory.as_str());
        push_str(&mut v, and);
        push_str(&mut v, self.preview_prefix.as_str());
        push_str(&mut v, pv);
        string_of(v.as_slice())
    }
}

/// One line `- id` per identifier.
pub open spec fn spec_dep_lines(ids: Seq<IdView>) -> Seq<char>
    decreases ids.len(),
{
    if ids.len() == 0 {
        Seq::empty()
    } else {
        spec_dep_lines(ids.drop_last()) + seq!['-', ' '] + spec_display(ids.last()) + seq!['\n']
    }
}

/// The description of an alias shown while choosing: its name, description and template,
/// then its vars when it has some.
pub open spec fn spec_alias_preview(a: AliasView, deps: Seq<IdView>) -> Seq<char> {
    seq!['N', 'a', 'm', 'e', ':', ' '] + a.name.name + seq!['\n', '\n'] + seq![
        'D',
        'e',
        's',
        'c',
        'r',
        'i',
        'p',
        't',
        'i',
        'o',
        'n',
        ':',
        '\n',
    ] + a.desc + seq!['\n', '\n'] + seq!['A', 'l', 'i', 'a', 's', ':', '\n', '\n'] + a.alias + seq!['\n']
        + if deps.len() > 0 {
        seq![
            '\n',
            'D',
            'e',
            'p',
            'e',
            'n',
            'd',
            'e',
            'n',
            'c',
            'i',
            'e',
            's',
            ':',
            '\n',
        ] + spec_dep_lines(deps)
    } else {
        Seq::empty()
    }
}

/// Appends one line `- id` per identifier of `ids` to `v`.
fn push_dep_lines(v: &mut Vec<char>, ids: &Vec<Identifier>)
    ensures
        final(v)@ == old(v)@ + spec_dep_lines(crate::identifiers::ids_view(ids@)),
{
    let ghost iv = crate::identifiers::ids_view(ids@);
    let ghost start = v@;
    assert(iv.subrange(0, 0) =~= Seq::<IdView>::empty());
    assert(start + Seq::<char>::empty() =~= start);
    let mut i: usize = 0;
    while i < ids.len()
        invariant
            i <= ids@.len(),
            iv == crate::identifiers::ids_view(ids@),
            v@ == start + spec_dep_lines(iv.subrange(0, i as int)),
        decreases ids@.len() - i,
    {
        v.push('-');
        v.push(' ');
        let d = ids[i].to_display();
        push_str(v, d.as_str());
        v.push('\n');
        assert(iv.subrange(0, i + 1).drop_last() =~= iv.subrange(0, i as int));
        i = i + 1;
    }
    assert(iv.subrange(0, i as int) =~= iv);
}

/// The description of `a` shown while choosing an alias (see `spec_alias_preview`).
pub fn alias_preview(a: &AliasAndDependencies) -> (r: String)
    ensures
        r@ == spec_alias_preview(a.alias@, crate::identifiers::ids_view(a.dependencies@)),
{
    let v = alias_preview_chars(&a.alias, &a.dependencies);
    string_of(v.as_slice())
}

/// The characters of the description of `alias` with the vars `deps`.
fn alias_preview_chars(alias: &Alias, deps: &Vec<Identifier>) -> (r: Vec<char>)
    ensures
        r@ == spec_alias_preview(alias@, crate::identifiers::ids_view(deps@)),
{
    let mut v: Vec<char> = Vec::new();
    let p1 = "Name: ";
    let p2 = "\n\nDescription:\n";
    let p3 = "\n\nAlias:\n\n";
    let p4 = "\nDependencies:\n";
    proof {
        reveal_strlit("Name: ");
        reveal_strlit("\n\nDescription:\n");
        reveal_strlit("\n\nAlias:\n\n");
        reveal_strlit("\nDependencies:\n");
    }
    push_str(&mut v, p1);
    push_str(&mut v, alias.name());
    push_str(&mut v, p2);
    push_str(&mut v, alias.desc());
    push_str(&mut v, p3);
    push_str(&mut v, alias.alias());
    v.push('\n');
    if deps.len() > 0 {
        push_str(&mut v, p4);
        push_dep_lines(&mut v, deps);
    }
    assert(v@ =~= spec_alias_preview(alias@, crate::identifiers::ids_view(deps@)));
    v
}

/// The text that the derived `Debug` of a list of choices writes for `cs`.
pub uninterp spec fn choices_debug(cs: Seq<ChoiceView>) -> Seq<char>;

/// std's `format!("{:?}", ..)` on a list of choices, through the derived `Debug` of `Choice`:
/// its text depends on the values and descriptions of the choices alone, so it is named by
/// `choices_debug`.
#[verifier::external_body]
fn debug_choices(cs: &Vec<Choice>) -> (r: String)
    ensures
        r@ == choices_debug(choices_view(cs@)),
{
    format!("{:?}", cs)
}

/// The lines `- id = choices` of the choices made so far (each written as `choices_debug`),
/// with nothing between them.
pub open spec fn spec_current_choice_lines(l: Seq<(IdView, Seq<ChoiceView>)>) -> Seq<char>
    decreases l.len(),
{
    if l.len() == 0 {
        Seq::empty()
    } else {
        spec_current_choice_lines(l.drop_last()) + seq!['-', ' '] + spec_display(l.last().0) + seq![' ', '=', ' ']
            + choices_debug(l.last().1)
    }
}

/// What is shown beside a choice offered for a var: the alias being resolved and its vars (as
/// `spec_alias_preview`), then the choices made so far, if any.
pub open spec fn spec_choice_preview(
    a: AliasView,
    seq: Seq<IdView>,
    choices: Seq<(IdView, Seq<ChoiceView>)>,
) -> Seq<char> {
    spec_alias_preview(a, seq) + if choices.len() > 0 {
        seq![
            '\n',
            'C',
            'u',
            'r',
            'r',
            'e',
            'n',
            't',
            ' ',
            'C',
            'h',
            'o',
            'i',
            'c',
            'e',
            's',
            ':',
            '\n',
        ] + spec_current_choice_lines(choices)
    } else {
        Seq::empty()
    }
}

/// What is shown beside a choice offered while resolving the alias of `ctx`.
pub fn choice_preview(ctx: &ResolverContext) -> (r: String)
    ensures
        r@ == spec_choice_preview(
            ctx.alias@,
            crate::identifiers::ids_view(ctx.execution_sequence@),
            choice_map_view(ctx.choices@),
        ),
{
    let mut v = alias_preview_chars(&ctx.alias, &ctx.execution_sequence);
    let ghost head = v@;
    if ctx.choices.len() > 0 {
        let p = "\nCurrent Choices:\n";
        proof {
            reveal_strlit("\nCurrent Choices:\n");
        }
        push_str(&mut v, p);
        let ghost mid = v@;
        let ghost l = choice_map_view(ctx.choices@);
        let mut i: usize = 0;
        assert(mid + spec_current_choice_lines(l.subrange(0, 0)) =~= mid);
        while i < ctx.choices.len()
            invariant
                i <= ctx.choices.len(),
                l == choice_map_view(ctx.choices@),
                v@ == mid + spec_current_choice_lines(l.subrange(0, i as int)),
            decreases ctx.choices.len() - i,
        {
            let ghost before = v@;
            push_str(&mut v, "- ");
            let d = ctx.choices[i].0.to_display();
            push_str(&mut v, d.as_str());
            push_str(&mut v, " = ");
            let t = debug_choices(&ctx.choices[i].1);
            push_str(&mut v, t.as_str());
            proof {
                reveal_strlit("- ");
                reveal_strlit(" = ");
                assert(l.subrange(0, i + 1).drop_last() =~= l.subrange(0, i as int));
                assert(l.subrange(0, i + 1).last() == l[i as int]);
                assert(v@ =~= mid + spec_current_choice_lines(l.subrange(0, i + 1)));
            }
            i = i + 1;
        }
        assert(l.subrange(0, i as int) =~= l);
    } else {
        assert(v@ =~= head + Seq::<char>::empty());
    }
    string_of(v.as_slice())
}

/// The text a choice is listed by: its value, four spaces and its description (empty when
/// it has none).
pub open spec fn spec_choice_text(c: ChoiceView) -> Seq<char> {
    c.value + seq![' ', ' ', ' ', ' '] + match c.desc {
        Some(d) => d,
        None => Seq::empty(),
    }
}

/// The text `choice` is listed by (see `spec_choice_text`).
pub fn choice_text(choice: &Choice) -> (r: String)
    ensures
        r@ == spec_choice_text(choice@),
{
    let mut v: Vec<char> = Vec::new();
    push_str(&mut v, choice.value());
    let sp = "    ";
    proof {
        reveal_strlit("    ");
    }
    push_str(&mut v, sp);
    match choice.desc() {
        Some(d) => push_str(&mut v, d),
        None => {},
    }
    assert(v@ =~= spec_choice_text(choice@));
    string_of(v.as_slice())
}

} // verus!

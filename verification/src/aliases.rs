//! Aliases: named command templates, and their resolved forms.
use vstd::prelude::*;
use crate::text::{chars_of, string_of, extend_chars, push_str};
use crate::style::{light_cyan_fg, bold, italic, reset, light_cyan_seq, bold_seq, italic_seq, reset_seq};
use crate::template::{qualify_from, qualify_placeholders};
use crate::identifiers::{Identifier, IdView, spec_display, ids_view};
use crate::choices::{Choice, ChoiceView};
use crate::dependencies::{
    Dependencies, ErrorsDependencies, choice_map_view, substitute_all, substitute_partial,
    partial_choice_view, strings_view, find_entry, key_index, lemma_key_index_keys,
};

verus! {

/// What an alias stands for.
pub struct AliasView {
    pub name: IdView,
    pub desc: Seq<char>,
    pub alias: Seq<char>,
}

/// A named command template.
#[derive(Debug)]
pub struct Alias {
    name: Identifier,
    desc: String,
    alias: String,
}

impl View for Alias {
    type V = AliasView;

    closed spec fn view(&self) -> AliasView {
        AliasView { name: self.name@, desc: self.desc@, alias: self.alias@ }
    }
}

impl Clone for Alias {
    fn clone(&self) -> (r: Self)
        ensures
            r == *self,
    {
        Alias { name: self.name.clone(), desc: self.desc.clone(), alias: self.alias.clone() }
    }
}

/// The template of an alias with its namespace-less placeholders qualified by `ns`.
pub open spec fn spec_sanitize(alias_def: Seq<char>, ns: Seq<char>) -> Seq<char> {
    qualify_from(alias_def, 0, ns)
}

/// `ns::name` when the alias has a namespace, its name otherwise.
pub open spec fn spec_full_name(id: IdView) -> Seq<char> {
    match id.namespace {
        Some(ns) => ns + seq![':', ':'] + id.name,
        None => id.name,
    }
}

/// The choices for the dependencies of `a`, as an exec list.
pub type ChoicesList = Vec<(Identifier, Vec<Choice>)>;

impl Alias {
    /// A new alias without a namespace.
    pub fn new(name: &str, description: &str, alias: &str) -> (r: Alias)
        ensures
            r@ == (AliasView {
                name: IdView { name: crate::identifiers::spec_new_name(name@), namespace: None },
                desc: description@,
                alias: alias@,
            }),
    {
        Alias { name: Identifier::new(name), desc: description.to_owned(), alias: alias.to_owned() }
    }

    /// The alias with exactly this identifier, description and template.
    pub fn from_parts(name: Identifier, description: &str, alias: &str) -> (r: Alias)
        ensures
            r@ == (AliasView { name: name@, desc: description@, alias: alias@ }),
    {
        Alias { name, desc: description.to_owned(), alias: alias.to_owned() }
    }

    /// Replaces the template.
    pub fn update(&mut self, alias: String)
        ensures
            final(self)@ == (AliasView { alias: alias@, ..old(self)@ }),
    {
        self.alias = alias;
    }

    /// Moves the alias into `namespace`.
    pub fn update_namespace(&mut self, namespace: &str)
        ensures
            final(self)@ == (AliasView {
                name: IdView { name: old(self)@.name.name, namespace: Some(namespace@) },
                ..old(self)@
            }),
    {
        self.name.update(namespace);
    }

    /// The namespace, if any.
    pub fn namespace(&self) -> (r: Option<&str>)
        ensures
            match r {
                Some(n) => self@.name.namespace == Some(n@),
                None => self@.name.namespace is None,
            },
    {
        self.name.namespace()
    }

    /// The name, without the namespace.
    pub fn name(&self) -> (r: &str)
        ensures
            r@ == self@.name.name,
    {
        self.name.name()
    }

    /// The description.
    pub fn desc(&self) -> (r: &str)
        ensures
            r@ == self@.desc,
    {
        self.desc.as_str()
    }

    /// The template.
    pub fn alias(&self) -> (r: &str)
        ensures
            r@ == self@.alias,
    {
        self.alias.as_str()
    }

    /// A copy of the identifier.
    pub fn identifier(&self) -> (r: Identifier)
        ensures
            r@ == self@.name,
    {
        self.name.clone()
    }

    /// `namespace::name`, or the name alone.
    pub fn full_name(&self) -> (r: String)
        ensures
            r@ == spec_full_name(self@.name),
    {
        match self.name.namespace() {
            Some(ns) => {
                let mut v = chars_of(ns);
                v.push(':');
                v.push(':');
                let n = chars_of(self.name.name());
                extend_chars(&mut v, n.as_slice());
                assert(v@ =~= ns@ + seq![':', ':'] + self@.name.name);
                string_of(v.as_slice())
            },
            None => self.name.name().to_owned(),
        }
    }

    /// Rewrites each placeholder of `alias_def` that names no namespace as one in `namespace`.
    pub fn sanitize(alias_def: &str, namespace: &str) -> (r: String)
        ensures
            r@ == spec_sanitize(alias_def@, namespace@),
    {
        let d = chars_of(alias_def);
        let n = chars_of(namespace);
        let out = qualify_placeholders(d.as_slice(), n.as_slice());
        string_of(out.as_slice())
    }

    /// The template with its namespace-less placeholders put in the alias's namespace (the
    /// empty one when it has none).
    pub fn sanitized_alias(&self) -> (r: String)
        ensures
            r@ == spec_sanitize(
                self@.alias,
                match self@.name.namespace {
                    Some(n) => n,
                    None => Seq::empty(),
                },
            ),
    {
        match self.name.namespace() {
            Some(ns) => Self::sanitize(self.alias.as_str(), ns),
            None => {
                proof {
                    reveal_strlit("");
                }
                assert(""@ =~= Seq::<char>::empty());
                Self::sanitize(self.alias.as_str(), "")
            },
        }
    }

    /// The alias resolved with the given choices: every combination of choices substituted.
    pub fn with_choices(&self, choices: &Vec<(Identifier, Vec<Choice>)>) -> (r: Result<
        ResolvedAlias,
        ErrorsDependencies,
    >)
        ensures
            match r {
                Ok(ra) => {
                    &&& substitute_all(
                        self.command_view(),
                        crate::identifiers::spec_parse(self.command_view(), self.namespace_view()),
                        choice_map_view(choices@),
                    ) == Ok::<Seq<Seq<char>>, IdView>(ra@.resolved_aliases)
                    &&& ra@.name == self@.name
                    &&& ra@.desc == self@.desc
                    &&& ra@.original_alias == self@.alias
                    &&& ra@.choices == choice_map_view(choices@)
                },
                Err(ErrorsDependencies::MissingChoicesForVar(id)) => substitute_all(
                    self.command_view(),
                    crate::identifiers::spec_parse(self.command_view(), self.namespace_view()),
                    choice_map_view(choices@),
                ) == Err::<Seq<Seq<char>>, IdView>(id@),
            },
    {
        let res = self.substitute_for_choices(choices)?;
        Ok(
            ResolvedAlias {
                name: self.name.clone(),
                desc: self.desc.clone(),
                original_alias: self.alias.clone(),
                resolved_aliases: res,
                choices: clone_choice_map(choices),
            },
        )
    }

    /// The alias with the given choices substituted into its template.
    pub fn with_partial_choices(&self, choices: &Vec<(Identifier, Choice)>) -> (r: Alias)
        ensures
            r@ == (AliasView {
                alias: substitute_partial(
                    self@.alias,
                    crate::identifiers::spec_parse(self@.alias, self@.name.namespace),
                    partial_choice_view(choices@),
                ),
                ..self@
            }),
    {
        let res = self.substitute_for_choices_partial(choices);
        Alias { name: self.name.clone(), desc: self.desc.clone(), alias: res }
    }

    /// `name\tdesc`, the alias as listed for selection.
    pub fn to_line(&self) -> (r: String)
        ensures
            r@ == spec_display(self@.name) + seq!['\t'] + self@.desc,
    {
        let d = self.name.to_display();
        let mut v = chars_of(d.as_str());
        v.push('\t');
        let dc = chars_of(self.desc.as_str());
        extend_chars(&mut v, dc.as_slice());
        string_of(v.as_slice())
    }
}

impl Dependencies for Alias {
    open spec fn command_view(&self) -> Seq<char> {
        self@.alias
    }

    open spec fn namespace_view(&self) -> Option<Seq<char>> {
        self@.name.namespace
    }

    fn command(&self) -> (r: &str) {
        self.alias.as_str()
    }

    fn dependency_namespace(&self) -> (r: Option<&str>) {
        self.name.namespace()
    }
}

/// A copy of a list of (identifier, choices).
pub fn clone_choice_map(l: &Vec<(Identifier, Vec<Choice>)>) -> (r: Vec<(Identifier, Vec<Choice>)>)
    ensures
        choice_map_view(r@) == choice_map_view(l@),
{
    let mut r: Vec<(Identifier, Vec<Choice>)> = Vec::new();
    let mut i: usize = 0;
    while i < l.len()
        invariant
            i <= l.len(),
            choice_map_view(r@) == choice_map_view(l@).subrange(0, i as int),
        decreases l.len() - i,
    {
        let ghost r0 = r@;
        r.push((l[i].0.clone(), crate::choices::clone_choices(&l[i].1)));
        assert(choice_map_view(r@) =~= choice_map_view(r0).push(choice_map_view(l@)[i as int]));
        assert(choice_map_view(l@).subrange(0, i + 1) =~= choice_map_view(l@).subrange(0, i as int).push(
            choice_map_view(l@)[i as int],
        ));
        i = i + 1;
    }
    assert(choice_map_view(l@).subrange(0, i as int) =~= choice_map_view(l@));
    r
}

/// A copy of a list of strings.
pub fn clone_strings(l: &Vec<String>) -> (r: Vec<String>)
    ensures
        r@ == l@,
{
    let r = l.clone();
    assert(r@ =~= l@);
    r
}

/// Copies of the strings of `l`.
pub fn clone_strings_of(l: &[String]) -> (r: Vec<String>)
    ensures
        strings_view(r@) == strings_view(l@),
{
    let mut r: Vec<String> = Vec::new();
    let mut i: usize = 0;
    while i < l.len()
        invariant
            i <= l@.len(),
            strings_view(r@) == strings_view(l@.subrange(0, i as int)),
        decreases l@.len() - i,
    {
        let ghost before = r@;
        r.push(l[i].clone());
        assert(strings_view(r@) =~= strings_view(before).push(l@[i as int]@));
        assert(strings_view(l@.subrange(0, i + 1)) =~= strings_view(l@.subrange(0, i as int)).push(l@[i as int]@));
        i = i + 1;
    }
    assert(l@.subrange(0, i as int) =~= l@);
    r
}

/// What a resolved alias stands for.
pub struct ResolvedAliasView {
    pub name: IdView,
    pub desc: Seq<char>,
    pub original_alias: Seq<char>,
    pub resolved_aliases: Seq<Seq<char>>,
    pub choices: Seq<(IdView, Seq<ChoiceView>)>,
}

/// The values of `vals`, each followed by a space.
pub open spec fn spec_values_text(vals: Seq<ChoiceView>) -> Seq<char>
    decreases vals.len(),
{
    if vals.len() == 0 {
        Seq::empty()
    } else {
        spec_values_text(vals.drop_last()) + vals.last().value + seq![' ']
    }
}

/// One line per var: a tab, the var's name in bold, ` =`, a tab and its values.
pub open spec fn spec_choices_block(cs: Seq<(IdView, Seq<ChoiceView>)>) -> Seq<char>
    decreases cs.len(),
{
    if cs.len() == 0 {
        Seq::empty()
    } else {
        spec_choices_block(cs.drop_last()) + seq!['\t'] + bold_seq() + spec_display(cs.last().0)
            + reset_seq() + seq![' ', '=', '\t'] + spec_values_text(cs.last().1) + seq!['\n']
    }
}

/// One line per command: a tab, `- ` and the command.
pub open spec fn spec_commands_block(cmds: Seq<Seq<char>>) -> Seq<char>
    decreases cmds.len(),
{
    if cmds.len() == 0 {
        Seq::empty()
    } else {
        spec_commands_block(cmds.drop_last()) + seq!['\t', '-', ' '] + cmds.last() + seq!['\n']
    }
}

/// How a resolved alias is shown: its identifier, the choices made for each var and the
/// commands run, under highlighted headings.
pub open spec fn spec_resolved_display(ra: ResolvedAliasView) -> Seq<char> {
    light_cyan_seq() + bold_seq() + seq!['A', 'l', 'i', 'a', 's', ':'] + reset_seq() + seq![' ']
        + spec_display(ra.name) + seq!['\n'] + light_cyan_seq() + bold_seq() + seq![
        'C',
        'h',
        'o',
        'i',
        'c',
        'e',
        's',
        ':',
    ] + reset_seq() + seq!['\n', '\n'] + spec_choices_block(ra.choices) + seq!['\n']
        + light_cyan_seq() + bold_seq() + italic_seq() + seq![
        'E',
        'x',
        'e',
        'c',
        'u',
        't',
        'e',
        'd',
        ' ',
        'c',
        'o',
        'm',
        'm',
        'a',
        'n',
        'd',
        's',
        ':',
    ] + reset_seq() + seq!['\n'] + spec_commands_block(ra.resolved_aliases)
}

/// An alias with the choices made for it and the commands they give.
#[derive(Debug)]
pub struct ResolvedAlias {
    name: Identifier,
    desc: String,
    original_alias: String,
    resolved_aliases: Vec<String>,
    choices: Vec<(Identifier, Vec<Choice>)>,
}

impl View for ResolvedAlias {
    type V = ResolvedAliasView;

    closed spec fn view(&self) -> ResolvedAliasView {
        ResolvedAliasView {
            name: self.name@,
            desc: self.desc@,
            original_alias: self.original_alias@,
            resolved_aliases: strings_view(self.resolved_aliases@),
            choices: choice_map_view(self.choices@),
        }
    }
}

impl Clone for ResolvedAlias {
    fn clone(&self) -> (r: Self)
        ensures
            r@ == self@,
    {
        ResolvedAlias {
            name: self.name.clone(),
            desc: self.desc.clone(),
            original_alias: self.original_alias.clone(),
            resolved_aliases: clone_strings(&self.resolved_aliases),
            choices: clone_choice_map(&self.choices),
        }
    }
}

/// Whether two lists of choices are equal.
pub fn choices_eq(a: &Vec<Choice>, b: &Vec<Choice>) -> (r: bool)
    ensures
        r == (crate::choices::choices_view(a@) == crate::choices::choices_view(b@)),
{
    if a.len() != b.len() {
        return false;
    }
    let mut i: usize = 0;
    while i < a.len()
        invariant
            i <= a@.len(),
            a@.len() == b@.len(),
            crate::choices::choices_view(a@).subrange(0, i as int) == crate::choices::choices_view(b@).subrange(0, i as int),
        decreases a@.len() - i,
    {
        if !(a[i] == b[i]) {
            assert(crate::choices::choices_view(a@)[i as int] != crate::choices::choices_view(b@)[i as int]);
            return false;
        }
        assert(crate::choices::choices_view(a@).subrange(0, i + 1) =~= crate::choices::choices_view(a@).subrange(0, i as int).push(a@[i as int]@));
        assert(crate::choices::choices_view(b@).subrange(0, i + 1) =~= crate::choices::choices_view(b@).subrange(0, i as int).push(b@[i as int]@));
        i = i + 1;
    }
    assert(crate::choices::choices_view(a@).subrange(0, i as int) =~= crate::choices::choices_view(a@));
    assert(crate::choices::choices_view(b@).subrange(0, i as int) =~= crate::choices::choices_view(b@));
    true
}

/// Whether two lists of (identifier, choices) are equal.
pub fn choice_maps_eq(a: &Vec<(Identifier, Vec<Choice>)>, b: &Vec<(Identifier, Vec<Choice>)>) -> (r: bool)
    ensures
        r == (choice_map_view(a@) == choice_map_view(b@)),
{
    if a.len() != b.len() {
        return false;
    }
    let mut i: usize = 0;
    while i < a.len()
        invariant
            i <= a@.len(),
            a@.len() == b@.len(),
            choice_map_view(a@).subrange(0, i as int) == choice_map_view(b@).subrange(0, i as int),
        decreases a@.len() - i,
    {
        if !a[i].0.equals(&b[i].0) || !choices_eq(&a[i].1, &b[i].1) {
            assert(choice_map_view(a@)[i as int] != choice_map_view(b@)[i as int]);
            return false;
        }
        assert(choice_map_view(a@).subrange(0, i + 1) =~= choice_map_view(a@).subrange(0, i as int).push(choice_map_view(a@)[i as int]));
        assert(choice_map_view(b@).subrange(0, i + 1) =~= choice_map_view(b@).subrange(0, i as int).push(choice_map_view(b@)[i as int]));
        i = i + 1;
    }
    assert(choice_map_view(a@).subrange(0, i as int) =~= choice_map_view(a@));
    assert(choice_map_view(b@).subrange(0, i as int) =~= choice_map_view(b@));
    true
}

/// Whether two lists of strings are equal.
pub fn strings_eq(a: &Vec<String>, b: &Vec<String>) -> (r: bool)
    ensures
        r == (strings_view(a@) == strings_view(b@)),
{
    if a.len() != b.len() {
        return false;
    }
    let mut i: usize = 0;
    while i < a.len()
        invariant
            i <= a@.len(),
            a@.len() == b@.len(),
            strings_view(a@).subrange(0, i as int) == strings_view(b@).subrange(0, i as int),
        decreases a@.len() - i,
    {
        if !crate::text::str_eq(a[i].as_str(), b[i].as_str()) {
            assert(strings_view(a@)[i as int] != strings_view(b@)[i as int]);
            return false;
        }
        assert(strings_view(a@).subrange(0, i + 1) =~= strings_view(a@).subrange(0, i as int).push(a@[i as int]@));
        assert(strings_view(b@).subrange(0, i + 1) =~= strings_view(b@).subrange(0, i as int).push(b@[i as int]@));
        i = i + 1;
    }
    assert(strings_view(a@).subrange(0, i as int) =~= strings_view(a@));
    assert(strings_view(b@).subrange(0, i as int) =~= strings_view(b@));
    true
}

impl PartialEq for ResolvedAlias {
    fn eq(&self, other: &Self) -> (r: bool) {
        self.equals(other)
    }
}

impl vstd::std_specs::cmp::PartialEqSpecImpl for ResolvedAlias {
    open spec fn obeys_eq_spec() -> bool {
        true
    }

    open spec fn eq_spec(&self, other: &ResolvedAlias) -> bool {
        self@ == other@
    }
}

impl ResolvedAlias {
    /// Whether two resolved aliases are the same.
    pub fn equals(&self, other: &ResolvedAlias) -> (r: bool)
        ensures
            r == (self@ == other@),
    {
        self.name.equals(&other.name) && crate::text::str_eq(self.desc.as_str(), other.desc.as_str())
            && crate::text::str_eq(self.original_alias.as_str(), other.original_alias.as_str())
            && strings_eq(&self.resolved_aliases, &other.resolved_aliases)
            && choice_maps_eq(&self.choices, &other.choices)
    }

    /// A resolved alias made of its parts.
    pub fn new(
        name: Identifier,
        desc: String,
        original_alias: String,
        resolved_aliases: Vec<String>,
        choices: Vec<(Identifier, Vec<Choice>)>,
    ) -> (r: ResolvedAlias)
        ensures
            r@ == (ResolvedAliasView {
                name: name@,
                desc: desc@,
                original_alias: original_alias@,
                resolved_aliases: strings_view(resolved_aliases@),
                choices: choice_map_view(choices@),
            }),
    {
        ResolvedAlias { name, desc, original_alias, resolved_aliases, choices }
    }

    /// The commands to run.
    pub fn commands(&self) -> (r: &[String])
        ensures
            strings_view(r@) == self@.resolved_aliases,
    {
        self.resolved_aliases.as_slice()
    }

    /// A copy of the choices made for `identifier`.
    pub fn choice(&self, identifier: &Identifier) -> (r: Option<Vec<Choice>>)
        ensures
            match r {
                Some(cs) => crate::dependencies::lookup(self@.choices, identifier@) == Some(
                    crate::choices::choices_view(cs@),
                ),
                None => crate::dependencies::lookup(self@.choices, identifier@) is None,
            },
    {
        let idx = find_entry(&self.choices, identifier);
        proof {
            lemma_key_index_keys(
                choice_map_view(self.choices@),
                self.choices@.map_values(|e: (Identifier, Vec<Choice>)| (e.0@, ())),
                identifier@,
            );
        }
        match idx {
            Some(i) => Some(crate::choices::clone_choices(&self.choices[i].1)),
            None => None,
        }
    }

    /// The identifier of the alias.
    pub fn name(&self) -> (r: &Identifier)
        ensures
            r@ == self@.name,
    {
        &self.name
    }

    /// The description.
    pub fn desc(&self) -> (r: &str)
        ensures
            r@ == self@.desc,
    {
        self.desc.as_str()
    }

    /// The choices made.
    pub fn choices(&self) -> (r: &Vec<(Identifier, Vec<Choice>)>)
        ensures
            choice_map_view(r@) == self@.choices,
    {
        &self.choices
    }

    /// The template before resolution.
    pub fn original_alias(&self) -> (r: &str)
        ensures
            r@ == self@.original_alias,
    {
        self.original_alias.as_str()
    }

    /// The commands to run.
    pub fn resolved_alias(&self) -> (r: &[String])
        ensures
            strings_view(r@) == self@.resolved_aliases,
    {
        self.resolved_aliases.as_slice()
    }

    /// How the resolved alias is shown (see `spec_resolved_display`).
    pub fn to_display(&self) -> (r: String)
        ensures
            r@ == spec_resolved_display(self@),
    {
        let fg = light_cyan_fg();
        let b = bold();
        let it = italic();
        let rs = reset();
        let mut v: Vec<char> = Vec::new();
        push_str(&mut v, fg);
        push_str(&mut v, b.as_str());
        let h1 = "Alias:";
        proof {
            reveal_strlit("Alias:");
        }
        push_str(&mut v, h1);
        push_str(&mut v, rs.as_str());
        v.push(' ');
        let nd = self.name.to_display();
        push_str(&mut v, nd.as_str());
        v.push('\n');
        push_str(&mut v, fg);
        push_str(&mut v, b.as_str());
        let h2 = "Choices:";
        proof {
            reveal_strlit("Choices:");
        }
        push_str(&mut v, h2);
        push_str(&mut v, rs.as_str());
        v.push('\n');
        v.push('\n');
        let ghost head = v@;
        let ghost cs = self@.choices;
        assert(cs.subrange(0, 0) =~= Seq::<(IdView, Seq<ChoiceView>)>::empty());
        let mut i: usize = 0;
        while i < self.choices.len()
            invariant
                i <= self.choices.len(),
                cs == choice_map_view(self.choices@),
                b@ == bold_seq(),
                rs@ == reset_seq(),
                v@ == head + spec_choices_block(cs.subrange(0, i as int)),
            decreases self.choices.len() - i,
        {
            let ghost before = v@;
            v.push('\t');
            push_str(&mut v, b.as_str());
            let d = self.choices[i].0.to_display();
            push_str(&mut v, d.as_str());
            push_str(&mut v, rs.as_str());
            v.push(' ');
            v.push('=');
            v.push('\t');
            let vals = &self.choices[i].1;
            let ghost vs = crate::choices::choices_view(vals@);
            let ghost mid = v@;
            let mut j: usize = 0;
            while j < vals.len()
                invariant
                    j <= vals.len(),
                    vs == crate::choices::choices_view(vals@),
                    v@ == mid + spec_values_text(vs.subrange(0, j as int)),
                decreases vals.len() - j,
            {
                push_str(&mut v, vals[j].value());
                v.push(' ');
                assert(vs.subrange(0, j + 1).drop_last() =~= vs.subrange(0, j as int));
                j = j + 1;
            }
            assert(vs.subrange(0, j as int) =~= vs);
            v.push('\n');
            assert(cs.subrange(0, i + 1).drop_last() =~= cs.subrange(0, i as int));
            assert(cs.subrange(0, i + 1).last() == cs[i as int]);
            i = i + 1;
        }
        assert(cs.subrange(0, i as int) =~= cs);
        v.push('\n');
        push_str(&mut v, fg);
        push_str(&mut v, b.as_str());
        push_str(&mut v, it.as_str());
        let h3 = "Executed commands:";
        proof {
            reveal_strlit("Executed commands:");
        }
        push_str(&mut v, h3);
        push_str(&mut v, rs.as_str());
        v.push('\n');
        let ghost head2 = v@;
        let ghost cv = self@.resolved_aliases;
        assert(cv.subrange(0, 0) =~= Seq::<Seq<char>>::empty());
        let mut k: usize = 0;
        while k < self.resolved_aliases.len()
            invariant
                k <= self.resolved_aliases.len(),
                cv == strings_view(self.resolved_aliases@),
                v@ == head2 + spec_commands_block(cv.subrange(0, k as int)),
            decreases self.resolved_aliases.len() - k,
        {
            v.push('\t');
            v.push('-');
            v.push(' ');
            push_str(&mut v, self.resolved_aliases[k].as_str());
            v.push('\n');
            assert(cv.subrange(0, k + 1).drop_last() =~= cv.subrange(0, k as int));
            k = k + 1;
        }
        assert(cv.subrange(0, k as int) =~= cv);
        proof {
            assert(v@ =~= spec_resolved_display(self@));
        }
        string_of(v.as_slice())
    }

    /// The alias that was resolved.
    pub fn to_alias(&self) -> (r: Alias)
        ensures
            r@ == (AliasView {
                name: self@.name,
                desc: self@.desc,
                alias: self@.original_alias,
            }),
    {
        Alias {
            name: self.name.clone(),
            desc: self.desc.clone(),
            alias: self.original_alias.clone(),
        }
    }
}

/// An alias, its full name and the vars it needs, in the order they are resolved.
#[derive(Debug)]
pub struct AliasAndDependencies {
    pub alias: Alias,
    pub full_name: String,
    pub dependencies: Vec<Identifier>,
}

impl Clone for AliasAndDependencies {
    fn clone(&self) -> (r: Self)
        ensures
            r.alias == self.alias,
            r.full_name == self.full_name,
            ids_view(r.dependencies@) == ids_view(self.dependencies@),
    {
        let d = self.dependencies.clone();
        assert(d@ =~= self.dependencies@);
        AliasAndDependencies {
            alias: self.alias.clone(),
            full_name: self.full_name.clone(),
            dependencies: d,
        }
    }
}

} // verus!

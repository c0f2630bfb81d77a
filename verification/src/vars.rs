//! Vars: named values that aliases depend on, with their source of choices.
use vstd::prelude::*;
use crate::text::{opt_view, clone_opt_string};
use crate::identifiers::{Identifier, IdView};
use crate::choices::{Choice, ChoiceView, choices_view, clone_choices};
use crate::dependencies::Dependencies;

verus! {

/// What a var stands for.
pub struct VarView {
    pub name: IdView,
    pub desc: Seq<char>,
    pub choices: Seq<ChoiceView>,
    pub from_command: Option<Seq<char>>,
    pub from_input: Option<Seq<char>>,
    pub discover: bool,
}

/// A var: static choices, choices read from the output of a command, or a free-text input.
#[derive(Debug)]
pub struct Var {
    name: Identifier,
    desc: String,
    choices: Vec<Choice>,
    from_command: Option<String>,
    from_input: Option<String>,
    discover: bool,
}

impl View for Var {
    type V = VarView;

    closed spec fn view(&self) -> VarView {
        VarView {
            name: self.name@,
            desc: self.desc@,
            choices: choices_view(self.choices@),
            from_command: opt_view(self.from_command),
            from_input: opt_view(self.from_input),
            discover: self.discover,
        }
    }
}

impl Clone for Var {
    fn clone(&self) -> (r: Self)
        ensures
            r@ == self@,
    {
        Var {
            name: self.name.clone(),
            desc: self.desc.clone(),
            choices: clone_choices(&self.choices),
            from_command: clone_opt_string(&self.from_command),
            from_input: clone_opt_string(&self.from_input),
            discover: self.discover,
        }
    }
}

/// A var is hashed by its identifier alone, as vars are looked up by identifier.
impl core::hash::Hash for Var {
    #[verifier::external_body]
    fn hash<H: core::hash::Hasher>(&self, state: &mut H) {
        self.name.hash(state)
    }
}

/// The template of a var: its command, or nothing.
pub open spec fn var_command(v: VarView) -> Seq<char> {
    match v.from_command {
        Some(c) => c,
        None => Seq::empty(),
    }
}

impl Var {
    /// A var with static choices.
    pub fn new(name: &str, desc: &str, choices: Vec<Choice>) -> (r: Var)
        ensures
            r@.name == (IdView { name: crate::identifiers::spec_new_name(name@), namespace: None }),
            r@.desc == desc@,
            r@.choices == choices_view(choices@),
            r@.from_command is None,
            r@.from_input is None,
            !r@.discover,
    {
        Var {
            name: Identifier::new(name),
            desc: desc.to_owned(),
            choices,
            from_command: None,
            from_input: None,
            discover: false,
        }
    }

    /// The var with exactly these fields, as a file spells them.
    pub fn from_parts(
        name: Identifier,
        desc: &str,
        choices: Vec<Choice>,
        from_command: Option<&str>,
        from_input: Option<&str>,
        discover: bool,
    ) -> (r: Var)
        ensures
            r@ == (VarView {
                name: name@,
                desc: desc@,
                choices: choices_view(choices@),
                from_command: match from_command {
                    Some(c) => Some(c@),
                    None => None,
                },
                from_input: match from_input {
                    Some(c) => Some(c@),
                    None => None,
                },
                discover,
            }),
    {
        let fc = match from_command {
            Some(c) => Some(c.to_owned()),
            None => None,
        };
        let fi = match from_input {
            Some(c) => Some(c.to_owned()),
            None => None,
        };
        Var { name, desc: desc.to_owned(), choices, from_command: fc, from_input: fi, discover }
    }

    /// A var whose choices are the lines that `from_command` prints.
    pub fn from_command(name: &str, desc: &str, from_command: &str) -> (r: Var)
        ensures
            r@.name == (IdView { name: crate::identifiers::spec_new_name(name@), namespace: None }),
            r@.desc == desc@,
            r@.choices.len() == 0,
            r@.from_command == Some(from_command@),
            r@.from_input is None,
            !r@.discover,
    {
        Var {
            name: Identifier::new(name),
            desc: desc.to_owned(),
            choices: Vec::new(),
            from_command: Some(from_command.to_owned()),
            from_input: None,
            discover: false,
        }
    }

    /// A var whose value is typed in after the prompt `from_input`.
    pub fn from_input(name: &str, desc: &str, from_input: &str) -> (r: Var)
        ensures
            r@.name == (IdView { name: crate::identifiers::spec_new_name(name@), namespace: None }),
            r@.desc == desc@,
            r@.choices.len() == 0,
            r@.from_command is None,
            r@.from_input == Some(from_input@),
            !r@.discover,
    {
        Var {
            name: Identifier::new(name),
            desc: desc.to_owned(),
            choices: Vec::new(),
            from_command: None,
            from_input: Some(from_input.to_owned()),
            discover: false,
        }
    }

    /// The same var, offered (or not) for discovery.
    pub fn with_discover(self, discover: bool) -> (r: Var)
        ensures
            r@ == (VarView { discover, ..self@ }),
    {
        Var { discover, ..self }
    }

    /// Whether the choices come from a command.
    pub fn is_command(&self) -> (r: bool)
        ensures
            r == self@.from_command is Some,
    {
        self.from_command.is_some()
    }

    /// Whether the value is typed in.
    pub fn is_input(&self) -> (r: bool)
        ensures
            r == self@.from_input is Some,
    {
        self.from_input.is_some()
    }

    /// Whether the var is offered for discovery.
    pub fn discover(&self) -> (r: bool)
        ensures
            r == self@.discover,
    {
        self.discover
    }

    /// A copy of the var's identifier.
    pub fn name(&self) -> (r: Identifier)
        ensures
            r@ == self@.name,
    {
        self.name.clone()
    }

    /// The var's identifier.
    pub fn name_ref(&self) -> (r: &Identifier)
        ensures
            r@ == self@.name,
    {
        &self.name
    }

    /// The description.
    pub fn desc(&self) -> (r: &str)
        ensures
            r@ == self@.desc,
    {
        self.desc.as_str()
    }

    /// A copy of the static choices.
    pub fn choices(&self) -> (r: Vec<Choice>)
        ensures
            choices_view(r@) == self@.choices,
    {
        clone_choices(&self.choices)
    }

    /// The prompt of an input var.
    pub fn prompt(&self) -> (r: Option<&str>)
        ensures
            match r {
                Some(p) => self@.from_input == Some(p@),
                None => self@.from_input is None,
            },
    {
        match &self.from_input {
            Some(p) => Some(p.as_str()),
            None => None,
        }
    }

    /// The namespace of the var.
    pub fn namespace(&self) -> (r: Option<&str>)
        ensures
            match r {
                Some(n) => self@.name.namespace == Some(n@),
                None => self@.name.namespace is None,
            },
    {
        self.name.namespace()
    }

    /// Moves the var into `namespace`.
    pub fn update(&mut self, namespace: &str)
        ensures
            final(self)@ == (VarView {
                name: IdView { name: old(self)@.name.name, namespace: Some(namespace@) },
                ..old(self)@
            }),
    {
        self.name.update(namespace);
    }
}

impl Dependencies for Var {
    open spec fn command_view(&self) -> Seq<char> {
        var_command(self@)
    }

    open spec fn namespace_view(&self) -> Option<Seq<char>> {
        self@.name.namespace
    }

    fn command(&self) -> (r: &str) {
        match &self.from_command {
            Some(c) => c.as_str(),
            None => {
                proof {
                    reveal_strlit("");
                }
                assert(""@ =~= Seq::<char>::empty());
                ""
            },
        }
    }

    fn dependency_namespace(&self) -> (r: Option<&str>) {
        self.name.namespace()
    }
}

} // verus!

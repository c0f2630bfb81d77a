//! A value that a var can take, with an optional description.
use vstd::prelude::*;
use crate::text::{opt_view, clone_opt_string, opt_str_eq, str_eq};

verus! {

/// What a choice stands for: its value and its description.
pub struct ChoiceView {
    pub value: Seq<char>,
    pub desc: Option<Seq<char>>,
}

/// One value a var can take.
#[derive(Debug, Hash, PartialOrd, Ord)]
pub struct Choice {
    value: String,
    desc: Option<String>,
}

impl View for Choice {
    type V = ChoiceView;

    closed spec fn view(&self) -> ChoiceView {
        ChoiceView { value: self.value@, desc: opt_view(self.desc) }
    }
}

impl Clone for Choice {
    fn clone(&self) -> (r: Self)
        ensures
            r == *self,
    {
        Choice { value: self.value.clone(), desc: clone_opt_string(&self.desc) }
    }
}

impl PartialEq for Choice {
    fn eq(&self, other: &Self) -> (r: bool) {
        str_eq(self.value.as_str(), other.value.as_str()) && opt_str_eq(&self.desc, &other.desc)
    }
}

impl vstd::std_specs::cmp::PartialEqSpecImpl for Choice {
    open spec fn obeys_eq_spec() -> bool {
        true
    }

    open spec fn eq_spec(&self, other: &Choice) -> bool {
        self@ == other@
    }
}

impl Eq for Choice {

}

/// The views of a sequence of choices.
pub open spec fn choices_view(cs: Seq<Choice>) -> Seq<ChoiceView> {
    cs.map_values(|c: Choice| c@)
}

impl Choice {
    /// A choice with a value and an optional description.
    pub fn new(value: &str, desc: Option<&str>) -> (r: Choice)
        ensures
            r@ == (ChoiceView {
                value: value@,
                desc: match desc {
                    Some(d) => Some(d@),
                    None => None,
                },
            }),
    {
        Choice {
            value: value.to_owned(),
            desc: match desc {
                Some(d) => Some(d.to_owned()),
                None => None,
            },
        }
    }

    /// A choice with a value and no description.
    pub fn from_value(value: &str) -> (r: Choice)
        ensures
            r@ == (ChoiceView { value: value@, desc: None }),
    {
        Choice { value: value.to_owned(), desc: None }
    }

    /// The value.
    pub fn value(&self) -> (r: &str)
        ensures
            r@ == self@.value,
    {
        self.value.as_str()
    }

    /// The description, if any.
    pub fn desc(&self) -> (r: Option<&str>)
        ensures
            match r {
                Some(d) => self@.desc == Some(d@),
                None => self@.desc is None,
            },
    {
        match &self.desc {
            Some(d) => Some(d.as_str()),
            None => None,
        }
    }
}

/// A copy of a list of choices.
pub fn clone_choices(cs: &Vec<Choice>) -> (r: Vec<Choice>)
    ensures
        r@ == cs@,
{
    let r = cs.clone();
    assert(r@ =~= cs@);
    r
}

} // verus!

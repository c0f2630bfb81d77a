//! The selection screens of the terminal interface: what is listed for an alias, and how the
//! outcome of a selection becomes the answer to the resolver.
use vstd::prelude::*;
use crate::aliases::{AliasAndDependencies, AliasView};
use crate::text::str_eq;
use crate::identifiers::ids_view;
use crate::list_state::Value;
use crate::previews::{alias_preview, spec_alias_preview, choice_text, spec_choice_text};
use crate::choices::{Choice, ChoiceView};
use crate::view_state::ViewResponse;
use crate::resolver::ErrorsResolver;

verus! {

/// Why the terminal interface gave no selection.
#[derive(Debug)]
pub enum ErrorsUIV2 {
    CallsResolveWithUndefinedAlias,
    /// The view was closed without a selection.
    EmptySelection,
    /// The terminal could not be set up, with this message.
    InitError(String),
    /// Reading or writing the terminal failed, with this message.
    IOError(String),
    /// Preparing the preview's files failed, with this message.
    FSError(String),
}

impl ErrorsUIV2 {
    /// The message the error is reported with.
    pub fn message(&self) -> (r: String)
        ensures
            self is EmptySelection ==> r@ == "tried to choose with undifined alias"@,
            self is CallsResolveWithUndefinedAlias ==> r@ == "no selection was provided"@,
    {
        match self {
            ErrorsUIV2::CallsResolveWithUndefinedAlias => "no selection was provided".to_string(),
            ErrorsUIV2::EmptySelection => "tried to choose with undifined alias".to_string(),
            ErrorsUIV2::InitError(_) => "initialisation of UI failed".to_string(),
            ErrorsUIV2::IOError(m) => {
                let mut s = "an unexpected error happend while filling the preview window ".to_string();
                crate::text::push_string(&mut s, m.as_str());
                s
            },
            ErrorsUIV2::FSError(m) => {
                let mut s = "an unexpected error happend while initialising the preview window ".to_string();
                crate::text::push_string(&mut s, m.as_str());
                s
            },
        }
    }
}

/// An alias offered for selection, listed by its full name.
#[derive(Debug)]
pub struct AliasElement(pub AliasAndDependencies);

impl Value for AliasElement {
    open spec fn text_view(&self) -> Seq<char> {
        self.0.full_name@
    }

    fn text(&self) -> (r: &str) {
        self.0.full_name.as_str()
    }

    /// Its name, description and template, then its vars.
    open spec fn preview_view(&self) -> Seq<char> {
        spec_alias_preview(self.0.alias@, ids_view(self.0.dependencies@))
    }

    fn preview(&self) -> (r: String) {
        alias_preview(&self.0)
    }

    /// Two alias elements are the same where their aliases are.
    type Key = AliasView;

    open spec fn key(&self) -> AliasView {
        self.0.alias@
    }

    fn same_value(&self, other: &Self) -> (r: bool) {
        self.0.alias.identifier().equals(&other.0.alias.identifier()) && str_eq(self.0.alias.desc(), other.0.alias.desc())
            && str_eq(self.0.alias.alias(), other.0.alias.alias())
    }
}

/// An item offered for selection, listed by `text`, with `preview_text` shown beside it.
#[derive(Debug)]
pub struct Listed<T> {
    pub item: T,
    pub text: String,
    pub preview_text: String,
}

impl Value for Listed<Choice> {
    open spec fn text_view(&self) -> Seq<char> {
        self.text@
    }

    fn text(&self) -> (r: &str) {
        self.text.as_str()
    }

    open spec fn preview_view(&self) -> Seq<char> {
        self.preview_text@
    }

    fn preview(&self) -> (r: String) {
        self.preview_text.clone()
    }

    /// Two listed choices are the same where their choices are.
    type Key = ChoiceView;

    open spec fn key(&self) -> ChoiceView {
        self.item@
    }

    fn same_value(&self, other: &Self) -> (r: bool) {
        str_eq(self.item.value(), other.item.value()) && match (self.item.desc(), other.item.desc()) {
            (Some(a), Some(b)) => str_eq(a, b),
            (None, None) => true,
            _ => false,
        }
    }
}

impl Value for Listed<String> {
    open spec fn text_view(&self) -> Seq<char> {
        self.text@
    }

    fn text(&self) -> (r: &str) {
        self.text.as_str()
    }

    open spec fn preview_view(&self) -> Seq<char> {
        self.preview_text@
    }

    fn preview(&self) -> (r: String) {
        self.preview_text.clone()
    }

    /// Two listed texts are the same where their items are.
    type Key = Seq<char>;

    open spec fn key(&self) -> Seq<char> {
        self.item@
    }

    fn same_value(&self, other: &Self) -> (r: bool) {
        str_eq(self.item.as_str(), other.item.as_str())
    }
}

/// A choice offered for selection, listed by its value and description (see
/// `spec_choice_text`).
pub fn choice_element(choice: Choice, preview_text: String) -> (r: Listed<Choice>)
    ensures
        r.item == choice,
        r.text@ == spec_choice_text(choice@),
        r.preview_text == preview_text,
{
    let text = choice_text(&choice);
    Listed { item: choice, text, preview_text }
}

/// The values marked when the view ended with a selection; closing it selects nothing.
pub fn chosen_values<V>(response: Option<ViewResponse<V>>) -> (r: Result<Vec<V>, ErrorsUIV2>)
    ensures
        response is None <==> r is Err,
        r is Err ==> r matches Err(ErrorsUIV2::EmptySelection),
        response matches Some(resp) ==> r matches Ok(v) && v == resp.marked_values,
{
    match response {
        Some(resp) => Ok(resp.marked_values),
        None => Err(ErrorsUIV2::EmptySelection),
    }
}

/// The alias picked from a selection: the first one chosen; none chosen, or a failed
/// selection, is an error.
pub fn first_selected(chosen: Result<Vec<AliasAndDependencies>, ErrorsUIV2>) -> (r: Result<
    AliasAndDependencies,
    ErrorsResolver,
>)
    ensures
        chosen is Err <==> r matches Err(ErrorsResolver::IdentifierSelectionInvalid(_)),
        chosen matches Ok(v) ==> (v@.len() == 0 <==> r matches Err(ErrorsResolver::IdentifierSelectionEmpty)),
        chosen matches Ok(v) ==> (v@.len() > 0 ==> (r matches Ok(a) && a == v@[0])),
{
    match chosen {
        Err(e) => Err(ErrorsResolver::IdentifierSelectionInvalid(e.message())),
        Ok(mut v) => {
            if v.len() == 0 {
                Err(ErrorsResolver::IdentifierSelectionEmpty)
            } else {
                Ok(v.swap_remove(0))
            }
        },
    }
}

} // verus!

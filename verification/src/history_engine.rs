//! Running again an alias picked from the history, with the choices it was run with.
use vstd::prelude::*;
use crate::identifiers::Identifier;
use crate::aliases::{ResolvedAlias, ResolvedAliasView, spec_resolved_display};
use crate::aliases_repository::AliasCollection;
use crate::resolution::{VarsCollection, VarsDefaultValues};
use crate::resolver::Resolver;
use crate::vars_repository::{VarsDefaultValuesSetter, assoc_map};
use crate::dependencies::choice_map_view;
use crate::engine::{SamEngine, SamCommand, SamHistory, SamExecutor, ErrorSamEngine};
use crate::history_aliases::{AliasHistory, HistoryEntry};
use crate::list_state::Value;

verus! {

/// Why running an alias from the history failed.
#[derive(Debug)]
pub enum ErrorHistoryEngine {
    /// Running the alias failed.
    SamEngine(ErrorSamEngine),
    /// The alias is no longer configured (its identifier, the directory it last ran in).
    AliasNotAvailable(Identifier, String),
}

/// A history entry offered for selection.
#[derive(Debug)]
pub struct HistoryEntryWrapper(pub HistoryEntry);

impl Value for HistoryEntryWrapper {
    open spec fn text_view(&self) -> Seq<char> {
        self.0.r@.name.name
    }

    fn text(&self) -> (r: &str) {
        self.0.r.name().name()
    }

    open spec fn preview_view(&self) -> Seq<char> {
        spec_resolved_display(self.0.r@)
    }

    fn preview(&self) -> (r: String) {
        self.0.r.to_display()
    }

    /// Two history entries are the same where their resolved aliases and directories are.
    type Key = (ResolvedAliasView, Seq<char>);

    open spec fn key(&self) -> (ResolvedAliasView, Seq<char>) {
        (self.0.r@, self.0.pwd@)
    }

    fn same_value(&self, other: &Self) -> (r: bool) {
        self.0.r.equals(&other.0.r) && crate::text::str_eq(self.0.pwd.as_str(), other.0.pwd.as_str())
    }
}

/// Runs again aliases picked from the history.
pub struct HistoryEngine<R, AR, VR, DV, H, E> {
    pub sam_engine: SamEngine<R, AR, VR, DV, H, E>,
    pub history: AliasHistory,
}

impl<
    R: Resolver,
    AR: AliasCollection,
    VR: VarsCollection,
    DV: VarsDefaultValues + VarsDefaultValuesSetter,
    H: SamHistory,
    E: SamExecutor,
> HistoryEngine<R, AR, VR, DV, H, E> {
    /// The history entries offered for selection, oldest first.
    pub fn entries(&self) -> (r: Vec<HistoryEntryWrapper>)
        ensures
            r@.len() == self.history.history_view().len(),
            forall|i: int| 0 <= i < r@.len() ==> (#[trigger] r@[i]).0.r@ == self.history.history_view()[i].r@
                && r@[i].0.pwd@ == self.history.history_view()[i].pwd@,
    {
        let all = self.history.entries();
        let mut out: Vec<HistoryEntryWrapper> = Vec::new();
        let mut i: usize = 0;
        while i < all.len()
            invariant
                i <= all@.len(),
                all@ == self.history.history_view(),
                out@.len() == i,
                forall|j: int| 0 <= j < i ==> (#[trigger] out@[j]).0.r@ == all@[j].r@ && out@[j].0.pwd@ == all@[j].pwd@,
            decreases all@.len() - i,
        {
            out.push(HistoryEntryWrapper(all[i].clone()));
            i = i + 1;
        }
        out
    }

    /// Runs again the alias of `selection` with the choices it was run with: the alias must
    /// still be configured; its choices become the defaults, then it is run.
    pub fn run_selection(&mut self, selection: &HistoryEntry) -> (r: Result<i32, ErrorHistoryEngine>)
        ensures
            !old(self).sam_engine.aliases.aliases_map().contains_key(selection.r@.name) <==> r matches Err(
                ErrorHistoryEngine::AliasNotAvailable(_, _),
            ),
            r matches Err(ErrorHistoryEngine::AliasNotAvailable(id, pwd)) ==> id@ == selection.r@.name
                && pwd@ == selection.pwd@,
            old(self).sam_engine.aliases.aliases_map().contains_key(selection.r@.name) ==> assoc_map(
                selection.r@.choices,
            ).submap_of(final(self).sam_engine.defaults.defaults_spec()),
            r is Ok ==> r == Ok::<i32, ErrorHistoryEngine>(1),
    {
        let selection_id = selection.r.name();
        if self.sam_engine.aliases.get(selection_id).is_none() {
            return Err(ErrorHistoryEngine::AliasNotAvailable(selection_id.clone(), selection.pwd.clone()));
        }
        self.sam_engine.defaults.set_defaults(selection.r.choices());
        match self.sam_engine.run(SamCommand::ExecuteAlias { alias: selection_id.clone() }) {
            Ok(_) => {},
            Err(e) => {
                return Err(ErrorHistoryEngine::SamEngine(e));
            },
        }
        Ok(1)
    }
}

} // verus!

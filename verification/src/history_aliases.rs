//! The history of executed aliases, each recorded with the directory it ran in.
use vstd::prelude::*;
use crate::aliases::{ResolvedAlias, ResolvedAliasView};
use crate::engine::{SamHistory, ErrorSamEngine, latest, last_window};
use crate::sequential_state::{SequentialState, spec_push};

verus! {

/// An executed alias and the directory it ran in.
#[derive(Debug)]
pub struct HistoryEntry {
    pub r: ResolvedAlias,
    pub pwd: String,
}

impl Clone for HistoryEntry {
    fn clone(&self) -> (res: Self)
        ensures
            res.r@ == self.r@,
            res.pwd@ == self.pwd@,
    {
        HistoryEntry { r: self.r.clone(), pwd: self.pwd.clone() }
    }
}

/// The aliases of history entries.
pub open spec fn entry_aliases(s: Seq<HistoryEntry>) -> Seq<ResolvedAliasView> {
    s.map_values(|e: HistoryEntry| e.r@)
}

/// The history of executed aliases, oldest first, optionally bounded.
#[derive(Debug)]
pub struct AliasHistory {
    state: SequentialState<HistoryEntry>,
    pwd: String,
}

impl AliasHistory {
    /// The directory recorded with each new entry.
    pub closed spec fn pwd_view(&self) -> Seq<char> {
        self.pwd@
    }

    /// The entries held, oldest first.
    pub closed spec fn history_view(&self) -> Seq<HistoryEntry> {
        self.state.entries_view()
    }

    /// The bound on the number of entries.
    pub closed spec fn max_view(&self) -> Option<usize> {
        self.state.max_view()
    }

    /// An empty history bounded by `max_size`, recording `pwd` as the directory of new entries.
    pub fn new(max_size: Option<usize>, pwd: String) -> (r: Self)
        ensures
            r.history_view().len() == 0,
            r.max_view() == max_size,
            r.pwd_view() == pwd@,
    {
        AliasHistory { state: SequentialState::new(max_size), pwd }
    }

    /// A history holding `entries` (as read back from storage).
    pub fn from_entries(entries: Vec<HistoryEntry>, max_size: Option<usize>, pwd: String) -> (r: Self)
        ensures
            r.history_view() == entries@,
            r.max_view() == max_size,
            r.pwd_view() == pwd@,
    {
        AliasHistory { state: SequentialState::from_entries(entries, max_size), pwd }
    }

    /// The entries held, oldest first.
    pub fn entries(&self) -> (r: &[HistoryEntry])
        ensures
            r@ == self.history_view(),
    {
        self.state.as_slice()
    }
}

impl SamHistory for AliasHistory {
    open spec fn entries_view(&self) -> Seq<ResolvedAliasView> {
        entry_aliases(self.history_view())
    }

    open spec fn retains(&self) -> bool {
        self.max_view() != Some(0usize)
    }

    open spec fn available(&self) -> bool {
        true
    }

    /// Records `alias` with the history's directory; a bounded history drops its oldest entry
    /// when full.
    fn put(&mut self, alias: ResolvedAlias) -> (r: Result<(), ErrorSamEngine>)
        ensures
            r is Ok,
            old(self).max_view() != Some(0usize) ==> final(self).history_view().len() > 0
                && final(self).history_view().last().r@ == alias@
                && final(self).history_view().last().pwd@ == old(self).pwd_view(),
            final(self).pwd_view() == old(self).pwd_view(),
            final(self).max_view() == old(self).max_view(),
            final(self).entries_view() == spec_push(old(self).entries_view(), alias@, old(self).max_view()),
    {
        let ghost av = alias@;
        let ghost before = self.state.entries_view();
        let ghost olds = old(self).entries_view();
        assert(olds == entry_aliases(before));
        let ghost t0 = old(self).entries_view().push(alias@).subrange(0, old(self).entries_view().len() + 1int);
        let ghost t1 = old(self).entries_view().push(alias@).subrange(1, old(self).entries_view().len() + 1int);
        let entry = HistoryEntry { r: alias, pwd: self.pwd.clone() };
        self.state.push(entry);
        proof {
            let pushed = before.push(entry);
            assert(entry_aliases(pushed) =~= entry_aliases(before).push(av));
            match self.state.max_view() {
                Some(m) => {
                    if pushed.len() > m {
                        assert(entry_aliases(pushed.drop_first()) =~= entry_aliases(pushed).drop_first());
                    }
                },
                None => {},
            }
            let fin = self.entries_view();
            if fin.len() == olds.len() + 1 {
                assert(fin =~= t0);
            } else {
                assert(fin =~= t1);
            }
        }
        Ok(())
    }

    /// The last `n` aliases, oldest first.
    fn get_last_n(&self, n: usize) -> (r: Result<Vec<ResolvedAlias>, ErrorSamEngine>)
        ensures
            r is Ok,
            r matches Ok(v) ==> v@.map_values(|a: ResolvedAlias| a@) == last_window(self.entries_view(), n as nat),
    {
        let all = self.state.as_slice();
        let len = all.len();
        let skip: usize = if len > n { len - n } else { 0 };
        let mut out: Vec<ResolvedAlias> = Vec::new();
        let mut i: usize = skip;
        let ghost e = self.entries_view();
        while i < len
            invariant
                skip <= i <= len,
                len == all@.len(),
                e == entry_aliases(all@),
                out@.len() == i - skip,
                forall|j: int| 0 <= j < out@.len() ==> #[trigger] out@[j]@ == e[skip + j],
            decreases len - i,
        {
            out.push(all[i].r.clone());
            i = i + 1;
        }
        proof {
            let w = last_window(e, n as nat);
            assert(out@.map_values(|a: ResolvedAlias| a@) =~= w);
            assert forall|j: int| 0 <= j < out@.len() implies w.contains(#[trigger] out@[j]@) by {
                assert(w[j] == out@[j]@);
            }
        }
        Ok(out)
    }
}

/// Once an alias is recorded in a history that keeps entries, it is the last one: the alias
/// that the last-alias commands show and run, and the only entry of a window of one.
pub proof fn lemma_recorded_is_last(entries: Seq<ResolvedAliasView>, alias: ResolvedAliasView, max: Option<usize>)
    requires
        max != Some(0usize),
    ensures
        latest(spec_push(entries, alias, max)) == Some(alias),
        last_window(spec_push(entries, alias, max), 1) == seq![alias],
{
    let s = spec_push(entries, alias, max);
    assert(s.len() > 0 && s.last() == alias);
    if s.len() > 1 {
        assert(s.subrange(s.len() - 1, s.len() as int) =~= seq![alias]);
    } else {
        assert(s =~= seq![alias]);
    }
}

} // verus!

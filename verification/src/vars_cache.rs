//! A cache of what commands printed, kept for a time to live.
use vstd::prelude::*;
use crate::associative_state::{AssociativeStateWithTTL, StateEntry, spec_get, valid_at, lemma_get_after_put, spec_purge, spec_remove_key};

verus! {

/// A command and what it printed.
#[derive(Debug)]
pub struct CacheEntry {
    pub command: String,
    pub output: String,
}

impl Clone for CacheEntry {
    fn clone(&self) -> (r: Self)
        ensures
            r.command@ == self.command@,
            r.output@ == self.output@,
    {
        CacheEntry { command: self.command.clone(), output: self.output.clone() }
    }
}

/// A store of command outputs.
pub trait VarsCache {
    /// What is remembered for `command` at time `now`.
    spec fn cached(&self, command: Seq<char>, now: u64) -> Option<Seq<char>>;

    /// Remembers that `command` printed `output`, at time `now`: read back at `now`, the
    /// output is `output` or nothing.
    fn put(&mut self, command: &str, output: &str, now: u64)
        ensures
            final(self).cached(command@, now) is Some ==> final(self).cached(command@, now) == Some(output@),
    ;

    /// What `command` printed, if it is remembered at time `now`.
    fn get(&self, command: &str, now: u64) -> (r: Option<String>)
        ensures
            match r {
                Some(o) => self.cached(command@, now) == Some(o@),
                None => self.cached(command@, now) is None,
            },
    ;
}

/// Command outputs stored by command, with a time to live.
#[derive(Debug)]
pub struct RustBreakCache {
    state: AssociativeStateWithTTL<CacheEntry>,
}

/// The output remembered for `command` in `s` at `now`, if any.
pub open spec fn spec_cached(
    s: Seq<(Seq<char>, StateEntry<CacheEntry>)>,
    command: Seq<char>,
    ttl: Option<u64>,
    now: u64,
) -> Option<Seq<char>> {
    match spec_get(s, command, ttl, now) {
        Some(e) => Some(e.entry.output@),
        None => None,
    }
}

impl RustBreakCache {
    /// The entries stored.
    pub closed spec fn state_view(&self) -> Seq<(Seq<char>, StateEntry<CacheEntry>)> {
        self.state.entries_view()
    }

    /// The time to live.
    pub closed spec fn ttl_view(&self) -> Option<u64> {
        self.state.ttl_view()
    }

    /// An empty cache whose entries expire after `ttl` seconds.
    pub fn with_ttl(ttl: u64) -> (r: Self)
        ensures
            r.state_view().len() == 0,
            r.ttl_view() == Some(ttl),
    {
        RustBreakCache { state: AssociativeStateWithTTL::with_ttl(ttl) }
    }

    /// A cache over `state` (as read back from storage).
    pub fn from_state(state: AssociativeStateWithTTL<CacheEntry>) -> (r: Self)
        ensures
            r.state_view() == state.entries_view(),
            r.ttl_view() == state.ttl_view(),
    {
        RustBreakCache { state }
    }

    /// The entries, to be stored.
    pub fn into_state(self) -> (r: AssociativeStateWithTTL<CacheEntry>)
        ensures
            r.entries_view() == self.state_view(),
            r.ttl_view() == self.ttl_view(),
    {
        self.state
    }

    /// Copies of the entries stored, expired ones included.
    pub fn entries(&self) -> (r: Vec<CacheEntry>)
        ensures
            r@.len() == self.state_view().len(),
            forall|i: int|
                0 <= i < r@.len() ==> (#[trigger] r@[i]).command@ == self.state_view()[i].1.entry.command@
                    && r@[i].output@ == self.state_view()[i].1.entry.output@,
    {
        let all = self.state.entries();
        let mut out: Vec<CacheEntry> = Vec::new();
        let mut i: usize = 0;
        while i < all.len()
            invariant
                i <= all@.len(),
                all@.len() == self.state_view().len(),
                forall|j: int| 0 <= j < all@.len() ==> cloned(self.state_view()[j].1.entry, #[trigger] all@[j].1),
                out@.len() == i,
                forall|j: int|
                    0 <= j < i ==> (#[trigger] out@[j]).command@ == self.state_view()[j].1.entry.command@
                        && out@[j].output@ == self.state_view()[j].1.entry.output@,
            decreases all@.len() - i,
        {
            assert(cloned(self.state_view()[i as int].1.entry, all@[i as int].1));
            out.push(all[i].1.clone());
            i = i + 1;
        }
        out
    }

    /// Forgets the output of `key`; what it was, if it still counted at `now`.
    pub fn delete(&mut self, key: &str, now: u64) -> (r: Option<CacheEntry>)
        ensures
            final(self).state_view() == spec_remove_key(old(self).state_view(), key@),
            final(self).ttl_view() == old(self).ttl_view(),
            r == match spec_get(old(self).state_view(), key@, old(self).ttl_view(), now) {
                Some(e) => Some(e.entry),
                None => None::<CacheEntry>,
            },
    {
        self.state.delete(key, now)
    }

    /// Forgets every output.
    pub fn clear_cache(&mut self)
        ensures
            final(self).state_view().len() == 0,
            final(self).ttl_view() == old(self).ttl_view(),
    {
        let ttl = self.state.ttl();
        self.state = AssociativeStateWithTTL::from_entries(Vec::new(), ttl);
    }
}

impl VarsCache for RustBreakCache {
    open spec fn cached(&self, command: Seq<char>, now: u64) -> Option<Seq<char>> {
        spec_cached(self.state_view(), command, self.ttl_view(), now)
    }

    /// Remembers `output` for `command`; read back at `now`, it is `output` (unless a time to
    /// live of zero expires it at once).
    fn put(&mut self, command: &str, output: &str, now: u64)
        ensures
            final(self).ttl_view() == old(self).ttl_view(),
            spec_cached(final(self).state_view(), command@, old(self).ttl_view(), now) == if valid_at(
                old(self).ttl_view(),
                now,
                now,
            ) {
                Some(output@)
            } else {
                None::<Seq<char>>
            },
    {
        let entry = CacheEntry { command: command.to_owned(), output: output.to_owned() };
        let ghost e = entry;
        let ghost before = self.state.entries_view();
        self.state.put(command, entry, now);
        proof {
            lemma_get_after_put(before, command@, e, self.state.ttl_view(), now);
        }
    }

    /// The output remembered for `command`, if it still counts at `now`.
    fn get(&self, command: &str, now: u64) -> (r: Option<String>)
        ensures
            match r {
                Some(o) => spec_cached(self.state_view(), command@, self.ttl_view(), now) == Some(o@),
                None => spec_cached(self.state_view(), command@, self.ttl_view(), now) is None,
            },
    {
        match self.state.get(command, now) {
            Some(e) => Some(e.output),
            None => None,
        }
    }
}

/// A cache that remembers nothing.
pub struct NoopVarsCache;

impl VarsCache for NoopVarsCache {
    open spec fn cached(&self, command: Seq<char>, now: u64) -> Option<Seq<char>> {
        None
    }

    fn put(&mut self, _command: &str, _output: &str, _now: u64) {
    }

    fn get(&self, _command: &str, _now: u64) -> (r: Option<String>)
        ensures
            r is None,
    {
        None
    }
}

} // verus!

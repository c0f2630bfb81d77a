//! A store of values by key, each stamped with the time it was written; with a time to live,
//! an entry older than the time to live no longer counts.
use vstd::prelude::*;
use crate::text::str_eq;

verus! {

/// A stored value and the time (in seconds) it was written.
#[derive(Debug)]
pub struct StateEntry<V> {
    pub entry: V,
    pub when: u64,
}

impl<V> StateEntry<V> {
    /// `value`, written at `now`.
    pub fn new(value: V, now: u64) -> (r: StateEntry<V>)
        ensures
            r.entry == value,
            r.when == now,
    {
        StateEntry { entry: value, when: now }
    }
}

/// An entry written at `when` still counts at `now`: always without a time to live, else
/// while `when + ttl` is later than `now`.
pub open spec fn valid_at(ttl: Option<u64>, when: u64, now: u64) -> bool {
    match ttl {
        Some(t) => when + t > now,
        None => true,
    }
}

/// The stored entries with their keys as text.
pub open spec fn state_view<V>(s: Seq<(String, StateEntry<V>)>) -> Seq<(Seq<char>, StateEntry<V>)> {
    s.map_values(|e: (String, StateEntry<V>)| (e.0@, e.1))
}

/// `s` without the entries under `key` and without those that no longer count at `now`.
pub open spec fn spec_purge<V>(
    s: Seq<(Seq<char>, StateEntry<V>)>,
    key: Seq<char>,
    ttl: Option<u64>,
    now: u64,
) -> Seq<(Seq<char>, StateEntry<V>)>
    decreases s.len(),
{
    if s.len() == 0 {
        s
    } else {
        let rest = spec_purge(s.drop_last(), key, ttl, now);
        if s.last().0 != key && valid_at(ttl, s.last().1.when, now) {
            rest.push(s.last())
        } else {
            rest
        }
    }
}

/// `s` without the entries under `key`.
pub open spec fn spec_remove_key<V>(s: Seq<(Seq<char>, StateEntry<V>)>, key: Seq<char>) -> Seq<
    (Seq<char>, StateEntry<V>),
>
    decreases s.len(),
{
    if s.len() == 0 {
        s
    } else {
        let rest = spec_remove_key(s.drop_last(), key);
        if s.last().0 != key {
            rest.push(s.last())
        } else {
            rest
        }
    }
}

/// The entry stored last under `key`, if any.
pub open spec fn spec_lookup<V>(s: Seq<(Seq<char>, StateEntry<V>)>, key: Seq<char>) -> Option<
    StateEntry<V>,
>
    decreases s.len(),
{
    if s.len() == 0 {
        None
    } else if s.last().0 == key {
        Some(s.last().1)
    } else {
        spec_lookup(s.drop_last(), key)
    }
}

/// The entry under `key` that counts at `now`, if any.
pub open spec fn spec_get<V>(
    s: Seq<(Seq<char>, StateEntry<V>)>,
    key: Seq<char>,
    ttl: Option<u64>,
    now: u64,
) -> Option<StateEntry<V>> {
    match spec_lookup(s, key) {
        Some(e) => if valid_at(ttl, e.when, now) {
            Some(e)
        } else {
            None
        },
        None => None,
    }
}

/// A store of values by key with an optional time to live (in seconds).
#[derive(Debug)]
pub struct AssociativeStateWithTTL<V> {
    entries: Vec<(String, StateEntry<V>)>,
    ttl: Option<u64>,
}

impl<V> AssociativeStateWithTTL<V> {
    /// The entries held, in the order they were written.
    pub closed spec fn entries_view(&self) -> Seq<(Seq<char>, StateEntry<V>)> {
        state_view(self.entries@)
    }

    /// The time to live.
    pub closed spec fn ttl_view(&self) -> Option<u64> {
        self.ttl
    }

    /// An empty store whose entries never expire.
    pub fn new() -> (r: Self)
        ensures
            r.entries_view().len() == 0,
            r.ttl_view() is None,
    {
        AssociativeStateWithTTL { entries: Vec::new(), ttl: None }
    }

    /// An empty store whose entries expire `ttl` seconds after they are written.
    pub fn with_ttl(ttl: u64) -> (r: Self)
        ensures
            r.entries_view().len() == 0,
            r.ttl_view() == Some(ttl),
    {
        AssociativeStateWithTTL { entries: Vec::new(), ttl: Some(ttl) }
    }

    /// A store holding `entries` (as read back from storage).
    pub fn from_entries(entries: Vec<(String, StateEntry<V>)>, ttl: Option<u64>) -> (r: Self)
        ensures
            r.entries_view() == state_view(entries@),
            r.ttl_view() == ttl,
    {
        AssociativeStateWithTTL { entries, ttl }
    }

    /// The entries held, to be stored.
    pub fn into_vec(self) -> (r: Vec<(String, StateEntry<V>)>)
        ensures
            state_view(r@) == self.entries_view(),
    {
        self.entries
    }

    /// The time to live.
    pub fn ttl(&self) -> (r: Option<u64>)
        ensures
            r == self.ttl_view(),
    {
        self.ttl
    }

    /// Whether an entry written at `when` still counts at `now`.
    pub fn is_value_valid(&self, when: u64, now: u64) -> (r: bool)
        ensures
            r == valid_at(self.ttl_view(), when, now),
    {
        match self.ttl {
            Some(t) => if when > u64::MAX - t {
                true
            } else {
                when + t > now
            },
            None => true,
        }
    }

    /// Stores `value` under `key` at `now`: the entry replaces those under `key`, and the
    /// entries that no longer count at `now` are dropped (the new one too, when the time to
    /// live is zero).
    pub fn put(&mut self, key: &str, value: V, now: u64)
        ensures
            final(self).ttl_view() == old(self).ttl_view(),
            final(self).entries_view() == spec_purge(
                old(self).entries_view(),
                key@,
                old(self).ttl_view(),
                now,
            ) + if valid_at(old(self).ttl_view(), now, now) {
                seq![(key@, StateEntry { entry: value, when: now })]
            } else {
                Seq::empty()
            },
            unique_keys(old(self).entries_view()) ==> unique_keys(final(self).entries_view()),
            unique_keys(old(self).entries_view()) ==> forall|other: Seq<char>|
                other != key@ ==> #[trigger] spec_get(final(self).entries_view(), other, old(self).ttl_view(), now)
                    == spec_get(old(self).entries_view(), other, old(self).ttl_view(), now),
    {
        let ghost orig = self.entries_view();
        let ghost gv = value;
        let mut rest: Vec<(String, StateEntry<V>)> = Vec::new();
        std::mem::swap(&mut rest, &mut self.entries);
        let n: usize = rest.len();
        assert(state_view(rest@) == orig);
        let mut consumed: usize = 0;
        while rest.len() > 0
            invariant
                consumed + rest@.len() == n,
                n == orig.len(),
                state_view(rest@) == orig.subrange(consumed as int, n as int),
                state_view(self.entries@) == spec_purge(
                    orig.subrange(0, consumed as int),
                    key@,
                    self.ttl,
                    now,
                ),
                self.ttl == old(self).ttl_view(),
            decreases rest@.len(),
        {
            let ghost rv = rest@;
            let e = rest.remove(0);
            proof {
                assert(state_view(rv)[0] == orig[consumed as int]);
                assert(rv[0] == e);
                assert(rest@ =~= rv.subrange(1, rv.len() as int));
                assert(state_view(rest@) =~= state_view(rv).subrange(1, rv.len() as int));
                assert(orig.subrange(0, consumed + 1).drop_last() =~= orig.subrange(
                    0,
                    consumed as int,
                ));
                assert(orig.subrange(0, consumed + 1).last() == (e.0@, e.1));
                assert(state_view(rest@) =~= orig.subrange(consumed + 1, n as int));
            }
            let same = str_eq(e.0.as_str(), key);
            let valid = self.is_value_valid(e.1.when, now);
            if !same && valid {
                let ghost before = self.entries@;
                self.entries.push(e);
                assert(state_view(self.entries@) =~= state_view(before).push((e.0@, e.1)));
            }
            consumed = consumed + 1;
        }
        assert(orig.subrange(0, n as int) =~= orig);
        if self.is_value_valid(now, now) {
            let ghost before = self.entries@;
            let k = key.to_owned();
            self.entries.push((k, StateEntry::new(value, now)));
            assert(state_view(self.entries@) =~= state_view(before) + seq![
                (key@, StateEntry { entry: value, when: now }),
            ]);
        } else {
            assert(state_view(self.entries@) =~= state_view(self.entries@) + Seq::empty());
        }
        proof {
            assert(self.entries_view() == spec_put(orig, key@, gv, self.ttl, now));
            if unique_keys(orig) {
                lemma_put_keeps_others(orig, key@, gv, self.ttl, now);
            }
        }
    }

    /// Removes the entries under `key`; the value stored last under it, if it still counts at
    /// `now`.
    pub fn delete(&mut self, key: &str, now: u64) -> (r: Option<V>)
        ensures
            final(self).ttl_view() == old(self).ttl_view(),
            final(self).entries_view() == spec_remove_key(old(self).entries_view(), key@),
            r == match spec_get(old(self).entries_view(), key@, old(self).ttl_view(), now) {
                Some(e) => Some(e.entry),
                None => None::<V>,
            },
    {
        let ghost orig = self.entries_view();
        let mut rest: Vec<(String, StateEntry<V>)> = Vec::new();
        std::mem::swap(&mut rest, &mut self.entries);
        let n: usize = rest.len();
        let mut found: Option<StateEntry<V>> = None;
        let mut consumed: usize = 0;
        while rest.len() > 0
            invariant
                consumed + rest@.len() == n,
                n == orig.len(),
                state_view(rest@) == orig.subrange(consumed as int, n as int),
                state_view(self.entries@) == spec_remove_key(orig.subrange(0, consumed as int), key@),
                found == spec_lookup(orig.subrange(0, consumed as int), key@),
                self.ttl == old(self).ttl_view(),
            decreases rest@.len(),
        {
            let ghost rv = rest@;
            let e = rest.remove(0);
            proof {
                assert(state_view(rv)[0] == orig[consumed as int]);
                assert(rv[0] == e);
                assert(rest@ =~= rv.subrange(1, rv.len() as int));
                assert(state_view(rest@) =~= state_view(rv).subrange(1, rv.len() as int));
                assert(orig.subrange(0, consumed + 1).drop_last() =~= orig.subrange(
                    0,
                    consumed as int,
                ));
                assert(orig.subrange(0, consumed + 1).last() == (e.0@, e.1));
                assert(state_view(rest@) =~= orig.subrange(consumed + 1, n as int));
            }
            let same = str_eq(e.0.as_str(), key);
            if same {
                found = Some(e.1);
            } else {
                let ghost before = self.entries@;
                self.entries.push(e);
                assert(state_view(self.entries@) =~= state_view(before).push((e.0@, e.1)));
            }
            consumed = consumed + 1;
        }
        assert(orig.subrange(0, n as int) =~= orig);
        match found {
            Some(e) => {
                if self.is_value_valid(e.when, now) {
                    Some(e.entry)
                } else {
                    None
                }
            },
            None => None,
        }
    }
}

impl<V: Clone> AssociativeStateWithTTL<V> {
    /// A copy of the value stored last under `key`, if it still counts at `now`.
    pub fn get(&self, key: &str, now: u64) -> (r: Option<V>)
        ensures
            match spec_get(self.entries_view(), key@, self.ttl_view(), now) {
                Some(e) => r matches Some(v) && cloned(e.entry, v),
                None => r is None,
            },
    {
        let ghost s = self.entries_view();
        let mut i: usize = self.entries.len();
        assert(s.subrange(0, i as int) =~= s);
        while i > 0
            invariant
                i <= self.entries@.len(),
                s == state_view(self.entries@),
                spec_lookup(s, key@) == spec_lookup(s.subrange(0, i as int), key@),
            decreases i,
        {
            proof {
                assert(s.subrange(0, i as int).drop_last() =~= s.subrange(0, i - 1));
            }
            if str_eq(self.entries[i - 1].0.as_str(), key) {
                let e = &self.entries[i - 1].1;
                if self.is_value_valid(e.when, now) {
                    return Some(e.entry.clone());
                } else {
                    return None;
                }
            }
            i = i - 1;
        }
        None
    }

    /// Copies of every entry held, with its key, expired ones included.
    pub fn entries(&self) -> (r: Vec<(String, V)>)
        ensures
            r@.len() == self.entries_view().len(),
            forall|i: int|
                0 <= i < r@.len() ==> (#[trigger] r@[i]).0@ == self.entries_view()[i].0 && cloned(
                    self.entries_view()[i].1.entry,
                    r@[i].1,
                ),
    {
        let mut out: Vec<(String, V)> = Vec::new();
        let mut i: usize = 0;
        while i < self.entries.len()
            invariant
                i <= self.entries@.len(),
                out@.len() == i,
                forall|j: int|
                    0 <= j < i ==> (#[trigger] out@[j]).0@ == self.entries@[j].0@ && cloned(
                        self.entries@[j].1.entry,
                        out@[j].1,
                    ),
            decreases self.entries@.len() - i,
        {
            let k = self.entries[i].0.clone();
            let v = self.entries[i].1.entry.clone();
            out.push((k, v));
            i = i + 1;
        }
        out
    }
}

/// What is written is read back: right after `value` is stored under `key` at `now`, a read
/// of `key` at `now` gives `value`, unless a time to live of zero expires it at once.
pub proof fn lemma_get_after_put<V>(
    before: Seq<(Seq<char>, StateEntry<V>)>,
    key: Seq<char>,
    value: V,
    ttl: Option<u64>,
    now: u64,
)
    ensures
        ({
            let after = spec_purge(before, key, ttl, now) + if valid_at(ttl, now, now) {
                seq![(key, StateEntry { entry: value, when: now })]
            } else {
                Seq::empty()
            };
            spec_get(after, key, ttl, now) == if valid_at(ttl, now, now) {
                Some(StateEntry { entry: value, when: now })
            } else {
                None
            }
        }),
{
    let p = spec_purge(before, key, ttl, now);
    lemma_purge_drops_key(before, key, ttl, now);
    if valid_at(ttl, now, now) {
        let after = p + seq![(key, StateEntry { entry: value, when: now })];
        assert(after.drop_last() =~= p);
    } else {
        assert(p + Seq::<(Seq<char>, StateEntry<V>)>::empty() =~= p);
    }
}

/// Nothing is stored under `key` after a purge of `key`.
pub proof fn lemma_purge_drops_key<V>(
    s: Seq<(Seq<char>, StateEntry<V>)>,
    key: Seq<char>,
    ttl: Option<u64>,
    now: u64,
)
    ensures
        spec_lookup(spec_purge(s, key, ttl, now), key) is None,
    decreases s.len(),
{
    if s.len() > 0 {
        lemma_purge_drops_key(s.drop_last(), key, ttl, now);
        let rest = spec_purge(s.drop_last(), key, ttl, now);
        if s.last().0 != key && valid_at(ttl, s.last().1.when, now) {
            assert(rest.push(s.last()).drop_last() =~= rest);
        }
    }
}

/// A deleted key is gone: after its entries are removed, a read of `key` finds nothing.
pub proof fn lemma_get_after_delete<V>(
    s: Seq<(Seq<char>, StateEntry<V>)>,
    key: Seq<char>,
    ttl: Option<u64>,
    now: u64,
)
    ensures
        spec_get(spec_remove_key(s, key), key, ttl, now) is None,
    decreases s.len(),
{
    if s.len() > 0 {
        lemma_get_after_delete(s.drop_last(), key, ttl, now);
        let rest = spec_remove_key(s.drop_last(), key);
        if s.last().0 != key {
            assert(rest.push(s.last()).drop_last() =~= rest);
        }
    }
}

/// A purge of `key` keeps what another key reads: the entry it found, when that entry still
/// counts at `now`, or nothing.
pub proof fn lemma_purge_keeps_other<V>(
    s: Seq<(Seq<char>, StateEntry<V>)>,
    key: Seq<char>,
    ttl: Option<u64>,
    now: u64,
    other: Seq<char>,
)
    requires
        other != key,
        match spec_lookup(s, other) {
            Some(e) => valid_at(ttl, e.when, now),
            None => true,
        },
    ensures
        spec_lookup(spec_purge(s, key, ttl, now), other) == spec_lookup(s, other),
    decreases s.len(),
{
    if s.len() > 0 {
        let rest = spec_purge(s.drop_last(), key, ttl, now);
        if s.last().0 == other {
            assert(rest.push(s.last()).last() == s.last());
        } else {
            lemma_purge_keeps_other(s.drop_last(), key, ttl, now, other);
            if s.last().0 != key && valid_at(ttl, s.last().1.when, now) {
                assert(rest.push(s.last()).drop_last() =~= rest);
            }
        }
    }
}

/// No key is stored twice in `s`.
pub open spec fn unique_keys<V>(s: Seq<(Seq<char>, StateEntry<V>)>) -> bool
    decreases s.len(),
{
    s.len() == 0 || (unique_keys(s.drop_last()) && spec_lookup(s.drop_last(), s.last().0) is None)
}

/// A purge only keeps entries that were there.
pub proof fn lemma_purge_lookup<V>(
    s: Seq<(Seq<char>, StateEntry<V>)>,
    key: Seq<char>,
    ttl: Option<u64>,
    now: u64,
    k: Seq<char>,
)
    ensures
        spec_lookup(spec_purge(s, key, ttl, now), k) is Some ==> spec_lookup(s, k) is Some,
    decreases s.len(),
{
    if s.len() > 0 {
        lemma_purge_lookup(s.drop_last(), key, ttl, now, k);
        let rest = spec_purge(s.drop_last(), key, ttl, now);
        if s.last().0 != key && valid_at(ttl, s.last().1.when, now) {
            assert(rest.push(s.last()).drop_last() =~= rest);
        }
    }
}

/// A purge of a store that holds each key once holds each key once.
pub proof fn lemma_purge_unique<V>(s: Seq<(Seq<char>, StateEntry<V>)>, key: Seq<char>, ttl: Option<u64>, now: u64)
    requires
        unique_keys(s),
    ensures
        unique_keys(spec_purge(s, key, ttl, now)),
    decreases s.len(),
{
    if s.len() > 0 {
        lemma_purge_unique(s.drop_last(), key, ttl, now);
        lemma_purge_lookup(s.drop_last(), key, ttl, now, s.last().0);
        let rest = spec_purge(s.drop_last(), key, ttl, now);
        if s.last().0 != key && valid_at(ttl, s.last().1.when, now) {
            assert(rest.push(s.last()).drop_last() =~= rest);
        }
    }
}

/// In a store that holds each key once, a purge of `key` keeps what every other key reads.
pub proof fn lemma_purge_keeps_get<V>(
    s: Seq<(Seq<char>, StateEntry<V>)>,
    key: Seq<char>,
    ttl: Option<u64>,
    now: u64,
    other: Seq<char>,
)
    requires
        unique_keys(s),
        other != key,
    ensures
        spec_get(spec_purge(s, key, ttl, now), other, ttl, now) == spec_get(s, other, ttl, now),
    decreases s.len(),
{
    if s.len() > 0 {
        let d = s.drop_last();
        let rest = spec_purge(d, key, ttl, now);
        lemma_purge_keeps_get(d, key, ttl, now, other);
        if s.last().0 != key && valid_at(ttl, s.last().1.when, now) {
            assert(rest.push(s.last()).drop_last() =~= rest);
        }
        if s.last().0 == other {
            lemma_purge_lookup(d, key, ttl, now, other);
        }
    }
}

/// The entries after `value` is stored under `key` at `now`.
pub open spec fn spec_put<V>(
    s: Seq<(Seq<char>, StateEntry<V>)>,
    key: Seq<char>,
    value: V,
    ttl: Option<u64>,
    now: u64,
) -> Seq<(Seq<char>, StateEntry<V>)> {
    spec_purge(s, key, ttl, now) + if valid_at(ttl, now, now) {
        seq![(key, StateEntry { entry: value, when: now })]
    } else {
        Seq::empty()
    }
}

/// Storing under one key in a store that holds each key once: each key is still held once,
/// and every other key reads at `now` what it read before.
pub proof fn lemma_put_keeps_others<V>(
    before: Seq<(Seq<char>, StateEntry<V>)>,
    key: Seq<char>,
    value: V,
    ttl: Option<u64>,
    now: u64,
)
    requires
        unique_keys(before),
    ensures
        unique_keys(spec_put(before, key, value, ttl, now)),
        forall|other: Seq<char>|
            other != key ==> #[trigger] spec_get(spec_put(before, key, value, ttl, now), other, ttl, now)
                == spec_get(before, other, ttl, now),
{
    let p = spec_purge(before, key, ttl, now);
    lemma_purge_unique(before, key, ttl, now);
    lemma_purge_drops_key(before, key, ttl, now);
    let after = p + if valid_at(ttl, now, now) {
        seq![(key, StateEntry { entry: value, when: now })]
    } else {
        Seq::empty()
    };
    if valid_at(ttl, now, now) {
        assert(after.drop_last() =~= p);
    } else {
        assert(after =~= p);
    }
    assert(after == spec_put(before, key, value, ttl, now));
    assert forall|other: Seq<char>| other != key implies #[trigger] spec_get(
        spec_put(before, key, value, ttl, now),
        other,
        ttl,
        now,
    ) == spec_get(before, other, ttl, now) by {
        lemma_purge_keeps_get(before, key, ttl, now, other);
    }
}

} // verus!

//! A list of values in the order they were pushed, optionally bounded: past the bound, the
//! oldest value is dropped.
use vstd::prelude::*;

verus! {

/// Values in the order they were pushed, with an optional bound on their number.
#[derive(Debug)]
pub struct SequentialState<V> {
    entries: Vec<V>,
    max_size: Option<usize>,
}

/// `s` with `entry` pushed, then its first value dropped when it holds more than `max`.
pub open spec fn spec_push<V>(s: Seq<V>, entry: V, max: Option<usize>) -> Seq<V> {
    let pushed = s.push(entry);
    match max {
        Some(m) => if pushed.len() > m {
            pushed.drop_first()
        } else {
            pushed
        },
        None => pushed,
    }
}

impl<V> SequentialState<V> {
    /// The values held, oldest first.
    pub closed spec fn entries_view(&self) -> Seq<V> {
        self.entries@
    }

    /// The bound on the number of values.
    pub closed spec fn max_view(&self) -> Option<usize> {
        self.max_size
    }

    /// An empty state bounded by `max_size`, if given.
    pub fn new(max_size: Option<usize>) -> (r: Self)
        ensures
            r.entries_view().len() == 0,
            r.max_view() == max_size,
    {
        SequentialState { entries: Vec::new(), max_size }
    }

    /// A state holding `entries` (as read back from storage).
    pub fn from_entries(entries: Vec<V>, max_size: Option<usize>) -> (r: Self)
        ensures
            r.entries_view() == entries@,
            r.max_view() == max_size,
    {
        SequentialState { entries, max_size }
    }

    /// The bound on the number of values.
    pub fn max_size(&self) -> (r: Option<usize>)
        ensures
            r == self.max_view(),
    {
        self.max_size
    }

    /// Pushes `entry` last; past the bound, the first value is dropped.
    pub fn push(&mut self, entry: V)
        ensures
            final(self).entries_view() == spec_push(old(self).entries_view(), entry, old(self).max_view()),
            final(self).max_view() == old(self).max_view(),
    {
        self.entries.push(entry);
        match self.max_size {
            Some(m) => {
                if self.entries.len() > m {
                    let _dropped = self.entries.remove(0);
                    assert(self.entries@ =~= old(self).entries@.push(entry).drop_first());
                }
            },
            None => {},
        }
    }

    /// Removes the value at `position`.
    pub fn delete(&mut self, position: usize)
        requires
            position < old(self).entries_view().len(),
        ensures
            final(self).entries_view() == old(self).entries_view().remove(position as int),
            final(self).max_view() == old(self).max_view(),
    {
        let _removed = self.entries.remove(position);
    }

    /// The values held, oldest first.
    pub fn as_slice(&self) -> (r: &[V])
        ensures
            r@ == self.entries_view(),
    {
        self.entries.as_slice()
    }
}

impl<V: Clone> SequentialState<V> {
    /// A copy of the most recent value, if any.
    pub fn last(&self) -> (r: Option<V>)
        ensures
            self.entries_view().len() == 0 ==> r is None,
            self.entries_view().len() > 0 ==> (r matches Some(v) && cloned(self.entries_view().last(), v)),
    {
        if self.entries.len() == 0 {
            None
        } else {
            Some(self.entries[self.entries.len() - 1].clone())
        }
    }

    /// A copy of the oldest value, if any.
    pub fn first(&self) -> (r: Option<V>)
        ensures
            self.entries_view().len() == 0 ==> r is None,
            self.entries_view().len() > 0 ==> (r matches Some(v) && cloned(self.entries_view()[0], v)),
    {
        if self.entries.len() == 0 {
            None
        } else {
            Some(self.entries[0].clone())
        }
    }

    /// Copies of the values held, oldest first.
    pub fn entries(&self) -> (r: Vec<V>)
        ensures
            r@.len() == self.entries_view().len(),
            forall|i: int| 0 <= i < r@.len() ==> cloned(self.entries_view()[i], #[trigger] r@[i]),
    {
        let mut out: Vec<V> = Vec::new();
        let mut i: usize = 0;
        while i < self.entries.len()
            invariant
                i <= self.entries@.len(),
                out@.len() == i,
                forall|j: int| 0 <= j < i ==> cloned(self.entries@[j], #[trigger] out@[j]),
            decreases self.entries@.len() - i,
        {
            out.push(self.entries[i].clone());
            i = i + 1;
        }
        out
    }
}

/// A bounded state stays within its bound, and the value pushed last is the most recent one
/// (unless the bound is zero, which keeps nothing).
pub proof fn lemma_push_within_bound<V>(s: Seq<V>, entry: V, m: usize)
    requires
        s.len() <= m,
    ensures
        spec_push(s, entry, Some(m)).len() <= m,
        spec_push(s, entry, Some(m)).len() > 0 ==> spec_push(s, entry, Some(m)).last() == entry,
{
}

} // verus!

//! The list of a selection view: values narrowed by a fuzzy filter, a highlighted line and
//! marks.
use vstd::prelude::*;
use vstd::utf8::encode_utf8;
use crate::text::{chars_of, string_of, push_char};

verus! {

/// A value shown in a selection list.
pub trait Value {
    /// The text the value is shown and filtered by.
    spec fn text_view(&self) -> Seq<char>;

    /// The text the value is shown and filtered by.
    fn text(&self) -> (r: &str)
        ensures
            r@ == self.text_view(),
    ;

    /// What is shown beside the list for this value.
    spec fn preview_view(&self) -> Seq<char>;

    /// What is shown beside the list for this value.
    fn preview(&self) -> (r: String)
        ensures
            r@ == self.preview_view(),
    ;

    /// What tells values apart: two values with equal keys are the same value.
    type Key;

    /// The key of the value.
    spec fn key(&self) -> Self::Key;

    /// Whether `other` is the same value as this one.
    fn same_value(&self, other: &Self) -> (r: bool)
        ensures
            r == (self.key() == other.key()),
    ;
}

/// `p` is a subsequence of `t`: its bytes occur in `t` in order, not necessarily together.
pub open spec fn is_subsequence(p: Seq<u8>, t: Seq<u8>) -> bool
    decreases t.len(),
{
    if p.len() == 0 {
        true
    } else if t.len() == 0 {
        false
    } else if p.last() == t.last() {
        is_subsequence(p.drop_last(), t.drop_last())
    } else {
        is_subsequence(p, t.drop_last())
    }
}

/// fzy's `has_match`: whether the bytes of `pat` occur in `text` in order. Its source walks
/// `text` once and advances through `pat` on each equal byte, which is the subsequence test.
#[verifier::external_body]
fn has_match(pat: &[u8], text: &[u8]) -> (r: bool)
    ensures
        r == is_subsequence(pat@, text@),
{
    fzy_rs::has_match(pat, text)
}

/// The filter typed in.
#[derive(Debug)]
pub struct ListFilter(String);

impl ListFilter {
    /// The text of the filter.
    pub closed spec fn view_text(&self) -> Seq<char> {
        self.0@
    }

    /// An empty filter.
    pub fn new() -> (r: ListFilter)
        ensures
            r.view_text().len() == 0,
    {
        ListFilter(String::new())
    }

    /// Appends `c`.
    pub fn push_back(&mut self, c: char)
        ensures
            final(self).view_text() == old(self).view_text().push(c),
    {
        push_char(&mut self.0, c);
    }

    /// Drops the last character, if any.
    pub fn pop(&mut self)
        ensures
            old(self).view_text().len() == 0 ==> final(self).view_text() == old(self).view_text(),
            old(self).view_text().len() > 0 ==> final(self).view_text() == old(self).view_text().drop_last(),
    {
        let mut cs = chars_of(self.0.as_str());
        if cs.len() > 0 {
            let _last = cs.pop();
            self.0 = string_of(cs.as_slice());
        }
    }

    /// The text of the filter.
    pub fn as_str(&self) -> (r: &str)
        ensures
            r@ == self.view_text(),
    {
        self.0.as_str()
    }

    /// The text of the filter, owned.
    pub fn take(self) -> (r: String)
        ensures
            r@ == self.view_text(),
    {
        self.0
    }
}

/// The positions (in order) of the texts that match `pat`: those whose UTF-8 bytes contain the
/// bytes of `pat` as a subsequence.
pub open spec fn spec_filtered(texts: Seq<Seq<char>>, pat: Seq<char>) -> Seq<usize>
    decreases texts.len(),
{
    if texts.len() == 0 {
        Seq::empty()
    } else {
        let rest = spec_filtered(texts.drop_last(), pat);
        if is_subsequence(encode_utf8(pat), encode_utf8(texts.last())) {
            rest.push((texts.len() - 1) as usize)
        } else {
            rest
        }
    }
}

/// The texts of `vs`.
pub open spec fn texts_of<V: Value>(vs: Seq<V>) -> Seq<Seq<char>> {
    vs.map_values(|v: V| v.text_view())
}

/// The line highlighted after the list shown changes to `n` lines: the same one if still in
/// range, else the first, or none when nothing is shown.
pub open spec fn spec_rehighlight(h: Option<usize>, n: nat) -> Option<usize> {
    match h {
        Some(c) => if c < n {
            Some(c)
        } else if n > 0 {
            Some(0)
        } else {
            None
        },
        None => if n > 0 {
            Some(0)
        } else {
            None
        },
    }
}

/// `m` with the mark of every value that is the same value as the one at `i` set to `b`.
pub open spec fn set_key_mark<V: Value>(vs: Seq<V>, m: Seq<bool>, i: int, b: bool) -> Seq<bool> {
    Seq::new(m.len(), |j: int| if vs[j].key() == vs[i].key() { b } else { m[j] })
}

/// The value at `j` is the same value as one shown (at a position of `d`).
pub open spec fn key_shown<V: Value>(vs: Seq<V>, d: Seq<usize>, j: int) -> bool {
    exists|k: int| 0 <= k < d.len() && #[trigger] vs[d[k] as int].key() == vs[j].key()
}

/// `m` with every value that is the same value as one shown marked.
pub open spec fn mark_shown<V: Value>(vs: Seq<V>, m: Seq<bool>, d: Seq<usize>) -> Seq<bool> {
    Seq::new(m.len(), |j: int| m[j] || key_shown(vs, d, j))
}

/// Marks belong to values, not to positions: the same value has one mark wherever it stands.
pub open spec fn marks_by_value<V: Value>(vs: Seq<V>, m: Seq<bool>) -> bool {
    forall|i: int, j: int|
        #![trigger m[i], m[j]]
        0 <= i < vs.len() && 0 <= j < vs.len() && vs[i].key() == vs[j].key() ==> m[i] == m[j]
}

/// `s` holds the same value as `v`.
pub open spec fn holds_value<V: Value>(s: Seq<V>, v: V) -> bool {
    exists|k: int| 0 <= k < s.len() && #[trigger] s[k].key() == v.key()
}

/// The marked values, each once, in the order they first stand.
pub open spec fn spec_marked<V: Value>(vs: Seq<V>, m: Seq<bool>) -> Seq<V>
    decreases vs.len(),
{
    if vs.len() == 0 || m.len() != vs.len() {
        Seq::empty()
    } else {
        let rest = spec_marked(vs.drop_last(), m.drop_last());
        if m.last() && !holds_value(rest, vs.last()) {
            rest.push(vs.last())
        } else {
            rest
        }
    }
}

/// The state of a selection list.
#[derive(Debug)]
pub struct ListState<V: Value> {
    filter_query: ListFilter,
    values: Vec<V>,
    marked: Vec<bool>,
    displayed: Vec<usize>,
    highlighted: Option<usize>,
}

impl<V: Value> ListState<V> {
    /// The list shows exactly the values that match the filter, the highlighted line is one
    /// of them, and there is one mark per value.
    pub closed spec fn wf(&self) -> bool {
        &&& self.marked@.len() == self.values@.len()
        &&& marks_by_value(self.values@, self.marked@)
        &&& self.values@.len() <= usize::MAX
        &&& self.displayed@ == spec_filtered(texts_of(self.values@), self.filter_query.view_text())
        &&& (self.highlighted matches Some(c) ==> c < self.displayed@.len())
        &&& (self.displayed@.len() > 0 ==> self.highlighted is Some)
    }

    /// A well-formed list shows exactly the values that match its filter, in order.
    pub proof fn lemma_shows_filtered(&self)
        requires
            self.wf(),
        ensures
            self.displayed_view() == spec_filtered(texts_of(self.values_view()), self.filter_view()),
            self.marked_view().len() == self.values_view().len(),
            marks_by_value(self.values_view(), self.marked_view()),
            self.highlighted_view() matches Some(c) ==> c < self.displayed_view().len(),
            self.displayed_view().len() > 0 ==> self.highlighted_view() is Some,
    {
    }

    /// All the values, in their order.
    pub closed spec fn values_view(&self) -> Seq<V> {
        self.values@
    }

    /// Whether the value at each position is marked.
    pub closed spec fn marked_view(&self) -> Seq<bool> {
        self.marked@
    }

    /// The positions of the values shown: those that match the filter.
    pub closed spec fn displayed_view(&self) -> Seq<usize> {
        self.displayed@
    }

    /// The highlighted line of the list shown.
    pub closed spec fn highlighted_view(&self) -> Option<usize> {
        self.highlighted
    }

    /// The filter typed in.
    pub closed spec fn filter_view(&self) -> Seq<char> {
        self.filter_query.view_text()
    }

    /// A list of `list`, none marked, all shown, the first highlighted.
    pub fn new(list: Vec<V>) -> (r: Self)
        ensures
            r.wf(),
            r.displayed_view() == spec_filtered(texts_of(r.values_view()), r.filter_view()),
            r.displayed_view() == Seq::new(list@.len(), |i: int| i as usize),
            r.values_view() == list@,
            r.marked_view() == Seq::new(list@.len(), |i: int| false),
            r.filter_view().len() == 0,
            r.highlighted_view() == if list@.len() > 0 {
                Some(0usize)
            } else {
                None
            },
    {
        let n = list.len();
        let mut marked: Vec<bool> = Vec::new();
        let mut i: usize = 0;
        while i < n
            invariant
                i <= n,
                marked@ == Seq::new(i as nat, |j: int| false),
            decreases n - i,
        {
            marked.push(false);
            i = i + 1;
        }
        let filter = ListFilter::new();
        let displayed = Self::filtered_positions(&list, &filter);
        let ghost texts = texts_of(list@);
        proof {
            lemma_empty_filter_all(texts);
            assert(filter.view_text() =~= Seq::<char>::empty());
        }
        let highlighted = if n > 0 {
            Some(0)
        } else {
            None
        };
        ListState { filter_query: filter, values: list, marked, displayed, highlighted }
    }

    /// The values shown, each with whether it is marked.
    pub fn displayed_values(&self) -> (r: Vec<(bool, &V)>)
        requires
            self.wf(),
        ensures
            r@.len() == self.displayed_view().len(),
            forall|i: int|
                0 <= i < r@.len() ==> (#[trigger] r@[i]).0 == self.marked_view()[self.displayed_view()[i] as int]
                    && *r@[i].1 == self.values_view()[self.displayed_view()[i] as int],
    {
        proof {
            lemma_filtered_bounds(texts_of(self.values@), self.filter_query.view_text());
        }
        let mut out: Vec<(bool, &V)> = Vec::new();
        let mut i: usize = 0;
        while i < self.displayed.len()
            invariant
                i <= self.displayed@.len(),
                out@.len() == i,
                forall|j: int| 0 <= j < self.displayed@.len() ==> self.displayed@[j] < self.values@.len(),
                self.marked@.len() == self.values@.len(),
                forall|j: int|
                    0 <= j < i ==> (#[trigger] out@[j]).0 == self.marked@[self.displayed@[j] as int]
                        && *out@[j].1 == self.values@[self.displayed@[j] as int],
            decreases self.displayed@.len() - i,
        {
            let idx = self.displayed[i];
            out.push((self.marked[idx], &self.values[idx]));
            i = i + 1;
        }
        out
    }

    /// Moves the highlight one line up, if it can.
    pub fn up(&mut self)
        requires
            old(self).wf(),
        ensures
            final(self).wf(),
            final(self).displayed_view() == spec_filtered(texts_of(final(self).values_view()), final(self).filter_view()),
            final(self).highlighted_view() == match old(self).highlighted_view() {
                Some(c) => Some(if c > 0 { (c - 1) as usize } else { c }),
                None => None,
            },
            final(self).values_view() == old(self).values_view(),
            final(self).marked_view() == old(self).marked_view(),
            final(self).filter_view() == old(self).filter_view(),
    {
        self.highlighted = match self.highlighted {
            Some(c) => Some(if c > 0 { c - 1 } else { c }),
            None => None,
        };
    }

    /// Moves the highlight one line down, if it can.
    pub fn down(&mut self)
        requires
            old(self).wf(),
        ensures
            final(self).wf(),
            final(self).displayed_view() == spec_filtered(texts_of(final(self).values_view()), final(self).filter_view()),
            final(self).highlighted_view() == match old(self).highlighted_view() {
                Some(c) => Some(if c + 1 < old(self).displayed_view().len() { (c + 1) as usize } else { c }),
                None => None,
            },
            final(self).values_view() == old(self).values_view(),
            final(self).marked_view() == old(self).marked_view(),
            final(self).filter_view() == old(self).filter_view(),
    {
        let n = self.displayed.len();
        self.highlighted = match self.highlighted {
            Some(c) => Some(if c < n - 1 { c + 1 } else { c }),
            None => None,
        };
    }

    /// Sets to `b` the mark of every value that is the same value as the one at `i`.
    fn set_value_mark(&mut self, i: usize, b: bool)
        requires
            i < old(self).values@.len(),
            old(self).marked@.len() == old(self).values@.len(),
        ensures
            final(self).marked@ == set_key_mark(old(self).values@, old(self).marked@, i as int, b),
            final(self).values@ == old(self).values@,
            final(self).filter_query == old(self).filter_query,
            final(self).displayed@ == old(self).displayed@,
            final(self).highlighted == old(self).highlighted,
    {
        let ghost m0 = self.marked@;
        let ghost vs = self.values@;
        let n = self.values.len();
        let mut j: usize = 0;
        while j < n
            invariant
                n == vs.len(),
                i < n,
                j <= n,
                vs == self.values@,
                self.filter_query == old(self).filter_query,
                self.displayed@ == old(self).displayed@,
                self.highlighted == old(self).highlighted,
                self.marked@.len() == n,
                m0.len() == n,
                forall|t: int| 0 <= t < j ==> self.marked@[t] == if vs[t].key() == vs[i as int].key() {
                    b
                } else {
                    m0[t]
                },
                forall|t: int| j <= t < n ==> self.marked@[t] == m0[t],
            decreases n - j,
        {
            if self.values[j].same_value(&self.values[i]) {
                self.marked.set(j, b);
            }
            j = j + 1;
        }
        assert(self.marked@ =~= set_key_mark(vs, m0, i as int, b));
    }

    /// Toggles the mark of the highlighted value, wherever that value stands; its new mark, or
    /// `None` when nothing is highlighted.
    pub fn mark(&mut self) -> (r: Option<bool>)
        requires
            old(self).wf(),
        ensures
            final(self).wf(),
            final(self).displayed_view() == spec_filtered(texts_of(final(self).values_view()), final(self).filter_view()),
            final(self).values_view() == old(self).values_view(),
            final(self).filter_view() == old(self).filter_view(),
            final(self).highlighted_view() == old(self).highlighted_view(),
            match old(self).highlighted_view() {
                Some(c) => {
                    let i = old(self).displayed_view()[c as int] as int;
                    &&& r == Some(!old(self).marked_view()[i])
                    &&& final(self).marked_view() == set_key_mark(
                        old(self).values_view(),
                        old(self).marked_view(),
                        i,
                        !old(self).marked_view()[i],
                    )
                },
                None => r is None && final(self).marked_view() == old(self).marked_view(),
            },
    {
        proof {
            lemma_filtered_bounds(texts_of(self.values@), self.filter_query.view_text());
        }
        match self.highlighted {
            Some(c) => {
                let i = self.displayed[c];
                let now = !self.marked[i];
                self.set_value_mark(i, now);
                Some(now)
            },
            None => None,
        }
    }

    /// Marks every value shown, wherever it stands.
    pub fn mark_all(&mut self)
        requires
            old(self).wf(),
        ensures
            final(self).wf(),
            final(self).displayed_view() == spec_filtered(texts_of(final(self).values_view()), final(self).filter_view()),
            final(self).values_view() == old(self).values_view(),
            final(self).filter_view() == old(self).filter_view(),
            final(self).highlighted_view() == old(self).highlighted_view(),
            final(self).marked_view() == mark_shown(
                old(self).values_view(),
                old(self).marked_view(),
                old(self).displayed_view(),
            ),
    {
        proof {
            lemma_filtered_bounds(texts_of(self.values@), self.filter_query.view_text());
        }
        let ghost m0 = self.marked@;
        let ghost d = self.displayed@;
        let ghost vs = self.values@;
        let n = self.values.len();
        let mut j: usize = 0;
        while j < n
            invariant
                n == vs.len(),
                j <= n,
                vs == self.values@,
                d == self.displayed@,
                self.filter_query == old(self).filter_query,
                self.highlighted == old(self).highlighted,
                self.values@ == old(self).values@,
                d == old(self).displayed@,
                self.marked@.len() == n,
                m0.len() == n,
                forall|t: int| 0 <= t < d.len() ==> d[t] < n,
                forall|t: int| #![trigger self.marked@[t]] 0 <= t < j ==> self.marked@[t] == (m0[t] || key_shown(vs, d, t)),
                forall|t: int| #![trigger self.marked@[t]] j <= t < n ==> self.marked@[t] == m0[t],
            decreases n - j,
        {
            let mut hit = false;
            let mut k: usize = 0;
            let ghost mj = self.marked@;
            while k < self.displayed.len()
                invariant
                    self.marked@ == mj,
                    k <= d.len(),
                    j < n,
                    n == vs.len(),
                    vs == self.values@,
                    d == self.displayed@,
                    forall|t: int| 0 <= t < d.len() ==> d[t] < n,
                    hit == exists|t: int| 0 <= t < k && #[trigger] vs[d[t] as int].key() == vs[j as int].key(),
                decreases d.len() - k,
            {
                if self.values[self.displayed[k]].same_value(&self.values[j]) {
                    hit = true;
                }
                k = k + 1;
            }
            assert(hit == key_shown(vs, d, j as int));
            if hit {
                self.marked.set(j, true);
            }
            j = j + 1;
        }
        assert(self.marked@ =~= mark_shown(vs, m0, d));
        proof {
            assert forall|a: int, b: int|
                #![trigger self.marked@[a], self.marked@[b]]
                0 <= a < vs.len() && 0 <= b < vs.len() && vs[a].key() == vs[b].key() implies self.marked@[a]
                == self.marked@[b] by {
                assert(m0[a] == m0[b]);
                if key_shown(vs, d, a) {
                    let k = choose|k: int| 0 <= k < d.len() && #[trigger] vs[d[k] as int].key() == vs[a].key();
                    assert(vs[d[k] as int].key() == vs[b].key());
                }
                if key_shown(vs, d, b) {
                    let k = choose|k: int| 0 <= k < d.len() && #[trigger] vs[d[k] as int].key() == vs[b].key();
                    assert(vs[d[k] as int].key() == vs[a].key());
                }
            }
        }
    }

    /// Marks the highlighted value, wherever it stands; `Some(true)` if it was not marked,
    /// `Some(false)` if it already was, `None` when nothing is highlighted.
    pub fn entr(&mut self) -> (r: Option<bool>)
        requires
            old(self).wf(),
        ensures
            final(self).wf(),
            final(self).displayed_view() == spec_filtered(texts_of(final(self).values_view()), final(self).filter_view()),
            final(self).values_view() == old(self).values_view(),
            final(self).filter_view() == old(self).filter_view(),
            final(self).highlighted_view() == old(self).highlighted_view(),
            match old(self).highlighted_view() {
                Some(c) => {
                    let i = old(self).displayed_view()[c as int] as int;
                    &&& r == Some(!old(self).marked_view()[i])
                    &&& final(self).marked_view() == set_key_mark(
                        old(self).values_view(),
                        old(self).marked_view(),
                        i,
                        true,
                    )
                },
                None => r is None && final(self).marked_view() == old(self).marked_view(),
            },
    {
        proof {
            lemma_filtered_bounds(texts_of(self.values@), self.filter_query.view_text());
        }
        match self.highlighted {
            Some(c) => {
                let i = self.displayed[c];
                if self.marked[i] {
                    assert forall|t: int| 0 <= t < self.marked@.len() implies self.marked@[t]
                        == set_key_mark(self.values@, self.marked@, i as int, true)[t] by {
                        if self.values@[t].key() == self.values@[i as int].key() {
                            assert(self.marked@[t] == self.marked@[i as int]);
                        }
                    }
                    assert(self.marked@ =~= set_key_mark(self.values@, self.marked@, i as int, true));
                    Some(false)
                } else {
                    self.set_value_mark(i, true);
                    Some(true)
                }
            },
            None => None,
        }
    }

    /// The positions of the values of `list` that match `filter`.
    fn filtered_positions(list: &Vec<V>, filter: &ListFilter) -> (r: Vec<usize>)
        ensures
            r@ == spec_filtered(texts_of(list@), filter.view_text()),
    {
        let pat = filter.as_str().as_bytes();
        let ghost texts = texts_of(list@);
        let mut out: Vec<usize> = Vec::new();
        let mut i: usize = 0;
        while i < list.len()
            invariant
                i <= list@.len(),
                texts == texts_of(list@),
                pat@ == encode_utf8(filter.view_text()),
                out@ == spec_filtered(texts.subrange(0, i as int), filter.view_text()),
            decreases list@.len() - i,
        {
            let t = list[i].text().as_bytes();
            proof {
                assert(texts.subrange(0, i + 1).drop_last() =~= texts.subrange(0, i as int));
                assert(texts.subrange(0, i + 1).last() == list@[i as int].text_view());
            }
            if has_match(pat, t) {
                out.push(i);
            }
            i = i + 1;
        }
        assert(texts.subrange(0, i as int) =~= texts);
        out
    }

    /// Appends `c` to the filter and shows the values that match it.
    pub fn update_filter(&mut self, c: char)
        requires
            old(self).wf(),
        ensures
            final(self).wf(),
            final(self).displayed_view() == spec_filtered(texts_of(final(self).values_view()), final(self).filter_view()),
            final(self).filter_view() == old(self).filter_view().push(c),
            final(self).values_view() == old(self).values_view(),
            final(self).marked_view() == old(self).marked_view(),
            final(self).highlighted_view() == spec_rehighlight(
                old(self).highlighted_view(),
                spec_filtered(texts_of(old(self).values_view()), old(self).filter_view().push(c)).len(),
            ),
    {
        let mut f = ListFilter::new();
        std::mem::swap(&mut f, &mut self.filter_query);
        f.push_back(c);
        let d = Self::filtered_positions(&self.values, &f);
        let n = d.len();
        let h = match self.highlighted {
            Some(c) => if c < n {
                Some(c)
            } else if n > 0 {
                Some(0)
            } else {
                None
            },
            None => if n > 0 {
                Some(0)
            } else {
                None
            },
        };
        self.displayed = d;
        self.highlighted = h;
        self.filter_query = f;
    }

    /// Drops the last character of the filter and shows the values that match it.
    pub fn remove_last_char_from_filter(&mut self)
        requires
            old(self).wf(),
        ensures
            final(self).wf(),
            final(self).displayed_view() == spec_filtered(texts_of(final(self).values_view()), final(self).filter_view()),
            final(self).filter_view() == if old(self).filter_view().len() > 0 {
                old(self).filter_view().drop_last()
            } else {
                old(self).filter_view()
            },
            final(self).values_view() == old(self).values_view(),
            final(self).marked_view() == old(self).marked_view(),
            final(self).highlighted_view() == spec_rehighlight(
                old(self).highlighted_view(),
                final(self).displayed_view().len(),
            ),
    {
        let mut f = ListFilter::new();
        std::mem::swap(&mut f, &mut self.filter_query);
        f.pop();
        let d = Self::filtered_positions(&self.values, &f);
        let n = d.len();
        let h = match self.highlighted {
            Some(c) => if c < n {
                Some(c)
            } else if n > 0 {
                Some(0)
            } else {
                None
            },
            None => if n > 0 {
                Some(0)
            } else {
                None
            },
        };
        self.displayed = d;
        self.highlighted = h;
        self.filter_query = f;
    }

    /// The filter typed in.
    pub fn search_filter(&self) -> (r: &str)
        ensures
            r@ == self.filter_view(),
    {
        self.filter_query.as_str()
    }

    /// The highlighted line, if any.
    pub fn highlighted_line(&self) -> (r: Option<usize>)
        ensures
            r == self.highlighted_view(),
    {
        self.highlighted
    }

    /// The highlighted value, if any.
    pub fn highlighted_value(&self) -> (r: Option<&V>)
        requires
            self.wf(),
        ensures
            match self.highlighted_view() {
                Some(c) => r == Some(&self.values_view()[self.displayed_view()[c as int] as int]),
                None => r is None,
            },
    {
        proof {
            lemma_filtered_bounds(texts_of(self.values@), self.filter_query.view_text());
        }
        match self.highlighted {
            Some(c) => Some(&self.values[self.displayed[c]]),
            None => None,
        }
    }

    /// The marked values, each once, in the order they first stand.
    pub fn marked_values(self) -> (r: Vec<V>)
        requires
            self.wf(),
        ensures
            r@ == spec_marked(self.values_view(), self.marked_view()),
    {
        let ListState { filter_query: _f, values, marked, displayed: _d, highlighted: _h } = self;
        let ghost vs = values@;
        let ghost ms = marked@;
        let mut source = values;
        let n = source.len();
        let mut out: Vec<V> = Vec::new();
        let mut consumed: usize = 0;
        while source.len() > 0
            invariant
                consumed + source@.len() == n,
                n == vs.len(),
                ms.len() == vs.len(),
                marked@ == ms,
                source@ == vs.subrange(consumed as int, n as int),
                out@ == spec_marked(vs.subrange(0, consumed as int), ms.subrange(0, consumed as int)),
            decreases source@.len(),
        {
            let ghost sv = source@;
            let v = source.remove(0);
            proof {
                assert(source@ =~= vs.subrange(consumed + 1, n as int));
                assert(vs.subrange(0, consumed + 1).drop_last() =~= vs.subrange(0, consumed as int));
                assert(ms.subrange(0, consumed + 1).drop_last() =~= ms.subrange(0, consumed as int));
                assert(sv[0] == vs[consumed as int]);
            }
            if marked[consumed] {
                let mut held = false;
                let mut k: usize = 0;
                while k < out.len()
                    invariant
                        k <= out@.len(),
                        held == exists|t: int| 0 <= t < k && #[trigger] out@[t].key() == v.key(),
                    decreases out@.len() - k,
                {
                    if out[k].same_value(&v) {
                        held = true;
                    }
                    k = k + 1;
                }
                assert(held == holds_value(out@, v));
                if !held {
                    out.push(v);
                }
            }
            consumed = consumed + 1;
        }
        assert(vs.subrange(0, n as int) =~= vs);
        assert(ms.subrange(0, n as int) =~= ms);
        out
    }
}

/// The empty filter matches every value.
pub proof fn lemma_empty_filter_all(texts: Seq<Seq<char>>)
    ensures
        spec_filtered(texts, Seq::empty()) == Seq::new(texts.len(), |i: int| i as usize),
    decreases texts.len(),
{
    if texts.len() > 0 {
        lemma_empty_filter_all(texts.drop_last());
        assert(encode_utf8(Seq::<char>::empty()).len() == 0);
        assert(Seq::new(texts.drop_last().len(), |i: int| i as usize).push((texts.len() - 1) as usize)
            =~= Seq::new(texts.len(), |i: int| i as usize));
    }
}

/// Every position shown is a position of the list, and positions are shown in order, once.
pub proof fn lemma_filtered_bounds(texts: Seq<Seq<char>>, pat: Seq<char>)
    requires
        texts.len() <= usize::MAX,
    ensures
        forall|j: int| 0 <= j < spec_filtered(texts, pat).len() ==> #[trigger] spec_filtered(texts, pat)[j] < texts.len(),
        forall|j: int, k: int|
            0 <= j < k < spec_filtered(texts, pat).len() ==> #[trigger] spec_filtered(texts, pat)[j] < #[trigger] spec_filtered(texts, pat)[k],
    decreases texts.len(),
{
    if texts.len() > 0 {
        let d = texts.drop_last();
        lemma_filtered_bounds(d, pat);
        let r = spec_filtered(d, pat);
        let f = spec_filtered(texts, pat);
        if is_subsequence(encode_utf8(pat), encode_utf8(texts.last())) {
            assert(f == r.push((texts.len() - 1) as usize));
            assert forall|j: int| 0 <= j < f.len() implies #[trigger] f[j] < texts.len() by {
                if j < r.len() {
                    assert(f[j] == r[j]);
                }
            }
            assert forall|j: int, k: int| 0 <= j < k < f.len() implies #[trigger] f[j] < #[trigger] f[k] by {
                assert(f[j] == r[j]);
                assert(r[j] < d.len());
                if k < r.len() {
                    assert(f[k] == r[k]);
                }
            }
        }
    }
}

} // verus!

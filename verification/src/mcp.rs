//! What the assistant-facing server answers: the aliases, narrowed by namespace and ranked by
//! a fuzzy keyword, and the resolution of an alias one var at a time.
use vstd::prelude::*;
use fuzzy_matcher::FuzzyMatcher;
use crate::text::{push_str, string_of, opt_view};
use crate::identifiers::{Identifier, IdView, spec_from_str, spec_parse, spec_display, plain_text, lemma_display_reads_back};
use crate::choices::{Choice, ChoiceView, choices_view};
use crate::vars::{Var, VarView};
use crate::aliases::{Alias, AliasView, spec_full_name};
use crate::aliases_repository::AliasCollection;
use crate::dependencies::{
    Dependencies, ErrorsDependencies, choice_map_view, substitute_all, key_index, lookup,
};
use crate::resolution::{
    search_run, search_start,
    VarsCollection, ErrorDependencyResolution, reachable, execution_sequence_for_dependencies, acyclic,
    depends_on,
    choice_for_var, map_set, set_choices, lemma_root_reachable,
};
use crate::resolver::{Resolver, ResolverContext, ErrorsResolver};

verus! {

/// The score skim's fuzzy matcher gives `choice` for `pattern`, or `None` when it does not
/// match.
pub uninterp spec fn skim_score(choice: Seq<char>, pattern: Seq<char>) -> Option<i64>;

/// fuzzy_matcher's `SkimMatcherV2::default().fuzzy_match`: the score of `choice` for
/// `pattern`. Its result depends on its two arguments alone (the matcher's caches do not
/// change it); what the score is, is left to the name `skim_score`.
#[verifier::external_body]
fn skim_fuzzy_match(choice: &str, pattern: &str) -> (r: Option<i64>)
    ensures
        r == skim_score(choice@, pattern@),
{
    fuzzy_matcher::skim::SkimMatcherV2::default().fuzzy_match(choice, pattern)
}

/// The text an alias is matched on: its full name, a space and its description.
pub open spec fn haystack(a: AliasView) -> Seq<char> {
    spec_full_name(a.name) + seq![' '] + a.desc
}

/// The (score, position) of each alias of `aliases` that matches `keyword`, in order.
pub open spec fn spec_scored(aliases: Seq<AliasView>, keyword: Seq<char>) -> Seq<(i64, usize)>
    decreases aliases.len(),
{
    if aliases.len() == 0 {
        Seq::empty()
    } else {
        let rest = spec_scored(aliases.drop_last(), keyword);
        match skim_score(haystack(aliases.last()), keyword) {
            Some(sc) => rest.push((sc, (aliases.len() - 1) as usize)),
            None => rest,
        }
    }
}

/// `x` put into `s` after every entry whose score is at least its own.
pub open spec fn insert_desc(s: Seq<(i64, usize)>, x: (i64, usize)) -> Seq<(i64, usize)>
    decreases s.len(),
{
    if s.len() == 0 {
        seq![x]
    } else if s.last().0 >= x.0 {
        s.push(x)
    } else {
        insert_desc(s.drop_last(), x).push(s.last())
    }
}

/// `s` sorted by decreasing score, entries of equal score kept in their order.
pub open spec fn sort_desc(s: Seq<(i64, usize)>) -> Seq<(i64, usize)>
    decreases s.len(),
{
    if s.len() == 0 {
        s
    } else {
        insert_desc(sort_desc(s.drop_last()), s.last())
    }
}

/// The aliases of `aliases` that match `keyword`, best score first (ties in their order).
pub open spec fn spec_fuzzy_filter(aliases: Seq<AliasView>, keyword: Seq<char>) -> Seq<AliasView> {
    sort_desc(spec_scored(aliases, keyword)).map_values(|p: (i64, usize)| aliases[p.1 as int])
}

/// The views of references to aliases.
pub open spec fn ref_views(v: Seq<&Alias>) -> Seq<AliasView> {
    v.map_values(|a: &Alias| a@)
}

/// Every position of a scored entry is a position of `aliases`.
proof fn lemma_scored_bounds(aliases: Seq<AliasView>, keyword: Seq<char>)
    requires
        aliases.len() <= usize::MAX,
    ensures
        forall|j: int| 0 <= j < spec_scored(aliases, keyword).len() ==> (#[trigger] spec_scored(aliases, keyword)[j]).1 < aliases.len(),
    decreases aliases.len(),
{
    if aliases.len() > 0 {
        let d = aliases.drop_last();
        lemma_scored_bounds(d, keyword);
        let r = spec_scored(d, keyword);
        let f = spec_scored(aliases, keyword);
        assert forall|j: int| 0 <= j < f.len() implies (#[trigger] f[j]).1 < aliases.len() by {
            if j < r.len() {
                assert(f[j] == r[j]);
            }
        }
    }
}

/// Inserting keeps the entries: each entry of the result is `x` or an entry of `s`.
proof fn lemma_insert_members(s: Seq<(i64, usize)>, x: (i64, usize))
    ensures
        insert_desc(s, x).len() == s.len() + 1,
        forall|j: int| 0 <= j < insert_desc(s, x).len() ==> #[trigger] insert_desc(s, x)[j] == x || s.contains(insert_desc(s, x)[j]),
    decreases s.len(),
{
    if s.len() > 0 && s.last().0 < x.0 {
        lemma_insert_members(s.drop_last(), x);
        let r = insert_desc(s.drop_last(), x);
        let f = insert_desc(s, x);
        assert forall|j: int| 0 <= j < f.len() implies #[trigger] f[j] == x || s.contains(f[j]) by {
            if j < r.len() {
                if r[j] != x {
                    let k = choose|k: int| 0 <= k < s.drop_last().len() && s.drop_last()[k] == r[j];
                    assert(s[k] == r[j]);
                }
            } else {
                assert(f[j] == s[s.len() - 1]);
            }
        }
    } else if s.len() > 0 {
        let f = insert_desc(s, x);
        assert forall|j: int| 0 <= j < f.len() implies #[trigger] f[j] == x || s.contains(f[j]) by {
            if j < s.len() {
                assert(f[j] == s[j]);
            }
        }
    }
}

/// Sorting keeps the entries.
proof fn lemma_sort_members(s: Seq<(i64, usize)>)
    ensures
        sort_desc(s).len() == s.len(),
        forall|j: int| 0 <= j < sort_desc(s).len() ==> s.contains(#[trigger] sort_desc(s)[j]),
    decreases s.len(),
{
    if s.len() > 0 {
        let d = s.drop_last();
        lemma_sort_members(d);
        lemma_insert_members(sort_desc(d), s.last());
        let f = sort_desc(s);
        assert forall|j: int| 0 <= j < f.len() implies s.contains(#[trigger] f[j]) by {
            if f[j] == s.last() {
                assert(s[s.len() - 1] == f[j]);
            } else {
                let k = choose|k: int| 0 <= k < sort_desc(d).len() && sort_desc(d)[k] == f[j];
                let m = choose|m: int| 0 <= m < d.len() && d[m] == sort_desc(d)[k];
                assert(s[m] == f[j]);
            }
        }
    }
}

/// Whether the scores of `s` never increase.
pub open spec fn scores_desc(s: Seq<(i64, usize)>) -> bool {
    forall|i: int, j: int| 0 <= i < j < s.len() ==> (#[trigger] s[i]).0 >= (#[trigger] s[j]).0
}

/// Each scored entry is the score of the alias at its position.
proof fn lemma_scored_scores(aliases: Seq<AliasView>, keyword: Seq<char>)
    requires
        aliases.len() <= usize::MAX,
    ensures
        forall|j: int| 0 <= j < spec_scored(aliases, keyword).len() ==> skim_score(
            haystack(aliases[(#[trigger] spec_scored(aliases, keyword)[j]).1 as int]),
            keyword,
        ) == Some(spec_scored(aliases, keyword)[j].0),
    decreases aliases.len(),
{
    if aliases.len() > 0 {
        let d = aliases.drop_last();
        lemma_scored_scores(d, keyword);
        lemma_scored_bounds(d, keyword);
        let r = spec_scored(d, keyword);
        let f = spec_scored(aliases, keyword);
        assert forall|j: int| 0 <= j < f.len() implies skim_score(
            haystack(aliases[(#[trigger] f[j]).1 as int]),
            keyword,
        ) == Some(f[j].0) by {
            if j < r.len() {
                assert(f[j] == r[j]);
                assert(r[j].1 < d.len());
                assert(aliases[r[j].1 as int] == d[r[j].1 as int]);
            }
        }
    }
}

/// Inserting into entries of decreasing score keeps the scores decreasing.
proof fn lemma_insert_desc_sorted(s: Seq<(i64, usize)>, x: (i64, usize))
    requires
        scores_desc(s),
    ensures
        scores_desc(insert_desc(s, x)),
    decreases s.len(),
{
    if s.len() == 0 {
    } else if s.last().0 >= x.0 {
        let f = s.push(x);
        assert forall|i: int, j: int| 0 <= i < j < f.len() implies (#[trigger] f[i]).0 >= (#[trigger] f[j]).0 by {
            if j == s.len() {
                assert(s[i].0 >= s[s.len() - 1].0);
            }
        }
    } else {
        let d = s.drop_last();
        assert(scores_desc(d)) by {
            assert forall|i: int, j: int| 0 <= i < j < d.len() implies (#[trigger] d[i]).0 >= (#[trigger] d[j]).0 by {
                assert(d[i] == s[i] && d[j] == s[j]);
            }
        }
        lemma_insert_desc_sorted(d, x);
        lemma_insert_members(d, x);
        let r = insert_desc(d, x);
        let f = r.push(s.last());
        assert forall|i: int, j: int| 0 <= i < j < f.len() implies (#[trigger] f[i]).0 >= (#[trigger] f[j]).0 by {
            if j == r.len() {
                if r[i] != x {
                    let k = choose|k: int| 0 <= k < d.len() && d[k] == r[i];
                    assert(s[k] == d[k]);
                    assert(s[k].0 >= s[s.len() - 1].0);
                }
            } else {
                assert(f[i] == r[i] && f[j] == r[j]);
            }
        }
    }
}

/// Sorting gives entries of decreasing score.
proof fn lemma_sort_desc_sorted(s: Seq<(i64, usize)>)
    ensures
        scores_desc(sort_desc(s)),
    decreases s.len(),
{
    if s.len() > 0 {
        lemma_sort_desc_sorted(s.drop_last());
        lemma_insert_desc_sorted(sort_desc(s.drop_last()), s.last());
    }
}

/// What `fuzzy_filter` gives back are aliases that match `keyword`, each with a score no
/// lower than the next one's: the best matches come first.
pub proof fn lemma_fuzzy_filter_ranked(aliases: Seq<AliasView>, keyword: Seq<char>)
    requires
        aliases.len() <= usize::MAX,
    ensures
        forall|i: int| 0 <= i < spec_fuzzy_filter(aliases, keyword).len() ==> skim_score(
            haystack(#[trigger] spec_fuzzy_filter(aliases, keyword)[i]),
            keyword,
        ) is Some,
        forall|i: int, j: int| 0 <= i < j < spec_fuzzy_filter(aliases, keyword).len() ==> skim_score(
            haystack(#[trigger] spec_fuzzy_filter(aliases, keyword)[i]),
            keyword,
        )->0 >= skim_score(haystack(#[trigger] spec_fuzzy_filter(aliases, keyword)[j]), keyword)->0,
{
    let sc = spec_scored(aliases, keyword);
    let st = sort_desc(sc);
    let r = spec_fuzzy_filter(aliases, keyword);
    lemma_scored_scores(aliases, keyword);
    lemma_sort_members(sc);
    lemma_sort_desc_sorted(sc);
    assert forall|i: int| 0 <= i < r.len() implies skim_score(haystack(#[trigger] r[i]), keyword) == Some(st[i].0) by {
        let m = choose|m: int| 0 <= m < sc.len() && sc[m] == st[i];
        assert(skim_score(haystack(aliases[sc[m].1 as int]), keyword) == Some(sc[m].0));
    }
    assert forall|i: int, j: int| 0 <= i < j < r.len() implies skim_score(haystack(#[trigger] r[i]), keyword)->0
        >= skim_score(haystack(#[trigger] r[j]), keyword)->0 by {
        assert(skim_score(haystack(r[i]), keyword) == Some(st[i].0));
        assert(skim_score(haystack(r[j]), keyword) == Some(st[j].0));
        assert(st[i].0 >= st[j].0);
    }
}

/// Each alias that `fuzzy_filter` gives back is one of the aliases it was given.
proof fn lemma_fuzzy_filter_members(aliases: Seq<AliasView>, keyword: Seq<char>)
    requires
        aliases.len() <= usize::MAX,
    ensures
        forall|i: int| 0 <= i < spec_fuzzy_filter(aliases, keyword).len() ==> aliases.contains(
            #[trigger] spec_fuzzy_filter(aliases, keyword)[i],
        ),
{
    let sc = spec_scored(aliases, keyword);
    let st = sort_desc(sc);
    let r = spec_fuzzy_filter(aliases, keyword);
    lemma_scored_bounds(aliases, keyword);
    lemma_sort_members(sc);
    assert forall|i: int| 0 <= i < r.len() implies aliases.contains(#[trigger] r[i]) by {
        let m = choose|m: int| 0 <= m < sc.len() && sc[m] == st[i];
        assert(sc[m].1 < aliases.len());
        assert(r[i] == aliases[st[i].1 as int]);
    }
}

/// `sorted` with `x` inserted (see `insert_desc`).
fn insert_sorted(sorted: &mut Vec<(i64, usize)>, x: (i64, usize))
    ensures
        final(sorted)@ == insert_desc(old(sorted)@, x),
{
    let ghost orig = sorted@;
    let mut tail: Vec<(i64, usize)> = Vec::new();
    let ghost mut suf: Seq<(i64, usize)> = Seq::empty();
    while sorted.len() > 0 && sorted[sorted.len() - 1].0 < x.0
        invariant
            insert_desc(orig, x) == insert_desc(sorted@, x) + suf,
            tail@.len() == suf.len(),
            forall|i: int| 0 <= i < tail@.len() ==> #[trigger] tail@[i] == suf[suf.len() - 1 - i],
        decreases sorted@.len(),
    {
        let ghost s0 = sorted@;
        let e = sorted.pop().unwrap();
        proof {
            assert(s0.drop_last() == sorted@);
            assert(insert_desc(s0, x) == insert_desc(sorted@, x).push(e));
            assert(insert_desc(sorted@, x).push(e) + suf =~= insert_desc(sorted@, x) + (seq![e] + suf));
            suf = seq![e] + suf;
        }
        tail.push(e);
    }
    proof {
        if sorted@.len() > 0 {
            assert(insert_desc(sorted@, x) == sorted@.push(x));
        } else {
            assert(insert_desc(sorted@, x) == seq![x]);
            assert(sorted@.push(x) =~= seq![x]);
        }
    }
    sorted.push(x);
    let ghost head = sorted@;
    let mut k: usize = 0;
    let n = tail.len();
    while tail.len() > 0
        invariant
            tail@.len() + k == n,
            n == suf.len(),
            insert_desc(orig, x) == head + suf,
            sorted@ == head + suf.subrange(0, k as int),
            forall|i: int| 0 <= i < tail@.len() ==> #[trigger] tail@[i] == suf[suf.len() - 1 - i],
        decreases tail@.len(),
    {
        let e = tail.pop().unwrap();
        assert(e == suf[k as int]);
        sorted.push(e);
        assert(suf.subrange(0, k + 1) =~= suf.subrange(0, k as int).push(e));
        k = k + 1;
    }
    assert(suf.subrange(0, k as int) =~= suf);
}

/// The aliases of `aliases` that match `keyword`, best first (see `spec_fuzzy_filter`).
pub fn fuzzy_filter<'a>(aliases: &[&'a Alias], keyword: &str) -> (r: Vec<&'a Alias>)
    ensures
        ref_views(r@) == spec_fuzzy_filter(ref_views(aliases@), keyword@),
{
    let ghost av = ref_views(aliases@);
    let mut scored: Vec<(i64, usize)> = Vec::new();
    let mut i: usize = 0;
    while i < aliases.len()
        invariant
            i <= aliases@.len(),
            av == ref_views(aliases@),
            scored@ == spec_scored(av.subrange(0, i as int), keyword@),
        decreases aliases@.len() - i,
    {
        let a = aliases[i];
        let mut hv: Vec<char> = Vec::new();
        let full = a.full_name();
        push_str(&mut hv, full.as_str());
        hv.push(' ');
        push_str(&mut hv, a.desc());
        let hay = string_of(hv.as_slice());
        assert(hay@ =~= haystack(a@));
        assert(av.subrange(0, i + 1).drop_last() =~= av.subrange(0, i as int));
        assert(av.subrange(0, i + 1).last() == a@);
        match skim_fuzzy_match(hay.as_str(), keyword) {
            Some(sc) => {
                scored.push((sc, i));
            },
            None => {},
        }
        i = i + 1;
    }
    assert(av.subrange(0, i as int) =~= av);
    let ghost sc = scored@;
    let mut sorted: Vec<(i64, usize)> = Vec::new();
    let mut j: usize = 0;
    while j < scored.len()
        invariant
            j <= scored@.len(),
            scored@ == sc,
            sorted@ == sort_desc(sc.subrange(0, j as int)),
        decreases scored@.len() - j,
    {
        assert(sc.subrange(0, j + 1).drop_last() =~= sc.subrange(0, j as int));
        insert_sorted(&mut sorted, scored[j]);
        j = j + 1;
    }
    assert(sc.subrange(0, j as int) =~= sc);
    proof {
        lemma_scored_bounds(av, keyword@);
        lemma_sort_members(sc);
    }
    let mut out: Vec<&'a Alias> = Vec::new();
    let mut k: usize = 0;
    while k < sorted.len()
        invariant
            k <= sorted@.len(),
            sorted@ == sort_desc(sc),
            sc == spec_scored(av, keyword@),
            av == ref_views(aliases@),
            forall|m: int| 0 <= m < sorted@.len() ==> sc.contains(#[trigger] sorted@[m]),
            forall|m: int| 0 <= m < sc.len() ==> (#[trigger] sc[m]).1 < aliases@.len(),
            ref_views(out@) == sorted@.subrange(0, k as int).map_values(|p: (i64, usize)| av[p.1 as int]),
        decreases sorted@.len() - k,
    {
        let p = sorted[k];
        proof {
            let m = choose|m: int| 0 <= m < sc.len() && sc[m] == sorted@[k as int];
            assert(sc[m].1 < aliases@.len());
        }
        let ghost before = out@;
        out.push(aliases[p.1]);
        proof {
            assert(ref_views(out@) =~= ref_views(before).push(av[p.1 as int]));
            assert(sorted@.subrange(0, k + 1).map_values(|p: (i64, usize)| av[p.1 as int]) =~= sorted@.subrange(
                0,
                k as int,
            ).map_values(|p: (i64, usize)| av[p.1 as int]).push(av[p.1 as int]));
        }
        k = k + 1;
    }
    assert(sorted@.subrange(0, k as int) =~= sorted@);
    out
}

/// An alias as listed: its name, namespace and description.
#[derive(Debug)]
pub struct AliasEntry {
    pub name: String,
    pub namespace: Option<String>,
    pub desc: String,
}

/// How an alias is listed.
pub open spec fn entry_of(a: AliasView) -> (Seq<char>, Option<Seq<char>>, Seq<char>) {
    (a.name.name, a.name.namespace, a.desc)
}

/// The views of listed aliases.
pub open spec fn entries_view(v: Seq<AliasEntry>) -> Seq<(Seq<char>, Option<Seq<char>>, Seq<char>)> {
    v.map_values(|e: AliasEntry| (e.name@, opt_view(e.namespace), e.desc@))
}

/// The aliases of `aliases` in namespace `ns`, in order.
pub open spec fn in_namespace(aliases: Seq<AliasView>, ns: Seq<char>) -> Seq<AliasView> {
    aliases.filter(|a: AliasView| a.name.namespace == Some(ns))
}

/// The aliases listed for a request: those of `namespace` when one is given, then, when a
/// keyword is given, those that match it, best first.
pub open spec fn spec_list(
    aliases: Seq<AliasView>,
    namespace: Option<Seq<char>>,
    keyword: Option<Seq<char>>,
) -> Seq<AliasView> {
    let kept = match namespace {
        Some(ns) => in_namespace(aliases, ns),
        None => aliases,
    };
    match keyword {
        Some(kw) => spec_fuzzy_filter(kept, kw),
        None => kept,
    }
}

/// The text of an optional string slice.
pub open spec fn opt_str(o: Option<&str>) -> Option<Seq<char>> {
    match o {
        Some(s) => Some(s@),
        None => None,
    }
}

/// The listing of `aliases` for a request (see `spec_list`).
pub fn list_aliases(aliases: &[&Alias], namespace: Option<&str>, keyword: Option<&str>) -> (r: Vec<
    AliasEntry,
>)
    ensures
        entries_view(r@) == spec_list(ref_views(aliases@), opt_str(namespace), opt_str(keyword)).map_values(
            |a: AliasView| entry_of(a),
        ),
        namespace matches Some(ns) ==> forall|i: int|
            0 <= i < r@.len() ==> opt_view((#[trigger] r@[i]).namespace) == Some(ns@),
{
    let count: usize = aliases.len();
    proof {
        assert(ref_views(aliases@).len() == count);
        lemma_list_filters(ref_views(aliases@), opt_str(namespace), opt_str(keyword));
    }
    let ghost av = ref_views(aliases@);
    let mut kept: Vec<&Alias> = Vec::new();
    match namespace {
        Some(ns) => {
            let mut i: usize = 0;
            while i < aliases.len()
                invariant
                    i <= aliases@.len(),
                    av == ref_views(aliases@),
                    ref_views(kept@) == in_namespace(av.subrange(0, i as int), ns@),
                decreases aliases@.len() - i,
            {
                let a = aliases[i];
                proof {
                    reveal(Seq::filter);
                    assert(av.subrange(0, i + 1).drop_last() =~= av.subrange(0, i as int));
                    assert(av.subrange(0, i + 1).last() == a@);
                }
                let same = match a.namespace() {
                    Some(n) => crate::text::str_eq(n, ns),
                    None => false,
                };
                if same {
                    let ghost before = kept@;
                    kept.push(a);
                    assert(ref_views(kept@) =~= ref_views(before).push(a@));
                }
                i = i + 1;
            }
            assert(av.subrange(0, i as int) =~= av);
        },
        None => {
            let mut i: usize = 0;
            while i < aliases.len()
                invariant
                    i <= aliases@.len(),
                    av == ref_views(aliases@),
                    ref_views(kept@) == av.subrange(0, i as int),
                decreases aliases@.len() - i,
            {
                let ghost before = kept@;
                kept.push(aliases[i]);
                assert(ref_views(kept@) =~= ref_views(before).push(av[i as int]));
                assert(av.subrange(0, i + 1) =~= av.subrange(0, i as int).push(av[i as int]));
                i = i + 1;
            }
            assert(av.subrange(0, i as int) =~= av);
        },
    }
    let listed = match keyword {
        Some(kw) => fuzzy_filter(kept.as_slice(), kw),
        None => kept,
    };
    let ghost lv = ref_views(listed@);
    let mut out: Vec<AliasEntry> = Vec::new();
    let mut j: usize = 0;
    while j < listed.len()
        invariant
            j <= listed@.len(),
            lv == ref_views(listed@),
            entries_view(out@) == lv.subrange(0, j as int).map_values(|a: AliasView| entry_of(a)),
        decreases listed@.len() - j,
    {
        let a = listed[j];
        let ns = match a.namespace() {
            Some(n) => Some(n.to_owned()),
            None => None,
        };
        let e = AliasEntry { name: a.name().to_owned(), namespace: ns, desc: a.desc().to_owned() };
        let ghost before = out@;
        out.push(e);
        proof {
            assert(entries_view(out@) =~= entries_view(before).push(entry_of(a@)));
            assert(lv.subrange(0, j + 1).map_values(|a: AliasView| entry_of(a)) =~= lv.subrange(
                0,
                j as int,
            ).map_values(|a: AliasView| entry_of(a)).push(entry_of(lv[j as int])));
        }
        j = j + 1;
    }
    assert(lv.subrange(0, j as int) =~= lv);
    proof {
        let l = spec_list(ref_views(aliases@), opt_str(namespace), opt_str(keyword));
        assert forall|i: int| 0 <= i < out@.len() implies entries_view(out@)[i] == entry_of(
            #[trigger] l[i],
        ) by {}
        if namespace is Some {
            assert forall|i: int| 0 <= i < out@.len() implies opt_view((#[trigger] out@[i]).namespace)
                == opt_str(namespace) by {
                assert(entries_view(out@)[i] == entry_of(l[i]));
            }
        }
    }
    out
}

/// How the choices of a var are offered.
#[derive(Debug, PartialEq, Eq, Structural, Clone, Copy)]
pub enum VarKind {
    Choices,
    Input,
}

/// A choice offered for a var.
#[derive(Debug)]
pub struct ChoiceInfo {
    pub value: String,
    pub desc: Option<String>,
}

/// The var that needs a value next.
#[derive(Debug)]
pub struct VarInfo {
    pub name: String,
    pub namespace: Option<String>,
    pub desc: String,
    pub kind: VarKind,
    pub choices: Option<Vec<ChoiceInfo>>,
    pub prompt: Option<String>,
}

/// The answer to a resolution request: the next var to give a value for, or the commands.
#[derive(Debug)]
pub enum ResolveAliasResponse {
    NeedsVar { var: VarInfo },
    Resolved { commands: Vec<String> },
}

/// Why a resolution request failed.
#[derive(Debug)]
pub enum McpError {
    /// No alias has this identifier; the closest aliases by name.
    AliasNotFound { alias: String, suggestions: Vec<String> },
    /// The vars of the alias could not be ordered.
    Dependencies(ErrorDependencyResolution),
    /// A var of the alias is not known.
    VarNotFound(Identifier),
    /// Resolving a var failed.
    Resolution(ErrorDependencyResolution),
    /// Substituting the choices in the alias failed.
    Substitution(ErrorsDependencies),
}

/// What a choice offered for a var stands for.
pub open spec fn choice_info_view(c: ChoiceInfo) -> ChoiceView {
    ChoiceView { value: c.value@, desc: opt_view(c.desc) }
}

/// `info` shows the name, namespace and description of the var `v`.
pub open spec fn shows_var(info: VarInfo, v: VarView) -> bool {
    &&& info.name@ == v.name.name
    &&& opt_view(info.namespace) == v.name.namespace
    &&& info.desc@ == v.desc
}

/// The description of `var` for a client, from what resolving it gave: the choices found,
/// offered in order; or, where the var must be typed in, its prompt. Any other failure of the
/// resolution is the answer as it is.
pub fn var_info(var: &Var, outcome: Result<Vec<Choice>, ErrorDependencyResolution>) -> (r: Result<
    VarInfo,
    McpError,
>)
    ensures
        match outcome {
            Ok(cs) => r matches Ok(info) && (shows_var(info, var@) && info.kind == VarKind::Choices
                && info.prompt is None && (info.choices matches Some(ci) && ci@.map_values(
                |c: ChoiceInfo| choice_info_view(c),
            ) == choices_view(cs@))),
            Err(
                ErrorDependencyResolution::NoChoiceForVar {
                    error: ErrorsResolver::NoInputWasProvided(_, p),
                    ..
                },
            ) => r matches Ok(info) && (shows_var(info, var@) && info.kind == VarKind::Input
                && info.choices is None && info.prompt == Some(p)),
            Err(e) => r == Err::<VarInfo, McpError>(McpError::Resolution(e)),
        },
{
    let var_name = var.name();
    let name = var_name.name().to_owned();
    let namespace = match var_name.namespace() {
        Some(n) => Some(n.to_owned()),
        None => None,
    };
    let desc = var.desc().to_owned();
    match outcome {
        Ok(found_choices) => {
            let mut infos: Vec<ChoiceInfo> = Vec::new();
            let mut k: usize = 0;
            while k < found_choices.len()
                invariant
                    k <= found_choices.len(),
                    infos@.len() == k,
                    forall|j: int| 0 <= j < k ==> choice_info_view(#[trigger] infos@[j]) == found_choices@[j]@,
                decreases found_choices.len() - k,
            {
                let c = &found_choices[k];
                let d = match c.desc() {
                    Some(d) => Some(d.to_owned()),
                    None => None,
                };
                infos.push(ChoiceInfo { value: c.value().to_owned(), desc: d });
                k = k + 1;
            }
            assert(infos@.map_values(|c: ChoiceInfo| choice_info_view(c)) =~= choices_view(found_choices@));
            Ok(VarInfo { name, namespace, desc, kind: VarKind::Choices, choices: Some(infos), prompt: None })
        },
        Err(ErrorDependencyResolution::NoChoiceForVar {
            error: ErrorsResolver::NoInputWasProvided(_, prompt),
            ..
        }) => Ok(VarInfo { name, namespace, desc, kind: VarKind::Input, choices: None, prompt: Some(prompt) }),
        Err(e) => Err(McpError::Resolution(e)),
    }
}

/// The choices given with a request: each `(var, value)` makes `value` the one choice of the
/// var named `var`; a later pair for the same var wins.
pub open spec fn given_choices(given: Seq<(String, String)>) -> Seq<(IdView, Seq<ChoiceView>)>
    decreases given.len(),
{
    if given.len() == 0 {
        Seq::empty()
    } else {
        map_set(
            given_choices(given.drop_last()),
            spec_from_str(given.last().0@),
            seq![ChoiceView { value: given.last().1@, desc: None }],
        )
    }
}

/// Answering the var that `resolve_alias` asks for settles it: once a request carries a value
/// under the var's shown name (`namespace::name`), the var has that value, so it is not asked
/// again. The var's name and namespace are plain texts, as sanitized names are.
pub proof fn lemma_answer_settles(given: Seq<(String, String)>, key: String, value: String, x: IdView)
    requires
        key@ == spec_display(x),
        plain_text(x.name),
        match x.namespace {
            Some(ns) => ns.len() > 0 && plain_text(ns),
            None => true,
        },
    ensures
        key_index(given_choices(given.push((key, value))), x) >= 0,
        lookup(given_choices(given.push((key, value))), x) == Some(seq![ChoiceView { value: value@, desc: None }]),
{
    let g = given.push((key, value));
    assert(g.drop_last() =~= given);
    lemma_display_reads_back(x);
    crate::resolution::lemma_map_set(given_choices(given), x, seq![ChoiceView { value: value@, desc: None }]);
}

/// The choices of `given` as a list.
fn given_choice_list(given: &[(String, String)]) -> (r: Vec<(Identifier, Vec<Choice>)>)
    ensures
        choice_map_view(r@) == given_choices(given@),
{
    let mut l: Vec<(Identifier, Vec<Choice>)> = Vec::new();
    let mut i: usize = 0;
    while i < given.len()
        invariant
            i <= given@.len(),
            choice_map_view(l@) == given_choices(given@.subrange(0, i as int)),
        decreases given@.len() - i,
    {
        let id = Identifier::from_str(given[i].0.as_str());
        let c = Choice::from_value(given[i].1.as_str());
        let mut cs: Vec<Choice> = Vec::new();
        cs.push(c);
        proof {
            assert(given@.subrange(0, i + 1).drop_last() =~= given@.subrange(0, i as int));
            assert(choices_view(cs@) =~= seq![ChoiceView { value: given@[i as int].1@, desc: None }]);
        }
        set_choices(&mut l, id, cs);
        i = i + 1;
    }
    assert(given@.subrange(0, i as int) =~= given@);
    l
}

/// Up to five full names of the aliases of `aliases` closest to `text`, best first.
fn suggestions(aliases: &[&Alias], text: &str) -> (r: Vec<String>)
    ensures
        r@.len() <= 5,
        r@.map_values(|s: String| s@) == spec_fuzzy_filter(ref_views(aliases@), text@).take(
            if spec_fuzzy_filter(ref_views(aliases@), text@).len() < 5 {
                spec_fuzzy_filter(ref_views(aliases@), text@).len() as int
            } else {
                5
            },
        ).map_values(|a: AliasView| spec_full_name(a.name)),
{
    let close = fuzzy_filter(aliases, text);
    let ghost cv = ref_views(close@);
    let n: usize = if close.len() < 5 { close.len() } else { 5 };
    let mut out: Vec<String> = Vec::new();
    let mut i: usize = 0;
    while i < n
        invariant
            i <= n,
            n <= close@.len(),
            n <= 5,
            cv == ref_views(close@),
            out@.map_values(|s: String| s@) == cv.take(i as int).map_values(|a: AliasView| spec_full_name(a.name)),
        decreases n - i,
    {
        let ghost before = out@;
        out.push(close[i].full_name());
        proof {
            assert(out@.map_values(|s: String| s@) =~= before.map_values(|s: String| s@).push(spec_full_name(cv[i as int].name)));
            assert(cv.take(i + 1).map_values(|a: AliasView| spec_full_name(a.name)) =~= cv.take(i as int).map_values(
                |a: AliasView| spec_full_name(a.name),
            ).push(spec_full_name(cv[i as int].name)));
        }
        i = i + 1;
    }
    out
}

/// `x` is the first var, in the order in which the vars that `roots` need are resolved (see
/// `search_run`), that has no value in `ch`.
pub open spec fn first_unanswered(
    vm: Map<IdView, VarView>,
    roots: Seq<IdView>,
    ch: Seq<(IdView, Seq<ChoiceView>)>,
    x: IdView,
) -> bool {
    exists|n: nat|
        {
            let fin = #[trigger] search_run(vm, search_start(roots), n);
            &&& fin.cand.len() == 0
            &&& fin.missing.len() == 0
            &&& exists|k: int|
                0 <= k < fin.out.len() && fin.out[k] == x && forall|j: int|
                    0 <= j < k ==> key_index(ch, #[trigger] fin.out[j]) >= 0
        }
}

/// A filter keeps only elements of the sequence that meet the predicate.
proof fn lemma_filter_members<A>(s: Seq<A>, pred: spec_fn(A) -> bool)
    ensures
        forall|i: int|
            0 <= i < s.filter(pred).len() ==> s.contains(#[trigger] s.filter(pred)[i]) && pred(s.filter(pred)[i]),
    decreases s.len(),
{
    reveal(Seq::filter);
    if s.len() > 0 {
        let d = s.drop_last();
        lemma_filter_members(d, pred);
        let f = s.filter(pred);
        let fd = d.filter(pred);
        assert forall|i: int| 0 <= i < f.len() implies s.contains(#[trigger] f[i]) && pred(f[i]) by {
            if i < fd.len() {
                assert(f[i] == fd[i]);
                let k = choose|k: int| 0 <= k < d.len() && d[k] == fd[i];
                assert(s[k] == d[k]);
            } else {
                assert(f[i] == s.last());
                assert(s[s.len() - 1] == s.last());
            }
        }
    }
}

/// What is listed is among the aliases given, belongs to the namespace asked for (when one
/// is), and matches the keyword asked for (when one is); with a keyword, the best match
/// comes first.
pub proof fn lemma_list_filters(aliases: Seq<AliasView>, namespace: Option<Seq<char>>, keyword: Option<Seq<char>>)
    requires
        aliases.len() <= usize::MAX,
    ensures
        forall|i: int|
            0 <= i < spec_list(aliases, namespace, keyword).len() ==> {
                let e = #[trigger] spec_list(aliases, namespace, keyword)[i];
                &&& aliases.contains(e)
                &&& namespace matches Some(ns) ==> e.name.namespace == Some(ns)
                &&& keyword matches Some(kw) ==> skim_score(haystack(e), kw) is Some
            },
        keyword matches Some(kw) ==> forall|i: int, j: int|
            0 <= i < j < spec_list(aliases, namespace, keyword).len() ==> skim_score(
                haystack(#[trigger] spec_list(aliases, namespace, keyword)[i]),
                kw,
            )->0 >= skim_score(haystack(#[trigger] spec_list(aliases, namespace, keyword)[j]), kw)->0,
{
    let kept = match namespace {
        Some(ns) => in_namespace(aliases, ns),
        None => aliases,
    };
    match namespace {
        Some(ns) => {
            lemma_filter_members(aliases, |a: AliasView| a.name.namespace == Some(ns));
            aliases.lemma_filter_len(|a: AliasView| a.name.namespace == Some(ns));
        },
        None => {},
    }
    assert forall|i: int| 0 <= i < kept.len() implies aliases.contains(#[trigger] kept[i]) && (namespace matches Some(
        ns,
    ) ==> kept[i].name.namespace == Some(ns)) by {
        if namespace is None {
            assert(aliases[i] == kept[i]);
        }
    }
    match keyword {
        Some(kw) => {
            lemma_fuzzy_filter_members(kept, kw);
            lemma_fuzzy_filter_ranked(kept, kw);
            let f = spec_fuzzy_filter(kept, kw);
            assert forall|i: int| 0 <= i < f.len() implies aliases.contains(#[trigger] f[i]) && (namespace matches Some(
                ns,
            ) ==> f[i].name.namespace == Some(ns)) by {
                assert(kept.contains(f[i]));
                let k = choose|k: int| 0 <= k < kept.len() && kept[k] == f[i];
                assert(aliases.contains(kept[k]));
            }
        },
        None => {},
    }
}

/// `all` lists the aliases of `m`: each of its aliases is in `m` under its name, and each
/// alias of `m` is in it.
pub open spec fn enumerates(all: Seq<AliasView>, m: Map<IdView, AliasView>) -> bool {
    &&& forall|i: int| 0 <= i < all.len() ==> m.contains_key(#[trigger] all[i].name) && m[all[i].name] == all[i]
    &&& forall|k: IdView| m.contains_key(k) ==> exists|i: int| 0 <= i < all.len() && #[trigger] all[i].name == k
}

/// The full names of the first five of `ranked` (all of them when there are fewer).
pub open spec fn top_names(ranked: Seq<AliasView>) -> Seq<Seq<char>> {
    ranked.take(if ranked.len() < 5 { ranked.len() as int } else { 5 }).map_values(|a: AliasView| spec_full_name(a.name))
}

/// `name` is the full name of an alias of `aliases` that matches `keyword`.
pub open spec fn suggests(aliases: Map<IdView, AliasView>, name: Seq<char>, keyword: Seq<char>) -> bool {
    exists|k: IdView| #[trigger] aliases.contains_key(k) && name == spec_full_name(k) && skim_score(haystack(aliases[k]), keyword) is Some
}

/// Resolves the alias named `alias` one var at a time, with the values `given` so far. The
/// alias must be known (else the closest names are suggested) and its vars too. The answer
/// is the first var, in resolution order, that has no given value, with the choices the
/// resolver offers for it (or the prompt when it must be typed in); or, when every var has a
/// value, the commands of the alias with those values.
pub fn resolve_alias<AC: AliasCollection, VC: VarsCollection, R: Resolver>(
    aliases: &AC,
    vars: &VC,
    resolver: &R,
    alias: &str,
    given: &[(String, String)],
) -> (r: Result<ResolveAliasResponse, McpError>)
    ensures
        !aliases.aliases_map().contains_key(spec_from_str(alias@)) <==> r is Err && r->Err_0 is AliasNotFound,
        r matches Err(McpError::AliasNotFound { alias: a, suggestions: s }) ==> a@ == alias@ && s@.len() <= 5
            && forall|i: int| 0 <= i < s@.len() ==> #[trigger] suggests(aliases.aliases_map(), s@[i]@, alias@),
        r matches Err(McpError::AliasNotFound { suggestions: s, .. }) ==> exists|all: Seq<AliasView>|
            #[trigger] enumerates(all, aliases.aliases_map()) && s@.map_values(|t: String| t@) == top_names(
                spec_fuzzy_filter(all, alias@),
            ),
        aliases.aliases_map().contains_key(spec_from_str(alias@)) ==> ({
            let al = aliases.aliases_map()[spec_from_str(alias@)];
            let roots = spec_parse(al.alias, al.name.namespace);
            let vm = vars.vars_map();
            let ch = given_choices(given@);
            &&& (exists|x: IdView| reachable(vm, roots, x) && !vm.contains_key(x)) <==> (r is Err
                && r->Err_0 is Dependencies)
            &&& ((forall|x: IdView| reachable(vm, roots, x) ==> vm.contains_key(x) && key_index(ch, x) >= 0)
                ==> r is Ok && r->Ok_0 is Resolved)
            &&& (r matches Ok(ResolveAliasResponse::Resolved { commands }) ==> substitute_all(
                al.alias,
                roots,
                ch,
            ) == Ok::<Seq<Seq<char>>, IdView>(crate::dependencies::strings_view(commands@)))
            &&& (r matches Ok(ResolveAliasResponse::NeedsVar { var }) ==> exists|x: IdView|
                #![trigger vm[x]]
                reachable(vm, roots, x) && vm.contains_key(x) && key_index(ch, x) < 0 && var.name@ == x.name
                    && opt_view(var.namespace) == x.namespace && var.desc@ == vm[x].desc && (acyclic(vm, roots)
                    ==> forall|y: IdView| #[trigger] depends_on(vm, x, y) ==> key_index(ch, y) >= 0))
            &&& (r matches Ok(ResolveAliasResponse::NeedsVar { var }) ==> exists|x: IdView|
                #[trigger] first_unanswered(vm, roots, ch, x) && var.name@ == x.name && opt_view(var.namespace)
                    == x.namespace)
            &&& (r matches Ok(ResolveAliasResponse::NeedsVar { var }) ==> (var.kind == VarKind::Choices
                ==> var.choices is Some && var.prompt is None) && (var.kind == VarKind::Input ==> var.prompt is Some
                && var.choices is None))
            &&& (r matches Err(McpError::Resolution(e)) ==> e matches ErrorDependencyResolution::NoChoiceForVar {
                var_name,
                error,
            } && !(error is NoInputWasProvided) && exists|x: IdView|
                #![trigger vm[x]]
                reachable(vm, roots, x) && vm.contains_key(x) && key_index(ch, x) < 0 && var_name@ == x)
            &&& !(r is Err && (r->Err_0 is VarNotFound || r->Err_0 is Substitution))
        }),
{
    let id = Identifier::from_str(alias);
    let found = match aliases.get(&id) {
        Some(a) => a.clone(),
        None => {
            let all = aliases.aliases();
            let s = suggestions(all.as_slice(), alias);
            let count = all.len();
            proof {
                let av0 = ref_views(all@);
                assert forall|i: int| 0 <= i < av0.len() implies aliases.aliases_map().contains_key(#[trigger] av0[i].name)
                    && aliases.aliases_map()[av0[i].name] == av0[i] by {
                    assert(av0[i] == all@[i]@);
                }
                assert forall|k: IdView| aliases.aliases_map().contains_key(k) implies exists|i: int|
                    0 <= i < av0.len() && #[trigger] av0[i].name == k by {
                    let i = choose|i: int| 0 <= i < all@.len() && #[trigger] all@[i]@.name == k;
                    assert(av0[i] == all@[i]@);
                }
                assert(enumerates(av0, aliases.aliases_map()));
            }
            proof {
                assert(all@.len() == count);
                let av = ref_views(all@);
                let f = spec_fuzzy_filter(av, alias@);
                assert(av.len() == all@.len());
                aliases.lemma_aliases_map();
                lemma_fuzzy_filter_ranked(av, alias@);
                lemma_fuzzy_filter_members(av, alias@);
                assert forall|i: int| 0 <= i < s@.len() implies #[trigger] suggests(aliases.aliases_map(), s@[i]@, alias@) by {
                    let n = if f.len() < 5 { f.len() as int } else { 5 };
                    assert(s@.map_values(|t: String| t@).len() == s@.len());
                    assert(f.take(n).map_values(|a: AliasView| spec_full_name(a.name)).len() == n);
                    assert(i < n && n <= f.len());
                    assert(s@.map_values(|t: String| t@)[i] == s@[i]@);
                    assert(f.take(n).map_values(|a: AliasView| spec_full_name(a.name))[i] == spec_full_name(f[i].name));
                    assert(av.contains(f[i]));
                    let j = choose|j: int| 0 <= j < av.len() && av[j] == f[i];
                    assert(av[j] == all@[j]@);
                    let k = all@[j]@.name;
                    assert(aliases.aliases_map().contains_key(k));
                    assert(aliases.aliases_map()[k] == f[i]);
                }
            }
            return Err(McpError::AliasNotFound { alias: alias.to_owned(), suggestions: s });
        },
    };
    proof {
        aliases.lemma_aliases_map();
        vars.lemma_vars_map();
    }
    let exec_seq = match execution_sequence_for_dependencies(vars, &found) {
        Ok(s) => s,
        Err(e) => {
            proof {
                let al = aliases.aliases_map()[spec_from_str(alias@)];
                assert(found@ == al);
                let rts = spec_parse(al.alias, al.name.namespace);
                assert(rts == spec_parse(found.command_view(), found.namespace_view()));
                if e is MissingDependencies {
                    let iv = crate::identifiers::ids_view(e->MissingDependencies_0.0@);
                    assert(iv.contains(iv[0]));
                    assert(reachable(vars.vars_map(), rts, iv[0]));
                    assert(!vars.vars_map().contains_key(iv[0]));
                }
            }
            return Err(McpError::Dependencies(e));
        },
    };
    let ghost roots = spec_parse(found.command_view(), found.namespace_view());
    let ghost vm = vars.vars_map();
    let ghost n0: nat = choose|n: nat|
        {
            let fin = #[trigger] search_run(vars.vars_map(), search_start(roots), n);
            &&& fin.cand.len() == 0
            &&& fin.missing.len() == 0 && exec_seq@ == fin.out
        };
    assert({
        let fin = search_run(vm, search_start(roots), n0);
        &&& fin.cand.len() == 0
        &&& fin.missing.len() == 0 && exec_seq@ == fin.out
    });
    let choices = given_choice_list(given);
    let ghost ch = choice_map_view(choices@);
    let seq = exec_seq.identifiers();
    let ghost sv = crate::identifiers::ids_view(seq@);
    let ctx = ResolverContext {
        alias: found.clone(),
        full_name: found.full_name(),
        choices: crate::aliases::clone_choice_map(&choices),
        execution_sequence: exec_seq.identifiers(),
    };
    let mut i: usize = 0;
    while i < seq.len()
        invariant
            i <= seq@.len(),
            sv == crate::identifiers::ids_view(seq@),
            sv == exec_seq@,
            sv == search_run(vm, search_start(roots), n0).out,
            search_run(vm, search_start(roots), n0).cand.len() == 0,
            search_run(vm, search_start(roots), n0).missing.len() == 0,
            forall|x: IdView| exec_seq@.contains(x) <==> reachable(vm, roots, x),
            forall|x: IdView| reachable(vm, roots, x) ==> vm.contains_key(x),
            forall|k: IdView| #[trigger] vm.contains_key(k) ==> vm[k].name == k,
            vm == vars.vars_map(),
            ch == choice_map_view(choices@),
            ch == choice_map_view(ctx.choices@),
            ch == given_choices(given@),
            id@ == spec_from_str(alias@),
            aliases.aliases_map().contains_key(id@),
            found@ == aliases.aliases_map()[id@],
            roots == spec_parse(found@.alias, found@.name.namespace),
            forall|j: int| 0 <= j < i ==> key_index(ch, #[trigger] sv[j]) >= 0,
            acyclic(vm, roots) ==> forall|a: int, y: IdView|
                0 <= a < sv.len() && #[trigger] depends_on(vm, sv[a], y) ==> exists|j: int| 0 <= j < a && sv[j] == y,
        decreases seq@.len() - i,
    {
        let var_id = &seq[i];
        proof {
            assert(sv[i as int] == var_id@);
            assert(sv.contains(var_id@));
            crate::dependencies::lemma_key_index_keys(
                ch,
                choices@.map_values(|e: (Identifier, Vec<Choice>)| (e.0@, ())),
                var_id@,
            );
        }
        let has = crate::dependencies::find_entry(&choices, var_id);
        if has.is_none() {
            let var = match vars.get(var_id) {
                Some(v) => v,
                None => {
                    return Err(McpError::VarNotFound(var_id.clone()));
                },
            };
            proof {
                assert(vm.contains_key(var_id@));
                assert(var@ == vm[var_id@]);
                assert(var@.name == var_id@);
                if acyclic(vm, roots) {
                    assert forall|y: IdView| #[trigger] depends_on(vm, var_id@, y) implies key_index(ch, y) >= 0 by {
                        assert(depends_on(vm, sv[i as int], y));
                        let j = choose|j: int| 0 <= j < i && sv[j] == y;
                        assert(key_index(ch, sv[j]) >= 0);
                    }
                }
            }
            let info = match var_info(var, choice_for_var(resolver, var, &choices, &ctx)) {
                Ok(info) => info,
                Err(e) => {
                    return Err(e);
                },
            };
            proof {
                let fin = search_run(vm, search_start(roots), n0);
                assert(fin.out[i as int] == var_id@);
                assert(forall|j: int| 0 <= j < i ==> key_index(ch, #[trigger] fin.out[j]) >= 0);
                assert(first_unanswered(vm, roots, ch, var_id@));
            }
            return Ok(ResolveAliasResponse::NeedsVar { var: info });
        }
        i = i + 1;
    }
    proof {
        assert forall|j: int| 0 <= j < roots.len() implies key_index(ch, #[trigger] roots[j]) >= 0 by {
            lemma_root_reachable(vm, roots, j);
            assert(exec_seq@.contains(roots[j]));
            let k = choose|k: int| 0 <= k < sv.len() && sv[k] == roots[j];
            assert(key_index(ch, sv[k]) >= 0);
        }
        crate::engine::lemma_substitute_all_ok(found.command_view(), roots, ch);
    }
    match found.with_choices(&choices) {
        Ok(ra) => {
            let commands = crate::aliases::clone_strings_of(ra.commands());
            Ok(ResolveAliasResponse::Resolved { commands })
        },
        Err(e) => Err(McpError::Substitution(e)),
    }
}

} // verus!

//! The template grammar of aliases and vars: `{{ name }}` placeholders.
//!
//! A placeholder is `{{`, an optional space, a non-empty word, an optional space and `}}`.
//! Words are made of ASCII letters, digits and `_`, and, where namespaces are allowed,
//! of `:` too. Placeholders are found left to right and never overlap.
use vstd::prelude::*;
use crate::text::{occurs_at, extend_chars, slice_range, matches_at};

verus! {

/// A character that may appear in a placeholder's word.
pub open spec fn is_word_char(c: char, colon: bool) -> bool {
    ('a' <= c && c <= 'z') || ('A' <= c && c <= 'Z') || ('0' <= c && c <= '9') || c == '_' || (
    colon && c == ':')
}

/// The end of the run of word characters that starts at `j`.
pub open spec fn word_end(s: Seq<char>, j: int, colon: bool) -> int
    decreases s.len() - j,
{
    if 0 <= j < s.len() && is_word_char(s[j], colon) {
        word_end(s, j + 1, colon)
    } else {
        j
    }
}

/// The placeholder that starts at `i`, if one does: the start and end of its word and the
/// end of the placeholder.
pub open spec fn placeholder_at(s: Seq<char>, i: int, colon: bool) -> Option<(int, int, int)> {
    if 0 <= i && i + 2 <= s.len() && s[i] == '{' && s[i + 1] == '{' {
        let ws = if i + 2 < s.len() && s[i + 2] == ' ' { i + 3 } else { i + 2 };
        let we = word_end(s, ws, colon);
        if we > ws {
            let m = if we < s.len() && s[we] == ' ' { we + 1 } else { we };
            if m + 2 <= s.len() && s[m] == '}' && s[m + 1] == '}' {
                Some((ws, we, m + 2))
            } else {
                None
            }
        } else {
            None
        }
    } else {
        None
    }
}

/// All placeholders of `s` from position `i` on, left to right: for each, its start, the
/// start and end of its word, and its end.
pub open spec fn placeholders_from(s: Seq<char>, i: int, colon: bool) -> Seq<(int, int, int, int)>
    decreases s.len() - i,
{
    if i < 0 || i >= s.len() {
        Seq::empty()
    } else {
        match placeholder_at(s, i, colon) {
            Some((ws, we, e)) => if e > i {
                seq![(i, ws, we, e)] + placeholders_from(s, e, colon)
            } else {
                Seq::empty()
            },
            None => placeholders_from(s, i + 1, colon),
        }
    }
}

/// All placeholders of `s`.
pub open spec fn placeholders(s: Seq<char>, colon: bool) -> Seq<(int, int, int, int)> {
    placeholders_from(s, 0, colon)
}

pub proof fn lemma_word_end(s: Seq<char>, j: int, colon: bool)
    requires
        0 <= j <= s.len(),
    ensures
        j <= word_end(s, j, colon) <= s.len(),
        forall|k: int| j <= k < word_end(s, j, colon) ==> is_word_char(#[trigger] s[k], colon),
        word_end(s, j, colon) < s.len() ==> !is_word_char(s[word_end(s, j, colon)], colon),
    decreases s.len() - j,
{
    if 0 <= j < s.len() && is_word_char(s[j], colon) {
        lemma_word_end(s, j + 1, colon);
    }
}

pub proof fn lemma_placeholder_at(s: Seq<char>, i: int, colon: bool)
    ensures
        placeholder_at(s, i, colon) matches Some((ws, we, e)) ==> i + 2 <= ws < we && we + 2 <= e
            && e <= s.len(),
{
    if 0 <= i && i + 2 <= s.len() && s[i] == '{' && s[i + 1] == '{' {
        let ws = if i + 2 < s.len() && s[i + 2] == ' ' { i + 3 } else { i + 2 };
        lemma_word_end(s, ws, colon);
    }
}

pub proof fn lemma_placeholders_bounds(s: Seq<char>, i: int, colon: bool)
    ensures
        forall|k: int|
            0 <= k < placeholders_from(s, i, colon).len() ==> {
                let p = #[trigger] placeholders_from(s, i, colon)[k];
                &&& i <= p.0
                &&& p.0 + 2 <= p.1 < p.2
                &&& p.2 + 2 <= p.3 <= s.len()
            },
    decreases s.len() - i,
{
    if i < 0 || i >= s.len() {
    } else {
        lemma_placeholder_at(s, i, colon);
        match placeholder_at(s, i, colon) {
            Some((ws, we, e)) => if e > i {
                lemma_placeholders_bounds(s, e, colon);
                let rest = placeholders_from(s, e, colon);
                assert forall|k: int| 0 <= k < placeholders_from(s, i, colon).len() implies {
                    let p = #[trigger] placeholders_from(s, i, colon)[k];
                    &&& i <= p.0
                    &&& p.0 + 2 <= p.1 < p.2
                    &&& p.2 + 2 <= p.3 <= s.len()
                } by {
                    assert(placeholders_from(s, i, colon) == seq![(i, ws, we, e)] + rest);
                    if k > 0 {
                        assert(placeholders_from(s, i, colon)[k] == rest[k - 1]);
                    }
                }
            },
            None => {
                lemma_placeholders_bounds(s, i + 1, colon);
                assert(placeholders_from(s, i, colon) == placeholders_from(s, i + 1, colon));
            },
        }
    }
}

/// End of the run of word characters starting at `j`.
pub fn word_end_exec(s: &[char], j: usize, colon: bool) -> (r: usize)
    requires
        j <= s.len(),
    ensures
        r as int == word_end(s@, j as int, colon),
{
    let mut k = j;
    while k < s.len() && is_word_char_exec(s[k], colon)
        invariant
            j <= k <= s.len(),
            word_end(s@, j as int, colon) == word_end(s@, k as int, colon),
        decreases s.len() - k,
    {
        k = k + 1;
    }
    k
}

/// Whether `c` may appear in a placeholder's word.
pub fn is_word_char_exec(c: char, colon: bool) -> (r: bool)
    ensures
        r == is_word_char(c, colon),
{
    ('a' <= c && c <= 'z') || ('A' <= c && c <= 'Z') || ('0' <= c && c <= '9') || c == '_' || (
    colon && c == ':')
}

/// The placeholder that starts at `i`, if any.
pub fn placeholder_at_exec(s: &[char], i: usize, colon: bool) -> (r: Option<(usize, usize, usize)>)
    ensures
        match r {
            Some((ws, we, e)) => placeholder_at(s@, i as int, colon) == Some(
                (ws as int, we as int, e as int),
            ),
            None => placeholder_at(s@, i as int, colon) is None,
        },
{
    if i < s.len() && s.len() - i >= 2 && s[i] == '{' && s[i + 1] == '{' {
        let ws = if i + 2 < s.len() && s[i + 2] == ' ' { i + 3 } else { i + 2 };
        let we = word_end_exec(s, ws, colon);
        if we > ws {
            let m = if we < s.len() && s[we] == ' ' { we + 1 } else { we };
            if m < s.len() && s.len() - m >= 2 && s[m] == '}' && s[m + 1] == '}' {
                Some((ws, we, m + 2))
            } else {
                None
            }
        } else {
            None
        }
    } else {
        None
    }
}

/// The placeholders of `s` as (start, word start, word end, end).
pub open spec fn positions_view(v: Seq<(usize, usize, usize, usize)>) -> Seq<(int, int, int, int)> {
    v.map_values(|t: (usize, usize, usize, usize)| (t.0 as int, t.1 as int, t.2 as int, t.3 as int))
}

/// All placeholders of `s`, left to right.
pub fn find_placeholders(s: &[char], colon: bool) -> (r: Vec<(usize, usize, usize, usize)>)
    ensures
        positions_view(r@) == placeholders(s@, colon),
{
    let mut r: Vec<(usize, usize, usize, usize)> = Vec::new();
    let mut i: usize = 0;
    while i < s.len()
        invariant
            i <= s.len(),
            positions_view(r@) + placeholders_from(s@, i as int, colon) == placeholders(s@, colon),
        decreases s.len() - i,
    {
        proof { lemma_placeholder_at(s@, i as int, colon); }
        match placeholder_at_exec(s, i, colon) {
            Some((ws, we, e)) => {
                let ghost r0 = r@;
                r.push((i, ws, we, e));
                assert(positions_view(r@) =~= positions_view(r0) + seq![(i as int, ws as int, we as int, e as int)]);
                i = e;
            },
            None => {
                i = i + 1;
            },
        }
    }
    assert(placeholders_from(s@, i as int, colon) =~= Seq::<(int, int, int, int)>::empty());
    assert(positions_view(r@) =~= positions_view(r@) + Seq::<(int, int, int, int)>::empty());
    r
}

} // verus!

verus! {

/// `{{ ` as characters.
pub open spec fn open_braces() -> Seq<char> {
    seq!['{', '{', ' ']
}

/// ` }}` as characters.
pub open spec fn close_braces() -> Seq<char> {
    seq![' ', '}', '}']
}

/// `::` as characters.
pub open spec fn ns_sep() -> Seq<char> {
    seq![':', ':']
}

/// `s` from `i` on, with every namespace-less placeholder `{{ word }}` rewritten as
/// `{{ ns::word }}`.
pub open spec fn qualify_from(s: Seq<char>, i: int, ns: Seq<char>) -> Seq<char>
    decreases s.len() - i,
{
    if i < 0 || i >= s.len() {
        Seq::empty()
    } else {
        match placeholder_at(s, i, false) {
            Some((ws, we, e)) => if e > i {
                open_braces() + ns + ns_sep() + s.subrange(ws, we) + close_braces() + qualify_from(
                    s,
                    e,
                    ns,
                )
            } else {
                Seq::empty()
            },
            None => seq![s[i]] + qualify_from(s, i + 1, ns),
        }
    }
}

/// The characters `{{ `.
pub fn open_braces_exec() -> (r: Vec<char>)
    ensures
        r@ == open_braces(),
{
    let mut r = Vec::new();
    r.push('{');
    r.push('{');
    r.push(' ');
    assert(r@ =~= open_braces());
    r
}

/// The characters ` }}`.
pub fn close_braces_exec() -> (r: Vec<char>)
    ensures
        r@ == close_braces(),
{
    let mut r = Vec::new();
    r.push(' ');
    r.push('}');
    r.push('}');
    assert(r@ =~= close_braces());
    r
}

/// The characters `::`.
pub fn ns_sep_exec() -> (r: Vec<char>)
    ensures
        r@ == ns_sep(),
{
    let mut r = Vec::new();
    r.push(':');
    r.push(':');
    assert(r@ =~= ns_sep());
    r
}

/// Rewrites each namespace-less placeholder `{{ word }}` of `s` as `{{ ns::word }}`.
pub fn qualify_placeholders(s: &[char], ns: &[char]) -> (r: Vec<char>)
    ensures
        r@ == qualify_from(s@, 0, ns@),
{
    let ob = open_braces_exec();
    let cb = close_braces_exec();
    let sep = ns_sep_exec();
    let mut r: Vec<char> = Vec::new();
    let mut i: usize = 0;
    while i < s.len()
        invariant
            i <= s.len(),
            ob@ == open_braces(),
            cb@ == close_braces(),
            sep@ == ns_sep(),
            r@ + qualify_from(s@, i as int, ns@) == qualify_from(s@, 0, ns@),
        decreases s.len() - i,
    {
        proof { lemma_placeholder_at(s@, i as int, false); }
        let ghost r0 = r@;
        match placeholder_at_exec(s, i, false) {
            Some((ws, we, e)) => {
                extend_chars(&mut r, ob.as_slice());
                extend_chars(&mut r, ns);
                extend_chars(&mut r, sep.as_slice());
                let word = slice_range(s, ws, we);
                extend_chars(&mut r, word.as_slice());
                extend_chars(&mut r, cb.as_slice());
                assert(r@ + qualify_from(s@, e as int, ns@) =~= r0 + qualify_from(s@, i as int, ns@));
                i = e;
            },
            None => {
                r.push(s[i]);
                assert(r@ + qualify_from(s@, i + 1, ns@) =~= r0 + qualify_from(s@, i as int, ns@));
                i = i + 1;
            },
        }
    }
    assert(qualify_from(s@, i as int, ns@) =~= Seq::<char>::empty());
    assert(r@ =~= r@ + Seq::<char>::empty());
    r
}

/// After the name `name` found at `p`: the end of `name`, an optional space and `}}`.
pub open spec fn literal_tail(s: Seq<char>, p: int, name: Seq<char>) -> Option<int> {
    if occurs_at(s, name, p) {
        let q = p + name.len();
        if q + 3 <= s.len() && s[q] == ' ' && s[q + 1] == '}' && s[q + 2] == '}' {
            Some(q + 3)
        } else if q + 2 <= s.len() && s[q] == '}' && s[q + 1] == '}' {
            Some(q + 2)
        } else {
            None
        }
    } else {
        None
    }
}

/// The end of the placeholder naming exactly `name` (`{{`, an optional space, `name`, an
/// optional space, `}}`) that starts at `i`, if there is one.
pub open spec fn literal_at(s: Seq<char>, i: int, name: Seq<char>) -> Option<int> {
    if 0 <= i && i + 2 <= s.len() && s[i] == '{' && s[i + 1] == '{' {
        let with_space = if i + 2 < s.len() && s[i + 2] == ' ' {
            literal_tail(s, i + 3, name)
        } else {
            None
        };
        match with_space {
            Some(e) => Some(e),
            None => literal_tail(s, i + 2, name),
        }
    } else {
        None
    }
}

/// The leftmost placeholder naming exactly `name`, at or after `i`: its start and end.
pub open spec fn first_literal_from(s: Seq<char>, i: int, name: Seq<char>) -> Option<(int, int)>
    decreases s.len() - i,
{
    if i < 0 || i >= s.len() {
        None
    } else {
        match literal_at(s, i, name) {
            Some(e) => Some((i, e)),
            None => first_literal_from(s, i + 1, name),
        }
    }
}

/// `s` with its leftmost placeholder naming exactly `name` replaced by `value`.
pub open spec fn replace_first_placeholder(s: Seq<char>, name: Seq<char>, value: Seq<char>) -> Seq<
    char,
> {
    match first_literal_from(s, 0, name) {
        Some((st, en)) => s.subrange(0, st) + value + s.subrange(en, s.len() as int),
        None => s,
    }
}

pub proof fn lemma_literal_at(s: Seq<char>, i: int, name: Seq<char>)
    ensures
        literal_at(s, i, name) matches Some(e) ==> i + 4 <= e <= s.len(),
{
}

pub proof fn lemma_first_literal_from(s: Seq<char>, i: int, name: Seq<char>)
    ensures
        first_literal_from(s, i, name) matches Some((st, en)) ==> 0 <= i <= st && st + 4 <= en
            <= s.len(),
    decreases s.len() - i,
{
    if i < 0 || i >= s.len() {
    } else {
        match literal_at(s, i, name) {
            Some(e) => {},
            None => lemma_first_literal_from(s, i + 1, name),
        }
    }
}

/// The end of `name` followed by an optional space and `}}` at `p`, if that is what is there.
pub fn literal_tail_exec(s: &[char], p: usize, name: &[char]) -> (r: Option<usize>)
    ensures
        match r {
            Some(e) => literal_tail(s@, p as int, name@) == Some(e as int),
            None => literal_tail(s@, p as int, name@) is None,
        },
{
    if matches_at(s, name, p) {
        assert(p + name@.len() <= s@.len());
        assert(name.len() == name@.len() && s.len() == s@.len());
        let q = p + name.len();
        if q < s.len() && s.len() - q >= 3 && s[q] == ' ' && s[q + 1] == '}' && s[q + 2] == '}' {
            Some(q + 3)
        } else if q < s.len() && s.len() - q >= 2 && s[q] == '}' && s[q + 1] == '}' {
            Some(q + 2)
        } else {
            None
        }
    } else {
        None
    }
}

/// The end of the placeholder naming exactly `name` that starts at `i`.
pub fn literal_at_exec(s: &[char], i: usize, name: &[char]) -> (r: Option<usize>)
    ensures
        match r {
            Some(e) => literal_at(s@, i as int, name@) == Some(e as int),
            None => literal_at(s@, i as int, name@) is None,
        },
{
    if i < s.len() && s.len() - i >= 2 && s[i] == '{' && s[i + 1] == '{' {
        let with_space = if i + 2 < s.len() && s[i + 2] == ' ' {
            literal_tail_exec(s, i + 3, name)
        } else {
            None
        };
        match with_space {
            Some(e) => Some(e),
            None => literal_tail_exec(s, i + 2, name),
        }
    } else {
        None
    }
}

/// Replaces the leftmost placeholder naming exactly `name` in `s` by `value`.
pub fn replace_first_exec(s: &[char], name: &[char], value: &[char]) -> (r: Vec<char>)
    ensures
        r@ == replace_first_placeholder(s@, name@, value@),
{
    let mut i: usize = 0;
    while i < s.len()
        invariant
            i <= s.len(),
            first_literal_from(s@, 0, name@) == first_literal_from(s@, i as int, name@),
        decreases s.len() - i,
    {
        match literal_at_exec(s, i, name) {
            Some(e) => {
                proof { lemma_literal_at(s@, i as int, name@); }
                let mut r = slice_range(s, 0, i);
                extend_chars(&mut r, value);
                let tail = slice_range(s, e, s.len());
                extend_chars(&mut r, tail.as_slice());
                return r;
            },
            None => {
                i = i + 1;
            },
        }
    }
    let r = slice_range(s, 0, s.len());
    assert(r@ =~= s@);
    r
}

} // verus!

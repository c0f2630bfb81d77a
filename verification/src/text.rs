//! Character-level text operations used by the template and identifier logic.
use vstd::prelude::*;
use vstd::string::*;

verus! {

/// `s` with every left-to-right, non-overlapping occurrence of `pat` replaced by `rep`
/// (the meaning of `str::replace`). An empty pattern leaves `s` unchanged.
pub open spec fn spec_replace(s: Seq<char>, pat: Seq<char>, rep: Seq<char>) -> Seq<char>
    decreases s.len(),
{
    if s.len() == 0 {
        s
    } else if pat.len() > 0 && pat.len() <= s.len() && s.subrange(0, pat.len() as int) == pat {
        rep + spec_replace(s.subrange(pat.len() as int, s.len() as int), pat, rep)
    } else {
        seq![s[0]] + spec_replace(s.subrange(1, s.len() as int), pat, rep)
    }
}

/// `pat` occurs in `s` starting at position `i`.
pub open spec fn occurs_at(s: Seq<char>, pat: Seq<char>, i: int) -> bool {
    0 <= i && i + pat.len() <= s.len() && s.subrange(i, i + pat.len()) == pat
}

/// `pat` occurs somewhere in `s`.
pub open spec fn contains_seq(s: Seq<char>, pat: Seq<char>) -> bool {
    exists|i: int| occurs_at(s, pat, i)
}

/// Appends one character to a `String` (`String::push`).
#[verifier::external_body]
pub(crate) fn push_char(s: &mut String, c: char)
    ensures
        final(s)@ == old(s)@.push(c),
{
    s.push(c);
}

/// The characters of `s`, one by one.
pub fn chars_of(s: &str) -> (r: Vec<char>)
    ensures
        r@ == s@,
{
    let n = s.unicode_len();
    let mut r: Vec<char> = Vec::new();
    let mut i: usize = 0;
    while i < n
        invariant
            n == s@.len(),
            i <= n,
            r@ == s@.subrange(0, i as int),
        decreases n - i,
    {
        let c = s.get_char(i);
        r.push(c);
        i = i + 1;
    }
    r
}

/// The `String` made of the characters of `v`.
pub fn string_of(v: &[char]) -> (r: String)
    ensures
        r@ == v@,
{
    let mut r = String::new();
    let mut i: usize = 0;
    while i < v.len()
        invariant
            i <= v.len(),
            r@ == v@.subrange(0, i as int),
        decreases v.len() - i,
    {
        push_char(&mut r, v[i]);
        i = i + 1;
    }
    r
}

/// Whether `pat` occurs in `s` at position `i`.
pub fn matches_at(s: &[char], pat: &[char], i: usize) -> (r: bool)
    ensures
        r == occurs_at(s@, pat@, i as int),
{
    if i > s.len() || pat.len() > s.len() - i {
        return false;
    }
    let mut j: usize = 0;
    while j < pat.len()
        invariant
            i + pat.len() <= s.len(),
            j <= pat.len(),
            forall|k: int| 0 <= k < j ==> s@[i + k] == pat@[k],
        decreases pat.len() - j,
    {
        if s[i + j] != pat[j] {
            assert(s@.subrange(i as int, i + pat.len())[j as int] != pat@[j as int]);
            return false;
        }
        j = j + 1;
    }
    assert(s@.subrange(i as int, i + pat.len()) =~= pat@);
    true
}

/// `s` with every occurrence of `pat` replaced by `rep`, as `str::replace` does.
pub fn replace_chars(s: &[char], pat: &[char], rep: &[char]) -> (r: Vec<char>)
    ensures
        r@ == spec_replace(s@, pat@, rep@),
{
    let mut r: Vec<char> = Vec::new();
    let mut i: usize = 0;
    assert(s@.subrange(0, s@.len() as int) =~= s@);
    while i < s.len()
        invariant
            i <= s.len(),
            r@ + spec_replace(s@.subrange(i as int, s.len() as int), pat@, rep@)
                == spec_replace(s@, pat@, rep@),
        decreases s.len() - i,
    {
        let ghost rest = s@.subrange(i as int, s.len() as int);
        if pat.len() > 0 && matches_at(s, pat, i) {
            assert(rest.subrange(0, pat@.len() as int) =~= s@.subrange(i as int, i + pat@.len()));
            assert(rest.subrange(pat@.len() as int, rest.len() as int)
                =~= s@.subrange(i + pat@.len(), s.len() as int));
            let ghost r0 = r@;
            let mut k: usize = 0;
            while k < rep.len()
                invariant
                    k <= rep.len(),
                    r@ == r0 + rep@.subrange(0, k as int),
                decreases rep.len() - k,
            {
                r.push(rep[k]);
                k = k + 1;
            }
            assert(rep@.subrange(0, rep@.len() as int) =~= rep@);
            assert(r@ + spec_replace(s@.subrange(i + pat@.len(), s.len() as int), pat@, rep@)
                =~= r0 + spec_replace(rest, pat@, rep@));
            i = i + pat.len();
        } else {
            proof {
                if pat.len() > 0 && pat.len() <= rest.len() {
                    assert(rest.subrange(0, pat@.len() as int) =~= s@.subrange(i as int, i + pat@.len()));
                }
                assert(rest.subrange(1, rest.len() as int) =~= s@.subrange(i + 1, s.len() as int));
            }
            let ghost r0 = r@;
            r.push(s[i]);
            assert(r@ + spec_replace(s@.subrange(i + 1, s.len() as int), pat@, rep@)
                =~= r0 + spec_replace(rest, pat@, rep@));
            i = i + 1;
        }
    }
    assert(s@.subrange(s@.len() as int, s@.len() as int) =~= Seq::<char>::empty());
    assert(r@ =~= r@ + spec_replace(Seq::<char>::empty(), pat@, rep@));
    r
}

} // verus!

verus! {

/// Position of the first occurrence of `pat` in `s` at or after `i`, or -1.
pub open spec fn spec_find_from(s: Seq<char>, pat: Seq<char>, i: int) -> int
    decreases s.len() + 1 - i,
{
    if i < 0 || i + pat.len() > s.len() {
        -1
    } else if occurs_at(s, pat, i) {
        i
    } else {
        spec_find_from(s, pat, i + 1)
    }
}

/// Position of the first occurrence of `pat` in `s`, or -1.
pub open spec fn spec_find(s: Seq<char>, pat: Seq<char>) -> int {
    spec_find_from(s, pat, 0)
}

/// The part of `s` before the first `pat`, or all of `s`.
pub open spec fn spec_before(s: Seq<char>, pat: Seq<char>) -> Seq<char> {
    let p = spec_find(s, pat);
    if p < 0 { s } else { s.subrange(0, p) }
}

/// The part of `s` after the first `pat` (empty when `pat` does not occur).
pub open spec fn spec_after(s: Seq<char>, pat: Seq<char>) -> Seq<char> {
    let p = spec_find(s, pat);
    if p < 0 { Seq::empty() } else { s.subrange(p + pat.len(), s.len() as int) }
}

pub proof fn lemma_find_from_bounds(s: Seq<char>, pat: Seq<char>, i: int)
    ensures
        spec_find_from(s, pat, i) == -1 || (i <= spec_find_from(s, pat, i) && occurs_at(
            s,
            pat,
            spec_find_from(s, pat, i),
        )),
        spec_find_from(s, pat, i) == -1 && 0 <= i ==> forall|k: int|
            i <= k ==> !#[trigger] occurs_at(s, pat, k),
    decreases s.len() + 1 - i,
{
    if i < 0 || i + pat.len() > s.len() {
    } else if occurs_at(s, pat, i) {
    } else {
        lemma_find_from_bounds(s, pat, i + 1);
        assert forall|k: int| i <= k && spec_find_from(s, pat, i) == -1 implies !#[trigger] occurs_at(s, pat, k) by {
            if k == i {
            } else {
            }
        }
    }
}

/// First occurrence of `pat` in `s` at or after `i`.
pub fn find_from(s: &[char], pat: &[char], i: usize) -> (r: Option<usize>)
    ensures
        match r {
            Some(p) => p as int == spec_find_from(s@, pat@, i as int),
            None => spec_find_from(s@, pat@, i as int) == -1,
        },
{
    let mut j = i;
    if j > s.len() || pat.len() > s.len() - j {
        return None;
    }
    let limit = s.len() - pat.len();
    loop
        invariant
            i <= j <= limit,
            limit + pat.len() == s.len(),
            spec_find_from(s@, pat@, i as int) == spec_find_from(s@, pat@, j as int),
        decreases limit - j,
    {
        if matches_at(s, pat, j) {
            return Some(j);
        }
        if j == limit {
            assert(spec_find_from(s@, pat@, j + 1) == -1);
            return None;
        }
        j = j + 1;
    }
}

/// `s` split around the first occurrence of `pat`: what comes before it, and, when `pat`
/// occurs, what comes after it.
pub fn split_once(s: &[char], pat: &[char]) -> (r: (Vec<char>, Option<Vec<char>>))
    ensures
        r.0@ == spec_before(s@, pat@),
        r.1 is Some <==> spec_find(s@, pat@) >= 0,
        r.1 matches Some(a) ==> a@ == spec_after(s@, pat@),
{
    proof { lemma_find_from_bounds(s@, pat@, 0); }
    match find_from(s, pat, 0) {
        Some(p) => {
            assert(occurs_at(s@, pat@, p as int));
            assert(p + pat@.len() <= s@.len());
            assert(pat.len() == pat@.len() && s.len() == s@.len());
            let before = slice_range(s, 0, p);
            let after = slice_range(s, p + pat.len(), s.len());
            (before, Some(after))
        },
        None => {
            let all = slice_range(s, 0, s.len());
            assert(all@ =~= s@);
            (all, None)
        },
    }
}

/// The characters of `s` from `from` up to `to`.
pub fn slice_range(s: &[char], from: usize, to: usize) -> (r: Vec<char>)
    requires
        from <= to <= s.len(),
    ensures
        r@ == s@.subrange(from as int, to as int),
{
    let mut r: Vec<char> = Vec::new();
    let mut i = from;
    while i < to
        invariant
            from <= i <= to,
            to <= s.len(),
            r@ == s@.subrange(from as int, i as int),
        decreases to - i,
    {
        r.push(s[i]);
        i = i + 1;
    }
    r
}

/// Appends the characters of `b` to `a`.
pub fn extend_chars(a: &mut Vec<char>, b: &[char])
    ensures
        final(a)@ == old(a)@ + b@,
{
    let mut i: usize = 0;
    while i < b.len()
        invariant
            i <= b.len(),
            a@ == old(a)@ + b@.subrange(0, i as int),
        decreases b.len() - i,
    {
        a.push(b[i]);
        i = i + 1;
    }
    assert(b@.subrange(0, b@.len() as int) =~= b@);
}

/// Appends `t` to the string `s`.
pub fn push_string(s: &mut String, t: &str)
    ensures
        final(s)@ == old(s)@ + t@,
{
    let tc = chars_of(t);
    let mut i: usize = 0;
    while i < tc.len()
        invariant
            i <= tc@.len(),
            tc@ == t@,
            s@ == old(s)@ + t@.subrange(0, i as int),
        decreases tc@.len() - i,
    {
        push_char(s, tc[i]);
        assert(t@.subrange(0, i + 1) =~= t@.subrange(0, i as int).push(tc@[i as int]));
        i = i + 1;
    }
    assert(t@.subrange(0, i as int) =~= t@);
}

/// Appends the characters of `s` to `a`.
pub fn push_str(a: &mut Vec<char>, s: &str)
    ensures
        final(a)@ == old(a)@ + s@,
{
    let c = chars_of(s);
    extend_chars(a, c.as_slice());
}

/// Whether two character sequences are equal.
pub fn chars_eq(a: &[char], b: &[char]) -> (r: bool)
    ensures
        r == (a@ == b@),
{
    if a.len() != b.len() {
        return false;
    }
    let mut i: usize = 0;
    while i < a.len()
        invariant
            a.len() == b.len(),
            i <= a.len(),
            forall|k: int| 0 <= k < i ==> a@[k] == b@[k],
        decreases a.len() - i,
    {
        if a[i] != b[i] {
            return false;
        }
        i = i + 1;
    }
    assert(a@ =~= b@);
    true
}

/// `s` with `pat` replaced by `rep`, on strings.
pub fn str_replace(s: &str, pat: &str, rep: &str) -> (r: String)
    ensures
        r@ == spec_replace(s@, pat@, rep@),
{
    let sc = chars_of(s);
    let pc = chars_of(pat);
    let rc = chars_of(rep);
    let out = replace_chars(sc.as_slice(), pc.as_slice(), rc.as_slice());
    string_of(out.as_slice())
}

/// A copy of an optional string.
pub fn clone_opt_string(o: &Option<String>) -> (r: Option<String>)
    ensures
        r == *o,
        opt_view(r) == opt_view(*o),
{
    match o {
        Some(s) => Some(s.clone()),
        None => None,
    }
}

/// The view of an optional string.
pub open spec fn opt_view(o: Option<String>) -> Option<Seq<char>> {
    match o {
        Some(s) => Some(s@),
        None => None,
    }
}

/// Whether two strings hold the same characters.
pub fn str_eq(a: &str, b: &str) -> (r: bool)
    ensures
        r == (a@ == b@),
{
    let ac = chars_of(a);
    let bc = chars_of(b);
    chars_eq(ac.as_slice(), bc.as_slice())
}

/// Whether two optional strings are equal.
pub fn opt_str_eq(a: &Option<String>, b: &Option<String>) -> (r: bool)
    ensures
        r == (opt_view(*a) == opt_view(*b)),
{
    match (a, b) {
        (Some(x), Some(y)) => str_eq(x.as_str(), y.as_str()),
        (None, None) => true,
        _ => false,
    }
}

} // verus!

verus! {

/// The one-character sequence `a`.
pub fn chars1(a: char) -> (r: Vec<char>)
    ensures
        r@ == seq![a],
{
    let mut r = Vec::new();
    r.push(a);
    assert(r@ =~= seq![a]);
    r
}

/// The two-character sequence `a b`.
pub fn chars2(a: char, b: char) -> (r: Vec<char>)
    ensures
        r@ == seq![a, b],
{
    let mut r = Vec::new();
    r.push(a);
    r.push(b);
    assert(r@ =~= seq![a, b]);
    r
}

/// The three-character sequence `a b c`.
pub fn chars3(a: char, b: char, c: char) -> (r: Vec<char>)
    ensures
        r@ == seq![a, b, c],
{
    let mut r = Vec::new();
    r.push(a);
    r.push(b);
    r.push(c);
    assert(r@ =~= seq![a, b, c]);
    r
}

/// `line` without one trailing carriage return.
pub open spec fn strip_cr(line: Seq<char>) -> Seq<char> {
    if line.len() > 0 && line.last() == '\r' {
        line.drop_last()
    } else {
        line
    }
}

/// Reading `s` from the left: the lines ended so far (each without its newline and one
/// trailing carriage return) and the line still open.
pub open spec fn lines_state(s: Seq<char>) -> (Seq<Seq<char>>, Seq<char>)
    decreases s.len(),
{
    if s.len() == 0 {
        (Seq::empty(), Seq::empty())
    } else {
        let (ls, cur) = lines_state(s.drop_last());
        if s.last() == '\n' {
            (ls.push(strip_cr(cur)), Seq::empty())
        } else {
            (ls, cur.push(s.last()))
        }
    }
}

/// The lines of `s`, as a buffered reader gives them: split at each newline, each without a
/// trailing carriage return, and a last line without newline kept when it is not empty.
pub open spec fn spec_lines(s: Seq<char>) -> Seq<Seq<char>> {
    let (ls, cur) = lines_state(s);
    if cur.len() > 0 {
        ls.push(cur)
    } else {
        ls
    }
}

/// The lines of `s` (see `spec_lines`).
pub fn split_lines(s: &str) -> (r: Vec<String>)
    ensures
        r@.map_values(|l: String| l@) == spec_lines(s@),
{
    let cs = chars_of(s);
    let mut out: Vec<String> = Vec::new();
    let mut cur: Vec<char> = Vec::new();
    let mut i: usize = 0;
    while i < cs.len()
        invariant
            i <= cs.len(),
            cs@ == s@,
            (out@.map_values(|l: String| l@), cur@) == lines_state(s@.subrange(0, i as int)),
        decreases cs.len() - i,
    {
        let c = cs[i];
        assert(s@.subrange(0, i + 1).drop_last() =~= s@.subrange(0, i as int));
        if c == '\n' {
            let ghost before = out@;
            if cur.len() > 0 && cur[cur.len() - 1] == '\r' {
                let _ = cur.pop();
            }
            out.push(string_of(cur.as_slice()));
            assert(out@.map_values(|l: String| l@) =~= before.map_values(|l: String| l@).push(cur@));
            cur = Vec::new();
        } else {
            cur.push(c);
        }
        i = i + 1;
    }
    assert(s@.subrange(0, i as int) =~= s@);
    if cur.len() > 0 {
        let ghost before = out@;
        out.push(string_of(cur.as_slice()));
        assert(out@.map_values(|l: String| l@) =~= before.map_values(|l: String| l@).push(cur@));
    }
    out
}

/// `std::str::from_utf8`: the text that `bytes` encode, when they are valid UTF-8 (as its
/// documentation says, it fails exactly on invalid UTF-8).
#[verifier::external_body]
pub(crate) fn str_from_utf8(bytes: &[u8]) -> (r: Option<&str>)
    ensures
        r is Some <==> vstd::utf8::valid_utf8(bytes@),
        r matches Some(s) ==> s@ == vstd::utf8::decode_utf8(bytes@),
{
    std::str::from_utf8(bytes).ok()
}

} // verus!

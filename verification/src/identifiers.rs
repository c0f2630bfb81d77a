//! Identifiers of vars and aliases: a name and an optional namespace.
use vstd::prelude::*;
use crate::text::{
    chars_of, string_of, replace_chars, spec_replace, opt_view, clone_opt_string, opt_str_eq,
    split_once, spec_before, spec_after, spec_find, spec_find_from, occurs_at, extend_chars, chars1,
    chars2, chars3, lemma_find_from_bounds,
};
use crate::template::{find_placeholders, placeholders, ns_sep, ns_sep_exec, positions_view};

verus! {

/// What an identifier stands for: its name and its namespace.
pub struct IdView {
    pub name: Seq<char>,
    pub namespace: Option<Seq<char>>,
}

/// The name of a var or an alias, with the namespace it lives in.
#[derive(Debug, Hash, PartialOrd, Ord)]
pub struct Identifier {
    pub inner: String,
    pub namespace: Option<String>,
}

impl View for Identifier {
    type V = IdView;

    open spec fn view(&self) -> IdView {
        IdView { name: self.inner@, namespace: opt_view(self.namespace) }
    }
}

impl Clone for Identifier {
    fn clone(&self) -> (r: Self)
        ensures
            r == *self,
    {
        Identifier { inner: self.inner.clone(), namespace: clone_opt_string(&self.namespace) }
    }
}

impl PartialEq for Identifier {
    fn eq(&self, other: &Self) -> (r: bool) {
        let a = opt_str_eq(&self.namespace, &other.namespace);
        let b = crate::text::str_eq(self.inner.as_str(), other.inner.as_str());
        a && b
    }
}

impl vstd::std_specs::cmp::PartialEqSpecImpl for Identifier {
    open spec fn obeys_eq_spec() -> bool {
        true
    }

    open spec fn eq_spec(&self, other: &Identifier) -> bool {
        self.inner@ == other.inner@ && opt_view(self.namespace) == opt_view(other.namespace)
    }
}

impl Eq for Identifier {

}

/// `{{ ` → `{{`, ` }}` → `}}`, spaces removed, then `{{` and `}}` removed.
pub open spec fn spec_new_name(s: Seq<char>) -> Seq<char> {
    spec_replace(
        spec_replace(
            spec_replace(
                spec_replace(spec_replace(s, seq!['{', '{', ' '], seq!['{', '{']), seq![' ', '}', '}'], seq!['}', '}']),
                seq![' '],
                Seq::empty(),
            ),
            seq!['{', '{'],
            Seq::empty(),
        ),
        seq!['}', '}'],
        Seq::empty(),
    )
}

/// `{ ` → `{`, ` }` → `}`, spaces removed, then `{{`, `}}`, `]]` and `[[` removed.
pub open spec fn spec_sanitize(s: Seq<char>) -> Seq<char> {
    spec_replace(
        spec_replace(
            spec_replace(
                spec_replace(
                    spec_replace(
                        spec_replace(spec_replace(s, seq!['{', ' '], seq!['{']), seq![' ', '}'], seq!['}']),
                        seq![' '],
                        Seq::empty(),
                    ),
                    seq!['{', '{'],
                    Seq::empty(),
                ),
                seq!['}', '}'],
                Seq::empty(),
            ),
            seq![']', ']'],
            Seq::empty(),
        ),
        seq!['[', '['],
        Seq::empty(),
    )
}

/// The name and namespace read from `s`: when `s` holds `::`, the sanitized part before
/// the first `::` is the namespace (none when empty) and the sanitized part after it, up to
/// a second `::`, is the name; otherwise `s` itself is the name.
pub open spec fn spec_maybe_namespace(s: Seq<char>) -> (Seq<char>, Option<Seq<char>>) {
    if spec_find(s, ns_sep()) >= 0 {
        let ns = spec_sanitize(spec_before(s, ns_sep()));
        let name = spec_sanitize(spec_before(spec_after(s, ns_sep()), ns_sep()));
        if ns.len() > 0 {
            (name, Some(ns))
        } else {
            (name, None)
        }
    } else {
        (s, None)
    }
}

/// The identifier that `Identifier::from_str` reads from `s`.
pub open spec fn spec_from_str(s: Seq<char>) -> IdView {
    let (name, ns) = spec_maybe_namespace(s);
    IdView { name: spec_sanitize(name), namespace: ns }
}

/// The identifier that a placeholder's text stands for, with `default` as the namespace
/// when it names none.
pub open spec fn spec_id_of_placeholder(text: Seq<char>, default: Option<Seq<char>>) -> IdView {
    let (name, ns) = spec_maybe_namespace(text);
    IdView {
        name: spec_sanitize(name),
        namespace: match ns {
            Some(n) => Some(n),
            None => default,
        },
    }
}

/// The identifiers named by the placeholders of `s`, in order.
pub open spec fn spec_parse(s: Seq<char>, default: Option<Seq<char>>) -> Seq<IdView> {
    placeholders(s, true).map_values(
        |p: (int, int, int, int)| spec_id_of_placeholder(s.subrange(p.0, p.3), default),
    )
}

/// How an identifier is shown: `namespace::name`, or the name alone when the namespace is
/// missing or empty.
pub open spec fn spec_display(id: IdView) -> Seq<char> {
    match id.namespace {
        Some(ns) => if ns.len() > 0 { ns + ns_sep() + id.name } else { id.name },
        None => id.name,
    }
}

/// `s` holds none of the characters that identifiers are parsed and sanitized by: spaces,
/// braces, brackets and colons.
pub open spec fn plain_text(s: Seq<char>) -> bool {
    forall|i: int| 0 <= i < s.len() ==> {
        let c = #[trigger] s[i];
        c != ' ' && c != '{' && c != '}' && c != '[' && c != ']' && c != ':'
    }
}

/// Replacing a pattern whose first character `s` does not hold leaves `s` as it is.
proof fn lemma_replace_absent(s: Seq<char>, pat: Seq<char>, rep: Seq<char>)
    requires
        pat.len() > 0,
        forall|i: int| 0 <= i < s.len() ==> s[i] != pat[0],
    ensures
        spec_replace(s, pat, rep) == s,
    decreases s.len(),
{
    if s.len() > 0 {
        if pat.len() <= s.len() && s.subrange(0, pat.len() as int) == pat {
            assert(s.subrange(0, pat.len() as int)[0] == s[0]);
        }
        let rest = s.subrange(1, s.len() as int);
        lemma_replace_absent(rest, pat, rep);
        assert(seq![s[0]] + rest =~= s);
    }
}

/// Sanitizing a plain text leaves it as it is.
proof fn lemma_sanitize_plain(s: Seq<char>)
    requires
        plain_text(s),
    ensures
        spec_sanitize(s) == s,
{
    let e = Seq::<char>::empty();
    assert forall|i: int| 0 <= i < s.len() implies s[i] != seq!['{', ' '][0] && s[i] != seq![' ', '}'][0] && s[i]
        != seq![' '][0] && s[i] != seq!['{', '{'][0] && s[i] != seq!['}', '}'][0] && s[i] != seq![']', ']'][0]
        && s[i] != seq!['[', '['][0] by {
        assert(plain_text(s));
        let c = s[i];
    }
    lemma_replace_absent(s, seq!['{', ' '], seq!['{']);
    lemma_replace_absent(s, seq![' ', '}'], seq!['}']);
    lemma_replace_absent(s, seq![' '], e);
    lemma_replace_absent(s, seq!['{', '{'], e);
    lemma_replace_absent(s, seq!['}', '}'], e);
    lemma_replace_absent(s, seq![']', ']'], e);
    lemma_replace_absent(s, seq!['[', '['], e);
}

/// A text without colons holds no `::`.
proof fn lemma_find_none(s: Seq<char>)
    requires
        forall|i: int| 0 <= i < s.len() ==> s[i] != ':',
    ensures
        spec_find(s, ns_sep()) == -1,
{
    lemma_find_from_bounds(s, ns_sep(), 0);
    let p = spec_find_from(s, ns_sep(), 0);
    if p != -1 {
        assert(occurs_at(s, ns_sep(), p));
        assert(s.subrange(p, p + 2)[0] == s[p]);
        assert(ns_sep()[0] == ':');
    }
}

/// In `ns::name` with no colon in `ns`, the first `::` follows `ns`.
proof fn lemma_find_after(ns: Seq<char>, name: Seq<char>, i: int)
    requires
        0 <= i <= ns.len(),
        forall|k: int| 0 <= k < ns.len() ==> ns[k] != ':',
    ensures
        spec_find_from(ns + ns_sep() + name, ns_sep(), i) == ns.len(),
    decreases ns.len() - i,
{
    let s = ns + ns_sep() + name;
    if i == ns.len() {
        assert(s.subrange(i, i + 2) =~= ns_sep());
        assert(occurs_at(s, ns_sep(), i));
    } else {
        assert(s[i] == ns[i]);
        if occurs_at(s, ns_sep(), i) {
            assert(s.subrange(i, i + 2)[0] == s[i]);
            assert(ns_sep()[0] == ':');
        }
        lemma_find_after(ns, name, i + 1);
    }
}

/// An identifier shown as text reads back as itself, when its name and namespace are plain
/// texts and the namespace is not empty.
pub proof fn lemma_display_reads_back(id: IdView)
    requires
        plain_text(id.name),
        match id.namespace {
            Some(ns) => ns.len() > 0 && plain_text(ns),
            None => true,
        },
    ensures
        spec_from_str(spec_display(id)) == id,
{
    lemma_sanitize_plain(id.name);
    assert forall|i: int| 0 <= i < id.name.len() implies id.name[i] != ':' by {
        assert(plain_text(id.name));
        let c = id.name[i];
    }
    lemma_find_none(id.name);
    match id.namespace {
        Some(ns) => {
            let s = ns + ns_sep() + id.name;
            assert forall|k: int| 0 <= k < ns.len() implies ns[k] != ':' by {
                assert(plain_text(ns));
                let c = ns[k];
            }
            lemma_find_after(ns, id.name, 0);
            lemma_sanitize_plain(ns);
            assert(spec_before(s, ns_sep()) =~= ns);
            assert(spec_after(s, ns_sep()) =~= id.name);
            assert(spec_before(id.name, ns_sep()) == id.name);
        },
        None => {},
    }
}

/// The views of a sequence of identifiers.
pub open spec fn ids_view(ids: Seq<Identifier>) -> Seq<IdView> {
    ids.map_values(|i: Identifier| i@)
}

fn replace_lit(s: &[char], pat: &[char], rep: &[char]) -> (r: Vec<char>)
    ensures
        r@ == spec_replace(s@, pat@, rep@),
{
    replace_chars(s, pat, rep)
}

impl Identifier {
    /// A new identifier without a namespace; the braces and spaces of a placeholder are
    /// taken off the name.
    pub fn new(name: &str) -> (r: Identifier)
        ensures
            r@ == (IdView { name: spec_new_name(name@), namespace: None }),
    {
        let e: Vec<char> = Vec::new();
        let s = chars_of(name);
        let s1 = replace_lit(s.as_slice(), chars3('{', '{', ' ').as_slice(), chars2('{', '{').as_slice());
        let s2 = replace_lit(s1.as_slice(), chars3(' ', '}', '}').as_slice(), chars2('}', '}').as_slice());
        let s3 = replace_lit(s2.as_slice(), chars1(' ').as_slice(), e.as_slice());
        let s4 = replace_lit(s3.as_slice(), chars2('{', '{').as_slice(), e.as_slice());
        let s5 = replace_lit(s4.as_slice(), chars2('}', '}').as_slice(), e.as_slice());
        Identifier { inner: string_of(s5.as_slice()), namespace: None }
    }

    /// The identifier with exactly this name and namespace, as a file spells them.
    pub fn from_parts(name: &str, namespace: Option<&str>) -> (r: Identifier)
        ensures
            r@ == (IdView {
                name: name@,
                namespace: match namespace {
                    Some(n) => Some(n@),
                    None => None,
                },
            }),
    {
        let ns = match namespace {
            Some(x) => Some(x.to_owned()),
            None => None,
        };
        Identifier { inner: name.to_owned(), namespace: ns }
    }

    /// Takes the braces, brackets and spaces of a placeholder off `s`.
    pub fn sanitize_identifier(s: &[char]) -> (r: Vec<char>)
        ensures
            r@ == spec_sanitize(s@),
    {
        let e: Vec<char> = Vec::new();
        let s1 = replace_lit(s, chars2('{', ' ').as_slice(), chars1('{').as_slice());
        let s2 = replace_lit(s1.as_slice(), chars2(' ', '}').as_slice(), chars1('}').as_slice());
        let s3 = replace_lit(s2.as_slice(), chars1(' ').as_slice(), e.as_slice());
        let s4 = replace_lit(s3.as_slice(), chars2('{', '{').as_slice(), e.as_slice());
        let s5 = replace_lit(s4.as_slice(), chars2('}', '}').as_slice(), e.as_slice());
        let s6 = replace_lit(s5.as_slice(), chars2(']', ']').as_slice(), e.as_slice());
        let s7 = replace_lit(s6.as_slice(), chars2('[', '[').as_slice(), e.as_slice());
        s7
    }

    /// A new identifier with a sanitized name and the given namespace.
    pub fn with_namespace(name: &str, namespace: Option<&str>) -> (r: Identifier)
        ensures
            r@ == (IdView {
                name: spec_sanitize(name@),
                namespace: match namespace {
                    Some(n) => Some(n@),
                    None => None,
                },
            }),
    {
        let s = chars_of(name);
        let n = Self::sanitize_identifier(s.as_slice());
        let ns = match namespace {
            Some(x) => Some(x.to_owned()),
            None => None,
        };
        Identifier { inner: string_of(n.as_slice()), namespace: ns }
    }

    /// Splits `s` into a name and a namespace at its first `::`.
    pub fn maybe_namespace(s: &str) -> (r: (String, Option<String>))
        ensures
            (r.0@, opt_view(r.1)) == spec_maybe_namespace(s@),
    {
        let c = chars_of(s);
        let (v, r) = Self::maybe_namespace_chars(c.as_slice());
        (string_of(v.as_slice()), match r {
            Some(x) => Some(string_of(x.as_slice())),
            None => None,
        })
    }

    fn maybe_namespace_chars(c: &[char]) -> (r: (Vec<char>, Option<Vec<char>>))
        ensures
            (r.0@, match r.1 {
                Some(x) => Some(x@),
                None => None,
            }) == spec_maybe_namespace(c@),
    {
        let sep = ns_sep_exec();
        let (before, after) = split_once(c, sep.as_slice());
        match after {
            Some(rest) => {
                let (second, _) = split_once(rest.as_slice(), sep.as_slice());
                let name = Self::sanitize_identifier(second.as_slice());
                let ns = Self::sanitize_identifier(before.as_slice());
                if ns.len() > 0 {
                    (name, Some(ns))
                } else {
                    (name, None)
                }
            },
            None => {
                let all = crate::text::slice_range(c, 0, c.len());
                assert(all@ =~= c@);
                (all, None)
            },
        }
    }

    /// The identifier written `namespace::name` or `name`.
    pub fn from_str(id: &str) -> (r: Identifier)
        ensures
            r@ == spec_from_str(id@),
    {
        let c = chars_of(id);
        let (name, ns) = Self::maybe_namespace_chars(c.as_slice());
        let n = Self::sanitize_identifier(name.as_slice());
        Identifier {
            inner: string_of(n.as_slice()),
            namespace: match ns {
                Some(x) => Some(string_of(x.as_slice())),
                None => None,
            },
        }
    }

    /// The identifiers named by the placeholders of `s`, in order; a placeholder without a
    /// namespace gets `namespace`.
    pub fn parse(s: &str, namespace: Option<&str>) -> (r: Vec<Identifier>)
        ensures
            ids_view(r@) == spec_parse(
                s@,
                match namespace {
                    Some(n) => Some(n@),
                    None => None,
                },
            ),
    {
        let ghost default = match namespace {
            Some(n) => Some(n@),
            None => None,
        };
        let c = chars_of(s);
        let ps = find_placeholders(c.as_slice(), true);
        let ghost spec_ps = placeholders(c@, true);
        proof { crate::template::lemma_placeholders_bounds(c@, 0, true); }
        assert forall|j: int| 0 <= j < ps.len() implies {
            let p = #[trigger] ps@[j];
            p.0 <= p.3 <= c@.len()
        } by {
            assert(positions_view(ps@)[j] == spec_ps[j]);
        }
        let mut r: Vec<Identifier> = Vec::new();
        let mut k: usize = 0;
        while k < ps.len()
            invariant
                k <= ps.len(),
                c@ == s@,
                default == match namespace {
                    Some(n) => Some(n@),
                    None => None,
                },
                positions_view(ps@) == spec_ps,
                spec_ps == placeholders(s@, true),
                forall|j: int|
                    0 <= j < ps.len() ==> {
                        let p = #[trigger] ps@[j];
                        p.0 <= p.3 <= c@.len()
                    },
                ids_view(r@) == spec_parse(s@, default).subrange(0, k as int),
            decreases ps.len() - k,
        {
            let (st, _, _, en) = ps[k];
            assert(positions_view(ps@)[k as int] == spec_ps[k as int]);
            let text = crate::text::slice_range(c.as_slice(), st, en);
            assert(text@ == s@.subrange(spec_ps[k as int].0, spec_ps[k as int].3));
            let (name, ns) = Self::maybe_namespace_chars(text.as_slice());
            let n = Self::sanitize_identifier(name.as_slice());
            let nsv = match ns {
                Some(x) => Some(string_of(x.as_slice())),
                None => match namespace {
                    Some(d) => Some(d.to_owned()),
                    None => None,
                },
            };
            let id = Identifier { inner: string_of(n.as_slice()), namespace: nsv };
            assert(spec_parse(s@, default)[k as int] == spec_id_of_placeholder(text@, default));
            assert(id@ == spec_id_of_placeholder(text@, default));
            let ghost r0 = r@;
            r.push(id);
            assert(ids_view(r@) =~= ids_view(r0).push(id@));
            assert(spec_parse(s@, default).subrange(0, k + 1) =~= spec_parse(s@, default).subrange(0, k as int).push(
                spec_parse(s@, default)[k as int],
            ));
            k = k + 1;
        }
        assert(spec_parse(s@, default).subrange(0, k as int) =~= spec_parse(s@, default));
        r
    }

    /// Whether two identifiers have the same name and namespace.
    pub fn equals(&self, other: &Identifier) -> (r: bool)
        ensures
            r == (self@ == other@),
    {
        let a = opt_str_eq(&self.namespace, &other.namespace);
        let b = crate::text::str_eq(self.inner.as_str(), other.inner.as_str());
        a && b
    }

    /// The name, without the namespace.
    pub fn name(&self) -> (r: &str)
        ensures
            r@ == self@.name,
    {
        self.inner.as_str()
    }

    /// The namespace, if any.
    pub fn namespace(&self) -> (r: Option<&str>)
        ensures
            match r {
                Some(n) => self@.namespace == Some(n@),
                None => self@.namespace is None,
            },
    {
        match &self.namespace {
            Some(n) => Some(n.as_str()),
            None => None,
        }
    }

    /// Sets the namespace.
    pub fn update(&mut self, namespace: &str)
        ensures
            final(self)@ == (IdView { name: old(self)@.name, namespace: Some(namespace@) }),
    {
        self.namespace = Some(namespace.to_owned());
    }

    /// How the identifier is shown: `namespace::name`, or the name alone.
    pub fn to_display(&self) -> (r: String)
        ensures
            r@ == spec_display(self@),
    {
        match &self.namespace {
            Some(ns) => {
                if ns.as_str().is_empty() {
                    self.inner.clone()
                } else {
                    let mut v = chars_of(ns.as_str());
                    let sep = ns_sep_exec();
                    extend_chars(&mut v, sep.as_slice());
                    let n = chars_of(self.inner.as_str());
                    extend_chars(&mut v, n.as_slice());
                    string_of(v.as_slice())
                }
            },
            None => self.inner.clone(),
        }
    }
}

/// A list of identifiers, as reported in errors.
#[derive(Debug)]
pub struct Identifiers(pub Vec<Identifier>);

impl Identifiers {
    /// One line `- id` per identifier.
    pub fn to_display(&self) -> (r: String)
        ensures
            r@ == spec_display_list(ids_view(self.0@)),
    {
        let mut v: Vec<char> = Vec::new();
        let mut k: usize = 0;
        while k < self.0.len()
            invariant
                k <= self.0.len(),
                v@ == spec_display_list(ids_view(self.0@).subrange(0, k as int)),
            decreases self.0.len() - k,
        {
            v.push('-');
            v.push(' ');
            let d = self.0[k].to_display();
            let dc = chars_of(d.as_str());
            extend_chars(&mut v, dc.as_slice());
            v.push('\n');
            assert(ids_view(self.0@).subrange(0, k + 1).drop_last() =~= ids_view(self.0@).subrange(0, k as int));
            k = k + 1;
        }
        assert(ids_view(self.0@).subrange(0, k as int) =~= ids_view(self.0@));
        string_of(v.as_slice())
    }
}

/// One line `- id` per identifier.
pub open spec fn spec_display_list(ids: Seq<IdView>) -> Seq<char>
    decreases ids.len(),
{
    if ids.len() == 0 {
        Seq::empty()
    } else {
        spec_display_list(ids.drop_last()) + seq!['-', ' '] + spec_display(ids.last()) + seq!['\n']
    }
}

impl PartialEq for Identifiers {
    fn eq(&self, other: &Self) -> (r: bool) {
        ids_eq(&self.0, &other.0)
    }
}

impl vstd::std_specs::cmp::PartialEqSpecImpl for Identifiers {
    open spec fn obeys_eq_spec() -> bool {
        true
    }

    open spec fn eq_spec(&self, other: &Identifiers) -> bool {
        ids_view(self.0@) == ids_view(other.0@)
    }
}

/// Whether two lists hold the same identifiers in the same order.
pub fn ids_eq(a: &Vec<Identifier>, b: &Vec<Identifier>) -> (r: bool)
    ensures
        r == (ids_view(a@) == ids_view(b@)),
{
    if a.len() != b.len() {
        assert(ids_view(a@).len() != ids_view(b@).len());
        return false;
    }
    let mut i: usize = 0;
    while i < a.len()
        invariant
            a.len() == b.len(),
            i <= a.len(),
            forall|k: int| 0 <= k < i ==> a@[k]@ == b@[k]@,
        decreases a.len() - i,
    {
        if !a[i].equals(&b[i]) {
            assert(ids_view(a@)[i as int] != ids_view(b@)[i as int]);
            return false;
        }
        i = i + 1;
    }
    assert(ids_view(a@) =~= ids_view(b@));
    true
}

} // verus!

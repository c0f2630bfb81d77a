//! The repository of aliases.
use vstd::prelude::*;
use crate::identifiers::{Identifier, IdView};
use crate::aliases::{Alias, AliasView};

verus! {

/// The aliases of `s` by identifier; where two share an identifier, the first one counts.
pub open spec fn aliases_map_of(s: Seq<AliasView>) -> Map<IdView, AliasView>
    decreases s.len(),
{
    if s.len() == 0 {
        Map::empty()
    } else {
        let m = aliases_map_of(s.drop_last());
        if m.contains_key(s.last().name) {
            m
        } else {
            m.insert(s.last().name, s.last())
        }
    }
}

/// The views of a sequence of aliases.
pub open spec fn aliases_view(s: Seq<Alias>) -> Seq<AliasView> {
    s.map_values(|a: Alias| a@)
}

/// Position of the first alias of `s` named `k`, or -1.
pub open spec fn first_alias_index(s: Seq<AliasView>, k: IdView) -> int
    decreases s.len(),
{
    if s.len() == 0 {
        -1
    } else {
        let j = first_alias_index(s.drop_last(), k);
        if j >= 0 {
            j
        } else if s.last().name == k {
            s.len() - 1
        } else {
            -1
        }
    }
}

pub proof fn lemma_aliases_map_of(s: Seq<AliasView>)
    ensures
        vstd::set::Set::finite(aliases_map_of(s).dom()),
        forall|k: IdView| #[trigger] aliases_map_of(s).contains_key(k) ==> aliases_map_of(s)[k].name == k,
        forall|k: IdView| aliases_map_of(s).contains_key(k) <==> first_alias_index(s, k) >= 0,
        forall|k: IdView| first_alias_index(s, k) >= 0 ==> {
            let i = first_alias_index(s, k);
            &&& 0 <= i < s.len()
            &&& s[i].name == k
            &&& aliases_map_of(s)[k] == s[i]
        },
        forall|k: IdView| first_alias_index(s, k) == -1 <==> forall|i: int| 0 <= i < s.len() ==> s[i].name != k,
    decreases s.len(),
{
    if s.len() > 0 {
        let p = s.drop_last();
        lemma_aliases_map_of(p);
        assert forall|k: IdView| #![auto] {
            &&& (aliases_map_of(s).contains_key(k) ==> aliases_map_of(s)[k].name == k)
            &&& (aliases_map_of(s).contains_key(k) <==> first_alias_index(s, k) >= 0)
            &&& (first_alias_index(s, k) >= 0 ==> {
                let i = first_alias_index(s, k);
                &&& 0 <= i < s.len()
                &&& s[i].name == k
                &&& aliases_map_of(s)[k] == s[i]
            })
            &&& (first_alias_index(s, k) == -1 <==> forall|i: int| 0 <= i < s.len() ==> s[i].name != k)
        } by {
            let j = first_alias_index(p, k);
            if j >= 0 {
                assert(p[j] == s[j]);
                assert(s[j].name == k);
            } else if s.last().name == k {
                assert(!aliases_map_of(p).contains_key(k));
                assert(s[s.len() - 1].name == k);
            } else {
                assert(!aliases_map_of(p).contains_key(k));
                assert forall|i: int| 0 <= i < s.len() implies s[i].name != k by {
                    if i < p.len() {
                        assert(p[i] == s[i]);
                        assert(p[i].name != k);
                    }
                }
            }
        }
    }
}

proof fn lemma_first_alias_prefix(s: Seq<AliasView>, k: IdView, i: int)
    requires
        0 <= i < s.len(),
        first_alias_index(s.subrange(0, i), k) == -1,
        s[i].name == k,
    ensures
        first_alias_index(s, k) == i,
    decreases s.len(),
{
    if i == s.len() - 1 {
        assert(s.drop_last() =~= s.subrange(0, i));
    } else {
        assert(s.drop_last().subrange(0, i) =~= s.subrange(0, i));
        lemma_first_alias_prefix(s.drop_last(), k, i);
    }
}

/// Position of the first alias of `s` named `id`.
pub fn find_alias(s: &[Alias], id: &Identifier) -> (r: Option<usize>)
    ensures
        match r {
            Some(i) => i as int == first_alias_index(aliases_view(s@), id@) && i < s.len(),
            None => first_alias_index(aliases_view(s@), id@) == -1,
        },
{
    let ghost sv = aliases_view(s@);
    let mut i: usize = 0;
    while i < s.len()
        invariant
            i <= s.len(),
            sv == aliases_view(s@),
            first_alias_index(sv.subrange(0, i as int), id@) == -1,
        decreases s.len() - i,
    {
        assert(sv.subrange(0, i + 1).drop_last() =~= sv.subrange(0, i as int));
        if s[i].identifier().equals(id) {
            proof {
                lemma_first_alias_prefix(sv, id@, i as int);
            }
            return Some(i);
        }
        i = i + 1;
    }
    assert(sv.subrange(0, i as int) =~= sv);
    None
}

/// A collection of aliases, looked up by identifier.
pub trait AliasCollection {
    /// The aliases, by identifier.
    spec fn aliases_map(&self) -> Map<IdView, AliasView>;

    /// The collection holds each alias under its own identifier.
    proof fn lemma_aliases_map(&self)
        ensures
            forall|k: IdView| #[trigger]
                self.aliases_map().contains_key(k) ==> self.aliases_map()[k].name == k,
    ;

    /// The alias with identifier `id`.
    fn get(&self, id: &Identifier) -> (r: Option<&Alias>)
        ensures
            match r {
                Some(a) => self.aliases_map().contains_key(id@) && a@ == self.aliases_map()[id@],
                None => !self.aliases_map().contains_key(id@),
            },
    ;

    /// All the aliases.
    fn aliases(&self) -> (r: Vec<&Alias>)
        ensures
            forall|i: int| 0 <= i < r@.len() ==> self.aliases_map().contains_key(#[trigger] r@[i]@.name)
                && self.aliases_map()[r@[i]@.name] == r@[i]@,
            forall|k: IdView| self.aliases_map().contains_key(k) ==> exists|i: int| 0 <= i < r@.len() && #[trigger] r@[i]@.name == k,
    ;
}

/// The aliases known to the application, each once.
#[derive(Debug)]
pub struct AliasesRepository {
    aliases: Vec<Alias>,
}

impl AliasesRepository {
    /// No two stored aliases share an identifier.
    #[verifier::type_invariant]
    pub closed spec fn wf(&self) -> bool {
        forall|i: int, j: int|
            0 <= i < j < self.aliases@.len() ==> self.aliases@[i]@.name != self.aliases@[j]@.name
    }

    /// A repository of `value`; of aliases that share an identifier, the first is kept.
    pub fn new(value: Vec<Alias>) -> (r: AliasesRepository)
        ensures
            r.aliases_map() == aliases_map_of(aliases_view(value@)),
    {
        let ghost vv = aliases_view(value@);
        let mut stored: Vec<Alias> = Vec::new();
        assert(aliases_view(stored@) =~= Seq::<AliasView>::empty());
        let mut value = value;
        let n = value.len();
        let mut k: usize = 0;
        assert(vv.subrange(0, 0) =~= Seq::<AliasView>::empty());
        while value.len() > 0
            invariant
                forall|i: int, j: int| 0 <= i < j < stored@.len() ==> stored@[i]@.name != stored@[j]@.name,
                n == vv.len(),
                k + value.len() == n,
                aliases_view(value@) == vv.subrange(k as int, n as int),
                aliases_map_of(aliases_view(stored@)) == aliases_map_of(vv.subrange(0, k as int)),
            decreases value.len(),
        {
            let ghost old_vals = value@;
            assert(aliases_view(old_vals)[0] == vv.subrange(k as int, n as int)[0]);
            let a = value.remove(0);
            let ghost s0 = aliases_view(stored@);
            proof {
                assert(aliases_view(value@) =~= aliases_view(old_vals).drop_first());
                assert(a@ == vv[k as int]);
                assert(vv.subrange(0, k + 1).drop_last() =~= vv.subrange(0, k as int));
                lemma_aliases_map_of(s0);
            }
            match find_alias(stored.as_slice(), &a.identifier()) {
                Some(_) => {},
                None => {
                    stored.push(a);
                    proof {
                        assert(aliases_view(stored@) =~= s0.push(vv[k as int]));
                        assert(aliases_view(stored@).drop_last() =~= s0);
                        assert forall|i: int, j: int| 0 <= i < j < stored@.len() implies stored@[i]@.name
                            != stored@[j]@.name by {
                            if j == stored@.len() - 1 {
                                assert(s0[i] == stored@[i]@);
                            }
                        }
                    }
                },
            }
            k = k + 1;
        }
        assert(vv.subrange(0, k as int) =~= vv);
        AliasesRepository { aliases: stored }
    }
}

impl AliasCollection for AliasesRepository {
    closed spec fn aliases_map(&self) -> Map<IdView, AliasView> {
        aliases_map_of(aliases_view(self.aliases@))
    }

    proof fn lemma_aliases_map(&self) {
        lemma_aliases_map_of(aliases_view(self.aliases@));
    }

    fn get(&self, id: &Identifier) -> (r: Option<&Alias>) {
        proof {
            lemma_aliases_map_of(aliases_view(self.aliases@));
        }
        match find_alias(self.aliases.as_slice(), id) {
            Some(i) => Some(&self.aliases[i]),
            None => None,
        }
    }

    fn aliases(&self) -> (r: Vec<&Alias>) {
        proof {
            use_type_invariant(self);
            lemma_aliases_map_of(aliases_view(self.aliases@));
        }
        let ghost sv = aliases_view(self.aliases@);
        let mut r: Vec<&Alias> = Vec::new();
        let mut i: usize = 0;
        while i < self.aliases.len()
            invariant
                i <= self.aliases.len(),
                sv == aliases_view(self.aliases@),
                r@.len() == i,
                forall|j: int| 0 <= j < i ==> r@[j] == &self.aliases@[j],
            decreases self.aliases.len() - i,
        {
            r.push(&self.aliases[i]);
            i = i + 1;
        }
        proof {
            let m = aliases_map_of(sv);
            assert forall|j: int| 0 <= j < r@.len() implies m.contains_key(#[trigger] r@[j]@.name) && m[r@[j]@.name] == r@[j]@ by {
                let k = r@[j]@.name;
                assert(sv[j] == r@[j]@);
                assert(first_alias_index(sv, k) >= 0);
                let f = first_alias_index(sv, k);
                if f != j {
                    assert(sv[f].name == k);
                    assert(sv[f] == self.aliases@[f]@);
                }
            }
            assert forall|k: IdView| m.contains_key(k) implies exists|j: int| 0 <= j < r@.len() && #[trigger] r@[j]@.name == k by {
                let f = first_alias_index(sv, k);
                assert(r@[f]@ == sv[f]);
            }
        }
        r
    }
}

/// Why the aliases could not be gathered.
#[derive(Debug)]
pub enum ErrorsAliasesRepository {
    /// This alias is not known.
    MissingAlias(Identifier),
}

} // verus!

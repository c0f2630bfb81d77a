//! Choices remembered per terminal session: each choice is stored under the session's id and
//! the var's name, and only the session that stored it reads it back.
use vstd::prelude::*;
use crate::text::{push_str, string_of, str_eq, str_replace, spec_replace};
use crate::identifiers::{Identifier, IdView, spec_display};
use crate::choices::{Choice, ChoiceView};
use crate::associative_state::{
    AssociativeStateWithTTL, StateEntry, spec_purge, spec_get, unique_keys, valid_at, lemma_get_after_put,
};

verus! {

/// A choice made for a var in a session.
#[derive(Debug)]
pub struct SessionEntry {
    pub var_name: Identifier,
    pub choice: Choice,
    pub session_id: String,
}

impl Clone for SessionEntry {
    fn clone(&self) -> (r: Self)
        ensures
            r.var_name == self.var_name,
            r.choice == self.choice,
            r.session_id@ == self.session_id@,
    {
        SessionEntry {
            var_name: self.var_name.clone(),
            choice: self.choice.clone(),
            session_id: self.session_id.clone(),
        }
    }
}

/// The key a choice for `id` is stored under in session `sid`: `sid:id`.
pub open spec fn spec_make_key(sid: Seq<char>, id: IdView) -> Seq<char> {
    sid + seq![':'] + spec_display(id)
}

/// The choice for `id` that session `sid` reads back from `s` at `now`, if any.
pub open spec fn spec_session_get(
    s: Seq<(Seq<char>, StateEntry<SessionEntry>)>,
    sid: Seq<char>,
    id: IdView,
    ttl: Option<u64>,
    now: u64,
) -> Option<ChoiceView> {
    match spec_get(s, spec_make_key(sid, id), ttl, now) {
        Some(e) => if e.entry.session_id@ == sid {
            Some(e.entry.choice@)
        } else {
            None
        },
        None => None,
    }
}

/// The (var, choice) pairs of session `sid` in `s`, in order.
pub open spec fn spec_session_choices(s: Seq<(Seq<char>, StateEntry<SessionEntry>)>, sid: Seq<char>) -> Seq<
    (IdView, ChoiceView),
>
    decreases s.len(),
{
    if s.len() == 0 {
        Seq::empty()
    } else {
        let rest = spec_session_choices(s.drop_last(), sid);
        let e = s.last().1.entry;
        if e.session_id@ == sid {
            rest.push((e.var_name@, e.choice@))
        } else {
            rest
        }
    }
}

/// The choice the last pair of `pairs` naming `x` gives, if a pair names it.
pub open spec fn last_choice_of(pairs: Seq<(IdView, ChoiceView)>, x: IdView) -> Option<ChoiceView>
    decreases pairs.len(),
{
    if pairs.len() == 0 {
        None
    } else if pairs.last().0 == x {
        Some(pairs.last().1)
    } else {
        last_choice_of(pairs.drop_last(), x)
    }
}

/// Every entry of `s` is stored under the key of its own session and var.
pub open spec fn keys_match(s: Seq<(Seq<char>, StateEntry<SessionEntry>)>) -> bool {
    forall|i: int|
        0 <= i < s.len() ==> (#[trigger] s[i]).0 == spec_make_key(s[i].1.entry.session_id@, s[i].1.entry.var_name@)
}

/// Every entry of `s` still counts at `now`.
pub open spec fn all_valid(s: Seq<(Seq<char>, StateEntry<SessionEntry>)>, ttl: Option<u64>, now: u64) -> bool {
    forall|i: int| 0 <= i < s.len() ==> valid_at(ttl, (#[trigger] s[i]).1.when, now)
}

/// `after` is `before` once session `sid` stored the choice `c` for `id` at `now`: the entries
/// under its key and those no longer counting are dropped, and the new entry comes last
/// (unless a time to live of zero expires it at once).
pub open spec fn stored_choice(
    before: Seq<(Seq<char>, StateEntry<SessionEntry>)>,
    after: Seq<(Seq<char>, StateEntry<SessionEntry>)>,
    sid: Seq<char>,
    id: IdView,
    c: ChoiceView,
    ttl: Option<u64>,
    now: u64,
) -> bool {
    let p = spec_purge(before, spec_make_key(sid, id), ttl, now);
    &&& after.subrange(0, p.len() as int) == p
    &&& after.len() == p.len() + if valid_at(ttl, now, now) {
        1int
    } else {
        0int
    }
    &&& valid_at(ttl, now, now) ==> {
        let e = after.last();
        &&& e.0 == spec_make_key(sid, id)
        &&& e.1.when == now
        &&& e.1.entry.choice@ == c
        &&& e.1.entry.session_id@ == sid
        &&& e.1.entry.var_name@ == id
    }
}

/// A purge keeps entries under their own keys.
pub proof fn lemma_purge_keys_match(
    s: Seq<(Seq<char>, StateEntry<SessionEntry>)>,
    key: Seq<char>,
    ttl: Option<u64>,
    now: u64,
)
    requires
        keys_match(s),
    ensures
        keys_match(spec_purge(s, key, ttl, now)),
    decreases s.len(),
{
    if s.len() > 0 {
        let d = s.drop_last();
        assert(keys_match(d)) by {
            assert forall|i: int| 0 <= i < d.len() implies (#[trigger] d[i]).0 == spec_make_key(
                d[i].1.entry.session_id@,
                d[i].1.entry.var_name@,
            ) by {
                assert(d[i] == s[i]);
            }
        }
        lemma_purge_keys_match(d, key, ttl, now);
        let rest = spec_purge(d, key, ttl, now);
        if s.last().0 != key && valid_at(ttl, s.last().1.when, now) {
            let q = rest.push(s.last());
            assert forall|i: int| 0 <= i < q.len() implies (#[trigger] q[i]).0 == spec_make_key(
                q[i].1.entry.session_id@,
                q[i].1.entry.var_name@,
            ) by {
                if i < rest.len() {
                    assert(q[i] == rest[i]);
                }
            }
        }
    }
}

/// Purging the key of one var, where every entry counts and sits under its own key, keeps the
/// last choice of session `sid` for every var stored under another key.
pub proof fn lemma_purge_keeps_choice(
    s: Seq<(Seq<char>, StateEntry<SessionEntry>)>,
    key: Seq<char>,
    ttl: Option<u64>,
    now: u64,
    sid: Seq<char>,
    x: IdView,
)
    requires
        keys_match(s),
        all_valid(s, ttl, now),
        spec_make_key(sid, x) != key,
    ensures
        last_choice_of(spec_session_choices(spec_purge(s, key, ttl, now), sid), x) == last_choice_of(
            spec_session_choices(s, sid),
            x,
        ),
    decreases s.len(),
{
    if s.len() > 0 {
        let d = s.drop_last();
        let l = s.last();
        assert(l == s[s.len() - 1]);
        assert(keys_match(d)) by {
            assert forall|i: int| 0 <= i < d.len() implies (#[trigger] d[i]).0 == spec_make_key(
                d[i].1.entry.session_id@,
                d[i].1.entry.var_name@,
            ) by {
                assert(d[i] == s[i]);
            }
        }
        assert(all_valid(d, ttl, now)) by {
            assert forall|i: int| 0 <= i < d.len() implies valid_at(ttl, (#[trigger] d[i]).1.when, now) by {
                assert(d[i] == s[i]);
            }
        }
        lemma_purge_keeps_choice(d, key, ttl, now, sid, x);
        let rest = spec_purge(d, key, ttl, now);
        let cd = spec_session_choices(d, sid);
        let cr = spec_session_choices(rest, sid);
        let pl = (l.1.entry.var_name@, l.1.entry.choice@);
        assert(valid_at(ttl, l.1.when, now));
        assert(cd.push(pl).drop_last() =~= cd);
        assert(cr.push(pl).drop_last() =~= cr);
        if l.1.entry.session_id@ == sid {
            assert(spec_session_choices(s, sid) == cd.push(pl));
        } else {
            assert(spec_session_choices(s, sid) == cd);
        }
        if l.0 != key {
            assert(spec_purge(s, key, ttl, now) == rest.push(l));
            assert(rest.push(l).drop_last() =~= rest);
            assert(rest.push(l).last() == l);
            if l.1.entry.session_id@ == sid {
                assert(spec_session_choices(rest.push(l), sid) == cr.push(pl));
            } else {
                assert(spec_session_choices(rest.push(l), sid) == cr);
            }
        } else {
            assert(spec_purge(s, key, ttl, now) == rest);
            if l.1.entry.session_id@ == sid {
                assert(l.1.entry.var_name@ != x);
            }
        }
    }
}

/// The keys of the entries of session `sid` in `s`, in order.
pub open spec fn spec_session_keys(s: Seq<(Seq<char>, StateEntry<SessionEntry>)>, sid: Seq<char>) -> Seq<
    Seq<char>,
>
    decreases s.len(),
{
    if s.len() == 0 {
        Seq::empty()
    } else {
        let rest = spec_session_keys(s.drop_last(), sid);
        if s.last().1.entry.session_id@ == sid {
            rest.push(s.last().0)
        } else {
            rest
        }
    }
}

/// `s` without the entries stored under one of `keys`.
pub open spec fn spec_drop_keys(s: Seq<(Seq<char>, StateEntry<SessionEntry>)>, keys: Seq<Seq<char>>) -> Seq<
    (Seq<char>, StateEntry<SessionEntry>),
>
    decreases s.len(),
{
    if s.len() == 0 {
        s
    } else {
        let rest = spec_drop_keys(s.drop_last(), keys);
        if keys.contains(s.last().0) {
            rest
        } else {
            rest.push(s.last())
        }
    }
}

/// The session id read from the environment: the terminal's session id, else the tmux pane,
/// else `ssh_` and the ssh client with its spaces made underscores, else the parent process
/// id, else `terminal_session`.
pub open spec fn spec_session_id(
    term_session: Option<Seq<char>>,
    tmux_pane: Option<Seq<char>>,
    ssh_client: Option<Seq<char>>,
    ppid: Option<Seq<char>>,
) -> Seq<char> {
    match term_session {
        Some(t) => t,
        None => match tmux_pane {
            Some(p) => p,
            None => match ssh_client {
                Some(c) => seq!['s', 's', 'h', '_'] + spec_replace(c, seq![' '], seq!['_']),
                None => match ppid {
                    Some(p) => p,
                    None => seq![
                        't',
                        'e',
                        'r',
                        'm',
                        'i',
                        'n',
                        'a',
                        'l',
                        '_',
                        's',
                        'e',
                        's',
                        's',
                        'i',
                        'o',
                        'n',
                    ],
                },
            },
        },
    }
}

/// The text of an optional string.
pub open spec fn opt_str_view(o: Option<&str>) -> Option<Seq<char>> {
    match o {
        Some(s) => Some(s@),
        None => None,
    }
}

/// The session id, from the values of `TERM_SESSION_ID`, `TMUX_PANE`, `SSH_CLIENT` and
/// `PPID` (see `spec_session_id`).
pub fn session_id_from(
    term_session: Option<&str>,
    tmux_pane: Option<&str>,
    ssh_client: Option<&str>,
    ppid: Option<&str>,
) -> (r: String)
    ensures
        r@ == spec_session_id(
            opt_str_view(term_session),
            opt_str_view(tmux_pane),
            opt_str_view(ssh_client),
            opt_str_view(ppid),
        ),
{
    match term_session {
        Some(t) => t.to_owned(),
        None => match tmux_pane {
            Some(p) => p.to_owned(),
            None => match ssh_client {
                Some(c) => {
                    let sp = " ";
                    let us = "_";
                    let pre = "ssh_";
                    proof {
                        reveal_strlit(" ");
                        reveal_strlit("_");
                        reveal_strlit("ssh_");
                    }
                    assert(sp@ =~= seq![' ']);
                    assert(us@ =~= seq!['_']);
                    let replaced = str_replace(c, sp, us);
                    let mut v: Vec<char> = Vec::new();
                    push_str(&mut v, pre);
                    push_str(&mut v, replaced.as_str());
                    assert(v@ =~= seq!['s', 's', 'h', '_'] + spec_replace(c@, seq![' '], seq!['_']));
                    string_of(v.as_slice())
                },
                None => match ppid {
                    Some(p) => p.to_owned(),
                    None => {
                        let d = "terminal_session";
                        proof {
                            reveal_strlit("terminal_session");
                        }
                        let r = d.to_owned();
                        assert(r@ =~= spec_session_id(None, None, None, None));
                        r
                    },
                },
            },
        },
    }
}

/// Choices stored per session, with a time to live.
#[derive(Debug)]
pub struct SessionStorage {
    state: AssociativeStateWithTTL<SessionEntry>,
    session_id: String,
}

impl SessionStorage {
    /// The entries stored, all sessions together.
    pub closed spec fn state_view(&self) -> Seq<(Seq<char>, StateEntry<SessionEntry>)> {
        self.state.entries_view()
    }

    /// The id of this storage's session.
    pub closed spec fn session_view(&self) -> Seq<char> {
        self.session_id@
    }

    /// The time to live of the entries.
    pub closed spec fn ttl_view(&self) -> Option<u64> {
        self.state.ttl_view()
    }

    /// An empty storage for session `session_id` whose entries expire after `ttl` seconds.
    pub fn with_ttl(ttl: u64, session_id: String) -> (r: Self)
        ensures
            r.state_view().len() == 0,
            r.ttl_view() == Some(ttl),
            r.session_view() == session_id@,
    {
        SessionStorage { state: AssociativeStateWithTTL::with_ttl(ttl), session_id }
    }

    /// A storage for session `session_id` over `state` (the entries of every session).
    pub fn from_parts(state: AssociativeStateWithTTL<SessionEntry>, session_id: String) -> (r: Self)
        ensures
            r.state_view() == state.entries_view(),
            r.ttl_view() == state.ttl_view(),
            r.session_view() == session_id@,
    {
        SessionStorage { state, session_id }
    }

    /// The entries of every session, to be stored.
    pub fn into_state(self) -> (r: AssociativeStateWithTTL<SessionEntry>)
        ensures
            r.entries_view() == self.state_view(),
            r.ttl_view() == self.ttl_view(),
    {
        self.state
    }

    /// The session id.
    pub fn session_id(&self) -> (r: &str)
        ensures
            r@ == self.session_view(),
    {
        self.session_id.as_str()
    }

    /// The key a choice for `var_name` is stored under.
    fn make_key(&self, var_name: &Identifier) -> (r: String)
        ensures
            r@ == spec_make_key(self.session_view(), var_name@),
    {
        let mut v: Vec<char> = Vec::new();
        push_str(&mut v, self.session_id.as_str());
        v.push(':');
        let d = var_name.to_display();
        push_str(&mut v, d.as_str());
        string_of(v.as_slice())
    }

    /// Stores `choice` for `var_name` in this session at `now`; read back at `now`, it is
    /// `choice` (unless a time to live of zero expires it at once).
    pub fn set_choice(&mut self, var_name: Identifier, choice: Choice, now: u64)
        ensures
            final(self).session_view() == old(self).session_view(),
            final(self).ttl_view() == old(self).ttl_view(),
            spec_session_get(
                final(self).state_view(),
                old(self).session_view(),
                var_name@,
                old(self).ttl_view(),
                now,
            ) == if valid_at(old(self).ttl_view(), now, now) {
                Some(choice@)
            } else {
                None::<ChoiceView>
            },
            valid_at(old(self).ttl_view(), now, now) ==> ({
                let e = final(self).state_view().last();
                &&& e.0 == spec_make_key(old(self).session_view(), var_name@)
                &&& e.1.when == now
                &&& e.1.entry.choice@ == choice@
                &&& e.1.entry.session_id@ == old(self).session_view()
                &&& e.1.entry.var_name@ == var_name@
            }),
            valid_at(old(self).ttl_view(), now, now) ==> spec_session_choices(
                final(self).state_view(),
                old(self).session_view(),
            ) == spec_session_choices(
                spec_purge(
                    old(self).state_view(),
                    spec_make_key(old(self).session_view(), var_name@),
                    old(self).ttl_view(),
                    now,
                ),
                old(self).session_view(),
            ).push((var_name@, choice@)),
            ({
                let p = spec_purge(
                    old(self).state_view(),
                    spec_make_key(old(self).session_view(), var_name@),
                    old(self).ttl_view(),
                    now,
                );
                &&& final(self).state_view().subrange(0, p.len() as int) == p
                &&& final(self).state_view().len() == p.len() + if valid_at(old(self).ttl_view(), now, now) {
                    1int
                } else {
                    0int
                }
            }),
            stored_choice(
                old(self).state_view(),
                final(self).state_view(),
                old(self).session_view(),
                var_name@,
                choice@,
                old(self).ttl_view(),
                now,
            ),
            keys_match(old(self).state_view()) ==> keys_match(final(self).state_view()),
            keys_match(old(self).state_view()) && all_valid(old(self).state_view(), old(self).ttl_view(), now)
                && valid_at(old(self).ttl_view(), now, now) ==> forall|x: IdView|
                x == var_name@ || spec_make_key(old(self).session_view(), x) != spec_make_key(
                    old(self).session_view(),
                    var_name@,
                ) ==> #[trigger] last_choice_of(spec_session_choices(final(self).state_view(), old(self).session_view()), x)
                    == if x == var_name@ {
                    Some(choice@)
                } else {
                    last_choice_of(spec_session_choices(old(self).state_view(), old(self).session_view()), x)
                },
            unique_keys(old(self).state_view()) ==> unique_keys(final(self).state_view()),
            unique_keys(old(self).state_view()) ==> forall|other: IdView|
                spec_make_key(old(self).session_view(), other) != spec_make_key(old(self).session_view(), var_name@)
                    ==> #[trigger] spec_session_get(
                    final(self).state_view(),
                    old(self).session_view(),
                    other,
                    old(self).ttl_view(),
                    now,
                ) == spec_session_get(old(self).state_view(), old(self).session_view(), other, old(self).ttl_view(), now),
    {
        let key = self.make_key(&var_name);
        let ghost cv = choice@;
        let ghost vn = var_name@;
        let entry = SessionEntry { var_name, choice, session_id: self.session_id.clone() };
        let ghost e = entry;
        let ghost before = self.state.entries_view();
        self.state.put(key.as_str(), entry, now);
        proof {
            let ttl = self.state.ttl_view();
            let p = spec_purge(before, key@, ttl, now);
            lemma_get_after_put(before, key@, e, ttl, now);
            if keys_match(before) {
                lemma_purge_keys_match(before, key@, ttl, now);
            }
            if valid_at(ttl, now, now) {
                assert(self.state.entries_view().subrange(0, p.len() as int) =~= p);
                assert(self.state.entries_view().drop_last() =~= p);
                let fin = self.state.entries_view();
                if keys_match(before) {
                    assert forall|i: int| 0 <= i < fin.len() implies (#[trigger] fin[i]).0 == spec_make_key(
                        fin[i].1.entry.session_id@,
                        fin[i].1.entry.var_name@,
                    ) by {
                        if i < p.len() {
                            assert(fin[i] == p[i]);
                        }
                    }
                    if all_valid(before, ttl, now) {
                        assert forall|x: IdView|
                            x == vn || spec_make_key(self.session_id@, x) != spec_make_key(self.session_id@, vn) implies
                            #[trigger] last_choice_of(spec_session_choices(fin, self.session_id@), x) == if x == vn {
                            Some(cv)
                        } else {
                            last_choice_of(spec_session_choices(before, self.session_id@), x)
                        } by {
                            let cp = spec_session_choices(p, self.session_id@);
                            assert(fin.last().1.entry == e);
                            assert(spec_session_choices(fin, self.session_id@) == cp.push((vn, cv)));
                            assert(cp.push((vn, cv)).drop_last() =~= cp);
                            if x != vn {
                                lemma_purge_keeps_choice(before, key@, ttl, now, self.session_id@, x);
                            }
                        }
                    }
                }
            } else {
                assert(self.state.entries_view() =~= p);
                assert(self.state.entries_view().subrange(0, p.len() as int) =~= p);
            }
        }
    }

    /// The choice this session stored for `var_name`, if it still counts at `now`.
    pub fn get_choice(&self, var_name: &Identifier, now: u64) -> (r: Option<Choice>)
        ensures
            match r {
                Some(c) => spec_session_get(self.state_view(), self.session_view(), var_name@, self.ttl_view(), now)
                    == Some(c@),
                None => spec_session_get(self.state_view(), self.session_view(), var_name@, self.ttl_view(), now) is None,
            },
    {
        let key = self.make_key(var_name);
        match self.state.get(key.as_str(), now) {
            Some(entry) => {
                if str_eq(entry.session_id.as_str(), self.session_id.as_str()) {
                    Some(entry.choice)
                } else {
                    None
                }
            },
            None => None,
        }
    }

    /// Every (var, choice) pair stored by this session, in the order stored, expired ones
    /// included.
    pub fn get_all_choices(&self) -> (r: Vec<(Identifier, Choice)>)
        ensures
            r@.map_values(|p: (Identifier, Choice)| (p.0@, p.1@)) == spec_session_choices(
                self.state_view(),
                self.session_view(),
            ),
    {
        let all = self.state.entries();
        let ghost s = self.state_view();
        let mut out: Vec<(Identifier, Choice)> = Vec::new();
        let mut i: usize = 0;
        while i < all.len()
            invariant
                i <= all@.len(),
                all@.len() == s.len(),
                forall|j: int| 0 <= j < all@.len() ==> cloned(s[j].1.entry, #[trigger] all@[j].1),
                out@.map_values(|p: (Identifier, Choice)| (p.0@, p.1@)) == spec_session_choices(
                    s.subrange(0, i as int),
                    self.session_view(),
                ),
            decreases all@.len() - i,
        {
            let e = &all[i].1;
            assert(cloned(s[i as int].1.entry, all@[i as int].1));
            assert(s.subrange(0, i + 1).drop_last() =~= s.subrange(0, i as int));
            if str_eq(e.session_id.as_str(), self.session_id.as_str()) {
                let ghost before = out@;
                out.push((e.var_name.clone(), e.choice.clone()));
                assert(out@.map_values(|p: (Identifier, Choice)| (p.0@, p.1@)) =~= before.map_values(
                    |p: (Identifier, Choice)| (p.0@, p.1@),
                ).push((e.var_name@, e.choice@)));
            }
            i = i + 1;
        }
        assert(s.subrange(0, i as int) =~= s);
        out
    }

    /// Removes every entry stored under a key that this session used.
    pub fn clear_session(&mut self)
        ensures
            final(self).session_view() == old(self).session_view(),
            final(self).ttl_view() == old(self).ttl_view(),
            final(self).state_view() == spec_drop_keys(
                old(self).state_view(),
                spec_session_keys(old(self).state_view(), old(self).session_view()),
            ),
    {
        let ghost s = self.state_view();
        let ttl = self.state.ttl();
        let mut rest = AssociativeStateWithTTL::<SessionEntry>::new();
        std::mem::swap(&mut rest, &mut self.state);
        let all = rest.into_vec();
        let n = all.len();
        let ghost sv = crate::associative_state::state_view(all@);
        assert(sv == s);
        let mut keys: Vec<String> = Vec::new();
        let mut i: usize = 0;
        while i < n
            invariant
                i <= n,
                n == all@.len(),
                sv == crate::associative_state::state_view(all@),
                keys@.map_values(|k: String| k@) == spec_session_keys(sv.subrange(0, i as int), self.session_id@),
            decreases n - i,
        {
            assert(sv.subrange(0, i + 1).drop_last() =~= sv.subrange(0, i as int));
            if str_eq(all[i].1.entry.session_id.as_str(), self.session_id.as_str()) {
                let ghost before = keys@;
                keys.push(all[i].0.clone());
                assert(keys@.map_values(|k: String| k@) =~= before.map_values(|k: String| k@).push(all@[i as int].0@));
            }
            i = i + 1;
        }
        assert(sv.subrange(0, n as int) =~= sv);
        let ghost ks = keys@.map_values(|k: String| k@);
        let mut kept: Vec<(String, StateEntry<SessionEntry>)> = Vec::new();
        let mut source = all;
        let mut consumed: usize = 0;
        while source.len() > 0
            invariant
                consumed + source@.len() == n,
                n == sv.len(),
                crate::associative_state::state_view(source@) == sv.subrange(consumed as int, n as int),
                crate::associative_state::state_view(kept@) == spec_drop_keys(sv.subrange(0, consumed as int), ks),
                ks == keys@.map_values(|k: String| k@),
            decreases source@.len(),
        {
            let ghost rv = source@;
            let e = source.remove(0);
            proof {
                assert(crate::associative_state::state_view(rv)[0] == sv[consumed as int]);
                assert(source@ =~= rv.subrange(1, rv.len() as int));
                assert(crate::associative_state::state_view(source@) =~= crate::associative_state::state_view(rv).subrange(1, rv.len() as int));
                assert(sv.subrange(0, consumed + 1).drop_last() =~= sv.subrange(0, consumed as int));
            }
            let mut found = false;
            let mut j: usize = 0;
            while j < keys.len()
                invariant
                    j <= keys@.len(),
                    ks == keys@.map_values(|k: String| k@),
                    found == ks.subrange(0, j as int).contains(e.0@),
                decreases keys@.len() - j,
            {
                let same = str_eq(keys[j].as_str(), e.0.as_str());
                proof {
                    let a = ks.subrange(0, j as int);
                    let b = ks.subrange(0, j + 1);
                    assert(b =~= a.push(ks[j as int]));
                    assert(ks[j as int] == keys@[j as int]@);
                    if same {
                        assert(b[j as int] == e.0@);
                    } else {
                        if b.contains(e.0@) {
                            let i = choose|i: int| 0 <= i < b.len() && b[i] == e.0@;
                            assert(i < j);
                            assert(a[i] == e.0@);
                        }
                    }
                    if a.contains(e.0@) {
                        let i = choose|i: int| 0 <= i < a.len() && a[i] == e.0@;
                        assert(b[i] == e.0@);
                    }
                }
                if same {
                    found = true;
                }
                j = j + 1;
            }
            assert(ks.subrange(0, j as int) =~= ks);
            if !found {
                let ghost before = kept@;
                kept.push(e);
                assert(crate::associative_state::state_view(kept@) =~= crate::associative_state::state_view(before).push((e.0@, e.1)));
            }
            consumed = consumed + 1;
        }
        assert(sv.subrange(0, n as int) =~= sv);
        self.state = AssociativeStateWithTTL::from_entries(kept, ttl);
    }

    /// Removes the entries of every session.
    pub fn clear_all(&mut self)
        ensures
            final(self).session_view() == old(self).session_view(),
            final(self).ttl_view() == old(self).ttl_view(),
            final(self).state_view().len() == 0,
    {
        let ttl = self.state.ttl();
        self.state = AssociativeStateWithTTL::from_entries(Vec::new(), ttl);
    }
}

/// Sessions are isolated: a choice stored in one session is never read back by another.
pub proof fn lemma_session_isolation(
    s: Seq<(Seq<char>, StateEntry<SessionEntry>)>,
    writer: Seq<char>,
    reader: Seq<char>,
    id: IdView,
    ttl: Option<u64>,
    now: u64,
)
    requires
        writer != reader,
        forall|i: int| 0 <= i < s.len() ==> (#[trigger] s[i]).1.entry.session_id@ == writer,
    ensures
        spec_session_get(s, reader, id, ttl, now) is None,
{
    lemma_lookup_in(s, spec_make_key(reader, id));
}

/// What a lookup finds is one of the entries looked through.
proof fn lemma_lookup_in(s: Seq<(Seq<char>, StateEntry<SessionEntry>)>, key: Seq<char>)
    ensures
        crate::associative_state::spec_lookup(s, key) matches Some(e) ==> exists|i: int| 0 <= i < s.len() && (#[trigger] s[i]).1 == e,
    decreases s.len(),
{
    if s.len() > 0 {
        lemma_lookup_in(s.drop_last(), key);
        if s.last().0 != key {
            if let Some(e) = crate::associative_state::spec_lookup(s.drop_last(), key) {
                let i = choose|i: int| 0 <= i < s.drop_last().len() && (#[trigger] s.drop_last()[i]).1 == e;
                assert(s[i] == s.drop_last()[i]);
            }
        } else {
            assert(s[s.len() - 1] == s.last());
        }
    }
}

/// Clearing a session leaves none of its choices behind.
pub proof fn lemma_clear_session_removes_all(
    s: Seq<(Seq<char>, StateEntry<SessionEntry>)>,
    sid: Seq<char>,
)
    ensures
        spec_session_choices(spec_drop_keys(s, spec_session_keys(s, sid)), sid).len() == 0,
{
    lemma_session_keys_cover(s, sid, s.len() as int);
    lemma_drop_keys_no_session(s, spec_session_keys(s, sid), sid);
}

/// Every key of an entry of session `sid` among the first `n` entries is a session key.
proof fn lemma_session_keys_cover(s: Seq<(Seq<char>, StateEntry<SessionEntry>)>, sid: Seq<char>, n: int)
    requires
        0 <= n <= s.len(),
    ensures
        forall|i: int|
            0 <= i < n && (#[trigger] s[i]).1.entry.session_id@ == sid ==> spec_session_keys(s, sid).contains(s[i].0),
    decreases s.len(),
{
    if s.len() > 0 {
        let d = s.drop_last();
        lemma_session_keys_cover(d, sid, d.len() as int);
        assert forall|i: int|
            0 <= i < n && (#[trigger] s[i]).1.entry.session_id@ == sid implies spec_session_keys(s, sid).contains(s[i].0) by {
            if i < s.len() - 1 {
                assert(d[i] == s[i]);
                let k = spec_session_keys(d, sid);
                let j = choose|j: int| 0 <= j < k.len() && k[j] == s[i].0;
                if s.last().1.entry.session_id@ == sid {
                    assert(k.push(s.last().0)[j] == s[i].0);
                }
            } else {
                let k = spec_session_keys(d, sid);
                assert(k.push(s.last().0)[k.len() as int] == s.last().0);
            }
        }
    }
}

/// Dropping a set of keys that covers every entry of session `sid` leaves none of them.
proof fn lemma_drop_keys_no_session(
    s: Seq<(Seq<char>, StateEntry<SessionEntry>)>,
    keys: Seq<Seq<char>>,
    sid: Seq<char>,
)
    requires
        forall|i: int| 0 <= i < s.len() && (#[trigger] s[i]).1.entry.session_id@ == sid ==> keys.contains(s[i].0),
    ensures
        spec_session_choices(spec_drop_keys(s, keys), sid).len() == 0,
    decreases s.len(),
{
    if s.len() > 0 {
        let d = s.drop_last();
        assert forall|i: int| 0 <= i < d.len() && (#[trigger] d[i]).1.entry.session_id@ == sid implies keys.contains(d[i].0) by {
            assert(s[i] == d[i]);
        }
        lemma_drop_keys_no_session(d, keys, sid);
        let rest = spec_drop_keys(d, keys);
        if !keys.contains(s.last().0) {
            assert(s[s.len() - 1] == s.last());
            assert(rest.push(s.last()).drop_last() =~= rest);
        }
    }
}

} // verus!

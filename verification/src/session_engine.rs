//! The session command: set, clear or list the default choices of the current terminal
//! session.
use vstd::prelude::*;
use crate::text::{push_str, string_of};
use crate::identifiers::{Identifier, IdView, spec_from_str, spec_display};
use crate::choices::{Choice, ChoiceView, choices_view};
use crate::dependencies::{choice_map_view, lookup};
use crate::resolution::{VarsCollection, map_set, set_choices, distinct_keys, lemma_map_set, lemma_map_set_distinct};
use crate::vars_repository::VarsRepository;
use crate::associative_state::{valid_at, spec_purge, spec_lookup, StateEntry, lemma_purge_drops_key, lemma_purge_keeps_other};
use crate::session_storage::{SessionStorage, SessionEntry, spec_make_key, last_choice_of, stored_choice, spec_session_get, spec_session_choices, spec_drop_keys, spec_session_keys};

verus! {

/// What to do with the session's defaults.
#[derive(Debug)]
pub enum SessionCommand {
    SetChoice { var_name: String, choice_value: String },
    Clear,
    List,
}

/// Why a session command failed.
#[derive(Debug)]
pub enum ErrorSessionEngine {
    /// No var of the configuration has this name.
    VariableNotFound(String),
}

/// The session defaults as choices: each (var, choice) pair makes `choice` the one choice of
/// `var`, a later pair for the same var winning.
pub open spec fn spec_session_defaults(pairs: Seq<(IdView, ChoiceView)>) -> Seq<(IdView, Seq<ChoiceView>)>
    decreases pairs.len(),
{
    if pairs.len() == 0 {
        Seq::empty()
    } else {
        map_set(spec_session_defaults(pairs.drop_last()), pairs.last().0, seq![pairs.last().1])
    }
}

/// The session defaults hold a var exactly when a stored choice of the session names it, and
/// then hold that var once, with the last such choice alone.
pub proof fn lemma_session_defaults(pairs: Seq<(IdView, ChoiceView)>)
    ensures
        distinct_keys(spec_session_defaults(pairs)),
        forall|x: IdView|
            #[trigger] lookup(spec_session_defaults(pairs), x) == match last_choice_of(pairs, x) {
                Some(c) => Some(seq![c]),
                None => None::<Seq<ChoiceView>>,
            },
    decreases pairs.len(),
{
    if pairs.len() > 0 {
        let p = pairs.drop_last();
        lemma_session_defaults(p);
        let d = spec_session_defaults(p);
        lemma_map_set(d, pairs.last().0, seq![pairs.last().1]);
        lemma_map_set_distinct(d, pairs.last().0, seq![pairs.last().1]);
        assert forall|x: IdView|
            #[trigger] lookup(spec_session_defaults(pairs), x) == match last_choice_of(pairs, x) {
                Some(c) => Some(seq![c]),
                None => None::<Seq<ChoiceView>>,
            } by {
            if x != pairs.last().0 {
                assert(lookup(d, x) == match last_choice_of(p, x) {
                    Some(c) => Some(seq![c]),
                    None => None::<Seq<ChoiceView>>,
                });
            }
        }
    }
}

/// One line `  var = value` per pair.
pub open spec fn spec_listing(pairs: Seq<(IdView, ChoiceView)>) -> Seq<Seq<char>>
    decreases pairs.len(),
{
    if pairs.len() == 0 {
        Seq::empty()
    } else {
        spec_listing(pairs.drop_last()).push(
            seq![' ', ' '] + spec_display(pairs.last().0) + seq![' ', '=', ' '] + pairs.last().1.value,
        )
    }
}

/// Sets, clears and lists the defaults of the current session.
#[derive(Debug)]
pub struct SessionEngine {
    pub storage: SessionStorage,
    pub vars_repository: VarsRepository,
    /// What the engine has to show, line by line.
    pub output: Vec<String>,
}

impl SessionEngine {
    /// An engine over `storage` for the vars of `vars_repository`.
    pub fn new(storage: SessionStorage, vars_repository: VarsRepository) -> (r: Self)
        ensures
            r.storage == storage,
            r.vars_repository == vars_repository,
            r.output@.len() == 0,
    {
        SessionEngine { storage, vars_repository, output: Vec::new() }
    }

    /// Runs `command` at time `now`. Setting a default needs a var of the configuration and
    /// stores the value for the session; clearing drops the session's defaults; listing shows
    /// them.
    pub fn run(&mut self, command: SessionCommand, now: u64) -> (r: Result<i32, ErrorSessionEngine>)
        ensures
            final(self).vars_repository == old(self).vars_repository,
            final(self).storage.session_view() == old(self).storage.session_view(),
            final(self).storage.ttl_view() == old(self).storage.ttl_view(),
            match command {
                SessionCommand::SetChoice { var_name, choice_value } => {
                    let id = spec_from_str(var_name@);
                    &&& (!old(self).vars_repository.vars_map().contains_key(id) <==> r is Err)
                    &&& (r matches Err(ErrorSessionEngine::VariableNotFound(n)) ==> n@ == var_name@)
                    &&& (r is Err ==> final(self).storage == old(self).storage)
                    &&& (r is Ok ==> stored_choice(
                        old(self).storage.state_view(),
                        final(self).storage.state_view(),
                        old(self).storage.session_view(),
                        id,
                        ChoiceView { value: choice_value@, desc: None },
                        old(self).storage.ttl_view(),
                        now,
                    ))
                    &&& (r is Ok ==> r == Ok::<i32, ErrorSessionEngine>(0) && spec_session_get(
                        final(self).storage.state_view(),
                        old(self).storage.session_view(),
                        id,
                        old(self).storage.ttl_view(),
                        now,
                    ) == if valid_at(old(self).storage.ttl_view(), now, now) {
                        Some(ChoiceView { value: choice_value@, desc: None })
                    } else {
                        None::<ChoiceView>
                    })
                },
                SessionCommand::Clear => r == Ok::<i32, ErrorSessionEngine>(0)
                    && final(self).storage.state_view() == spec_drop_keys(
                    old(self).storage.state_view(),
                    spec_session_keys(old(self).storage.state_view(), old(self).storage.session_view()),
                ),
                SessionCommand::List => r == Ok::<i32, ErrorSessionEngine>(0) && final(self).storage
                    == old(self).storage && ({
                    let pairs = spec_session_choices(
                        old(self).storage.state_view(),
                        old(self).storage.session_view(),
                    );
                    final(self).output@.len() == old(self).output@.len() + 1 + pairs.len()
                        && final(self).output@.subrange(old(self).output@.len() + 1int, final(self).output@.len() as int).map_values(
                        |s: String| s@,
                    ) == spec_listing(pairs)
                }),
            },
    {
        match command {
            SessionCommand::SetChoice { var_name, choice_value } => {
                let identifier = Identifier::from_str(var_name.as_str());
                proof {
                    self.vars_repository.lemma_vars_map();
                }
                if self.vars_repository.get(&identifier).is_none() {
                    return Err(ErrorSessionEngine::VariableNotFound(var_name));
                }
                let choice = Choice::from_value(choice_value.as_str());
                self.storage.set_choice(identifier, choice, now);
                let mut v: Vec<char> = Vec::new();
                let head = "Session default set: ";
                let eq = " = ";
                proof {
                    reveal_strlit("Session default set: ");
                    reveal_strlit(" = ");
                }
                push_str(&mut v, head);
                push_str(&mut v, var_name.as_str());
                push_str(&mut v, eq);
                push_str(&mut v, choice_value.as_str());
                self.output.push(string_of(v.as_slice()));
                Ok(0)
            },
            SessionCommand::Clear => {
                self.storage.clear_session();
                let mut v: Vec<char> = Vec::new();
                let head = "Session defaults cleared for session: ";
                proof {
                    reveal_strlit("Session defaults cleared for session: ");
                }
                push_str(&mut v, head);
                push_str(&mut v, self.storage.session_id());
                self.output.push(string_of(v.as_slice()));
                Ok(0)
            },
            SessionCommand::List => {
                let choices = self.storage.get_all_choices();
                let mut v: Vec<char> = Vec::new();
                if choices.len() == 0 {
                    let head = "No session defaults set for session: ";
                    proof {
                        reveal_strlit("No session defaults set for session: ");
                    }
                    push_str(&mut v, head);
                } else {
                    let head = "Session defaults for session: ";
                    proof {
                        reveal_strlit("Session defaults for session: ");
                    }
                    push_str(&mut v, head);
                }
                push_str(&mut v, self.storage.session_id());
                self.output.push(string_of(v.as_slice()));
                let ghost start = self.output@;
                let ghost pv = choices@.map_values(|p: (Identifier, Choice)| (p.0@, p.1@));
                assert(pv.subrange(0, 0) =~= Seq::<(IdView, ChoiceView)>::empty());
                assert(self.output@.subrange(start.len() as int, start.len() as int).map_values(|s: String| s@) =~= Seq::<Seq<char>>::empty());
                let mut i: usize = 0;
                while i < choices.len()
                    invariant
                        i <= choices@.len(),
                        pv == choices@.map_values(|p: (Identifier, Choice)| (p.0@, p.1@)),
                        self.output@.len() == start.len() + i,
                        self.output@.subrange(0, start.len() as int) == start,
                        self.output@.subrange(start.len() as int, self.output@.len() as int).map_values(
                            |s: String| s@,
                        ) == spec_listing(pv.subrange(0, i as int)),
                        self.storage == old(self).storage,
                        self.vars_repository == old(self).vars_repository,
                    decreases choices@.len() - i,
                {
                    let mut line: Vec<char> = Vec::new();
                    line.push(' ');
                    line.push(' ');
                    let d = choices[i].0.to_display();
                    push_str(&mut line, d.as_str());
                    line.push(' ');
                    line.push('=');
                    line.push(' ');
                    push_str(&mut line, choices[i].1.value());
                    assert(line@ =~= seq![' ', ' '] + spec_display(pv[i as int].0) + seq![' ', '=', ' '] + pv[i as int].1.value);
                    let ghost o0 = self.output@;
                    self.output.push(string_of(line.as_slice()));
                    proof {
                        assert(pv.subrange(0, i + 1).drop_last() =~= pv.subrange(0, i as int));
                        assert(self.output@.subrange(start.len() as int, self.output@.len() as int) =~= o0.subrange(
                            start.len() as int,
                            o0.len() as int,
                        ).push(self.output@.last()));
                        assert(self.output@.subrange(0, start.len() as int) =~= o0.subrange(0, start.len() as int));
                    }
                    i = i + 1;
                }
                assert(pv.subrange(0, i as int) =~= pv);
                Ok(0)
            },
        }
    }

    /// The session's defaults as choices (see `spec_session_defaults`).
    pub fn get_session_defaults(&self) -> (r: Vec<(Identifier, Vec<Choice>)>)
        ensures
            choice_map_view(r@) == spec_session_defaults(
                spec_session_choices(self.storage.state_view(), self.storage.session_view()),
            ),
            distinct_keys(choice_map_view(r@)),
            forall|x: IdView|
                #[trigger] lookup(choice_map_view(r@), x) == match last_choice_of(
                    spec_session_choices(self.storage.state_view(), self.storage.session_view()),
                    x,
                ) {
                    Some(c) => Some(seq![c]),
                    None => None::<Seq<ChoiceView>>,
                },
    {
        proof {
            lemma_session_defaults(spec_session_choices(self.storage.state_view(), self.storage.session_view()));
        }
        let pairs = self.storage.get_all_choices();
        let ghost pv = pairs@.map_values(|p: (Identifier, Choice)| (p.0@, p.1@));
        let mut out: Vec<(Identifier, Vec<Choice>)> = Vec::new();
        assert(pv.subrange(0, 0) =~= Seq::<(IdView, ChoiceView)>::empty());
        assert(choice_map_view(out@) =~= Seq::<(IdView, Seq<ChoiceView>)>::empty());
        let mut i: usize = 0;
        while i < pairs.len()
            invariant
                i <= pairs@.len(),
                pv == pairs@.map_values(|p: (Identifier, Choice)| (p.0@, p.1@)),
                choice_map_view(out@) == spec_session_defaults(pv.subrange(0, i as int)),
            decreases pairs@.len() - i,
        {
            let mut cs: Vec<Choice> = Vec::new();
            cs.push(pairs[i].1.clone());
            assert(choices_view(cs@) =~= seq![pv[i as int].1]);
            assert(pv.subrange(0, i + 1).drop_last() =~= pv.subrange(0, i as int));
            set_choices(&mut out, pairs[i].0.clone(), cs);
            i = i + 1;
        }
        assert(pv.subrange(0, i as int) =~= pv);
        out
    }

    /// Stores, for each var of `choices` that has a choice, its first choice as the session's
    /// default, at time `now`: read back at `now`, each var gets the first choice of its last
    /// entry that has one (nothing when a time to live of zero expires it at once).
    pub fn save_choices(&mut self, choices: &Vec<(Identifier, Vec<Choice>)>, now: u64)
        ensures
            final(self).vars_repository == old(self).vars_repository,
            final(self).storage.session_view() == old(self).storage.session_view(),
            final(self).storage.ttl_view() == old(self).storage.ttl_view(),
            forall|i: int|
                0 <= i < choices@.len() && #[trigger] last_saved(
                    choice_map_view(choices@),
                    old(self).storage.session_view(),
                    i,
                    choices@.len() as int,
                ) ==> spec_session_get(
                    final(self).storage.state_view(),
                    old(self).storage.session_view(),
                    choice_map_view(choices@)[i].0,
                    old(self).storage.ttl_view(),
                    now,
                ) == if valid_at(old(self).storage.ttl_view(), now, now) {
                    Some(choice_map_view(choices@)[i].1[0])
                } else {
                    None::<ChoiceView>
                },
    {
        let ghost cv = choice_map_view(choices@);
        let ghost sid = self.storage.session_view();
        let ghost ttl = self.storage.ttl_view();
        let ghost valid = valid_at(ttl, now, now);
        let mut i: usize = 0;
        while i < choices.len()
            invariant
                i <= choices@.len(),
                cv == choice_map_view(choices@),
                cv.len() == choices@.len(),
                sid == self.storage.session_view(),
                ttl == self.storage.ttl_view(),
                valid == valid_at(ttl, now, now),
                self.vars_repository == old(self).vars_repository,
                sid == old(self).storage.session_view(),
                ttl == old(self).storage.ttl_view(),
                forall|k: int|
                    0 <= k < i && #[trigger] last_saved(cv, sid, k, i as int) ==> saved_at(
                        self.storage.state_view(),
                        spec_make_key(sid, cv[k].0),
                        sid,
                        cv[k].1[0],
                        now,
                        valid,
                    ),
            decreases choices@.len() - i,
        {
            let ghost st = self.storage.state_view();
            if choices[i].1.len() > 0 {
                let id = choices[i].0.clone();
                let c = choices[i].1[0].clone();
                proof {
                    assert(cv[i as int].1[0] == c@);
                }
                self.storage.set_choice(id, c, now);
                proof {
                    let ki = spec_make_key(sid, cv[i as int].0);
                    let p = spec_purge(st, ki, ttl, now);
                    let st2 = self.storage.state_view();
                    lemma_purge_drops_key(st, ki, ttl, now);
                    if valid {
                        assert(st2 =~= p.push(st2.last()));
                    } else {
                        assert(st2 =~= p);
                    }
                    assert forall|k: int| 0 <= k < i + 1 && #[trigger] last_saved(cv, sid, k, i + 1) implies saved_at(
                        st2,
                        spec_make_key(sid, cv[k].0),
                        sid,
                        cv[k].1[0],
                        now,
                        valid,
                    ) by {
                        let kk = spec_make_key(sid, cv[k].0);
                        if k == i {
                            if valid {
                                assert(spec_lookup(st2, kk) == Some(st2.last().1));
                            }
                        } else {
                            assert(last_saved(cv, sid, k, i as int));
                            assert(kk != ki);
                            lemma_purge_keeps_other(st, ki, ttl, now, kk);
                            if valid {
                                assert(spec_lookup(st2, kk) == spec_lookup(p, kk));
                            }
                        }
                    }
                }
            } else {
                proof {
                    assert forall|k: int| 0 <= k < i + 1 && #[trigger] last_saved(cv, sid, k, i + 1) implies saved_at(
                        st,
                        spec_make_key(sid, cv[k].0),
                        sid,
                        cv[k].1[0],
                        now,
                        valid,
                    ) by {
                        assert(k != i);
                        assert(last_saved(cv, sid, k, i as int));
                    }
                }
            }
            i = i + 1;
        }
        proof {
            assert forall|k: int|
                0 <= k < choices@.len() && #[trigger] last_saved(cv, sid, k, choices@.len() as int) implies spec_session_get(
                    self.storage.state_view(),
                    sid,
                    cv[k].0,
                    ttl,
                    now,
                ) == if valid {
                    Some(cv[k].1[0])
                } else {
                    None::<ChoiceView>
                } by {
                assert(saved_at(self.storage.state_view(), spec_make_key(sid, cv[k].0), sid, cv[k].1[0], now, valid));
            }
        }
    }
}

/// Entry `i` of `choices` has a choice, and no later entry before `upto` that has one is
/// stored under the same key of session `sid`.
pub open spec fn last_saved(choices: Seq<(IdView, Seq<ChoiceView>)>, sid: Seq<char>, i: int, upto: int) -> bool {
    &&& choices[i].1.len() > 0
    &&& forall|j: int|
        i < j < upto && choices[j].1.len() > 0 ==> spec_make_key(sid, #[trigger] choices[j].0) != spec_make_key(
            sid,
            choices[i].0,
        )
}

/// What `s` holds under `key`: the entry written at `now` with `choice` for session `sid`
/// when such an entry counts at `now` (`valid`), else nothing.
pub open spec fn saved_at(
    s: Seq<(Seq<char>, StateEntry<SessionEntry>)>,
    key: Seq<char>,
    sid: Seq<char>,
    choice: ChoiceView,
    now: u64,
    valid: bool,
) -> bool {
    if valid {
        spec_lookup(s, key) matches Some(e) && e.when == now && e.entry.choice@ == choice && e.entry.session_id@
            == sid
    } else {
        spec_lookup(s, key) is None
    }
}

} // verus!

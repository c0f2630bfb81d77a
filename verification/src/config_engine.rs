//! Checking the configuration: the environment variables that the commands of the aliases and
//! vars refer to but that are not set.
use vstd::prelude::*;
use crate::text::{chars_of, string_of, slice_range, str_eq};
use crate::dependencies::{strings_view, Dependencies};
use crate::aliases::Alias;
use crate::vars::Var;
use crate::cli::ConfigCommand;

verus! {

/// A character that can start the name of an environment variable.
pub open spec fn name_start(c: char) -> bool {
    c == '_' || ('a' <= c && c <= 'z') || ('A' <= c && c <= 'Z')
}

/// A character that can stand in the name of an environment variable.
pub open spec fn name_char(c: char) -> bool {
    name_start(c) || ('0' <= c && c <= '9')
}

/// The end of the run of name characters of `t` that starts at `j`.
pub open spec fn name_end(t: Seq<char>, j: int) -> int
    decreases t.len() - j,
{
    if 0 <= j < t.len() && name_char(t[j]) {
        name_end(t, j + 1)
    } else {
        j
    }
}

/// Where the name of a reference whose `$` stands at `i` begins: after the `{` of `${name}`.
pub open spec fn name_begin(t: Seq<char>, i: int) -> int {
    if i + 1 < t.len() && t[i + 1] == '{' {
        i + 2
    } else {
        i + 1
    }
}

/// A run of name characters does not end before it starts.
pub proof fn lemma_name_end(t: Seq<char>, j: int)
    ensures
        name_end(t, j) >= j,
        j <= t.len() ==> name_end(t, j) <= t.len(),
        0 <= j < t.len() && name_char(t[j]) ==> name_end(t, j) > j,
    decreases t.len() - j,
{
    if 0 <= j < t.len() && name_char(t[j]) {
        lemma_name_end(t, j + 1);
    }
}

/// The names of the environment variables that `t` refers to from position `i` on, in order:
/// a `$` followed by a name (`$name`), or by `{` and a name (`${name}`), as envsubst reads them.
pub open spec fn env_refs_from(t: Seq<char>, i: int) -> Seq<Seq<char>>
    decreases t.len() - i,
{
    if i < 0 || i >= t.len() {
        Seq::empty()
    } else if t[i] == '$' && name_begin(t, i) < t.len() && name_start(t[name_begin(t, i)]) {
        let j = name_begin(t, i);
        proof {
            lemma_name_end(t, j);
            assert(name_end(t, j) > i);
        }
        seq![t.subrange(j, name_end(t, j))] + env_refs_from(t, name_end(t, j))
    } else {
        env_refs_from(t, i + 1)
    }
}

/// The references of `texts`, text after text.
pub open spec fn all_env_refs(texts: Seq<Seq<char>>) -> Seq<Seq<char>>
    decreases texts.len(),
{
    if texts.len() == 0 {
        Seq::empty()
    } else {
        all_env_refs(texts.drop_last()) + env_refs_from(texts.last(), 0)
    }
}

/// The names of `names` that are not in `set`, each once, in the order they first come.
pub open spec fn spec_unset(names: Seq<Seq<char>>, set: Seq<Seq<char>>) -> Seq<Seq<char>>
    decreases names.len(),
{
    if names.len() == 0 {
        Seq::empty()
    } else {
        let r = spec_unset(names.drop_last(), set);
        if set.contains(names.last()) || r.contains(names.last()) {
            r
        } else {
            r.push(names.last())
        }
    }
}

fn is_name_start(c: char) -> (r: bool)
    ensures
        r == name_start(c),
{
    c == '_' || ('a' <= c && c <= 'z') || ('A' <= c && c <= 'Z')
}

fn is_name_char(c: char) -> (r: bool)
    ensures
        r == name_char(c),
{
    is_name_start(c) || ('0' <= c && c <= '9')
}

/// The names of the environment variables that `text` refers to (see `env_refs_from`).
pub fn env_var_references(text: &str) -> (r: Vec<String>)
    ensures
        strings_view(r@) == env_refs_from(text@, 0),
{
    let cs = chars_of(text);
    let ghost t = text@;
    let n = cs.len();
    let mut out: Vec<String> = Vec::new();
    let mut i: usize = 0;
    assert(strings_view(out@) =~= Seq::<Seq<char>>::empty());
    assert(Seq::<Seq<char>>::empty() + env_refs_from(t, 0) =~= env_refs_from(t, 0));
    while i < n
        invariant
            cs@ == t,
            n == t.len(),
            i <= n,
            strings_view(out@) + env_refs_from(t, i as int) == env_refs_from(t, 0),
        decreases n - i,
    {
        let ghost before = strings_view(out@);
        if cs[i] == '$' {
            let j: usize = if i + 1 < n && cs[i + 1] == '{' {
                i + 2
            } else {
                i + 1
            };
            assert(j as int == name_begin(t, i as int));
            if j < n && is_name_start(cs[j]) {
                let mut e: usize = j;
                while e < n && is_name_char(cs[e])
                    invariant
                        cs@ == t,
                        n == t.len(),
                        j <= e <= n,
                        name_end(t, e as int) == name_end(t, j as int),
                    decreases n - e,
                {
                    e = e + 1;
                }
                let name = string_of(slice_range(cs.as_slice(), j, e).as_slice());
                out.push(name);
                proof {
                    assert(strings_view(out@) =~= before.push(t.subrange(j as int, e as int)));
                    assert(before + env_refs_from(t, i as int) == env_refs_from(t, 0));
                    assert(env_refs_from(t, i as int) == seq![t.subrange(j as int, e as int)] + env_refs_from(
                        t,
                        e as int,
                    ));
                    assert(before.push(t.subrange(j as int, e as int)) + env_refs_from(t, e as int) =~= before
                        + (seq![t.subrange(j as int, e as int)] + env_refs_from(t, e as int)));
                    lemma_name_end(t, j as int);
                }
                i = e;
            } else {
                i = i + 1;
            }
        } else {
            i = i + 1;
        }
    }
    assert(env_refs_from(t, i as int) =~= Seq::<Seq<char>>::empty());
    assert(strings_view(out@) + Seq::<Seq<char>>::empty() =~= strings_view(out@));
    out
}

/// Whether `v` holds the text `s`.
fn holds_text(v: &Vec<String>, s: &str) -> (r: bool)
    ensures
        r == strings_view(v@).contains(s@),
{
    let mut i: usize = 0;
    while i < v.len()
        invariant
            i <= v.len(),
            forall|k: int| 0 <= k < i ==> v@[k]@ != s@,
        decreases v.len() - i,
    {
        if str_eq(v[i].as_str(), s) {
            assert(strings_view(v@)[i as int] == s@);
            return true;
        }
        i = i + 1;
    }
    assert forall|k: int| 0 <= k < strings_view(v@).len() implies strings_view(v@)[k] != s@ by {
        assert(strings_view(v@)[k] == v@[k]@);
    }
    false
}

/// The environment variables that `commands` refer to and that are not among `set`, each once,
/// in the order they are first referred to.
pub fn unset_env_vars(commands: &Vec<String>, set: &Vec<String>) -> (r: Vec<String>)
    ensures
        strings_view(r@) == spec_unset(all_env_refs(strings_view(commands@)), strings_view(set@)),
{
    let ghost cv = strings_view(commands@);
    let mut refs: Vec<String> = Vec::new();
    let mut c: usize = 0;
    assert(cv.subrange(0, 0) =~= Seq::<Seq<char>>::empty());
    assert(strings_view(refs@) =~= Seq::<Seq<char>>::empty());
    while c < commands.len()
        invariant
            c <= commands.len(),
            cv == strings_view(commands@),
            strings_view(refs@) == all_env_refs(cv.subrange(0, c as int)),
        decreases commands.len() - c,
    {
        let mut found = env_var_references(commands[c].as_str());
        let ghost r0 = strings_view(refs@);
        let ghost f0 = strings_view(found@);
        refs.append(&mut found);
        proof {
            assert(strings_view(refs@) =~= r0 + f0);
            assert(cv.subrange(0, c + 1).drop_last() =~= cv.subrange(0, c as int));
            assert(cv.subrange(0, c + 1).last() == commands@[c as int]@);
        }
        c = c + 1;
    }
    assert(cv.subrange(0, c as int) =~= cv);
    without(&refs, set)
}

/// The names of `names` that are not among `set`, each once, in the order they first come.
fn without(refs: &Vec<String>, set: &Vec<String>) -> (r: Vec<String>)
    ensures
        strings_view(r@) == spec_unset(strings_view(refs@), strings_view(set@)),
{
    let ghost names = strings_view(refs@);
    let ghost sv = strings_view(set@);
    let mut out: Vec<String> = Vec::new();
    let mut k: usize = 0;
    assert(names.subrange(0, 0) =~= Seq::<Seq<char>>::empty());
    assert(strings_view(out@) =~= Seq::<Seq<char>>::empty());
    while k < refs.len()
        invariant
            k <= refs.len(),
            names == strings_view(refs@),
            sv == strings_view(set@),
            strings_view(out@) == spec_unset(names.subrange(0, k as int), sv),
        decreases refs.len() - k,
    {
        let name = refs[k].as_str();
        proof {
            assert(names.subrange(0, k + 1).drop_last() =~= names.subrange(0, k as int));
            assert(names.subrange(0, k + 1).last() == name@);
        }
        if !holds_text(set, name) && !holds_text(&out, name) {
            let ghost o0 = strings_view(out@);
            out.push(refs[k].clone());
            assert(strings_view(out@) =~= o0.push(name@));
        }
        k = k + 1;
    }
    assert(names.subrange(0, k as int) =~= names);
    out
}

/// The programs that `commands` run, each once, in the order they first come.
pub fn programs_used(commands: &Vec<String>) -> (r: Vec<String>)
    ensures
        strings_view(r@) == distinct_names(all_programs(strings_view(commands@))),
{
    let ghost cv = strings_view(commands@);
    let mut all: Vec<String> = Vec::new();
    let mut c: usize = 0;
    assert(cv.subrange(0, 0) =~= Seq::<Seq<char>>::empty());
    assert(strings_view(all@) =~= Seq::<Seq<char>>::empty());
    while c < commands.len()
        invariant
            c <= commands.len(),
            cv == strings_view(commands@),
            strings_view(all@) == all_programs(cv.subrange(0, c as int)),
        decreases commands.len() - c,
    {
        let mut found = programs_in(commands[c].as_str());
        let ghost a0 = strings_view(all@);
        let ghost f0 = strings_view(found@);
        all.append(&mut found);
        proof {
            assert(strings_view(all@) =~= a0 + f0);
            assert(cv.subrange(0, c + 1).drop_last() =~= cv.subrange(0, c as int));
            assert(cv.subrange(0, c + 1).last() == commands@[c as int]@);
        }
        c = c + 1;
    }
    assert(cv.subrange(0, c as int) =~= cv);
    let none: Vec<String> = Vec::new();
    assert(strings_view(none@) =~= Seq::<Seq<char>>::empty());
    without(&all, &none)
}

/// The names of `names` whose flag in `available` is off (see `unavailable`).
pub fn unavailable_names(names: &Vec<String>, available: &Vec<bool>) -> (r: Vec<String>)
    requires
        available@.len() == names@.len(),
    ensures
        strings_view(r@) == unavailable(strings_view(names@), available@),
{
    let ghost nv = strings_view(names@);
    let mut out: Vec<String> = Vec::new();
    let mut i: usize = 0;
    assert(strings_view(out@) =~= unavailable(nv.subrange(0, 0), available@.subrange(0, 0)));
    while i < names.len()
        invariant
            i <= names.len(),
            available@.len() == names@.len(),
            nv == strings_view(names@),
            strings_view(out@) == unavailable(nv.subrange(0, i as int), available@.subrange(0, i as int)),
        decreases names.len() - i,
    {
        proof {
            assert(nv.subrange(0, i + 1).drop_last() =~= nv.subrange(0, i as int));
            assert(available@.subrange(0, i + 1).drop_last() =~= available@.subrange(0, i as int));
        }
        if !available[i] {
            let ghost o0 = strings_view(out@);
            out.push(names[i].clone());
            assert(strings_view(out@) =~= o0.push(nv[i as int]));
        }
        i = i + 1;
    }
    assert(nv.subrange(0, i as int) =~= nv);
    assert(available@.subrange(0, i as int) =~= available@);
    out
}

/// The unset environment variables of `commands` (see `unset_env_vars`), and the exit code of
/// the check: 0 when there is none, 1 otherwise.
pub fn check_unset_env_vars(commands: &Vec<String>, set: &Vec<String>) -> (r: (Vec<String>, i32))
    ensures
        strings_view(r.0@) == spec_unset(all_env_refs(strings_view(commands@)), strings_view(set@)),
        r.1 == if r.0@.len() == 0 {
            0i32
        } else {
            1i32
        },
{
    let missing = unset_env_vars(commands, set);
    let code: i32 = if missing.len() == 0 {
        0
    } else {
        1
    };
    (missing, code)
}

/// A blank between words.
pub open spec fn blank(c: char) -> bool {
    c == ' ' || c == '\t' || c == '\n'
}

/// The parts of `t` between its pipes `|`.
pub open spec fn pipe_parts(t: Seq<char>) -> Seq<Seq<char>>
    decreases t.len(),
{
    if t.len() == 0 {
        seq![Seq::empty()]
    } else {
        let p = pipe_parts(t.drop_last());
        if t.last() == '|' {
            p.push(Seq::empty())
        } else {
            p.update(p.len() - 1, p.last().push(t.last()))
        }
    }
}

/// The position of the first character of `s` from `i` on that is not blank.
pub open spec fn skip_blanks(s: Seq<char>, i: int) -> int
    decreases s.len() - i,
{
    if 0 <= i < s.len() && blank(s[i]) {
        skip_blanks(s, i + 1)
    } else {
        i
    }
}

/// The end of the word of `s` that starts at `i`.
pub open spec fn word_end(s: Seq<char>, i: int) -> int
    decreases s.len() - i,
{
    if 0 <= i < s.len() && !blank(s[i]) {
        word_end(s, i + 1)
    } else {
        i
    }
}

/// The first word of `s`.
pub open spec fn first_word(s: Seq<char>) -> Seq<char> {
    s.subrange(skip_blanks(s, 0), word_end(s, skip_blanks(s, 0)))
}

/// The programs that `t` runs: the first word of each part between pipes, where there is one.
pub open spec fn programs_of(t: Seq<char>) -> Seq<Seq<char>> {
    pipe_parts(t).map_values(|p: Seq<char>| first_word(p)).filter(|w: Seq<char>| w.len() > 0)
}

/// The programs of `texts`, text after text.
pub open spec fn all_programs(texts: Seq<Seq<char>>) -> Seq<Seq<char>>
    decreases texts.len(),
{
    if texts.len() == 0 {
        Seq::empty()
    } else {
        all_programs(texts.drop_last()) + programs_of(texts.last())
    }
}

/// `names` without repeats, first first.
pub open spec fn distinct_names(names: Seq<Seq<char>>) -> Seq<Seq<char>> {
    spec_unset(names, Seq::empty())
}

/// The names of `names` whose flag in `available` is off, in order.
pub open spec fn unavailable(names: Seq<Seq<char>>, available: Seq<bool>) -> Seq<Seq<char>>
    decreases names.len(),
{
    if names.len() == 0 || available.len() != names.len() {
        Seq::empty()
    } else {
        let r = unavailable(names.drop_last(), available.drop_last());
        if available.last() {
            r
        } else {
            r.push(names.last())
        }
    }
}

/// The characters of `t` split at its pipes.
fn split_pipes(t: &Vec<char>) -> (r: Vec<Vec<char>>)
    ensures
        r@.map_values(|p: Vec<char>| p@) == pipe_parts(t@),
{
    let mut parts: Vec<Vec<char>> = Vec::new();
    parts.push(Vec::new());
    let mut i: usize = 0;
    assert(t@.subrange(0, 0) =~= Seq::<char>::empty());
    assert(parts@.map_values(|p: Vec<char>| p@) =~= pipe_parts(t@.subrange(0, 0)));
    while i < t.len()
        invariant
            i <= t.len(),
            parts@.len() > 0,
            parts@.map_values(|p: Vec<char>| p@) == pipe_parts(t@.subrange(0, i as int)),
        decreases t.len() - i,
    {
        let c = t[i];
        let ghost before = parts@.map_values(|p: Vec<char>| p@);
        assert(t@.subrange(0, i + 1).drop_last() =~= t@.subrange(0, i as int));
        assert(t@.subrange(0, i + 1).last() == c);
        if c == '|' {
            parts.push(Vec::new());
            assert(parts@.map_values(|p: Vec<char>| p@) =~= before.push(Seq::empty()));
        } else {
            let k = parts.len() - 1;
            let mut last = parts.pop().unwrap();
            last.push(c);
            parts.push(last);
            assert(parts@.map_values(|p: Vec<char>| p@) =~= before.update(k as int, before[k as int].push(c)));
        }
        i = i + 1;
    }
    assert(t@.subrange(0, i as int) =~= t@);
    parts
}

/// The first word of `s`.
fn first_word_of(s: &Vec<char>) -> (r: Vec<char>)
    ensures
        r@ == first_word(s@),
{
    let n = s.len();
    let mut a: usize = 0;
    while a < n && (s[a] == ' ' || s[a] == '\t' || s[a] == '\n')
        invariant
            a <= n,
            n == s@.len(),
            skip_blanks(s@, a as int) == skip_blanks(s@, 0),
        decreases n - a,
    {
        a = a + 1;
    }
    let mut b: usize = a;
    while b < n && !(s[b] == ' ' || s[b] == '\t' || s[b] == '\n')
        invariant
            a <= b <= n,
            n == s@.len(),
            word_end(s@, b as int) == word_end(s@, a as int),
        decreases n - b,
    {
        b = b + 1;
    }
    slice_range(s.as_slice(), a, b)
}

/// The programs that `text` runs (see `programs_of`).
pub fn programs_in(text: &str) -> (r: Vec<String>)
    ensures
        strings_view(r@) == programs_of(text@),
{
    let cs = chars_of(text);
    let parts = split_pipes(&cs);
    let ghost pv = parts@.map_values(|p: Vec<char>| p@);
    let mut out: Vec<String> = Vec::new();
    let mut i: usize = 0;
    assert(pv.subrange(0, 0).map_values(|p: Seq<char>| first_word(p)).filter(|w: Seq<char>| w.len() > 0)
        =~= Seq::<Seq<char>>::empty()) by {
        reveal(Seq::filter);
    }
    while i < parts.len()
        invariant
            i <= parts@.len(),
            pv == parts@.map_values(|p: Vec<char>| p@),
            strings_view(out@) == pv.subrange(0, i as int).map_values(|p: Seq<char>| first_word(p)).filter(
                |w: Seq<char>| w.len() > 0,
            ),
        decreases parts@.len() - i,
    {
        let w = first_word_of(&parts[i]);
        let ghost o0 = strings_view(out@);
        proof {
            let f = |p: Seq<char>| first_word(p);
            let g = |w: Seq<char>| w.len() > 0;
            assert(pv.subrange(0, i + 1).map_values(f) =~= pv.subrange(0, i as int).map_values(f).push(
                first_word(pv[i as int]),
            ));
            reveal(Seq::filter);
            assert(pv.subrange(0, i + 1).map_values(f).drop_last() =~= pv.subrange(0, i as int).map_values(f));
        }
        if w.len() > 0 {
            out.push(string_of(w.as_slice()));
            assert(strings_view(out@) =~= o0.push(w@));
        }
        i = i + 1;
    }
    assert(pv.subrange(0, i as int) =~= pv);
    out
}

/// The commands of `aliases` then of `vars`, as texts.
pub open spec fn config_commands(aliases: Seq<Alias>, vars: Seq<Var>) -> Seq<Seq<char>> {
    aliases.map_values(|a: Alias| a.command_view()) + vars.map_values(|v: Var| v.command_view())
}

/// The configuration to check: the aliases, the vars and the names of the environment
/// variables that are set.
pub struct ConfigEngine {
    pub aliases: Vec<Alias>,
    pub vars: Vec<Var>,
    pub env_variables: Vec<String>,
}

impl ConfigEngine {
    /// The commands of the aliases, then those of the vars.
    fn commands(&self) -> (r: Vec<String>)
        ensures
            strings_view(r@) == config_commands(self.aliases@, self.vars@),
    {
        let mut out: Vec<String> = Vec::new();
        let mut i: usize = 0;
        while i < self.aliases.len()
            invariant
                i <= self.aliases.len(),
                strings_view(out@) == self.aliases@.subrange(0, i as int).map_values(|a: Alias| a.command_view()),
            decreases self.aliases.len() - i,
        {
            let ghost o0 = strings_view(out@);
            out.push(self.aliases[i].command().to_owned());
            assert(strings_view(out@) =~= o0.push(self.aliases@[i as int].command_view()));
            assert(self.aliases@.subrange(0, i + 1).map_values(|a: Alias| a.command_view()) =~= self.aliases@.subrange(
                0,
                i as int,
            ).map_values(|a: Alias| a.command_view()).push(self.aliases@[i as int].command_view()));
            i = i + 1;
        }
        assert(self.aliases@.subrange(0, i as int) =~= self.aliases@);
        let ghost head = strings_view(out@);
        let mut j: usize = 0;
        while j < self.vars.len()
            invariant
                j <= self.vars.len(),
                head == self.aliases@.map_values(|a: Alias| a.command_view()),
                strings_view(out@) == head + self.vars@.subrange(0, j as int).map_values(|v: Var| v.command_view()),
            decreases self.vars.len() - j,
        {
            let ghost o0 = strings_view(out@);
            out.push(self.vars[j].command().to_owned());
            assert(strings_view(out@) =~= o0.push(self.vars@[j as int].command_view()));
            assert(self.vars@.subrange(0, j + 1).map_values(|v: Var| v.command_view()) =~= self.vars@.subrange(
                0,
                j as int,
            ).map_values(|v: Var| v.command_view()).push(self.vars@[j as int].command_view()));
            j = j + 1;
        }
        assert(self.vars@.subrange(0, j as int) =~= self.vars@);
        out
    }

    /// The programs that the commands of the aliases and vars run, each once, in order (see
    /// `programs_of`); whether each can be found is asked of the system by the caller.
    pub fn programs(&self) -> (r: Vec<String>)
        ensures
            strings_view(r@) == distinct_names(all_programs(config_commands(self.aliases@, self.vars@))),
    {
        let commands = self.commands();
        programs_used(&commands)
    }

    /// Runs the check `cmd`, `available` telling for each of `programs()` whether it can be
    /// found. The programs are checked for `CheckUnavailablePrograms` and `All`: the report
    /// names those not found. The environment variables are checked for `CheckUnsetEnvVars`
    /// and `All`: the report names those referred to and not set. The exit code is that of
    /// the variables' check, 0 when none is unset and 1 otherwise; checking for programs alone
    /// ends with 1.
    pub fn run(&self, cmd: ConfigCommand, available: &Vec<bool>) -> (r: ConfigReport)
        requires
            available@.len() == distinct_names(all_programs(config_commands(self.aliases@, self.vars@))).len(),
        ensures
            strings_view(r.missing_programs@) == if cmd == ConfigCommand::CheckUnsetEnvVars {
                Seq::empty()
            } else {
                unavailable(distinct_names(all_programs(config_commands(self.aliases@, self.vars@))), available@)
            },
            strings_view(r.unset_env_vars@) == if cmd == ConfigCommand::CheckUnavailablePrograms {
                Seq::empty()
            } else {
                spec_unset(
                    all_env_refs(config_commands(self.aliases@, self.vars@)),
                    strings_view(self.env_variables@),
                )
            },
            r.code == if cmd == ConfigCommand::CheckUnavailablePrograms || r.unset_env_vars@.len() > 0 {
                1i32
            } else {
                0i32
            },
    {
        let missing_programs = if cmd == ConfigCommand::CheckUnsetEnvVars {
            let none: Vec<String> = Vec::new();
            assert(strings_view(none@) =~= Seq::<Seq<char>>::empty());
            none
        } else {
            let programs = self.programs();
            unavailable_names(&programs, available)
        };
        if cmd == ConfigCommand::CheckUnavailablePrograms {
            let none: Vec<String> = Vec::new();
            assert(strings_view(none@) =~= Seq::<Seq<char>>::empty());
            ConfigReport { missing_programs, unset_env_vars: none, code: 1 }
        } else {
            let commands = self.commands();
            let (unset, code) = check_unset_env_vars(&commands, &self.env_variables);
            ConfigReport { missing_programs, unset_env_vars: unset, code }
        }
    }
}

/// What a configuration check found, and its exit code.
#[derive(Debug)]
pub struct ConfigReport {
    pub missing_programs: Vec<String>,
    pub unset_env_vars: Vec<String>,
    pub code: i32,
}

} // verus!

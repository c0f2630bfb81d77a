//! Executors that need no process: one that runs nothing, and the naming of the tmux windows
//! that commands are run in.
use vstd::prelude::*;
use std::collections::HashMap;
use crate::text::{chars_of, string_of, push_str, str_replace, spec_replace};
use crate::identifiers::spec_display;
use crate::aliases::{ResolvedAlias, ResolvedAliasView};
use crate::engine::{SamExecutor, ErrorSamEngine};

verus! {

/// An executor for dry runs: it runs nothing and succeeds.
pub struct DryExecutor {
    handed: Ghost<Seq<(ResolvedAliasView, Result<i32, ErrorSamEngine>)>>,
}

impl DryExecutor {
    /// A dry executor that was handed nothing yet.
    pub fn new() -> (r: DryExecutor)
        ensures
            r.executed().len() == 0,
    {
        DryExecutor { handed: Ghost(Seq::empty()) }
    }
}

impl SamExecutor for DryExecutor {
    /// What it was handed, each answered with 0.
    closed spec fn executed(&self) -> Seq<(ResolvedAliasView, Result<i32, ErrorSamEngine>)> {
        self.handed@
    }

    fn execute_resolved_alias(
        &mut self,
        alias: &ResolvedAlias,
        _env_variables: &HashMap<String, String>,
    ) -> (r: Result<i32, ErrorSamEngine>)
        ensures
            r == Ok::<i32, ErrorSamEngine>(0),
    {
        let r: Result<i32, ErrorSamEngine> = Ok(0);
        self.handed = Ghost(self.handed@.push((alias@, r)));
        r
    }
}

/// The digit character of `d` (below ten).
pub open spec fn digit_char(d: nat) -> char {
    if d == 0 { '0' } else if d == 1 { '1' } else if d == 2 { '2' } else if d == 3 { '3' } else if d == 4 {
        '4'
    } else if d == 5 { '5' } else if d == 6 { '6' } else if d == 7 { '7' } else if d == 8 { '8' } else {
        '9'
    }
}

/// `n` written in decimal.
pub open spec fn decimal(n: nat) -> Seq<char>
    decreases n,
{
    if n < 10 {
        seq![digit_char(n)]
    } else {
        decimal(n / 10) + seq![digit_char(n % 10)]
    }
}

/// The digit character of `d`.
fn digit(d: u128) -> (r: char)
    requires
        d < 10,
    ensures
        r == digit_char(d as nat),
{
    if d == 0 { '0' } else if d == 1 { '1' } else if d == 2 { '2' } else if d == 3 { '3' } else if d == 4 {
        '4'
    } else if d == 5 { '5' } else if d == 6 { '6' } else if d == 7 { '7' } else if d == 8 { '8' } else {
        '9'
    }
}

/// `n` written in decimal.
pub fn to_decimal(n: u128) -> (r: Vec<char>)
    ensures
        r@ == decimal(n as nat),
    decreases n,
{
    if n < 10 {
        vec![digit(n)]
    } else {
        let mut v = to_decimal(n / 10);
        v.push(digit(n % 10));
        v
    }
}

/// How many of `names` start with `prefix`.
pub open spec fn count_prefixed(names: Seq<Seq<char>>, prefix: Seq<char>) -> nat
    decreases names.len(),
{
    if names.len() == 0 {
        0
    } else {
        count_prefixed(names.drop_last(), prefix) + if prefix.is_prefix_of(names.last()) {
            1nat
        } else {
            0nat
        }
    }
}

/// The window for an alias: its identifier with `:` made `_`, a dash, and one more than the
/// number of windows already named after it.
pub open spec fn spec_window_name(id_text: Seq<char>, windows: Seq<Seq<char>>) -> Seq<char> {
    let base = spec_replace(id_text, seq![':'], seq!['_']);
    base + seq!['-'] + decimal(count_prefixed(windows, base) + 1)
}

/// Runs the commands of an alias in panes of a tmux window of the current session.
#[derive(Debug)]
pub struct TmuxExecutor {
    current_session: String,
    windows: Vec<String>,
}

impl TmuxExecutor {
    /// The names of the session's windows.
    pub closed spec fn windows_view(&self) -> Seq<Seq<char>> {
        self.windows@.map_values(|w: String| w@)
    }

    /// The current session.
    pub closed spec fn session_view(&self) -> Seq<char> {
        self.current_session@
    }

    /// An executor for `current_session`, whose windows are named `windows`.
    pub fn new(current_session: String, windows: Vec<String>) -> (r: Self)
        ensures
            r.session_view() == current_session@,
            r.windows_view() == windows@.map_values(|w: String| w@),
    {
        TmuxExecutor { current_session, windows }
    }

    /// The current session.
    pub fn current_session(&self) -> (r: &str)
        ensures
            r@ == self.session_view(),
    {
        self.current_session.as_str()
    }

    /// The name of the window to run `alias` in (see `spec_window_name`).
    pub fn window_name_for_alias(&self, alias: &ResolvedAlias) -> (r: String)
        ensures
            r@ == spec_window_name(spec_display(alias@.name), self.windows_view()),
    {
        let shown = alias.name().to_display();
        let colon = ":";
        let underscore = "_";
        proof {
            reveal_strlit(":");
            reveal_strlit("_");
            assert(colon@ =~= seq![':']);
            assert(underscore@ =~= seq!['_']);
        }
        let base = str_replace(shown.as_str(), colon, underscore);
        let bc = chars_of(base.as_str());
        let ghost ws = self.windows_view();
        let mut count: u128 = 0;
        let mut i: usize = 0;
        while i < self.windows.len()
            invariant
                i <= self.windows@.len(),
                ws == self.windows@.map_values(|w: String| w@),
                bc@ == base@,
                count == count_prefixed(ws.subrange(0, i as int), base@),
                count <= i,
            decreases self.windows@.len() - i,
        {
            let wc = chars_of(self.windows[i].as_str());
            let mut pre = bc.len() <= wc.len();
            let mut k: usize = 0;
            assert(bc@.subrange(0, 0) =~= wc@.subrange(0, 0));
            while pre && k < bc.len()
                invariant
                    k <= bc@.len(),
                    pre ==> bc@.len() <= wc@.len(),
                    pre == (bc@.len() <= wc@.len() && bc@.subrange(0, k as int) == wc@.subrange(0, k as int)),
                decreases bc@.len() - k,
            {
                if bc[k] != wc[k] {
                    pre = false;
                }
                proof {
                    if pre {
                        assert(bc@.subrange(0, k + 1) =~= bc@.subrange(0, k as int).push(bc@[k as int]));
                        assert(wc@.subrange(0, k + 1) =~= wc@.subrange(0, k as int).push(wc@[k as int]));
                    } else if bc@.len() <= wc@.len() && k < bc@.len() {
                        assert(bc@.subrange(0, k + 1)[k as int] != wc@.subrange(0, k + 1)[k as int]);
                    }
                }
                k = k + 1;
            }
            proof {
                assert(ws.subrange(0, i + 1).drop_last() =~= ws.subrange(0, i as int));
                assert(ws.subrange(0, i + 1).last() == wc@);
                if pre {
                    assert(bc@.subrange(0, bc@.len() as int) =~= bc@);
                    assert(base@.is_prefix_of(wc@));
                } else {
                    if base@.is_prefix_of(wc@) {
                        assert(bc@.subrange(0, k as int) == wc@.subrange(0, k as int));
                    }
                }
            }
            if pre {
                count = count + 1;
            }
            i = i + 1;
        }
        assert(ws.subrange(0, i as int) =~= ws);
        let digits = to_decimal(count + 1);
        let mut v: Vec<char> = Vec::new();
        push_str(&mut v, base.as_str());
        v.push('-');
        let mut j: usize = 0;
        while j < digits.len()
            invariant
                j <= digits@.len(),
                v@ == base@ + seq!['-'] + digits@.subrange(0, j as int),
            decreases digits@.len() - j,
        {
            v.push(digits[j]);
            j = j + 1;
        }
        assert(digits@.subrange(0, j as int) =~= digits@);
        string_of(v.as_slice())
    }
}

} // verus!

//! Shell commands and tmux: preparing a command for environment substitution, reading back
//! its result, tmux window layouts and the output of `tmux list-windows`.
use vstd::prelude::*;
use vstd::utf8::{valid_utf8, decode_utf8};
use crate::text::{chars_of, string_of, push_str, split_lines, spec_lines, str_from_utf8};
use crate::template::{word_end, word_end_exec, lemma_word_end};

verus! {

/// A command to be run by the shell.
#[derive(Debug)]
pub struct ShellCommand<T> {
    command: T,
}

impl<T> ShellCommand<T> {
    /// The command itself.
    pub closed spec fn command_view(&self) -> T {
        self.command
    }

    /// A shell command running `command`.
    pub fn new(command: T) -> (r: Self)
        ensures
            r.command_view() == command,
    {
        ShellCommand { command }
    }

    /// The command.
    pub fn value(&self) -> (r: &T)
        ensures
            *r == self.command_view(),
    {
        &self.command
    }
}

/// Where the `${name}` that starts at `i` ends (one past its `}`), or -1 when none starts
/// there; a name is a non-empty run of letters, digits and `_`.
pub open spec fn braced_var_end(s: Seq<char>, i: int) -> int {
    if 0 <= i && i + 1 < s.len() && s[i] == '$' && s[i + 1] == '{' {
        let j = word_end(s, i + 2, false);
        if j > i + 2 && j < s.len() && s[j] == '}' {
            j + 1
        } else {
            -1
        }
    } else {
        -1
    }
}

/// `s` from `i` on, with every `${name}` written `$name`.
pub open spec fn unbrace_from(s: Seq<char>, i: int) -> Seq<char>
    decreases s.len() - i,
{
    if i < 0 || i >= s.len() {
        Seq::empty()
    } else if braced_var_end(s, i) > i {
        seq!['$'] + s.subrange(i + 2, braced_var_end(s, i) - 1) + unbrace_from(s, braced_var_end(s, i))
    } else {
        seq![s[i]] + unbrace_from(s, i + 1)
    }
}

/// `s` with every `${name}` written `$name`.
pub open spec fn spec_unbrace(s: Seq<char>) -> Seq<char> {
    unbrace_from(s, 0)
}

/// A character the shell reads as itself, unquoted: letters, digits, `_ - . , : / @` and the
/// newline (which is quoted apart).
pub open spec fn shell_safe(c: char) -> bool {
    ('a' <= c && c <= 'z') || ('A' <= c && c <= 'Z') || ('0' <= c && c <= '9') || c == '_' || c == '-'
        || c == '.' || c == ',' || c == ':' || c == '/' || c == '@' || c == '\n'
}

/// One character escaped for the shell: a newline quoted as `'\n'`, a safe character as is,
/// any other behind a backslash.
pub open spec fn escape_char(c: char) -> Seq<char> {
    if c == '\n' {
        seq!['\'', '\n', '\'']
    } else if shell_safe(c) {
        seq![c]
    } else {
        seq!['\\', c]
    }
}

/// Every character of `s` escaped for the shell.
pub open spec fn escape_chars(s: Seq<char>) -> Seq<char>
    decreases s.len(),
{
    if s.len() == 0 {
        Seq::empty()
    } else {
        escape_chars(s.drop_last()) + escape_char(s.last())
    }
}

/// `s` escaped so that the shell reads it as one word: `''` when it is empty.
pub open spec fn spec_escape(s: Seq<char>) -> Seq<char> {
    if s.len() == 0 {
        seq!['\'', '\'']
    } else {
        escape_chars(s)
    }
}

/// shellwords' `escape`: its source quotes an empty input as `''`, puts a backslash before
/// every character outside `A-Za-z0-9_-.,:/@` and the newline, then writes each newline as
/// `'\n'`.
#[verifier::external_body]
fn shell_escape(input: &str) -> (r: String)
    ensures
        r@ == spec_escape(input@),
{
    shellwords::escape(input)
}

/// The command that prints `cmd` with its environment variables substituted:
/// `echo "<escaped cmd>"|envsubst`, braces of `${name}` dropped first.
pub open spec fn spec_envsubst_command(cmd: Seq<char>) -> Seq<char> {
    seq!['e', 'c', 'h', 'o', ' ', '"'] + spec_escape(spec_unbrace(cmd)) + seq![
        '"',
        '|',
        'e',
        'n',
        'v',
        's',
        'u',
        'b',
        's',
        't',
    ]
}

/// What envsubst printed, without its newlines and backslashes.
pub open spec fn spec_clean_output(out: Seq<char>) -> Seq<char> {
    out.filter(|c: char| c != '\n' && c != '\\')
}

/// `s` with every `${name}` written `$name`.
pub fn unbrace(s: &str) -> (r: String)
    ensures
        r@ == spec_unbrace(s@),
{
    let cs = chars_of(s);
    let n = cs.len();
    let mut out: Vec<char> = Vec::new();
    let mut i: usize = 0;
    while i < n
        invariant
            i <= n,
            n == cs@.len(),
            cs@ == s@,
            out@ + unbrace_from(s@, i as int) == spec_unbrace(s@),
        decreases n - i,
    {
        let mut handled = false;
        if i + 1 < n && cs[i] == '$' && cs[i + 1] == '{' {
            let j = word_end_exec(cs.as_slice(), i + 2, false);
            proof {
                lemma_word_end(s@, i + 2, false);
            }
            if j > i + 2 && j < n && cs[j] == '}' {
                let ghost before = out@;
                out.push('$');
                let mut k = i + 2;
                while k < j
                    invariant
                        i + 2 <= k <= j,
                        j < n,
                        n == cs@.len(),
                        out@ == before.push('$') + cs@.subrange(i + 2, k as int),
                    decreases j - k,
                {
                    out.push(cs[k]);
                    k = k + 1;
                }
                proof {
                    assert(braced_var_end(s@, i as int) == j + 1);
                    assert(out@ =~= before + (seq!['$'] + s@.subrange(i + 2, j as int)));
                }
                i = j + 1;
                handled = true;
            }
        }
        if !handled {
            proof {
                assert(braced_var_end(s@, i as int) == -1 || braced_var_end(s@, i as int) <= i as int);
            }
            let ghost before = out@;
            out.push(cs[i]);
            assert(out@ =~= before + seq![s@[i as int]]);
            i = i + 1;
        }
    }
    assert(unbrace_from(s@, i as int) =~= Seq::<char>::empty());
    assert(out@ + Seq::<char>::empty() =~= out@);
    string_of(out.as_slice())
}

impl ShellCommand<String> {
    /// The command that substitutes the environment variables in this command (see
    /// `spec_envsubst_command`).
    pub fn envsubst_command(&self) -> (r: String)
        ensures
            r@ == spec_envsubst_command(self.command_view()@),
    {
        let sanitized = unbrace(self.command.as_str());
        let escaped = shell_escape(sanitized.as_str());
        let head = "echo \"";
        let tail = "\"|envsubst";
        proof {
            reveal_strlit("echo \"");
            reveal_strlit("\"|envsubst");
        }
        let mut v: Vec<char> = Vec::new();
        push_str(&mut v, head);
        push_str(&mut v, escaped.as_str());
        push_str(&mut v, tail);
        assert(v@ =~= spec_envsubst_command(self.command@));
        string_of(v.as_slice())
    }

    /// The command read back from what envsubst printed: its newlines and backslashes dropped.
    pub fn from_envsubst_output(out: &str) -> (r: ShellCommand<String>)
        ensures
            r.command_view()@ == spec_clean_output(out@),
    {
        let cs = chars_of(out);
        let mut v: Vec<char> = Vec::new();
        let mut i: usize = 0;
        while i < cs.len()
            invariant
                i <= cs@.len(),
                cs@ == out@,
                v@ == spec_clean_output(out@.subrange(0, i as int)),
            decreases cs@.len() - i,
        {
            proof {
                reveal(Seq::filter);
                assert(out@.subrange(0, i + 1).drop_last() =~= out@.subrange(0, i as int));
            }
            let c = cs[i];
            if c != '\n' && c != '\\' {
                v.push(c);
            }
            i = i + 1;
        }
        assert(out@.subrange(0, i as int) =~= out@);
        ShellCommand { command: string_of(v.as_slice()) }
    }
}

/// The layout of a tmux window.
#[derive(Debug, PartialEq, Eq, Structural, Clone, Copy)]
pub enum WindowLayout {
    Tiled,
    MainVertical,
    MainHorizontal,
    EvenVertical,
    EvenHorizontal,
}

/// The name tmux knows a layout by.
pub open spec fn spec_layout_name(l: WindowLayout) -> Seq<char> {
    match l {
        WindowLayout::Tiled => seq!['t', 'i', 'l', 'e', 'd'],
        WindowLayout::MainVertical => seq!['m', 'a', 'i', 'n', '-', 'v', 'e', 'r', 't', 'i', 'c', 'a', 'l'],
        WindowLayout::MainHorizontal => seq![
            'm',
            'a',
            'i',
            'n',
            '-',
            'h',
            'o',
            'r',
            'i',
            'z',
            'o',
            'n',
            't',
            'a',
            'l',
        ],
        WindowLayout::EvenVertical => seq!['e', 'v', 'e', 'n', '-', 'v', 'e', 'r', 't', 'i', 'c', 'a', 'l'],
        WindowLayout::EvenHorizontal => seq![
            'e',
            'v',
            'e',
            'n',
            '-',
            'h',
            'o',
            'r',
            'i',
            'z',
            'o',
            'n',
            't',
            'a',
            'l',
        ],
    }
}

impl WindowLayout {
    /// The name tmux knows the layout by.
    pub fn name(&self) -> (r: &'static str)
        ensures
            r@ == spec_layout_name(*self),
    {
        match self {
            WindowLayout::Tiled => {
                proof {
                    reveal_strlit("tiled");
                }
                "tiled"
            },
            WindowLayout::MainVertical => {
                proof {
                    reveal_strlit("main-vertical");
                }
                "main-vertical"
            },
            WindowLayout::MainHorizontal => {
                proof {
                    reveal_strlit("main-horizontal");
                }
                "main-horizontal"
            },
            WindowLayout::EvenVertical => {
                proof {
                    reveal_strlit("even-vertical");
                }
                "even-vertical"
            },
            WindowLayout::EvenHorizontal => {
                proof {
                    reveal_strlit("even-horizontal");
                }
                "even-horizontal"
            },
        }
    }
}

/// The window names in what `tmux list-windows` printed: one per line; `None` when the output
/// is not valid UTF-8.
pub fn parse_list_windows_output(stdout: Vec<u8>) -> (r: Option<Vec<String>>)
    ensures
        r is None <==> !valid_utf8(stdout@),
        r matches Some(ws) ==> ws@.map_values(|w: String| w@) == spec_lines(decode_utf8(stdout@)),
{
    match str_from_utf8(stdout.as_slice()) {
        Some(text) => Some(split_lines(text)),
        None => None,
    }
}

/// A tmux session to drive.
#[derive(Debug)]
pub struct Tmux {
    target_session: String,
}

impl Tmux {
    /// The session driven.
    pub closed spec fn session_view(&self) -> Seq<char> {
        self.target_session@
    }

    /// Drives the session `target_session`.
    pub fn with_session(target_session: String) -> (r: Tmux)
        ensures
            r.session_view() == target_session@,
    {
        Tmux { target_session }
    }

    /// The session driven.
    pub fn target_session(&self) -> (r: &str)
        ensures
            r@ == self.session_view(),
    {
        self.target_session.as_str()
    }
}

} // verus!

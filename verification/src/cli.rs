//! The command line's meaning: which command a subcommand names, and the default choices
//! given as `-c namespace::var=value`.
use vstd::prelude::*;
use crate::text::{chars_of, string_of, split_once, spec_before, spec_after, spec_find};
use crate::identifiers::{Identifier, IdView, spec_from_str};
use crate::choices::{Choice, ChoiceView, choices_view};
use crate::dependencies::choice_map_view;
use crate::resolution::{map_set, set_choices};
use crate::engine::SamCommand;

verus! {

/// What to do with the history.
#[derive(Debug, PartialEq, Eq, Structural, Clone, Copy)]
pub enum HistoryCommand {
    InterractWithHistory,
    DisplayLastExecutedAlias,
    ExecuteLastExecutedAlias,
}

/// What to do with the cache of command outputs.
#[derive(Debug, PartialEq, Eq, Structural, Clone, Copy)]
pub enum CacheCommand {
    Clear,
    PrintKeys,
    DeleteEntries,
}

/// Which part of the configuration to check.
#[derive(Debug, PartialEq, Eq, Structural, Clone, Copy)]
pub enum ConfigCommand {
    CheckUnsetEnvVars,
    CheckUnavailablePrograms,
    All,
}

/// The command the command line asks for.
#[derive(Debug)]
pub enum SubCommand {
    SamCommand(SamCommand),
    HistoryCommand(HistoryCommand),
    CacheCommand(CacheCommand),
    ConfigCheck(ConfigCommand),
}

/// Default choices given on the command line, by var.
#[derive(Debug)]
pub struct DefaultChoices(pub Vec<(Identifier, Vec<Choice>)>);

/// The settings given on the command line.
#[derive(Debug)]
pub struct CLISettings {
    pub dry: bool,
    pub silent: bool,
    pub no_cache: bool,
    pub default_choices: DefaultChoices,
}

/// A command line, understood.
#[derive(Debug)]
pub struct CLIRequest {
    pub command: SubCommand,
    pub settings: CLISettings,
}

/// Why the command line is invalid.
#[derive(Debug)]
pub enum CLIError {
    /// The alias subcommand was given no alias.
    MissingAliasIdentifier,
    /// A choice names a var without its namespace (the var, the choice as written).
    MissingNamespaceForChoice(Identifier, String),
    /// A choice is not of the form `var=value`.
    MalformedChoice(String),
}

/// How many times `c` occurs in `s`.
pub open spec fn count_char(s: Seq<char>, c: char) -> nat
    decreases s.len(),
{
    if s.len() == 0 {
        0
    } else {
        count_char(s.drop_last(), c) + if s.last() == c { 1nat } else { 0nat }
    }
}

/// What a choice written `var=value` means: an error unless there is exactly one `=` and the
/// var has a namespace; else the var and the value (without description).
pub open spec fn spec_parse_choice(s: Seq<char>) -> Result<(IdView, ChoiceView), ()> {
    let eq = seq!['='];
    if count_char(s, '=') != 1 {
        Err(())
    } else {
        let id = spec_from_str(spec_before(s, eq));
        if id.namespace is None {
            Err(())
        } else {
            Ok((id, ChoiceView { value: spec_after(s, eq), desc: None }))
        }
    }
}

/// Whether `c` occurs in `s`, counting.
proof fn lemma_count_zero_no_find(s: Seq<char>, c: char)
    ensures
        (count_char(s, c) == 0) <==> (forall|i: int| 0 <= i < s.len() ==> s[i] != c),
    decreases s.len(),
{
    if s.len() > 0 {
        lemma_count_zero_no_find(s.drop_last(), c);
        if count_char(s, c) == 0 {
            assert forall|i: int| 0 <= i < s.len() implies s[i] != c by {
                if i < s.len() - 1 {
                    assert(s.drop_last()[i] == s[i]);
                }
            }
        } else {
            if s.last() != c {
                let d = s.drop_last();
                let i = choose|i: int| 0 <= i < d.len() && !(d[i] != c);
                assert(s[i] == d[i]);
            }
        }
    }
}

/// Counting the occurrences of `c` in a concatenation.
proof fn lemma_count_concat(a: Seq<char>, b: Seq<char>, c: char)
    ensures
        count_char(a + b, c) == count_char(a, c) + count_char(b, c),
    decreases b.len(),
{
    if b.len() > 0 {
        lemma_count_concat(a, b.drop_last(), c);
        assert((a + b).drop_last() =~= a + b.drop_last());
    } else {
        assert(a + b =~= a);
    }
}

/// How many `c` a text holds.
fn count_of(s: &[char], c: char) -> (r: usize)
    ensures
        r == count_char(s@, c),
{
    let mut n: usize = 0;
    let mut i: usize = 0;
    while i < s.len()
        invariant
            i <= s@.len(),
            n == count_char(s@.subrange(0, i as int), c),
            n <= i,
        decreases s@.len() - i,
    {
        assert(s@.subrange(0, i + 1).drop_last() =~= s@.subrange(0, i as int));
        if s[i] == c {
            n = n + 1;
        }
        i = i + 1;
    }
    assert(s@.subrange(0, i as int) =~= s@);
    n
}

/// The var and choice of a choice written `namespace::var=value` (see `spec_parse_choice`).
pub fn parse_choice(default: &str) -> (r: Result<(Identifier, Choice), CLIError>)
    ensures
        match spec_parse_choice(default@) {
            Ok((id, c)) => r matches Ok((i, ch)) && i@ == id && ch@ == c,
            Err(_) => r is Err,
        },
        r matches Err(CLIError::MalformedChoice(s)) ==> s@ == default@ && count_char(default@, '=') != 1,
        r matches Err(CLIError::MissingNamespaceForChoice(id, s)) ==> s@ == default@ && id@ == spec_from_str(
            spec_before(default@, seq!['=']),
        ) && id@.namespace is None,
        !(r matches Err(CLIError::MissingAliasIdentifier)),
{
    let cs = chars_of(default);
    let eq = ['='];
    assert(eq@ =~= seq!['=']);
    if count_of(cs.as_slice(), '=') != 1 {
        return Err(CLIError::MalformedChoice(default.to_owned()));
    }
    let (before, after) = split_once(cs.as_slice(), &eq);
    let name = string_of(before.as_slice());
    let id = Identifier::from_str(name.as_str());
    if id.namespace().is_none() {
        Err(CLIError::MissingNamespaceForChoice(id, default.to_owned()))
    } else {
        match after {
            Some(a) => {
                let value = string_of(a.as_slice());
                Ok((id, Choice::new(value.as_str(), None)))
            },
            None => {
                proof {
                    crate::text::lemma_find_from_bounds(default@, seq!['='], 0);
                    lemma_count_zero_no_find(default@, '=');
                    assert forall|i: int| 0 <= i < default@.len() implies default@[i] != '=' by {
                        assert(!crate::text::occurs_at(default@, seq!['='], i));
                        if default@[i] == '=' {
                            assert(default@.subrange(i, i + 1) =~= seq!['=']);
                        }
                    }
                }
                Err(CLIError::MalformedChoice(default.to_owned()))
            },
        }
    }
}

/// The alias of the `alias` subcommand.
pub fn parse_alias(alias: Option<&str>) -> (r: Result<Identifier, CLIError>)
    ensures
        match alias {
            Some(a) => r matches Ok(id) && id@ == spec_from_str(a@),
            None => r matches Err(CLIError::MissingAliasIdentifier),
        },
{
    match alias {
        Some(a) => Ok(Identifier::from_str(a)),
        None => Err(CLIError::MissingAliasIdentifier),
    }
}

/// The default choices of `values`, each value parsed, in order (a later value for the same
/// var replaces an earlier one).
pub open spec fn spec_defaults(values: Seq<Seq<char>>) -> Result<Seq<(IdView, Seq<ChoiceView>)>, ()>
    decreases values.len(),
{
    if values.len() == 0 {
        Ok(Seq::empty())
    } else {
        match spec_defaults(values.drop_last()) {
            Err(e) => Err(e),
            Ok(m) => match spec_parse_choice(values.last()) {
                Err(e) => Err(e),
                Ok((id, c)) => Ok(map_set(m, id, seq![c])),
            },
        }
    }
}

/// The first of `values` that is not a valid choice, if any.
pub open spec fn first_invalid(values: Seq<Seq<char>>) -> int
    decreases values.len(),
{
    if values.len() == 0 {
        -1
    } else if first_invalid(values.drop_last()) >= 0 {
        first_invalid(values.drop_last())
    } else if spec_parse_choice(values.last()) is Err {
        values.len() - 1
    } else {
        -1
    }
}

impl DefaultChoices {
    /// The default choices written as `values` (see `spec_defaults`); the first invalid value
    /// fails.
    pub fn try_from_values(values: Option<&[String]>) -> (r: Result<DefaultChoices, CLIError>)
        ensures
            match values {
                None => r matches Ok(d) && d.0@.len() == 0,
                Some(vs) => match spec_defaults(vs@.map_values(|s: String| s@)) {
                    Ok(m) => r matches Ok(d) && choice_map_view(d.0@) == m,
                    Err(_) => r is Err,
                },
            },
    {
        let mut out: Vec<(Identifier, Vec<Choice>)> = Vec::new();
        match values {
            None => Ok(DefaultChoices(out)),
            Some(vs) => {
                let ghost sv = vs@.map_values(|s: String| s@);
                let mut i: usize = 0;
                assert(sv.subrange(0, 0) =~= Seq::<Seq<char>>::empty());
                assert(choice_map_view(out@) =~= Seq::<(IdView, Seq<ChoiceView>)>::empty());
                while i < vs.len()
                    invariant
                        values == Some(vs),
                        i <= vs@.len(),
                        sv == vs@.map_values(|s: String| s@),
                        spec_defaults(sv.subrange(0, i as int)) == Ok::<Seq<(IdView, Seq<ChoiceView>)>, ()>(
                            choice_map_view(out@),
                        ),
                    decreases vs@.len() - i,
                {
                    assert(sv.subrange(0, i + 1).drop_last() =~= sv.subrange(0, i as int));
                    assert(sv.subrange(0, i + 1).last() == vs@[i as int]@);
                    match parse_choice(vs[i].as_str()) {
                        Ok((id, c)) => {
                            let mut cs: Vec<Choice> = Vec::new();
                            cs.push(c);
                            assert(choices_view(cs@) =~= seq![c@]);
                            set_choices(&mut out, id, cs);
                        },
                        Err(e) => {
                            proof {
                                lemma_defaults_err(sv, i as int);
                            }
                            return Err(e);
                        },
                    }
                    i = i + 1;
                }
                assert(sv.subrange(0, i as int) =~= sv);
                Ok(DefaultChoices(out))
            },
        }
    }
}

/// Once a value is invalid, the defaults of every longer list fail too.
proof fn lemma_defaults_err(vs: Seq<Seq<char>>, i: int)
    requires
        0 <= i < vs.len(),
        spec_parse_choice(vs[i]) is Err,
    ensures
        spec_defaults(vs) is Err,
    decreases vs.len(),
{
    if i < vs.len() - 1 {
        lemma_defaults_err(vs.drop_last(), i);
    }
}

impl CLISettings {
    /// The settings of the flags `dry`, `silent`, `no_cache` and the default choices
    /// `choices`.
    pub fn from_flags(dry: bool, silent: bool, no_cache: bool, choices: Option<&[String]>) -> (r: Result<
        CLISettings,
        CLIError,
    >)
        ensures
            match r {
                Ok(s) => s.dry == dry && s.silent == silent && s.no_cache == no_cache && match choices {
                    None => s.default_choices.0@.len() == 0,
                    Some(vs) => spec_defaults(vs@.map_values(|s: String| s@)) == Ok::<
                        Seq<(IdView, Seq<ChoiceView>)>,
                        (),
                    >(choice_map_view(s.default_choices.0@)),
                },
                Err(_) => choices matches Some(vs) && spec_defaults(vs@.map_values(|s: String| s@)) is Err,
            },
    {
        let default_choices = DefaultChoices::try_from_values(choices)?;
        Ok(CLISettings { dry, silent, no_cache, default_choices })
    }
}

/// The command that `command_for` gives for a subcommand named `subcommand` and an alias
/// argument `alias`.
pub open spec fn command_spec(subcommand: Option<Seq<char>>, alias: Option<Seq<char>>, r: Result<SubCommand, CLIError>) -> bool {
    match subcommand {
        Some(s) => if s == seq!['a', 'l', 'i', 'a', 's'] {
            match alias {
                Some(a) => r matches Ok(SubCommand::SamCommand(SamCommand::ExecuteAlias { alias: id })) && id@
                    == spec_from_str(a),
                None => r matches Err(CLIError::MissingAliasIdentifier),
            }
        } else if s == seq!['r', 'u', 'n', '-', 'l', 'a', 's', 't'] {
            r matches Ok(SubCommand::HistoryCommand(HistoryCommand::ExecuteLastExecutedAlias))
        } else if s == seq!['s', 'h', 'o', 'w', '-', 'l', 'a', 's', 't'] {
            r matches Ok(SubCommand::HistoryCommand(HistoryCommand::DisplayLastExecutedAlias))
        } else if s == seq!['h', 'i', 's', 't', 'o', 'r', 'y'] {
            r matches Ok(SubCommand::HistoryCommand(HistoryCommand::InterractWithHistory))
        } else if s == seq!['c', 'h', 'e', 'c', 'k', '-', 'c', 'o', 'n', 'f', 'i', 'g'] {
            r matches Ok(SubCommand::ConfigCheck(ConfigCommand::All))
        } else if s == seq!['c', 'a', 'c', 'h', 'e', '-', 'c', 'l', 'e', 'a', 'r'] {
            r matches Ok(SubCommand::CacheCommand(CacheCommand::Clear))
        } else if s == seq!['c', 'a', 'c', 'h', 'e', '-', 'k', 'e', 'y', 's'] {
            r matches Ok(SubCommand::CacheCommand(CacheCommand::PrintKeys))
        } else if s == seq![
            'c',
            'a',
            'c',
            'h',
            'e',
            '-',
            'k',
            'e',
            'y',
            's',
            '-',
            'd',
            'e',
            'l',
            'e',
            't',
            'e',
        ] {
            r matches Ok(SubCommand::CacheCommand(CacheCommand::DeleteEntries))
        } else {
            r matches Ok(SubCommand::SamCommand(SamCommand::ChooseAndExecuteAlias))
        },
        None => r matches Ok(SubCommand::SamCommand(SamCommand::ChooseAndExecuteAlias)),
    }
}

/// The view of an optional text.
pub open spec fn opt_text(o: Option<&str>) -> Option<Seq<char>> {
    match o {
        Some(t) => Some(t@),
        None => None,
    }
}

/// The command named by `subcommand` (with its `alias` argument for the alias subcommand):
/// `alias` runs the given alias, `run-last` and `show-last` replay or show the last alias,
/// `history` browses the history, `check-config` checks the configuration, the `cache-`
/// subcommands act on the cache, and anything else chooses an alias and runs it.
pub fn command_for(subcommand: Option<&str>, alias: Option<&str>) -> (r: Result<SubCommand, CLIError>)
    ensures
        command_spec(opt_text(subcommand), opt_text(alias), r),
{
    match subcommand {
        Some(s) => {
            let n_alias = "alias";
            let n_run_last = "run-last";
            let n_show_last = "show-last";
            let n_history = "history";
            let n_check = "check-config";
            let n_clear = "cache-clear";
            let n_keys = "cache-keys";
            let n_delete = "cache-keys-delete";
            proof {
                reveal_strlit("alias");
                reveal_strlit("run-last");
                reveal_strlit("show-last");
                reveal_strlit("history");
                reveal_strlit("check-config");
                reveal_strlit("cache-clear");
                reveal_strlit("cache-keys");
                reveal_strlit("cache-keys-delete");
                assert(n_alias@ =~= seq!['a', 'l', 'i', 'a', 's']);
                assert(n_run_last@ =~= seq!['r', 'u', 'n', '-', 'l', 'a', 's', 't']);
                assert(n_show_last@ =~= seq!['s', 'h', 'o', 'w', '-', 'l', 'a', 's', 't']);
                assert(n_history@ =~= seq!['h', 'i', 's', 't', 'o', 'r', 'y']);
                assert(n_check@ =~= seq!['c', 'h', 'e', 'c', 'k', '-', 'c', 'o', 'n', 'f', 'i', 'g']);
                assert(n_clear@ =~= seq!['c', 'a', 'c', 'h', 'e', '-', 'c', 'l', 'e', 'a', 'r']);
                assert(n_keys@ =~= seq!['c', 'a', 'c', 'h', 'e', '-', 'k', 'e', 'y', 's']);
                assert(n_delete@ =~= seq![
                    'c',
                    'a',
                    'c',
                    'h',
                    'e',
                    '-',
                    'k',
                    'e',
                    'y',
                    's',
                    '-',
                    'd',
                    'e',
                    'l',
                    'e',
                    't',
                    'e',
                ]);
            }
            if crate::text::str_eq(s, n_alias) {
                let id = parse_alias(alias)?;
                Ok(SubCommand::SamCommand(SamCommand::ExecuteAlias { alias: id }))
            } else if crate::text::str_eq(s, n_run_last) {
                Ok(SubCommand::HistoryCommand(HistoryCommand::ExecuteLastExecutedAlias))
            } else if crate::text::str_eq(s, n_show_last) {
                Ok(SubCommand::HistoryCommand(HistoryCommand::DisplayLastExecutedAlias))
            } else if crate::text::str_eq(s, n_history) {
                Ok(SubCommand::HistoryCommand(HistoryCommand::InterractWithHistory))
            } else if crate::text::str_eq(s, n_check) {
                Ok(SubCommand::ConfigCheck(ConfigCommand::All))
            } else if crate::text::str_eq(s, n_clear) {
                Ok(SubCommand::CacheCommand(CacheCommand::Clear))
            } else if crate::text::str_eq(s, n_keys) {
                Ok(SubCommand::CacheCommand(CacheCommand::PrintKeys))
            } else if crate::text::str_eq(s, n_delete) {
                Ok(SubCommand::CacheCommand(CacheCommand::DeleteEntries))
            } else {
                Ok(SubCommand::SamCommand(SamCommand::ChooseAndExecuteAlias))
            }
        },
        None => Ok(SubCommand::SamCommand(SamCommand::ChooseAndExecuteAlias)),
    }
}

/// The request made of the subcommand (and its alias argument) and the settings.
pub fn make_cli_request(
    subcommand: Option<&str>,
    alias: Option<&str>,
    dry: bool,
    silent: bool,
    no_cache: bool,
    choices: Option<&[String]>,
) -> (r: Result<CLIRequest, CLIError>)
    ensures
        r is Ok <==> (match choices {
            Some(vs) => spec_defaults(vs@.map_values(|s: String| s@)) is Ok,
            None => true,
        } && !(subcommand matches Some(s) && s@ == seq!['a', 'l', 'i', 'a', 's'] && alias is None)),
        r matches Ok(req) ==> req.settings.dry == dry && req.settings.silent == silent
            && req.settings.no_cache == no_cache,
        r matches Ok(req) ==> command_spec(opt_text(subcommand), opt_text(alias), Ok(req.command)),
        r matches Ok(req) ==> match choices {
            None => req.settings.default_choices.0@.len() == 0,
            Some(vs) => spec_defaults(vs@.map_values(|s: String| s@)) == Ok::<Seq<(IdView, Seq<ChoiceView>)>, ()>(
                choice_map_view(req.settings.default_choices.0@),
            ),
        },
        (r is Err && match choices {
            Some(vs) => spec_defaults(vs@.map_values(|s: String| s@)) is Ok,
            None => true,
        }) ==> r matches Err(CLIError::MissingAliasIdentifier),
{
    let settings = CLISettings::from_flags(dry, silent, no_cache, choices)?;
    let command = command_for(subcommand, alias)?;
    Ok(CLIRequest { command, settings })
}

} // verus!

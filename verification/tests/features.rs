use sam::aliases::{Alias, AliasAndDependencies, ResolvedAlias};
use sam::aliases_repository::{AliasCollection, AliasesRepository};
use sam::choices::Choice;
use sam::cli::{command_for, parse_alias, parse_choice, CLIError, CLISettings, CacheCommand, HistoryCommand, SubCommand};
use sam::engine::{history_entry, report, SamCommand, SamEngine};
use sam::executors::{to_decimal, TmuxExecutor};
use sam::fsutils::replace_home_variable;
use sam::identifiers::Identifier;
use sam::mcp::{list_aliases, resolve_alias, McpError, ResolveAliasResponse, VarKind};
use sam::mocks::{InMemoryHistory, LogExecutor};
use sam::preview_engine::{PreviewCommand, PreviewEngine};
use sam::previews::{alias_preview, choice_text, PreviewSkim};
use sam::readers::read_choices;
use sam::resolver::{ErrorsResolver, Resolver, ResolverContext};
use sam::session_engine::{SessionCommand, SessionEngine};
use sam::session_storage::SessionStorage;
use sam::terminals::{parse_list_windows_output, unbrace, ShellCommand, Tmux, WindowLayout};
use sam::text::split_lines;
use sam::vars::Var;
use sam::vars_repository::{VarsCollectionMock, VarsDefaultValuesMock, VarsRepository};

struct ChoicesResolver;

impl Resolver for ChoicesResolver {
    fn resolve_input(&self, var: &Var, prompt: &str, _ctx: &ResolverContext) -> Result<Choice, ErrorsResolver> {
        Err(ErrorsResolver::NoInputWasProvided(var.name(), prompt.to_string()))
    }
    fn resolve_dynamic(&self, var: &Var, _cmd: String, _ctx: &ResolverContext) -> Result<Vec<Choice>, ErrorsResolver> {
        Err(ErrorsResolver::NoChoiceWasAvailable(var.name()))
    }
    fn resolve_static(&self, var: &Var, choices: Vec<Choice>, _ctx: &ResolverContext) -> Result<Vec<Choice>, ErrorsResolver> {
        if choices.is_empty() {
            return Err(ErrorsResolver::NoChoiceWasAvailable(var.name()));
        }
        Ok(choices)
    }
    fn select_identifier(&self, _ids: &[AliasAndDependencies], _prompt: &str) -> Result<AliasAndDependencies, ErrorsResolver> {
        Err(ErrorsResolver::IdentifierSelectionEmpty)
    }
}

fn mcp_context() -> (AliasesRepository, VarsRepository) {
    let mut alias_run = Alias::new("run", "Run a container", "docker run {{ docker::image }}");
    alias_run.update_namespace("docker");
    let mut alias_push = Alias::new("push", "Push to remote", "git push");
    alias_push.update_namespace("git");
    let aliases = AliasesRepository::new(vec![alias_run, alias_push]);
    let mut var_image = Var::new("image", "Docker image", vec![Choice::new("nginx", None), Choice::new("redis", None)]);
    var_image.update("docker");
    let mut var_name = Var::from_input("name", "Container name", "name please");
    var_name.update("docker");
    (aliases, VarsRepository::new(vec![var_image, var_name]))
}

#[test]
fn list_aliases_no_filter_returns_all() {
    let (aliases, _vars) = mcp_context();
    let all = aliases.aliases();
    assert_eq!(list_aliases(&all, None, None).len(), 2);
}

#[test]
fn list_aliases_filtering() {
    let (aliases, _vars) = mcp_context();
    let all = aliases.aliases();
    let docker = list_aliases(&all, Some("docker"), None);
    assert_eq!(docker.len(), 1);
    assert_eq!(docker[0].name, "run");
    assert_eq!(list_aliases(&all, None, Some("zzznomatch")).len(), 0);
    let push = list_aliases(&all, None, Some("push"));
    assert_eq!(push.len(), 1);
    assert_eq!(push[0].namespace.as_deref(), Some("git"));
}

#[test]
fn resolve_alias_needs_var() {
    let (aliases, vars) = mcp_context();
    let r = resolve_alias(&aliases, &vars, &ChoicesResolver, "docker::run", &[]).unwrap();
    match r {
        ResolveAliasResponse::NeedsVar { var } => {
            assert_eq!(var.name, "image");
            assert_eq!(var.kind, VarKind::Choices);
            assert!(!var.choices.unwrap().is_empty());
        }
        _ => panic!("expected a var to be needed"),
    }
}

#[test]
fn resolve_alias_resolved() {
    let (aliases, vars) = mcp_context();
    let given = vec![(String::from("docker::image"), String::from("nginx"))];
    let r = resolve_alias(&aliases, &vars, &ChoicesResolver, "docker::run", &given).unwrap();
    match r {
        ResolveAliasResponse::Resolved { commands } => assert_eq!(commands, vec![String::from("docker run nginx")]),
        _ => panic!("expected the alias to be resolved"),
    }
}

#[test]
fn resolve_alias_unknown_alias_fails() {
    let (aliases, vars) = mcp_context();
    match resolve_alias(&aliases, &vars, &ChoicesResolver, "docker::rn", &[]) {
        Err(McpError::AliasNotFound { alias, suggestions }) => {
            assert_eq!(alias, "docker::rn");
            assert!(suggestions.len() <= 5);
        }
        _ => panic!("expected the alias to be unknown"),
    }
}

#[test]
fn resolve_alias_input_var_asks_for_a_value() {
    let mut alias = Alias::new("named", "Run a named container", "docker run --name {{ docker::name }}");
    alias.update_namespace("docker");
    let aliases = AliasesRepository::new(vec![alias]);
    let (_a, vars) = mcp_context();
    match resolve_alias(&aliases, &vars, &ChoicesResolver, "docker::named", &[]).unwrap() {
        ResolveAliasResponse::NeedsVar { var } => {
            assert_eq!(var.kind, VarKind::Input);
            assert_eq!(var.prompt.as_deref(), Some("name please"));
        }
        _ => panic!("expected an input to be needed"),
    }
}

#[test]
fn parse_choice_cases() {
    let (id, c) = parse_choice("some_ns::some_choice=value").unwrap();
    assert_eq!(id, Identifier::with_namespace("some_choice", Some("some_ns")));
    assert_eq!(c, Choice::from_value("value"));
    assert!(matches!(parse_choice("some_choice=value"), Err(CLIError::MissingNamespaceForChoice(_, _))));
    assert!(matches!(parse_choice("ns::a=b=c"), Err(CLIError::MalformedChoice(_))));
    assert!(matches!(parse_choice("ns::a"), Err(CLIError::MalformedChoice(_))));
    assert!(matches!(parse_alias(None), Err(CLIError::MissingAliasIdentifier)));
}

#[test]
fn cli_settings_and_subcommands() {
    let choices = vec![
        String::from("-csome_ns::some_choice=value").split_off(2),
        String::from("some_ns::some_other_choice=value2"),
    ];
    let settings = CLISettings::from_flags(false, false, false, Some(choices.as_slice())).unwrap();
    assert_eq!(settings.default_choices.0.len(), 2);
    assert_eq!(settings.default_choices.0[1].0, Identifier::with_namespace("some_other_choice", Some("some_ns")));
    assert_eq!(settings.default_choices.0[1].1, vec![Choice::from_value("value2")]);
    match command_for(Some("alias"), Some("some_namespace::some_alias")).unwrap() {
        SubCommand::SamCommand(SamCommand::ExecuteAlias { alias }) => {
            assert_eq!(alias, Identifier::with_namespace("some_alias", Some("some_namespace")))
        }
        _ => panic!("expected the alias subcommand"),
    }
    assert!(matches!(command_for(Some("run"), None), Ok(SubCommand::SamCommand(SamCommand::ChooseAndExecuteAlias))));
    assert!(matches!(command_for(None, None), Ok(SubCommand::SamCommand(SamCommand::ChooseAndExecuteAlias))));
    assert!(matches!(command_for(Some("run-last"), None), Ok(SubCommand::HistoryCommand(HistoryCommand::ExecuteLastExecutedAlias))));
    assert!(matches!(command_for(Some("cache-keys"), None), Ok(SubCommand::CacheCommand(CacheCommand::PrintKeys))));
    assert!(matches!(command_for(Some("alias"), None), Err(CLIError::MissingAliasIdentifier)));
}

#[test]
fn envsubst_command_and_output() {
    let cmd = ShellCommand::new(String::from("echo ${SOME_VAR} it's"));
    assert_eq!(cmd.envsubst_command(), "echo \"echo\\ \\$SOME_VAR\\ it\\'s\"|envsubst");
    assert_eq!(unbrace("a ${X} ${} ${y z}"), "a $X ${} ${y z}");
    let out = ShellCommand::<String>::from_envsubst_output("echo toto\\\n");
    assert_eq!(out.value(), "echo toto");
}

#[test]
fn tmux_parsing_and_names() {
    let out = parse_list_windows_output(b"one\ntwo\r\nthree".to_vec()).unwrap();
    assert_eq!(out, vec!["one", "two", "three"]);
    assert!(parse_list_windows_output(vec![0xff, 0xfe]).is_none());
    assert_eq!(WindowLayout::MainVertical.name(), "main-vertical");
    assert_eq!(Tmux::with_session(String::from("s")).target_session(), "s");
    let exec = TmuxExecutor::new(String::from("s"), vec![String::from("ns__run-1"), String::from("other")]);
    let ra = ResolvedAlias::new(Identifier::with_namespace("run", Some("ns")), String::new(), String::new(), vec![], vec![]);
    assert_eq!(exec.window_name_for_alias(&ra), "ns__run-2");
    assert_eq!(to_decimal(1203).iter().collect::<String>(), "1203");
}

#[test]
fn read_choices_lines() {
    let cs = read_choices(b"a\tfirst\n\nb\nc\td\te\n").unwrap();
    assert_eq!(cs, vec![Choice::new("a", Some("first")), Choice::from_value("b"), Choice::new("c", Some("d"))]);
    assert!(read_choices(&[0xff]).is_err());
    assert_eq!(split_lines("x\n\ny"), vec!["x", "", "y"]);
}

#[test]
fn previews_and_texts() {
    let skim = PreviewSkim::new(
        vec![(Identifier::with_namespace("v", Some("ns")), Choice::from_value("1"))],
        String::from("/bin/sam"),
        String::from("/home"),
    );
    assert_eq!(
        skim.preview_for_identifier(&Identifier::with_namespace("a", Some("ns"))),
        "cd /home && /bin/sam preview 'ns::a'  -c 'ns::v=1' "
    );
    assert_eq!(skim.preview(), "cd /home && /bin/sam preview '{}' ");
    assert_eq!(choice_text(&Choice::new("v", Some("d"))), "v    d");
    let ad = AliasAndDependencies {
        alias: Alias::new("a", "desc", "echo {{x}}"),
        full_name: String::from("a"),
        dependencies: vec![Identifier::new("x")],
    };
    assert_eq!(alias_preview(&ad), "Name: a\n\nDescription:\ndesc\n\nAlias:\n\necho {{x}}\n\nDependencies:\n- x\n");
    assert_eq!(replace_home_variable(String::from("$HOME/x"), Some("/home/u")), "/home/u/x");
    assert_eq!(replace_home_variable(String::from("$HOME/x"), None), "$HOME/x");
}

#[test]
fn preview_engine_writes_the_preview() {
    let alias = Alias::new("ls", "list", "ls {{dir}}");
    let mut engine = PreviewEngine {
        aliases: AliasesRepository::new(vec![alias]),
        vars: VarsRepository::new(vec![Var::new("dir", "d", vec![Choice::from_value("/")])]),
        defaults: vec![],
        output: String::new(),
    };
    assert_eq!(engine.run(PreviewCommand::PreviewAlias { alias_id: Identifier::new("ls") }).unwrap(), 0);
    assert_eq!(
        engine.output,
        "\u{1b}[1mName:\u{1b}[m\tls\n\n\u{1b}[1mDescription:\u{1b}[m\nlist\n\n\u{1b}[1mAlias:\u{1b}[m\n\nls {{dir}}\n\n\u{1b}[1mDependencies:\u{1b}[m\n- dir\n"
    );
    assert!(engine.run(PreviewCommand::PreviewAlias { alias_id: Identifier::new("nope") }).is_err());
}

#[test]
fn session_engine_commands() {
    let storage = SessionStorage::with_ttl(3600, String::from("sid"));
    let vars = VarsRepository::new(vec![Var::new("dir", "d", vec![])]);
    let mut engine = SessionEngine::new(storage, vars);
    assert!(engine.run(SessionCommand::SetChoice { var_name: String::from("nope"), choice_value: String::from("x") }, 1).is_err());
    assert_eq!(engine.run(SessionCommand::SetChoice { var_name: String::from("dir"), choice_value: String::from("/tmp") }, 1).unwrap(), 0);
    assert_eq!(engine.output.last().unwrap(), "Session default set: dir = /tmp");
    engine.run(SessionCommand::List, 1).unwrap();
    assert_eq!(engine.output[engine.output.len() - 2], "Session defaults for session: sid");
    assert_eq!(engine.output[engine.output.len() - 1], "  dir = /tmp");
    let defaults = engine.get_session_defaults();
    assert_eq!(defaults, vec![(Identifier::new("dir"), vec![Choice::from_value("/tmp")])]);
    engine.run(SessionCommand::Clear, 1).unwrap();
    assert!(engine.get_session_defaults().is_empty());
}

#[test]
fn resolved_alias_display_and_history_texts() {
    let ra = ResolvedAlias::new(
        Identifier::with_namespace("a", Some("ns")),
        String::from("d"),
        String::from("echo {{v}}"),
        vec![String::from("echo 1")],
        vec![(Identifier::new("v"), vec![Choice::from_value("1")])],
    );
    let shown = ra.to_display();
    assert_eq!(
        shown,
        "\u{1b}[38;5;14m\u{1b}[1mAlias:\u{1b}[m ns::a\n\u{1b}[38;5;14m\u{1b}[1mChoices:\u{1b}[m\n\n\t\u{1b}[1mv\u{1b}[m =\t1 \n\n\u{1b}[38;5;14m\u{1b}[1m\u{1b}[3mExecuted commands:\u{1b}[m\n\t- echo 1\n"
    );
    assert_eq!(history_entry(&ra), format!("\n=============\n\n{}\n=============\n", shown));
    assert_eq!(report(&ra), "Alias: ns::a\nCommands:\n=========\n\n\t- echo 1\n\n");
}

#[test]
fn engine_displays_and_replays_history() {
    let alias = Alias::new("a", "d", "echo hi");
    let mut engine = SamEngine {
        resolver: ChoicesResolver,
        aliases: AliasesRepository::new(vec![alias]),
        vars: VarsCollectionMock(vec![]),
        defaults: VarsDefaultValuesMock(vec![]),
        history: InMemoryHistory::default(),
        env_variables: std::collections::HashMap::new(),
        executor: LogExecutor::default(),
        output: vec![],
    };
    assert_eq!(engine.run(SamCommand::ExecuteLastExecutedAlias).unwrap(), 0);
    assert_eq!(engine.output, vec![String::from("history empty")]);
    engine.run(SamCommand::ExecuteAlias { alias: Identifier::new("a") }).unwrap();
    assert_eq!(engine.executor.commands[0].0.commands(), &[String::from("echo hi")]);
    assert_eq!(engine.run(SamCommand::DisplayLastExecutedAlias).unwrap(), 0);
    assert_eq!(engine.output.last().unwrap(), "Alias: a\nCommands:\n=========\n\n\t- echo hi\n\n");
    engine.run(SamCommand::ExecuteLastExecutedAlias).unwrap();
    assert_eq!(engine.executor.commands.len(), 2);
    assert_eq!(engine.run(SamCommand::ModifyThenExecuteLastAlias).unwrap(), 1);
    assert!(engine.run(SamCommand::ExecuteAlias { alias: Identifier::new("b") }).is_err());
}

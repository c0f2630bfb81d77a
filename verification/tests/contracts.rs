use sam::aliases::{Alias, AliasAndDependencies};
use sam::choices::Choice;
use sam::cli::ConfigCommand;
use sam::config_engine::{env_var_references, programs_in, ConfigEngine};
use sam::previews::choice_preview;
use sam::engine::{SamCommand, SamEngine};
use sam::mocks::{InMemoryHistory, LogExecutor};
use sam::aliases_repository::AliasesRepository;
use sam::dependencies::{ErrorsDependencies, ExecutionSequence};
use sam::identifiers::{Identifier, Identifiers};
use sam::mcp::{var_info, McpError, VarKind};
use sam::resolution::{
    choices_for_execution_sequence, merge_dynamic_results, resolve_choice_for_var,
    ErrorDependencyResolution,
};
use sam::resolver::{ErrorsResolver, Resolver, ResolverContext};
use sam::list_state::ListState;
use sam::session_storage::SessionStorage;
use sam::view_state::MockValue;
use sam::vars::Var;
use sam::vars_repository::{VarsCollectionMock, VarsDefaultValuesMock, VarsRepository};

/// Answers every command with a failure to substitute `missing`.
struct FailingResolver;

impl Resolver for FailingResolver {
    fn resolve_input(&self, var: &Var, prompt: &str, _ctx: &ResolverContext) -> Result<Choice, ErrorsResolver> {
        Err(ErrorsResolver::NoInputWasProvided(var.name(), prompt.to_string()))
    }
    fn resolve_dynamic(&self, _var: &Var, _cmd: String, _ctx: &ResolverContext) -> Result<Vec<Choice>, ErrorsResolver> {
        Err(ErrorsResolver::Dependencies(ErrorsDependencies::MissingChoicesForVar(Identifier::new("missing"))))
    }
    fn resolve_static(&self, var: &Var, _choices: Vec<Choice>, _ctx: &ResolverContext) -> Result<Vec<Choice>, ErrorsResolver> {
        Err(ErrorsResolver::NoChoiceWasSelected(var.name()))
    }
    fn select_identifier(&self, _ids: &[AliasAndDependencies], _prompt: &str) -> Result<AliasAndDependencies, ErrorsResolver> {
        Err(ErrorsResolver::IdentifierSelectionEmpty)
    }
}

fn context() -> ResolverContext {
    let alias = Alias::new("a", "d", "");
    ResolverContext { full_name: alias.full_name(), alias, choices: vec![], execution_sequence: vec![] }
}

#[test]
fn merge_dynamic_results_joins_the_choices_in_order() {
    let r = merge_dynamic_results(vec![
        Ok(vec![Choice::from_value("a"), Choice::from_value("b")]),
        Ok(vec![]),
        Ok(vec![Choice::from_value("c")]),
    ]);
    assert_eq!(r.unwrap(), vec![Choice::from_value("a"), Choice::from_value("b"), Choice::from_value("c")]);
    assert_eq!(merge_dynamic_results(vec![]).unwrap(), vec![]);
}

#[test]
fn merge_dynamic_results_gives_the_first_failure() {
    let r = merge_dynamic_results(vec![
        Ok(vec![Choice::from_value("a")]),
        Err(ErrorsResolver::NoChoiceWasAvailable(Identifier::new("first"))),
        Err(ErrorsResolver::NoChoiceWasSelected(Identifier::new("second"))),
    ]);
    match r {
        Err(ErrorsResolver::NoChoiceWasAvailable(id)) => assert_eq!(id, Identifier::new("first")),
        other => panic!("unexpected {:?}", other),
    }
}

#[test]
fn resolve_choice_for_var_hands_on_the_resolver_failure() {
    let var = Var::from_command("listing", "d", "ls");
    match resolve_choice_for_var(&FailingResolver, &var, &vec![], &context()) {
        Err(ErrorsResolver::Dependencies(ErrorsDependencies::MissingChoicesForVar(id))) => {
            assert_eq!(id, Identifier::new("missing"))
        }
        other => panic!("unexpected {:?}", other),
    }
}

#[test]
fn resolve_choice_for_var_reports_a_missing_dependency() {
    let var = Var::from_command("listing", "d", "ls {{dir}}");
    match resolve_choice_for_var(&FailingResolver, &var, &vec![], &context()) {
        Err(ErrorsResolver::Dependencies(ErrorsDependencies::MissingChoicesForVar(id))) => {
            assert_eq!(id, Identifier::new("dir"))
        }
        other => panic!("unexpected {:?}", other),
    }
}

#[test]
fn var_info_offers_the_choices_found() {
    let mut var = Var::new("image", "Docker image", vec![]);
    var.update("docker");
    let info = var_info(&var, Ok(vec![Choice::new("nginx", Some("web")), Choice::from_value("redis")])).unwrap();
    assert_eq!(info.name, "image");
    assert_eq!(info.namespace, Some(String::from("docker")));
    assert_eq!(info.desc, "Docker image");
    assert_eq!(info.kind, VarKind::Choices);
    assert!(info.prompt.is_none());
    let choices = info.choices.unwrap();
    assert_eq!(choices.len(), 2);
    assert_eq!(choices[0].value, "nginx");
    assert_eq!(choices[0].desc, Some(String::from("web")));
    assert_eq!(choices[1].value, "redis");
    assert_eq!(choices[1].desc, None);
}

#[test]
fn var_info_asks_for_input() {
    let var = Var::from_input("name", "Container name", "name please");
    let outcome = Err(ErrorDependencyResolution::NoChoiceForVar {
        var_name: var.name(),
        error: ErrorsResolver::NoInputWasProvided(var.name(), String::from("name please")),
    });
    let info = var_info(&var, outcome).unwrap();
    assert_eq!(info.kind, VarKind::Input);
    assert_eq!(info.prompt, Some(String::from("name please")));
    assert!(info.choices.is_none());
    assert_eq!(info.namespace, None);
}

#[test]
fn var_info_hands_on_other_failures() {
    let var = Var::new("image", "Docker image", vec![]);
    let outcome = Err(ErrorDependencyResolution::NoChoiceForVar {
        var_name: var.name(),
        error: ErrorsResolver::NoChoiceWasSelected(var.name()),
    });
    match var_info(&var, outcome) {
        Err(McpError::Resolution(ErrorDependencyResolution::NoChoiceForVar { var_name, .. })) => {
            assert_eq!(var_name, Identifier::new("image"))
        }
        other => panic!("unexpected {:?}", other),
    }
}

#[test]
fn vars_repository_keeps_the_first_var_of_each_name_in_order() {
    let repo = VarsRepository::new(vec![
        Var::new("a", "first a", vec![]),
        Var::new("b", "b", vec![]),
        Var::new("a", "second a", vec![]),
    ]);
    let vars = repo.vars_iter();
    assert_eq!(vars.len(), 2);
    assert_eq!(vars[0].name(), Identifier::new("a"));
    assert_eq!(vars[0].desc(), "first a");
    assert_eq!(vars[1].name(), Identifier::new("b"));
}

#[test]
fn vars_repository_merge_adds_the_new_vars_after_its_own() {
    let mut repo = VarsRepository::new(vec![Var::new("a", "a", vec![]), Var::new("b", "own b", vec![])]);
    let other = VarsRepository::new(vec![Var::new("b", "other b", vec![]), Var::new("c", "c", vec![])]);
    repo.merge(other);
    let vars = repo.vars_iter();
    assert_eq!(vars.len(), 3);
    assert_eq!(vars[0].name(), Identifier::new("a"));
    assert_eq!(vars[1].desc(), "own b");
    assert_eq!(vars[2].name(), Identifier::new("c"));
}

#[test]
fn session_set_choice_keeps_the_other_choices() {
    let mut storage = SessionStorage::with_ttl(3600, String::from("sid"));
    storage.set_choice(Identifier::new("a"), Choice::from_value("1"), 10);
    storage.set_choice(Identifier::new("b"), Choice::from_value("2"), 10);
    storage.set_choice(Identifier::new("b"), Choice::from_value("3"), 10);
    assert_eq!(storage.get_choice(&Identifier::new("a"), 10), Some(Choice::from_value("1")));
    assert_eq!(storage.get_choice(&Identifier::new("b"), 10), Some(Choice::from_value("3")));
}

#[test]
fn choices_for_execution_sequence_reports_the_first_unknown_var() {
    let alias = Alias::new("a", "d", "echo {{x}} {{y}}");
    let seq = ExecutionSequence::new(vec![Identifier::new("x"), Identifier::new("y")]);
    let r = choices_for_execution_sequence(
        &alias,
        &VarsCollectionMock(vec![]),
        &VarsDefaultValuesMock(vec![]),
        &FailingResolver,
        seq,
    );
    match r {
        Err(ErrorDependencyResolution::MissingDependencies(ids)) => {
            assert_eq!(ids, Identifiers(vec![Identifier::new("x")]))
        }
        other => panic!("unexpected {:?}", other),
    }
}

#[test]
fn choices_for_execution_sequence_gives_one_entry_per_var() {
    let alias = Alias::new("a", "d", "echo {{x}} {{y}}");
    let seq = ExecutionSequence::new(vec![Identifier::new("x"), Identifier::new("y")]);
    let vars = VarsCollectionMock(vec![Var::new("x", "x", vec![]), Var::new("y", "y", vec![])]);
    let defaults = VarsDefaultValuesMock(vec![
        (Identifier::new("x"), vec![Choice::from_value("1")]),
        (Identifier::new("y"), vec![Choice::from_value("2")]),
    ]);
    let r = choices_for_execution_sequence(&alias, &vars, &defaults, &FailingResolver, seq).unwrap();
    assert_eq!(
        r,
        vec![
            (Identifier::new("x"), vec![Choice::from_value("1")]),
            (Identifier::new("y"), vec![Choice::from_value("2")]),
        ]
    );
}

#[test]
fn marks_belong_to_values_not_positions() {
    let mut list = ListState::new(vec![MockValue::new(1, "same"), MockValue::new(1, "same"), MockValue::new(2, "other")]);
    assert_eq!(list.mark(), Some(true));
    let shown = list.displayed_values();
    assert!(shown[0].0 && shown[1].0 && !shown[2].0);
    list.down();
    assert_eq!(list.mark(), Some(false));
    let shown = list.displayed_values();
    assert!(!shown[0].0 && !shown[1].0);
    assert_eq!(list.entr(), Some(true));
    assert_eq!(list.marked_values(), vec![MockValue::new(1, "same")]);
}

#[test]
fn mark_all_marks_each_shown_value_once() {
    let mut list = ListState::new(vec![MockValue::new(1, "a"), MockValue::new(1, "a"), MockValue::new(2, "b")]);
    list.mark_all();
    assert_eq!(list.marked_values(), vec![MockValue::new(1, "a"), MockValue::new(2, "b")]);
}

#[test]
fn session_defaults_hold_the_stored_var_names() {
    let mut storage = SessionStorage::with_ttl(3600, String::from("sid"));
    storage.set_choice(Identifier::new("test_var"), Choice::from_value("v"), 5);
    let all = storage.get_all_choices();
    assert_eq!(all, vec![(Identifier::new("test_var"), Choice::from_value("v"))]);
}

#[test]
fn env_var_references_reads_dollar_names() {
    let refs = env_var_references("echo $HOME ${USER}x $1 $ a$_b2-c");
    assert_eq!(refs, vec![String::from("HOME"), String::from("USER"), String::from("_b2")]);
}

#[test]
fn config_check_reports_unset_env_vars_once() {
    let config = ConfigEngine {
        aliases: vec![Alias::new("a", "d", "ls $DIR $MISSING")],
        vars: vec![Var::from_command("v", "d", "cat ${FILE} $MISSING")],
        env_variables: vec![String::from("DIR")],
    };
    let available = vec![true; config.programs().len()];
    let report = config.run(ConfigCommand::All, &available);
    assert_eq!(report.unset_env_vars, vec![String::from("MISSING"), String::from("FILE")]);
    assert!(report.missing_programs.is_empty());
    assert_eq!(report.code, 1);
    let fine = ConfigEngine {
        aliases: vec![Alias::new("a", "d", "ls $DIR")],
        vars: vec![],
        env_variables: vec![String::from("DIR")],
    };
    let report = fine.run(ConfigCommand::CheckUnsetEnvVars, &vec![false]);
    assert!(report.unset_env_vars.is_empty());
    assert!(report.missing_programs.is_empty());
    assert_eq!(report.code, 0);
}

#[test]
fn config_check_reports_missing_programs() {
    let config = ConfigEngine {
        aliases: vec![Alias::new("a", "d", "  ls -l {{dir}} |grep -v x | ls")],
        vars: vec![Var::from_command("v", "d", "cat file|")],
        env_variables: vec![],
    };
    let programs = config.programs();
    assert_eq!(programs, vec![String::from("ls"), String::from("grep"), String::from("cat")]);
    let report = config.run(ConfigCommand::CheckUnavailablePrograms, &vec![true, false, true]);
    assert_eq!(report.missing_programs, vec![String::from("grep")]);
    assert!(report.unset_env_vars.is_empty());
    assert_eq!(report.code, 1);
    assert_eq!(programs_in("a | b |  | c d"), vec![String::from("a"), String::from("b"), String::from("c")]);
}

#[test]
fn choice_preview_shows_the_alias_and_the_choices_so_far() {
    let mut alias = Alias::new("run", "Run it", "echo {{x}}");
    alias.update_namespace("ns");
    let ctx = ResolverContext {
        full_name: alias.full_name(),
        alias,
        choices: vec![(Identifier::new("x"), vec![Choice::from_value("1")])],
        execution_sequence: vec![Identifier::new("x")],
    };
    let expected = format!(
        "Name: run\n\nDescription:\nRun it\n\nAlias:\n\necho {{{{x}}}}\n\nDependencies:\n- x\n\nCurrent Choices:\n- x = {:?}",
        vec![Choice::from_value("1")]
    );
    assert_eq!(choice_preview(&ctx), expected);
}

#[test]
fn executor_gets_the_resolved_alias_once() {
    let alias = Alias::new("a", "d", "echo {{v}}");
    let mut engine = SamEngine {
        resolver: FailingResolver,
        aliases: AliasesRepository::new(vec![alias]),
        vars: VarsCollectionMock(vec![Var::new("v", "v", vec![])]),
        defaults: VarsDefaultValuesMock(vec![(Identifier::new("v"), vec![Choice::from_value("1")])]),
        history: InMemoryHistory::default(),
        env_variables: std::collections::HashMap::new(),
        executor: LogExecutor::default(),
        output: vec![],
    };
    assert_eq!(engine.run(SamCommand::ExecuteAlias { alias: Identifier::new("a") }).unwrap(), 0);
    assert_eq!(engine.executor.commands.len(), 1);
    assert_eq!(engine.executor.commands[0].0.commands(), &[String::from("echo 1")]);
    assert!(engine.executor.commands[0].0.equals(&engine.history.aliases[0]));
    assert!(engine.run(SamCommand::ExecuteAlias { alias: Identifier::new("nope") }).is_err());
    assert_eq!(engine.executor.commands.len(), 1);
}

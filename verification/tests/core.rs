use std::collections::hash_map::DefaultHasher;
use std::collections::HashMap;
use std::hash::{Hash, Hasher};

use sam::aliases::{Alias, AliasAndDependencies, ResolvedAlias};
use sam::aliases_repository::AliasesRepository;
use sam::choices::Choice;
use sam::dependencies::{Dependencies, ErrorsDependencies};
use sam::discover::generate_discover_aliases;
use sam::engine::{SamCommand, SamEngine, SamHistory};
use sam::identifiers::{Identifier, Identifiers};
use sam::mocks::{InMemoryHistory, LogExecutor};
use sam::resolution::{
    choice_for_var, choices_for_execution_sequence, execution_sequence_for_dependencies,
    resolve_choice_for_var,
};
use sam::resolver::{ErrorsResolver, Resolver, ResolverContext};
use sam::vars::Var;
use sam::vars_repository::{
    ErrorsVarsRepository, VarsCollectionMock, VarsDefaultValuesMock, VarsRepository,
};

struct StaticResolver {
    identifier_to_select: Option<Identifier>,
    dynamic_res: Vec<(String, Vec<Choice>)>,
    static_res: Vec<(Identifier, Vec<Choice>)>,
}

impl StaticResolver {
    fn new(
        identifier_to_select: Option<Identifier>,
        dynamic_res: Vec<(String, Vec<Choice>)>,
        static_res: Vec<(Identifier, Vec<Choice>)>,
    ) -> Self {
        StaticResolver { identifier_to_select, dynamic_res, static_res }
    }

    fn static_for(&self, id: &Identifier) -> Option<&Vec<Choice>> {
        self.static_res.iter().find(|(k, _)| k == id).map(|(_, v)| v)
    }
}

impl Resolver for StaticResolver {
    fn resolve_input(&self, var: &Var, _prompt: &str, _ctx: &ResolverContext) -> Result<Choice, ErrorsResolver> {
        self.static_for(&var.name())
            .and_then(|e| e.first())
            .cloned()
            .ok_or(ErrorsResolver::NoChoiceWasAvailable(var.name()))
    }

    fn resolve_dynamic(&self, var: &Var, cmd: String, _ctx: &ResolverContext) -> Result<Vec<Choice>, ErrorsResolver> {
        let found = self
            .dynamic_res
            .iter()
            .find(|(key, _)| *key == cmd)
            .and_then(|(_, value)| value.first())
            .cloned();
        match found {
            Some(c) => Ok(vec![c]),
            None => Err(ErrorsResolver::NoChoiceWasAvailable(var.name())),
        }
    }

    fn resolve_static(&self, var: &Var, _choices: Vec<Choice>, _ctx: &ResolverContext) -> Result<Vec<Choice>, ErrorsResolver> {
        self.static_for(&var.name())
            .cloned()
            .ok_or(ErrorsResolver::NoChoiceWasSelected(var.name()))
    }

    fn select_identifier(&self, aliases: &[AliasAndDependencies], _prompt: &str) -> Result<AliasAndDependencies, ErrorsResolver> {
        if let Some(id) = &self.identifier_to_select {
            for alias in aliases {
                if &alias.alias.identifier() == id {
                    return Ok(alias.clone());
                }
            }
        }
        Err(ErrorsResolver::IdentifierSelectionEmpty)
    }
}

fn var_use_listing_name() -> Identifier {
    Identifier::new("use_listing")
}
fn var_listing_name() -> Identifier {
    Identifier::new("listing")
}
fn var_directory_name() -> Identifier {
    Identifier::new("directory")
}
fn var_pattern_name() -> Identifier {
    Identifier::with_namespace("pattern", Some("ns"))
}
fn var_listing_command() -> String {
    String::from("ls -l {{directory}} |grep -v {{ ns::pattern }}")
}
fn var_listing_deps() -> Vec<Identifier> {
    vec![Identifier::new("directory"), Identifier::with_namespace("pattern", Some("ns"))]
}
fn var_use_listing() -> Var {
    Var::from_command(
        "use_listing",
        "output element in {{listing}} and discards everything that matches {{pattern}}",
        "cat {{listing}} |grep -v {{ns::pattern}}",
    )
}
fn var_listing() -> Var {
    Var::from_command(
        "listing",
        "list element in {{directory}} and discards everything that matches {{pattern}}",
        &var_listing_command(),
    )
}
fn var_directory_choice_1() -> Choice {
    Choice::new("/var/log", Some("logs directory"))
}
fn var_directory_choice_2() -> Choice {
    Choice::new("/home", Some("users directory"))
}
fn var_directory() -> Var {
    Var::new(
        "directory",
        "A list of safe directory paths where to perform commands.",
        vec![var_directory_choice_1(), var_directory_choice_2()],
    )
}
fn var_pattern_choice_1() -> Choice {
    Choice::new("service", Some("service pattern"))
}
fn var_pattern_choice_2() -> Choice {
    Choice::new("ryad", Some("users ryad pattern"))
}
fn var_pattern() -> Var {
    let mut v = Var::new(
        "pattern",
        "A black list of patterns",
        vec![var_pattern_choice_1(), var_pattern_choice_2()],
    );
    v.update("ns");
    v
}

fn dummy_context() -> ResolverContext {
    let alias = Alias::new("a", "d", "");
    ResolverContext {
        full_name: alias.full_name(),
        alias,
        choices: vec![],
        execution_sequence: vec![],
    }
}

fn context_with(choices: &[(Identifier, Vec<Choice>)]) -> ResolverContext {
    let mut ctx = dummy_context();
    ctx.choices = choices.to_vec();
    ctx
}

#[test]
fn it_works() {
    assert_eq!(2 + 2, 4);
}

#[test]
fn test_identifier_new() {
    let cases: Vec<(Identifier, &'static str)> = vec![
        (Identifier::new("{{ toto}}"), "toto"),
        (Identifier::new("{{toto }}"), "toto"),
        (Identifier::new("{{toto}}"), "toto"),
    ];
    for (case, result) in cases {
        assert_eq!(&case.inner, result);
    }
}

#[test]
fn test_identifier_from_str() {
    assert_eq!(
        Identifier::from_str("aws::ec2 instance_ip"),
        Identifier::with_namespace("ec2 instance_ip", Some("aws"))
    );
    assert_eq!(Identifier::from_str("::ec2_instance_ip"), Identifier::new("ec2_instance_ip"))
}

#[test]
fn vars() {
    let alias = Alias::new(
        "test_alias",
        "test_description",
        "some text then {{ var1 }} and so {{var2 }} and after that {{var3}} into {{var_4}}.",
    );
    let expected_vars = vec![
        Identifier::new("{{ var1 }}"),
        Identifier::new("{{var2 }}"),
        Identifier::new("{{var3}}"),
        Identifier::new("{{var_4}}"),
    ];
    let vars: Vec<Identifier> = alias.dependencies();
    assert_eq!(expected_vars, vars);
}

#[test]
fn sanitize() {
    let output = Alias::sanitize("{{ super }} no {{ ns::toto }}", "sup");
    assert_eq!("{{ sup::super }} no {{ ns::toto }}", output.as_str());
}

#[test]
fn test_hashes_are_equal() {
    let mut hasher = DefaultHasher::new();
    let mut hasher_2 = DefaultHasher::new();
    let var_name = var_listing_name();
    let var = var_listing();
    var_name.hash(&mut hasher);
    var.hash(&mut hasher_2);
    assert_eq!(hasher.finish(), hasher_2.finish());
}

#[test]
fn test_parse_vars() {
    assert_eq!(Identifier::parse(var_listing_command().as_str(), None), var_listing_deps());
}

#[test]
fn test_var_dependencies() {
    assert_eq!(var_listing().dependencies(), var_listing_deps());
}

#[test]
fn test_substitute_for_choices() {
    let choices = vec![
        (var_directory_name(), vec![var_directory_choice_1()]),
        (var_pattern_name(), vec![var_pattern_choice_2()]),
    ];
    let var = var_listing();
    let r = var.substitute_for_choices(&choices);
    let output = format!(
        "ls -l {} |grep -v {}",
        var_directory_choice_1().value(),
        var_pattern_choice_2().value()
    );
    assert!(r.is_ok());
    assert_eq!(r.unwrap(), vec![output]);
    let missing_choices = vec![(var_pattern_name(), vec![var_pattern_choice_2()])];
    let r2 = var.substitute_for_choices(&missing_choices);
    assert!(r2.is_err());
    match r2.unwrap_err() {
        ErrorsDependencies::MissingChoicesForVar(name) => assert_eq!(name, var_directory_name()),
    }
}

fn listing_resolver() -> StaticResolver {
    let command_final = format!(
        "ls -l {} |grep -v {}",
        var_directory_choice_1().value(),
        var_pattern_choice_2().value()
    );
    let choice_final = Choice::from_value("final_value");
    StaticResolver::new(
        None,
        vec![(command_final, vec![choice_final])],
        vec![
            (var_directory_name(), vec![var_directory_choice_1()]),
            (var_pattern_name(), vec![var_pattern_choice_2()]),
        ],
    )
}

#[test]
fn dependency_resolution_test_resolve() {
    let choices = vec![
        (var_directory_name(), vec![var_directory_choice_1()]),
        (var_pattern_name(), vec![var_pattern_choice_2()]),
    ];
    let choice_final = Choice::from_value("final_value");
    let resolver = listing_resolver();
    let ctx = context_with(&choices);
    let ret_var1 = resolve_choice_for_var(&resolver, &var_listing(), &choices, &ctx);
    assert!(ret_var1.is_ok());
    assert_eq!(*ret_var1.unwrap().first().unwrap(), choice_final);
    let ret_var2 = resolve_choice_for_var(&resolver, &var_pattern(), &choices, &ctx);
    assert!(ret_var2.is_ok());
    assert_eq!(*ret_var2.unwrap().first().unwrap(), var_pattern_choice_2());
}

#[test]
fn vars_repository_test_resolve() {
    let choices = vec![
        (var_directory_name(), vec![var_directory_choice_1()]),
        (var_pattern_name(), vec![var_pattern_choice_2()]),
    ];
    let choice_final = Choice::from_value("final_value");
    let resolver = listing_resolver();
    let ctx = context_with(&choices);
    let ret_var1 = VarsRepository::resolve(&resolver, &var_listing(), &choices, &ctx);
    assert!(ret_var1.is_ok());
    assert_eq!(ret_var1.unwrap(), vec![choice_final]);
    let ret_var2 = VarsRepository::resolve(&resolver, &var_pattern(), &choices, &ctx);
    assert!(ret_var2.is_ok());
    assert_eq!(ret_var2.unwrap(), vec![var_pattern_choice_2()]);
}

fn expected_sequence() -> Vec<Identifier> {
    vec![var_directory_name(), var_pattern_name(), var_listing_name()]
}

#[test]
fn dependency_resolution_test_var_repository_execution_sequence() {
    let repo = VarsCollectionMock(vec![var_directory(), var_listing(), var_pattern()]);
    let seq = execution_sequence_for_dependencies(&repo, &var_listing());
    assert!(seq.is_ok());
    let seq = execution_sequence_for_dependencies(&repo, &var_use_listing());
    assert!(seq.is_ok());
    assert_eq!(expected_sequence().as_slice(), seq.unwrap().as_slice());
}

#[test]
fn vars_repository_test_var_repository_execution_sequence() {
    let repo = VarsRepository::new(vec![var_directory(), var_listing(), var_pattern()]);
    let seq = execution_sequence_for_dependencies(&repo, &var_listing());
    assert!(seq.is_ok());
    let seq = execution_sequence_for_dependencies(&repo, &var_use_listing());
    assert!(seq.is_ok());
    assert_eq!(expected_sequence().as_slice(), seq.unwrap().as_slice());
}

#[test]
fn vars_repository_test_var_repository_new() {
    let _repo = VarsRepository::new(vec![var_directory(), var_listing(), var_pattern()]);
    let repo_err = VarsRepository::new(vec![var_directory(), var_listing()]);
    let missing_err = repo_err.ensure_no_missing_dependency();
    assert!(missing_err.is_err());
    match missing_err.unwrap_err() {
        ErrorsVarsRepository::MissingDependencies(identifiers) => {
            assert_eq!(identifiers, Identifiers(vec![var_pattern_name()]));
        }
        _ => panic!("expected missing dependencies"),
    }
}

fn check_choices(
    repo_choices: Result<Vec<(Identifier, Vec<Choice>)>, sam::resolution::ErrorDependencyResolution>,
) {
    assert!(repo_choices.is_ok());
    let mut expected = vec![
        (var_pattern_name(), vec![var_pattern_choice_2()]),
        (var_listing_name(), vec![Choice::from_value("final_value")]),
        (var_directory_name(), vec![var_directory_choice_1()]),
    ];
    let mut result = repo_choices.unwrap();
    result.sort();
    expected.sort();
    assert_eq!(result, expected);
}

#[test]
fn dependency_resolution_test_var_repository_choices() {
    let resolver = listing_resolver();
    let repo = VarsCollectionMock(vec![var_directory(), var_listing(), var_pattern()]);
    let defaults = VarsDefaultValuesMock(vec![]);
    let alias = Alias::new("use", "uses the listing", "{{use_listing}}");
    let seq = execution_sequence_for_dependencies(&repo, &var_use_listing()).unwrap();
    let res = choices_for_execution_sequence(&alias, &repo, &defaults, &resolver, seq);
    check_choices(res);
}

#[test]
fn vars_repository_test_var_repository_choices() {
    let resolver = listing_resolver();
    let repo = VarsRepository::new(vec![var_directory(), var_listing(), var_pattern()]);
    let alias = Alias::new("use", "uses the listing", "{{use_listing}}");
    let seq = execution_sequence_for_dependencies(&repo, &var_use_listing()).unwrap();
    let res = choices_for_execution_sequence(&alias, &repo, &repo, &resolver, seq);
    check_choices(res);
}

#[test]
fn test_discover_static_var() {
    let var = Var::new(
        "cluster",
        "Kafka clusters",
        vec![Choice::new("prod", Some("production")), Choice::new("staging", None)],
    )
    .with_discover(true);
    let aliases = generate_discover_aliases(&[var]);
    assert_eq!(aliases.len(), 1);
    let alias = &aliases[0];
    assert_eq!(alias.name(), "discover_cluster");
    assert!(alias.alias().contains("printf"));
    assert!(alias.alias().contains("prod"));
    assert!(alias.alias().contains("staging"));
}

#[test]
fn test_discover_dynamic_var() {
    let var = Var::from_command(
        "namespace",
        "K8s namespaces",
        "kubectl get namespaces -o jsonpath='{.items[*].metadata.name}'",
    )
    .with_discover(true);
    let aliases = generate_discover_aliases(&[var]);
    assert_eq!(aliases.len(), 1);
    assert_eq!(aliases[0].name(), "discover_namespace");
    assert_eq!(
        aliases[0].alias(),
        "kubectl get namespaces -o jsonpath='{.items[*].metadata.name}'"
    );
}

#[test]
fn test_discover_input_var_skipped() {
    let var = Var::from_input("user_input", "User input", "Enter value: ").with_discover(true);
    let aliases = generate_discover_aliases(&[var]);
    assert_eq!(aliases.len(), 0);
}

#[test]
fn test_discover_false_skipped() {
    let var = Var::new("cluster", "Clusters", vec![Choice::new("prod", None)]);
    let aliases = generate_discover_aliases(&[var]);
    assert_eq!(aliases.len(), 0);
}

#[test]
fn test_discover_with_namespace() {
    let mut var = Var::new("cluster", "Clusters", vec![Choice::new("prod", None)]).with_discover(true);
    var.update("kafka");
    let aliases = generate_discover_aliases(&[var]);
    assert_eq!(aliases.len(), 1);
    assert_eq!(aliases[0].namespace(), Some("kafka"));
    assert_eq!(aliases[0].name(), "discover_cluster");
}

type TestEngine = SamEngine<
    StaticResolver,
    AliasesRepository,
    VarsCollectionMock,
    VarsDefaultValuesMock,
    InMemoryHistory,
    LogExecutor,
>;

fn make_engine(
    identifier_to_select: Option<Identifier>,
    dynamic_res: Vec<(String, Vec<Choice>)>,
    static_res: Vec<(Identifier, Vec<Choice>)>,
) -> TestEngine {
    let variable_1 = Var::new(
        "variable_1",
        "description_ns1_v1",
        vec![
            Choice::new("value 1", Some("val1 description")),
            Choice::new("value 2", Some("val1 description")),
        ],
    );
    let variable_2 = Var::from_command("variable_2", "description_2", "echo '$SOME_ENV_VAR\\ntoto'");
    let variable_3 = Var::new(
        "variable_3",
        "description_ns2_v1",
        vec![
            Choice::new("value 1_ns2", Some("val1 description ns2")),
            Choice::new("value 2_ns2", Some("val1 description ns2")),
        ],
    );
    let variable_4 = Var::from_input("variable_4", "description_ns2_v2'", "prompt");
    let alias_1 = Alias::new(
        "alias_1",
        "description of alias_1 in ns1",
        "some_cmd --type=$SOME_ENV_VAR_2 {{variable_1}}|grep {{variable_2}}",
    );
    let alias_2 = Alias::new(
        "alias_2",
        "description of alias_1 in ns2",
        "some_cmd --type=$SOME_ENV_VAR_2 {{variable_1}}|grep {{variable_2}} | echo {{variable_1}} ",
    );
    let mut env_variables = HashMap::new();
    env_variables.insert("SOME_ENV_VAR".to_string(), "env_var_value".to_string());
    env_variables.insert("SOME_ENV_VAR_2".to_string(), "env_var_value_2".to_string());
    SamEngine {
        resolver: StaticResolver::new(identifier_to_select, dynamic_res, static_res),
        aliases: AliasesRepository::new(vec![alias_1, alias_2]),
        vars: VarsCollectionMock(vec![variable_1, variable_2, variable_3, variable_4]),
        defaults: VarsDefaultValuesMock(vec![]),
        history: InMemoryHistory::default(),
        env_variables,
        executor: LogExecutor::default(),
        output: vec![],
    }
}

fn first_of(r: &ResolvedAlias, id: &Identifier) -> Choice {
    r.choice(id).unwrap().first().unwrap().clone()
}

#[test]
fn choose_and_execute_alias() {
    let variable_1 = Identifier::new("variable_1");
    let variable_2 = Identifier::new("variable_2");
    let choice_v_1 = Choice::new("value_1", None);
    let choice_v_2 = Choice::new("toto", None);
    let static_res = vec![(variable_1.clone(), vec![choice_v_1.clone()])];
    let dynamic_res = vec![(String::from("echo '$SOME_ENV_VAR\\ntoto'"), vec![Choice::new("toto", None)])];
    let selected_identifier = Identifier::new("alias_1");
    let mut engine = make_engine(Some(selected_identifier.clone()), dynamic_res, static_res);
    engine.run(SamCommand::ChooseAndExecuteAlias).expect("Should not return an error");
    let resolved_aliases = &engine.executor.commands;
    assert_eq!(resolved_aliases.len(), 1);
    let (resolved_alias, _env_vars) = resolved_aliases.first().unwrap();
    assert_eq!(resolved_alias.name(), &selected_identifier);
    assert!(resolved_alias.choice(&variable_1).is_some());
    assert_eq!(resolved_alias.choices().len(), 2);
    assert_eq!(first_of(resolved_alias, &variable_1), choice_v_1);
    assert_eq!(first_of(resolved_alias, &variable_2), choice_v_2);
    assert_eq!(&engine.history.get_last().unwrap().unwrap(), resolved_alias);
}

#[test]
fn execute_alias() {
    let chosen_alias = Identifier::new("alias_2");
    let variable_1 = Identifier::new("variable_1");
    let variable_2 = Identifier::new("variable_2");
    let choice_v_1 = Choice::new("value_1", None);
    let choice_v_2 = Choice::new("toto", None);
    let static_res = vec![(variable_1.clone(), vec![choice_v_1.clone()])];
    let dynamic_res = vec![(String::from("echo '$SOME_ENV_VAR\\ntoto'"), vec![Choice::new("toto", None)])];
    let mut engine = make_engine(None, dynamic_res, static_res);
    engine
        .run(SamCommand::ExecuteAlias { alias: chosen_alias })
        .expect("Should not return an error");
    let resolved_aliases = &engine.executor.commands;
    assert_eq!(resolved_aliases.len(), 1);
    let (resolved_alias, _env_vars) = resolved_aliases.first().unwrap();
    let choices_for_var1 = resolved_alias.choice(&variable_1).expect("expected to find choices for variable1");
    let choices_for_var2 = resolved_alias.choice(&variable_2).expect("expected to find choices for variable1");
    assert!(choices_for_var1.len() == 1);
    assert_eq!(resolved_alias.choices().len(), 2);
    assert_eq!(choices_for_var1[0], choice_v_1);
    assert_eq!(choices_for_var2[0], choice_v_2);
    assert_eq!(&engine.history.get_last().unwrap().unwrap(), resolved_alias);
}

#[test]
fn choice_for_var_names_the_var_on_failure() {
    let resolver = StaticResolver::new(None, vec![], vec![]);
    let r = choice_for_var(&resolver, &var_directory(), &vec![], &dummy_context());
    match r {
        Err(sam::resolution::ErrorDependencyResolution::NoChoiceForVar { var_name, .. }) => {
            assert_eq!(var_name, var_directory_name())
        }
        _ => panic!("expected a failure"),
    }
}

#[test]
fn test_var_repository_new() {
    let _repo = VarsRepository::new(vec![var_directory(), var_listing(), var_pattern()]);
    let repo_err = VarsRepository::new(vec![var_directory(), var_listing()]);
    let missing_err = repo_err.ensure_no_missing_dependency();
    assert!(missing_err.is_err());
    match missing_err.unwrap_err() {
        ErrorsVarsRepository::MissingDependencies(identifiers) => {
            assert_eq!(identifiers, Identifiers(vec![var_pattern_name()]));
        }
        _ => unreachable!(),
    }
}

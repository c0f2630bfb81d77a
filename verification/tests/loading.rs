use sam::aliases::Alias;
use sam::choices::Choice;
use sam::dynamic_resolution::{cached_choices, preselect_static, record_output};
use sam::identifiers::Identifier;
use sam::mcp::fuzzy_filter;
use sam::readers::{place_aliases, place_vars, ErrorsAliasRead, ErrorsChoiceRead};
use sam::resolver::ErrorsResolver;
use sam::vars::Var;
use sam::vars_cache::RustBreakCache;

fn values(cs: &[Choice]) -> Vec<(String, Option<String>)> {
    cs.iter().map(|c| (c.value().to_string(), c.desc().map(|d| d.to_string()))).collect()
}

#[test]
fn place_aliases_puts_them_in_the_namespace() {
    let aliases = vec![
        Alias::from_parts(Identifier::from_parts("run", None), "Run", "docker run {{ image }}"),
        Alias::from_parts(Identifier::from_parts("ps", None), "List", "docker ps"),
    ];
    let placed = place_aliases(&aliases, Some("docker")).unwrap();
    assert_eq!(placed.len(), 2);
    assert_eq!(placed[0].full_name(), "docker::run");
    assert_eq!(placed[1].full_name(), "docker::ps");
    assert_eq!(placed[0].alias(), "docker run {{ image }}");
    let top = place_aliases(&aliases, None).unwrap();
    assert_eq!(top[0].full_name(), "run");
}

#[test]
fn place_aliases_refuses_a_name_with_a_space() {
    let aliases = vec![
        Alias::from_parts(Identifier::from_parts("ok", None), "", "true"),
        Alias::from_parts(Identifier::from_parts("not ok", None), "", "false"),
        Alias::from_parts(Identifier::from_parts("also bad", None), "", "false"),
    ];
    match place_aliases(&aliases, Some("tools")) {
        Err(ErrorsAliasRead::AliasInvalidName(name)) => assert_eq!(name, "tools::not ok"),
        Ok(_) => panic!("a name with a space was accepted"),
    }
}

#[test]
fn place_vars_puts_them_in_the_namespace() {
    let vars = vec![
        Var::from_parts(Identifier::from_parts("image", None), "image", vec![Choice::new("nginx", None)], None, None, false),
        Var::from_parts(Identifier::from_parts("tag", None), "tag", vec![], None, Some("a tag"), true),
    ];
    let placed = place_vars(&vars, Some("docker"));
    assert_eq!(placed.len(), 2);
    assert_eq!(placed[0].namespace(), Some("docker"));
    assert_eq!(placed[1].namespace(), Some("docker"));
    assert_eq!(placed[1].prompt(), Some("a tag"));
    assert!(placed[1].discover());
    assert_eq!(placed[0].name().to_display(), "docker::image");
}

#[test]
fn a_clean_run_is_cached_and_read_back() {
    let mut cache = RustBreakCache::with_ttl(100);
    let cs = record_output(&mut cache, "ls", Some(0), b"a\tfirst\n\nb\n", b"", 10).unwrap();
    assert_eq!(
        values(&cs),
        vec![("a".to_string(), Some("first".to_string())), ("b".to_string(), None)]
    );
    let again = cached_choices(&cache, "ls", 20).unwrap().unwrap();
    assert_eq!(values(&again), values(&cs));
    // expired after its time to live
    assert!(cached_choices(&cache, "ls", 200).unwrap().is_none());
}

#[test]
fn a_failed_or_noisy_run_is_not_cached() {
    let mut cache = RustBreakCache::with_ttl(100);
    let cs = record_output(&mut cache, "ls", Some(1), b"x\n", b"", 10).unwrap();
    assert_eq!(values(&cs), vec![("x".to_string(), None)]);
    assert!(cached_choices(&cache, "ls", 11).unwrap().is_none());
    record_output(&mut cache, "ls", Some(0), b"x\n", b"warning", 10).unwrap();
    assert!(cached_choices(&cache, "ls", 11).unwrap().is_none());
    record_output(&mut cache, "ls", None, b"x\n", b"", 10).unwrap();
    assert!(cached_choices(&cache, "ls", 11).unwrap().is_none());
}

#[test]
fn invalid_utf8_is_refused_and_cached_with_replacement_characters() {
    let mut cache = RustBreakCache::with_ttl(100);
    match record_output(&mut cache, "cmd", Some(0), b"ok\xff\n", b"", 10) {
        Err(ErrorsChoiceRead::InvalidUtf8) => {}
        Ok(_) => panic!("invalid output was read"),
    }
    let cached = cached_choices(&cache, "cmd", 11).unwrap().unwrap();
    assert_eq!(values(&cached), vec![("ok\u{FFFD}".to_string(), None)]);
}

#[test]
fn static_choices_are_preselected_when_single() {
    let var = Var::new("env", "environment", vec![]);
    match preselect_static(&var, vec![]) {
        Err(ErrorsResolver::NoChoiceWasAvailable(id)) => assert_eq!(id.name(), "env"),
        _ => panic!("no choice must be an error"),
    }
    let one = preselect_static(&var, vec![Choice::new("prod", None)]).unwrap().unwrap();
    assert_eq!(values(&one), vec![("prod".to_string(), None)]);
    let many = preselect_static(&var, vec![Choice::new("prod", None), Choice::new("dev", None)]).unwrap();
    assert!(many.is_none());
}

#[test]
fn fuzzy_filter_keeps_matches_best_first() {
    let mut run = Alias::new("run", "Run a container", "docker run");
    run.update_namespace("docker");
    let mut push = Alias::new("push", "Push to remote", "git push");
    push.update_namespace("git");
    let mut pull = Alias::new("pull", "Pull from remote", "git pull");
    pull.update_namespace("git");
    let all = vec![&run, &push, &pull];
    let found = fuzzy_filter(&all, "push");
    assert!(!found.is_empty());
    assert_eq!(found[0].full_name(), "git::push");
    assert!(found.iter().all(|a| a.full_name() != "docker::run"));
    let none = fuzzy_filter(&all, "zzzz");
    assert!(none.is_empty());
}

use sam::aliases::AliasAndDependencies;
use sam::list_state::Value;
use sam::ui::{choice_element, chosen_values, first_selected, AliasElement, ErrorsUIV2, Listed};
use sam::view_state::ViewResponse;

fn alias_and_deps(name: &str) -> AliasAndDependencies {
    let alias = Alias::new(name, "desc", "echo");
    AliasAndDependencies { full_name: alias.full_name(), alias, dependencies: vec![] }
}

#[test]
fn a_closed_view_selects_nothing() {
    let none: Option<ViewResponse<Listed<u8>>> = None;
    match chosen_values(none) {
        Err(ErrorsUIV2::EmptySelection) => {}
        _ => panic!("closing the view must select nothing"),
    }
    let resp = ViewResponse {
        marked_values: vec![Listed { item: 7u8, text: "seven".to_string(), preview_text: String::new() }],
        selected_options: vec![],
    };
    let v = chosen_values(Some(resp)).unwrap();
    assert_eq!(v.len(), 1);
    assert_eq!(v[0].item, 7);
}

#[test]
fn the_first_selected_alias_is_taken() {
    let picked = first_selected(Ok(vec![alias_and_deps("a"), alias_and_deps("b")])).unwrap();
    assert_eq!(picked.full_name, "a");
    match first_selected(Ok(vec![])) {
        Err(ErrorsResolver::IdentifierSelectionEmpty) => {}
        _ => panic!("an empty selection is an error"),
    }
    match first_selected(Err(ErrorsUIV2::EmptySelection)) {
        Err(ErrorsResolver::IdentifierSelectionInvalid(msg)) => {
            assert_eq!(msg, "tried to choose with undifined alias")
        }
        _ => panic!("a failed selection is an error"),
    }
}

#[test]
fn elements_are_listed_by_their_text() {
    let e = choice_element(Choice::new("prod", Some("production")), "preview".to_string());
    assert_eq!(e.text(), "prod    production");
    assert_eq!(e.preview(), "preview");
    let a = AliasElement(alias_and_deps("deploy"));
    assert_eq!(a.text(), "deploy");
    assert_eq!(a.preview(), "Name: deploy\n\nDescription:\ndesc\n\nAlias:\n\necho\n");
}

use sam::aliases_repository::AliasesRepository;
use sam::mcp::{resolve_alias, ResolveAliasResponse};
use sam::resolver::{Resolver, ResolverContext};
use sam::vars_repository::VarsRepository;

/// Offers the command itself as the only choice of a var read from a command.
struct EchoResolver;

impl Resolver for EchoResolver {
    fn resolve_input(&self, var: &Var, prompt: &str, _ctx: &ResolverContext) -> Result<Choice, ErrorsResolver> {
        Err(ErrorsResolver::NoInputWasProvided(var.name(), prompt.to_string()))
    }
    fn resolve_dynamic(&self, _var: &Var, cmd: String, _ctx: &ResolverContext) -> Result<Vec<Choice>, ErrorsResolver> {
        Ok(vec![Choice::new(&cmd, None)])
    }
    fn resolve_static(&self, var: &Var, choices: Vec<Choice>, _ctx: &ResolverContext) -> Result<Vec<Choice>, ErrorsResolver> {
        if choices.is_empty() {
            return Err(ErrorsResolver::NoChoiceWasAvailable(var.name()));
        }
        Ok(choices)
    }
    fn select_identifier(&self, _ids: &[AliasAndDependencies], _prompt: &str) -> Result<AliasAndDependencies, ErrorsResolver> {
        Err(ErrorsResolver::IdentifierSelectionEmpty)
    }
}

#[test]
fn resolve_alias_asks_for_dependencies_first() {
    let aliases = AliasesRepository::new(vec![Alias::new("show", "show the file", "cat {{ file }}")]);
    let vars = VarsRepository::new(vec![
        Var::from_command("file", "a file of the directory", "ls {{ dir }}"),
        Var::new("dir", "a directory", vec![Choice::new("/tmp", None), Choice::new("/etc", None)]),
    ]);
    match resolve_alias(&aliases, &vars, &EchoResolver, "show", &[]).unwrap() {
        ResolveAliasResponse::NeedsVar { var } => {
            assert_eq!(var.name, "dir");
            assert_eq!(var.choices.unwrap().len(), 2);
        }
        _ => panic!("the directory must be asked first"),
    }
    let given = vec![("dir".to_string(), "/etc".to_string())];
    match resolve_alias(&aliases, &vars, &EchoResolver, "show", &given).unwrap() {
        ResolveAliasResponse::NeedsVar { var } => {
            assert_eq!(var.name, "file");
            let cs = var.choices.unwrap();
            assert_eq!(cs.len(), 1);
            assert_eq!(cs[0].value, "ls /etc");
        }
        _ => panic!("the file must be asked next"),
    }
    let given = vec![("dir".to_string(), "/etc".to_string()), ("file".to_string(), "hosts".to_string())];
    match resolve_alias(&aliases, &vars, &EchoResolver, "show", &given).unwrap() {
        ResolveAliasResponse::Resolved { commands } => assert_eq!(commands, vec!["cat hosts".to_string()]),
        _ => panic!("every var has a value"),
    }
}

#[test]
fn an_identifier_shown_as_text_reads_back() {
    let id = Identifier::from_parts("image", Some("docker"));
    let shown = id.to_display();
    assert_eq!(shown, "docker::image");
    let back = Identifier::from_str(&shown);
    assert_eq!(back.name(), "image");
    assert_eq!(back.namespace(), Some("docker"));
    let plain = Identifier::from_parts("tag", None);
    let back = Identifier::from_str(&plain.to_display());
    assert_eq!(back.name(), "tag");
    assert_eq!(back.namespace(), None);
}

use sam::resolution::VarsDefaultValues;
use sam::vars_repository::{VarsDefaultValuesMock, VarsDefaultValuesSetter};

#[test]
fn mock_defaults_are_added_and_repository_defaults_replaced() {
    let one = |v: &str| vec![Choice::new(v, None)];
    let mut mock = VarsDefaultValuesMock(vec![(Identifier::new("a"), one("1"))]);
    mock.set_defaults(&vec![(Identifier::new("b"), one("2")), (Identifier::new("a"), one("3"))]);
    assert_eq!(values(&mock.default_value(&Identifier::new("a")).unwrap()), vec![("3".to_string(), None)]);
    assert_eq!(values(&mock.default_value(&Identifier::new("b")).unwrap()), vec![("2".to_string(), None)]);

    let mut repo = VarsRepository::new(vec![Var::new("a", "", one("x")), Var::new("b", "", one("y"))]);
    repo.set_defaults(&vec![(Identifier::new("a"), one("1"))]);
    repo.set_defaults(&vec![(Identifier::new("b"), one("2"))]);
    assert!(repo.default_value(&Identifier::new("a")).is_none());
    assert_eq!(values(&repo.default_value(&Identifier::new("b")).unwrap()), vec![("2".to_string(), None)]);
}

use sam::session_engine::SessionEngine;
use sam::session_storage::SessionStorage;

#[test]
fn saved_choices_are_read_back_for_the_session() {
    let mut engine = SessionEngine::new(SessionStorage::with_ttl(100, "s1".to_string()), VarsRepository::new(vec![]));
    let choices = vec![
        (Identifier::new("a"), vec![Choice::new("1", None), Choice::new("2", None)]),
        (Identifier::new("b"), vec![]),
        (Identifier::new("a"), vec![Choice::new("3", None)]),
    ];
    engine.save_choices(&choices, 10);
    let a = engine.storage.get_choice(&Identifier::new("a"), 10).unwrap();
    assert_eq!(a.value(), "3");
    assert!(engine.storage.get_choice(&Identifier::new("b"), 10).is_none());
}

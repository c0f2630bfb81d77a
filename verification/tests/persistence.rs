use sam::aliases::ResolvedAlias;
use sam::associative_state::AssociativeStateWithTTL;
use sam::choices::Choice;
use sam::engine::SamHistory;
use sam::history_aliases::AliasHistory;
use sam::identifiers::Identifier;
use sam::sequential_state::SequentialState;
use sam::session_storage::{session_id_from, SessionStorage};
use sam::vars_cache::{NoopVarsCache, RustBreakCache, VarsCache};

#[test]
fn test_associative_state() {
    let mut db = AssociativeStateWithTTL::<i32>::new();
    let mut values = vec![(String::from("str"), 1), (String::from("str_1"), 2), (String::from("str_2"), 3)];
    for (k, v) in &values {
        db.put(k, *v, 100);
    }
    let mut entries: Vec<(String, i32)> = db.entries();
    entries.sort();
    values.sort();
    assert_eq!(entries, values);
    let value = db.get("str", 100).expect("Got a None when I expected a value");
    assert_eq!(value, 1);
    let value2 = db.delete("str", 100).expect("Got a None when I expected a value");
    assert_eq!(value2, 1);
    assert!(db.get("str", 100).is_none());
}

#[test]
fn associative_state_entries_expire_after_their_time_to_live() {
    let mut db = AssociativeStateWithTTL::<i32>::with_ttl(10);
    db.put("k", 7, 100);
    assert_eq!(db.get("k", 109), Some(7));
    assert_eq!(db.get("k", 110), None);
    let mut zero = AssociativeStateWithTTL::<i32>::with_ttl(0);
    zero.put("k", 7, 100);
    assert_eq!(zero.get("k", 100), None);
}

#[test]
fn test_history_put() {
    let mut hist = AliasHistory::new(None, String::from("/tmp"));
    let test = ResolvedAlias::new(
        Identifier::with_namespace("alias", Some("ns")),
        String::from("desc"),
        String::from("echo {{var}}"),
        vec![String::from("echo choice")],
        vec![(Identifier::new("var"), vec![Choice::new("choice", None)])],
    );
    hist.put(test.clone()).expect("The put should succeed");
    let last = hist.get_last().expect("should be able to read").expect("Expecting a value to be returned");
    assert_eq!(test, last);
}

#[test]
fn bounded_history_keeps_the_last_entries() {
    let mut hist = AliasHistory::new(Some(2), String::from("/tmp"));
    for name in ["a", "b", "c"] {
        let ra = ResolvedAlias::new(Identifier::new(name), String::new(), String::new(), vec![], vec![]);
        hist.put(ra).unwrap();
    }
    let last = hist.get_last_n(10).unwrap();
    let names: Vec<&str> = last.iter().map(|r| r.name().name()).collect();
    assert_eq!(names, vec!["b", "c"]);
}

#[test]
fn test_sequential_state() {
    let values = vec![1, 2, 3, 4, 7];
    let mut state = SequentialState::<i32>::new(None);
    for v in &values {
        state.push(*v);
    }
    let returned_values: Vec<i32> = state.entries();
    assert_eq!(returned_values, values);
    state.delete(1);
    let values = vec![1, 3, 4, 7];
    let returned_values: Vec<i32> = state.entries();
    assert_eq!(returned_values, values);
}

#[test]
fn test_sequential_state_first_last() {
    let values = vec![1, 2, 3, 4, 7];
    let mut state = SequentialState::<i32>::new(None);
    for v in &values {
        state.push(*v);
    }
    assert_eq!(state.first(), Some(1));
    assert_eq!(state.last(), Some(7));
}

#[test]
fn test_session_storage() {
    let mut storage = SessionStorage::with_ttl(3600, String::from("session_test"));
    let var_name = Identifier::new("test_var");
    let choice = Choice::new("test_value", Some("test description"));
    storage.set_choice(var_name.clone(), choice.clone(), 1000);
    let retrieved = storage.get_choice(&var_name, 1000);
    assert_eq!(retrieved, Some(choice.clone()));
    let all_choices = storage.get_all_choices();
    assert_eq!(all_choices.len(), 1);
    assert_eq!(all_choices[0], (var_name.clone(), choice));
    storage.clear_session();
    assert!(storage.get_choice(&var_name, 1000).is_none());
}

#[test]
fn test_session_isolation() {
    let session = String::from("session_isolation_test");
    let mut storage1 = SessionStorage::with_ttl(3600, session.clone());
    let var_name = Identifier::new("test_var");
    let choice = Choice::new("test_value", Some("test description"));
    storage1.set_choice(var_name.clone(), choice.clone(), 1000);
    let retrieved1 = storage1.get_choice(&var_name, 1000);
    let storage2 = SessionStorage::from_parts(storage1.into_state(), session.clone());
    assert_eq!(storage2.session_id(), session.as_str());
    let retrieved2 = storage2.get_choice(&var_name, 1000);
    assert_eq!(retrieved1, Some(choice.clone()));
    assert_eq!(retrieved2, Some(choice));
}

#[test]
fn another_session_does_not_read_the_choices() {
    let mut storage1 = SessionStorage::with_ttl(3600, String::from("one"));
    let var_name = Identifier::new("test_var");
    storage1.set_choice(var_name.clone(), Choice::from_value("v"), 1000);
    let storage2 = SessionStorage::from_parts(storage1.into_state(), String::from("two"));
    assert!(storage2.get_choice(&var_name, 1000).is_none());
    assert!(storage2.get_all_choices().is_empty());
}

#[test]
fn session_id_follows_the_environment() {
    assert_eq!(session_id_from(Some("t"), Some("p"), None, None), "t");
    assert_eq!(session_id_from(None, Some("%1"), None, Some("42")), "%1");
    assert_eq!(session_id_from(None, None, Some("1.2.3.4 22 33"), Some("42")), "ssh_1.2.3.4_22_33");
    assert_eq!(session_id_from(None, None, None, Some("42")), "42");
    assert_eq!(session_id_from(None, None, None, None), "terminal_session");
}

#[test]
fn test_rustbreak_cache() {
    let mut cache = RustBreakCache::with_ttl(90);
    cache.put("command", "output", 1000);
    let value = cache.get("command", 1000).expect("can't retrieve the value from rustbreak cache");
    assert_eq!(value, "output");
    cache.put("command2", "output", 1000);
    let value = cache.get("command2", 1000).expect("can't retrieve the value from rustbreak cache");
    assert_eq!(value, "output");
}

#[test]
fn noop_cache_remembers_nothing() {
    let mut cache = NoopVarsCache;
    cache.put("command", "output", 1);
    assert!(cache.get("command", 1).is_none());
}

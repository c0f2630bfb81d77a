use sam::list_state::ListState;
use sam::view_state::{Event, ExecutionState, MockValue, OptionToggle, ViewMode, ViewResponse, ViewState};

#[test]
fn test_navigation() {
    let mut list = ListState::<MockValue>::new(vec![
        MockValue::new(1, "one"),
        MockValue::new(2, "two"),
        MockValue::new(3, "three"),
        MockValue::new(4, "four"),
        MockValue::new(5, "five"),
    ]);
    list.up();
    list.down();
    list.down();
    list.up();
    list.mark();
    list.update_filter('o');
    list.down();
    list.mark();
    let marked = list.marked_values();
    assert!(marked.contains(&MockValue::new(2, "two")));
    assert!(marked.contains(&MockValue::new(4, "four")));
}

#[test]
fn test_marks() {}

#[test]
fn test_state_transitions_input_and_normal_mode() {
    let mut state = ViewState::<MockValue>::default();
    assert_eq!(state.current_mod, ViewMode::InsertMode);
    state.update(&Event::ToggleViewMode);
    assert_eq!(state.current_mod, ViewMode::OptionsMode);
    state.update(&Event::ToggleViewMode);
    assert_eq!(state.current_mod, ViewMode::InsertMode);
}

#[test]
fn test_state_transitions_search_filters() {
    let mut state = ViewState::<MockValue>::default();
    state.update(&Event::InputChar('c'));
    state.update(&Event::InputChar('o'));
    state.update(&Event::ToggleViewMode);
    state.update(&Event::InputChar('o'));
    state.update(&Event::ToggleViewMode);
    state.update(&Event::Backspace);
    let filter = state.search_filter();
    assert_eq!(filter, "c");
}

#[test]
fn test_state_transitions_options_toggles() {}

#[test]
fn test_state_transitions_options_list_navigation() {}

struct TestCase<'a> {
    input_sequence: &'a [Event],
    initial_list: Vec<MockValue>,
    initial_options: Vec<OptionToggle>,
    expected_response: ViewResponse<MockValue>,
}

fn run_case(t: TestCase) {
    let mut view_state = ViewState::new(t.initial_list, t.initial_options);
    for r in t.input_sequence {
        view_state.update(r);
    }
    let response = view_state.response();
    assert_eq!(response, t.expected_response);
}

#[test]
fn test_select_one_element() {
    let case = TestCase {
        input_sequence: &[Event::Down, Event::Entr],
        initial_list: vec![MockValue::new(1, "elem 1"), MockValue::new(2, "elem 2")],
        initial_options: vec![],
        expected_response: ViewResponse {
            marked_values: vec![MockValue::new(2, "elem 2")],
            selected_options: vec![],
        },
    };
    run_case(case)
}

#[test]
fn test_filter_then_select_one_element() {
    let case = TestCase {
        input_sequence: &[Event::Down, Event::InputChar('1'), Event::Entr],
        initial_list: vec![MockValue::new(1, "elem 1"), MockValue::new(2, "elem 2")],
        initial_options: vec![],
        expected_response: ViewResponse {
            marked_values: vec![MockValue::new(1, "elem 1")],
            selected_options: vec![],
        },
    };
    run_case(case)
}

#[test]
fn test_filter_then_select_many_elements() {
    let case_mark_then_entr = TestCase {
        input_sequence: &[Event::Down, Event::InputChar('1'), Event::Mark, Event::Up, Event::Entr],
        initial_list: vec![
            MockValue::new(1, "elem 1"),
            MockValue::new(2, "elem 2"),
            MockValue::new(12, "elem 12"),
        ],
        initial_options: vec![],
        expected_response: ViewResponse {
            marked_values: vec![MockValue::new(1, "elem 1"), MockValue::new(12, "elem 12")],
            selected_options: vec![],
        },
    };
    run_case(case_mark_then_entr);
    let case_mark_mark_then_entr = TestCase {
        input_sequence: &[
            Event::Down,
            Event::InputChar('1'),
            Event::Mark,
            Event::Up,
            Event::Mark,
            Event::Entr,
        ],
        initial_list: vec![
            MockValue::new(1, "elem 1"),
            MockValue::new(2, "elem 2"),
            MockValue::new(12, "elem 12"),
        ],
        initial_options: vec![],
        expected_response: ViewResponse {
            marked_values: vec![MockValue::new(1, "elem 1"), MockValue::new(12, "elem 12")],
            selected_options: vec![],
        },
    };
    run_case(case_mark_mark_then_entr);
}

#[test]
fn toggle_option_select_elements() {
    let case_toggle_option_filter_select = TestCase {
        input_sequence: &[
            Event::Down,
            Event::InputChar('1'),
            Event::Mark,
            Event::Up,
            Event::Mark,
            Event::ToggleViewMode,
            Event::InputChar('o'),
            Event::Entr,
        ],
        initial_list: vec![
            MockValue::new(1, "elem 1"),
            MockValue::new(2, "elem 2"),
            MockValue::new(12, "elem 12"),
        ],
        initial_options: vec![
            OptionToggle { text: String::from("option"), key: 'o', active: false },
            OptionToggle { text: String::from("not option"), key: 'n', active: false },
        ],
        expected_response: ViewResponse {
            marked_values: vec![MockValue::new(1, "elem 1"), MockValue::new(12, "elem 12")],
            selected_options: vec![OptionToggle { text: String::from("option"), key: 'o', active: true }],
        },
    };
    run_case(case_toggle_option_filter_select)
}

#[test]
fn closing_cancels_and_enter_selects() {
    let mut state = ViewState::new(vec![MockValue::new(1, "a")], vec![]);
    assert_eq!(state.update(&Event::AppClosed), ExecutionState::Cancelled);
    assert_eq!(state.update(&Event::Down), ExecutionState::Keep);
    assert_eq!(state.update(&Event::Entr), ExecutionState::ExitSuccess);
    assert_eq!(state.response().marked_values, vec![MockValue::new(1, "a")]);
}

#[test]
fn filter_hides_non_matching_values_and_backspace_restores_them() {
    let mut list = ListState::<MockValue>::new(vec![
        MockValue::new(1, "alpha"),
        MockValue::new(2, "beta"),
        MockValue::new(3, "gamma"),
    ]);
    list.update_filter('m');
    let shown: Vec<usize> = list.displayed_values().iter().map(|(_, v)| v.0).collect();
    assert_eq!(shown, vec![3]);
    list.remove_last_char_from_filter();
    let shown: Vec<usize> = list.displayed_values().iter().map(|(_, v)| v.0).collect();
    assert_eq!(shown, vec![1, 2, 3]);
    assert_eq!(list.search_filter(), "");
}

#[test]
fn mark_twice_unmarks() {
    let mut list = ListState::<MockValue>::new(vec![MockValue::new(1, "one")]);
    assert_eq!(list.mark(), Some(true));
    assert_eq!(list.mark(), Some(false));
    assert!(list.marked_values().is_empty());
}

#[test]
fn mark_all_marks_every_shown_value() {
    let mut list = ListState::<MockValue>::new(vec![
        MockValue::new(1, "one"),
        MockValue::new(2, "two"),
        MockValue::new(3, "three"),
    ]);
    list.update_filter('t');
    list.mark_all();
    assert_eq!(list.marked_values(), vec![MockValue::new(2, "two"), MockValue::new(3, "three")]);
}

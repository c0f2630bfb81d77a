//! The state of a selection view and how it answers the user's keys: an insert mode that
//! filters and marks the list, and an options mode that switches options on.
use vstd::prelude::*;
use crate::list_state::{ListState, Value, spec_rehighlight, spec_filtered, texts_of, set_key_mark, mark_shown, spec_marked};
use crate::text::str_eq;

verus! {

/// What the user did.
#[derive(Debug, PartialEq, Eq, Structural, Clone, Copy)]
pub enum Event {
    AppClosed,
    ToggleViewMode,
    InputChar(char),
    Backspace,
    Entr,
    Up,
    Down,
    Mark,
    MarkAll,
}

/// The mode of the view.
#[derive(Debug, PartialEq, Eq, Structural, Clone, Copy)]
pub enum ViewMode {
    OptionsMode,
    InsertMode,
}

impl ViewMode {
    /// The other mode.
    pub fn toggle(&self) -> (r: ViewMode)
        ensures
            r == (if *self == ViewMode::InsertMode { ViewMode::OptionsMode } else { ViewMode::InsertMode }),
    {
        if *self == ViewMode::InsertMode {
            ViewMode::OptionsMode
        } else {
            ViewMode::InsertMode
        }
    }
}

impl Default for ViewMode {
    fn default() -> (r: Self)
        ensures
            r == ViewMode::InsertMode,
    {
        ViewMode::InsertMode
    }
}

/// Whether the view goes on, ends with a selection, or is cancelled.
#[derive(Debug, PartialEq, Eq, Structural, Clone, Copy)]
pub enum ExecutionState {
    Keep,
    ExitSuccess,
    Cancelled,
}

/// An option the user can switch on with a key.
#[derive(Debug, PartialEq, Eq)]
pub struct OptionToggle {
    pub key: char,
    pub text: String,
    pub active: bool,
}

impl Clone for OptionToggle {
    fn clone(&self) -> (r: Self)
        ensures
            r.key == self.key,
            r.text@ == self.text@,
            r.active == self.active,
    {
        OptionToggle { key: self.key, text: self.text.clone(), active: self.active }
    }
}

/// The options of a view.
#[derive(Debug)]
pub struct OptionsState {
    pub options: Vec<OptionToggle>,
}

impl OptionsState {
    /// Options as given.
    pub fn new(options: Vec<OptionToggle>) -> (r: Self)
        ensures
            r.options@ == options@,
    {
        OptionsState { options }
    }

    /// Switches on every option of key `key` (an option already on stays on).
    pub fn toggle_option(&mut self, key: char)
        ensures
            final(self).options@.len() == old(self).options@.len(),
            forall|i: int|
                0 <= i < old(self).options@.len() ==> (#[trigger] final(self).options@[i]).key
                    == old(self).options@[i].key && final(self).options@[i].text == old(self).options@[i].text
                    && final(self).options@[i].active == (old(self).options@[i].active
                    || old(self).options@[i].key == key),
    {
        let n = self.options.len();
        let mut i: usize = 0;
        while i < n
            invariant
                i <= n,
                n == old(self).options@.len(),
                self.options@.len() == n,
                forall|j: int|
                    0 <= j < n ==> (#[trigger] self.options@[j]).key == old(self).options@[j].key
                        && self.options@[j].text == old(self).options@[j].text,
                forall|j: int|
                    0 <= j < n ==> #[trigger] self.options@[j].active == if j < i {
                        old(self).options@[j].active || old(self).options@[j].key == key
                    } else {
                        old(self).options@[j].active
                    },
            decreases n - i,
        {
            if self.options[i].key == key {
                let mut o = self.options.remove(i);
                o.active = true;
                self.options.insert(i, o);
            }
            i = i + 1;
        }
    }

    /// The options switched on, in order.
    pub fn active(self) -> (r: Vec<OptionToggle>)
        ensures
            r@ == self.options@.filter(|o: OptionToggle| o.active),
    {
        let ghost opts = self.options@;
        let mut source = self.options;
        let n = source.len();
        let mut out: Vec<OptionToggle> = Vec::new();
        let mut consumed: usize = 0;
        while source.len() > 0
            invariant
                consumed + source@.len() == n,
                n == opts.len(),
                source@ == opts.subrange(consumed as int, n as int),
                out@ == opts.subrange(0, consumed as int).filter(|o: OptionToggle| o.active),
            decreases source@.len(),
        {
            let o = source.remove(0);
            proof {
                assert(source@ =~= opts.subrange(consumed + 1, n as int));
                assert(opts.subrange(0, consumed + 1).drop_last() =~= opts.subrange(0, consumed as int));
                reveal(Seq::filter);
            }
            if o.active {
                out.push(o);
            }
            consumed = consumed + 1;
        }
        assert(opts.subrange(0, n as int) =~= opts);
        out
    }
}

/// What the view answers when it ends: the marked values and the options switched on.
#[derive(Debug, PartialEq, Eq)]
pub struct ViewResponse<V> {
    pub marked_values: Vec<V>,
    pub selected_options: Vec<OptionToggle>,
}

/// The state of a selection view.
#[derive(Debug)]
pub struct ViewState<V: Value> {
    pub current_mod: ViewMode,
    pub list: ListState<V>,
    pub options: OptionsState,
}

impl<V: Value> ViewState<V> {
    /// Its list is consistent.
    pub open spec fn wf(&self) -> bool {
        self.list.wf()
    }

    /// A view of `list` and `options`, in insert mode.
    pub fn new(list: Vec<V>, options: Vec<OptionToggle>) -> (r: Self)
        ensures
            r.wf(),
            r.current_mod == ViewMode::InsertMode,
            r.list.values_view() == list@,
            r.list.displayed_view() == Seq::new(list@.len(), |i: int| i as usize),
            r.list.filter_view().len() == 0,
            r.options.options@ == options@,
    {
        ViewState { current_mod: ViewMode::InsertMode, list: ListState::new(list), options: OptionsState::new(options) }
    }

    /// The filter typed in.
    pub fn search_filter(&self) -> (r: &str)
        ensures
            r@ == self.list.filter_view(),
    {
        self.list.search_filter()
    }

    /// The preview of the highlighted value, if any.
    pub fn preview(&self) -> (r: Option<String>)
        requires
            self.wf(),
        ensures
            self.list.highlighted_view() is None <==> r is None,
            r matches Some(p) ==> p@ == self.list.values_view()[self.list.displayed_view()[self.list.highlighted_view()->0 as int] as int].preview_view(),
    {
        match self.list.highlighted_value() {
            Some(v) => Some(v.preview()),
            None => None,
        }
    }

    /// Answers `msg`. Closing cancels; Enter marks the highlighted value and ends with a
    /// selection; toggling switches modes; in insert mode a character extends the filter,
    /// Backspace shortens it, Up and Down move the highlight and Mark / MarkAll mark values; in
    /// options mode a character switches the options of that key on. Anything else is ignored.
    pub fn update(&mut self, msg: &Event) -> (r: ExecutionState)
        requires
            old(self).wf(),
        ensures
            final(self).wf(),
            final(self).list.displayed_view() == spec_filtered(
                texts_of(final(self).list.values_view()),
                final(self).list.filter_view(),
            ),
            r == match *msg {
                Event::AppClosed => ExecutionState::Cancelled,
                Event::Entr => ExecutionState::ExitSuccess,
                _ => ExecutionState::Keep,
            },
            final(self).current_mod == if *msg == Event::ToggleViewMode {
                old(self).current_mod.toggle_spec()
            } else {
                old(self).current_mod
            },
            final(self).list.values_view() == old(self).list.values_view(),
            final(self).list.filter_view() == match *msg {
                Event::InputChar(c) => if old(self).current_mod == ViewMode::InsertMode {
                    old(self).list.filter_view().push(c)
                } else {
                    old(self).list.filter_view()
                },
                Event::Backspace => if old(self).current_mod == ViewMode::InsertMode
                    && old(self).list.filter_view().len() > 0 {
                    old(self).list.filter_view().drop_last()
                } else {
                    old(self).list.filter_view()
                },
                _ => old(self).list.filter_view(),
            },
            final(self).list.highlighted_view() == match *msg {
                Event::Up => if old(self).current_mod == ViewMode::InsertMode {
                    match old(self).list.highlighted_view() {
                        Some(c) => Some(if c > 0 { (c - 1) as usize } else { c }),
                        None => None,
                    }
                } else {
                    old(self).list.highlighted_view()
                },
                Event::Down => if old(self).current_mod == ViewMode::InsertMode {
                    match old(self).list.highlighted_view() {
                        Some(c) => Some(if c + 1 < old(self).list.displayed_view().len() { (c + 1) as usize } else { c }),
                        None => None,
                    }
                } else {
                    old(self).list.highlighted_view()
                },
                Event::InputChar(ch) => if old(self).current_mod == ViewMode::InsertMode {
                    spec_rehighlight(
                        old(self).list.highlighted_view(),
                        spec_filtered(texts_of(old(self).list.values_view()), old(self).list.filter_view().push(ch)).len(),
                    )
                } else {
                    old(self).list.highlighted_view()
                },
                Event::Backspace => if old(self).current_mod == ViewMode::InsertMode {
                    spec_rehighlight(old(self).list.highlighted_view(), final(self).list.displayed_view().len())
                } else {
                    old(self).list.highlighted_view()
                },
                _ => old(self).list.highlighted_view(),
            },
            final(self).list.marked_view() == match *msg {
                Event::Entr => match old(self).list.highlighted_view() {
                    Some(c) => set_key_mark(
                        old(self).list.values_view(),
                        old(self).list.marked_view(),
                        old(self).list.displayed_view()[c as int] as int,
                        true,
                    ),
                    None => old(self).list.marked_view(),
                },
                Event::Mark => if old(self).current_mod == ViewMode::InsertMode {
                    match old(self).list.highlighted_view() {
                        Some(c) => {
                            let i = old(self).list.displayed_view()[c as int] as int;
                            set_key_mark(
                                old(self).list.values_view(),
                                old(self).list.marked_view(),
                                i,
                                !old(self).list.marked_view()[i],
                            )
                        },
                        None => old(self).list.marked_view(),
                    }
                } else {
                    old(self).list.marked_view()
                },
                Event::MarkAll => if old(self).current_mod == ViewMode::InsertMode {
                    mark_shown(
                        old(self).list.values_view(),
                        old(self).list.marked_view(),
                        old(self).list.displayed_view(),
                    )
                } else {
                    old(self).list.marked_view()
                },
                _ => old(self).list.marked_view(),
            },
            final(self).options.options@.len() == old(self).options.options@.len(),
            forall|i: int|
                0 <= i < old(self).options.options@.len() ==> (#[trigger] final(self).options.options@[i]).key
                    == old(self).options.options@[i].key
                    && final(self).options.options@[i].text == old(self).options.options@[i].text
                    && final(self).options.options@[i].active == match *msg {
                        Event::InputChar(ch) => old(self).options.options@[i].active || (old(self).current_mod
                            == ViewMode::OptionsMode && old(self).options.options@[i].key == ch),
                        _ => old(self).options.options@[i].active,
                    },
    {
        proof {
            self.list.lemma_shows_filtered();
        }
        let insert = self.current_mod == ViewMode::InsertMode;
        match *msg {
            Event::AppClosed => ExecutionState::Cancelled,
            Event::ToggleViewMode => {
                self.current_mod = self.current_mod.toggle();
                ExecutionState::Keep
            },
            Event::InputChar(c) => {
                if insert {
                    self.list.update_filter(c);
                } else {
                    self.options.toggle_option(c);
                }
                ExecutionState::Keep
            },
            Event::Backspace => {
                if insert {
                    self.list.remove_last_char_from_filter();
                }
                ExecutionState::Keep
            },
            Event::Up => {
                if insert {
                    self.list.up();
                }
                ExecutionState::Keep
            },
            Event::Down => {
                if insert {
                    self.list.down();
                }
                ExecutionState::Keep
            },
            Event::Mark => {
                if insert {
                    let _ = self.list.mark();
                }
                ExecutionState::Keep
            },
            Event::Entr => {
                let _ = self.list.entr();
                ExecutionState::ExitSuccess
            },
            Event::MarkAll => {
                if insert {
                    self.list.mark_all();
                }
                ExecutionState::Keep
            },
        }
    }

    /// The marked values, in their order, and the options switched on.
    pub fn response(self) -> (r: ViewResponse<V>)
        requires
            self.wf(),
        ensures
            r.marked_values@ == spec_marked(self.list.values_view(), self.list.marked_view()),
            r.selected_options@ == self.options.options@.filter(|o: OptionToggle| o.active),
    {
        let ViewState { current_mod: _m, list, options } = self;
        ViewResponse { marked_values: list.marked_values(), selected_options: options.active() }
    }
}

impl ViewMode {
    /// The other mode.
    pub open spec fn toggle_spec(self) -> ViewMode {
        if self == ViewMode::InsertMode {
            ViewMode::OptionsMode
        } else {
            ViewMode::InsertMode
        }
    }
}

/// Toggling the mode twice comes back to the mode it started from.
pub proof fn lemma_toggle_twice(m: ViewMode)
    ensures
        m.toggle_spec().toggle_spec() == m,
{
}

/// A value for tests and examples: a number and a text.
#[derive(Debug, PartialEq, Eq, Hash)]
pub struct MockValue(pub usize, pub String);

impl Clone for MockValue {
    fn clone(&self) -> (r: Self)
        ensures
            r.0 == self.0,
            r.1@ == self.1@,
    {
        MockValue(self.0, self.1.clone())
    }
}

impl MockValue {
    /// A value with number `id` and text `msg`.
    pub fn new(id: usize, msg: &str) -> (r: Self)
        ensures
            r.0 == id,
            r.1@ == msg@,
    {
        MockValue(id, msg.to_owned())
    }
}

impl Value for MockValue {
    open spec fn text_view(&self) -> Seq<char> {
        self.1@
    }

    fn text(&self) -> (r: &str) {
        self.1.as_str()
    }

    open spec fn preview_view(&self) -> Seq<char> {
        self.1@
    }

    fn preview(&self) -> (r: String) {
        self.1.clone()
    }

    /// Two mock values are the same where their numbers and texts are.
    type Key = (usize, Seq<char>);

    open spec fn key(&self) -> (usize, Seq<char>) {
        (self.0, self.1@)
    }

    fn same_value(&self, other: &Self) -> (r: bool) {
        self.0 == other.0 && str_eq(self.1.as_str(), other.1.as_str())
    }
}

impl Default for ViewState<MockValue> {
    fn default() -> (r: Self)
        ensures
            r.wf(),
            r.current_mod == ViewMode::InsertMode,
            r.list.values_view().len() == 0,
            r.list.filter_view().len() == 0,
            r.options.options@.len() == 0,
    {
        ViewState::new(Vec::new(), Vec::new())
    }
}

/// A key pressed, as the view reads it.
#[derive(Debug, PartialEq, Eq, Structural, Clone, Copy)]
pub enum KeyPress {
    Backspace,
    Delete,
    Esc,
    Up,
    Down,
    Char(char),
    Ctrl(char),
    /// Any other key.
    Other,
}

/// The event a key stands for: Backspace and Delete erase, Escape switches modes when there
/// are options, the arrows and Ctrl-P / Ctrl-N move, Ctrl-C closes, Ctrl-S and Ctrl-A mark
/// when several values may be selected, Enter selects and any other character is typed in.
pub open spec fn spec_key_event(key: KeyPress, has_options: bool, allow_multi_select: bool) -> Option<Event> {
    match key {
        KeyPress::Backspace | KeyPress::Delete => Some(Event::Backspace),
        KeyPress::Esc => if has_options {
            Some(Event::ToggleViewMode)
        } else {
            None
        },
        KeyPress::Up => Some(Event::Up),
        KeyPress::Down => Some(Event::Down),
        KeyPress::Ctrl(c) => if c == 'p' {
            Some(Event::Up)
        } else if c == 'n' {
            Some(Event::Down)
        } else if c == 'c' {
            Some(Event::AppClosed)
        } else if c == 's' && allow_multi_select {
            Some(Event::Mark)
        } else if c == 'a' && allow_multi_select {
            Some(Event::MarkAll)
        } else {
            None
        },
        KeyPress::Char(c) => if c == '\n' {
            Some(Event::Entr)
        } else {
            Some(Event::InputChar(c))
        },
        KeyPress::Other => None,
    }
}

/// The event `key` stands for (see `spec_key_event`).
pub fn key_transformer(key: KeyPress, has_options: bool, allow_multi_select: bool) -> (r: Option<Event>)
    ensures
        r == spec_key_event(key, has_options, allow_multi_select),
{
    match key {
        KeyPress::Backspace | KeyPress::Delete => Some(Event::Backspace),
        KeyPress::Esc => if has_options {
            Some(Event::ToggleViewMode)
        } else {
            None
        },
        KeyPress::Up => Some(Event::Up),
        KeyPress::Down => Some(Event::Down),
        KeyPress::Ctrl(c) => if c == 'p' {
            Some(Event::Up)
        } else if c == 'n' {
            Some(Event::Down)
        } else if c == 'c' {
            Some(Event::AppClosed)
        } else if c == 's' && allow_multi_select {
            Some(Event::Mark)
        } else if c == 'a' && allow_multi_select {
            Some(Event::MarkAll)
        } else {
            None
        },
        KeyPress::Char(c) => if c == '\n' {
            Some(Event::Entr)
        } else {
            Some(Event::InputChar(c))
        },
        KeyPress::Other => None,
    }
}

/// How a shown value is listed: a snowflake and a space before a marked value, two spaces
/// before another.
pub open spec fn spec_list_line(marked: bool, text: Seq<char>) -> Seq<char> {
    if marked {
        seq!['\u{2744}', ' '] + text
    } else {
        seq![' ', ' '] + text
    }
}

impl<V: Value> ViewState<V> {
    /// The lines of the list as shown (see `spec_list_line`).
    pub fn list_lines(&self) -> (r: Vec<String>)
        requires
            self.wf(),
        ensures
            r@.len() == self.list.displayed_view().len(),
            forall|i: int|
                0 <= i < r@.len() ==> (#[trigger] r@[i])@ == spec_list_line(
                    self.list.marked_view()[self.list.displayed_view()[i] as int],
                    self.list.values_view()[self.list.displayed_view()[i] as int].text_view(),
                ),
    {
        let shown = self.list.displayed_values();
        let mut out: Vec<String> = Vec::new();
        let mut i: usize = 0;
        while i < shown.len()
            invariant
                i <= shown@.len(),
                shown@.len() == self.list.displayed_view().len(),
                forall|j: int|
                    0 <= j < shown@.len() ==> (#[trigger] shown@[j]).0 == self.list.marked_view()[self.list.displayed_view()[j] as int]
                        && *shown@[j].1 == self.list.values_view()[self.list.displayed_view()[j] as int],
                out@.len() == i,
                forall|j: int|
                    0 <= j < i ==> (#[trigger] out@[j])@ == spec_list_line(
                        self.list.marked_view()[self.list.displayed_view()[j] as int],
                        self.list.values_view()[self.list.displayed_view()[j] as int].text_view(),
                    ),
            decreases shown@.len() - i,
        {
            let (m, v) = shown[i];
            let mut line: Vec<char> = Vec::new();
            if m {
                line.push('\u{2744}');
                line.push(' ');
            } else {
                line.push(' ');
                line.push(' ');
            }
            crate::text::push_str(&mut line, v.text());
            assert(line@ =~= spec_list_line(m, v.text_view()));
            out.push(crate::text::string_of(line.as_slice()));
            i = i + 1;
        }
        out
    }
}

} // verus!

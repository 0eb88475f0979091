//! The state machine of an interactive session: what each key does in
//! each mode.

use crate::filter::{
    filter, filter_spec, next_selector, next_selector_spec, previous_selector,
    previous_selector_spec, ALL_NAMESPACES,
};
use crate::placeholder::{
    parse, parse_spec, placeholders, render, resolve, segment_views, slots, Segment, SegmentView,
};
use crate::selection::{after_next, after_previous, clipped, Selection};
use crate::template::{
    later, later_of, parse_tags, tags_spec, tags_to_string, CommandTemplate, TemplateView,
};
use crate::text::{drop_last_word, joined, pop_char, push_char, texts, without_last_word};
use crate::trove::{key_index, lemma_key_index, taken_elsewhere, unique_keys, Trove};
use vstd::prelude::*;

verus! {

/// How keys are read: as commands or as text.
#[derive(Debug, Clone, Copy, PartialEq, Eq, Structural)]
pub enum ViMode {
    /// Keys are commands.
    Normal,
    /// Keys are text for the field under edit.
    Insert,
}

impl ViMode {
    /// The other mode.
    pub open spec fn toggled(self) -> ViMode {
        match self {
            ViMode::Normal => ViMode::Insert,
            ViMode::Insert => ViMode::Normal,
        }
    }

    /// Switches to the other mode.
    pub fn toggle(&mut self)
        ensures
            *final(self) == old(self).toggled(),
    {
        match self {
            ViMode::Normal => *self = ViMode::Insert,
            ViMode::Insert => *self = ViMode::Normal,
        }
    }

    /// The name of the mode as the footer shows it.
    pub fn label(&self) -> (name: String)
        ensures
            name@ == match *self {
                ViMode::Normal => "Normal"@,
                ViMode::Insert => "Insert"@,
            },
    {
        match self {
            ViMode::Normal => "Normal".to_owned(),
            ViMode::Insert => "Insert".to_owned(),
        }
    }
}

/// The panels of the browser that can take the highlight.
#[derive(Debug, Clone, Copy, PartialEq, Eq, Structural)]
pub enum SelectablePanel {
    /// The list of templates.
    CommandList,
    /// The tags of the selected template.
    CommandTags,
    /// The description of the selected template.
    CommandDescription,
    /// The command text of the selected template.
    CommandInvocations,
}

/// What the session is busy with.
#[derive(Debug, Clone, Copy, PartialEq, Eq, Structural)]
pub enum ControlState {
    /// Browsing and searching the list.
    Search,
    /// Editing the selected template.
    Edit,
    /// Taking the values for the placeholders of the chosen template.
    Resolve,
}

/// The attribute of the selected template that an edit aims at.
#[derive(Debug, Clone, Copy, PartialEq, Eq, Structural)]
pub enum EditSelection {
    Name,
    Namespace,
    Description,
    Command,
    Tags,
}

impl EditSelection {
    /// The field after this one, the first after the last.
    pub open spec fn following(self) -> EditSelection {
        match self {
            EditSelection::Name => EditSelection::Namespace,
            EditSelection::Namespace => EditSelection::Description,
            EditSelection::Description => EditSelection::Command,
            EditSelection::Command => EditSelection::Tags,
            EditSelection::Tags => EditSelection::Name,
        }
    }

    /// The field before this one, the last before the first.
    pub open spec fn preceding(self) -> EditSelection {
        match self {
            EditSelection::Name => EditSelection::Tags,
            EditSelection::Namespace => EditSelection::Name,
            EditSelection::Description => EditSelection::Namespace,
            EditSelection::Command => EditSelection::Description,
            EditSelection::Tags => EditSelection::Command,
        }
    }

    /// The field after this one, the first after the last.
    pub fn next(&self) -> (field: EditSelection)
        ensures
            field == self.following(),
    {
        match self {
            EditSelection::Name => EditSelection::Namespace,
            EditSelection::Namespace => EditSelection::Description,
            EditSelection::Description => EditSelection::Command,
            EditSelection::Command => EditSelection::Tags,
            EditSelection::Tags => EditSelection::Name,
        }
    }

    /// The field before this one, the last before the first.
    pub fn prev(&self) -> (field: EditSelection)
        ensures
            field == self.preceding(),
    {
        match self {
            EditSelection::Name => EditSelection::Tags,
            EditSelection::Namespace => EditSelection::Name,
            EditSelection::Description => EditSelection::Namespace,
            EditSelection::Command => EditSelection::Description,
            EditSelection::Tags => EditSelection::Command,
        }
    }
}

/// Stepping through the fields forth and back, or back and forth, ends
/// where it began, and five steps forth go once round.
pub proof fn lemma_field_cycle(field: EditSelection)
    ensures
        field.following().preceding() == field,
        field.preceding().following() == field,
        field.following().following().following().following().following() == field,
{
}

/// A key press.
#[derive(Debug, Clone, Copy, PartialEq, Eq, Structural)]
pub enum Key {
    /// A character key; the return key gives a line feed, the tab key a tab.
    Char(char),
    /// A character key pressed with the control key.
    Ctrl(char),
    Esc,
    Backspace,
    Up,
    Down,
    /// Any other key.
    Other,
}

/// What the session's loop hands to the state machine.
#[derive(Debug, Clone, Copy, PartialEq, Eq, Structural)]
pub enum Event {
    /// A key was pressed.
    Input(Key),
    /// The timer fired.
    Tick,
}

/// How far the session has come.
#[derive(Debug, PartialEq, Eq)]
pub enum Outcome {
    /// The session goes on.
    Running,
    /// The session ended without a result.
    Quit,
    /// The session ended with a command, its placeholders filled in.
    Resolved(String),
}

pub enum OutcomeView {
    Running,
    Quit,
    Resolved(Seq<char>),
}

impl View for Outcome {
    type V = OutcomeView;

    open spec fn view(&self) -> OutcomeView {
        match self {
            Outcome::Running => OutcomeView::Running,
            Outcome::Quit => OutcomeView::Quit,
            Outcome::Resolved(text) => OutcomeView::Resolved(text@),
        }
    }
}

/// The share of the footer's width, in percent, of its left and of its
/// right part.
pub fn get_footer_constraints(control: &ControlState) -> (shares: (u16, u16))
    ensures
        shares == match *control {
            ControlState::Edit => (99u16, 1u16),
            _ => (50u16, 50u16),
        },
{
    match control {
        ControlState::Search | ControlState::Resolve => (50, 50),
        ControlState::Edit => (99, 1),
    }
}

/// The state of one interactive session.
#[derive(Debug)]
pub struct State {
    pub control: ControlState,
    pub vimode: ViMode,
    /// The field that an edit aims at.
    pub edit_selection: EditSelection,
    /// The text under edit, or the value being typed for a placeholder.
    pub string_to_edit: String,
    /// The search text.
    pub input: String,
    /// The namespace selector.
    pub selector: String,
    /// The highlighted row of the shown list.
    pub selection: Selection,
    /// The store.
    pub base: Trove,
    /// What the filter shows of the store.
    pub shown: Trove,
    /// Marks a placeholder in a command.
    pub token: String,
    /// Ends the identifier of a named placeholder.
    pub ending_token: String,
    /// The command being resolved, in segments.
    pub segments: Vec<Segment>,
    /// The values taken so far for the placeholders of that command.
    pub values: Vec<String>,
    pub outcome: Outcome,
    /// The store has changes that were not saved yet.
    pub dirty: bool,
}

pub struct StateView {
    pub control: ControlState,
    pub vimode: ViMode,
    pub edit_selection: EditSelection,
    pub string_to_edit: Seq<char>,
    pub input: Seq<char>,
    pub selector: Seq<char>,
    pub selection: Selection,
    pub base: Seq<TemplateView>,
    pub shown: Seq<TemplateView>,
    pub token: Seq<char>,
    pub ending_token: Seq<char>,
    pub segments: Seq<SegmentView>,
    pub values: Seq<Seq<char>>,
    pub outcome: OutcomeView,
    pub dirty: bool,
}

impl View for State {
    type V = StateView;

    open spec fn view(&self) -> StateView {
        StateView {
            control: self.control,
            vimode: self.vimode,
            edit_selection: self.edit_selection,
            string_to_edit: self.string_to_edit@,
            input: self.input@,
            selector: self.selector@,
            selection: self.selection,
            base: self.base@,
            shown: self.shown@,
            token: self.token@,
            ending_token: self.ending_token@,
            segments: segment_views(self.segments@),
            values: texts(self.values@),
            outcome: self.outcome@,
            dirty: self.dirty,
        }
    }
}

/// The state's invariant: the store has unique keys, the shown list is
/// what the filter shows of the store, the selection names a row of it,
/// and a resolution under way still lacks a value.
pub open spec fn well_formed(v: StateView) -> bool {
    &&& unique_keys(v.base)
    &&& v.base.len() <= usize::MAX
    &&& v.shown == filter_spec(v.base, v.input, v.selector)
    &&& v.shown.len() <= usize::MAX
    &&& v.selection.valid_for(v.shown.len() as usize)
    &&& resolution_in_order(v)
}

/// While values are taken for placeholders, one is still to come.
pub open spec fn resolution_in_order(v: StateView) -> bool {
    v.control == ControlState::Resolve && v.outcome is Running ==> v.values.len() < slots(
        v.segments,
    ).len()
}

/// The state with the shown list brought up to date and the selection
/// fitted to it.
pub open spec fn refiltered(v: StateView) -> StateView {
    let shown = filter_spec(v.base, v.input, v.selector);
    StateView {
        shown,
        selection: Selection {
            selected: clipped(v.selection.selected, shown.len() as usize),
            ..v.selection
        },
        ..v
    }
}

/// The template under the highlight.
pub open spec fn chosen(v: StateView) -> Option<TemplateView> {
    match v.selection.selected {
        Some(row) => if row < v.shown.len() {
            Some(v.shown[row as int])
        } else {
            None
        },
        None => None,
    }
}

/// The text of one field of a template, the tags as a comma-separated
/// list.
pub open spec fn field_text(template: TemplateView, field: EditSelection) -> Seq<char> {
    match field {
        EditSelection::Name => template.name,
        EditSelection::Namespace => template.namespace,
        EditSelection::Description => template.description,
        EditSelection::Command => template.command,
        EditSelection::Tags => joined(template.tags, ','),
    }
}

/// The template with `text` written into `field` at time `now`: tags are
/// read from a comma-separated list, and the time of the last change
/// never moves back.
pub open spec fn edited_spec(
    template: TemplateView,
    field: EditSelection,
    text: Seq<char>,
    now: u64,
) -> TemplateView {
    let stamped = TemplateView { modified: later(template.modified, now), ..template };
    match field {
        EditSelection::Name => TemplateView { name: text, ..stamped },
        EditSelection::Namespace => TemplateView { namespace: text, ..stamped },
        EditSelection::Description => TemplateView { description: text, ..stamped },
        EditSelection::Command => TemplateView { command: text, ..stamped },
        EditSelection::Tags => TemplateView { tags: tags_spec(text), ..stamped },
    }
}

/// The store after one use, at time `now`, of the template under
/// `namespace` and `name`.
pub open spec fn used_in(
    base: Seq<TemplateView>,
    namespace: Seq<char>,
    name: Seq<char>,
    now: u64,
) -> Seq<TemplateView> {
    let at = key_index(base, namespace, name);
    if at >= 0 {
        base.update(at, CommandTemplate::used(base[at], now))
    } else {
        base
    }
}

/// The edit would leave the template without a name.
pub open spec fn names_nothing(v: StateView) -> bool {
    v.edit_selection == EditSelection::Name && v.string_to_edit.len() == 0
}

/// The edit is written back: the text under edit goes into the aimed-at
/// field of the template under the highlight, in the store. Nothing is
/// written where no template is under the highlight, where the name
/// would be empty, or where another template already stands under the
/// new namespace and name. Either way the session is back in normal
/// mode with no text under edit.
pub open spec fn committed(v: StateView, now: u64) -> StateView {
    let cleared = StateView { vimode: ViMode::Normal, string_to_edit: Seq::<char>::empty(), ..v };
    match chosen(v) {
        None => cleared,
        Some(shown) => {
            let at = key_index(v.base, shown.namespace, shown.name);
            if at < 0 {
                cleared
            } else {
                let edited = edited_spec(v.base[at], v.edit_selection, v.string_to_edit, now);
                if names_nothing(v) || taken_elsewhere(v.base, at, edited) {
                    cleared
                } else {
                    refiltered(
                        StateView { base: v.base.update(at, edited), dirty: true, ..cleared },
                    )
                }
            }
        },
    }
}

/// The session ends with the command, every placeholder filled in, and
/// the store counts one use of the template.
pub open spec fn finished(v: StateView, now: u64) -> StateView {
    let base = match chosen(v) {
        Some(template) => used_in(v.base, template.namespace, template.name, now),
        None => v.base,
    };
    refiltered(
        StateView {
            outcome: OutcomeView::Resolved(render(v.segments, v.values)),
            base,
            dirty: true,
            ..v
        },
    )
}

/// The template under the highlight is chosen: without placeholders the
/// session ends with its command, else the session turns to asking for
/// their values. Without a template under the highlight nothing happens.
pub open spec fn executed(v: StateView, now: u64) -> StateView {
    match chosen(v) {
        None => v,
        Some(template) => {
            let segments = parse_spec(template.command, v.token, v.ending_token);
            let started = StateView {
                segments,
                values: Seq::<Seq<char>>::empty(),
                string_to_edit: Seq::<char>::empty(),
                ..v
            };
            if slots(segments).len() == 0 {
                finished(started, now)
            } else {
                StateView { control: ControlState::Resolve, ..started }
            }
        },
    }
}

/// The typed text becomes the value of the next placeholder; with the
/// last value in, the session ends.
pub open spec fn supplied(v: StateView, now: u64) -> StateView {
    let given = StateView {
        values: v.values.push(v.string_to_edit),
        string_to_edit: Seq::<char>::empty(),
        ..v
    };
    if given.values.len() == slots(v.segments).len() {
        finished(given, now)
    } else {
        given
    }
}

/// `text` without its last character.
pub open spec fn shortened(text: Seq<char>) -> Seq<char> {
    if text.len() == 0 {
        text
    } else {
        text.drop_last()
    }
}

/// The keys that end the session from any mode that takes commands.
pub open spec fn is_interrupt(key: Key) -> bool {
    key == Key::Ctrl('c') || key == Key::Ctrl('d') || key == Key::Ctrl('g')
}

/// The session ended without a result.
pub open spec fn quit(v: StateView) -> StateView {
    StateView { outcome: OutcomeView::Quit, ..v }
}

/// A key while browsing, keys read as commands.
pub open spec fn search_normal(v: StateView, key: Key, now: u64) -> StateView {
    if key == Key::Char('j') || key == Key::Down {
        StateView { selection: after_next(v.selection, v.shown.len() as usize), ..v }
    } else if key == Key::Char('k') || key == Key::Up {
        StateView { selection: after_previous(v.selection, v.shown.len() as usize), ..v }
    } else if key == Key::Char('\t') || key == Key::Char('u') {
        refiltered(StateView { selector: next_selector_spec(v.base, v.selector), ..v })
    } else if key == Key::Char('d') {
        refiltered(StateView { selector: previous_selector_spec(v.base, v.selector), ..v })
    } else if key == Key::Char('l') {
        StateView { control: ControlState::Edit, ..v }
    } else if key == Key::Char('\n') {
        executed(v, now)
    } else if key == Key::Char('i') {
        StateView { vimode: ViMode::Insert, ..v }
    } else if key == Key::Char('q') || key == Key::Esc || is_interrupt(key) {
        quit(v)
    } else {
        v
    }
}

/// A key while browsing, keys read as search text.
pub open spec fn search_insert(v: StateView, key: Key) -> StateView {
    match key {
        Key::Esc => StateView { vimode: ViMode::Normal, ..v },
        Key::Down => StateView { selection: after_next(v.selection, v.shown.len() as usize), ..v },
        Key::Up => StateView {
            selection: after_previous(v.selection, v.shown.len() as usize),
            ..v
        },
        Key::Backspace => refiltered(StateView { input: shortened(v.input), ..v }),
        Key::Ctrl(c) => if c == 'w' {
            refiltered(StateView { input: without_last_word(v.input), ..v })
        } else if c == 'u' {
            refiltered(StateView { input: Seq::<char>::empty(), ..v })
        } else {
            v
        },
        Key::Char(c) => if c == '\n' {
            StateView { vimode: ViMode::Normal, ..v }
        } else if c == '\t' {
            refiltered(StateView { selector: next_selector_spec(v.base, v.selector), ..v })
        } else {
            refiltered(StateView { input: v.input.push(c), ..v })
        },
        Key::Other => v,
    }
}

/// A key while editing, keys read as commands.
pub open spec fn edit_normal(v: StateView, key: Key) -> StateView {
    if key == Key::Char('j') {
        StateView { edit_selection: v.edit_selection.following(), ..v }
    } else if key == Key::Char('k') {
        StateView { edit_selection: v.edit_selection.preceding(), ..v }
    } else if key == Key::Char('i') {
        StateView {
            vimode: ViMode::Insert,
            string_to_edit: match chosen(v) {
                Some(template) => field_text(template, v.edit_selection),
                None => Seq::<char>::empty(),
            },
            ..v
        }
    } else if key == Key::Char('h') {
        StateView { control: ControlState::Search, ..v }
    } else if key == Key::Char('q') || is_interrupt(key) {
        quit(v)
    } else {
        v
    }
}

/// A key while editing, keys read as text for the field under edit.
pub open spec fn edit_insert(v: StateView, key: Key, now: u64) -> StateView {
    match key {
        Key::Esc => StateView {
            vimode: ViMode::Normal,
            string_to_edit: Seq::<char>::empty(),
            ..v
        },
        Key::Backspace => StateView { string_to_edit: shortened(v.string_to_edit), ..v },
        Key::Char(c) => if c == '\n' {
            committed(v, now)
        } else {
            StateView { string_to_edit: v.string_to_edit.push(c), ..v }
        },
        _ => v,
    }
}

/// A key while the values for the placeholders are taken.
pub open spec fn resolve_step(v: StateView, key: Key, now: u64) -> StateView {
    if key == Key::Esc || is_interrupt(key) {
        quit(v)
    } else {
        match key {
            Key::Backspace => StateView { string_to_edit: shortened(v.string_to_edit), ..v },
            Key::Char(c) => if c == '\n' {
                supplied(v, now)
            } else {
                StateView { string_to_edit: v.string_to_edit.push(c), ..v }
            },
            _ => v,
        }
    }
}

/// The state after `key` was pressed at time `now`. A session that has
/// ended takes no more keys.
pub open spec fn step(v: StateView, key: Key, now: u64) -> StateView {
    if !(v.outcome is Running) {
        v
    } else {
        match v.control {
            ControlState::Resolve => resolve_step(v, key, now),
            ControlState::Search => match v.vimode {
                ViMode::Normal => search_normal(v, key, now),
                ViMode::Insert => search_insert(v, key),
            },
            ControlState::Edit => match v.vimode {
                ViMode::Normal => edit_normal(v, key),
                ViMode::Insert => edit_insert(v, key, now),
            },
        }
    }
}

/// The state in which a session over `base` begins.
pub open spec fn initial(
    base: Seq<TemplateView>,
    token: Seq<char>,
    ending_token: Seq<char>,
    viewport_height: usize,
) -> StateView {
    refiltered(
        StateView {
            control: ControlState::Search,
            vimode: ViMode::Normal,
            edit_selection: EditSelection::Name,
            string_to_edit: Seq::<char>::empty(),
            input: Seq::<char>::empty(),
            selector: ALL_NAMESPACES@,
            selection: Selection { selected: Some(0usize), scroll_offset: 0, viewport_height },
            base,
            shown: base,
            token,
            ending_token,
            segments: Seq::<SegmentView>::empty(),
            values: Seq::<Seq<char>>::empty(),
            outcome: OutcomeView::Running,
            dirty: false,
        },
    )
}

/// The text of one field of `template`.
pub fn field_value(template: &CommandTemplate, field: EditSelection) -> (text: String)
    ensures
        text@ == field_text(template@, field),
{
    match field {
        EditSelection::Name => template.name.clone(),
        EditSelection::Namespace => template.namespace.clone(),
        EditSelection::Description => template.description.clone(),
        EditSelection::Command => template.command.clone(),
        EditSelection::Tags => tags_to_string(&template.tags),
    }
}

/// `template` with `text` written into `field` at time `now`.
pub fn edit_field(
    template: &CommandTemplate,
    field: EditSelection,
    text: &String,
    now: u64,
) -> (edited: CommandTemplate)
    ensures
        edited@ == edited_spec(template@, field, text@, now),
{
    let mut edited = template.clone();
    edited.modified = later_of(template.modified, now);
    match field {
        EditSelection::Name => {
            edited.name = text.clone();
        },
        EditSelection::Namespace => {
            edited.namespace = text.clone();
        },
        EditSelection::Description => {
            edited.description = text.clone();
        },
        EditSelection::Command => {
            edited.command = text.clone();
        },
        EditSelection::Tags => {
            edited.tags = parse_tags(text.as_str());
        },
    }
    edited
}

impl State {
    /// The state's invariant.
    pub open spec fn wf(&self) -> bool {
        well_formed(self@)
    }

    /// A session over `base`: browsing, keys read as commands, every
    /// namespace let through, the first row highlighted.
    pub fn new(base: Trove, token: String, ending_token: String, viewport_height: usize) -> (state:
        State)
        requires
            base.wf(),
        ensures
            state.wf(),
            state@ == initial(base@, token@, ending_token@, viewport_height),
    {
        let shown = base.clone();
        let mut state = State {
            control: ControlState::Search,
            vimode: ViMode::Normal,
            edit_selection: EditSelection::Name,
            string_to_edit: String::new(),
            input: String::new(),
            selector: ALL_NAMESPACES.to_owned(),
            selection: Selection::new(viewport_height),
            base,
            shown,
            token,
            ending_token,
            segments: Vec::new(),
            values: Vec::new(),
            outcome: Outcome::Running,
            dirty: false,
        };
        assert(state@.segments =~= Seq::<SegmentView>::empty());
        assert(state@.values =~= Seq::<Seq<char>>::empty());
        state.refilter();
        state
    }

    /// Whether the state's invariant holds.
    pub fn is_well_formed(&self) -> (ok: bool)
        ensures
            ok == self.wf(),
    {
        if !self.base.is_well_formed() {
            return false;
        }
        let _stored: usize = self.base.len();
        let expected = filter(&self.base, self.input.as_str(), self.selector.as_str());
        if !self.shown.same_as(&expected) {
            return false;
        }
        let fits = match self.selection.selected {
            Some(row) => row < self.shown.len(),
            None => self.shown.len() == 0,
        };
        if !fits {
            return false;
        }
        match self.control {
            ControlState::Resolve => {
                !self.is_running() || self.values.len() < placeholders(&self.segments).len()
            },
            _ => true,
        }
    }

    /// Brings the shown list up to date with the store, the search text
    /// and the selector, and fits the selection to it.
    pub fn filter_trove(&mut self)
        requires
            unique_keys(old(self)@.base),
        ensures
            final(self)@ == refiltered(old(self)@),
            resolution_in_order(old(self)@) ==> final(self).wf(),
    {
        self.refilter();
    }

    /// Fits the selection to the shown list.
    pub fn clip_commands_selection(&mut self)
        ensures
            final(self)@ == (StateView {
                selection: Selection {
                    selected: clipped(old(self)@.selection.selected, old(self).shown.commands.len()),
                    ..old(self)@.selection
                },
                ..old(self)@
            }),
    {
        self.selection.clip_selection(self.shown.len());
    }

    /// Moves the highlight one row down the shown list.
    pub fn increment_selected_command(&mut self)
        requires
            old(self).wf(),
        ensures
            final(self).wf(),
            final(self)@ == (StateView {
                selection: after_next(old(self)@.selection, old(self)@.shown.len() as usize),
                ..old(self)@
            }),
    {
        self.move_selection(true);
    }

    /// Moves the highlight one row up the shown list.
    pub fn decrement_selected_command(&mut self)
        requires
            old(self).wf(),
        ensures
            final(self).wf(),
            final(self)@ == (StateView {
                selection: after_previous(old(self)@.selection, old(self)@.shown.len() as usize),
                ..old(self)@
            }),
    {
        self.move_selection(false);
    }

    /// Brings the shown list up to date and fits the selection to it.
    fn refilter(&mut self)
        requires
            unique_keys(old(self)@.base),
        ensures
            final(self)@ == refiltered(old(self)@),
            final(self)@.shown == filter_spec(
                final(self)@.base,
                final(self)@.input,
                final(self)@.selector,
            ),
            final(self)@.shown.len() <= usize::MAX,
            final(self)@.base.len() <= usize::MAX,
            final(self)@.selection.valid_for(final(self)@.shown.len() as usize),
    {
        let _stored: usize = self.base.len();
        self.shown = filter(&self.base, self.input.as_str(), self.selector.as_str());
        self.selection.clip_selection(self.shown.len());
    }

    /// The template under the highlight.
    pub fn get_selected_hoard_command(&self) -> (template: Option<CommandTemplate>)
        ensures
            match template {
                Some(t) => chosen(self@) == Some(t@),
                None => chosen(self@) is None,
            },
    {
        match self.selection.selected {
            Some(row) => if row < self.shown.commands.len() {
                Some(self.shown.commands[row].clone())
            } else {
                None
            },
            None => None,
        }
    }

    /// Ends the session with the resolved command and counts the use.
    fn finish(&mut self, now: u64)
        requires
            unique_keys(old(self)@.base),
            old(self)@.values.len() == slots(old(self)@.segments).len(),
        ensures
            final(self)@ == finished(old(self)@, now),
            final(self).wf(),
    {
        match resolve(&self.segments, &self.values) {
            Some(text) => {
                self.outcome = Outcome::Resolved(text);
            },
            None => {},
        }
        match self.get_selected_hoard_command() {
            Some(template) => {
                let _ = self.base.record_use(&template.namespace, &template.name, now);
            },
            None => {},
        }
        self.dirty = true;
        self.refilter();
    }

    /// Chooses the template under the highlight.
    fn execute(&mut self, now: u64)
        requires
            old(self).wf(),
        ensures
            final(self)@ == executed(old(self)@, now),
            final(self).wf(),
    {
        match self.get_selected_hoard_command() {
            None => {},
            Some(template) => {
                self.segments =
                parse(template.command.as_str(), self.token.as_str(), self.ending_token.as_str());
                self.values = Vec::new();
                self.string_to_edit = String::new();
                assert(texts(self.values@) =~= Seq::<Seq<char>>::empty());
                let needed = placeholders(&self.segments);
                if needed.len() == 0 {
                    self.finish(now);
                } else {
                    self.control = ControlState::Resolve;
                }
            },
        }
    }

    /// Writes the edit back into the store.
    fn commit(&mut self, now: u64)
        requires
            old(self).wf(),
        ensures
            final(self)@ == committed(old(self)@, now),
            final(self).wf(),
    {
        let chosen = self.get_selected_hoard_command();
        self.vimode = ViMode::Normal;
        match chosen {
            None => {},
            Some(shown) => {
                proof {
                    lemma_key_index(self.base@, shown@.namespace, shown@.name);
                }
                match self.base.position(&shown.namespace, &shown.name) {
                    None => {},
                    Some(at) => {
                        let edited = edit_field(
                            &self.base.commands[at],
                            self.edit_selection,
                            &self.string_to_edit,
                            now,
                        );
                        let nameless = match self.edit_selection {
                            EditSelection::Name => self.string_to_edit.as_str().unicode_len() == 0,
                            _ => false,
                        };
                        if !nameless {
                            match self.base.replace_at(at, edited) {
                                Ok(()) => {
                                    self.dirty = true;
                                    self.refilter();
                                },
                                Err(_) => {},
                            }
                        }
                    },
                }
            },
        }
        self.string_to_edit = String::new();
    }

    /// Takes the typed text as the value of the next placeholder.
    fn supply(&mut self, now: u64)
        requires
            old(self).wf(),
        ensures
            final(self)@ == supplied(old(self)@, now),
            final(self).wf(),
    {
        let value = self.string_to_edit.clone();
        self.values.push(value);
        self.string_to_edit = String::new();
        assert(texts(self.values@) =~= texts(old(self).values@).push(old(self).string_to_edit@));
        let needed = placeholders(&self.segments);
        if self.values.len() == needed.len() {
            self.finish(now);
        }
    }

    /// Turns to the selector behind or before the current one.
    fn cycle_selector(&mut self, forward: bool)
        requires
            old(self).wf(),
        ensures
            final(self)@ == refiltered(
                StateView {
                    selector: if forward {
                        next_selector_spec(old(self)@.base, old(self)@.selector)
                    } else {
                        previous_selector_spec(old(self)@.base, old(self)@.selector)
                    },
                    ..old(self)@
                },
            ),
            final(self).wf(),
    {
        self.selector = if forward {
            next_selector(&self.base, &self.selector)
        } else {
            previous_selector(&self.base, &self.selector)
        };
        self.refilter();
    }

    /// Moves the highlight one row down or up.
    fn move_selection(&mut self, down: bool)
        requires
            old(self).wf(),
        ensures
            final(self)@ == (StateView {
                selection: if down {
                    after_next(old(self)@.selection, old(self)@.shown.len() as usize)
                } else {
                    after_previous(old(self)@.selection, old(self)@.shown.len() as usize)
                },
                ..old(self)@
            }),
            final(self).wf(),
    {
        if down {
            self.selection.next(self.shown.len());
        } else {
            self.selection.previous(self.shown.len());
        }
    }

    fn key_search_normal(&mut self, key: Key, now: u64)
        requires
            old(self).wf(),
        ensures
            final(self)@ == search_normal(old(self)@, key, now),
            final(self).wf(),
    {
        match key {
            Key::Char('j') | Key::Down => self.move_selection(true),
            Key::Char('k') | Key::Up => self.move_selection(false),
            Key::Char('\t') | Key::Char('u') => self.cycle_selector(true),
            Key::Char('d') => self.cycle_selector(false),
            Key::Char('l') => {
                self.control = ControlState::Edit;
            },
            Key::Char('\n') => self.execute(now),
            Key::Char('i') => {
                self.vimode = ViMode::Insert;
            },
            Key::Char('q') | Key::Esc | Key::Ctrl('c') | Key::Ctrl('d') | Key::Ctrl('g') => {
                self.outcome = Outcome::Quit;
            },
            _ => {},
        }
    }

    fn key_search_insert(&mut self, key: Key)
        requires
            old(self).wf(),
        ensures
            final(self)@ == search_insert(old(self)@, key),
            final(self).wf(),
    {
        match key {
            Key::Esc | Key::Char('\n') => {
                self.vimode = ViMode::Normal;
            },
            Key::Down => self.move_selection(true),
            Key::Up => self.move_selection(false),
            Key::Backspace => {
                pop_char(&mut self.input);
                self.refilter();
            },
            Key::Ctrl('w') => {
                self.input = drop_last_word(self.input.as_str());
                self.refilter();
            },
            Key::Ctrl('u') => {
                self.input = String::new();
                self.refilter();
            },
            Key::Char('\t') => self.cycle_selector(true),
            Key::Char(c) => {
                push_char(&mut self.input, c);
                self.refilter();
            },
            _ => {},
        }
    }

    fn key_edit_normal(&mut self, key: Key)
        requires
            old(self).wf(),
        ensures
            final(self)@ == edit_normal(old(self)@, key),
            final(self).wf(),
    {
        match key {
            Key::Char('j') => {
                self.edit_selection = self.edit_selection.next();
            },
            Key::Char('k') => {
                self.edit_selection = self.edit_selection.prev();
            },
            Key::Char('i') => {
                self.string_to_edit = match self.get_selected_hoard_command() {
                    Some(template) => field_value(&template, self.edit_selection),
                    None => String::new(),
                };
                self.vimode = ViMode::Insert;
            },
            Key::Char('h') => {
                self.control = ControlState::Search;
            },
            Key::Char('q') | Key::Ctrl('c') | Key::Ctrl('d') | Key::Ctrl('g') => {
                self.outcome = Outcome::Quit;
            },
            _ => {},
        }
    }

    fn key_edit_insert(&mut self, key: Key, now: u64)
        requires
            old(self).wf(),
        ensures
            final(self)@ == edit_insert(old(self)@, key, now),
            final(self).wf(),
    {
        match key {
            Key::Esc => {
                self.vimode = ViMode::Normal;
                self.string_to_edit = String::new();
            },
            Key::Backspace => {
                pop_char(&mut self.string_to_edit);
            },
            Key::Char('\n') => self.commit(now),
            Key::Char(c) => {
                push_char(&mut self.string_to_edit, c);
            },
            _ => {},
        }
    }

    fn key_resolve(&mut self, key: Key, now: u64)
        requires
            old(self).wf(),
        ensures
            final(self)@ == resolve_step(old(self)@, key, now),
            final(self).wf(),
    {
        match key {
            Key::Esc | Key::Ctrl('c') | Key::Ctrl('d') | Key::Ctrl('g') => {
                self.outcome = Outcome::Quit;
            },
            Key::Backspace => {
                pop_char(&mut self.string_to_edit);
            },
            Key::Char('\n') => self.supply(now),
            Key::Char(c) => {
                push_char(&mut self.string_to_edit, c);
            },
            _ => {},
        }
    }

    /// Whether the session goes on.
    pub fn is_running(&self) -> (running: bool)
        ensures
            running == (self@.outcome is Running),
    {
        match self.outcome {
            Outcome::Running => true,
            _ => false,
        }
    }

    /// Takes one key press, at time `now`.
    pub fn handle_key(&mut self, key: Key, now: u64)
        requires
            old(self).wf(),
        ensures
            final(self).wf(),
            final(self)@ == step(old(self)@, key, now),
    {
        if !self.is_running() {
            return ;
        }
        match self.control {
            ControlState::Resolve => parameter_key_handler(key, self, now),
            ControlState::Search => draw_search_key_handler(key, self, now),
            ControlState::Edit => key_handler(key, self, now),
        }
    }

    /// Takes one tick of the timer: the state stays as it is.
    pub fn handle_tick(&mut self)
        ensures
            *final(self) == *old(self),
    {
    }

    /// Takes one event, at time `now`.
    pub fn handle_event(&mut self, event: Event, now: u64)
        requires
            old(self).wf(),
        ensures
            final(self).wf(),
            final(self)@ == match event {
                Event::Input(key) => step(old(self)@, key, now),
                Event::Tick => old(self)@,
            },
    {
        match event {
            Event::Input(key) => self.handle_key(key, now),
            Event::Tick => self.handle_tick(),
        }
    }

    /// Takes one event, at time `now`, where the state's invariant holds,
    /// and leaves the state as it is where it does not. Says whether the
    /// event was taken.
    pub fn try_handle_event(&mut self, event: Event, now: u64) -> (taken: bool)
        ensures
            taken == old(self).wf(),
            taken ==> final(self).wf() && final(self)@ == match event {
                Event::Input(key) => step(old(self)@, key, now),
                Event::Tick => old(self)@,
            },
            !taken ==> *final(self) == *old(self),
    {
        if self.is_well_formed() {
            self.handle_event(event, now);
            true
        } else {
            false
        }
    }

    /// Notes that the store was saved.
    pub fn mark_saved(&mut self)
        ensures
            final(self)@ == (StateView { dirty: false, ..old(self)@ }),
    {
        self.dirty = false;
    }
}

/// Takes a key while the session browses and searches.
pub fn draw_search_key_handler(input: Key, app: &mut State, now: u64)
    requires
        old(app).wf(),
    ensures
        final(app).wf(),
        final(app)@ == match old(app)@.vimode {
            ViMode::Normal => search_normal(old(app)@, input, now),
            ViMode::Insert => search_insert(old(app)@, input),
        },
{
    match app.vimode {
        ViMode::Normal => app.key_search_normal(input, now),
        ViMode::Insert => app.key_search_insert(input),
    }
}

/// Takes a key while the session edits the selected template.
pub fn key_handler(input: Key, state: &mut State, now: u64)
    requires
        old(state).wf(),
    ensures
        final(state).wf(),
        final(state)@ == match old(state)@.vimode {
            ViMode::Normal => edit_normal(old(state)@, input),
            ViMode::Insert => edit_insert(old(state)@, input, now),
        },
{
    match state.vimode {
        ViMode::Normal => state.key_edit_normal(input),
        ViMode::Insert => state.key_edit_insert(input, now),
    }
}

/// Takes a key while the session asks for the values of placeholders.
pub fn parameter_key_handler(input: Key, state: &mut State, now: u64)
    requires
        old(state).wf(),
    ensures
        final(state).wf(),
        final(state)@ == resolve_step(old(state)@, input, now),
{
    state.key_resolve(input, now);
}

/// What a panel shows for `field`: the text under edit where the session
/// edits that field, else the text `s` that is stored.
pub fn coerce_string_by_mode(s: String, app: &State, command_render: &EditSelection) -> (shown:
    String)
    ensures
        shown@ == if app.control == ControlState::Edit && *command_render == app.edit_selection {
            app.string_to_edit@
        } else {
            s@
        },
{
    match app.control {
        ControlState::Edit => {
            if *command_render == app.edit_selection {
                return app.string_to_edit.clone();
            }
            s
        },
        _ => s,
    }
}

/// The panel that carries the highlight.
pub open spec fn panel_of(control: ControlState, field: EditSelection) -> SelectablePanel {
    if control == ControlState::Edit {
        match field {
            EditSelection::Tags => SelectablePanel::CommandTags,
            EditSelection::Description => SelectablePanel::CommandDescription,
            EditSelection::Command => SelectablePanel::CommandInvocations,
            _ => SelectablePanel::CommandList,
        }
    } else {
        SelectablePanel::CommandList
    }
}

/// The panel that carries the highlight: the list while browsing, the
/// panel of the aimed-at field while editing.
pub fn highlighted_panel(app: &State) -> (panel: SelectablePanel)
    ensures
        panel == panel_of(app.control, app.edit_selection),
{
    match app.control {
        ControlState::Edit => match app.edit_selection {
            EditSelection::Tags => SelectablePanel::CommandTags,
            EditSelection::Description => SelectablePanel::CommandDescription,
            EditSelection::Command => SelectablePanel::CommandInvocations,
            _ => SelectablePanel::CommandList,
        },
        _ => SelectablePanel::CommandList,
    }
}

/// A template that the filter shows stands in the store.
pub proof fn lemma_chosen_in_base(v: StateView)
    requires
        well_formed(v),
        chosen(v) is Some,
    ensures
        key_index(v.base, chosen(v)->0.namespace, chosen(v)->0.name) >= 0,
{
    let t = chosen(v)->0;
    let row = v.selection.selected->0 as int;
    assert(v.shown.contains(v.shown[row]));
    v.base.lemma_filter_contains_rev(crate::filter::passing(v.input, v.selector), t);
    let i = choose|i: int| 0 <= i < v.base.len() && v.base[i] == t;
    lemma_key_index(v.base, t.namespace, t.name);
}

/// Committing an edit of the description, the command or the tags writes
/// the text under edit into that field of the template under the
/// highlight, in the store, and changes no other template.
pub proof fn lemma_commit_writes(v: StateView, now: u64)
    requires
        well_formed(v),
        chosen(v) is Some,
        v.edit_selection == EditSelection::Description || v.edit_selection
            == EditSelection::Command || v.edit_selection == EditSelection::Tags,
    ensures
        ({
            let at = key_index(v.base, chosen(v)->0.namespace, chosen(v)->0.name);
            &&& 0 <= at < v.base.len()
            &&& committed(v, now).base == v.base.update(
                at,
                edited_spec(v.base[at], v.edit_selection, v.string_to_edit, now),
            )
            &&& v.edit_selection == EditSelection::Description ==> committed(
                v,
                now,
            ).base[at].description == v.string_to_edit
            &&& v.edit_selection == EditSelection::Command ==> committed(v, now).base[at].command
                == v.string_to_edit
            &&& v.edit_selection == EditSelection::Tags ==> committed(v, now).base[at].tags
                == tags_spec(v.string_to_edit)
        }),
{
    let t = chosen(v)->0;
    lemma_chosen_in_base(v);
    lemma_key_index(v.base, t.namespace, t.name);
    let at = key_index(v.base, t.namespace, t.name);
    let edited = edited_spec(v.base[at], v.edit_selection, v.string_to_edit, now);
    assert(!taken_elsewhere(v.base, at, edited)) by {
        assert forall|j: int| 0 <= j < v.base.len() && j != at implies !CommandTemplate::same_key(
            #[trigger] v.base[j],
            edited,
        ) by {
            if j < at {
                assert(!CommandTemplate::same_key(v.base[j], v.base[at]));
            } else {
                assert(!CommandTemplate::same_key(v.base[at], v.base[j]));
            }
        }
    }
}

/// Leaving an edit with the escape key changes no template, whatever was
/// typed.
pub proof fn lemma_escape_discards(v: StateView, now: u64)
    ensures
        edit_insert(v, Key::Esc, now).base == v.base,
        edit_insert(v, Key::Esc, now).string_to_edit.len() == 0,
        edit_insert(v, Key::Esc, now).vimode == ViMode::Normal,
{
}

/// Typing in an edit changes the text under edit alone.
pub proof fn lemma_typing_keeps_store(v: StateView, c: char, now: u64)
    requires
        c != '\n',
    ensures
        edit_insert(v, Key::Char(c), now) == (StateView {
            string_to_edit: v.string_to_edit.push(c),
            ..v
        }),
{
}

/// An edit never moves the time of the last change back, and leaves the
/// identity, the time of creation and the record of use as they are.
pub proof fn lemma_edit_moves_forward(
    t: TemplateView,
    field: EditSelection,
    text: Seq<char>,
    now: u64,
)
    ensures
        edited_spec(t, field, text, now).modified >= t.modified,
        edited_spec(t, field, text, now).modified >= now,
        edited_spec(t, field, text, now).identity == t.identity,
        edited_spec(t, field, text, now).created == t.created,
        edited_spec(t, field, text, now).last_used == t.last_used,
        edited_spec(t, field, text, now).usage_count == t.usage_count,
{
}

/// Bringing the shown list up to date sets the view in order.
proof fn lemma_refiltered(v: StateView)
    requires
        unique_keys(v.base),
        v.base.len() <= usize::MAX,
        resolution_in_order(v),
    ensures
        well_formed(refiltered(v)),
{
    v.base.lemma_filter_len(crate::filter::passing(v.input, v.selector));
}

/// A use leaves the keys of the store as they are.
proof fn lemma_used_in(base: Seq<TemplateView>, namespace: Seq<char>, name: Seq<char>, now: u64)
    requires
        unique_keys(base),
    ensures
        unique_keys(used_in(base, namespace, name, now)),
        used_in(base, namespace, name, now).len() == base.len(),
{
    lemma_key_index(base, namespace, name);
    let after = used_in(base, namespace, name, now);
    assert forall|i: int, j: int| 0 <= i < j < after.len() implies !CommandTemplate::same_key(
        #[trigger] after[i],
        #[trigger] after[j],
    ) by {
        assert(!CommandTemplate::same_key(base[i], base[j]));
    }
}

/// Ending the session with a result keeps the invariant.
proof fn lemma_finished(v: StateView, now: u64)
    requires
        unique_keys(v.base),
        v.base.len() <= usize::MAX,
    ensures
        well_formed(finished(v, now)),
{
    let base = match chosen(v) {
        Some(template) => used_in(v.base, template.namespace, template.name, now),
        None => v.base,
    };
    if chosen(v) is Some {
        lemma_used_in(v.base, chosen(v)->0.namespace, chosen(v)->0.name, now);
    }
    lemma_refiltered(
        StateView {
            outcome: OutcomeView::Resolved(render(v.segments, v.values)),
            base,
            dirty: true,
            ..v
        },
    );
}

/// Writing an edit back keeps the invariant.
proof fn lemma_committed(v: StateView, now: u64)
    requires
        well_formed(v),
    ensures
        well_formed(committed(v, now)),
{
    let cleared = StateView { vimode: ViMode::Normal, string_to_edit: Seq::<char>::empty(), ..v };
    if chosen(v) is Some {
        let shown = chosen(v)->0;
        let at = key_index(v.base, shown.namespace, shown.name);
        lemma_key_index(v.base, shown.namespace, shown.name);
        if at >= 0 {
            let edited = edited_spec(v.base[at], v.edit_selection, v.string_to_edit, now);
            if !(names_nothing(v) || taken_elsewhere(v.base, at, edited)) {
                let after = v.base.update(at, edited);
                assert forall|i: int, j: int|
                    0 <= i < j < after.len() implies !CommandTemplate::same_key(
                    #[trigger] after[i],
                    #[trigger] after[j],
                ) by {
                    if i == at {
                        assert(!CommandTemplate::same_key(v.base[j], edited));
                    } else if j == at {
                        assert(!CommandTemplate::same_key(v.base[i], edited));
                    } else {
                        assert(!CommandTemplate::same_key(v.base[i], v.base[j]));
                    }
                }
                lemma_refiltered(StateView { base: after, dirty: true, ..cleared });
            }
        }
    }
}

/// Whatever key is pressed, in whatever mode, the invariant of the state
/// holds on: the keys of the store stay unique, the shown list stays
/// what the filter shows of the store, and the selection names a row of
/// the shown list, or none where the list is empty.
pub proof fn lemma_step_keeps_invariant(v: StateView, key: Key, now: u64)
    requires
        well_formed(v),
    ensures
        well_formed(step(v, key, now)),
{
    let length = v.shown.len() as usize;
    let with_next = StateView { selector: next_selector_spec(v.base, v.selector), ..v };
    let with_previous = StateView { selector: previous_selector_spec(v.base, v.selector), ..v };
    lemma_refiltered(with_next);
    lemma_refiltered(with_previous);
    lemma_refiltered(StateView { input: shortened(v.input), ..v });
    lemma_refiltered(StateView { input: without_last_word(v.input), ..v });
    lemma_refiltered(StateView { input: Seq::<char>::empty(), ..v });
    lemma_committed(v, now);
    assert(after_next(v.selection, length).valid_for(length));
    assert(after_previous(v.selection, length).valid_for(length));
    if v.outcome is Running {
        match v.control {
            ControlState::Resolve => {
                let given = StateView {
                    values: v.values.push(v.string_to_edit),
                    string_to_edit: Seq::<char>::empty(),
                    ..v
                };
                lemma_finished(given, now);
            },
            ControlState::Search => {
                match key {
                    Key::Char(c) => {
                        lemma_refiltered(StateView { input: v.input.push(c), ..v });
                    },
                    _ => {},
                }
                if chosen(v) is Some {
                    let template = chosen(v)->0;
                    let segments = parse_spec(template.command, v.token, v.ending_token);
                    let started = StateView {
                        segments,
                        values: Seq::<Seq<char>>::empty(),
                        string_to_edit: Seq::<char>::empty(),
                        ..v
                    };
                    lemma_finished(started, now);
                }
            },
            ControlState::Edit => {},
        }
    }
}

} // verus!

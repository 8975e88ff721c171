//! The state of the session and what a keystroke does to it.
//!
//! The session decides; it does not read the disk or the clock. A keystroke
//! comes with the time at which it was pressed, and what is left to do
//! outside the session, such as reading the directory to change into, is
//! handed back as an effect.

use vstd::prelude::*;

use super::modes::{Action, InputMode, ListMode};
use super::search_input::SearchInput;
use super::selection::{
    next_of, previous_of, select_first, select_last, select_next, select_previous,
};
use super::sequence_input::{
    attempted, is_stale, resolution_of, text_of, KeyOutcome, Resolution, SequenceInputController,
};
use crate::entry::order::in_listing_order;
use crate::entry::{filtered, Entry, EntryList, EntryRenderData};
use crate::hotkeys::assign::{assigned_bindings, assigned_sequence, directory_indexes, pass_length};
use crate::hotkeys::{HotkeysRegistry, KeyCombo};
use crate::text::lowercase;

verus! {

/// What is left to do outside the session after a keystroke.
#[derive(Debug, PartialEq, Eq)]
pub enum Effect {
    Nothing,
    /// Change into the directory at this path.
    ChangeDirectory(String),
    /// Change into the parent of the current directory, if it has one.
    ChangeDirectoryToParent,
    /// Show the list of this mode.
    SwitchListMode(ListMode),
}

/// An effect, with a path as its text.
pub ghost enum EffectModel {
    Nothing,
    ChangeDirectory(Seq<char>),
    ChangeDirectoryToParent,
    SwitchListMode(ListMode),
}

impl View for Effect {
    type V = EffectModel;

    open spec fn view(&self) -> EffectModel {
        match self {
            Effect::Nothing => EffectModel::Nothing,
            Effect::ChangeDirectory(path) => EffectModel::ChangeDirectory(path@),
            Effect::ChangeDirectoryToParent => EffectModel::ChangeDirectoryToParent,
            Effect::SwitchListMode(mode) => EffectModel::SwitchListMode(*mode),
        }
    }
}

/// The state of the session.
#[derive(Debug)]
pub struct App {
    /// Whether the session is over.
    pub should_exit: bool,
    pub list_mode: ListMode,
    /// The entries of the list.
    pub entry_list: EntryList,
    /// The place, among the entries shown, of the selected one.
    pub selected: Option<usize>,
    /// The directory that the user is in.
    pub current_directory: String,
    /// Whether the help is shown.
    pub show_help: bool,
    pub input_mode: InputMode,
    pub search_input: SearchInput,
    /// The keystrokes of a sequence that is not complete yet.
    pub key_input: SequenceInputController,
    pub hotkeys_registry: HotkeysRegistry<InputMode, Action>,
}

/// What a keystroke can change of the session, and what its outcome
/// depends on.
pub ghost struct AppModel {
    pub should_exit: bool,
    pub list_mode: ListMode,
    pub selected: Option<usize>,
    pub show_help: bool,
    pub input_mode: InputMode,
    pub search: Seq<char>,
    pub filter: Option<Seq<usize>>,
}

/// The filter that the search text `search` sets on entries named `names`.
pub open spec fn filter_of(names: Seq<Seq<char>>, search: Seq<char>) -> Option<Seq<usize>> {
    if lowercase(search).len() == 0 {
        None
    } else {
        Some(filtered(names, lowercase(search), names.len() as int))
    }
}

/// The places of the entries shown, of `count` entries under `filter`.
pub open spec fn shown_of(count: nat, filter: Option<Seq<usize>>) -> Seq<usize> {
    match filter {
        Some(indices) => indices,
        None => Seq::new(count, |i: int| i as usize),
    }
}

/// The state after the list was filtered again: no entry is selected.
pub open spec fn refiltered(names: Seq<Seq<char>>, model: AppModel) -> AppModel {
    AppModel { filter: filter_of(names, model.search), selected: None, ..model }
}

/// The state after the search box was emptied and the list filtered again.
pub open spec fn search_reset(names: Seq<Seq<char>>, model: AppModel) -> AppModel {
    refiltered(names, AppModel { search: Seq::empty(), ..model })
}

/// As much of `typed` as the search box takes after `search`.
pub open spec fn taken(search: Seq<char>, typed: Seq<char>) -> Seq<char> {
    if search.len() + typed.len() <= usize::MAX {
        typed
    } else if search.len() >= usize::MAX {
        Seq::empty()
    } else {
        typed.take(usize::MAX - search.len())
    }
}

/// The state after buffered keystrokes were handed to the search box as
/// the text `typed`.
pub open spec fn typed_into(
    names: Seq<Seq<char>>,
    model: AppModel,
    typed: Seq<char>,
    flushed: bool,
) -> AppModel {
    if flushed {
        refiltered(names, AppModel { search: model.search + taken(model.search, typed), ..model })
    } else {
        model
    }
}

/// The state and the effect after the entry at place `index` of the list
/// was opened: a directory is changed into, a file ends the session, and a
/// place without entry changes nothing.
pub open spec fn opened(entries: Seq<Entry>, model: AppModel, index: usize) -> (
    AppModel,
    EffectModel,
) {
    let shown = shown_of(entries.len(), model.filter);
    if index < shown.len() {
        let entry = entries[shown[index as int] as int];
        if entry.kind is Directory {
            (model, EffectModel::ChangeDirectory(entry.path@))
        } else {
            (AppModel { should_exit: true, ..model }, EffectModel::Nothing)
        }
    } else {
        (model, EffectModel::Nothing)
    }
}

/// The place that counts as selected where an entry is to be opened.
pub open spec fn selected_or_first(selected: Option<usize>) -> usize {
    match selected {
        Some(i) => i,
        None => 0,
    }
}

/// The names of entries.
pub open spec fn names_of(entries: Seq<Entry>) -> Seq<Seq<char>> {
    Seq::new(entries.len(), |i: int| entries[i].name@)
}

/// What `action` does in normal mode.
pub open spec fn applied_in_normal_mode(entries: Seq<Entry>, model: AppModel, action: Action) -> (
    AppModel,
    EffectModel,
) {
    let names = names_of(entries);
    let quiet = AppModel { show_help: false, ..model };
    match action {
        Action::SelectNext => (
            AppModel { selected: next_of(model.selected), ..quiet },
            EffectModel::Nothing,
        ),
        Action::SelectPrevious => (
            AppModel { selected: previous_of(model.selected), ..quiet },
            EffectModel::Nothing,
        ),
        Action::SelectFirst => (AppModel { selected: Some(0), ..quiet }, EffectModel::Nothing),
        Action::SelectLast => (
            AppModel { selected: Some(usize::MAX), ..quiet },
            EffectModel::Nothing,
        ),
        Action::SwitchToListMode(mode) => if model.list_mode == mode {
            (quiet, EffectModel::Nothing)
        } else {
            (AppModel { list_mode: mode, ..quiet }, EffectModel::SwitchListMode(mode))
        },
        Action::ToggleHelp => (
            AppModel { show_help: !model.show_help, ..model },
            EffectModel::Nothing,
        ),
        Action::SwitchToInputMode(mode) => (
            search_reset(names, AppModel { input_mode: mode, ..quiet }),
            EffectModel::Nothing,
        ),
        Action::ResetSearchInput => (search_reset(names, model), EffectModel::Nothing),
        Action::ChangeDirectoryToSelectedEntry => opened(
            entries,
            quiet,
            selected_or_first(model.selected),
        ),
        Action::ChangeDirectoryToParent => (quiet, EffectModel::ChangeDirectoryToParent),
        Action::ChangeDirectoryToEntryWithIndex(index) => opened(entries, quiet, index),
        Action::Exit => if model.show_help {
            (quiet, EffectModel::Nothing)
        } else if model.search.len() == 0 {
            (AppModel { should_exit: true, ..model }, EffectModel::Nothing)
        } else {
            (search_reset(names, model), EffectModel::Nothing)
        },
        _ => (model, EffectModel::Nothing),
    }
}

/// What `action` does in search mode.
pub open spec fn applied_in_search_mode(entries: Seq<Entry>, model: AppModel, action: Action) -> (
    AppModel,
    EffectModel,
) {
    let names = names_of(entries);
    match action {
        Action::ChangeDirectoryToEntryWithIndex(index) => {
            let (after, effect) = opened(entries, model, index);
            (AppModel { input_mode: InputMode::Normal, search: Seq::empty(), ..after }, effect)
        },
        Action::SearchInputBackspace => if model.search.len() > 0 {
            (
                refiltered(names, AppModel { search: model.search.drop_last(), ..model }),
                EffectModel::Nothing,
            )
        } else {
            (AppModel { input_mode: InputMode::Normal, ..model }, EffectModel::Nothing)
        },
        Action::SelectNext => (
            AppModel { selected: next_of(model.selected), ..model },
            EffectModel::Nothing,
        ),
        Action::SelectPrevious => (
            AppModel { selected: previous_of(model.selected), ..model },
            EffectModel::Nothing,
        ),
        Action::ExitSearchInput => (
            AppModel { input_mode: InputMode::Normal, ..model },
            EffectModel::Nothing,
        ),
        Action::ExitSearchMode => (
            search_reset(names, AppModel { input_mode: InputMode::Normal, ..model }),
            EffectModel::Nothing,
        ),
        Action::ChangeDirectoryToSelectedEntry => if model.filter is Some && model.filter->0.len()
            > 0 {
            opened(
                entries,
                AppModel { input_mode: InputMode::Normal, search: Seq::empty(), ..model },
                selected_or_first(model.selected),
            )
        } else {
            (model, EffectModel::Nothing)
        },
        _ => (model, EffectModel::Nothing),
    }
}

/// What `action` does in `mode`.
pub open spec fn applied(entries: Seq<Entry>, mode: InputMode, model: AppModel, action: Action) -> (
    AppModel,
    EffectModel,
) {
    match mode {
        InputMode::Normal => applied_in_normal_mode(entries, model, action),
        InputMode::Search => applied_in_search_mode(entries, model, action),
    }
}

impl View for App {
    type V = AppModel;

    open spec fn view(&self) -> AppModel {
        AppModel {
            should_exit: self.should_exit,
            list_mode: self.list_mode,
            selected: self.selected,
            show_help: self.show_help,
            input_mode: self.input_mode,
            search: self.search_input@,
            filter: match self.entry_list.filtered_indices {
                Some(indices) => Some(indices@),
                None => None,
            },
        }
    }
}

impl App {
    /// The search box counts its characters, and the filter names entries
    /// of the list only.
    pub open spec fn well_formed(self) -> bool {
        self.search_input.well_formed() && self.entry_list.well_formed()
    }

    /// What a keystroke does not touch is the same in `other`: the entries,
    /// the current directory and the registry.
    pub open spec fn same_surroundings(self, other: App) -> bool {
        &&& self.entry_list.items == other.entry_list.items
        &&& self.current_directory == other.current_directory
        &&& self.hotkeys_registry == other.hotkeys_registry
    }

    /// A session in normal mode that shows the entries `entry_list` of the
    /// directory `current_directory`, with the hotkeys `hotkeys_registry`.
    pub fn new(
        current_directory: String,
        entry_list: EntryList,
        hotkeys_registry: HotkeysRegistry<InputMode, Action>,
    ) -> (app: App)
        requires
            entry_list.well_formed(),
        ensures
            app.well_formed(),
            app.entry_list == entry_list,
            app.current_directory == current_directory,
            app.hotkeys_registry == hotkeys_registry,
            app@ == (AppModel {
                should_exit: false,
                list_mode: ListMode::Directory,
                selected: None,
                show_help: false,
                input_mode: InputMode::Normal,
                search: Seq::empty(),
                filter: match entry_list.filtered_indices {
                    Some(indices) => Some(indices@),
                    None => None,
                },
            }),
            app.key_input.collected_key_combos@.len() == 0,
            app.key_input.last_key_press_time is None,
    {
        App {
            should_exit: false,
            list_mode: ListMode::Directory,
            entry_list,
            selected: None,
            current_directory,
            show_help: false,
            input_mode: InputMode::Normal,
            search_input: SearchInput::new(),
            key_input: SequenceInputController::new(),
            hotkeys_registry,
        }
    }

    /// Shows the entries `items` of the directory `path`, which was changed
    /// into, in the order of a listing: nothing is selected, the search box
    /// is empty, all entries are let through, and the session goes on.
    pub fn change_directory(&mut self, path: String, items: Vec<Entry>)
        ensures
            final(self).entry_list.items@.to_multiset() == items@.to_multiset(),
            in_listing_order(final(self).entry_list.items@),
            final(self).current_directory == path,
            final(self)@ == (AppModel {
                should_exit: false,
                list_mode: ListMode::Directory,
                selected: None,
                search: Seq::empty(),
                filter: None,
                ..old(self)@
            }),
            final(self).hotkeys_registry == old(self).hotkeys_registry,
            final(self).key_input == old(self).key_input,
            final(self).well_formed(),
    {
        self.selected = None;
        self.should_exit = false;
        self.list_mode = ListMode::Directory;
        self.entry_list = EntryList::sorted(items);
        self.current_directory = path;
        self.search_input.clear();
    }

    /// Shows the entries `items`, the most visited paths in their order,
    /// while the user is in the directory `path`: nothing is selected, the
    /// search box is empty, all entries are let through, and the session
    /// goes on.
    pub fn change_to_frecent(&mut self, path: String, items: Vec<Entry>)
        ensures
            final(self).entry_list.items == items,
            final(self).current_directory == path,
            final(self)@ == (AppModel {
                should_exit: false,
                list_mode: ListMode::Frecent,
                selected: None,
                search: Seq::empty(),
                filter: None,
                ..old(self)@
            }),
            final(self).hotkeys_registry == old(self).hotkeys_registry,
            final(self).key_input == old(self).key_input,
            final(self).well_formed(),
    {
        self.selected = None;
        self.should_exit = false;
        self.list_mode = ListMode::Frecent;
        self.entry_list = EntryList::new(items);
        self.current_directory = path;
        self.search_input.clear();
    }

    /// Filters the list by the text of the search box; no entry is selected
    /// afterwards.
    pub fn update_filtered_indices(&mut self)
        ensures
            final(self)@ == refiltered(names_of(old(self).entry_list.items@), old(self)@),
            final(self).same_surroundings(*old(self)),
            final(self).key_input == old(self).key_input,
            final(self).search_input == old(self).search_input,
            final(self).entry_list.well_formed(),
    {
        proof {
            assert(self.entry_list.names() =~= names_of(self.entry_list.items@));
        }
        self.entry_list.update_filtered_indices(self.search_input.as_str());
        self.selected = None;
    }

    /// Opens the entry at place `index` of the list as it is shown.
    fn change_directory_to_entry_index(&mut self, index: usize) -> (effect: Effect)
        requires
            old(self).well_formed(),
        ensures
            (final(self)@, effect@) == opened(old(self).entry_list.items@, old(self)@, index),
            final(self).same_surroundings(*old(self)),
            final(self).key_input == old(self).key_input,
            final(self).search_input == old(self).search_input,
            final(self).entry_list == old(self).entry_list,
    {
        let place = match &self.entry_list.filtered_indices {
            Some(indices) => if index < indices.len() {
                Some(indices[index])
            } else {
                None
            },
            None => if index < self.entry_list.items.len() {
                Some(index)
            } else {
                None
            },
        };
        match place {
            Some(at) => {
                proof {
                    assert(self.entry_list.shown()[index as int] == at);
                    assert(at < self.entry_list.items@.len());
                }
                if self.entry_list.items[at].kind.is_directory() {
                    Effect::ChangeDirectory(self.entry_list.items[at].path.clone())
                } else {
                    self.should_exit = true;
                    Effect::Nothing
                }
            },
            None => Effect::Nothing,
        }
    }

    /// Hands the text `typed` to the search box, as far as it takes it.
    fn type_text(&mut self, typed: &Vec<char>)
        requires
            old(self).search_input.well_formed(),
        ensures
            final(self).search_input@ == old(self).search_input@ + taken(
                old(self).search_input@,
                typed@,
            ),
            final(self).search_input.well_formed(),
            final(self).same_surroundings(*old(self)),
            final(self).entry_list == old(self).entry_list,
            final(self).key_input == old(self).key_input,
            final(self)@ == (AppModel { search: final(self).search_input@, ..old(self)@ }),
    {
        let mut i: usize = 0;
        proof {
            assert(self.search_input@ + typed@.take(0) =~= self.search_input@);
        }
        while i < typed.len() && self.search_input.index < usize::MAX
            invariant
                i <= typed@.len(),
                self.search_input.well_formed(),
                self.search_input@ == old(self).search_input@ + typed@.take(i as int),
                self.same_surroundings(*old(self)),
                self.entry_list == old(self).entry_list,
                self.key_input == old(self).key_input,
                self@ == (AppModel { search: self.search_input@, ..old(self)@ }),
            decreases typed@.len() - i,
        {
            self.search_input.push(typed[i]);
            proof {
                assert(typed@.take(i as int).push(typed@[i as int]) =~= typed@.take(i + 1));
                assert((old(self).search_input@ + typed@.take(i as int)).push(typed@[i as int])
                    =~= old(self).search_input@ + typed@.take(i + 1));
            }
            i += 1;
        }
        proof {
            let search = old(self).search_input@;
            if i == typed@.len() {
                assert(typed@.take(i as int) =~= typed@);
            } else {
                assert(search.len() + i == usize::MAX);
                if search.len() >= usize::MAX {
                    assert(typed@.take(0) =~= Seq::<char>::empty());
                }
            }
        }
    }

    /// Runs `action` as normal mode does.
    fn apply_in_normal_mode(&mut self, action: Action) -> (effect: Effect)
        requires
            old(self).well_formed(),
        ensures
            (final(self)@, effect@) == applied_in_normal_mode(
                old(self).entry_list.items@,
                old(self)@,
                action,
            ),
            final(self).same_surroundings(*old(self)),
            final(self).key_input == old(self).key_input,
            final(self).well_formed(),
    {
        match action {
            Action::SelectNext => {
                self.show_help = false;
                self.selected = select_next(self.selected);
                Effect::Nothing
            },
            Action::SelectPrevious => {
                self.show_help = false;
                self.selected = select_previous(self.selected);
                Effect::Nothing
            },
            Action::SelectFirst => {
                self.show_help = false;
                self.selected = select_first(self.selected);
                Effect::Nothing
            },
            Action::SelectLast => {
                self.show_help = false;
                self.selected = select_last(self.selected);
                Effect::Nothing
            },
            Action::SwitchToListMode(mode) => {
                self.show_help = false;
                if self.list_mode == mode {
                    Effect::Nothing
                } else {
                    self.list_mode = mode;
                    Effect::SwitchListMode(mode)
                }
            },
            Action::ToggleHelp => {
                self.show_help = !self.show_help;
                Effect::Nothing
            },
            Action::SwitchToInputMode(mode) => {
                self.show_help = false;
                self.input_mode = mode;
                self.search_input.clear();
                self.update_filtered_indices();
                Effect::Nothing
            },
            Action::ResetSearchInput => {
                self.search_input.clear();
                self.update_filtered_indices();
                Effect::Nothing
            },
            Action::ChangeDirectoryToSelectedEntry => {
                self.show_help = false;
                let index = match self.selected {
                    Some(i) => i,
                    None => 0,
                };
                self.change_directory_to_entry_index(index)
            },
            Action::ChangeDirectoryToParent => {
                self.show_help = false;
                Effect::ChangeDirectoryToParent
            },
            Action::ChangeDirectoryToEntryWithIndex(index) => {
                self.show_help = false;
                self.change_directory_to_entry_index(index)
            },
            Action::Exit => {
                if self.show_help {
                    self.show_help = false;
                } else if self.search_input.is_empty() {
                    self.should_exit = true;
                } else {
                    self.search_input.clear();
                    self.update_filtered_indices();
                }
                Effect::Nothing
            },
            _ => Effect::Nothing,
        }
    }

    /// Runs `action` as search mode does.
    fn apply_in_search_mode(&mut self, action: Action) -> (effect: Effect)
        requires
            old(self).well_formed(),
        ensures
            (final(self)@, effect@) == applied_in_search_mode(
                old(self).entry_list.items@,
                old(self)@,
                action,
            ),
            final(self).same_surroundings(*old(self)),
            final(self).key_input == old(self).key_input,
            final(self).well_formed(),
    {
        match action {
            Action::ChangeDirectoryToEntryWithIndex(index) => {
                let effect = self.change_directory_to_entry_index(index);
                self.input_mode = InputMode::Normal;
                self.search_input.clear();
                effect
            },
            Action::SearchInputBackspace => {
                if self.search_input.index > 0 {
                    self.search_input.pop();
                    self.update_filtered_indices();
                } else {
                    self.input_mode = InputMode::Normal;
                }
                Effect::Nothing
            },
            Action::SelectNext => {
                self.selected = select_next(self.selected);
                Effect::Nothing
            },
            Action::SelectPrevious => {
                self.selected = select_previous(self.selected);
                Effect::Nothing
            },
            Action::ExitSearchInput => {
                self.input_mode = InputMode::Normal;
                Effect::Nothing
            },
            Action::ExitSearchMode => {
                self.input_mode = InputMode::Normal;
                self.search_input.clear();
                self.update_filtered_indices();
                Effect::Nothing
            },
            Action::ChangeDirectoryToSelectedEntry => {
                let any_shown = match &self.entry_list.filtered_indices {
                    Some(indices) => indices.len() > 0,
                    None => false,
                };
                if any_shown {
                    self.input_mode = InputMode::Normal;
                    self.search_input.clear();
                    let index = match self.selected {
                        Some(i) => i,
                        None => 0,
                    };
                    self.change_directory_to_entry_index(index)
                } else {
                    Effect::Nothing
                }
            },
            _ => Effect::Nothing,
        }
    }

    /// Takes the keystroke `key`, pressed at `now` milliseconds.
    ///
    /// The keystroke joins the buffered ones and the buffer is looked up in
    /// the registry, in the context of the input mode. In search mode the
    /// characters of a stale buffer and of a buffer that leads nowhere go
    /// into the search box, and the list is filtered again. An action that
    /// the buffer is bound to is run once, as the input mode runs it.
    pub fn handle_key_event(&mut self, key: KeyCombo, now: u64) -> (effect: Effect)
        requires
            old(self).well_formed(),
        ensures
            final(self).well_formed(),
            final(self).same_surroundings(*old(self)),
            final(self).key_input.collected_key_combos@ == (if resolution_of(
                old(self).hotkeys_registry,
                old(self).input_mode,
                attempted(
                    old(self).key_input.collected_key_combos@,
                    old(self).key_input.last_key_press_time,
                    key,
                    now,
                ),
            ) == Resolution::Pending {
                attempted(
                    old(self).key_input.collected_key_combos@,
                    old(self).key_input.last_key_press_time,
                    key,
                    now,
                )
            } else {
                Seq::empty()
            }),
            final(self).key_input.last_key_press_time == (if resolution_of(
                old(self).hotkeys_registry,
                old(self).input_mode,
                attempted(
                    old(self).key_input.collected_key_combos@,
                    old(self).key_input.last_key_press_time,
                    key,
                    now,
                ),
            ) == Resolution::Pending {
                Some(now)
            } else {
                None
            }),
            (final(self)@, effect@) == ({
                let resolution = resolution_of(
                    old(self).hotkeys_registry,
                    old(self).input_mode,
                    attempted(
                        old(self).key_input.collected_key_combos@,
                        old(self).key_input.last_key_press_time,
                        key,
                        now,
                    ),
                );
                let typed = text_of(
                    old(self).hotkeys_registry,
                    old(self).input_mode,
                    old(self).key_input.collected_key_combos@,
                    old(self).key_input.last_key_press_time,
                    key,
                    now,
                );
                let flushed = old(self).input_mode == InputMode::Search && (is_stale(
                    old(self).key_input.last_key_press_time,
                    now,
                ) || resolution == Resolution::Unbound);
                let after_text = typed_into(
                    names_of(old(self).entry_list.items@),
                    old(self)@,
                    typed,
                    flushed,
                );
                match resolution {
                    Resolution::Execute(action) => applied(
                        old(self).entry_list.items@,
                        old(self).input_mode,
                        after_text,
                        action,
                    ),
                    _ => (after_text, EffectModel::Nothing),
                }
            }),
    {
        let mode = self.input_mode;
        let outcome = self.key_input.press(&self.hotkeys_registry, mode, key, now);
        if outcome.flushed {
            self.type_text(&outcome.typed);
            self.update_filtered_indices();
        }
        match outcome.resolution {
            Resolution::Execute(action) => match mode {
                InputMode::Normal => self.apply_in_normal_mode(action),
                InputMode::Search => self.apply_in_search_mode(action),
            },
            _ => Effect::Nothing,
        }
    }

    /// The line under the header: the current directory, or what the list
    /// of the most visited paths is called.
    pub fn get_sub_header_title(&self) -> (title: String)
        ensures
            title@ == (match self.list_mode {
                ListMode::Directory => self.current_directory@,
                ListMode::Frecent => "Most accessed paths"@,
            }),
    {
        match self.list_mode {
            ListMode::Directory => self.current_directory.clone(),
            ListMode::Frecent => "Most accessed paths".to_owned(),
        }
    }

    /// Selects the first entry where entries are shown and none is
    /// selected, as drawing the list does.
    pub fn preselect_first(&mut self)
        ensures
            final(self).selected == (if old(self).entry_list.shown().len() > 0 && old(
                self,
            ).selected is None {
                Some(0usize)
            } else {
                old(self).selected
            }),
            final(self)@ == (AppModel { selected: final(self).selected, ..old(self)@ }),
            final(self).same_surroundings(*old(self)),
            final(self).entry_list == old(self).entry_list,
            final(self).search_input == old(self).search_input,
            final(self).key_input == old(self).key_input,
    {
        if self.entry_list.shown_len() > 0 && self.selected.is_none() {
            self.selected = select_first(self.selected);
        }
    }
}

/// Whether shortcuts are assigned in a pass: in normal mode, and in search
/// mode once the search box holds text.
pub open spec fn with_shortcuts(mode: InputMode, search: Seq<char>) -> bool {
    mode == InputMode::Normal || search.len() > 0
}

/// The entries drawn, each without a sequence.
pub open spec fn unassigned<'a>(rendered: Seq<EntryRenderData<'a>>) -> Seq<EntryRenderData<'a>> {
    Seq::new(rendered.len(), |k: int| rendered[k].unassigned())
}

/// What is drawn of the entries shown, with the shortcuts of this pass.
///
/// Each entry shown is drawn as the text `search` of the search box cuts
/// its name. Where the pass has shortcuts, they are assigned to the entries
/// drawn and registered in the entry tier; in search mode with an empty
/// search box the entry tier is emptied and no entry has a shortcut.
pub fn render_entries<'a>(
    entry_list: &'a EntryList,
    search: &str,
    mode: InputMode,
    registry: &mut HotkeysRegistry<InputMode, Action>,
    pool: &[KeyCombo],
) -> (rendered: Vec<EntryRenderData<'a>>)
    requires
        entry_list.well_formed(),
    ensures
        rendered@.len() == entry_list.shown().len(),
        forall|k: int|
            0 <= k < rendered@.len() ==> (#[trigger] rendered@[k]).shows(
                entry_list.items@[entry_list.shown()[k] as int],
                search@,
            ),
        forall|k: int|
            0 <= k < rendered@.len() ==> (#[trigger] rendered@[k]).sequence() == (
            if with_shortcuts(mode, search@) {
                assigned_sequence(unassigned(rendered@), pool@, k)
            } else {
                None
            }),
        final(registry).entry_hotkeys@ == (if with_shortcuts(mode, search@) {
            assigned_bindings(unassigned(rendered@), pool@)
        } else {
            Map::empty()
        }),
        final(registry).entry_hotkeys_count == (if with_shortcuts(mode, search@) && pass_length(
            unassigned(rendered@),
            pool@,
        ) is Some {
            directory_indexes(unassigned(rendered@)).len()
        } else {
            0
        }),
        final(registry).entry_hotkeys.well_formed(),
        final(registry).system_hotkeys == old(registry).system_hotkeys,
        final(registry).system_hotkeys_count == old(registry).system_hotkeys_count,
{
    let entries = entry_list.get_filtered_entries();
    let mut rendered: Vec<EntryRenderData<'a>> = Vec::new();
    let mut k: usize = 0;
    while k < entries.len()
        invariant
            k <= entries@.len(),
            entries@.len() == entry_list.shown().len(),
            forall|j: int|
                0 <= j < entries@.len() ==> *(#[trigger] entries@[j]) == entry_list.items@[entry_list.shown()[j] as int],
            rendered@.len() == k,
            forall|j: int| 0 <= j < k ==> (#[trigger] rendered@[j]).key_combo_sequence is None,
            forall|j: int|
                0 <= j < k ==> (#[trigger] rendered@[j]).shows(
                    entry_list.items@[entry_list.shown()[j] as int],
                    search@,
                ),
        decreases entries@.len() - k,
    {
        rendered.push(EntryRenderData::from_entry(entries[k], search));
        k += 1;
    }
    let ghost plain = rendered@;
    proof {
        assert(unassigned(plain) =~= plain);
    }
    let shortcuts = match mode {
        InputMode::Normal => true,
        InputMode::Search => !search.is_empty(),
    };
    if shortcuts {
        registry.assign_hotkeys(rendered.as_mut_slice(), pool);
        proof {
            assert(unassigned(rendered@) =~= plain) by {
                assert forall|j: int| 0 <= j < plain.len() implies (
                #[trigger] rendered@[j]).unassigned() == plain[j] by {
                    assert(rendered@[j].same_entry(plain[j]));
                }
            }
            assert forall|j: int| 0 <= j < rendered@.len() implies (#[trigger] rendered@[j]).shows(
                entry_list.items@[entry_list.shown()[j] as int],
                search@,
            ) by {
                assert(rendered@[j].same_entry(plain[j]));
                assert(plain[j].shows(entry_list.items@[entry_list.shown()[j] as int], search@));
            }
        }
    } else {
        registry.clear_entry_hotkeys();
        proof {
            assert forall|j: int| 0 <= j < rendered@.len() implies (
            #[trigger] rendered@[j]).sequence() is None by {
                assert(rendered@[j].key_combo_sequence is None);
            }
        }
    }
    rendered
}

} // verus!

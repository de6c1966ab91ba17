//! What keys do: commands, and the dialogs for directories, filters and times.

use vstd::prelude::*;

use crate::app;
use crate::app::{Action, ActionView, App, AppView, InputMode, ScanReason, ScanReasonView, Step};
use crate::browse;
use crate::complete;
use crate::complete::{Completion, CompletionView};
use crate::editor::{EditorView, Key, KeyPress, LineEditor};
use crate::encoding;
use crate::library;
use crate::library::{FoundView, Listing};
use crate::paths;
use crate::playback;
use crate::player;
use crate::player::{Command, CommandView, Output, PlayerView};
use crate::storage::UiStateView;
use crate::text;
use crate::time;
use crate::time::Duration;
use crate::ui;

verus! {

/// What was found out about a path: that it is no directory, that it could not be resolved, or
/// where it really is.
#[derive(Debug)]
pub enum DirectoryProbe {
    NotADirectory,
    Unresolved,
    Resolved(Vec<u8>),
}

/// A directory that could not be resolved.
#[derive(Debug)]
pub struct CannotResolve {
    pub path: Vec<u8>,
}

impl CannotResolve {
    /// The message for the error.
    pub fn message(&self) -> (message: String)
        ensures
            message@ == "failed to canonicalize "@ + encoding::lossy(self.path@),
    {
        text::concat2("failed to canonicalize ", encoding::lossy_text(&self.path).as_str())
    }
}

/// A change of place that was asked for: to a place, or by some time forward or back.
#[derive(Clone, Copy, Debug)]
pub enum SeekRequest {
    To(Duration),
    Forward(Duration),
    Back(Duration),
}

#[verifier::ext_equal]
pub enum SeekRequestView {
    To(nat),
    Forward(nat),
    Back(nat),
}

impl View for SeekRequest {
    type V = SeekRequestView;

    open spec fn view(&self) -> SeekRequestView {
        match self {
            SeekRequest::To(d) => SeekRequestView::To(d@),
            SeekRequest::Forward(d) => SeekRequestView::Forward(d@),
            SeekRequest::Back(d) => SeekRequestView::Back(d@),
        }
    }
}

/// The change of place that a text asks for: `1m` means a place, `-30s` some time back and `+30s`
/// some time forward.
pub open spec fn seek_request(line: Seq<char>) -> Option<SeekRequestView> {
    let trimmed = text::trim(line);
    if trimmed.len() > 0 && trimmed[0] == '-' {
        match time::notation_seconds(trimmed.skip(1)) {
            Some(secs) => Some(SeekRequestView::Back(playback::seconds(secs))),
            None => None,
        }
    } else if trimmed.len() > 0 && trimmed[0] == '+' {
        match time::notation_seconds(trimmed.skip(1)) {
            Some(secs) => Some(SeekRequestView::Forward(playback::seconds(secs))),
            None => None,
        }
    } else {
        match time::notation_seconds(trimmed) {
            Some(secs) => Some(SeekRequestView::To(playback::seconds(secs))),
            None => None,
        }
    }
}

/// Reads a change of place.
pub fn parse_seek(line: &Vec<char>) -> (request: Option<SeekRequest>)
    ensures
        match request {
            Some(r) => seek_request(line@) == Some(r@),
            None => seek_request(line@) is None,
        },
{
    let trimmed = text::trim_chars(line);
    if trimmed.len() > 0 && (trimmed[0] == '-' || trimmed[0] == '+') {
        let rest = text::slice_chars(&trimmed, 1, trimmed.len());
        assert(rest@ =~= trimmed@.skip(1));
        return match time::parse_duration(text::string_of(&rest).as_str()) {
            Some(span) => if trimmed[0] == '-' {
                Some(SeekRequest::Back(span))
            } else {
                Some(SeekRequest::Forward(span))
            },
            None => None,
        };
    }
    match time::parse_duration(text::string_of(&trimmed).as_str()) {
        Some(span) => Some(SeekRequest::To(span)),
        None => None,
    }
}

impl PlayerView {
    /// What the sound output is told for a change of place.
    pub open spec fn seek_as(self, request: SeekRequestView, reported: nat) -> Option<CommandView> {
        match request {
            SeekRequestView::To(place) => self.seek(place),
            SeekRequestView::Forward(span) => self.seek_by(span, true, reported),
            SeekRequestView::Back(span) => self.seek_by(span, false, reported),
        }
    }
}

/// The bytes of what a probe resolved a path to.
pub open spec fn resolved_path(probe: DirectoryProbe) -> Option<Seq<u8>> {
    match probe {
        DirectoryProbe::Resolved(path) => Some(path@),
        _ => None,
    }
}

/// The paths of an optional list.
pub open spec fn optional_paths(list: Option<Vec<Vec<u8>>>) -> Option<Seq<Seq<u8>>> {
    match list {
        Some(l) => Some(paths::byte_views(l@)),
        None => None,
    }
}

impl AppView {
    /// A dialog is opened, with a line to begin with.
    pub open spec fn asking(self, mode: InputMode, line: Seq<char>) -> Step {
        (AppView {
            input_mode: mode,
            editor: EditorView::holding(line),
            status: ""@,
            ..self
        }).unchanged()
    }

    /// The selection moves some items down, or up.
    pub open spec fn selection_moved(self, delta: int) -> Step {
        let places = browse::item_places(self.rows());
        let app = AppView { selected: browse::moved(places, self.selected, delta), ..self };
        if places.len() == 0 {
            app.unchanged()
        } else {
            Step { app: app.remembering(), actions: seq![ActionView::TrySaveUiState] }
        }
    }

    /// The next sort mode is used; the selected item stays selected.
    pub open spec fn sort_cycled(self) -> Step {
        let mode = self.ui_state.sort_mode.following();
        let sorted = AppView {
            ui_state: UiStateView { sort_mode: mode, ..self.ui_state },
            ..self
        };
        Step {
            app: AppView {
                status: "Sort mode: "@ + mode.title(),
                ..sorted.refreshed(self.selected_key())
            },
            actions: seq![ActionView::SaveUiState],
        }
    }

    /// The library directory that the selected item lies under is removed.
    pub open spec fn root_removed(self) -> Step {
        match self.selected_root() {
            None => self.saying("Select a file to remove its library root."@),
            Some(root) => Step {
                app: AppView { config: self.config.without_dir(root), ..self },
                actions: seq![
                    ActionView::SaveConfig,
                    ActionView::Rescan(ScanReasonView::Removed(root)),
                ],
            },
        }
    }

    /// The filter becomes what is typed; the selected item stays selected.
    pub open spec fn filtered(self) -> AppView {
        (AppView { filter: text::trim(self.editor.line), ..self }).refreshed(self.selected_key())
    }

    /// A directory was typed.
    pub open spec fn directory_entered(self) -> Step {
        let trimmed = text::trim(self.editor.line);
        if trimmed.len() == 0 {
            self.saying("Directory path is empty."@)
        } else {
            Step {
                app: self,
                actions: seq![
                    ActionView::ProbeDirectory { path: complete::expanded(trimmed, self.home) },
                ],
            }
        }
    }

    /// What was typed turned out to be a directory, or not.
    pub open spec fn directory_probed(self, path: Seq<u8>, resolved: Option<Seq<u8>>) -> Step {
        match resolved {
            None => self.saying("Not a directory: "@ + encoding::lossy(path)),
            Some(real_path) => {
                let dir = encoding::lossy(real_path);
                if self.config.library_dirs.contains(dir) {
                    self.saying("Directory already exists in the library."@)
                } else {
                    Step {
                        app: AppView { config: self.config.with_dir(dir), ..self },
                        actions: seq![
                            ActionView::SaveConfig,
                            ActionView::Rescan(ScanReasonView::Added(dir)),
                        ],
                    }
                }
            },
        }
    }

    /// The directories that a path may be completed to were found, or could not be read.
    pub open spec fn completion_found(
        self,
        dir: Seq<u8>,
        prefix: Seq<char>,
        directories: Option<Seq<Seq<u8>>>,
    ) -> AppView {
        match directories {
            None => AppView { status: "Cannot read "@ + encoding::lossy(dir), ..self },
            Some(list) => match complete::completed(
                complete::candidates(list, prefix),
                self.home,
            ) {
                CompletionView::Unchanged { matches } => AppView {
                    status: if matches == 0 {
                        "No matching directories."@
                    } else {
                        text::decimal(matches) + " directory matches."@
                    },
                    ..self
                },
                CompletionView::Typed { text: line, matches } => AppView {
                    editor: EditorView::holding(line),
                    status: if matches == 1 {
                        "Completed "@ + line
                    } else {
                        text::decimal(matches) + " matches"@
                    },
                    ..self
                },
            },
        }
    }

    /// The library was scanned.
    pub open spec fn rescanned(self, files: Seq<FoundView>, reason: ScanReasonView) -> Step {
        let scanned = (AppView {
            items: library::scanned_items(files, self.cache),
            cache: library::scanned_cache(files, self.cache),
            ..self
        }).refreshed(self.selected_key()).remembering();
        let app = match reason {
            ScanReasonView::Asked => AppView {
                status: "Scanned "@ + text::decimal(scanned.items.len())
                    + " audiobook files across "@ + text::decimal(
                    scanned.config.library_dirs.len(),
                ) + " roots."@,
                ..scanned
            },
            ScanReasonView::Added(dir) => AppView {
                status: "Added "@ + dir,
                editor: EditorView::holding(seq![]),
                ..scanned
            },
            ScanReasonView::Removed(dir) => AppView { status: "Removed root "@ + dir, ..scanned },
        };
        Step { app, actions: seq![ActionView::SaveLibraryCache, ActionView::SaveUiState] }
    }

    /// A change of place was typed.
    pub open spec fn seek_entered(self, reported: nat) -> Step {
        let closed = AppView { input_mode: InputMode::Normal, ..self };
        match seek_request(self.editor.line) {
            None => closed.saying("Invalid seek time."@),
            Some(request) => match self.player.seek_as(request, reported) {
                Some(CommandView::Seek(place)) => {
                    let step = closed.seeking(Some(CommandView::Seek(place)), reported);
                    Step {
                        app: AppView { status: "Seeked to "@ + ui::clock(place), ..step.app },
                        ..step
                    }
                },
                _ => closed.saying("Nothing is playing."@),
            },
        }
    }

    /// A time for the sleep timer was typed.
    pub open spec fn sleep_entered(self) -> Step {
        let closed = AppView { input_mode: InputMode::Normal, ..self };
        match time::notation_seconds(self.editor.line) {
            None => closed.saying("Invalid sleep time."@),
            Some(secs) => (AppView {
                sleep_left: Some(playback::seconds(secs)),
                status: "Sleep timer set to "@ + playback::in_words(secs) + "."@,
                ..closed
            }).unchanged(),
        }
    }

    /// A key that is a command.
    pub open spec fn command_key(self, key: Key, output: Output) -> Step {
        match key {
            Key::Char('q') => Step { app: self, actions: seq![ActionView::Quit] },
            Key::Char('a') => self.asking(InputMode::AddDirectory, seq![]),
            Key::Char('/') => self.asking(InputMode::Search, self.filter),
            Key::Char('r') => Step {
                app: self,
                actions: seq![ActionView::Rescan(ScanReasonView::Asked)],
            },
            Key::Char('d') => self.root_removed(),
            Key::Char('s') => self.sort_cycled(),
            Key::Up => self.selection_moved(-1),
            Key::Char('k') => self.selection_moved(-1),
            Key::Down => self.selection_moved(1),
            Key::Char('j') => self.selection_moved(1),
            Key::PageUp => self.selection_moved(-10),
            Key::PageDown => self.selection_moved(10),
            Key::Enter => self.play_selected(),
            Key::Char(' ') => self.toggled(output),
            Key::Left => self.seek_step(false, output.position@),
            Key::Char('h') => self.seek_step(false, output.position@),
            Key::Right => self.seek_step(true, output.position@),
            Key::Char('l') => self.seek_step(true, output.position@),
            Key::Char('e') => self.asking(InputMode::SeekBy, seq![]),
            Key::Char('u') => self.undo_seek(),
            Key::Char('t') => self.asking(InputMode::SleepTimer, seq![]),
            Key::Char('b') => self.bookmark_asked(output.position@),
            Key::Char('B') => self.bookmarks_opened(),
            Key::Char('c') => self.chapter_step(false, output.position@),
            Key::Char('v') => self.chapter_step(true, output.position@),
            Key::Char('C') => self.chapters_opened(output.position@),
            Key::Char('o') => self.speed_changed(false),
            Key::Char('p') => self.speed_changed(true),
            Key::Char('-') => self.volume_set(self.next_volume(false)),
            Key::Char('=') => self.volume_set(self.next_volume(true)),
            Key::Char('+') => self.volume_set(self.next_volume(true)),
            _ => self.unchanged(),
        }
    }

    /// A key in the dialog for a directory.
    pub open spec fn directory_key(self, press: KeyPress) -> Step {
        match self.editor.edited(press) {
            Some(editor) => (AppView { editor, ..self }).unchanged(),
            None => match press.key {
                Key::Esc => (AppView { input_mode: InputMode::Normal, ..self }).saying(
                    "Directory entry canceled."@,
                ),
                Key::Enter => (AppView {
                    input_mode: InputMode::Normal,
                    ..self
                }).directory_entered(),
                Key::Tab => Step {
                    app: self,
                    actions: seq![
                        ActionView::ProbeCompletion {
                            path: complete::completion_path(self.editor.line, self.home),
                        },
                    ],
                },
                _ => self.unchanged(),
            },
        }
    }

    /// A key in the dialog for the filter.
    pub open spec fn search_key(self, press: KeyPress) -> Step {
        match self.editor.edited(press) {
            Some(editor) => (AppView { editor, ..self }).filtered().unchanged(),
            None => match press.key {
                Key::Esc => (AppView {
                    filter: ""@,
                    editor: EditorView::holding(seq![]),
                    input_mode: InputMode::Normal,
                    ..self
                }).refreshed(None).saying("Library filter cleared."@),
                Key::Enter => {
                    let app = AppView { input_mode: InputMode::Normal, ..self.filtered() };
                    app.saying(
                        if app.filter.len() == 0 {
                            "Library filter cleared."@
                        } else {
                            "Filtering library by '"@ + app.filter + "'."@
                        },
                    )
                },
                _ => self.unchanged(),
            },
        }
    }

    /// A key in the dialog for a change of place.
    pub open spec fn seek_key(self, press: KeyPress, reported: nat) -> Step {
        match self.editor.edited(press) {
            Some(editor) => (AppView { editor, ..self }).unchanged(),
            None => match press.key {
                Key::Esc => (AppView { input_mode: InputMode::Normal, ..self }).saying(
                    "Seek entry canceled."@,
                ),
                Key::Enter => self.seek_entered(reported),
                _ => self.unchanged(),
            },
        }
    }

    /// A key in the dialog for the sleep timer.
    pub open spec fn sleep_key(self, press: KeyPress) -> Step {
        match self.editor.edited(press) {
            Some(editor) => (AppView { editor, ..self }).unchanged(),
            None => match press.key {
                Key::Esc => (AppView { input_mode: InputMode::Normal, ..self }).saying(
                    "Sleep timer entry canceled."@,
                ),
                Key::Enter => self.sleep_entered(),
                _ => self.unchanged(),
            },
        }
    }

    /// A key.
    pub open spec fn key(self, press: KeyPress, output: Output, epoch: u64) -> Step {
        match self.input_mode {
            InputMode::Normal => self.command_key(press.key, output),
            InputMode::AddDirectory => self.directory_key(press),
            InputMode::Search => self.search_key(press),
            InputMode::SeekBy => self.seek_key(press, output.position@),
            InputMode::SleepTimer => self.sleep_key(press),
            InputMode::BookmarkLabel => self.bookmark_label_key(press, epoch),
            InputMode::Bookmarks => self.bookmarks_key(press.key, output.position@),
            InputMode::Chapters => self.chapters_key(press.key, output.position@),
        }
    }
}

impl App {
    /// What a key does.
    pub fn handle_key_event(&mut self, press: KeyPress, output: &Output, epoch: u64) -> (actions: Vec<
        Action,
    >)
        ensures
            old(self)@.key(press, *output, epoch) == (Step {
                app: final(self)@,
                actions: app::action_views(actions@),
            }),
    {
        match self.input_mode {
            InputMode::Normal => self.handle_normal_mode(press.key, output),
            InputMode::AddDirectory => self.handle_add_directory_mode(press),
            InputMode::Search => self.handle_search_mode(press),
            InputMode::SeekBy => self.handle_seek_mode(press, output),
            InputMode::SleepTimer => self.handle_sleep_mode(press),
            InputMode::BookmarkLabel => self.handle_bookmark_label_mode(press, epoch),
            InputMode::Bookmarks => self.handle_bookmarks_mode(press.key, output),
            InputMode::Chapters => self.handle_chapters_mode(press.key, output),
        }
    }

    /// What a key does as a command.
    pub fn handle_normal_mode(&mut self, key: Key, output: &Output) -> (actions: Vec<Action>)
        ensures
            old(self)@.command_key(key, *output) == (Step {
                app: final(self)@,
                actions: app::action_views(actions@),
            }),
    {
        match key {
            Key::Char('q') => app::one(Action::Quit),
            Key::Char('a') => {
                proof {
                    reveal_strlit("");
                    assert(""@ =~= Seq::<char>::empty());
                }
                self.begin_input(InputMode::AddDirectory, "")
            },
            Key::Char('/') => {
                let line = self.filter_query.clone();
                self.begin_input(InputMode::Search, line.as_str())
            },
            Key::Char('r') => app::one(Action::Rescan(ScanReason::Asked)),
            Key::Char('d') => self.remove_selected_root(),
            Key::Char('s') => self.cycle_sort_mode(),
            Key::Up => self.move_selection(-1),
            Key::Char('k') => self.move_selection(-1),
            Key::Down => self.move_selection(1),
            Key::Char('j') => self.move_selection(1),
            Key::PageUp => self.move_selection(-10),
            Key::PageDown => self.move_selection(10),
            Key::Enter => self.play_selected(),
            Key::Char(' ') => self.toggle_playback(output),
            Key::Left => self.seek_step(false, output),
            Key::Char('h') => self.seek_step(false, output),
            Key::Right => self.seek_step(true, output),
            Key::Char('l') => self.seek_step(true, output),
            Key::Char('e') => {
                proof {
                    reveal_strlit("");
                    assert(""@ =~= Seq::<char>::empty());
                }
                self.begin_input(InputMode::SeekBy, "")
            },
            Key::Char('u') => self.undo_seek(),
            Key::Char('t') => {
                proof {
                    reveal_strlit("");
                    assert(""@ =~= Seq::<char>::empty());
                }
                self.begin_input(InputMode::SleepTimer, "")
            },
            Key::Char('b') => self.begin_bookmark(output),
            Key::Char('B') => self.open_bookmarks(),
            Key::Char('c') => self.seek_chapter(false, output),
            Key::Char('v') => self.seek_chapter(true, output),
            Key::Char('C') => self.open_chapters(output),
            Key::Char('o') => self.adjust_speed(false),
            Key::Char('p') => self.adjust_speed(true),
            Key::Char('-') => self.adjust_volume(false),
            Key::Char('=') => self.adjust_volume(true),
            Key::Char('+') => self.adjust_volume(true),
            _ => app::nothing(),
        }
    }

    /// Opens a dialog, with a line to begin with.
    pub fn begin_input(&mut self, mode: InputMode, initial: &str) -> (actions: Vec<Action>)
        ensures
            old(self)@.asking(mode, initial@) == (Step {
                app: final(self)@,
                actions: app::action_views(actions@),
            }),
    {
        self.input_mode = mode;
        self.editor = LineEditor::holding(initial);
        self.status = "".to_owned();
        app::nothing()
    }

    /// Moves the selection some items down, or up.
    pub fn move_selection(&mut self, delta: isize) -> (actions: Vec<Action>)
        ensures
            old(self)@.selection_moved(delta as int) == (Step {
                app: final(self)@,
                actions: app::action_views(actions@),
            }),
    {
        let rows = self.visible_rows();
        let places = browse::selectable_row_indices(&rows);
        self.selected = browse::moved_selection(&places, self.selected, delta);
        if places.len() == 0 {
            return app::nothing();
        }
        self.persist_ui_state();
        app::one(Action::TrySaveUiState)
    }

    /// Uses the next sort mode; the selected item stays selected.
    pub fn cycle_sort_mode(&mut self) -> (actions: Vec<Action>)
        ensures
            old(self)@.sort_cycled() == (Step {
                app: final(self)@,
                actions: app::action_views(actions@),
            }),
    {
        let key = self.selected_key();
        self.ui_state.sort_mode = self.ui_state.sort_mode.next();
        self.refresh_selection_after_structure_change(&key);
        self.status = text::concat2("Sort mode: ", self.ui_state.sort_mode.label());
        app::one(Action::SaveUiState)
    }

    /// Removes the library directory that the selected item lies under.
    pub fn remove_selected_root(&mut self) -> (actions: Vec<Action>)
        ensures
            old(self)@.root_removed() == (Step {
                app: final(self)@,
                actions: app::action_views(actions@),
            }),
    {
        let root = match self.selected_root() {
            Some(root) => root.clone(),
            None => {
                self.status = "Select a file to remove its library root.".to_owned();
                return app::nothing();
            },
        };
        self.config.remove_dir(root.as_str());
        app::two(Action::SaveConfig, Action::Rescan(ScanReason::Removed(root)))
    }

    /// What a key does in the dialog for a directory.
    pub fn handle_add_directory_mode(&mut self, press: KeyPress) -> (actions: Vec<Action>)
        ensures
            old(self)@.directory_key(press) == (Step {
                app: final(self)@,
                actions: app::action_views(actions@),
            }),
    {
        if let Some(editor) = self.editor.handle_shared_input_key(press) {
            self.editor = editor;
            return app::nothing();
        }
        match press.key {
            Key::Esc => {
                self.input_mode = InputMode::Normal;
                self.status = "Directory entry canceled.".to_owned();
                app::nothing()
            },
            Key::Enter => {
                self.input_mode = InputMode::Normal;
                self.commit_directory()
            },
            Key::Tab => {
                let path = complete::path_to_complete(self.editor.chars(), &self.home);
                app::one(Action::ProbeCompletion { path })
            },
            _ => app::nothing(),
        }
    }

    /// Takes what is typed for a directory.
    pub fn commit_directory(&mut self) -> (actions: Vec<Action>)
        ensures
            old(self)@.directory_entered() == (Step {
                app: final(self)@,
                actions: app::action_views(actions@),
            }),
    {
        let trimmed = text::trim_chars(self.editor.chars());
        if trimmed.len() == 0 {
            self.status = "Directory path is empty.".to_owned();
            return app::nothing();
        }
        app::one(
            Action::ProbeDirectory { path: complete::expand_tilde(&trimmed, &self.home) },
        )
    }

    /// Adds what was typed to the library, if it is a directory and not yet there. A directory that
    /// cannot be resolved is an error.
    pub fn finish_commit(&mut self, path: Vec<u8>, probe: DirectoryProbe) -> (actions: Result<
        Vec<Action>,
        CannotResolve,
    >)
        ensures
            match actions {
                Ok(list) => !(probe is Unresolved) && old(self)@.directory_probed(
                    path@,
                    resolved_path(probe),
                ) == (Step { app: final(self)@, actions: app::action_views(list@) }),
                Err(error) => probe is Unresolved && error.path@ == path@ && final(self)@ == old(
                    self,
                )@,
            },
    {
        match probe {
            DirectoryProbe::NotADirectory => {
                self.status = text::concat2(
                    "Not a directory: ",
                    encoding::lossy_text(&path).as_str(),
                );
                Ok(app::nothing())
            },
            DirectoryProbe::Unresolved => Err(CannotResolve { path }),
            DirectoryProbe::Resolved(real_path) => {
                let dir = encoding::lossy_text(&real_path);
                if self.config.tracks(dir.as_str()) {
                    self.status = "Directory already exists in the library.".to_owned();
                    return Ok(app::nothing());
                }
                self.config.add_dir(dir.clone());
                Ok(app::two(Action::SaveConfig, Action::Rescan(ScanReason::Added(dir))))
            },
        }
    }

    /// Completes what is typed to the directories that were found.
    pub fn complete_directory_input(
        &mut self,
        dir: &Vec<u8>,
        prefix: &str,
        directories: &Option<Vec<Vec<u8>>>,
    )
        ensures
            final(self)@ == old(self)@.completion_found(
                dir@,
                prefix@,
                optional_paths(*directories),
            ),
    {
        let list = match directories {
            Some(list) => list,
            None => {
                self.status = text::concat2("Cannot read ", encoding::lossy_text(dir).as_str());
                return;
            },
        };
        let found = complete::matching_directories(list, prefix);
        match complete::complete(&found, &self.home) {
            Completion::Unchanged { matches } => {
                self.status = if matches == 0 {
                    "No matching directories.".to_owned()
                } else {
                    text::concat2(
                        text::decimal_text(matches as u64).as_str(),
                        " directory matches.",
                    )
                };
            },
            Completion::Typed { text: line, matches } => {
                self.editor = LineEditor::holding(line.as_str());
                self.status = if matches == 1 {
                    text::concat2("Completed ", line.as_str())
                } else {
                    text::concat2(text::decimal_text(matches as u64).as_str(), " matches")
                };
            },
        }
    }

    /// Filters by what is typed; the selected item stays selected.
    pub fn apply_filter_from_input(&mut self)
        ensures
            final(self)@ == old(self)@.filtered(),
    {
        let key = self.selected_key();
        let trimmed = text::trim_chars(self.editor.chars());
        self.filter_query = text::string_of(&trimmed);
        self.refresh_selection_after_structure_change(&key);
    }

    /// What a key does in the dialog for the filter.
    pub fn handle_search_mode(&mut self, press: KeyPress) -> (actions: Vec<Action>)
        ensures
            old(self)@.search_key(press) == (Step {
                app: final(self)@,
                actions: app::action_views(actions@),
            }),
    {
        if let Some(editor) = self.editor.handle_shared_input_key(press) {
            self.editor = editor;
            self.apply_filter_from_input();
            return app::nothing();
        }
        match press.key {
            Key::Esc => {
                self.filter_query = "".to_owned();
                self.editor = LineEditor::empty();
                self.input_mode = InputMode::Normal;
                self.refresh_selection_after_structure_change(&None);
                self.status = "Library filter cleared.".to_owned();
                app::nothing()
            },
            Key::Enter => {
                self.apply_filter_from_input();
                self.input_mode = InputMode::Normal;
                self.status = if text::chars_of(self.filter_query.as_str()).len() == 0 {
                    "Library filter cleared.".to_owned()
                } else {
                    text::concat3("Filtering library by '", self.filter_query.as_str(), "'.")
                };
                app::nothing()
            },
            _ => app::nothing(),
        }
    }

    /// Takes over a scan of the library.
    pub fn rescan_library(&mut self, listings: &Vec<Listing>, reason: &ScanReason) -> (actions: Vec<
        Action,
    >)
        ensures
            old(self)@.rescanned(library::all_files(listings@), reason@) == (Step {
                app: final(self)@,
                actions: app::action_views(actions@),
            }),
    {
        let key = self.selected_key();
        self.library_items = library::scan_library(listings, &mut self.library_cache);
        self.refresh_selection_after_structure_change(&key);
        self.persist_ui_state();
        match reason {
            ScanReason::Asked => {
                let mut status = "Scanned ".to_owned();
                text::push_decimal(&mut status, self.library_items.len() as u64);
                status.append(" audiobook files across ");
                text::push_decimal(&mut status, self.config.library_dirs.len() as u64);
                status.append(" roots.");
                self.status = status;
            },
            ScanReason::Added(dir) => {
                self.status = text::concat2("Added ", dir.as_str());
                self.editor = LineEditor::empty();
            },
            ScanReason::Removed(dir) => {
                self.status = text::concat2("Removed root ", dir.as_str());
            },
        }
        app::two(Action::SaveLibraryCache, Action::SaveUiState)
    }

    /// What a key does in the dialog for a change of place.
    pub fn handle_seek_mode(&mut self, press: KeyPress, output: &Output) -> (actions: Vec<Action>)
        ensures
            old(self)@.seek_key(press, output.position@) == (Step {
                app: final(self)@,
                actions: app::action_views(actions@),
            }),
    {
        if let Some(editor) = self.editor.handle_shared_input_key(press) {
            self.editor = editor;
            return app::nothing();
        }
        match press.key {
            Key::Esc => {
                self.input_mode = InputMode::Normal;
                self.status = "Seek entry canceled.".to_owned();
                app::nothing()
            },
            Key::Enter => self.commit_seek_input(output),
            _ => app::nothing(),
        }
    }

    /// Takes what is typed for a change of place.
    pub fn commit_seek_input(&mut self, output: &Output) -> (actions: Vec<Action>)
        ensures
            old(self)@.seek_entered(output.position@) == (Step {
                app: final(self)@,
                actions: app::action_views(actions@),
            }),
    {
        self.input_mode = InputMode::Normal;
        let request = match parse_seek(self.editor.chars()) {
            Some(request) => request,
            None => {
                self.status = "Invalid seek time.".to_owned();
                return app::nothing();
            },
        };
        let command = match request {
            SeekRequest::To(place) => self.player.seek_to(place),
            SeekRequest::Forward(span) => self.player.seek_relative(span, true, output),
            SeekRequest::Back(span) => self.player.seek_relative(span, false, output),
        };
        if let Some(Command::Seek(place)) = command {
            let actions = self.commit_seek(command, output);
            self.status = text::concat2("Seeked to ", ui::format_duration(place).as_str());
            return actions;
        }
        self.status = "Nothing is playing.".to_owned();
        app::nothing()
    }

    /// What a key does in the dialog for the sleep timer.
    pub fn handle_sleep_mode(&mut self, press: KeyPress) -> (actions: Vec<Action>)
        ensures
            old(self)@.sleep_key(press) == (Step {
                app: final(self)@,
                actions: app::action_views(actions@),
            }),
    {
        if let Some(editor) = self.editor.handle_shared_input_key(press) {
            self.editor = editor;
            return app::nothing();
        }
        match press.key {
            Key::Esc => {
                self.input_mode = InputMode::Normal;
                self.status = "Sleep timer entry canceled.".to_owned();
                app::nothing()
            },
            Key::Enter => {
                self.commit_sleep_input();
                app::nothing()
            },
            _ => app::nothing(),
        }
    }

    /// Takes what is typed for the sleep timer.
    pub fn commit_sleep_input(&mut self)
        ensures
            old(self)@.sleep_entered() == (Step { app: final(self)@, actions: seq![] }),
    {
        self.input_mode = InputMode::Normal;
        match time::parse_duration(self.editor.line().as_str()) {
            Some(span) => {
                self.sleep_left = Some(span);
                self.status = text::concat3(
                    "Sleep timer set to ",
                    playback::words(span.as_secs()).as_str(),
                    ".",
                );
            },
            None => {
                self.status = "Invalid sleep time.".to_owned();
            },
        }
    }
}

}

//! The state of the application, and what can be asked of it.

use vstd::prelude::*;

use crate::browse;
use crate::browse::RowView;
use crate::chapters;
use crate::chapters::{Chapter, ChapterView};
use crate::editor::{EditorView, LineEditor};
use crate::encoding;
use crate::layout::HitTarget;
use crate::library;
use crate::library::{ItemView, LibraryItem, Listing};
use crate::paths;
use crate::player;
use crate::player::{
    Command, CommandView, Output, PlaybackSnapshot, Player, PlayerView, Track, TrackView,
};
use crate::storage;
use crate::storage::{
    BookmarkStore, BookmarkView, CachedEntryView, Config, ConfigView, LibraryCache,
    ResumeEntryView, ResumeStore, UiState, UiStateView,
};
use crate::text;
use crate::time;
use crate::time::Duration;

pub use crate::browse::LibraryRow;

verus! {

/// What the keyboard is used for.
#[derive(Clone, Copy, Debug, PartialEq, Eq, Structural)]
pub enum InputMode {
    Normal,
    AddDirectory,
    Search,
    SeekBy,
    SleepTimer,
    BookmarkLabel,
    Bookmarks,
    Chapters,
}

/// Why the library is scanned: because the user asked, or because a directory was added or removed.
#[derive(Debug)]
pub enum ScanReason {
    Asked,
    Added(String),
    Removed(String),
}

#[verifier::ext_equal]
pub enum ScanReasonView {
    Asked,
    Added(Seq<char>),
    Removed(Seq<char>),
}

impl View for ScanReason {
    type V = ScanReasonView;

    open spec fn view(&self) -> ScanReasonView {
        match self {
            ScanReason::Asked => ScanReasonView::Asked,
            ScanReason::Added(dir) => ScanReasonView::Added(dir@),
            ScanReason::Removed(dir) => ScanReasonView::Removed(dir@),
        }
    }
}

/// What has to be done outside, in the order in which it is asked for.
#[derive(Debug)]
pub enum Action {
    /// Tell the sound output something.
    Device(Command),
    /// Ask the sound output how far it has come, and note it.
    PersistResume,
    /// Write the settings.
    SaveConfig,
    /// Write the state of the library view.
    SaveUiState,
    /// Write the state of the library view if possible.
    TrySaveUiState,
    /// Write the resume positions.
    SaveResumeStore,
    /// Write the bookmarks.
    SaveBookmarkStore,
    /// Write what scans found out.
    SaveLibraryCache,
    /// Walk through the library's directories.
    Rescan(ScanReason),
    /// Hand a file to the sound output, to begin at a place.
    Load { track: Track, title: String, start_at: Duration },
    /// Find out which chapters a file has.
    ProbeChapters { path: Vec<u8> },
    /// Find out whether a path is a directory, and which.
    ProbeDirectory { path: Vec<u8> },
    /// Find out what a path may be completed to.
    ProbeCompletion { path: Vec<u8> },
    /// End the program.
    Quit,
}

#[verifier::ext_equal]
pub enum ActionView {
    Device(CommandView),
    PersistResume,
    SaveConfig,
    SaveUiState,
    TrySaveUiState,
    SaveResumeStore,
    SaveBookmarkStore,
    SaveLibraryCache,
    Rescan(ScanReasonView),
    Load { track: TrackView, title: Seq<char>, start_at: nat },
    ProbeChapters { path: Seq<u8> },
    ProbeDirectory { path: Seq<u8> },
    ProbeCompletion { path: Seq<u8> },
    Quit,
}

impl View for Action {
    type V = ActionView;

    open spec fn view(&self) -> ActionView {
        match self {
            Action::Device(command) => ActionView::Device(command@),
            Action::PersistResume => ActionView::PersistResume,
            Action::SaveConfig => ActionView::SaveConfig,
            Action::SaveUiState => ActionView::SaveUiState,
            Action::TrySaveUiState => ActionView::TrySaveUiState,
            Action::SaveResumeStore => ActionView::SaveResumeStore,
            Action::SaveBookmarkStore => ActionView::SaveBookmarkStore,
            Action::SaveLibraryCache => ActionView::SaveLibraryCache,
            Action::Rescan(reason) => ActionView::Rescan(reason@),
            Action::Load { track, title, start_at } => ActionView::Load {
                track: track@,
                title: title@,
                start_at: start_at@,
            },
            Action::ProbeChapters { path } => ActionView::ProbeChapters { path: path@ },
            Action::ProbeDirectory { path } => ActionView::ProbeDirectory { path: path@ },
            Action::ProbeCompletion { path } => ActionView::ProbeCompletion { path: path@ },
            Action::Quit => ActionView::Quit,
        }
    }
}

/// The actions of a list.
pub open spec fn action_views(actions: Seq<Action>) -> Seq<ActionView> {
    actions.map_values(|action: Action| action@)
}

/// The state of the application. Times are counted from its start.
#[derive(Debug)]
pub struct App {
    pub config: Config,
    pub ui_state: UiState,
    pub player: Player,
    pub library_items: Vec<LibraryItem>,
    pub selected: Option<usize>,
    pub input_mode: InputMode,
    pub editor: LineEditor,
    pub filter_query: String,
    pub idle_paused: bool,
    pub status: String,
    pub last_interaction_at: Duration,
    pub last_resume_save_at: Duration,
    pub resume_store: ResumeStore,
    pub library_cache: LibraryCache,
    pub home: Option<Vec<u8>>,
    pub drag: Option<HitTarget>,
    pub preview: Option<Duration>,
    pub seek_undo: Option<Duration>,
    pub sleep_left: Option<Duration>,
    pub last_tick_at: Duration,
    pub bookmark_store: BookmarkStore,
    pub bookmark_place: Duration,
    pub bookmark_cursor: usize,
    pub chapters: Vec<Chapter>,
    pub chapter_cursor: usize,
}

#[verifier::ext_equal]
pub struct AppView {
    pub config: ConfigView,
    pub ui_state: UiStateView,
    pub player: PlayerView,
    pub items: Seq<ItemView>,
    pub selected: Option<usize>,
    pub input_mode: InputMode,
    pub editor: EditorView,
    pub filter: Seq<char>,
    pub idle_paused: bool,
    pub status: Seq<char>,
    pub last_interaction: nat,
    pub last_resume_save: nat,
    pub resume: Map<Seq<char>, ResumeEntryView>,
    pub cache: Map<Seq<char>, CachedEntryView>,
    pub home: Option<Seq<u8>>,
    pub drag: Option<HitTarget>,
    pub preview: Option<nat>,
    pub seek_undo: Option<nat>,
    pub sleep_left: Option<nat>,
    pub last_tick: nat,
    pub bookmarks: Map<Seq<char>, Seq<BookmarkView>>,
    pub bookmark_place: nat,
    pub bookmark_cursor: int,
    pub chapters: Seq<ChapterView>,
    pub chapter_cursor: int,
}

impl View for App {
    type V = AppView;

    open spec fn view(&self) -> AppView {
        AppView {
            config: self.config@,
            ui_state: self.ui_state@,
            player: self.player@,
            items: library::items(self.library_items@),
            selected: self.selected,
            input_mode: self.input_mode,
            editor: self.editor@,
            filter: self.filter_query@,
            idle_paused: self.idle_paused,
            status: self.status@,
            last_interaction: self.last_interaction_at@,
            last_resume_save: self.last_resume_save_at@,
            resume: self.resume_store@,
            cache: self.library_cache@,
            home: storage::optional_bytes(self.home),
            drag: self.drag,
            preview: player::optional_span(self.preview),
            seek_undo: player::optional_span(self.seek_undo),
            sleep_left: player::optional_span(self.sleep_left),
            last_tick: self.last_tick_at@,
            bookmarks: self.bookmark_store@,
            bookmark_place: self.bookmark_place@,
            bookmark_cursor: self.bookmark_cursor as int,
            chapters: chapters::chapter_views(self.chapters@),
            chapter_cursor: self.chapter_cursor as int,
        }
    }
}

/// The application after an event, and what has to be done outside.
#[verifier::ext_equal]
pub struct Step {
    pub app: AppView,
    pub actions: Seq<ActionView>,
}

/// What an item is played as.
pub open spec fn track_of(item: ItemView) -> TrackView {
    TrackView {
        path: item.path,
        canonical_key: item.canonical_key,
        media_key: item.media_key,
    }
}

/// The key that a track's state is kept under.
pub open spec fn track_key(track: TrackView, follow: bool) -> Seq<char> {
    if follow {
        track.media_key
    } else {
        track.canonical_key
    }
}

/// The first of some directories that a path lies under, from `from` on.
pub open spec fn root_from(dirs: Seq<Seq<char>>, path: Seq<u8>, from: int) -> Option<Seq<char>>
    decreases dirs.len() - from,
{
    if 0 <= from < dirs.len() {
        if paths::lies_under(path, encoding::encoded(dirs[from])) {
            Some(dirs[from])
        } else {
            root_from(dirs, path, from + 1)
        }
    } else {
        None
    }
}

impl AppView {
    /// An event that changes nothing and asks for nothing.
    pub open spec fn unchanged(self) -> Step {
        Step { app: self, actions: seq![] }
    }

    /// An event that only changes the status line.
    pub open spec fn saying(self, status: Seq<char>) -> Step {
        Step { app: AppView { status, ..self }, actions: seq![] }
    }

    /// State follows moved files.
    pub open spec fn follow(self) -> bool {
        self.config.memory_on_move
    }

    /// The items that are shown.
    pub open spec fn shown(self) -> Seq<usize> {
        browse::shown(
            self.items,
            self.filter,
            self.ui_state.sort_mode,
            self.resume,
            self.follow(),
        )
    }

    /// The rows of the library view.
    pub open spec fn rows(self) -> Seq<RowView> {
        browse::rows_of(self.items, self.shown())
    }

    /// The item whose row is selected.
    pub open spec fn selected_item(self) -> Option<ItemView> {
        match browse::selected_in(self.rows(), self.selected) {
            Some(i) => if i < self.items.len() {
                Some(self.items[i as int])
            } else {
                None
            },
            None => None,
        }
    }

    /// The key of the item whose row is selected.
    pub open spec fn selected_key(self) -> Option<Seq<char>> {
        match self.selected_item() {
            Some(item) => Some(browse::state_key(item, self.follow())),
            None => None,
        }
    }

    /// The item with the given key is selected, or the first one.
    pub open spec fn refreshed(self, key: Option<Seq<char>>) -> AppView {
        AppView {
            selected: browse::refreshed(self.items, self.shown(), key, self.follow()),
            ..self
        }
    }

    /// The selected item is remembered.
    pub open spec fn remembering(self) -> AppView {
        AppView {
            ui_state: UiStateView { last_selected: self.selected_key(), ..self.ui_state },
            ..self
        }
    }

    /// How far a file has been heard, where that is known.
    pub open spec fn resume_position(self, key: Seq<char>) -> Option<nat> {
        if self.resume.contains_key(key) {
            Some(self.resume[key].position)
        } else {
            None
        }
    }

    /// The library directory that a path lies under.
    pub open spec fn root_for(self, path: Seq<u8>) -> Option<Seq<char>> {
        root_from(self.config.library_dirs, path, 0)
    }

    /// The library directory that the selected item lies under.
    pub open spec fn selected_root(self) -> Option<Seq<char>> {
        match self.selected_item() {
            Some(item) => self.root_for(item.path),
            None => None,
        }
    }

    /// The length shown for the selected item.
    pub open spec fn current_duration(self) -> Option<nat> {
        match self.player.duration {
            Some(duration) => Some(duration),
            None => match self.selected_key() {
                Some(key) => self.resume_position(key),
                None => None,
            },
        }
    }

    /// The status line.
    pub open spec fn status_line(self) -> Seq<char> {
        if self.idle_paused {
            self.status + " Auto-resume is armed."@
        } else {
            self.status
        }
    }

    /// The heading of the library view.
    pub open spec fn library_title(self) -> Seq<char> {
        let base = "Library ["@ + text::decimal(self.config.library_dirs.len()) + " roots | sort: "@
            + self.ui_state.sort_mode.title() + "]"@;
        if self.filter.len() == 0 {
            base
        } else {
            base + " filter: "@ + self.filter
        }
    }

    /// The application at its start.
    pub open spec fn at_start(
        config: ConfigView,
        ui_state: UiStateView,
        resume: Map<Seq<char>, ResumeEntryView>,
        bookmarks: Map<Seq<char>, Seq<BookmarkView>>,
        cache: Map<Seq<char>, CachedEntryView>,
        files: Seq<library::FoundView>,
        home: Option<Seq<u8>>,
        now: nat,
    ) -> AppView {
        let blank = AppView {
            config,
            ui_state,
            player: PlayerView {
                file: None,
                duration: None,
                volume: player::at_most_full(config.default_volume),
                speed: player::USUAL_SPEED,
            },
            items: library::scanned_items(files, cache),
            selected: None,
            input_mode: InputMode::Normal,
            editor: EditorView::holding(seq![]),
            filter: ""@,
            idle_paused: false,
            status: "Press 'a' to add a library directory."@,
            last_interaction: now,
            last_resume_save: now,
            resume,
            cache: library::scanned_cache(files, cache),
            home,
            drag: None,
            preview: None,
            seek_undo: None,
            sleep_left: None,
            last_tick: now,
            bookmarks,
            bookmark_place: 0,
            bookmark_cursor: 0,
            chapters: seq![],
            chapter_cursor: 0,
        };
        let target = browse::initial_item(
            blank.items,
            blank.shown(),
            ui_state.last_selected,
            config.memory_on_move,
        );
        AppView { selected: browse::place_for(blank.rows(), target), ..blank }
    }
}

/// The paths of the library's directories.
pub open spec fn dir_paths(dirs: Seq<Seq<char>>) -> Seq<Seq<u8>> {
    dirs.map_values(|dir: Seq<char>| encoding::encoded(dir))
}

/// The paths of the library's directories.
pub fn dirs_from_config(config: &Config) -> (dirs: Vec<Vec<u8>>)
    ensures
        paths::byte_views(dirs@) == dir_paths(config@.library_dirs),
{
    let ghost texts = config@.library_dirs;
    let mut dirs: Vec<Vec<u8>> = Vec::new();
    let mut i: usize = 0;
    assert(paths::byte_views(dirs@) =~= dir_paths(texts.take(0)));
    while i < config.library_dirs.len()
        invariant
            i <= config.library_dirs.len(),
            texts == config@.library_dirs,
            paths::byte_views(dirs@) == dir_paths(texts.take(i as int)),
        decreases config.library_dirs.len() - i,
    {
        let ghost before = paths::byte_views(dirs@);
        let dir = encoding::text_bytes(config.library_dirs[i].as_str());
        assert(texts[i as int] == config.library_dirs@[i as int]@);
        let ghost bytes = dir@;
        dirs.push(dir);
        assert(paths::byte_views(dirs@) =~= before.push(bytes));
        assert(dir_paths(texts.take(i + 1)) =~= dir_paths(texts.take(i as int)).push(bytes));
        i = i + 1;
    }
    assert(texts.take(i as int) =~= texts);
    dirs
}

/// A list with one action.
pub(crate) fn one(action: Action) -> (actions: Vec<Action>)
    ensures
        action_views(actions@) == seq![action@],
{
    let mut actions: Vec<Action> = Vec::new();
    actions.push(action);
    assert(action_views(actions@) =~= seq![action@]);
    actions
}

/// A list with two actions.
pub(crate) fn two(first: Action, second: Action) -> (actions: Vec<Action>)
    ensures
        action_views(actions@) == seq![first@, second@],
{
    let mut actions: Vec<Action> = Vec::new();
    actions.push(first);
    actions.push(second);
    assert(action_views(actions@) =~= seq![first@, second@]);
    actions
}

/// A list without actions.
pub(crate) fn nothing() -> (actions: Vec<Action>)
    ensures
        action_views(actions@) == Seq::<ActionView>::empty(),
{
    let actions: Vec<Action> = Vec::new();
    assert(action_views(actions@) =~= Seq::<ActionView>::empty());
    actions
}

impl App {
    /// The application at its start, from what was read, and what has to be done first: the cache
    /// is written, and the sound output learns the volume.
    pub fn load(
        config: Config,
        ui_state: UiState,
        resume_store: ResumeStore,
        bookmark_store: BookmarkStore,
        library_cache: LibraryCache,
        listings: &Vec<Listing>,
        home: Option<Vec<u8>>,
        now: Duration,
    ) -> (started: (App, Vec<Action>))
        ensures
            started.0@ == AppView::at_start(
                config@,
                ui_state@,
                resume_store@,
                bookmark_store@,
                library_cache@,
                library::all_files(listings@),
                storage::optional_bytes(home),
                now@,
            ),
            action_views(started.1@) == seq![
                ActionView::SaveLibraryCache,
                ActionView::Device(
                    CommandView::SetVolume(player::at_most_full(config@.default_volume)),
                ),
            ],
    {
        let mut library_cache = library_cache;
        let library_items = library::scan_library(listings, &mut library_cache);
        let player = Player::new(config.default_volume);
        let volume: u8 = player.volume();
        let mut app = App {
            config,
            ui_state,
            player,
            library_items,
            selected: None,
            input_mode: InputMode::Normal,
            editor: LineEditor::empty(),
            filter_query: "".to_owned(),
            idle_paused: false,
            status: "Press 'a' to add a library directory.".to_owned(),
            last_interaction_at: now,
            last_resume_save_at: now,
            resume_store,
            library_cache,
            home,
            drag: None,
            preview: None,
            seek_undo: None,
            sleep_left: None,
            last_tick_at: now,
            bookmark_store,
            bookmark_place: Duration::zero(),
            bookmark_cursor: 0,
            chapters: Vec::new(),
            chapter_cursor: 0,
        };
        assert(app@.chapters =~= seq![]);
        let indices = app.sorted_filtered_indices();
        let target = browse::initial_selection(
            &app.library_items,
            &indices,
            &app.ui_state.last_selected,
            app.config.memory_on_move,
        );
        let rows = app.visible_rows();
        app.selected = browse::selectable_row_index_for_item(&rows, target);
        (app, two(Action::SaveLibraryCache, Action::Device(Command::SetVolume(volume))))
    }

    /// The items that are shown, in the order in which they are.
    pub fn sorted_filtered_indices(&self) -> (indices: Vec<usize>)
        ensures
            indices@ == self@.shown(),
            forall|k: int|
                0 <= k < indices@.len() ==> #[trigger] indices@[k] < self.library_items@.len(),
    {
        browse::sorted_filtered_indices(
            &self.library_items,
            self.filter_query.as_str(),
            self.ui_state.sort_mode,
            &self.resume_store,
            self.config.memory_on_move,
        )
    }

    /// The rows of the library view.
    pub fn visible_rows(&self) -> (rows: Vec<LibraryRow>)
        ensures
            browse::row_views(rows@) == self@.rows(),
            browse::rows_within(self@.rows(), self@.items.len()),
    {
        let indices = self.sorted_filtered_indices();
        browse::grouped_rows(&self.library_items, &indices)
    }

    /// The item whose row is selected.
    pub fn selected_item(&self) -> (item: Option<&LibraryItem>)
        ensures
            match item {
                Some(i) => self@.selected_item() == Some(i@),
                None => self@.selected_item() is None,
            },
    {
        let rows = self.visible_rows();
        match browse::selected_index(&rows, self.selected) {
            Some(i) => if i < self.library_items.len() {
                assert(self@.items[i as int] == self.library_items@[i as int]@);
                Some(&self.library_items[i])
            } else {
                None
            },
            None => None,
        }
    }

    /// The key of the item whose row is selected.
    pub fn selected_key(&self) -> (key: Option<String>)
        ensures
            storage::optional_text(key) == self@.selected_key(),
    {
        match self.selected_item() {
            Some(item) => Some(browse::key_of_item(item, self.config.memory_on_move).clone()),
            None => None,
        }
    }

    /// Selects the item with the given key, or the first one.
    pub fn refresh_selection_after_structure_change(&mut self, key: &Option<String>)
        ensures
            final(self)@ == old(self)@.refreshed(storage::optional_text(*key)),
    {
        let indices = self.sorted_filtered_indices();
        let place = browse::refreshed_selection(
            &self.library_items,
            &indices,
            key,
            self.config.memory_on_move,
        );
        self.selected = place;
    }

    /// Remembers the selected item.
    pub fn persist_ui_state(&mut self)
        ensures
            final(self)@ == old(self)@.remembering(),
    {
        let key = self.selected_key();
        self.ui_state.last_selected = key;
    }

    /// Playback at this moment.
    pub fn playback_snapshot(&self, output: &Output) -> (snapshot: Option<PlaybackSnapshot>)
        ensures
            snapshot matches Some(s) && s@ == self@.player.snapshot(*output),
    {
        self.player.snapshot(output)
    }

    /// How far a file has been heard, where that is known.
    pub fn resume_duration_for(&self, key: &str) -> (position: Option<Duration>)
        ensures
            player::optional_span(position) == self@.resume_position(key@),
    {
        match self.resume_store.positions.get(key) {
            Some(entry) => Some(storage::duration_from_entry(entry)),
            None => None,
        }
    }

    /// The length shown for the selected item: that of the file that is loaded, or how far the
    /// item has been heard.
    pub fn current_duration(&self) -> (duration: Option<Duration>)
        ensures
            player::optional_span(duration) == self@.current_duration(),
    {
        let loaded = self.player.duration();
        if loaded.is_some() {
            return loaded;
        }
        match self.selected_key() {
            Some(key) => self.resume_duration_for(key.as_str()),
            None => None,
        }
    }

    /// The status line.
    pub fn status_line(&self) -> (line: String)
        ensures
            line@ == self@.status_line(),
    {
        if self.idle_paused {
            text::concat2(self.status.as_str(), " Auto-resume is armed.")
        } else {
            self.status.clone()
        }
    }

    /// The heading of the library view.
    pub fn library_title(&self) -> (title: String)
        ensures
            title@ == self@.library_title(),
    {
        let mut title = "Library [".to_owned();
        text::push_decimal(&mut title, self.config.library_dirs.len() as u64);
        title.append(" roots | sort: ");
        title.append(self.ui_state.sort_mode.label());
        title.append("]");
        if text::chars_of(self.filter_query.as_str()).len() > 0 {
            title.append(" filter: ");
            title.append(self.filter_query.as_str());
        }
        title
    }

    /// The heading of the input dialog.
    pub fn input_title(&self) -> (title: &'static str)
        ensures
            title@ == (match self.input_mode {
                InputMode::AddDirectory => "Add Directory"@,
                InputMode::Search => "Filter Library"@,
                InputMode::SeekBy => "Seek By"@,
                InputMode::SleepTimer => "Sleep Timer"@,
                InputMode::BookmarkLabel => "Add Bookmark"@,
                InputMode::Bookmarks => "Bookmarks"@,
                InputMode::Chapters => "Chapters"@,
                InputMode::Normal => ""@,
            }),
    {
        match self.input_mode {
            InputMode::AddDirectory => "Add Directory",
            InputMode::Search => "Filter Library",
            InputMode::SeekBy => "Seek By",
            InputMode::SleepTimer => "Sleep Timer",
            InputMode::BookmarkLabel => "Add Bookmark",
            InputMode::Bookmarks => "Bookmarks",
            InputMode::Chapters => "Chapters",
            InputMode::Normal => "",
        }
    }

    /// The hint in the input dialog.
    pub fn input_help(&self) -> (help: &'static str)
        ensures
            help@ == (match self.input_mode {
                InputMode::AddDirectory => "Type a path. Tab completes. Enter saves. Esc cancels."@,
                InputMode::Search => "Type to filter. Enter keeps it. Esc clears and exits."@,
                InputMode::SeekBy => "Type a time: 1m, -30s or +1h2m3s. Enter seeks. Esc cancels."@,
                InputMode::SleepTimer => "Type a time: 15m or 1h30m. Enter starts. Esc cancels."@,
                InputMode::BookmarkLabel => "Type a label. Enter adds. Esc cancels."@,
                InputMode::Bookmarks => "Enter jumps. d deletes. Esc closes."@,
                InputMode::Chapters => "Enter jumps. Esc closes."@,
                InputMode::Normal => ""@,
            }),
    {
        match self.input_mode {
            InputMode::AddDirectory => "Type a path. Tab completes. Enter saves. Esc cancels.",
            InputMode::Search => "Type to filter. Enter keeps it. Esc clears and exits.",
            InputMode::SeekBy => "Type a time: 1m, -30s or +1h2m3s. Enter seeks. Esc cancels.",
            InputMode::SleepTimer => "Type a time: 15m or 1h30m. Enter starts. Esc cancels.",
            InputMode::BookmarkLabel => "Type a label. Enter adds. Esc cancels.",
            InputMode::Bookmarks => "Enter jumps. d deletes. Esc closes.",
            InputMode::Chapters => "Enter jumps. Esc closes.",
            InputMode::Normal => "",
        }
    }

    /// The library directory that a path lies under.
    pub fn library_root_for_path(&self, path: &Vec<u8>) -> (root: Option<&String>)
        ensures
            match root {
                Some(dir) => self@.root_for(path@) == Some(dir@),
                None => self@.root_for(path@) is None,
            },
    {
        let ghost dirs = self@.config.library_dirs;
        let mut i: usize = 0;
        while i < self.config.library_dirs.len()
            invariant
                i <= self.config.library_dirs.len(),
                dirs == storage::texts(self.config.library_dirs@),
                dirs == self@.config.library_dirs,
                root_from(dirs, path@, 0) == root_from(dirs, path@, i as int),
            decreases self.config.library_dirs.len() - i,
        {
            assert(dirs[i as int] == self.config.library_dirs@[i as int]@);
            let root = encoding::text_bytes(self.config.library_dirs[i].as_str());
            if paths::starts_with(path, &root) {
                return Some(&self.config.library_dirs[i]);
            }
            i = i + 1;
        }
        None
    }

    /// The library directory that the selected item lies under.
    pub fn selected_root(&self) -> (root: Option<&String>)
        ensures
            match root {
                Some(dir) => self@.selected_root() == Some(dir@),
                None => self@.selected_root() is None,
            },
    {
        match self.selected_item() {
            Some(item) => self.library_root_for_path(&item.path),
            None => None,
        }
    }
}

}

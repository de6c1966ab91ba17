use booktui::app::{dirs_from_config, Action, App, InputMode, LibraryRow, ScanReason};
use booktui::chapters::{find_chapter, parse_chapters, parse_decimal_time, title_of};
use booktui::editor::{Key, KeyPress};
use booktui::input::{parse_seek, DirectoryProbe, SeekRequest};
use booktui::keyed::KeyedMap;
use booktui::layout::{HitTarget, Rect};
use booktui::library::{FoundFile, Listing, Node};
use booktui::player::{Command, LoadFailure, LoadOutcome, Output, Track};
use booktui::pointer::Gesture;
use booktui::storage::{
    BookmarkStore, Config, LibraryCache, ResumeEntry, ResumeStore, SortMode, UiState,
};
use booktui::time::Duration;
use booktui::ui::{
    detail_lines, format_speed, help_line, library_lines, ratio, shows_dialog, timeline_marks,
    transport_view, truncate_middle, with_cursor, LibraryLine, Mark,
};

const BOOKS: [(&str, u64, u64); 4] = [
    ("/lib/Author A/beta.mp3", 300, 11),
    ("/lib/Author A/Alpha.mp3", 100, 12),
    ("/lib/Author B/gamma.m4b", 200, 13),
    ("/lib/Author A/delta.mp3", 200, 14),
];

fn listings(books: &[(&str, u64, u64)]) -> Vec<Listing> {
    let nodes = books.iter().map(|(path, modified, size)| {
        Node::File(FoundFile {
            path: path.as_bytes().to_vec(),
            resolved: None,
            size: Some(*size),
            modified: Some(*modified),
            metadata_title: None,
        })
    });
    vec![Listing {
        entries: Some(nodes.collect()),
    }]
}

fn config(follow: bool) -> Config {
    Config {
        library_dirs: vec!["/lib".to_owned(), "/other".to_owned()],
        default_volume: 70,
        idle_timeout: "30m".to_owned(),
        memory_on_move: follow,
    }
}

fn app_with(config: Config, state: UiState, resume: ResumeStore) -> App {
    App::load(
        config,
        state,
        resume,
        BookmarkStore::default(),
        LibraryCache::default(),
        &listings(&BOOKS),
        Some(b"/home/you".to_vec()),
        Duration::zero(),
    )
    .0
}

fn app() -> App {
    app_with(config(false), UiState::default(), ResumeStore::default())
}

fn resume(entries: &[(&str, u64, u64)]) -> ResumeStore {
    let mut positions = KeyedMap::new();
    for (key, position, updated) in entries {
        positions.insert(
            key.to_string(),
            ResumeEntry {
                position: Duration::from_secs(*position),
                updated_at_epoch_seconds: *updated,
            },
        );
    }
    ResumeStore { positions }
}

fn quiet() -> Output {
    Output {
        empty: true,
        paused: false,
        position: Duration::zero(),
    }
}

fn playing_at(position: u64) -> Output {
    Output {
        empty: false,
        paused: false,
        position: Duration::from_secs(position),
    }
}

fn press(app: &mut App, key: Key) -> Vec<Action> {
    press_at(app, key, &quiet())
}

fn press_at(app: &mut App, key: Key, output: &Output) -> Vec<Action> {
    let press = KeyPress {
        key,
        control: false,
    };
    app.handle_key_event(press, output, 1_000)
}

fn type_text(app: &mut App, text: &str) {
    for c in text.chars() {
        assert!(press(app, Key::Char(c)).is_empty());
    }
}

fn shown(app: &App) -> Vec<String> {
    app.visible_rows()
        .iter()
        .map(|row| match row {
            LibraryRow::GroupHeader { title, count } => format!("{title} ({count})"),
            LibraryRow::Item { item_index } => app.library_items[*item_index].title.clone(),
        })
        .collect()
}

fn selected(app: &App) -> Option<String> {
    app.selected_item().map(|item| item.title.clone())
}

fn start(app: &mut App, length: u64) -> Vec<Action> {
    let actions = press(app, Key::Enter);
    match actions.into_iter().next() {
        Some(Action::Load { track, title, .. }) => {
            let outcome = LoadOutcome::Loaded(Some(Duration::from_secs(length)));
            app.finish_load(track, &title, outcome, Duration::zero())
        }
        other => panic!("{other:?}"),
    }
}

#[test]
fn loading_scans_and_selects_the_first_item() {
    let (app, actions) = App::load(
        config(false),
        UiState::default(),
        ResumeStore::default(),
        BookmarkStore::default(),
        LibraryCache::default(),
        &listings(&BOOKS),
        None,
        Duration::zero(),
    );
    assert!(matches!(
        actions[..],
        [Action::SaveLibraryCache, Action::Device(Command::SetVolume(70))]
    ));
    assert_eq!(app.library_items.len(), 4);
    assert_eq!(app.library_cache.entries.len(), 4);
    assert_eq!(app.status_line(), "Press 'a' to add a library directory.");
    assert_eq!(selected(&app).as_deref(), Some("Alpha"));
    assert_eq!(app.input_mode, InputMode::Normal);
}

#[test]
fn remembered_item_is_selected() {
    let state = UiState {
        last_selected: Some("/lib/Author B/gamma.m4b".to_owned()),
        sort_mode: SortMode::Alphabetical,
    };
    let app = app_with(config(false), state, ResumeStore::default());
    assert_eq!(selected(&app).as_deref(), Some("gamma"));
    let state = UiState {
        last_selected: Some("gamma.m4b::13".to_owned()),
        sort_mode: SortMode::Alphabetical,
    };
    let app = app_with(config(true), state, ResumeStore::default());
    assert_eq!(selected(&app).as_deref(), Some("gamma"));
}

#[test]
fn rows_are_grouped_and_counted() {
    assert_eq!(
        shown(&app()),
        ["Author A (3)", "Alpha", "beta", "delta", "Author B (1)", "gamma"]
    );
}

#[test]
fn sort_modes_order_within_groups() {
    let mut app = app_with(
        config(false),
        UiState::default(),
        resume(&[
            ("/lib/Author A/delta.mp3", 5, 900),
            ("/lib/Author A/beta.mp3", 5, 800),
        ]),
    );
    let actions = press(&mut app, Key::Char('s'));
    assert!(matches!(actions[..], [Action::SaveUiState]));
    assert_eq!(app.status_line(), "Sort mode: date");
    assert_eq!(
        shown(&app),
        ["Author A (3)", "beta", "delta", "Alpha", "Author B (1)", "gamma"]
    );
    press(&mut app, Key::Char('s'));
    assert_eq!(app.status_line(), "Sort mode: last-played");
    assert_eq!(
        shown(&app),
        ["Author A (3)", "delta", "beta", "Alpha", "Author B (1)", "gamma"]
    );
    press(&mut app, Key::Char('s'));
    assert_eq!(app.status_line(), "Sort mode: alpha");
    assert_eq!(shown(&app)[1], "Alpha");
}

#[test]
fn sorting_keeps_the_selected_item() {
    let mut app = app();
    press(&mut app, Key::Char('j'));
    assert_eq!(selected(&app).as_deref(), Some("beta"));
    press(&mut app, Key::Char('s'));
    assert_eq!(app.selected, Some(1));
    assert_eq!(selected(&app).as_deref(), Some("beta"));
}

#[test]
fn heads_stay_where_they_are_when_sorting() {
    let mut app = app();
    let heads = |app: &App| -> Vec<usize> {
        let rows = app.visible_rows();
        (0..rows.len())
            .filter(|r| matches!(rows[*r], LibraryRow::GroupHeader { .. }))
            .collect()
    };
    let before = heads(&app);
    press(&mut app, Key::Char('s'));
    assert_eq!(heads(&app), before);
    press(&mut app, Key::Char('s'));
    assert_eq!(heads(&app), before);
}

#[test]
fn last_played_follows_moved_files() {
    let state = UiState {
        last_selected: None,
        sort_mode: SortMode::LastPlayed,
    };
    let app = app_with(config(true), state, resume(&[("delta.mp3::14", 5, 900)]));
    assert_eq!(shown(&app)[1], "delta");
}

#[test]
fn the_selection_skips_heads() {
    let mut app = app();
    let actions = press(&mut app, Key::Down);
    assert!(matches!(actions[..], [Action::TrySaveUiState]));
    press(&mut app, Key::Down);
    assert_eq!(selected(&app).as_deref(), Some("delta"));
    press(&mut app, Key::Char('j'));
    assert_eq!(selected(&app).as_deref(), Some("gamma"));
    assert_eq!(app.selected, Some(5));
    assert_eq!(
        app.ui_state.last_selected.as_deref(),
        Some("/lib/Author B/gamma.m4b")
    );
    press(&mut app, Key::PageDown);
    assert_eq!(selected(&app).as_deref(), Some("gamma"));
    press(&mut app, Key::Char('k'));
    assert_eq!(selected(&app).as_deref(), Some("delta"));
    press(&mut app, Key::PageUp);
    assert_eq!(selected(&app).as_deref(), Some("Alpha"));
    press(&mut app, Key::Up);
    assert_eq!(selected(&app).as_deref(), Some("Alpha"));
}

#[test]
fn an_empty_library_has_no_selection() {
    let mut app = App::load(
        config(false),
        UiState::default(),
        ResumeStore::default(),
        BookmarkStore::default(),
        LibraryCache::default(),
        &vec![],
        None,
        Duration::zero(),
    )
    .0;
    assert_eq!(app.selected, None);
    assert!(press(&mut app, Key::Down).is_empty());
    assert_eq!(app.selected, None);
    assert!(press(&mut app, Key::Enter).is_empty());
    assert_eq!(app.status_line(), "No audiobook selected.");
    assert!(press(&mut app, Key::Char('d')).is_empty());
    assert_eq!(app.status_line(), "Select a file to remove its library root.");
    match &library_lines(&app, 40)[0] {
        LibraryLine::Note(note) => {
            assert_eq!(note, "No audiobooks found. Press 'a' to add a directory.")
        }
        other => panic!("{other:?}"),
    }
    assert_eq!(
        detail_lines(&app, 40)[0].1,
        "Add a directory to start building your library."
    );
}

#[test]
fn filtering_narrows_while_typing() {
    let mut app = app();
    press(&mut app, Key::Char('/'));
    assert_eq!(app.input_mode, InputMode::Search);
    assert_eq!(app.input_title(), "Filter Library");
    assert!(shows_dialog(&app));
    type_text(&mut app, "ETA ");
    assert_eq!(app.filter_query, "ETA");
    assert_eq!(shown(&app), ["Author A (1)", "beta"]);
    assert_eq!(selected(&app).as_deref(), Some("beta"));
    press(&mut app, Key::Enter);
    assert_eq!(app.input_mode, InputMode::Normal);
    assert_eq!(app.status_line(), "Filtering library by 'ETA'.");
    assert_eq!(
        app.library_title(),
        "Library [2 roots | sort: alpha] filter: ETA"
    );
    press(&mut app, Key::Char('/'));
    assert_eq!(app.editor.line(), "ETA");
    press(&mut app, Key::Esc);
    assert_eq!(app.status_line(), "Library filter cleared.");
    assert_eq!(shown(&app).len(), 6);
    assert_eq!(app.library_title(), "Library [2 roots | sort: alpha]");
}

#[test]
fn filters_look_at_groups_and_paths() {
    let mut app = app();
    press(&mut app, Key::Char('/'));
    type_text(&mut app, "author b");
    assert_eq!(shown(&app), ["Author B (1)", "gamma"]);
    press(&mut app, Key::Esc);
    press(&mut app, Key::Char('/'));
    type_text(&mut app, ".M4B");
    assert_eq!(shown(&app), ["Author B (1)", "gamma"]);
    type_text(&mut app, "?");
    assert!(shown(&app).is_empty());
    match &library_lines(&app, 40)[0] {
        LibraryLine::Note(note) => assert_eq!(note, "No matches for the current filter."),
        other => panic!("{other:?}"),
    }
    press(&mut app, Key::Backspace);
    press(&mut app, Key::Enter);
    assert_eq!(shown(&app).len(), 2);
    press(&mut app, Key::Char('/'));
    let clear = KeyPress {
        key: Key::Char('u'),
        control: true,
    };
    app.handle_key_event(clear, &quiet(), 0);
    press(&mut app, Key::Enter);
    assert_eq!(app.status_line(), "Library filter cleared.");
}

#[test]
fn playing_begins_where_it_was_left() {
    let mut app = app();
    match press(&mut app, Key::Enter).into_iter().next() {
        Some(Action::Load {
            track,
            title,
            start_at,
        }) => {
            assert_eq!(track.path, b"/lib/Author A/Alpha.mp3");
            assert_eq!(title, "Alpha");
            assert_eq!(start_at, Duration::zero());
        }
        other => panic!("{other:?}"),
    }
    start(&mut app, 1000);
    assert_eq!(app.status_line(), "Playing Alpha");
    let actions = app.persist_current_resume(&playing_at(42), 77, Duration::from_secs(9));
    assert!(matches!(actions[..], [Action::SaveResumeStore]));
    let entry = app.resume_store.positions.get("/lib/Author A/Alpha.mp3").unwrap();
    assert_eq!(entry.position, Duration::from_secs(42));
    assert_eq!(entry.updated_at_epoch_seconds, 77);
    match press(&mut app, Key::Enter).into_iter().next() {
        Some(Action::Load { start_at, .. }) => assert_eq!(start_at, Duration::from_secs(42)),
        other => panic!("{other:?}"),
    }
    let item = app.selected_item().unwrap().clone();
    assert_eq!(app.resume_label(&item), "00:42");
}

#[test]
fn resume_follows_moved_files_by_name_and_size() {
    let moved = app_with(
        config(true),
        UiState::default(),
        resume(&[("Alpha.mp3::12", 33, 1)]),
    );
    let item = moved.selected_item().unwrap().clone();
    assert_eq!(moved.resume_label(&item), "00:33");
    let strict = app_with(
        config(false),
        UiState::default(),
        resume(&[("Alpha.mp3::12", 33, 1)]),
    );
    let item = strict.selected_item().unwrap().clone();
    assert_eq!(strict.resume_label(&item), "Start");
}

#[test]
fn broken_files_leave_a_message() {
    let mut app = app();
    start(&mut app, 1000);
    let track = Track {
        path: b"/lib/broken.mp3".to_vec(),
        canonical_key: "/lib/broken.mp3".to_owned(),
        media_key: "broken.mp3::1".to_owned(),
    };
    app.finish_load(
        track,
        "Broken",
        LoadOutcome::Failed(LoadFailure::Decode),
        Duration::zero(),
    );
    assert_eq!(app.status_line(), "failed to decode /lib/broken.mp3");
    assert!(app.player.current_file().is_none());
}

#[test]
fn finished_files_start_over() {
    let mut app = app();
    start(&mut app, 1000);
    app.persist_current_resume(&playing_at(500), 1, Duration::zero());
    assert!(app.refresh_playback_state(&playing_at(999), 2).is_empty());
    let actions = app.refresh_playback_state(&quiet(), 3);
    assert!(matches!(
        actions[..],
        [Action::Device(Command::Stop), Action::SaveResumeStore]
    ));
    assert_eq!(app.status_line(), "Finished /lib/Author A/Alpha.mp3");
    let entry = app.resume_store.positions.get("/lib/Author A/Alpha.mp3").unwrap();
    assert_eq!(entry.position, Duration::zero());
    assert!(app.refresh_playback_state(&quiet(), 4).is_empty());
}

#[test]
fn idle_playback_is_paused_until_a_key_comes() {
    let mut app = app();
    start(&mut app, 100_000);
    let minutes = |n: u64| Duration::from_secs(60 * n);
    assert!(app.on_keypress(minutes(1)).is_empty());
    assert!(app.handle_idle_timeout(&playing_at(9), minutes(30)).is_empty());
    let paused = Output {
        paused: true,
        ..playing_at(9)
    };
    assert!(app.handle_idle_timeout(&paused, minutes(99)).is_empty());
    let actions = app.handle_idle_timeout(&playing_at(9), minutes(31));
    assert!(matches!(
        actions[..],
        [Action::Device(Command::Pause), Action::PersistResume]
    ));
    assert!(app.idle_paused);
    assert_eq!(
        app.status_line(),
        "Paused after 30 minutes without input. Auto-resume is armed."
    );
    let actions = app.on_keypress(minutes(40));
    assert!(matches!(actions[..], [Action::Device(Command::Play)]));
    assert_eq!(app.status_line(), "Playback resumed after idle timeout.");
    assert!(!app.idle_paused);
}

#[test]
fn idle_time_is_configured() {
    let mut settings = config(false);
    settings.idle_timeout = "90s".to_owned();
    let mut app = app_with(settings, UiState::default(), ResumeStore::default());
    start(&mut app, 1000);
    assert!(app.handle_idle_timeout(&playing_at(1), Duration::from_secs(89)).is_empty());
    app.handle_idle_timeout(&playing_at(1), Duration::from_secs(90));
    assert_eq!(app.status, "Paused after 90 seconds without input.");
}

#[test]
fn positions_are_noted_every_minute() {
    let mut app = app();
    start(&mut app, 1000);
    let after = |secs: u64| Duration::from_secs(secs);
    assert!(app.save_resume_checkpoint_if_needed(&playing_at(5), after(59)).is_empty());
    let actions = app.save_resume_checkpoint_if_needed(&playing_at(5), after(60));
    assert!(matches!(actions[..], [Action::PersistResume]));
    assert!(app.save_resume_checkpoint_if_needed(&quiet(), after(60)).is_empty());
    app.persist_current_resume(&playing_at(5), 1, after(60));
    assert!(app.save_resume_checkpoint_if_needed(&playing_at(5), after(119)).is_empty());
}

#[test]
fn steps_seek_and_can_be_undone() {
    let mut app = app();
    assert!(press(&mut app, Key::Right).is_empty());
    start(&mut app, 100);
    for (key, target) in [
        (Key::Right, 60),
        (Key::Char('l'), 60),
        (Key::Left, 40),
        (Key::Char('h'), 40),
    ] {
        match press_at(&mut app, key, &playing_at(50))[..] {
            [Action::Device(Command::Seek(place)), Action::PersistResume] => {
                assert_eq!(place.as_secs(), target)
            }
            _ => panic!(),
        }
    }
    match press(&mut app, Key::Char('u'))[..] {
        [Action::Device(Command::Seek(place)), Action::PersistResume] => {
            assert_eq!(place.as_secs(), 50)
        }
        _ => panic!(),
    }
    assert_eq!(app.status_line(), "Seeked back to 00:50");
    assert!(press(&mut app, Key::Char('u')).is_empty());
    assert_eq!(app.status_line(), "No seek to undo.");
}

#[test]
fn seek_times_are_read() {
    let read = |text: &str| parse_seek(&text.chars().collect());
    assert!(matches!(read("1m"), Some(SeekRequest::To(d)) if d.as_secs() == 60));
    assert!(matches!(read("-30s"), Some(SeekRequest::Back(d)) if d.as_secs() == 30));
    assert!(matches!(read(" +1h2m3s "), Some(SeekRequest::Forward(d)) if d.as_secs() == 3723));
    assert!(read("").is_none());
    assert!(read("-").is_none());
    assert!(read("ten").is_none());
}

#[test]
fn the_seek_prompt_seeks() {
    let mut app = app();
    start(&mut app, 1000);
    press(&mut app, Key::Char('e'));
    assert_eq!(app.input_title(), "Seek By");
    type_text(&mut app, "-30s");
    match press_at(&mut app, Key::Enter, &playing_at(100))[..] {
        [Action::Device(Command::Seek(place)), Action::PersistResume] => {
            assert_eq!(place.as_secs(), 70)
        }
        _ => panic!(),
    }
    assert_eq!(app.input_mode, InputMode::Normal);
    assert_eq!(app.status_line(), "Seeked to 01:10");
    press(&mut app, Key::Char('e'));
    type_text(&mut app, "soon");
    assert!(press(&mut app, Key::Enter).is_empty());
    assert_eq!(app.status_line(), "Invalid seek time.");
    press(&mut app, Key::Char('e'));
    press(&mut app, Key::Esc);
    assert_eq!(app.status_line(), "Seek entry canceled.");
    app.player.stop();
    press(&mut app, Key::Char('e'));
    type_text(&mut app, "1m");
    assert!(press(&mut app, Key::Enter).is_empty());
    assert_eq!(app.status_line(), "Nothing is playing.");
}

#[test]
fn the_sleep_timer_counts_while_playing() {
    let mut app = app();
    start(&mut app, 1000);
    press(&mut app, Key::Char('t'));
    type_text(&mut app, "1m");
    press(&mut app, Key::Enter);
    assert_eq!(app.status_line(), "Sleep timer set to 1 minute.");
    let at = |secs: u64| Duration::from_secs(secs);
    assert!(app.tick_sleep_timer(&playing_at(1), at(40)).is_empty());
    assert_eq!(app.sleep_left, Some(at(20)));
    let paused = Output {
        paused: true,
        ..playing_at(1)
    };
    assert!(app.tick_sleep_timer(&paused, at(400)).is_empty());
    assert_eq!(app.sleep_left, Some(at(20)));
    assert!(app.tick_sleep_timer(&playing_at(1), at(419)).is_empty());
    let actions = app.tick_sleep_timer(&playing_at(1), at(420));
    assert!(matches!(
        actions[..],
        [Action::Device(Command::Pause), Action::PersistResume]
    ));
    assert_eq!(app.status_line(), "Sleep timer ended.");
    assert_eq!(app.sleep_left, None);
    assert!(!app.idle_paused);
    press(&mut app, Key::Char('t'));
    type_text(&mut app, "never");
    press(&mut app, Key::Enter);
    assert_eq!(app.status_line(), "Invalid sleep time.");
    press(&mut app, Key::Char('t'));
    press(&mut app, Key::Esc);
    assert_eq!(app.status_line(), "Sleep timer entry canceled.");
}

#[test]
fn space_pauses_and_resumes() {
    let mut app = app();
    start(&mut app, 1000);
    let actions = press_at(&mut app, Key::Char(' '), &playing_at(5));
    assert!(matches!(
        actions[..],
        [Action::Device(Command::Pause), Action::PersistResume]
    ));
    let paused = Output {
        paused: true,
        ..playing_at(5)
    };
    let actions = press_at(&mut app, Key::Char(' '), &paused);
    assert!(matches!(
        actions[..],
        [Action::Device(Command::Play), Action::PersistResume]
    ));
}

#[test]
fn volume_keys_step_and_are_kept() {
    let mut app = app();
    let actions = press(&mut app, Key::Char('-'));
    assert!(matches!(
        actions[..],
        [Action::Device(Command::SetVolume(65)), Action::SaveConfig]
    ));
    assert_eq!(app.config.default_volume, 65);
    press(&mut app, Key::Char('='));
    press(&mut app, Key::Char('+'));
    assert_eq!(app.player.volume(), 75);
    app.set_volume(98);
    press(&mut app, Key::Char('='));
    assert_eq!(app.player.volume(), 100);
    app.set_volume(3);
    press(&mut app, Key::Char('-'));
    assert_eq!(app.player.volume(), 0);
    app.set_volume(250);
    assert_eq!(app.config.default_volume, 100);
}

#[test]
fn q_ends_the_program() {
    let mut app = app();
    assert!(matches!(press(&mut app, Key::Char('q'))[..], [Action::Quit]));
    press(&mut app, Key::Char('/'));
    assert!(press(&mut app, Key::Char('q')).is_empty());
    assert_eq!(app.filter_query, "q");
}

#[test]
fn shutting_down_keeps_position_and_selection() {
    let mut app = app();
    start(&mut app, 1000);
    let actions = app.shutdown(&playing_at(8), 55, Duration::from_secs(1));
    assert!(matches!(
        actions[..],
        [
            Action::SaveResumeStore,
            Action::SaveUiState,
            Action::Device(Command::Stop)
        ]
    ));
    assert_eq!(
        app.ui_state.last_selected.as_deref(),
        Some("/lib/Author A/Alpha.mp3")
    );
    let entry = app.resume_store.positions.get("/lib/Author A/Alpha.mp3").unwrap();
    assert_eq!(entry.position.as_secs(), 8);
    let actions = app.shutdown(&quiet(), 56, Duration::from_secs(2));
    assert!(matches!(
        actions[..],
        [Action::SaveUiState, Action::Device(Command::Stop)]
    ));
}

#[test]
fn directories_are_added() {
    let mut app = app();
    press(&mut app, Key::Char('a'));
    assert_eq!(app.input_title(), "Add Directory");
    assert_eq!(
        app.input_help(),
        "Type a path. Tab completes. Enter saves. Esc cancels."
    );
    type_text(&mut app, " ~/New ");
    let path = match press(&mut app, Key::Enter).into_iter().next() {
        Some(Action::ProbeDirectory { path }) => path,
        other => panic!("{other:?}"),
    };
    assert_eq!(path, b"/home/you/New");
    assert_eq!(app.input_mode, InputMode::Normal);
    let actions = app
        .finish_commit(path, DirectoryProbe::Resolved(b"/data/New".to_vec()))
        .unwrap();
    assert!(matches!(
        &actions[..],
        [Action::SaveConfig, Action::Rescan(ScanReason::Added(dir))] if dir == "/data/New"
    ));
    assert_eq!(app.config.library_dirs, ["/data/New", "/lib", "/other"]);
    assert_eq!(
        dirs_from_config(&app.config),
        [b"/data/New".to_vec(), b"/lib".to_vec(), b"/other".to_vec()]
    );
    let actions = app.rescan_library(
        &listings(&[BOOKS[0], ("/data/New/fresh.mp3", 1, 1)]),
        &ScanReason::Added("/data/New".to_owned()),
    );
    assert!(matches!(
        actions[..],
        [Action::SaveLibraryCache, Action::SaveUiState]
    ));
    assert_eq!(app.status_line(), "Added /data/New");
    assert_eq!(app.editor.line(), "");
    assert_eq!(shown(&app), ["Author A (1)", "beta", "New (1)", "fresh"]);
}

#[test]
fn directories_that_cannot_be_added() {
    let mut app = app();
    press(&mut app, Key::Char('a'));
    type_text(&mut app, "  ");
    assert!(press(&mut app, Key::Enter).is_empty());
    assert_eq!(app.status_line(), "Directory path is empty.");
    let path = b"/nowhere".to_vec();
    let actions = app.finish_commit(path.clone(), DirectoryProbe::NotADirectory);
    assert!(actions.unwrap().is_empty());
    assert_eq!(app.status_line(), "Not a directory: /nowhere");
    let known = DirectoryProbe::Resolved(b"/lib".to_vec());
    assert!(app.finish_commit(path.clone(), known).unwrap().is_empty());
    assert_eq!(app.status_line(), "Directory already exists in the library.");
    let error = app.finish_commit(path, DirectoryProbe::Unresolved).unwrap_err();
    assert_eq!(error.message(), "failed to canonicalize /nowhere");
    press(&mut app, Key::Char('a'));
    press(&mut app, Key::Esc);
    assert_eq!(app.status_line(), "Directory entry canceled.");
    assert_eq!(app.config.library_dirs, ["/lib", "/other"]);
}

#[test]
fn tab_completes_directories() {
    let mut app = app();
    press(&mut app, Key::Char('a'));
    type_text(&mut app, "~/Bo");
    match press(&mut app, Key::Tab).into_iter().next() {
        Some(Action::ProbeCompletion { path }) => assert_eq!(path, b"/home/you/Bo"),
        other => panic!("{other:?}"),
    }
    let home = b"/home/you".to_vec();
    let found = vec![
        b"/home/you/Boots".to_vec(),
        b"/home/you/Books".to_vec(),
        b"/home/you/Music".to_vec(),
    ];
    app.complete_directory_input(&home, "Bo", &Some(found.clone()));
    assert_eq!(app.editor.line(), "~/Boo");
    assert_eq!(app.editor.cursor(), 5);
    assert_eq!(app.status_line(), "2 matches");
    app.complete_directory_input(&home, "Book", &Some(found.clone()));
    assert_eq!(app.editor.line(), "~/Books/");
    assert_eq!(app.status_line(), "Completed ~/Books/");
    app.complete_directory_input(&home, "", &Some(found.clone()));
    assert_eq!(app.editor.line(), "~/Books/");
    assert_eq!(app.status_line(), "3 directory matches.");
    app.complete_directory_input(&home, "x", &Some(found));
    assert_eq!(app.status_line(), "No matching directories.");
    app.complete_directory_input(&home, "x", &None);
    assert_eq!(app.status_line(), "Cannot read /home/you");
}

#[test]
fn roots_are_removed() {
    let mut app = app();
    assert_eq!(app.selected_root().map(String::as_str), Some("/lib"));
    let actions = press(&mut app, Key::Char('d'));
    assert!(matches!(
        &actions[..],
        [Action::SaveConfig, Action::Rescan(ScanReason::Removed(root))] if root == "/lib"
    ));
    assert_eq!(app.config.library_dirs, ["/other"]);
    app.rescan_library(&vec![], &ScanReason::Removed("/lib".to_owned()));
    assert_eq!(app.status_line(), "Removed root /lib");
    assert_eq!(app.selected, None);
    assert!(app
        .library_root_for_path(&b"/library/x.mp3".to_vec())
        .is_none());
}

#[test]
fn rescans_keep_the_selected_item() {
    let mut app = app();
    press(&mut app, Key::PageDown);
    assert_eq!(selected(&app).as_deref(), Some("gamma"));
    assert!(matches!(
        press(&mut app, Key::Char('r'))[..],
        [Action::Rescan(ScanReason::Asked)]
    ));
    app.rescan_library(&listings(&BOOKS[1..3]), &ScanReason::Asked);
    assert_eq!(selected(&app).as_deref(), Some("gamma"));
    assert_eq!(
        app.status_line(),
        "Scanned 2 audiobook files across 2 roots."
    );
    assert_eq!(
        app.ui_state.last_selected.as_deref(),
        Some("/lib/Author B/gamma.m4b")
    );
    app.rescan_library(&listings(&BOOKS[..2]), &ScanReason::Asked);
    assert_eq!(selected(&app).as_deref(), Some("Alpha"));
}

fn bar(y: u16) -> Rect {
    Rect {
        x: 0,
        y,
        width: 80,
        height: 3,
    }
}

fn timeline() -> Option<HitTarget> {
    Some(HitTarget::Timeline { area: bar(15) })
}

fn volume_bar() -> Option<HitTarget> {
    Some(HitTarget::Volume { area: bar(18) })
}

#[test]
fn the_timeline_seeks_on_release() {
    let mut app = app();
    start(&mut app, 1000);
    let at = |secs: u64| Duration::from_secs(secs);
    let now = playing_at(30);
    assert!(app.handle_mouse_event(Gesture::Press, timeline(), at(100), 0, &now).is_empty());
    assert_eq!(transport_view(&app, &now).timeline_label, "01:40 / 16:40");
    assert_eq!(app.pointer_target(Gesture::Drag, volume_bar()), timeline());
    let actions = app.handle_mouse_event(Gesture::Drag, volume_bar(), at(200), 9, &now);
    assert!(actions.is_empty());
    assert_eq!(app.player.volume(), 70);
    match app.handle_mouse_event(Gesture::Release, None, at(0), 0, &now)[..] {
        [Action::Device(Command::Seek(place)), Action::PersistResume] => {
            assert_eq!(place.as_secs(), 200)
        }
        _ => panic!(),
    }
    assert_eq!(app.status_line(), "Seeked to 03:20");
    assert_eq!(app.drag, None);
    assert_eq!(app.preview, None);
    assert_eq!(app.last_interaction_at, Duration::zero());
    assert!(app
        .handle_mouse_event(Gesture::Release, timeline(), at(5), 0, &now)
        .is_empty());
}

#[test]
fn the_volume_bar_acts_at_once() {
    let mut app = app();
    let zero = Duration::zero();
    let actions = app.handle_mouse_event(Gesture::Press, volume_bar(), zero, 30, &quiet());
    assert!(matches!(
        actions[..],
        [Action::Device(Command::SetVolume(30)), Action::SaveConfig]
    ));
    app.handle_mouse_event(Gesture::Drag, timeline(), zero, 40, &quiet());
    assert_eq!(app.player.volume(), 40);
    assert_eq!(app.preview, None);
    assert!(app
        .handle_mouse_event(Gesture::Release, None, zero, 0, &quiet())
        .is_empty());
    assert!(app.handle_mouse_event(Gesture::Press, None, zero, 0, &quiet()).is_empty());
    assert_eq!(app.player.volume(), 40);
}

#[test]
fn the_timeline_needs_a_known_length() {
    let mut app = app();
    let at = Duration::from_secs(5);
    assert!(app.handle_mouse_event(Gesture::Press, timeline(), at, 0, &quiet()).is_empty());
    assert_eq!(app.preview, None);
    assert!(app.handle_mouse_event(Gesture::Release, None, at, 0, &quiet()).is_empty());
}

#[test]
fn bookmarks_are_made_and_gone_to() {
    let mut app = app();
    press(&mut app, Key::Char('b'));
    assert_eq!(app.status_line(), "Nothing is playing.");
    press(&mut app, Key::Char('B'));
    assert_eq!(app.status_line(), "Nothing is playing.");
    start(&mut app, 1000);
    press(&mut app, Key::Char('B'));
    assert_eq!(app.status_line(), "No bookmarks for this file.");
    press_at(&mut app, Key::Char('b'), &playing_at(65));
    assert_eq!(app.input_title(), "Add Bookmark");
    let actions = press(&mut app, Key::Enter);
    assert!(matches!(actions[..], [Action::SaveBookmarkStore]));
    assert_eq!(app.status_line(), "Bookmarked 01:05");
    press_at(&mut app, Key::Char('b'), &playing_at(90));
    type_text(&mut app, " Here ");
    press(&mut app, Key::Enter);
    let list = app.current_bookmarks().entries;
    assert_eq!(list.len(), 2);
    assert_eq!(list[0].label, "01:05");
    assert_eq!(list[1].label, "Here");
    assert_eq!(list[1].position.as_secs(), 90);
    assert_eq!(list[1].created_at_epoch_seconds, 1000);
    assert_eq!(list[1].id, "1000-90");

    press(&mut app, Key::Char('B'));
    assert_eq!(app.input_mode, InputMode::Bookmarks);
    press(&mut app, Key::Char('j'));
    press(&mut app, Key::Down);
    match press_at(&mut app, Key::Enter, &playing_at(5))[..] {
        [Action::Device(Command::Seek(place)), Action::PersistResume] => {
            assert_eq!(place.as_secs(), 90)
        }
        _ => panic!(),
    }
    assert_eq!(app.status_line(), "Jumped to Here");
    assert_eq!(app.input_mode, InputMode::Normal);
}

#[test]
fn bookmarks_are_deleted() {
    let mut app = app();
    start(&mut app, 1000);
    for at in [10, 20] {
        press_at(&mut app, Key::Char('b'), &playing_at(at));
        press(&mut app, Key::Enter);
    }
    press_at(&mut app, Key::Char('b'), &playing_at(30));
    press(&mut app, Key::Esc);
    assert_eq!(app.status_line(), "Bookmark entry canceled.");
    press(&mut app, Key::Char('B'));
    press(&mut app, Key::Char('j'));
    press(&mut app, Key::Char('k'));
    press(&mut app, Key::Up);
    press(&mut app, Key::Char('j'));
    let actions = press(&mut app, Key::Char('d'));
    assert!(matches!(actions[..], [Action::SaveBookmarkStore]));
    assert_eq!(app.status_line(), "Deleted 00:20");
    assert_eq!(app.bookmark_cursor, 0);
    assert_eq!(app.input_mode, InputMode::Bookmarks);
    press(&mut app, Key::Char('d'));
    assert_eq!(app.input_mode, InputMode::Normal);
    assert!(app.current_bookmarks().entries.is_empty());
    assert!(app.delete_bookmark().is_empty());
    app.open_bookmarks();
    app.input_mode = InputMode::Bookmarks;
    press(&mut app, Key::Esc);
    assert_eq!(app.input_mode, InputMode::Normal);
}

#[test]
fn library_lines_are_shortened() {
    let mut app = app();
    app.library_items[0].title = "A very long title that does not fit".to_owned();
    let lines = library_lines(&app, 30);
    match &lines[0] {
        LibraryLine::Head(head) => assert_eq!(head, "Author A (3)"),
        other => panic!("{other:?}"),
    }
    match &lines[1] {
        LibraryLine::Item { title, kind } => {
            assert_eq!(title, "A very l\u{2026} not fit");
            assert_eq!(kind, "  .mp3");
        }
        other => panic!("{other:?}"),
    }
}

#[test]
fn details_describe_the_selected_item() {
    let mut app = app();
    let lines = detail_lines(&app, 60);
    let expected = [
        ("Title: ", "Alpha"),
        ("Root: ", "/lib"),
        ("Path: ", "/lib/Author A/Alpha.mp3"),
        ("Format: ", "mp3"),
        ("Source: ", "filename"),
        ("Duration: ", "Unknown"),
        ("Resume: ", "Start"),
    ];
    assert_eq!(lines.len(), expected.len());
    for (line, (label, text)) in lines.iter().zip(expected) {
        assert_eq!(line.0, label);
        assert_eq!(line.1, text);
    }
    start(&mut app, 61);
    assert_eq!(detail_lines(&app, 60)[5].1, "01:01");
    assert_eq!(app.current_duration(), Some(Duration::from_secs(61)));
    app.library_items[0].metadata_title = Some("Alpha".to_owned());
    assert_eq!(detail_lines(&app, 60)[4].1, "metadata");
    assert_eq!(detail_lines(&app, 20)[2].1, "/lib\u{2026}.mp3");
}

#[test]
fn controls_show_playback() {
    let mut app = app();
    let view = transport_view(&app, &quiet());
    assert_eq!(view.timeline_title, "Timeline | Playing");
    assert_eq!(view.timeline_label, "00:00 / Unknown");
    assert!(view.progress.is_none());
    assert_eq!(view.volume_label, "70%");
    start(&mut app, 100);
    let paused = Output {
        paused: true,
        ..playing_at(25)
    };
    let view = transport_view(&app, &paused);
    assert_eq!(view.timeline_title, "Timeline | Paused");
    assert_eq!(view.timeline_label, "00:25 / 01:40");
    assert_eq!(
        view.progress,
        Some((Duration::from_secs(25), Duration::from_secs(100)))
    );
    assert_eq!(
        ratio(Duration::from_secs(150), Duration::from_secs(100)),
        Some((Duration::from_secs(100), Duration::from_secs(100)))
    );
    assert_eq!(ratio(Duration::from_secs(1), Duration::zero()), None);
    assert!(app.playback_snapshot(&paused).unwrap().is_paused);
}

#[test]
fn long_texts_lose_their_middle() {
    assert_eq!(truncate_middle("short", 10), "short");
    assert_eq!(truncate_middle("0123456789abc", 9), "0123\u{2026}9abc");
    assert_eq!(truncate_middle("0123456789abc", 10), "0123\u{2026}9abc");
    assert_eq!(truncate_middle("0123456789abc", 7), "0123456789abc");
}

#[test]
fn the_cursor_is_shown() {
    let line: Vec<char> = "abc".chars().collect();
    let shown = with_cursor(&line, 1);
    assert_eq!(shown.left, "a");
    assert_eq!(shown.under, "b");
    assert_eq!(shown.right.as_deref(), Some("c"));
    let shown = with_cursor(&line, 9);
    assert_eq!(shown.left, "abc");
    assert_eq!(shown.under, " ");
    assert_eq!(shown.right, None);
}

#[test]
fn help_names_the_keys() {
    assert_eq!(
        help_line(),
        "a add dir  / filter  s sort  e seek by  d drop root  Enter play  Space pause  q quit"
    );
}

#[test]
fn bookmarks_of_other_files_stay() {
    let mut app = app();
    start(&mut app, 1000);
    press_at(&mut app, Key::Char('b'), &playing_at(10));
    press(&mut app, Key::Enter);
    press(&mut app, Key::Down);
    start(&mut app, 1000);
    assert!(app.current_bookmarks().entries.is_empty());
    press_at(&mut app, Key::Char('b'), &playing_at(20));
    press(&mut app, Key::Enter);
    app.bookmark_cursor = 0;
    app.delete_bookmark();
    press(&mut app, Key::Up);
    start(&mut app, 1000);
    let list = app.current_bookmarks().entries;
    assert_eq!(list.len(), 1);
    assert_eq!(list[0].position.as_secs(), 10);
}

#[test]
fn volume_steps_undo_each_other() {
    let mut app = app();
    app.adjust_volume(true);
    assert_eq!(app.player.volume(), 75);
    app.adjust_volume(false);
    assert_eq!(app.player.volume(), 70);
}

#[test]
fn adding_and_removing_a_directory_leaves_the_others() {
    let mut settings = config(false);
    settings.add_dir("/m".to_owned());
    assert_eq!(settings.library_dirs, ["/lib", "/m", "/other"]);
    settings.remove_dir("/m");
    assert_eq!(settings.library_dirs, ["/lib", "/other"]);
}

#[test]
fn a_selected_row_stays_an_item_while_playing_reorders_rows() {
    let state = UiState {
        last_selected: None,
        sort_mode: SortMode::LastPlayed,
    };
    let mut app = app_with(config(false), state, ResumeStore::default());
    for _ in 0..4 {
        start(&mut app, 1000);
        app.persist_current_resume(&playing_at(5), 50, Duration::zero());
        assert!(app.selected_item().is_some());
        press(&mut app, Key::Down);
        assert!(app.selected_item().is_some());
    }
}

#[test]
fn keys_leave_items_and_cache_alone() {
    let mut app = app();
    let before = (app.library_items.len(), app.library_cache.entries.len());
    for key in [Key::Char('s'), Key::Char('d'), Key::Char('r'), Key::Enter, Key::Other] {
        press(&mut app, key);
    }
    assert_eq!(
        (app.library_items.len(), app.library_cache.entries.len()),
        before
    );
}

#[test]
fn a_failed_seek_leaves_a_message() {
    let mut app = app();
    start(&mut app, 1000);
    assert_eq!(press_at(&mut app, Key::Right, &playing_at(50)).len(), 2);
    app.seek_failed();
    assert_eq!(app.status_line(), "failed to seek");
    assert!(press_at(&mut app, Key::Char('u'), &playing_at(50)).is_empty());
    assert_eq!(app.status_line(), "No seek to undo.");
}

const REPORT: &str = "start_time=0.000000\nTAG:title=Opening\nstart_time=250.500000\n\
    start_time=500.000000\nTAG:title=A = B\n";

fn app_with_chapters() -> App {
    let books = [("/lib/Author B/gamma.m4b", 200, 13)];
    let mut app = App::load(
        config(false),
        UiState::default(),
        ResumeStore::default(),
        BookmarkStore::default(),
        LibraryCache::default(),
        &listings(&books),
        None,
        Duration::zero(),
    )
    .0;
    match &start(&mut app, 1000)[..] {
        [Action::ProbeChapters { path }] => assert_eq!(path, b"/lib/Author B/gamma.m4b"),
        other => panic!("{other:?}"),
    }
    assert!(app.chapters.is_empty());
    app.finish_chapters(&b"/lib/Author B/gamma.m4b".to_vec(), REPORT);
    app
}

fn seek_of(actions: &[Action]) -> Duration {
    match actions {
        [Action::Device(Command::Seek(place)), Action::PersistResume] => *place,
        other => panic!("{other:?}"),
    }
}

#[test]
fn reports_name_chapters() {
    let list = parse_chapters(REPORT);
    assert_eq!(list.len(), 3);
    assert_eq!(list[0].start, Duration::zero());
    assert_eq!(list[1].start, Duration::from_nanos(250_500_000_000).unwrap());
    assert_eq!(list[2].start, Duration::from_secs(500));
    assert_eq!(title_of(&list, 0), "Opening");
    assert_eq!(title_of(&list, 1), "Chapter 2");
    assert_eq!(title_of(&list, 2), "A = B");
    assert_eq!(find_chapter(&list, Duration::from_secs(250)), Some(0));
    assert_eq!(find_chapter(&list, Duration::from_secs(251)), Some(1));
    assert_eq!(find_chapter(&list, Duration::from_secs(500)), Some(2));
    assert!(parse_chapters("").is_empty());
    assert!(parse_chapters("TAG:title=Lost\nstart_time=N/A\nother=1").is_empty());
    let late = parse_chapters("start_time=9");
    assert_eq!(find_chapter(&late, Duration::from_secs(8)), None);
}

#[test]
fn decimal_numbers_are_times() {
    let time = |number: &str| parse_decimal_time(&number.chars().collect());
    assert_eq!(time("754.25"), Duration::from_nanos(754_250_000_000));
    assert_eq!(time("3"), Some(Duration::from_secs(3)));
    assert_eq!(time("0.000000001"), Duration::from_nanos(1));
    assert_eq!(time(""), None);
    assert_eq!(time("-1"), None);
    assert_eq!(time("1.2.3"), None);
    assert_eq!(time("18446744073709551616"), None);
}

#[test]
fn chapters_are_asked_for_where_they_may_be() {
    let mut app = app();
    assert!(start(&mut app, 1000).is_empty());
    press(&mut app, Key::Char('v'));
    assert_eq!(app.status_line(), "No chapters in this file.");
    press(&mut app, Key::Char('C'));
    assert_eq!(app.input_mode, InputMode::Normal);
    app.finish_chapters(&b"/lib/other.m4b".to_vec(), REPORT);
    assert!(app.chapters.is_empty());
}

#[test]
fn chapters_need_a_file() {
    let mut app = app();
    for key in ['c', 'v', 'C'] {
        assert!(press(&mut app, Key::Char(key)).is_empty());
        assert_eq!(app.status_line(), "Nothing is playing.");
    }
}

#[test]
fn keys_go_from_chapter_to_chapter() {
    let mut app = app_with_chapters();
    let actions = press_at(&mut app, Key::Char('v'), &playing_at(300));
    assert_eq!(seek_of(&actions), Duration::from_secs(500));
    assert_eq!(app.status_line(), "Jumped to A = B");
    assert!(press_at(&mut app, Key::Char('v'), &playing_at(500)).is_empty());
    assert_eq!(app.status_line(), "No next chapter.");
    let actions = press_at(&mut app, Key::Char('c'), &playing_at(500));
    assert_eq!(seek_of(&actions), app.chapters[1].start);
    assert_eq!(app.status_line(), "Jumped to Chapter 2");
    let actions = press_at(&mut app, Key::Char('c'), &playing_at(20));
    assert_eq!(seek_of(&actions), Duration::zero());
    assert_eq!(app.status_line(), "Jumped to Opening");
}

#[test]
fn chapters_are_chosen_from_a_list() {
    let mut app = app_with_chapters();
    press_at(&mut app, Key::Char('C'), &playing_at(300));
    assert_eq!(app.input_mode, InputMode::Chapters);
    assert_eq!(app.chapter_cursor, 1);
    press(&mut app, Key::Char('k'));
    press(&mut app, Key::Up);
    assert_eq!(app.chapter_cursor, 0);
    press(&mut app, Key::Char('j'));
    press(&mut app, Key::Down);
    press(&mut app, Key::Down);
    assert_eq!(app.chapter_cursor, 2);
    let actions = press_at(&mut app, Key::Enter, &playing_at(300));
    assert_eq!(seek_of(&actions), Duration::from_secs(500));
    assert_eq!(app.input_mode, InputMode::Normal);
    press_at(&mut app, Key::Char('C'), &playing_at(300));
    assert!(press(&mut app, Key::Esc).is_empty());
    assert_eq!(app.input_mode, InputMode::Normal);
}

#[test]
fn marks_stand_on_the_timeline() {
    let mut app = app_with_chapters();
    for at in [750, 1000] {
        press_at(&mut app, Key::Char('b'), &playing_at(at));
        press(&mut app, Key::Enter);
    }
    let mark = |column: u16, bookmark: bool| Mark { column, bookmark };
    let chapters = [mark(0, false), mark(10, false), mark(20, false)];
    let marks = timeline_marks(&app, 40);
    assert_eq!(marks[..3], chapters);
    assert_eq!(marks[3..], [mark(30, true), mark(39, true)]);
    assert!(timeline_marks(&app, 0).is_empty());
    assert!(timeline_marks(&self::app(), 40).is_empty());
}

#[test]
fn keys_change_the_speed() {
    let mut app = app();
    assert_eq!(transport_view(&app, &quiet()).speed_label, "1.00x");
    let actions = press(&mut app, Key::Char('p'));
    assert!(matches!(actions[..], [Action::Device(Command::SetSpeed(125))]));
    assert_eq!(app.status_line(), "Speed 1.25x");
    for _ in 0..9 {
        press(&mut app, Key::Char('p'));
    }
    assert_eq!(app.status_line(), "Speed 2.00x");
    for _ in 0..9 {
        press(&mut app, Key::Char('o'));
    }
    assert_eq!(app.status_line(), "Speed 0.50x");
    assert_eq!(transport_view(&app, &quiet()).speed_label, "0.50x");
    assert_eq!(format_speed(205), "2.05x");
}

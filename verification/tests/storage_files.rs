use booktui::keyed::KeyedMap;
use booktui::storage::{
    canonical_key, duration_from_entry, media_key, sort_texts, BookmarkStore, Config, FileRead,
    FileWrite, LibraryCache, ResumeEntry, ResumeStore, SortMode, Storage, StorageError, UiState,
};
use booktui::time::Duration;

fn storage() -> Storage {
    Storage::new(None, None, Some("/home/you")).unwrap()
}

#[test]
fn files_lie_under_home() {
    let storage = storage();
    assert_eq!(storage.config_root(), b"/home/you/.config/booktui");
    assert_eq!(storage.state_root(), b"/home/you/.local/state/booktui");
    assert_eq!(storage.config_path(), b"/home/you/.config/booktui/config.toml");
    assert_eq!(storage.state_path(), b"/home/you/.local/state/booktui/state.toml");
    assert_eq!(storage.resume_path(), b"/home/you/.local/state/booktui/resume.toml");
    assert_eq!(
        storage.bookmarks_path(),
        b"/home/you/.local/state/booktui/bookmarks.toml"
    );
    assert_eq!(
        storage.cache_path(),
        b"/home/you/.local/state/booktui/library-cache.toml"
    );
}

#[test]
fn base_directories_come_from_variables() {
    let storage = Storage::new(Some("/etc/xdg/"), Some("/var/state"), None).unwrap();
    assert_eq!(storage.config_path(), b"/etc/xdg/booktui/config.toml");
    assert_eq!(storage.cache_path(), b"/var/state/booktui/library-cache.toml");
}

#[test]
fn missing_home_is_an_error() {
    let error = Storage::new(Some("/etc/xdg"), None, None).unwrap_err();
    assert!(matches!(error, StorageError::HomeNotSet));
    assert_eq!(error.message(), "HOME is not set");
    assert!(Storage::new(None, Some("/var/state"), None).is_err());
}

#[test]
fn missing_files_load_as_defaults() {
    let storage = storage();
    let config = storage.load_config(FileRead::Missing).unwrap();
    assert!(config.library_dirs.is_empty());
    assert_eq!(config.default_volume, 70);
    assert_eq!(config.idle_timeout, "30m");
    assert!(config.memory_on_move);
    let state = storage.load_ui_state(FileRead::Missing).unwrap();
    assert_eq!(state.last_selected, None);
    assert_eq!(state.sort_mode, SortMode::Alphabetical);
    assert_eq!(storage.load_resume_store(FileRead::Missing).unwrap().positions.len(), 0);
    assert_eq!(storage.load_bookmark_store(FileRead::Missing).unwrap().files.len(), 0);
    assert_eq!(storage.load_library_cache(FileRead::Missing).unwrap().entries.len(), 0);
}

#[test]
fn broken_files_are_errors_that_name_them() {
    let storage = storage();
    let error = storage.load_config(FileRead::Unreadable).unwrap_err();
    assert_eq!(
        error.message(),
        "failed to read /home/you/.config/booktui/config.toml"
    );
    let error = storage.load_ui_state(FileRead::Malformed).unwrap_err();
    assert_eq!(
        error.message(),
        "failed to parse /home/you/.local/state/booktui/state.toml"
    );
    let error = storage.save_resume_store(FileWrite::NotWritten).unwrap_err();
    assert_eq!(
        error.message(),
        "failed to write /home/you/.local/state/booktui/resume.toml"
    );
    let error = storage.save_bookmark_store(FileWrite::NotSerialized).unwrap_err();
    assert!(matches!(error, StorageError::Serialize));
    assert_eq!(error.message(), "failed to serialize");
}

#[test]
fn parsed_files_load_as_they_are() {
    let storage = storage();
    let config = Config {
        library_dirs: vec!["/b".to_owned()],
        default_volume: 40,
        idle_timeout: "1h".to_owned(),
        memory_on_move: false,
    };
    let loaded = storage.load_config(FileRead::Parsed(config)).unwrap();
    assert_eq!(loaded.library_dirs, ["/b"]);
    assert_eq!(loaded.default_volume, 40);
    assert_eq!(loaded.idle_span(), Duration::from_secs(3600));
    assert!(storage.save_config(FileWrite::Done).is_ok());
    assert!(storage.save_ui_state(FileWrite::Done).is_ok());
    assert!(storage.save_library_cache(FileWrite::Done).is_ok());
    let state = UiState {
        last_selected: Some("x".to_owned()),
        sort_mode: SortMode::Date,
    };
    let state = storage.load_ui_state(FileRead::Parsed(state)).unwrap();
    assert_eq!(state.last_selected.as_deref(), Some("x"));
    let store = storage
        .load_bookmark_store(FileRead::Parsed(BookmarkStore::default()))
        .unwrap();
    assert_eq!(store.files.len(), 0);
    let cache = storage
        .load_library_cache(FileRead::Parsed(LibraryCache::default()))
        .unwrap();
    assert_eq!(cache.entries.len(), 0);
}

#[test]
fn bad_idle_time_counts_as_thirty_minutes() {
    let mut config = Config::default();
    assert_eq!(config.idle_span(), Duration::from_secs(1800));
    config.idle_timeout = "soon".to_owned();
    assert_eq!(config.idle_span(), Duration::from_secs(1800));
    config.idle_timeout = "90s".to_owned();
    assert_eq!(config.idle_span(), Duration::from_secs(90));
}

#[test]
fn sort_modes_follow_each_other() {
    assert_eq!(SortMode::default(), SortMode::Alphabetical);
    assert_eq!(SortMode::Alphabetical.next(), SortMode::Date);
    assert_eq!(SortMode::Date.next(), SortMode::LastPlayed);
    assert_eq!(SortMode::LastPlayed.next(), SortMode::Alphabetical);
    assert_eq!(SortMode::Alphabetical.label(), "alpha");
    assert_eq!(SortMode::Date.label(), "date");
    assert_eq!(SortMode::LastPlayed.label(), "last-played");
}

#[test]
fn keys_name_files() {
    let path = b"/books/One.m4b".to_vec();
    assert_eq!(canonical_key(&path, &None), "/books/One.m4b");
    assert_eq!(
        canonical_key(&path, &Some(b"/mnt/One.m4b".to_vec())),
        "/mnt/One.m4b"
    );
    assert_eq!(media_key(&path, Some(1234)), "One.m4b::1234");
    assert_eq!(media_key(&path, None), "One.m4b::0");
    assert_eq!(media_key(&b"/".to_vec(), Some(1)), "::1");
}

#[test]
fn keys_tell_names_and_sizes_apart() {
    let key = |path: &str, size: u64| media_key(&path.as_bytes().to_vec(), Some(size));
    assert_eq!(key("/a/b.mp3", 12), key("/c/b.mp3", 12));
    assert_ne!(key("/a/b.mp3", 12), key("/a/b.mp3", 1));
    assert_ne!(key("/a/b::1", 2), key("/a/b", 12));
    assert_ne!(key("/a/b::1", 2), key("/a/b", 2));
    assert_eq!(key("/a/b", 0), media_key(&b"/a/b".to_vec(), None));
}

#[test]
fn bytes_that_are_no_text_are_replaced() {
    let path = b"/books/\xff\xfe.mp3".to_vec();
    assert_eq!(canonical_key(&path, &None), "/books/\u{fffd}\u{fffd}.mp3");
    assert_eq!(media_key(&path, Some(5)), "::5");
}

#[test]
fn keyed_maps_keep_their_order() {
    let mut map: KeyedMap<ResumeEntry> = KeyedMap::new();
    for (key, at) in [("b", 2), ("a", 1), ("c", 3), ("b", 20)] {
        map.insert(
            key.to_owned(),
            ResumeEntry {
                position: Duration::from_secs(at),
                updated_at_epoch_seconds: at,
            },
        );
    }
    let keys: Vec<&str> = (0..map.len()).map(|i| map.entry(i).key.as_str()).collect();
    assert_eq!(keys, ["a", "b", "c"]);
    assert_eq!(duration_from_entry(map.get("b").unwrap()), Duration::from_secs(20));
    assert!(map.get("d").is_none());
    map.retain_keys(&vec!["c".to_owned(), "d".to_owned(), "a".to_owned()]);
    let keys: Vec<&str> = (0..map.len()).map(|i| map.entry(i).key.as_str()).collect();
    assert_eq!(keys, ["a", "c"]);
    assert_eq!(ResumeStore { positions: map }.positions.len(), 2);
}

#[test]
fn directories_are_kept_sorted() {
    let mut config = Config::default();
    config.add_dir("/b".to_owned());
    config.add_dir("/a".to_owned());
    config.add_dir("/c".to_owned());
    assert_eq!(config.library_dirs, ["/a", "/b", "/c"]);
    assert!(config.tracks("/b"));
    assert!(!config.tracks("/d"));
    config.remove_dir("/b");
    assert_eq!(config.library_dirs, ["/a", "/c"]);
    config.remove_dir("/d");
    assert_eq!(config.library_dirs, ["/a", "/c"]);
}

#[test]
fn texts_sort_as_in_std() {
    let mut list: Vec<String> = ["b", "", "a", "ä", "B", "ab", "a", "\u{10000}", "\u{ffff}"]
        .iter()
        .map(|s| s.to_string())
        .collect();
    let sorted = sort_texts(&list);
    list.sort();
    assert_eq!(sorted, list);
}

#[test]
fn files_of_stores_are_apart() {
    for root in ["/home/you", "/", "relative"] {
        let storage = Storage::new(Some(root), Some(root), None).unwrap();
        let paths = [
            storage.config_path(),
            storage.state_path(),
            storage.resume_path(),
            storage.bookmarks_path(),
            storage.cache_path(),
        ];
        for i in 0..paths.len() {
            for k in 0..i {
                assert_ne!(paths[i], paths[k]);
            }
        }
    }
}

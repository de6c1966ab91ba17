//! Settings and state that outlive a run, where they are kept, and the keys that they are kept
//! under.

use vstd::prelude::*;
use vstd::relations::*;
use vstd::seq_lib::*;

use crate::encoding;
use crate::keyed::KeyedMap;
use crate::library;
use crate::order;
use crate::order::IndexOrder;
use crate::paths;
use crate::text;
use crate::time;
use crate::time::Duration;

verus! {

/// The texts that a list of strings holds.
pub open spec fn texts(list: Seq<String>) -> Seq<Seq<char>> {
    list.map_values(|s: String| s@)
}

/// The text that an optional string holds.
pub open spec fn optional_text(s: Option<String>) -> Option<Seq<char>> {
    match s {
        Some(t) => Some(t@),
        None => None,
    }
}

/// A copy of an optional string.
pub fn copy_optional(s: &Option<String>) -> (copy: Option<String>)
    ensures
        optional_text(copy) == optional_text(*s),
{
    match s {
        Some(t) => Some(t.clone()),
        None => None,
    }
}

/// The settings.
#[derive(Debug)]
pub struct Config {
    pub library_dirs: Vec<String>,
    pub default_volume: u8,
    pub idle_timeout: String,
    pub memory_on_move: bool,
}

#[verifier::ext_equal]
pub struct ConfigView {
    pub library_dirs: Seq<Seq<char>>,
    pub default_volume: u8,
    pub idle_timeout: Seq<char>,
    pub memory_on_move: bool,
}

impl View for Config {
    type V = ConfigView;

    open spec fn view(&self) -> ConfigView {
        ConfigView {
            library_dirs: texts(self.library_dirs@),
            default_volume: self.default_volume,
            idle_timeout: self.idle_timeout@,
            memory_on_move: self.memory_on_move,
        }
    }
}

impl ConfigView {
    /// The settings of a first run.
    pub open spec fn initial() -> ConfigView {
        ConfigView {
            library_dirs: seq![],
            default_volume: 70,
            idle_timeout: "30m"@,
            memory_on_move: true,
        }
    }

    /// How long, in nanoseconds, playback goes on without a key press: the configured time, or
    /// thirty minutes where the setting is no duration.
    pub open spec fn idle_span(self) -> nat {
        match time::notation_seconds(self.idle_timeout) {
            Some(secs) => secs * time::NANOS_PER_SEC as nat,
            None => 1800 * time::NANOS_PER_SEC as nat,
        }
    }

    /// One more directory, with all of them in order.
    pub open spec fn with_dir(self, dir: Seq<char>) -> ConfigView {
        ConfigView {
            library_dirs: self.library_dirs.push(dir).sort_by(order::text_order()),
            ..self
        }
    }

    /// No longer the given directory.
    pub open spec fn without_dir(self, dir: Seq<char>) -> ConfigView {
        ConfigView { library_dirs: self.library_dirs.filter(other_than(dir)), ..self }
    }
}

/// The texts that are not the given one.
pub open spec fn other_than(dir: Seq<char>) -> spec_fn(Seq<char>) -> bool {
    |d: Seq<char>| d != dir
}

impl Default for Config {
    fn default() -> (config: Self)
        ensures
            config@ == ConfigView::initial(),
    {
        let config = Config {
            library_dirs: Vec::new(),
            default_volume: 70,
            idle_timeout: default_idle_timeout(),
            memory_on_move: default_memory_on_move(),
        };
        assert(config@.library_dirs =~= seq![]);
        config
    }
}

impl Config {
    /// How long playback goes on without a key press.
    pub fn idle_span(&self) -> (span: Duration)
        ensures
            span@ == self@.idle_span(),
    {
        match time::parse_duration(self.idle_timeout.as_str()) {
            Some(span) => span,
            None => Duration::from_secs(1800),
        }
    }

    /// Whether a directory is one of the library's.
    pub fn tracks(&self, dir: &str) -> (found: bool)
        ensures
            found == self@.library_dirs.contains(dir@),
    {
        let ghost dirs = self@.library_dirs;
        let mut i: usize = 0;
        while i < self.library_dirs.len()
            invariant
                i <= self.library_dirs.len(),
                dirs == texts(self.library_dirs@),
                forall|k: int| 0 <= k < i ==> #[trigger] dirs[k] != dir@,
            decreases self.library_dirs.len() - i,
        {
            assert(dirs[i as int] == self.library_dirs@[i as int]@);
            if text::same_text(self.library_dirs[i].as_str(), dir) {
                return true;
            }
            i = i + 1;
        }
        false
    }

    /// Adds a directory to the library's.
    pub fn add_dir(&mut self, dir: String)
        ensures
            final(self)@ == old(self)@.with_dir(dir@),
    {
        let ghost before = self@.library_dirs;
        let ghost added = dir@;
        self.library_dirs.push(dir);
        assert(texts(self.library_dirs@) =~= before.push(added));
        let sorted = sort_texts(&self.library_dirs);
        self.library_dirs = sorted;
    }

    /// Removes a directory from the library's.
    pub fn remove_dir(&mut self, dir: &str)
        ensures
            final(self)@ == old(self)@.without_dir(dir@),
    {
        let ghost dirs = self@.library_dirs;
        let ghost stays = other_than(dir@);
        let mut kept: Vec<String> = Vec::new();
        let mut i: usize = 0;
        proof {
            reveal(Seq::filter);
            assert(texts(kept@) =~= dirs.take(0).filter(stays));
        }
        while i < self.library_dirs.len()
            invariant
                i <= self.library_dirs.len(),
                dirs == texts(self.library_dirs@),
                stays == other_than(dir@),
                texts(kept@) == dirs.take(i as int).filter(stays),
                *self == *old(self),
            decreases self.library_dirs.len() - i,
        {
            let entry = &self.library_dirs[i];
            let ghost before = texts(kept@);
            proof {
                reveal(Seq::filter);
                assert(dirs.take(i + 1).drop_last() =~= dirs.take(i as int));
                assert(dirs.take(i + 1).last() == entry@);
            }
            if !text::same_text(entry.as_str(), dir) {
                kept.push(entry.clone());
                assert(texts(kept@) =~= before.push(entry@));
            }
            i = i + 1;
        }
        assert(dirs.take(i as int) =~= dirs);
        self.library_dirs = kept;
    }
}

/// Indices of texts in dictionary order.
spec fn text_index_order(list: Seq<Seq<char>>) -> spec_fn(usize, usize) -> bool {
    order::by_key(|i: usize| list[i as int], order::text_order(), order::by_index())
}

struct TextSorter {
    keys: Vec<Vec<char>>,
}

impl TextSorter {
    spec fn list(&self) -> Seq<Seq<char>> {
        self.keys@.map_values(|key: Vec<char>| key@)
    }
}

impl IndexOrder for TextSorter {
    closed spec fn order(&self) -> spec_fn(usize, usize) -> bool {
        text_index_order(self.list())
    }

    closed spec fn bound(&self) -> nat {
        self.keys@.len()
    }

    closed spec fn ready(&self) -> bool {
        true
    }

    proof fn order_is_total(&self) {
        order::lemma_base_orders_total();
        let list = self.list();
        order::lemma_by_key_total(
            |i: usize| list[i as int],
            order::text_order(),
            order::by_index(),
        );
    }

    fn le(&self, i: usize, j: usize) -> (le: bool) {
        assert(self.list()[i as int] == self.keys@[i as int]@);
        assert(self.list()[j as int] == self.keys@[j as int]@);
        if text::same_chars(&self.keys[i], &self.keys[j]) {
            i <= j
        } else {
            order::text_le(&self.keys[i], &self.keys[j])
        }
    }
}

/// Texts picked in the order of their sorted indices are sorted texts.
proof fn lemma_sorted_texts(list: Seq<Seq<char>>)
    requires
        list.len() <= usize::MAX,
    ensures
        library::indices_below(list.len()).sort_by(text_index_order(list)).map_values(
            |i: usize| list[i as int],
        ) == list.sort_by(order::text_order()),
{
    let by_text = order::text_order();
    let leq = text_index_order(list);
    let all = library::indices_below(list.len());
    let pick = |i: usize| list[i as int];
    let sorted = all.sort_by(leq);
    order::lemma_base_orders_total();
    order::lemma_by_key_total(|i: usize| list[i as int], by_text, order::by_index());
    all.lemma_sort_by_ensures(leq);
    list.lemma_sort_by_ensures(by_text);
    order::lemma_map_permuted(all, sorted, pick);
    assert(all.map_values(pick) =~= list);
    let picked = sorted.map_values(pick);
    assert forall|j: int, k: int| 0 <= j < k < picked.len() implies by_text(
        #[trigger] picked[j],
        #[trigger] picked[k],
    ) by {
        assert(leq(sorted[j], sorted[k]));
        if picked[j] == picked[k] {
            assert(by_text(picked[j], picked[j]));
        }
    }
    lemma_sorted_unique(picked, list.sort_by(by_text), by_text);
}

/// The texts in dictionary order.
pub fn sort_texts(list: &Vec<String>) -> (sorted: Vec<String>)
    ensures
        texts(sorted@) == texts(list@).sort_by(order::text_order()),
{
    let ghost all = texts(list@);
    let mut keys: Vec<Vec<char>> = Vec::new();
    let mut i: usize = 0;
    while i < list.len()
        invariant
            i <= list.len(),
            keys@.len() == i,
            forall|k: int| 0 <= k < i ==> (#[trigger] keys@[k])@ == list@[k]@,
        decreases list.len() - i,
    {
        keys.push(text::chars_of(list[i].as_str()));
        i = i + 1;
    }
    let sorter = TextSorter { keys };
    assert(sorter.list() =~= all);
    let indices = library::count_up(list.len());
    let arranged = order::sort_indices(&sorter, &indices);
    proof {
        order::lemma_sort_keeps_within(&sorter, indices@);
        lemma_sorted_texts(all);
    }
    let ghost expected = all.sort_by(order::text_order());
    let mut sorted: Vec<String> = Vec::new();
    let mut k: usize = 0;
    assert(texts(sorted@) =~= expected.take(0));
    while k < arranged.len()
        invariant
            k <= arranged.len(),
            all == texts(list@),
            expected == arranged@.map_values(|i: usize| all[i as int]),
            order::within(&sorter, arranged@),
            sorter.keys@.len() == list@.len(),
            texts(sorted@) == expected.take(k as int),
        decreases arranged.len() - k,
    {
        let entry = &list[arranged[k]];
        assert(expected[k as int] == entry@);
        let ghost before = texts(sorted@);
        sorted.push(entry.clone());
        assert(texts(sorted@) =~= before.push(entry@));
        assert(expected.take(k + 1) =~= expected.take(k as int).push(entry@));
        k = k + 1;
    }
    assert(expected.take(k as int) =~= expected);
    sorted
}

/// The directories stay in order and without repetition when one is added that is not yet among
/// them; no other is lost or gained.
pub proof fn law_added_dir_is_tracked_once(config: ConfigView, dir: Seq<char>)
    requires
        config.library_dirs.no_duplicates(),
        !config.library_dirs.contains(dir),
    ensures
        sorted_by(config.with_dir(dir).library_dirs, order::text_order()),
        config.with_dir(dir).library_dirs.no_duplicates(),
        forall|d: Seq<char>| #[trigger]
            config.with_dir(dir).library_dirs.contains(d) <==> d == dir
                || config.library_dirs.contains(d),
{
    let longer = config.library_dirs.push(dir);
    let sorted = config.with_dir(dir).library_dirs;
    order::lemma_base_orders_total();
    longer.lemma_sort_by_ensures(order::text_order());
    assert(longer.no_duplicates());
    longer.lemma_multiset_has_no_duplicates();
    sorted.lemma_multiset_has_no_duplicates_conv();
    longer.to_multiset_ensures();
    sorted.to_multiset_ensures();
    assert forall|d: Seq<char>| #[trigger] sorted.contains(d) <==> d == dir
        || config.library_dirs.contains(d) by {
        assert(sorted.contains(d) <==> sorted.to_multiset().count(d) > 0);
        assert(longer.contains(d) <==> longer.to_multiset().count(d) > 0);
        assert(longer[longer.len() - 1] == dir);
        if config.library_dirs.contains(d) {
            let k = choose|k: int|
                0 <= k < config.library_dirs.len() && config.library_dirs[k] == d;
            assert(longer[k] == d);
        }
    }
}

/// A removed directory is no longer tracked; every other one is as it was.
pub proof fn law_removed_dir_is_not_tracked(config: ConfigView, dir: Seq<char>)
    ensures
        forall|d: Seq<char>| #[trigger]
            config.without_dir(dir).library_dirs.contains(d) <==> d != dir
                && config.library_dirs.contains(d),
{
    let stays = other_than(dir);
    let dirs = config.library_dirs;
    let kept = config.without_dir(dir).library_dirs;
    assert forall|d: Seq<char>| #[trigger] kept.contains(d) <==> d != dir && dirs.contains(d) by {
        if kept.contains(d) {
            let k = choose|k: int| 0 <= k < kept.len() && kept[k] == d;
            dirs.lemma_filter_pred(stays, k);
            dirs.lemma_filter_contains_rev(stays, d);
        }
        if d != dir && dirs.contains(d) {
            let k = choose|k: int| 0 <= k < dirs.len() && dirs[k] == d;
            dirs.lemma_filter_contains(stays, k);
        }
    }
}

/// The idle time of a first run.
pub fn default_idle_timeout() -> (notation: String)
    ensures
        notation@ == "30m"@,
{
    "30m".to_owned()
}

/// Whether state follows moved files in a first run.
pub fn default_memory_on_move() -> (follows: bool)
    ensures
        follows,
{
    true
}

/// How the library is sorted.
#[derive(Clone, Copy, Debug, PartialEq, Eq, Structural)]
pub enum SortMode {
    Alphabetical,
    Date,
    LastPlayed,
}

impl Default for SortMode {
    fn default() -> (mode: Self)
        ensures
            mode == SortMode::Alphabetical,
    {
        SortMode::Alphabetical
    }
}

impl SortMode {
    pub open spec fn following(self) -> SortMode {
        match self {
            SortMode::Alphabetical => SortMode::Date,
            SortMode::Date => SortMode::LastPlayed,
            SortMode::LastPlayed => SortMode::Alphabetical,
        }
    }

    pub open spec fn title(self) -> Seq<char> {
        match self {
            SortMode::Alphabetical => "alpha"@,
            SortMode::Date => "date"@,
            SortMode::LastPlayed => "last-played"@,
        }
    }

    /// The mode after this one; the first follows the last.
    pub fn next(self) -> (mode: SortMode)
        ensures
            mode == self.following(),
    {
        match self {
            SortMode::Alphabetical => SortMode::Date,
            SortMode::Date => SortMode::LastPlayed,
            SortMode::LastPlayed => SortMode::Alphabetical,
        }
    }

    /// The mode's short name.
    pub fn label(self) -> (label: &'static str)
        ensures
            label@ == self.title(),
    {
        match self {
            SortMode::Alphabetical => "alpha",
            SortMode::Date => "date",
            SortMode::LastPlayed => "last-played",
        }
    }
}

/// Three steps through the sort modes lead back, and no fewer do.
pub proof fn law_sort_modes_are_three(mode: SortMode)
    ensures
        mode.following().following().following() == mode,
        mode.following() != mode,
        mode.following().following() != mode,
{
}

/// What the library view remembers.
#[derive(Debug)]
pub struct UiState {
    pub last_selected: Option<String>,
    pub sort_mode: SortMode,
}

#[verifier::ext_equal]
pub struct UiStateView {
    pub last_selected: Option<Seq<char>>,
    pub sort_mode: SortMode,
}

impl View for UiState {
    type V = UiStateView;

    open spec fn view(&self) -> UiStateView {
        UiStateView { last_selected: optional_text(self.last_selected), sort_mode: self.sort_mode }
    }
}

impl Default for UiState {
    fn default() -> (state: Self)
        ensures
            state@ == (UiStateView { last_selected: None, sort_mode: SortMode::Alphabetical }),
    {
        UiState { last_selected: None, sort_mode: SortMode::Alphabetical }
    }
}

/// How far a file has been heard, and when that was noted.
#[derive(Clone, Copy, Debug)]
pub struct ResumeEntry {
    pub position: Duration,
    pub updated_at_epoch_seconds: u64,
}

#[verifier::ext_equal]
pub struct ResumeEntryView {
    pub position: nat,
    pub updated_at_epoch_seconds: u64,
}

impl View for ResumeEntry {
    type V = ResumeEntryView;

    open spec fn view(&self) -> ResumeEntryView {
        ResumeEntryView {
            position: self.position@,
            updated_at_epoch_seconds: self.updated_at_epoch_seconds,
        }
    }
}

/// How far each file has been heard.
#[derive(Debug)]
pub struct ResumeStore {
    pub positions: KeyedMap<ResumeEntry>,
}

impl View for ResumeStore {
    type V = Map<Seq<char>, ResumeEntryView>;

    open spec fn view(&self) -> Map<Seq<char>, ResumeEntryView> {
        self.positions@
    }
}

impl Default for ResumeStore {
    fn default() -> (store: Self)
        ensures
            store@ == Map::<Seq<char>, ResumeEntryView>::empty(),
    {
        ResumeStore { positions: KeyedMap::new() }
    }
}

/// A place in a file, with a name.
#[derive(Debug)]
pub struct BookmarkEntry {
    pub id: String,
    pub position: Duration,
    pub label: String,
    pub created_at_epoch_seconds: u64,
}

#[verifier::ext_equal]
pub struct BookmarkView {
    pub id: Seq<char>,
    pub position: nat,
    pub label: Seq<char>,
    pub created_at_epoch_seconds: u64,
}

impl View for BookmarkEntry {
    type V = BookmarkView;

    open spec fn view(&self) -> BookmarkView {
        BookmarkView {
            id: self.id@,
            position: self.position@,
            label: self.label@,
            created_at_epoch_seconds: self.created_at_epoch_seconds,
        }
    }
}

impl Clone for BookmarkEntry {
    fn clone(&self) -> (copy: Self)
        ensures
            copy@ == self@,
    {
        BookmarkEntry {
            id: self.id.clone(),
            position: self.position,
            label: self.label.clone(),
            created_at_epoch_seconds: self.created_at_epoch_seconds,
        }
    }
}

/// The bookmarks of one file, in the order in which they were made.
#[derive(Debug)]
pub struct BookmarkList {
    pub entries: Vec<BookmarkEntry>,
}

impl View for BookmarkList {
    type V = Seq<BookmarkView>;

    open spec fn view(&self) -> Seq<BookmarkView> {
        self.entries@.map_values(|entry: BookmarkEntry| entry@)
    }
}

/// The bookmarks of each file.
#[derive(Debug)]
pub struct BookmarkStore {
    pub files: KeyedMap<BookmarkList>,
}

impl View for BookmarkStore {
    type V = Map<Seq<char>, Seq<BookmarkView>>;

    open spec fn view(&self) -> Map<Seq<char>, Seq<BookmarkView>> {
        self.files@
    }
}

impl Default for BookmarkStore {
    fn default() -> (store: Self)
        ensures
            store@ == Map::<Seq<char>, Seq<BookmarkView>>::empty(),
    {
        BookmarkStore { files: KeyedMap::new() }
    }
}

/// What an earlier scan found out about a file.
#[derive(Debug)]
pub struct CachedLibraryEntry {
    pub title: String,
    pub metadata_title: Option<String>,
    pub extension: String,
    pub parent_label: String,
    pub modified_epoch_seconds: u64,
}

#[verifier::ext_equal]
pub struct CachedEntryView {
    pub title: Seq<char>,
    pub metadata_title: Option<Seq<char>>,
    pub extension: Seq<char>,
    pub parent_label: Seq<char>,
    pub modified_epoch_seconds: u64,
}

impl View for CachedLibraryEntry {
    type V = CachedEntryView;

    open spec fn view(&self) -> CachedEntryView {
        CachedEntryView {
            title: self.title@,
            metadata_title: optional_text(self.metadata_title),
            extension: self.extension@,
            parent_label: self.parent_label@,
            modified_epoch_seconds: self.modified_epoch_seconds,
        }
    }
}

/// What earlier scans found out.
#[derive(Debug)]
pub struct LibraryCache {
    pub entries: KeyedMap<CachedLibraryEntry>,
}

impl View for LibraryCache {
    type V = Map<Seq<char>, CachedEntryView>;

    open spec fn view(&self) -> Map<Seq<char>, CachedEntryView> {
        self.entries@
    }
}

impl Default for LibraryCache {
    fn default() -> (cache: Self)
        ensures
            cache@ == Map::<Seq<char>, CachedEntryView>::empty(),
    {
        LibraryCache { entries: KeyedMap::new() }
    }
}

/// Why something could not be loaded or saved.
#[derive(Debug)]
pub enum StorageError {
    HomeNotSet,
    Read { path: Vec<u8> },
    Parse { path: Vec<u8> },
    Serialize,
    Write { path: Vec<u8> },
}

impl StorageError {
    /// The message for the error.
    pub open spec fn text(self) -> Seq<char> {
        match self {
            StorageError::HomeNotSet => "HOME is not set"@,
            StorageError::Read { path } => "failed to read "@ + encoding::lossy(path@),
            StorageError::Parse { path } => "failed to parse "@ + encoding::lossy(path@),
            StorageError::Serialize => "failed to serialize"@,
            StorageError::Write { path } => "failed to write "@ + encoding::lossy(path@),
        }
    }

    pub fn message(&self) -> (message: String)
        ensures
            message@ == self.text(),
    {
        match self {
            StorageError::HomeNotSet => "HOME is not set".to_owned(),
            StorageError::Read { path } => text::concat2(
                "failed to read ",
                encoding::lossy_text(path).as_str(),
            ),
            StorageError::Parse { path } => text::concat2(
                "failed to parse ",
                encoding::lossy_text(path).as_str(),
            ),
            StorageError::Serialize => "failed to serialize".to_owned(),
            StorageError::Write { path } => text::concat2(
                "failed to write ",
                encoding::lossy_text(path).as_str(),
            ),
        }
    }
}

/// What came of reading a file.
pub enum FileRead<T> {
    Missing,
    Unreadable,
    Malformed,
    Parsed(T),
}

/// What came of writing a file.
#[derive(Clone, Copy, PartialEq, Eq, Structural)]
pub enum FileWrite {
    Done,
    NotSerialized,
    NotWritten,
}

/// What loading a file yields: the default where there is no file, the contents where they could be
/// read and parsed, else an error that names the file.
pub open spec fn loaded<T>(
    path: Seq<u8>,
    read: FileRead<T>,
    is_default: spec_fn(T) -> bool,
    result: Result<T, StorageError>,
) -> bool {
    match read {
        FileRead::Missing => result matches Ok(value) && is_default(value),
        FileRead::Unreadable => result matches Err(StorageError::Read { path: p }) && p@ == path,
        FileRead::Malformed => result matches Err(StorageError::Parse { path: p }) && p@ == path,
        FileRead::Parsed(value) => result == Ok::<T, StorageError>(value),
    }
}

/// What saving a file yields: nothing where it was written, else an error.
pub open spec fn saved(
    path: Seq<u8>,
    write: FileWrite,
    result: Result<(), StorageError>,
) -> bool {
    match write {
        FileWrite::Done => result is Ok,
        FileWrite::NotSerialized => result == Err::<(), StorageError>(StorageError::Serialize),
        FileWrite::NotWritten => result matches Err(StorageError::Write { path: p }) && p@ == path,
    }
}

fn load_or_default<T>(path: &Vec<u8>, read: FileRead<T>, default: T) -> (result: Result<
    T,
    StorageError,
>)
    ensures
        loaded(path@, read, |value: T| value == default, result),
{
    match read {
        FileRead::Missing => Ok(default),
        FileRead::Unreadable => Err(StorageError::Read { path: paths::copy_bytes(path) }),
        FileRead::Malformed => Err(StorageError::Parse { path: paths::copy_bytes(path) }),
        FileRead::Parsed(value) => Ok(value),
    }
}

fn save_toml(path: &Vec<u8>, write: FileWrite) -> (result: Result<(), StorageError>)
    ensures
        saved(path@, write, result),
{
    match write {
        FileWrite::Done => Ok(()),
        FileWrite::NotSerialized => Err(StorageError::Serialize),
        FileWrite::NotWritten => Err(StorageError::Write { path: paths::copy_bytes(path) }),
    }
}

/// A base directory: the one that a variable names, else the fallback under the home directory.
pub open spec fn base_dir(
    variable: Option<Seq<char>>,
    home: Option<Seq<char>>,
    fallback: Seq<char>,
) -> Option<Seq<u8>> {
    match (variable, home) {
        (Some(dir), _) => Some(encoding::encoded(dir)),
        (None, Some(dir)) => Some(
            paths::joined(encoding::encoded(dir), encoding::encoded(fallback)),
        ),
        (None, None) => None,
    }
}

/// The text of an optional string slice.
pub open spec fn optional_str(s: Option<&str>) -> Option<Seq<char>> {
    match s {
        Some(t) => Some(t@),
        None => None,
    }
}

fn xdg_dir(variable: Option<&str>, home: Option<&str>, fallback: &str) -> (dir: Result<
    Vec<u8>,
    StorageError,
>)
    ensures
        match base_dir(optional_str(variable), optional_str(home), fallback@) {
            Some(path) => dir matches Ok(d) && d@ == path,
            None => dir == Err::<Vec<u8>, StorageError>(StorageError::HomeNotSet),
        },
{
    match variable {
        Some(dir) => Ok(encoding::text_bytes(dir)),
        None => match home {
            Some(dir) => Ok(paths::join_text(&encoding::text_bytes(dir), fallback)),
            None => Err(StorageError::HomeNotSet),
        },
    }
}

/// The files that settings and state are kept in.
#[derive(Debug)]
pub struct Storage {
    config_root: Vec<u8>,
    state_root: Vec<u8>,
    config_path: Vec<u8>,
    state_path: Vec<u8>,
    resume_path: Vec<u8>,
    bookmarks_path: Vec<u8>,
    cache_path: Vec<u8>,
}

/// A name under a directory.
pub open spec fn under(dir: Seq<u8>, name: Seq<char>) -> Seq<u8> {
    paths::joined(dir, encoding::encoded(name))
}

impl Storage {
    pub closed spec fn config_dir(self) -> Seq<u8> {
        self.config_root@
    }

    pub closed spec fn state_dir(self) -> Seq<u8> {
        self.state_root@
    }

    pub closed spec fn config_file(self) -> Seq<u8> {
        self.config_path@
    }

    pub closed spec fn state_file(self) -> Seq<u8> {
        self.state_path@
    }

    pub closed spec fn resume_file(self) -> Seq<u8> {
        self.resume_path@
    }

    pub closed spec fn bookmarks_file(self) -> Seq<u8> {
        self.bookmarks_path@
    }

    pub closed spec fn cache_file(self) -> Seq<u8> {
        self.cache_path@
    }

    /// Every file lies in its directory under its own name.
    pub open spec fn laid_out(self, config_base: Seq<u8>, state_base: Seq<u8>) -> bool {
        &&& self.config_dir() == under(config_base, "booktui"@)
        &&& self.state_dir() == under(state_base, "booktui"@)
        &&& self.config_file() == under(self.config_dir(), "config.toml"@)
        &&& self.state_file() == under(self.state_dir(), "state.toml"@)
        &&& self.resume_file() == under(self.state_dir(), "resume.toml"@)
        &&& self.bookmarks_file() == under(self.state_dir(), "bookmarks.toml"@)
        &&& self.cache_file() == under(self.state_dir(), "library-cache.toml"@)
    }

    /// The files' places, given the values of `XDG_CONFIG_HOME`, `XDG_STATE_HOME` and `HOME`.
    pub fn new(
        config_home: Option<&str>,
        state_home: Option<&str>,
        home: Option<&str>,
    ) -> (storage: Result<Storage, StorageError>)
        ensures
            match (
                base_dir(optional_str(config_home), optional_str(home), ".config"@),
                base_dir(optional_str(state_home), optional_str(home), ".local/state"@),
            ) {
                (Some(config_base), Some(state_base)) => storage matches Ok(s) && s.laid_out(
                    config_base,
                    state_base,
                ),
                _ => storage == Err::<Storage, StorageError>(StorageError::HomeNotSet),
            },
    {
        let config_base = match xdg_dir(config_home, home, ".config") {
            Ok(dir) => dir,
            Err(_) => {
                return Err(StorageError::HomeNotSet);
            },
        };
        let state_base = match xdg_dir(state_home, home, ".local/state") {
            Ok(dir) => dir,
            Err(_) => {
                return Err(StorageError::HomeNotSet);
            },
        };
        let config_root = paths::join_text(&config_base, "booktui");
        let state_root = paths::join_text(&state_base, "booktui");
        let config_path = paths::join_text(&config_root, "config.toml");
        let state_path = paths::join_text(&state_root, "state.toml");
        let resume_path = paths::join_text(&state_root, "resume.toml");
        let bookmarks_path = paths::join_text(&state_root, "bookmarks.toml");
        let cache_path = paths::join_text(&state_root, "library-cache.toml");
        Ok(
            Storage {
                config_root,
                state_root,
                config_path,
                state_path,
                resume_path,
                bookmarks_path,
                cache_path,
            },
        )
    }

    pub fn config_root(&self) -> (dir: &Vec<u8>)
        ensures
            dir@ == self.config_dir(),
    {
        &self.config_root
    }

    pub fn state_root(&self) -> (dir: &Vec<u8>)
        ensures
            dir@ == self.state_dir(),
    {
        &self.state_root
    }

    pub fn config_path(&self) -> (path: &Vec<u8>)
        ensures
            path@ == self.config_file(),
    {
        &self.config_path
    }

    pub fn state_path(&self) -> (path: &Vec<u8>)
        ensures
            path@ == self.state_file(),
    {
        &self.state_path
    }

    pub fn resume_path(&self) -> (path: &Vec<u8>)
        ensures
            path@ == self.resume_file(),
    {
        &self.resume_path
    }

    pub fn bookmarks_path(&self) -> (path: &Vec<u8>)
        ensures
            path@ == self.bookmarks_file(),
    {
        &self.bookmarks_path
    }

    pub fn cache_path(&self) -> (path: &Vec<u8>)
        ensures
            path@ == self.cache_file(),
    {
        &self.cache_path
    }

    /// The settings, from what came of reading their file.
    pub fn load_config(&self, read: FileRead<Config>) -> (result: Result<Config, StorageError>)
        ensures
            loaded(
                self.config_file(),
                read,
                |config: Config| config@ == ConfigView::initial(),
                result,
            ),
    {
        load_or_default(&self.config_path, read, Config::default())
    }

    /// What came of writing the settings.
    pub fn save_config(&self, write: FileWrite) -> (result: Result<(), StorageError>)
        ensures
            saved(self.config_file(), write, result),
    {
        save_toml(&self.config_path, write)
    }

    /// The state of the library view, from what came of reading its file.
    pub fn load_ui_state(&self, read: FileRead<UiState>) -> (result: Result<UiState, StorageError>)
        ensures
            loaded(
                self.state_file(),
                read,
                |state: UiState|
                    state@ == (UiStateView {
                        last_selected: None,
                        sort_mode: SortMode::Alphabetical,
                    }),
                result,
            ),
    {
        load_or_default(&self.state_path, read, UiState::default())
    }

    /// What came of writing the state of the library view.
    pub fn save_ui_state(&self, write: FileWrite) -> (result: Result<(), StorageError>)
        ensures
            saved(self.state_file(), write, result),
    {
        save_toml(&self.state_path, write)
    }

    /// The resume positions, from what came of reading their file.
    pub fn load_resume_store(&self, read: FileRead<ResumeStore>) -> (result: Result<
        ResumeStore,
        StorageError,
    >)
        ensures
            loaded(
                self.resume_file(),
                read,
                |store: ResumeStore| store@ == Map::<Seq<char>, ResumeEntryView>::empty(),
                result,
            ),
    {
        load_or_default(&self.resume_path, read, ResumeStore::default())
    }

    /// What came of writing the resume positions.
    pub fn save_resume_store(&self, write: FileWrite) -> (result: Result<(), StorageError>)
        ensures
            saved(self.resume_file(), write, result),
    {
        save_toml(&self.resume_path, write)
    }

    /// The bookmarks, from what came of reading their file.
    pub fn load_bookmark_store(&self, read: FileRead<BookmarkStore>) -> (result: Result<
        BookmarkStore,
        StorageError,
    >)
        ensures
            loaded(
                self.bookmarks_file(),
                read,
                |store: BookmarkStore| store@ == Map::<Seq<char>, Seq<BookmarkView>>::empty(),
                result,
            ),
    {
        load_or_default(&self.bookmarks_path, read, BookmarkStore::default())
    }

    /// What came of writing the bookmarks.
    pub fn save_bookmark_store(&self, write: FileWrite) -> (result: Result<(), StorageError>)
        ensures
            saved(self.bookmarks_file(), write, result),
    {
        save_toml(&self.bookmarks_path, write)
    }

    /// What earlier scans found out, from what came of reading its file.
    pub fn load_library_cache(&self, read: FileRead<LibraryCache>) -> (result: Result<
        LibraryCache,
        StorageError,
    >)
        ensures
            loaded(
                self.cache_file(),
                read,
                |cache: LibraryCache| cache@ == Map::<Seq<char>, CachedEntryView>::empty(),
                result,
            ),
    {
        load_or_default(&self.cache_path, read, LibraryCache::default())
    }

    /// What came of writing what scans found out.
    pub fn save_library_cache(&self, write: FileWrite) -> (result: Result<(), StorageError>)
        ensures
            saved(self.cache_file(), write, result),
    {
        save_toml(&self.cache_path, write)
    }
}

/// The path that a file is known by: where it really is, or the path itself where that is unknown.
pub open spec fn canonical_text(path: Seq<u8>, resolved: Option<Seq<u8>>) -> Seq<char> {
    match resolved {
        Some(target) => encoding::lossy(target),
        None => encoding::lossy(path),
    }
}

/// The bytes of an optional byte vector.
pub open spec fn optional_bytes(bytes: Option<Vec<u8>>) -> Option<Seq<u8>> {
    match bytes {
        Some(b) => Some(b@),
        None => None,
    }
}

/// The key of a file by its path, given what the path resolves to.
pub fn canonical_key(path: &Vec<u8>, resolved: &Option<Vec<u8>>) -> (key: String)
    ensures
        key@ == canonical_text(path@, optional_bytes(*resolved)),
{
    match resolved {
        Some(target) => encoding::lossy_text(target),
        None => encoding::lossy_text(path),
    }
}

/// The text of a path's last component; empty where it has none or that is no text.
pub open spec fn name_text(path: Seq<u8>) -> Seq<char> {
    match paths::file_name(path) {
        Some(name) => match encoding::utf8(name) {
            Some(t) => t,
            None => ""@,
        },
        None => ""@,
    }
}

/// The text of a path's last component.
pub fn name_of(path: &Vec<u8>) -> (name: String)
    ensures
        name@ == name_text(path@),
{
    match paths::path_file_name(path) {
        Some(bytes) => match encoding::utf8_text(&bytes) {
            Some(name) => name,
            None => "".to_owned(),
        },
        None => "".to_owned(),
    }
}

/// The size of a file; an unknown one counts as zero.
pub open spec fn known_size(size: Option<u64>) -> nat {
    match size {
        Some(n) => n as nat,
        None => 0,
    }
}

/// A file's name and size.
pub open spec fn media_text(path: Seq<u8>, size: Option<u64>) -> Seq<char> {
    name_text(path) + "::"@ + text::decimal(known_size(size))
}

/// Two files have the same key by name and size just where their names and their sizes are the
/// same.
pub proof fn law_media_key_tells_name_and_size(
    path: Seq<u8>,
    size: Option<u64>,
    other: Seq<u8>,
    other_size: Option<u64>,
)
    ensures
        media_text(path, size) == media_text(other, other_size) <==> name_text(path) == name_text(
            other,
        ) && known_size(size) == known_size(other_size),
{
    let (a, b) = (name_text(path), name_text(other));
    let (k, l) = (a.len() as int, b.len() as int);
    let (m, n) = (text::decimal(known_size(size)), text::decimal(known_size(other_size)));
    let (x, y) = (media_text(path, size), media_text(other, other_size));
    reveal_strlit("::");
    text::lemma_decimal_is_digits(known_size(size));
    text::lemma_decimal_is_digits(known_size(other_size));
    text::law_decimal_tells_the_number(known_size(size), known_size(other_size));
    assert(x[k + 1] == ':' && y[l + 1] == ':');
    assert(x.len() == k + 2 + m.len() && y.len() == l + 2 + n.len());
    if x == y {
        assert(x.len() == y.len());
        if k < l {
            assert(0 <= l - k - 1 < m.len());
            assert(x[l + 1] == m[l - k - 1]);
        } else if k > l {
            assert(0 <= k - l - 1 < n.len());
            assert(y[k + 1] == n[k - l - 1]);
        }
        assert(x.take(k) =~= a && y.take(l) =~= b);
        assert(x.skip(k + 2) =~= m && y.skip(l + 2) =~= n);
    }
}

/// The key of a file by its name and size; an unknown size counts as zero.
pub fn media_key(path: &Vec<u8>, size: Option<u64>) -> (key: String)
    ensures
        key@ == media_text(path@, size),
{
    let name = name_of(path);
    let count: u64 = match size {
        Some(n) => n,
        None => 0,
    };
    text::concat3(name.as_str(), "::", text::decimal_text(count).as_str())
}

/// How far a file has been heard.
pub fn duration_from_entry(entry: &ResumeEntry) -> (position: Duration)
    ensures
        position@ == entry@.position,
{
    entry.position
}

}

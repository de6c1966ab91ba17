//! The library: which files belong to it, what is known of each, and scanning for them.

use vstd::prelude::*;
use vstd::relations::*;

use crate::encoding;
use crate::media;
use crate::order;
use crate::order::IndexOrder;
use crate::paths;
use crate::storage;
use crate::storage::{CachedLibraryEntry, LibraryCache};
use crate::text;

verus! {

/// An audiobook file.
#[derive(Debug)]
pub struct LibraryItem {
    pub path: Vec<u8>,
    pub title: String,
    pub metadata_title: Option<String>,
    pub extension: String,
    pub parent_label: String,
    pub modified_epoch_seconds: u64,
    pub canonical_key: String,
    pub media_key: String,
}

#[verifier::ext_equal]
pub struct ItemView {
    pub path: Seq<u8>,
    pub title: Seq<char>,
    pub metadata_title: Option<Seq<char>>,
    pub extension: Seq<char>,
    pub parent_label: Seq<char>,
    pub modified_epoch_seconds: u64,
    pub canonical_key: Seq<char>,
    pub media_key: Seq<char>,
}

impl View for LibraryItem {
    type V = ItemView;

    open spec fn view(&self) -> ItemView {
        ItemView {
            path: self.path@,
            title: self.title@,
            metadata_title: storage::optional_text(self.metadata_title),
            extension: self.extension@,
            parent_label: self.parent_label@,
            modified_epoch_seconds: self.modified_epoch_seconds,
            canonical_key: self.canonical_key@,
            media_key: self.media_key@,
        }
    }
}

impl Clone for LibraryItem {
    fn clone(&self) -> (copy: Self)
        ensures
            copy@ == self@,
    {
        LibraryItem {
            path: paths::copy_bytes(&self.path),
            title: self.title.clone(),
            metadata_title: storage::copy_optional(&self.metadata_title),
            extension: self.extension.clone(),
            parent_label: self.parent_label.clone(),
            modified_epoch_seconds: self.modified_epoch_seconds,
            canonical_key: self.canonical_key.clone(),
            media_key: self.media_key.clone(),
        }
    }
}

/// The items of a list.
pub open spec fn items(list: Seq<LibraryItem>) -> Seq<ItemView> {
    list.map_values(|item: LibraryItem| item@)
}

/// A file that a walk through the directories came upon: its path, what the path resolves to, its
/// size and time of modification as far as known, and the title that its metadata gives.
#[derive(Debug)]
pub struct FoundFile {
    pub path: Vec<u8>,
    pub resolved: Option<Vec<u8>>,
    pub size: Option<u64>,
    pub modified: Option<u64>,
    pub metadata_title: Option<String>,
}

#[verifier::ext_equal]
pub struct FoundView {
    pub path: Seq<u8>,
    pub canonical_key: Seq<char>,
    pub media_key: Seq<char>,
    pub modified: u64,
    pub metadata_title: Option<Seq<char>>,
}

/// A time of modification in seconds; an unknown one counts as zero.
pub open spec fn known_time(modified: Option<u64>) -> u64 {
    match modified {
        Some(secs) => secs,
        None => 0,
    }
}

impl View for FoundFile {
    type V = FoundView;

    open spec fn view(&self) -> FoundView {
        FoundView {
            path: self.path@,
            canonical_key: storage::canonical_text(
                self.path@,
                storage::optional_bytes(self.resolved),
            ),
            media_key: storage::media_text(self.path@, self.size),
            modified: known_time(self.modified),
            metadata_title: storage::optional_text(self.metadata_title),
        }
    }
}

/// What stands in a directory: another directory, or something that is no directory.
#[derive(Debug)]
pub enum Node {
    Directory(Listing),
    File(FoundFile),
}

/// The entries of a directory, or nothing where it cannot be read.
#[derive(Debug)]
pub struct Listing {
    pub entries: Option<Vec<Node>>,
}

/// The files in a directory and in the directories below it, in the order of the listings.
pub open spec fn listing_files(listing: Listing) -> Seq<FoundView>
    decreases listing,
{
    match listing.entries {
        None => seq![],
        Some(nodes) => nodes_files(nodes@),
    }
}

/// The files at and below some entries of a directory.
pub open spec fn nodes_files(nodes: Seq<Node>) -> Seq<FoundView>
    decreases nodes,
{
    if nodes.len() == 0 {
        seq![]
    } else {
        nodes_files(nodes.drop_last()) + node_files(nodes.last())
    }
}

/// The files at and below one entry of a directory.
pub open spec fn node_files(node: Node) -> Seq<FoundView>
    decreases node,
{
    match node {
        Node::Directory(listing) => listing_files(listing),
        Node::File(file) => seq![file@],
    }
}

/// The files in and below several directories.
pub open spec fn all_files(listings: Seq<Listing>) -> Seq<FoundView>
    decreases listings.len(),
{
    if listings.len() == 0 {
        seq![]
    } else {
        all_files(listings.drop_last()) + listing_files(listings.last())
    }
}

/// The text after the last dot of a path's name.
pub open spec fn extension_text(path: Seq<u8>) -> Option<Seq<char>> {
    match paths::file_name(path) {
        Some(name) => match paths::extension(name) {
            Some(part) => encoding::utf8(part),
            None => None,
        },
        None => None,
    }
}

/// A path whose name ends in `.mp3` or `.m4b`, in whatever case.
pub open spec fn is_audio(path: Seq<u8>) -> bool {
    extension_text(path) matches Some(ext) && (text::lower(ext) == text::lower("mp3"@)
        || text::lower(ext) == text::lower("m4b"@))
}

/// A path's name ends in `.m4b`, in whatever case.
pub open spec fn is_m4b(path: Seq<u8>) -> bool {
    extension_text(path) matches Some(ext) && text::lower(ext) == text::lower("m4b"@)
}

/// The title that a path's name gives.
pub open spec fn title_from_path(path: Seq<u8>) -> Seq<char> {
    match paths::file_name(path) {
        Some(name) => match encoding::utf8(paths::stem(name)) {
            Some(t) => t,
            None => "Unknown"@,
        },
        None => "Unknown"@,
    }
}

/// The name of the directory that a file is grouped under.
pub open spec fn group_of(path: Seq<u8>) -> Seq<char> {
    match paths::parent_name(path) {
        Some(name) => match encoding::utf8(name) {
            Some(t) => if t.len() > 0 {
                t
            } else {
                "Library Root"@
            },
            None => "Library Root"@,
        },
        None => "Library Root"@,
    }
}

/// What a file itself tells: the title of its metadata, or else that of its name.
pub open spec fn fresh_item(file: FoundView) -> ItemView {
    ItemView {
        path: file.path,
        title: match file.metadata_title {
            Some(t) => t,
            None => title_from_path(file.path),
        },
        metadata_title: file.metadata_title,
        extension: match extension_text(file.path) {
            Some(ext) => text::lower(ext),
            None => text::lower(""@),
        },
        parent_label: group_of(file.path),
        modified_epoch_seconds: file.modified,
        canonical_key: file.canonical_key,
        media_key: file.media_key,
    }
}

/// What the cache keeps of an item.
pub open spec fn entry_of(item: ItemView) -> storage::CachedEntryView {
    storage::CachedEntryView {
        title: item.title,
        metadata_title: item.metadata_title,
        extension: item.extension,
        parent_label: item.parent_label,
        modified_epoch_seconds: item.modified_epoch_seconds,
    }
}

/// The item that a cached entry tells of a file.
pub open spec fn cached_item(file: FoundView, entry: storage::CachedEntryView) -> ItemView {
    ItemView {
        path: file.path,
        title: entry.title,
        metadata_title: entry.metadata_title,
        extension: entry.extension,
        parent_label: entry.parent_label,
        modified_epoch_seconds: entry.modified_epoch_seconds,
        canonical_key: file.canonical_key,
        media_key: file.media_key,
    }
}

/// The cache knows the file as it is now.
pub open spec fn is_cached(
    file: FoundView,
    cache: Map<Seq<char>, storage::CachedEntryView>,
) -> bool {
    cache.contains_key(file.canonical_key) && cache[file.canonical_key].modified_epoch_seconds
        == file.modified
}

/// A scan in progress: the items so far, the cache, and the keys of the files seen.
#[verifier::ext_equal]
pub struct ScanView {
    pub items: Seq<ItemView>,
    pub cache: Map<Seq<char>, storage::CachedEntryView>,
    pub seen: Seq<Seq<char>>,
}

/// One more file: an audio file becomes an item, from the cache where that knows it.
pub open spec fn visit(scan: ScanView, file: FoundView) -> ScanView {
    if !is_audio(file.path) {
        scan
    } else if is_cached(file, scan.cache) {
        ScanView {
            items: scan.items.push(cached_item(file, scan.cache[file.canonical_key])),
            cache: scan.cache,
            seen: scan.seen.push(file.canonical_key),
        }
    } else {
        ScanView {
            items: scan.items.push(fresh_item(file)),
            cache: scan.cache.insert(file.canonical_key, entry_of(fresh_item(file))),
            seen: scan.seen.push(file.canonical_key),
        }
    }
}

/// Several more files, one after the other.
pub open spec fn visit_all(scan: ScanView, files: Seq<FoundView>) -> ScanView
    decreases files.len(),
{
    if files.len() == 0 {
        scan
    } else {
        visit(visit_all(scan, files.drop_last()), files.last())
    }
}

proof fn lemma_visit_all_in_two(scan: ScanView, first: Seq<FoundView>, second: Seq<FoundView>)
    ensures
        visit_all(scan, first + second) == visit_all(visit_all(scan, first), second),
    decreases second.len(),
{
    if second.len() == 0 {
        assert(first + second =~= first);
    } else {
        lemma_visit_all_in_two(scan, first, second.drop_last());
        assert((first + second).drop_last() =~= first + second.drop_last());
    }
}

/// Indices of items by path, and where paths agree in the order of the list.
pub open spec fn path_order(list: Seq<ItemView>) -> spec_fn(usize, usize) -> bool {
    order::by_key(
        |i: usize| paths::components(list[i as int].path),
        paths::components_order(),
        order::by_index(),
    )
}

/// The numbers below a count, in order.
pub open spec fn indices_below(count: nat) -> Seq<usize> {
    Seq::new(count, |i: int| i as usize)
}

/// The items in the order of their paths.
pub open spec fn in_path_order(list: Seq<ItemView>) -> Seq<ItemView> {
    indices_below(list.len()).sort_by(path_order(list)).map_values(|i: usize| list[i as int])
}

/// A list without the items that have the same path as the item kept before them.
pub open spec fn without_repeats(list: Seq<ItemView>) -> Seq<ItemView>
    decreases list.len(),
{
    if list.len() == 0 {
        seq![]
    } else {
        let kept = without_repeats(list.drop_last());
        if kept.len() > 0 && paths::components(kept.last().path) == paths::components(
            list.last().path,
        ) {
            kept
        } else {
            kept.push(list.last())
        }
    }
}

/// The scan of some files from the start.
pub open spec fn scan_of(
    files: Seq<FoundView>,
    cache: Map<Seq<char>, storage::CachedEntryView>,
) -> ScanView {
    visit_all(ScanView { items: seq![], cache, seen: seq![] }, files)
}

/// The items that a scan ends with.
pub open spec fn scanned_items(
    files: Seq<FoundView>,
    cache: Map<Seq<char>, storage::CachedEntryView>,
) -> Seq<ItemView> {
    without_repeats(in_path_order(scan_of(files, cache).items))
}

/// The cache that a scan ends with: what is known of the files seen, and of no others.
pub open spec fn scanned_cache(
    files: Seq<FoundView>,
    cache: Map<Seq<char>, storage::CachedEntryView>,
) -> Map<Seq<char>, storage::CachedEntryView> {
    scan_of(files, cache).cache.restrict(
        Set::new(|key: Seq<char>| scan_of(files, cache).seen.contains(key)),
    )
}

fn extension_of(path: &Vec<u8>) -> (ext: Option<String>)
    ensures
        storage::optional_text(ext) == extension_text(path@),
{
    match paths::path_file_name(path) {
        Some(name) => match paths::name_extension(&name) {
            Some(part) => encoding::utf8_text(&part),
            None => None,
        },
        None => None,
    }
}

/// Whether a path's name ends in `.mp3` or `.m4b`, in whatever case.
pub fn is_supported_audio(path: &Vec<u8>) -> (audio: bool)
    ensures
        audio == is_audio(path@),
{
    match extension_of(path) {
        Some(ext) => text::same_ignoring_case(ext.as_str(), "mp3") || text::same_ignoring_case(
            ext.as_str(),
            "m4b",
        ),
        None => false,
    }
}

/// Whether a path's name ends in `.m4b`, in whatever case.
pub fn may_have_chapters(path: &Vec<u8>) -> (may: bool)
    ensures
        may == is_m4b(path@),
{
    match extension_of(path) {
        Some(ext) => text::same_ignoring_case(ext.as_str(), "m4b"),
        None => false,
    }
}

/// The title that a path's name gives.
pub fn item_title(path: &Vec<u8>) -> (title: String)
    ensures
        title@ == title_from_path(path@),
{
    match paths::path_file_name(path) {
        Some(name) => match encoding::utf8_text(&paths::name_stem(&name)) {
            Some(title) => title,
            None => "Unknown".to_owned(),
        },
        None => "Unknown".to_owned(),
    }
}

/// The name of the directory that a file is grouped under.
pub fn parent_label(path: &Vec<u8>) -> (label: String)
    ensures
        label@ == group_of(path@),
{
    match paths::path_parent_name(path) {
        Some(name) => match encoding::utf8_text(&name) {
            Some(label) => if label.as_str().is_empty() {
                "Library Root".to_owned()
            } else {
                label
            },
            None => "Library Root".to_owned(),
        },
        None => "Library Root".to_owned(),
    }
}

/// A time of modification in seconds; an unknown one counts as zero.
pub fn modified_epoch_seconds(modified: Option<u64>) -> (secs: u64)
    ensures
        secs == known_time(modified),
{
    match modified {
        Some(secs) => secs,
        None => 0,
    }
}

/// Whether the metadata of a file has to be read: it is an audio file that the cache does not know
/// as it is now.
pub fn needs_metadata(
    path: &Vec<u8>,
    resolved: &Option<Vec<u8>>,
    modified: Option<u64>,
    cache: &LibraryCache,
) -> (needed: bool)
    ensures
        needed == (is_audio(path@) && !({
            let key = storage::canonical_text(path@, storage::optional_bytes(*resolved));
            cache@.contains_key(key) && cache@[key].modified_epoch_seconds == known_time(modified)
        })),
{
    if !is_supported_audio(path) {
        return false;
    }
    let key = storage::canonical_key(path, resolved);
    match cache.entries.get(key.as_str()) {
        Some(entry) => entry.modified_epoch_seconds != modified_epoch_seconds(modified),
        None => true,
    }
}

fn rebuild_item(
    file: &FoundFile,
    modified: u64,
    cache: &mut LibraryCache,
    cache_key: String,
) -> (item: LibraryItem)
    requires
        modified == file@.modified,
        cache_key@ == file@.canonical_key,
    ensures
        item@ == fresh_item(file@),
        final(cache)@ == old(cache)@.insert(file@.canonical_key, entry_of(fresh_item(file@))),
{
    let title = match &file.metadata_title {
        Some(title) => title.clone(),
        None => item_title(&file.path),
    };
    let extension = match extension_of(&file.path) {
        Some(ext) => text::fold_text(ext.as_str()),
        None => text::fold_text(""),
    };
    let item = LibraryItem {
        path: paths::copy_bytes(&file.path),
        title,
        metadata_title: storage::copy_optional(&file.metadata_title),
        extension,
        parent_label: parent_label(&file.path),
        modified_epoch_seconds: modified,
        canonical_key: cache_key.clone(),
        media_key: storage::media_key(&file.path, file.size),
    };
    cache.entries.insert(
        cache_key,
        CachedLibraryEntry {
            title: item.title.clone(),
            metadata_title: storage::copy_optional(&item.metadata_title),
            extension: item.extension.clone(),
            parent_label: item.parent_label.clone(),
            modified_epoch_seconds: item.modified_epoch_seconds,
        },
    );
    item
}

/// A scan in progress, as the values that hold it.
pub open spec fn scan_view(
    files: Seq<LibraryItem>,
    cache: LibraryCache,
    seen_keys: Seq<String>,
) -> ScanView {
    ScanView { items: items(files), cache: cache@, seen: storage::texts(seen_keys) }
}

fn visit_file(
    file: &FoundFile,
    files: &mut Vec<LibraryItem>,
    cache: &mut LibraryCache,
    seen_keys: &mut Vec<String>,
)
    ensures
        scan_view(final(files)@, *final(cache), final(seen_keys)@) == visit(
            scan_view(old(files)@, *old(cache), old(seen_keys)@),
            file@,
        ),
{
    if !is_supported_audio(&file.path) {
        return;
    }
    let modified = modified_epoch_seconds(file.modified);
    let cache_key = storage::canonical_key(&file.path, &file.resolved);
    seen_keys.push(cache_key.clone());
    let cached = match cache.entries.get(cache_key.as_str()) {
        Some(entry) => if entry.modified_epoch_seconds == modified {
            Some(
                LibraryItem {
                    path: paths::copy_bytes(&file.path),
                    title: entry.title.clone(),
                    metadata_title: storage::copy_optional(&entry.metadata_title),
                    extension: entry.extension.clone(),
                    parent_label: entry.parent_label.clone(),
                    modified_epoch_seconds: entry.modified_epoch_seconds,
                    canonical_key: cache_key.clone(),
                    media_key: storage::media_key(&file.path, file.size),
                },
            )
        } else {
            None
        },
        None => None,
    };
    let item = match cached {
        Some(item) => item,
        None => rebuild_item(file, modified, cache, cache_key),
    };
    files.push(item);
    assert(items(files@) =~= items(old(files)@).push(item@));
    assert(storage::texts(seen_keys@) =~= storage::texts(old(seen_keys)@).push(file@.canonical_key));
}

/// Takes up the audio files in a directory and below it.
pub fn visit_directory(
    listing: &Listing,
    files: &mut Vec<LibraryItem>,
    cache: &mut LibraryCache,
    seen_keys: &mut Vec<String>,
)
    ensures
        scan_view(final(files)@, *final(cache), final(seen_keys)@) == visit_all(
            scan_view(old(files)@, *old(cache), old(seen_keys)@),
            listing_files(*listing),
        ),
    decreases listing,
{
    let nodes = match &listing.entries {
        Some(nodes) => nodes,
        None => {
            return;
        },
    };
    let ghost start = scan_view(files@, *cache, seen_keys@);
    let mut i: usize = 0;
    assert(nodes_files(nodes@.take(0)) =~= seq![]);
    while i < nodes.len()
        invariant
            listing.entries == Some(*nodes),
            i <= nodes.len(),
            start == scan_view(old(files)@, *old(cache), old(seen_keys)@),
            scan_view(files@, *cache, seen_keys@) == visit_all(
                start,
                nodes_files(nodes@.take(i as int)),
            ),
        decreases nodes.len() - i,
    {
        let ghost so_far = nodes@.take(i as int);
        let ghost now = scan_view(files@, *cache, seen_keys@);
        assert(nodes@.take(i + 1).drop_last() =~= so_far);
        assert(nodes@.take(i + 1).last() == nodes@[i as int]);
        proof {
            lemma_visit_all_in_two(start, nodes_files(so_far), node_files(nodes@[i as int]));
        }
        match &nodes[i] {
            Node::Directory(inner) => {
                proof {
                    assert(decreases_to!(*listing => listing.entries->0));
                    assert(decreases_to!(listing.entries->0 => nodes@));
                    assert(decreases_to!(nodes@ => nodes@[i as int]));
                    assert(decreases_to!(nodes@[i as int] => *inner));
                }
                visit_directory(inner, files, cache, seen_keys);
            },
            Node::File(file) => {
                visit_file(file, files, cache, seen_keys);
                proof {
                    reveal_with_fuel(visit_all, 2);
                    assert(seq![file@].drop_last() =~= seq![]);
                }
            },
        }
        i = i + 1;
    }
    assert(nodes@.take(i as int) =~= nodes@);
}

/// The items of a list, ordered by path.
struct PathKeys<'a> {
    list: &'a Vec<LibraryItem>,
    keys: Vec<Vec<Vec<u8>>>,
}

impl<'a> IndexOrder for PathKeys<'a> {
    closed spec fn order(&self) -> spec_fn(usize, usize) -> bool {
        path_order(items(self.list@))
    }

    closed spec fn bound(&self) -> nat {
        self.list@.len()
    }

    closed spec fn ready(&self) -> bool {
        &&& self.keys@.len() == self.list@.len()
        &&& forall|i: int|
            0 <= i < self.keys@.len() ==> paths::byte_views((#[trigger] self.keys@[i])@)
                == paths::components(self.list@[i].path@)
    }

    proof fn order_is_total(&self) {
        paths::lemma_components_order_total();
        order::lemma_base_orders_total();
        let list = items(self.list@);
        order::lemma_by_key_total(
            |i: usize| paths::components(list[i as int].path),
            paths::components_order(),
            order::by_index(),
        );
    }

    fn le(&self, i: usize, j: usize) -> (le: bool) {
        assert(items(self.list@)[i as int].path == self.list@[i as int].path@);
        assert(items(self.list@)[j as int].path == self.list@[j as int].path@);
        if paths::same_components(&self.keys[i], &self.keys[j]) {
            i <= j
        } else {
            paths::components_le(&self.keys[i], &self.keys[j])
        }
    }
}

/// The numbers below a count, in order.
pub fn count_up(count: usize) -> (indices: Vec<usize>)
    ensures
        indices@ == indices_below(count as nat),
{
    let mut indices: Vec<usize> = Vec::new();
    let mut i: usize = 0;
    while i < count
        invariant
            i <= count,
            indices@ == indices_below(i as nat),
        decreases count - i,
    {
        indices.push(i);
        assert(indices@ =~= indices_below((i + 1) as nat));
        i = i + 1;
    }
    indices
}

fn sort_unique(files: &Vec<LibraryItem>) -> (kept: Vec<LibraryItem>)
    ensures
        items(kept@) == without_repeats(in_path_order(items(files@))),
{
    let ghost list = items(files@);
    let mut keys: Vec<Vec<Vec<u8>>> = Vec::new();
    let mut i: usize = 0;
    while i < files.len()
        invariant
            i <= files.len(),
            keys@.len() == i,
            forall|k: int|
                0 <= k < i ==> paths::byte_views((#[trigger] keys@[k])@) == paths::components(
                    files@[k].path@,
                ),
        decreases files.len() - i,
    {
        keys.push(paths::split_components(&files[i].path));
        i = i + 1;
    }
    let sorter = PathKeys { list: files, keys };
    let indices = count_up(files.len());
    let sorted = order::sort_indices(&sorter, &indices);
    proof {
        order::lemma_sort_keeps_within(&sorter, indices@);
    }
    let ghost expected = in_path_order(list);
    let mut kept: Vec<LibraryItem> = Vec::new();
    let mut k: usize = 0;
    assert(without_repeats(expected.take(0)) =~= seq![]);
    assert(items(kept@) =~= seq![]);
    while k < sorted.len()
        invariant
            k <= sorted.len(),
            list == items(files@),
            expected == sorted@.map_values(|i: usize| list[i as int]),
            order::within(&sorter, sorted@),
            sorter.list@ == files@,
            items(kept@) == without_repeats(expected.take(k as int)),
        decreases sorted.len() - k,
    {
        let item = &files[sorted[k]];
        assert(list[sorted@[k as int] as int] == item@);
        assert(expected[k as int] == item@);
        assert(expected.take(k + 1).drop_last() =~= expected.take(k as int));
        assert(expected.take(k + 1).last() == item@);
        let ghost before = items(kept@);
        assert(kept@.len() > 0 ==> before.last() == kept@[kept@.len() - 1]@);
        if kept.len() == 0 || !paths::same_path(&kept[kept.len() - 1].path, &item.path) {
            kept.push(item.clone());
            assert(items(kept@) =~= before.push(item@));
        }
        k = k + 1;
    }
    assert(expected.take(k as int) =~= expected);
    kept
}

/// Scans directories: the audio files in them as items, each path once and in the order of the
/// paths. The cache then knows these files, and no others.
pub fn scan_library(listings: &Vec<Listing>, cache: &mut LibraryCache) -> (found: Vec<LibraryItem>)
    ensures
        items(found@) == scanned_items(all_files(listings@), old(cache)@),
        paths_ascend(items(found@)),
        final(cache)@ == scanned_cache(all_files(listings@), old(cache)@),
{
    let mut files: Vec<LibraryItem> = Vec::new();
    let mut seen_keys: Vec<String> = Vec::new();
    let ghost start = scan_view(files@, *cache, seen_keys@);
    assert(start =~= (ScanView { items: seq![], cache: cache@, seen: seq![] }));
    assert(all_files(listings@.take(0)) =~= seq![]);
    let mut i: usize = 0;
    while i < listings.len()
        invariant
            i <= listings.len(),
            scan_view(files@, *cache, seen_keys@) == visit_all(
                start,
                all_files(listings@.take(i as int)),
            ),
        decreases listings.len() - i,
    {
        assert(listings@.take(i + 1).drop_last() =~= listings@.take(i as int));
        assert(listings@.take(i + 1).last() == listings@[i as int]);
        proof {
            lemma_visit_all_in_two(
                start,
                all_files(listings@.take(i as int)),
                listing_files(listings@[i as int]),
            );
        }
        visit_directory(&listings[i], &mut files, cache, &mut seen_keys);
        i = i + 1;
    }
    assert(listings@.take(i as int) =~= listings@);
    let ghost scan = visit_all(start, all_files(listings@));
    assert(scan.seen =~= storage::texts(seen_keys@));
    proof {
        let by_index = Set::new(
            |key: Seq<char>|
                exists|i: int| 0 <= i < seen_keys.len() && (#[trigger] seen_keys@[i])@ == key,
        );
        let by_list = Set::new(|key: Seq<char>| scan.seen.contains(key));
        assert forall|key: Seq<char>| by_index.contains(key) == by_list.contains(key) by {
            if by_index.contains(key) {
                let k = choose|k: int| 0 <= k < seen_keys.len() && (#[trigger] seen_keys@[k])@ == key;
                assert(scan.seen[k] == key);
            }
            if by_list.contains(key) {
                let k = choose|k: int| 0 <= k < scan.seen.len() && scan.seen[k] == key;
                assert(seen_keys@[k]@ == key);
            }
        }
        assert(by_index =~= by_list);
    }
    let found = sort_unique(&files);
    proof {
        assert(items(files@).len() == files.len());
        law_scan_lists_each_path_once(items(files@));
    }
    cache.entries.retain_keys(&seen_keys);
    found
}

/// A tag of a media file: what it is among the tags that all formats share, as far as it is one of
/// them, its name, and its value as text.
#[derive(Debug)]
pub struct Tag {
    pub standard: Option<String>,
    pub key: String,
    pub value: String,
}

#[verifier::ext_equal]
pub struct TagView {
    pub standard: Option<Seq<char>>,
    pub key: Seq<char>,
    pub value: Seq<char>,
}

impl View for Tag {
    type V = TagView;

    open spec fn view(&self) -> TagView {
        TagView {
            standard: storage::optional_text(self.standard),
            key: self.key@,
            value: self.value@,
        }
    }
}

/// The tags of a list.
pub open spec fn tag_views(tags: Seq<Tag>) -> Seq<TagView> {
    tags.map_values(|tag: Tag| tag@)
}

/// The tags of an optional list.
pub open spec fn optional_tags(tags: Option<Vec<Tag>>) -> Option<Seq<TagView>> {
    match tags {
        Some(list) => Some(tag_views(list@)),
        None => None,
    }
}

/// The tags of a media file: those that its container holds, and those that stand before it.
#[derive(Debug)]
pub struct MediaTags {
    pub container: Option<Vec<Tag>>,
    pub leading: Option<Vec<Tag>>,
}

#[verifier::ext_equal]
pub struct MediaTagsView {
    pub container: Option<Seq<TagView>>,
    pub leading: Option<Seq<TagView>>,
}

impl View for MediaTags {
    type V = MediaTagsView;

    open spec fn view(&self) -> MediaTagsView {
        MediaTagsView {
            container: optional_tags(self.container),
            leading: optional_tags(self.leading),
        }
    }
}

/// The tags that Symphonia reads from the contents of a media file.
pub uninterp spec fn media_tags(contents: Seq<u8>) -> Option<MediaTagsView>;

/// Symphonia's `Probe::format` recognises the container of a media file by its contents, and
/// `Metadata::skip_to_latest` gives the newest revision of the tags in the container and of those
/// before it. What comes back, with the tags in their order and the names of their standard keys,
/// or nothing where no container is recognised, depends on the contents alone. It is named and not
/// described further. The readers that are asked are those for MP4, MPEG audio, ADTS and ID3v2;
/// contents on which one of them panics are left out, also where it panics only in builds that
/// check arithmetic. That there is memory for what an ID3v2 frame says of its own length is taken
/// for granted.
#[verifier::external_body]
fn latest_tags(contents: Vec<u8>) -> (tags: Option<MediaTags>)
    requires
        media::probe_returns(contents@),
    ensures
        match tags {
            Some(t) => media_tags(contents@) == Some(t@),
            None => media_tags(contents@) is None,
        },
{
    let mut probed = symphonia::default::get_probe().format(
        &Default::default(),
        symphonia::core::io::MediaSourceStream::new(
            Box::new(std::io::Cursor::new(contents)), Default::default()),
        &Default::default(),
        &Default::default(),
    ).ok()?;
    let logs = [Some(probed.format.metadata()), probed.metadata.get()];
    let [container, leading] = logs.map(|mut log| Some(
        log.as_mut()?.skip_to_latest()?.tags().iter().map(|tag| Tag {
            standard: tag.std_key.map(|key| format!("{key:?}")),
            key: tag.key.clone(), value: tag.value.to_string(),
        }).collect()));
    Some(MediaTags { container, leading })
}

/// A tag is, among those that all formats share, the title of a track.
pub open spec fn is_track_title(tag: TagView) -> bool {
    tag.standard == Some("TrackTitle"@)
}

/// The first tag that satisfies a condition.
pub open spec fn first_tag(tags: Seq<TagView>, wanted: spec_fn(TagView) -> bool) -> Option<TagView>
    decreases tags.len(),
{
    if tags.len() == 0 {
        None
    } else if wanted(tags[0]) {
        Some(tags[0])
    } else {
        first_tag(tags.drop_first(), wanted)
    }
}

/// The title that tags give: the first one that is marked as a track's title, else the first whose
/// name is `title`, whatever its case.
pub open spec fn tagged_title(tags: Seq<TagView>) -> Option<Seq<char>> {
    match first_tag(tags, |tag: TagView| is_track_title(tag)) {
        Some(tag) => Some(tag.value),
        None => match first_tag(
            tags,
            |tag: TagView| text::lower(tag.key) == text::lower("title"@),
        ) {
            Some(tag) => Some(tag.value),
            None => None,
        },
    }
}

/// The title that tags give.
pub fn title_from_tags(tags: &Vec<Tag>) -> (title: Option<String>)
    ensures
        storage::optional_text(title) == tagged_title(tag_views(tags@)),
{
    let ghost views = tag_views(tags@);
    let ghost marked = |tag: TagView| is_track_title(tag);
    let ghost named = |tag: TagView| text::lower(tag.key) == text::lower("title"@);
    let mut i: usize = 0;
    assert(views.skip(0) =~= views);
    while i < tags.len()
        invariant
            i <= tags.len(),
            views == tag_views(tags@),
            marked == (|tag: TagView| is_track_title(tag)),
            first_tag(views, marked) == first_tag(views.skip(i as int), marked),
        decreases tags.len() - i,
    {
        assert(views.skip(i as int)[0] == tags@[i as int]@);
        assert(views.skip(i as int).drop_first() =~= views.skip(i + 1));
        if let Some(standard) = &tags[i].standard {
            if text::same_text(standard.as_str(), "TrackTitle") {
                return Some(tags[i].value.clone());
            }
        }
        i = i + 1;
    }
    i = 0;
    while i < tags.len()
        invariant
            i <= tags.len(),
            views == tag_views(tags@),
            marked == (|tag: TagView| is_track_title(tag)),
            first_tag(views, marked) is None,
            named == (|tag: TagView| text::lower(tag.key) == text::lower("title"@)),
            first_tag(views, named) == first_tag(views.skip(i as int), named),
        decreases tags.len() - i,
    {
        assert(views.skip(i as int)[0] == tags@[i as int]@);
        assert(views.skip(i as int).drop_first() =~= views.skip(i + 1));
        if text::same_ignoring_case(tags[i].key.as_str(), "title") {
            return Some(tags[i].value.clone());
        }
        i = i + 1;
    }
    None
}

/// The title that the tags of a media file give: one in the container counts before one that
/// stands before it.
pub open spec fn media_title(tags: MediaTagsView) -> Option<Seq<char>> {
    let inner = match tags.container {
        Some(list) => tagged_title(list),
        None => None,
    };
    if inner is Some {
        inner
    } else {
        match tags.leading {
            Some(list) => tagged_title(list),
            None => None,
        }
    }
}

/// The title that the tags of a media file give.
pub fn title_from_media(tags: &MediaTags) -> (title: Option<String>)
    ensures
        storage::optional_text(title) == media_title(tags@),
{
    if let Some(list) = &tags.container {
        let title = title_from_tags(list);
        if title.is_some() {
            return title;
        }
    }
    match &tags.leading {
        Some(list) => title_from_tags(list),
        None => None,
    }
}

/// The title that is embedded in the contents of a media file, where they can be read.
pub open spec fn embedded_title(contents: Seq<u8>) -> Option<Seq<char>> {
    if media::probe_returns(contents) {
        match media_tags(contents) {
            Some(tags) => media_title(tags),
            None => None,
        }
    } else {
        None
    }
}

/// Reads the title that is embedded in the contents of a media file.
pub fn read_metadata_title(contents: Vec<u8>) -> (title: Option<String>)
    ensures
        storage::optional_text(title) == embedded_title(contents@),
{
    if !media::may_be_probed(&contents) {
        return None;
    }
    match latest_tags(contents) {
        Some(tags) => title_from_media(&tags),
        None => None,
    }
}

/// A sequence of items in strictly ascending order of their paths.
pub open spec fn paths_ascend(list: Seq<ItemView>) -> bool {
    forall|i: int, j: int|
        0 <= i < j < list.len() ==> paths::components_order()(
            paths::components((#[trigger] list[i]).path),
            paths::components((#[trigger] list[j]).path),
        ) && paths::components(list[i].path) != paths::components(list[j].path)
}

/// No earlier item of the list has the same path.
pub open spec fn is_first(list: Seq<ItemView>, k: int) -> bool {
    forall|m: int|
        0 <= m < k ==> paths::components((#[trigger] list[m]).path) != paths::components(
            list[k].path,
        )
}

/// Some item of the list has the same path.
pub open spec fn has_path(list: Seq<ItemView>, item: ItemView) -> bool {
    exists|k: int|
        0 <= k < list.len() && paths::components((#[trigger] list[k]).path) == paths::components(
            item.path,
        )
}

/// A sequence of items in ascending order of their paths.
spec fn paths_sorted(list: Seq<ItemView>) -> bool {
    forall|i: int, j: int|
        0 <= i < j < list.len() ==> paths::components_order()(
            paths::components((#[trigger] list[i]).path),
            paths::components((#[trigger] list[j]).path),
        )
}

proof fn lemma_path_order(list: Seq<ItemView>)
    requires
        list.len() <= usize::MAX,
    ensures
        ({
            let sorted = indices_below(list.len()).sort_by(path_order(list));
            &&& total_ordering(path_order(list))
            &&& sorted_by(sorted, path_order(list))
            &&& sorted.len() == list.len()
            &&& forall|p: int| 0 <= p < sorted.len() ==> #[trigger] sorted[p] < list.len()
            &&& forall|k: usize| k < list.len() ==> #[trigger] sorted.contains(k)
        }),
        paths_sorted(in_path_order(list)),
{
    broadcast use vstd::seq_lib::group_to_multiset_ensures;

    let key = |i: usize| paths::components(list[i as int].path);
    paths::lemma_components_order_total();
    order::lemma_base_orders_total();
    order::lemma_by_key_total(key, paths::components_order(), order::by_index());
    let base = indices_below(list.len());
    let sorted = base.sort_by(path_order(list));
    base.lemma_sort_by_ensures(path_order(list));
    let ordered = in_path_order(list);
    base.to_multiset_ensures();
    sorted.to_multiset_ensures();
    assert(sorted.len() == base.len());
    assert forall|p: int| 0 <= p < sorted.len() implies #[trigger] sorted[p] < list.len() by {
        assert(sorted.contains(sorted[p]));
        assert(base.contains(sorted[p]));
    }
    assert forall|k: usize| k < list.len() implies #[trigger] sorted.contains(k) by {
        assert(base[k as int] == k);
        assert(base.contains(k));
        assert(base.to_multiset().count(k) > 0);
        assert(sorted.to_multiset().count(k) > 0);
    }
    assert forall|i: int, j: int| 0 <= i < j < ordered.len() implies paths::components_order()(
        paths::components((#[trigger] ordered[i]).path),
        paths::components((#[trigger] ordered[j]).path),
    ) by {
        assert(path_order(list)(sorted[i], sorted[j]));
        assert(paths::components_order()(key(sorted[i]), key(sorted[i])));
    }
}

proof fn lemma_without_repeats(list: Seq<ItemView>)
    requires
        paths_sorted(list),
    ensures
        ({
            let kept = without_repeats(list);
            &&& paths_ascend(kept)
            &&& list.len() > 0 ==> kept.len() > 0 && paths::components(kept.last().path)
                == paths::components(list.last().path)
            &&& forall|q: int|
                0 <= q < kept.len() ==> exists|p: int|
                    0 <= p < list.len() && #[trigger] list[p] == #[trigger] kept[q] && is_first(
                        list,
                        p,
                    )
            &&& forall|p: int| 0 <= p < list.len() ==> #[trigger] has_path(kept, list[p])
        }),
    decreases list.len(),
{
    paths::lemma_components_order_total();
    if list.len() > 0 {
        let front = list.drop_last();
        let last = list.last();
        assert(forall|k: int| 0 <= k < front.len() ==> front[k] == list[k]);
        lemma_without_repeats(front);
        let before = without_repeats(front);
        let kept = without_repeats(list);
        let le = paths::components_order();
        if kept == before {
            assert forall|q: int| 0 <= q < kept.len() implies exists|p: int|
                0 <= p < list.len() && #[trigger] list[p] == #[trigger] kept[q] && is_first(
                    list,
                    p,
                ) by {
                let p = choose|p: int|
                    0 <= p < front.len() && #[trigger] front[p] == before[q] && is_first(front, p);
                assert(list[p] == kept[q] && is_first(list, p));
            }
            assert forall|p: int| 0 <= p < list.len() implies #[trigger] has_path(
                kept,
                list[p],
            ) by {
                if p < front.len() {
                    assert(has_path(before, front[p]));
                } else {
                    assert(kept[kept.len() - 1] == kept.last());
                }
            }
        } else {
            let n = before.len() as int;
            assert forall|m: int| 0 <= m < front.len() implies paths::components(
                (#[trigger] list[m]).path,
            ) != paths::components(last.path) by {
                let mid = paths::components(front.last().path);
                let x = paths::components(list[m].path);
                let y = paths::components(last.path);
                assert(mid == paths::components(before.last().path));
                assert(le(mid, y)) by {
                    assert(list[front.len() - 1] == front.last());
                }
                assert(le(x, mid)) by {
                    if m < front.len() - 1 {
                        assert(le(
                            paths::components(list[m].path),
                            paths::components(list[front.len() - 1].path),
                        ));
                    } else {
                        assert(le(x, x));
                    }
                }
            }
            assert forall|i: int, j: int| 0 <= i < j < kept.len() implies le(
                paths::components((#[trigger] kept[i]).path),
                paths::components((#[trigger] kept[j]).path),
            ) && paths::components(kept[i].path) != paths::components(kept[j].path) by {
                if j < n {
                    assert(kept[i] == before[i] && kept[j] == before[j]);
                } else {
                    assert(kept[i] == before[i]);
                    let p = choose|p: int|
                        0 <= p < front.len() && #[trigger] front[p] == before[i] && is_first(
                            front,
                            p,
                        );
                    assert(list[p] == kept[i]);
                    assert(list[list.len() - 1] == last);
                }
            }
            assert forall|q: int| 0 <= q < kept.len() implies exists|p: int|
                0 <= p < list.len() && #[trigger] list[p] == #[trigger] kept[q] && is_first(
                    list,
                    p,
                ) by {
                if q < n {
                    assert(kept[q] == before[q]);
                    let p = choose|p: int|
                        0 <= p < front.len() && #[trigger] front[p] == before[q] && is_first(
                            front,
                            p,
                        );
                    assert(list[p] == kept[q] && is_first(list, p));
                } else {
                    assert(list[list.len() - 1] == kept[q]);
                    assert(is_first(list, list.len() - 1));
                }
            }
            assert forall|p: int| 0 <= p < list.len() implies #[trigger] has_path(
                kept,
                list[p],
            ) by {
                if p < front.len() {
                    assert(has_path(before, front[p]));
                    let k = choose|k: int|
                        0 <= k < before.len() && paths::components((#[trigger] before[k]).path)
                            == paths::components(front[p].path);
                    assert(kept[k] == before[k]);
                } else {
                    assert(kept[n] == last);
                }
            }
        }
    }
}

/// A scan lists each path once, in ascending order; the item listed for a path is the first one
/// that the walk came upon, and no path is left out.
pub proof fn law_scan_lists_each_path_once(list: Seq<ItemView>)
    requires
        list.len() <= usize::MAX,
    ensures
        ({
            let kept = without_repeats(in_path_order(list));
            &&& paths_ascend(kept)
            &&& forall|q: int|
                0 <= q < kept.len() ==> exists|k: int|
                    0 <= k < list.len() && #[trigger] list[k] == #[trigger] kept[q] && is_first(
                        list,
                        k,
                    )
            &&& forall|k: int| 0 <= k < list.len() ==> #[trigger] has_path(kept, list[k])
        }),
{
    lemma_path_order(list);
    let sorted = indices_below(list.len()).sort_by(path_order(list));
    let ordered = in_path_order(list);
    lemma_without_repeats(ordered);
    let kept = without_repeats(ordered);
    assert forall|q: int| 0 <= q < kept.len() implies exists|k: int|
        0 <= k < list.len() && #[trigger] list[k] == #[trigger] kept[q] && is_first(list, k) by {
        let p = choose|p: int|
            0 <= p < ordered.len() && #[trigger] ordered[p] == kept[q] && is_first(ordered, p);
        let k = sorted[p] as int;
        assert(list[k] == kept[q]);
        assert forall|m: int| 0 <= m < k implies paths::components((#[trigger] list[m]).path)
            != paths::components(list[k].path) by {
            if paths::components(list[m].path) == paths::components(list[k].path) {
                assert(sorted.contains(m as usize));
                let r = choose|r: int| 0 <= r < sorted.len() && sorted[r] == m as usize;
                assert(ordered[r] == list[m]);
                assert(path_order(list)(m as usize, k as usize));
                if r > p {
                    assert(path_order(list)(sorted[p], sorted[r]));
                } else {
                    assert(r < p);
                    assert(paths::components(ordered[r].path) != paths::components(
                        ordered[p].path,
                    ));
                }
            }
        }
        assert(is_first(list, k));
    }
    assert forall|k: int| 0 <= k < list.len() implies #[trigger] has_path(kept, list[k]) by {
        assert(sorted.contains(k as usize));
        let r = choose|r: int| 0 <= r < sorted.len() && sorted[r] == k as usize;
        assert(ordered[r] == list[k]);
        assert(has_path(kept, ordered[r]));
    }
}

/// Files that are one and the same have one time of modification.
pub open spec fn times_agree(files: Seq<FoundView>) -> bool {
    forall|i: int, j: int|
        0 <= i < files.len() && 0 <= j < files.len() && (#[trigger] files[i]).canonical_key == (
        #[trigger] files[j]).canonical_key ==> files[i].modified == files[j].modified
}

/// What the cache knows of a file as it is now, no visit of a file that agrees with it changes.
proof fn lemma_cached_stays(scan: ScanView, file: FoundView, other: FoundView)
    requires
        is_cached(file, scan.cache),
        other.canonical_key == file.canonical_key ==> other.modified == file.modified,
    ensures
        is_cached(file, visit(scan, other).cache),
        visit(scan, other).cache[file.canonical_key] == scan.cache[file.canonical_key],
{
}

proof fn lemma_cached_stays_all(scan: ScanView, file: FoundView, others: Seq<FoundView>)
    requires
        is_cached(file, scan.cache),
        forall|i: int|
            0 <= i < others.len() && (#[trigger] others[i]).canonical_key == file.canonical_key
                ==> others[i].modified == file.modified,
    ensures
        is_cached(file, visit_all(scan, others).cache),
        visit_all(scan, others).cache[file.canonical_key] == scan.cache[file.canonical_key],
    decreases others.len(),
{
    if others.len() > 0 {
        assert(forall|i: int| 0 <= i < others.len() - 1 ==> others.drop_last()[i] == others[i]);
        lemma_cached_stays_all(scan, file, others.drop_last());
        lemma_cached_stays(
            visit_all(scan, others.drop_last()),
            file,
            others[others.len() - 1],
        );
    }
}

proof fn lemma_seen(scan: ScanView, files: Seq<FoundView>, i: int)
    requires
        0 <= i < files.len(),
        is_audio(files[i].path),
    ensures
        visit_all(scan, files).seen.contains(files[i].canonical_key),
    decreases files.len(),
{
    let before = visit_all(scan, files.drop_last());
    let after = visit_all(scan, files);
    if i == files.len() - 1 {
        assert(after.seen[after.seen.len() - 1] == files[i].canonical_key);
    } else {
        lemma_seen(scan, files.drop_last(), i);
        let k = choose|k: int| 0 <= k < before.seen.len() && before.seen[k] == files[i].canonical_key;
        assert(after.seen[k] == files[i].canonical_key);
    }
}

proof fn lemma_visited_is_cached(scan: ScanView, file: FoundView)
    requires
        is_audio(file.path),
    ensures
        is_cached(file, visit(scan, file).cache),
{
}

/// After a scan the cache knows every audio file that was scanned.
#[verifier::spinoff_prover]
proof fn lemma_all_cached(
    files: Seq<FoundView>,
    cache: Map<Seq<char>, storage::CachedEntryView>,
    i: int,
)
    requires
        times_agree(files),
        0 <= i < files.len(),
        is_audio(files[i].path),
    ensures
        is_cached(files[i], scan_of(files.take(i + 1), cache).cache),
        is_cached(files[i], scanned_cache(files, cache)),
        scanned_cache(files, cache)[files[i].canonical_key] == scan_of(
            files.take(i + 1),
            cache,
        ).cache[files[i].canonical_key],
{
    let start = ScanView { items: seq![], cache, seen: seq![] };
    let front = files.take(i + 1);
    let rest = files.skip(i + 1);
    assert(files =~= front + rest);
    lemma_visit_all_in_two(start, front, rest);
    assert(front.drop_last() =~= files.take(i));
    assert(front.last() == files[i]);
    let before = visit_all(start, files.take(i));
    assert(visit_all(start, front) == visit(before, files[i]));
    lemma_visited_is_cached(before, files[i]);
    assert forall|k: int|
        0 <= k < rest.len() && (#[trigger] rest[k]).canonical_key
            == files[i].canonical_key implies rest[k].modified == files[i].modified by {
        assert(rest[k] == files[i + 1 + k]);
    }
    lemma_cached_stays_all(visit_all(start, front), files[i], rest);
    lemma_seen(start, files, i);
}

/// Two walks came upon the same files; what was read of their metadata may differ.
pub open spec fn same_files(files: Seq<FoundView>, again: Seq<FoundView>) -> bool {
    &&& files.len() == again.len()
    &&& forall|i: int|
        0 <= i < files.len() ==> #[trigger] again[i] == (FoundView {
            metadata_title: again[i].metadata_title,
            ..files[i]
        })
}

proof fn lemma_second_scan(
    files: Seq<FoundView>,
    again: Seq<FoundView>,
    cache: Map<Seq<char>, storage::CachedEntryView>,
    n: int,
)
    requires
        times_agree(files),
        same_files(files, again),
        0 <= n <= files.len(),
    ensures
        scan_of(again.take(n), scanned_cache(files, cache)).cache == scanned_cache(files, cache),
        scan_of(again.take(n), scanned_cache(files, cache)).items == scan_of(
            files.take(n),
            cache,
        ).items,
        scan_of(again.take(n), scanned_cache(files, cache)).seen == scan_of(
            files.take(n),
            cache,
        ).seen,
    decreases n,
{
    let known = scanned_cache(files, cache);
    if n > 0 {
        lemma_second_scan(files, again, cache, n - 1);
        let front = files.take(n);
        assert(front.drop_last() =~= files.take(n - 1));
        assert(again.take(n).drop_last() =~= again.take(n - 1));
        let file = files[n - 1];
        assert(front.last() == file);
        assert(again.take(n).last() == again[n - 1]);
        if is_audio(file.path) {
            lemma_all_cached(files, cache, n - 1);
            assert(files.take(n - 1 + 1) =~= front);
            let before = scan_of(files.take(n - 1), cache);
            let entry = known[file.canonical_key];
            assert(entry == scan_of(front, cache).cache[file.canonical_key]);
            if !is_cached(file, before.cache) {
                assert(cached_item(again[n - 1], entry) =~= fresh_item(file));
            } else {
                assert(cached_item(again[n - 1], entry) =~= cached_item(file, entry));
            }
        }
    }
}

/// Scanning again what has not changed finds the same items and leaves the cache as it is, whatever
/// is read of the files' metadata: none of it has to be read.
pub proof fn law_scan_again_is_cached(
    files: Seq<FoundView>,
    again: Seq<FoundView>,
    cache: Map<Seq<char>, storage::CachedEntryView>,
)
    requires
        times_agree(files),
        same_files(files, again),
    ensures
        scanned_items(again, scanned_cache(files, cache)) == scanned_items(files, cache),
        scanned_cache(again, scanned_cache(files, cache)) == scanned_cache(files, cache),
        forall|i: int|
            0 <= i < again.len() && is_audio((#[trigger] again[i]).path) ==> is_cached(
                again[i],
                scanned_cache(files, cache),
            ),
{
    let known = scanned_cache(files, cache);
    assert(files.take(files.len() as int) =~= files);
    assert(again.take(files.len() as int) =~= again);
    lemma_second_scan(files, again, cache, files.len() as int);
    assert(scanned_cache(again, known) =~= known);
    assert forall|i: int|
        0 <= i < again.len() && is_audio((#[trigger] again[i]).path) implies is_cached(
        again[i],
        known,
    ) by {
        lemma_all_cached(files, cache, i);
    }
}

/// Files with one path are known by one key.
pub open spec fn keys_agree(files: Seq<FoundView>) -> bool {
    forall|i: int, j: int|
        0 <= i < files.len() && 0 <= j < files.len() && paths::components(
            (#[trigger] files[i]).path,
        ) == paths::components((#[trigger] files[j]).path) ==> files[i].canonical_key
            == files[j].canonical_key
}

/// Some item of the list is known by the key.
pub open spec fn lists_key(list: Seq<ItemView>, key: Seq<char>) -> bool {
    exists|i: int| 0 <= i < list.len() && (#[trigger] list[i]).canonical_key == key
}

/// An item stands for a file among the given ones.
spec fn comes_from(item: ItemView, files: Seq<FoundView>) -> bool {
    exists|f: int|
        0 <= f < files.len() && (#[trigger] files[f]).path == item.path && files[f].canonical_key
            == item.canonical_key
}

proof fn lemma_scan_keys(files: Seq<FoundView>, cache: Map<Seq<char>, storage::CachedEntryView>)
    ensures
        ({
            let scan = scan_of(files, cache);
            &&& scan.items.len() == scan.seen.len() <= files.len()
            &&& forall|i: int|
                0 <= i < scan.items.len() ==> (#[trigger] scan.items[i]).canonical_key
                    == scan.seen[i] && scan.cache.contains_key(scan.seen[i]) && comes_from(
                    scan.items[i],
                    files,
                )
        }),
    decreases files.len(),
{
    let scan = scan_of(files, cache);
    if files.len() > 0 {
        let fewer = files.drop_last();
        let before = scan_of(fewer, cache);
        lemma_scan_keys(fewer, cache);
        assert forall|i: int| 0 <= i < scan.items.len() implies (
        #[trigger] scan.items[i]).canonical_key == scan.seen[i] && scan.cache.contains_key(
            scan.seen[i],
        ) && comes_from(scan.items[i], files) by {
            if i < before.items.len() {
                assert(scan.items[i] == before.items[i]);
                let f = choose|f: int|
                    0 <= f < fewer.len() && (#[trigger] fewer[f]).path == scan.items[i].path
                        && fewer[f].canonical_key == scan.items[i].canonical_key;
                assert(files[f] == fewer[f]);
            } else {
                assert(files[files.len() - 1].path == scan.items[i].path);
            }
        }
    }
}

/// After a scan the cache holds what is known of the listed items, and of no other files.
pub proof fn law_cache_knows_the_listed(
    files: Seq<FoundView>,
    cache: Map<Seq<char>, storage::CachedEntryView>,
    key: Seq<char>,
)
    requires
        files.len() <= usize::MAX,
        keys_agree(files),
    ensures
        scanned_cache(files, cache).contains_key(key) <==> lists_key(
            scanned_items(files, cache),
            key,
        ),
{
    let scan = scan_of(files, cache);
    let list = scan.items;
    let kept = scanned_items(files, cache);
    lemma_scan_keys(files, cache);
    law_scan_lists_each_path_once(list);
    if scan.seen.contains(key) {
        let k = choose|k: int| 0 <= k < scan.seen.len() && scan.seen[k] == key;
        assert(list[k].canonical_key == key);
        assert(has_path(kept, list[k]));
        let q = choose|q: int|
            0 <= q < kept.len() && paths::components((#[trigger] kept[q]).path)
                == paths::components(list[k].path);
        let m = choose|m: int|
            0 <= m < list.len() && #[trigger] list[m] == kept[q] && is_first(list, m);
        assert(comes_from(list[k], files) && comes_from(list[m], files));
        assert(kept[q].canonical_key == key);
    }
    if lists_key(kept, key) {
        let q = choose|q: int| 0 <= q < kept.len() && (#[trigger] kept[q]).canonical_key == key;
        let m = choose|m: int|
            0 <= m < list.len() && #[trigger] list[m] == kept[q] && is_first(list, m);
        assert(scan.seen[m] == key);
    }
}

}

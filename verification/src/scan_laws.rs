//! What holds of scans: which files they list, and what they tell of them.

use vstd::prelude::*;

use crate::encoding;
use crate::library;
use crate::library::{FoundFile, FoundView, ItemView, Listing, Node};
use crate::path_laws;
use crate::paths;
use crate::storage;
use crate::text;

verus! {

/// A route through a directory leads to a file: each step is the number of an entry, and all
/// entries on the way but the last are directories that can be read.
pub open spec fn leads_to(listing: Listing, route: Seq<int>, file: FoundFile) -> bool
    decreases route.len(),
{
    match listing.entries {
        None => false,
        Some(nodes) => {
            &&& route.len() > 0
            &&& 0 <= route[0] < nodes@.len()
            &&& match nodes@[route[0]] {
                Node::File(found) => route.len() == 1 && found == file,
                Node::Directory(inner) => leads_to(inner, route.drop_first(), file),
            }
        },
    }
}

/// A file stands somewhere in the directories, at whatever depth.
pub open spec fn stands_in(listings: Seq<Listing>, file: FoundFile) -> bool {
    exists|root: int, route: Seq<int>|
        0 <= root < listings.len() && #[trigger] leads_to(listings[root], route, file)
}

proof fn lemma_node_is_collected(nodes: Seq<Node>, i: int, file: FoundView)
    requires
        0 <= i < nodes.len(),
        library::node_files(nodes[i]).contains(file),
    ensures
        library::nodes_files(nodes).contains(file),
    decreases nodes.len(),
{
    let before = library::nodes_files(nodes.drop_last());
    let last = library::node_files(nodes.last());
    let all = library::nodes_files(nodes);
    if i == nodes.len() - 1 {
        let k = choose|k: int| 0 <= k < last.len() && last[k] == file;
        assert(all[before.len() + k] == file);
    } else {
        assert(nodes.drop_last()[i] == nodes[i]);
        lemma_node_is_collected(nodes.drop_last(), i, file);
        let k = choose|k: int| 0 <= k < before.len() && before[k] == file;
        assert(all[k] == file);
    }
}

proof fn lemma_route_is_collected(listing: Listing, route: Seq<int>, file: FoundFile)
    requires
        leads_to(listing, route, file),
    ensures
        library::listing_files(listing).contains(file@),
    decreases route.len(),
{
    let nodes = listing.entries->0@;
    let node = nodes[route[0]];
    match node {
        Node::File(found) => {
            assert(library::node_files(node)[0] == file@);
        },
        Node::Directory(inner) => {
            lemma_route_is_collected(inner, route.drop_first(), file);
        },
    }
    lemma_node_is_collected(nodes, route[0], file@);
}

proof fn lemma_standing_is_collected(listings: Seq<Listing>, root: int, file: FoundView)
    requires
        0 <= root < listings.len(),
        library::listing_files(listings[root]).contains(file),
    ensures
        library::all_files(listings).contains(file),
    decreases listings.len(),
{
    let before = library::all_files(listings.drop_last());
    let last = library::listing_files(listings.last());
    let all = library::all_files(listings);
    if root == listings.len() - 1 {
        let k = choose|k: int| 0 <= k < last.len() && last[k] == file;
        assert(all[before.len() + k] == file);
    } else {
        assert(listings.drop_last()[root] == listings[root]);
        lemma_standing_is_collected(listings.drop_last(), root, file);
        let k = choose|k: int| 0 <= k < before.len() && before[k] == file;
        assert(all[k] == file);
    }
}

/// What is collected from entries comes from one of them.
proof fn lemma_collected_from_node(nodes: Seq<Node>, file: FoundView) -> (i: int)
    requires
        library::nodes_files(nodes).contains(file),
    ensures
        0 <= i < nodes.len(),
        library::node_files(nodes[i]).contains(file),
    decreases nodes.len(),
{
    let all = library::nodes_files(nodes);
    let k = choose|k: int| 0 <= k < all.len() && all[k] == file;
    let before = library::nodes_files(nodes.drop_last());
    let last = library::node_files(nodes.last());
    if k < before.len() {
        assert(before[k] == file);
        let i = lemma_collected_from_node(nodes.drop_last(), file);
        assert(nodes.drop_last()[i] == nodes[i]);
        i
    } else {
        assert(last[k - before.len()] == file);
        nodes.len() - 1
    }
}

proof fn lemma_collected_has_route(listing: Listing, file: FoundView) -> (found: (
    Seq<int>,
    FoundFile,
))
    requires
        library::listing_files(listing).contains(file),
    ensures
        leads_to(listing, found.0, found.1),
        found.1@ == file,
    decreases listing,
{
    let nodes = listing.entries->0;
    let i = lemma_collected_from_node(nodes@, file);
    assert(decreases_to!(listing => listing.entries->0));
    assert(decreases_to!(listing.entries->0 => nodes@));
    assert(decreases_to!(nodes@ => nodes@[i]));
    match nodes@[i] {
        Node::File(f) => {
            let route = seq![i];
            let list = library::node_files(nodes@[i]);
            let k = choose|k: int| 0 <= k < list.len() && list[k] == file;
            assert(list[k] == f@);
            assert(leads_to(listing, route, f));
            (route, f)
        },
        Node::Directory(inner) => {
            assert(decreases_to!(nodes@[i] => inner));
            let (rest, f) = lemma_collected_has_route(inner, file);
            let route = seq![i] + rest;
            assert(route.drop_first() =~= rest);
            assert(leads_to(listing, route, f));
            (route, f)
        },
    }
}

proof fn lemma_collected_stands(listings: Seq<Listing>, file: FoundView) -> (found: FoundFile)
    requires
        library::all_files(listings).contains(file),
    ensures
        stands_in(listings, found),
        found@ == file,
    decreases listings.len(),
{
    let all = library::all_files(listings);
    let k = choose|k: int| 0 <= k < all.len() && all[k] == file;
    let before = library::all_files(listings.drop_last());
    let last = library::listing_files(listings.last());
    if k < before.len() {
        assert(before[k] == file);
        let f = lemma_collected_stands(listings.drop_last(), file);
        let (root, route) = choose|root: int, route: Seq<int>|
            0 <= root < listings.drop_last().len() && #[trigger] leads_to(
                listings.drop_last()[root],
                route,
                f,
            );
        assert(listings.drop_last()[root] == listings[root]);
        assert(leads_to(listings[root], route, f));
        f
    } else {
        assert(last[k - before.len()] == file);
        let (route, f) = lemma_collected_has_route(listings.last(), file);
        assert(leads_to(listings[listings.len() - 1], route, f));
        f
    }
}

/// An audio file among the scanned ones becomes an item.
proof fn lemma_visited_is_listed(
    files: Seq<FoundView>,
    cache: Map<Seq<char>, storage::CachedEntryView>,
    i: int,
) -> (k: int)
    requires
        0 <= i < files.len(),
        library::is_audio(files[i].path),
    ensures
        0 <= k < library::scan_of(files, cache).items.len(),
        library::scan_of(files, cache).items[k].path == files[i].path,
    decreases files.len(),
{
    let before = library::scan_of(files.drop_last(), cache);
    let after = library::scan_of(files, cache);
    if i == files.len() - 1 {
        after.items.len() - 1
    } else {
        assert(files.drop_last()[i] == files[i]);
        let k = lemma_visited_is_listed(files.drop_last(), cache, i);
        assert(after.items[k] == before.items[k]);
        k
    }
}

/// Every item comes from an audio file among the scanned ones, and there are no more items than
/// files.
proof fn lemma_listed_was_visited(
    files: Seq<FoundView>,
    cache: Map<Seq<char>, storage::CachedEntryView>,
)
    ensures
        library::scan_of(files, cache).items.len() <= files.len(),
        forall|k: int|
            0 <= k < library::scan_of(files, cache).items.len() ==> exists|i: int|
                0 <= i < files.len() && (#[trigger] files[i]).path == (
                #[trigger] library::scan_of(files, cache).items[k]).path && library::is_audio(
                    files[i].path,
                ),
    decreases files.len(),
{
    let after = library::scan_of(files, cache);
    if files.len() > 0 {
        let fewer = files.drop_last();
        let before = library::scan_of(fewer, cache);
        lemma_listed_was_visited(fewer, cache);
        assert forall|k: int| 0 <= k < after.items.len() implies exists|i: int|
            0 <= i < files.len() && (#[trigger] files[i]).path == (#[trigger] after.items[k]).path
                && library::is_audio(files[i].path) by {
            if k < before.items.len() {
                assert(after.items[k] == before.items[k]);
                let i = choose|i: int|
                    0 <= i < fewer.len() && (#[trigger] fewer[i]).path == before.items[k].path
                        && library::is_audio(fewer[i].path);
                assert(files[i] == fewer[i]);
            } else {
                assert(files[files.len() - 1].path == after.items[k].path);
            }
        }
    }
}

/// Some item has a path with the given components.
pub open spec fn lists_path(list: Seq<ItemView>, path: Seq<u8>) -> bool {
    exists|k: int|
        0 <= k < list.len() && paths::components((#[trigger] list[k]).path) == paths::components(
            path,
        )
}

/// Whatever the depth at which an audio file stands in the directories, a scan lists it.
pub proof fn law_scan_lists_every_audio_file(
    listings: Seq<Listing>,
    cache: Map<Seq<char>, storage::CachedEntryView>,
    file: FoundFile,
)
    requires
        stands_in(listings, file),
        library::is_audio(file.path@),
        library::all_files(listings).len() <= usize::MAX,
    ensures
        lists_path(library::scanned_items(library::all_files(listings), cache), file.path@),
{
    let files = library::all_files(listings);
    let (root, route) = choose|root: int, route: Seq<int>|
        0 <= root < listings.len() && #[trigger] leads_to(listings[root], route, file);
    lemma_route_is_collected(listings[root], route, file);
    lemma_standing_is_collected(listings, root, file@);
    let i = choose|i: int| 0 <= i < files.len() && files[i] == file@;
    let k = lemma_visited_is_listed(files, cache, i);
    lemma_listed_was_visited(files, cache);
    let list = library::scan_of(files, cache).items;
    library::law_scan_lists_each_path_once(list);
    assert(library::has_path(library::scanned_items(files, cache), list[k]));
}

/// A scan lists nothing but audio files that stand in the directories, and no two items have the
/// same path.
pub proof fn law_scan_lists_only_audio_files(
    listings: Seq<Listing>,
    cache: Map<Seq<char>, storage::CachedEntryView>,
    q: int,
)
    requires
        library::all_files(listings).len() <= usize::MAX,
        0 <= q < library::scanned_items(library::all_files(listings), cache).len(),
    ensures
        ({
            let listed = library::scanned_items(library::all_files(listings), cache);
            &&& exists|file: FoundFile|
                #[trigger] stands_in(listings, file) && file.path@ == listed[q].path
            &&& library::is_audio(listed[q].path)
            &&& forall|p: int|
                0 <= p < listed.len() && p != q ==> paths::components((#[trigger] listed[p]).path)
                    != paths::components(listed[q].path)
        }),
{
    let files = library::all_files(listings);
    let list = library::scan_of(files, cache).items;
    let listed = library::scanned_items(files, cache);
    lemma_listed_was_visited(files, cache);
    library::law_scan_lists_each_path_once(list);
    let k = choose|k: int|
        0 <= k < list.len() && #[trigger] list[k] == listed[q] && library::is_first(list, k);
    let i = choose|i: int|
        0 <= i < files.len() && (#[trigger] files[i]).path == list[k].path && library::is_audio(
            files[i].path,
        );
    assert(files.contains(files[i]));
    let file = lemma_collected_stands(listings, files[i]);
    assert(stands_in(listings, file));
}

/// A scan lists the files in the order of their paths.
pub proof fn law_scan_lists_in_path_order(
    listings: Seq<Listing>,
    cache: Map<Seq<char>, storage::CachedEntryView>,
    p: int,
    q: int,
)
    requires
        library::all_files(listings).len() <= usize::MAX,
        0 <= p < library::scanned_items(library::all_files(listings), cache).len(),
        0 <= q < library::scanned_items(library::all_files(listings), cache).len(),
        path_laws::path_before(
            library::scanned_items(library::all_files(listings), cache)[p].path,
            library::scanned_items(library::all_files(listings), cache)[q].path,
        ),
    ensures
        p < q,
{
    let files = library::all_files(listings);
    let list = library::scan_of(files, cache).items;
    let listed = library::scanned_items(files, cache);
    lemma_listed_was_visited(files, cache);
    library::law_scan_lists_each_path_once(list);
    path_laws::law_paths_are_ordered_by_components(listed[p].path, listed[q].path);
    assert(library::paths_ascend(listed));
}


/// What the cache and the item of a file hold in the course of a scan, where it is the only one
/// with its key.
proof fn lemma_told(
    files: Seq<FoundView>,
    cache: Map<Seq<char>, storage::CachedEntryView>,
    file: FoundView,
)
    requires
        forall|i: int|
            0 <= i < files.len() && (#[trigger] files[i]).canonical_key == file.canonical_key
                ==> files[i] == file,
    ensures
        ({
            let scan = library::scan_of(files, cache);
            let key = file.canonical_key;
            let known = library::is_cached(file, cache);
            let expected = if known {
                library::cached_item(file, cache[key])
            } else {
                library::fresh_item(file)
            };
            &&& forall|k: int|
                0 <= k < scan.items.len() && (#[trigger] scan.items[k]).canonical_key == key
                    ==> scan.items[k] == expected
            &&& known ==> scan.cache.contains_key(key) && scan.cache[key] == cache[key]
            &&& !known ==> {
                ||| scan.cache.contains_key(key) == cache.contains_key(key) && scan.cache[key]
                    == cache[key]
                ||| scan.cache.contains_key(key) && scan.cache[key] == library::entry_of(expected)
            }
        }),
    decreases files.len(),
{
    if files.len() > 0 {
        let fewer = files.drop_last();
        assert(forall|i: int| 0 <= i < fewer.len() ==> fewer[i] == files[i]);
        lemma_told(fewer, cache, file);
        let before = library::scan_of(fewer, cache);
        let after = library::scan_of(files, cache);
        let last = files[files.len() - 1];
        assert(forall|k: int| 0 <= k < before.items.len() ==> after.items[k] == before.items[k]);
        if last.canonical_key == file.canonical_key && library::is_audio(last.path) {
            let fresh = library::fresh_item(file);
            assert(library::cached_item(file, library::entry_of(fresh)) =~= fresh);
        }
    }
}

/// No other file in the directories has the file's path or its key.
pub open spec fn stands_alone(listings: Seq<Listing>, file: FoundFile) -> bool {
    forall|other: FoundFile| #[trigger]
        stands_in(listings, other) && (other@.canonical_key == file@.canonical_key
            || paths::components(other.path@) == paths::components(file.path@)) ==> other@ == file@
}

/// A scan tells of a file what the cache knows of it, where that has it with the same time of
/// modification, and else what the file itself tells: the embedded title, or that of its name, and
/// the directory that it stands in.
pub proof fn law_scan_tells_what_is_known(
    listings: Seq<Listing>,
    cache: Map<Seq<char>, storage::CachedEntryView>,
    file: FoundFile,
    q: int,
)
    requires
        stands_in(listings, file),
        stands_alone(listings, file),
        library::all_files(listings).len() <= usize::MAX,
        0 <= q < library::scanned_items(library::all_files(listings), cache).len(),
        library::scanned_items(library::all_files(listings), cache)[q].path == file.path@,
    ensures
        ({
            let item = library::scanned_items(library::all_files(listings), cache)[q];
            let key = storage::canonical_text(
                file.path@,
                storage::optional_bytes(file.resolved),
            );
            let time = match file.modified {
                Some(secs) => secs,
                None => 0,
            };
            &&& item.canonical_key == key
            &&& item.media_key == storage::media_text(file.path@, file.size)
            &&& item.modified_epoch_seconds == time
            &&& cache.contains_key(key) && cache[key].modified_epoch_seconds == time ==> {
                &&& item.title == cache[key].title
                &&& item.metadata_title == cache[key].metadata_title
                &&& item.parent_label == cache[key].parent_label
                &&& item.extension == cache[key].extension
            }
            &&& !(cache.contains_key(key) && cache[key].modified_epoch_seconds == time) ==> {
                &&& file.metadata_title matches Some(embedded) ==> item.title == embedded@
                    && item.metadata_title == Some(embedded@)
                &&& file.metadata_title is None ==> item.title == library::title_from_path(
                    file.path@,
                ) && item.metadata_title is None
                &&& item.parent_label == library::group_of(file.path@)
                &&& library::extension_text(file.path@) matches Some(ext) ==> item.extension
                    == text::lower(ext)
            }
        }),
{
    let files = library::all_files(listings);
    let list = library::scan_of(files, cache).items;
    let listed = library::scanned_items(files, cache);
    assert forall|i: int|
        0 <= i < files.len() && (#[trigger] files[i]).canonical_key
            == file@.canonical_key implies files[i] == file@ by {
        assert(files.contains(files[i]));
        let other = lemma_collected_stands(listings, files[i]);
        assert(stands_in(listings, other));
    }
    lemma_told(files, cache, file@);
    lemma_listed_was_visited(files, cache);
    library::law_scan_lists_each_path_once(list);
    let k = choose|k: int|
        0 <= k < list.len() && #[trigger] list[k] == listed[q] && library::is_first(list, k);
    lemma_keys_of_items(files, cache);
    let i = choose|i: int|
        0 <= i < files.len() && (#[trigger] files[i]).path == list[k].path
            && files[i].canonical_key == list[k].canonical_key;
    assert(files.contains(files[i]));
    let other = lemma_collected_stands(listings, files[i]);
    assert(stands_in(listings, other));
    assert(other.path@ == other@.path);
    assert(list[k].canonical_key == file@.canonical_key);
}

proof fn lemma_keys_of_items(
    files: Seq<FoundView>,
    cache: Map<Seq<char>, storage::CachedEntryView>,
)
    ensures
        forall|k: int|
            0 <= k < library::scan_of(files, cache).items.len() ==> exists|i: int|
                0 <= i < files.len() && (#[trigger] files[i]).path == (
                #[trigger] library::scan_of(files, cache).items[k]).path
                    && files[i].canonical_key == library::scan_of(
                    files,
                    cache,
                ).items[k].canonical_key,
    decreases files.len(),
{
    let after = library::scan_of(files, cache);
    if files.len() > 0 {
        let fewer = files.drop_last();
        let before = library::scan_of(fewer, cache);
        lemma_keys_of_items(fewer, cache);
        assert forall|k: int| 0 <= k < after.items.len() implies exists|i: int|
            0 <= i < files.len() && (#[trigger] files[i]).path == (#[trigger] after.items[k]).path
                && files[i].canonical_key == after.items[k].canonical_key by {
            if k < before.items.len() {
                assert(after.items[k] == before.items[k]);
                let i = choose|i: int|
                    0 <= i < fewer.len() && (#[trigger] fewer[i]).path == before.items[k].path
                        && fewer[i].canonical_key == before.items[k].canonical_key;
                assert(files[i] == fewer[i]);
            } else {
                assert(files[files.len() - 1].path == after.items[k].path);
            }
        }
    }
}

/// ASCII characters are encoded as single bytes, and only they as bytes below 128.
proof fn lemma_small_bytes(chars: Seq<char>, b: u8)
    requires
        b < 128,
        !chars.contains(b as char),
    ensures
        !vstd::utf8::encode_utf8(chars).contains(b),
    decreases chars.len(),
{
    let bytes = vstd::utf8::encode_utf8(chars);
    if chars.len() > 0 {
        let rest = chars.drop_first();
        assert forall|c: char| rest.contains(c) implies chars.contains(c) by {
            let i = choose|i: int| 0 <= i < rest.len() && rest[i] == c;
            assert(chars[i + 1] == c);
        }
        lemma_small_bytes(rest, b);
        let first = chars[0] as u32;
        assert(chars.contains(chars[0]));
        assert(chars[0] != b as char);
        vstd::utf8::char_is_scalar(chars[0]);
        assert(first != b as u32) by {
            if first == b as u32 {
                vstd::utf8::char_u32_cast(chars[0], first);
            }
        }
        let head = vstd::utf8::encode_scalar(first);
        assert(!head.contains(b)) by {
            assert((first <= 0x7f ==> (first & 0x7F) as u8 == first) && 0xC0 | ((first >> 6)
                & 0x1F) as u8 >= 128u8 && 0xE0 | ((first >> 12) & 0x0F) as u8 >= 128u8 && 0xF0 | ((
            first >> 18) & 0x7) as u8 >= 128u8 && 0x80 | (first & 0x3F) as u8 >= 128u8 && 0x80 | ((
            first >> 6) & 0x3F) as u8 >= 128u8 && 0x80 | ((first >> 12) & 0x3F) as u8 >= 128u8)
                by (bit_vector);
        }
        assert forall|k: int| 0 <= k < bytes.len() implies bytes[k] != b by {
            if k < head.len() {
                assert(head.contains(head[k]));
            } else {
                assert(bytes[k] == vstd::utf8::encode_utf8(rest)[k - head.len()]);
                assert(vstd::utf8::encode_utf8(rest).contains(bytes[k]));
            }
        }
    }
}

proof fn lemma_last_dot_at(name: Seq<u8>, i: int)
    requires
        0 <= i < name.len(),
        name[i] == paths::DOT,
        forall|k: int| i < k < name.len() ==> #[trigger] name[k] != paths::DOT,
    ensures
        paths::last_dot(name) == i,
    decreases name.len(),
{
    if i < name.len() - 1 {
        let shorter = name.drop_last();
        assert(name[name.len() - 1] != paths::DOT);
        assert(forall|k: int| i < k < shorter.len() ==> #[trigger] shorter[k] == name[k]);
        lemma_last_dot_at(shorter, i);
    }
}

/// The two last components of a path are what stands after its two last slashes.
proof fn lemma_two_names(outer: Seq<u8>, group: Seq<u8>, name: Seq<u8>)
    requires
        path_laws::is_name(group),
        path_laws::is_name(name),
        group != seq![paths::DOT, paths::DOT],
        name != seq![paths::DOT, paths::DOT],
    ensures
        ({
            let path = outer.push(paths::SLASH) + group.push(paths::SLASH) + name;
            &&& paths::file_name(path) == Some(name)
            &&& paths::parent_name(path) == Some(group)
        }),
{
    let path = outer.push(paths::SLASH) + group.push(paths::SLASH) + name;
    let i = outer.len() as int + 1 + group.len();
    assert(path[i] == paths::SLASH);
    assert forall|k: int| i < k < path.len() implies #[trigger] path[k] != paths::SLASH by {
        assert(path[k] == name[k - i - 1]);
    }
    path_laws::lemma_last_slash_at(path, i);
    assert(path.skip(i + 1) =~= name);
    let dir = path.take(i);
    assert(dir =~= outer.push(paths::SLASH) + group);
    let j = outer.len() as int;
    assert(dir[j] == paths::SLASH);
    assert forall|k: int| j < k < dir.len() implies #[trigger] dir[k] != paths::SLASH by {
        assert(dir[k] == group[k - j - 1]);
    }
    path_laws::lemma_last_slash_at(dir, j);
    assert(dir.skip(j + 1) =~= group);
    assert(group[0] != paths::SLASH && name[0] != paths::SLASH);
    let parts = paths::components(path);
    let above = paths::components(dir);
    assert(parts == above.push(name));
    assert(above.last() == group);
    assert(parts[parts.len() - 2] == group);
    if j == 0 {
        assert(above.len() == 2);
    } else {
        path_laws::lemma_component_shapes(dir.take(j));
    }
}

/// A letter of the alphabet, small or capital.
pub open spec fn is_letter(c: char, small: char, capital: char) -> bool {
    c == small || c == capital
}

/// `mp3` or `m4b`, in whatever case.
pub open spec fn is_audio_ending(ext: Seq<char>) -> bool {
    &&& ext.len() == 3
    &&& is_letter(ext[0], 'm', 'M')
    &&& (is_letter(ext[1], 'p', 'P') && ext[2] == '3') || (ext[1] == '4' && is_letter(
        ext[2],
        'b',
        'B',
    ))
}

/// What is given for a file that stands in a directory: its name up to the last dot as the title,
/// the name of the directory as the group, and it is an audio file just where its name ends in
/// `.mp3` or `.m4b`, in whatever case.
pub proof fn law_names_give_title_and_group(
    outer: Seq<u8>,
    group: Seq<char>,
    title: Seq<char>,
    ext: Seq<char>,
)
    requires
        group.len() > 0,
        !group.contains('/'),
        group != seq!['.'],
        group != seq!['.', '.'],
        title.len() > 0,
        !title.contains('/'),
        ext.len() > 0,
        !ext.contains('/'),
        !ext.contains('.'),
    ensures
        ({
            let path = outer.push(paths::SLASH) + vstd::utf8::encode_utf8(group).push(
                paths::SLASH,
            ) + (vstd::utf8::encode_utf8(title).push(paths::DOT) + vstd::utf8::encode_utf8(ext));
            &&& library::title_from_path(path) == title
            &&& library::group_of(path) == group
            &&& library::extension_text(path) == Some(ext)
            &&& library::is_audio(path) <==> is_audio_ending(ext)
            &&& library::is_m4b(path) <==> is_audio_ending(ext) && ext[1] == '4'
        }),
{
    broadcast use vstd::utf8::encode_utf8_valid_utf8, vstd::utf8::encode_utf8_decode_utf8;

    let g = vstd::utf8::encode_utf8(group);
    let t = vstd::utf8::encode_utf8(title);
    let e = vstd::utf8::encode_utf8(ext);
    let name = t.push(paths::DOT) + e;
    let path = outer.push(paths::SLASH) + g.push(paths::SLASH) + name;
    lemma_small_bytes(group, 47);
    lemma_small_bytes(title, 47);
    lemma_small_bytes(ext, 47);
    lemma_small_bytes(ext, 46);
    assert(g.len() > 0 && t.len() > 0 && e.len() > 0);
    assert forall|k: int| 0 <= k < g.len() implies #[trigger] g[k] != paths::SLASH by {
        assert(g.contains(g[k]));
    }
    assert forall|k: int| 0 <= k < name.len() implies #[trigger] name[k] != paths::SLASH by {
        if k < t.len() {
            assert(t.contains(t[k]));
        } else if k > t.len() {
            assert(name[k] == e[k - t.len() - 1]);
            assert(e.contains(e[k - t.len() - 1]));
        }
    }
    lemma_dots();
    if g == seq![paths::DOT] {
        assert(encoding::utf8(g) == Some(group));
        assert(false);
    }
    if g == seq![paths::DOT, paths::DOT] {
        assert(encoding::utf8(g) == Some(group));
        assert(false);
    }
    assert(name.len() >= 3);
    lemma_two_names(outer, g, name);
    assert forall|k: int| t.len() < k < name.len() implies #[trigger] name[k] != paths::DOT by {
        assert(name[k] == e[k - t.len() - 1]);
        assert(e.contains(e[k - t.len() - 1]));
    }
    lemma_last_dot_at(name, t.len() as int);
    assert(name.take(t.len() as int) =~= t);
    assert(name.skip(t.len() as int + 1) =~= e);
    lemma_audio_endings(ext);
}

/// One and two dots as bytes.
proof fn lemma_dots()
    ensures
        encoding::utf8(seq![paths::DOT]) == Some(seq!['.']),
        encoding::utf8(seq![paths::DOT, paths::DOT]) == Some(seq!['.', '.']),
{
    reveal_with_fuel(vstd::utf8::encode_utf8, 3);
    assert((46u32 & 0x7F) as u8 == 46) by (bit_vector);
    let one = seq!['.'];
    let two = seq!['.', '.'];
    assert(one.drop_first() =~= seq![]);
    assert(two.drop_first() =~= one);
    assert(vstd::utf8::encode_utf8(one) =~= seq![paths::DOT]);
    assert(vstd::utf8::encode_utf8(two) =~= seq![paths::DOT, paths::DOT]);
    encoding::law_encoded_text_is_read_back(one);
    encoding::law_encoded_text_is_read_back(two);
}

proof fn lemma_audio_endings(ext: Seq<char>)
    ensures
        text::lower(ext) == text::lower("mp3"@) <==> is_audio_ending(ext) && ext[1] != '4',
        text::lower(ext) == text::lower("m4b"@) <==> is_audio_ending(ext) && ext[1] == '4',
{
    reveal_strlit("mp3");
    reveal_strlit("m4b");
    let low = text::lower(ext);
    let first = text::lower("mp3"@);
    let second = text::lower("m4b"@);
    assert(first =~= seq!['m', 'p', '3']);
    assert(second =~= seq!['m', '4', 'b']);
    assert(low.len() == ext.len());
    assert(forall|i: int| 0 <= i < ext.len() ==> low[i] == text::lower_char(ext[i]));
    if is_audio_ending(ext) {
        if ext[1] == '4' {
            assert(low =~= second);
        } else {
            assert(low =~= first);
        }
    }
    if low == first {
        assert(low[0] == 'm' && low[1] == 'p' && low[2] == '3');
    }
    if low == second {
        assert(low[0] == 'm' && low[1] == '4' && low[2] == 'b');
    }
}

}

//! Directories as they are typed: the tilde for the home directory, and completion.

use vstd::prelude::*;
use vstd::relations::*;

use crate::encoding;
use crate::library;
use crate::order;
use crate::order::IndexOrder;
use crate::paths;
use crate::storage;
use crate::text;

verus! {

/// The path that a text means: `~` and `~/` at its beginning stand for the home directory where
/// that is known.
pub open spec fn expanded(input: Seq<char>, home: Option<Seq<u8>>) -> Seq<u8> {
    match home {
        Some(dir) => if input == "~"@ {
            dir
        } else if text::begins("~/"@, input) {
            paths::joined(dir, encoding::encoded(input.skip(2)))
        } else {
            encoding::encoded(input)
        },
        None => encoding::encoded(input),
    }
}

/// The path that a text means.
pub fn expand_tilde(input: &Vec<char>, home: &Option<Vec<u8>>) -> (path: Vec<u8>)
    ensures
        path@ == expanded(input@, storage::optional_bytes(*home)),
{
    match home {
        Some(dir) => {
            if text::same_chars(input, &text::chars_of("~")) {
                return paths::copy_bytes(dir);
            }
            let prefix = text::chars_of("~/");
            proof {
                reveal_strlit("~/");
            }
            if text::starts_with_chars(&prefix, input) {
                let rest = text::slice_chars(input, 2, input.len());
                assert(rest@ =~= input@.skip(2));
                return paths::join_text(dir, text::string_of(&rest).as_str());
            }
            encoding::text_bytes(text::string_of(input).as_str())
        },
        None => encoding::text_bytes(text::string_of(input).as_str()),
    }
}

/// What Tab completes: the text without the white space around it, or the home directory where
/// nothing is typed.
pub open spec fn completion_path(input: Seq<char>, home: Option<Seq<u8>>) -> Seq<u8> {
    let trimmed = text::trim(input);
    expanded(
        if trimmed.len() == 0 {
            "~/"@
        } else {
            trimmed
        },
        home,
    )
}

/// The path that Tab completes.
pub fn path_to_complete(input: &Vec<char>, home: &Option<Vec<u8>>) -> (path: Vec<u8>)
    ensures
        path@ == completion_path(input@, storage::optional_bytes(*home)),
{
    let trimmed = text::trim_chars(input);
    if trimmed.len() == 0 {
        expand_tilde(&text::chars_of("~/"), home)
    } else {
        expand_tilde(&trimmed, home)
    }
}

/// Where completions are looked for and how their names have to begin: anything in the path where
/// that is a directory, else what begins like the path's last component beside it. What is beside a
/// bare name stands in the working directory.
pub open spec fn search_of(path: Seq<u8>, is_dir: bool) -> (Seq<u8>, Seq<char>) {
    if path.len() == 0 || is_dir {
        (path, ""@)
    } else {
        (
            match paths::parent(path) {
                Some(dir) => if dir.len() == 0 {
                    seq![paths::DOT]
                } else {
                    dir
                },
                None => seq![paths::DOT],
            },
            storage::name_text(path),
        )
    }
}

/// Where completions are looked for, and how their names have to begin.
pub fn completion_search(path: &Vec<u8>, is_dir: bool) -> (search: (Vec<u8>, String))
    ensures
        (search.0@, search.1@) == search_of(path@, is_dir),
{
    if path.len() == 0 || is_dir {
        return (paths::copy_bytes(path), "".to_owned());
    }
    let name = storage::name_of(path);
    if let Some(dir) = paths::path_parent(path) {
        if dir.len() > 0 {
            return (dir, name);
        }
    }
    let mut here: Vec<u8> = Vec::new();
    here.push(paths::DOT);
    assert(here@ =~= seq![paths::DOT]);
    (here, name)
}

/// A path's last component is a text that begins in the given way.
pub open spec fn name_begins(path: Seq<u8>, prefix: Seq<char>) -> bool {
    match paths::file_name(path) {
        Some(name) => match encoding::utf8(name) {
            Some(t) => text::begins(prefix, t),
            None => false,
        },
        None => false,
    }
}

fn starts_like(path: &Vec<u8>, prefix: &Vec<char>) -> (starts: bool)
    ensures
        starts == name_begins(path@, prefix@),
{
    match paths::path_file_name(path) {
        Some(bytes) => match encoding::utf8_text(&bytes) {
            Some(name) => text::starts_with_chars(prefix, &text::chars_of(name.as_str())),
            None => false,
        },
        None => false,
    }
}

/// Indices of paths in the order of the paths.
pub open spec fn path_index_order(list: Seq<Seq<u8>>) -> spec_fn(usize, usize) -> bool {
    order::by_key(
        |i: usize| paths::components(list[i as int]),
        paths::components_order(),
        order::by_index(),
    )
}

/// Paths in order.
pub open spec fn in_order(list: Seq<Seq<u8>>) -> Seq<Seq<u8>> {
    library::indices_below(list.len()).sort_by(path_index_order(list)).map_values(
        |i: usize| list[i as int],
    )
}

/// The directories whose names begin in the given way, in order.
pub open spec fn candidates(directories: Seq<Seq<u8>>, prefix: Seq<char>) -> Seq<Seq<u8>> {
    in_order(directories.filter(|path: Seq<u8>| name_begins(path, prefix)))
}

struct PathSorter<'a> {
    list: &'a Vec<Vec<u8>>,
    keys: Vec<Vec<Vec<u8>>>,
}

impl<'a> IndexOrder for PathSorter<'a> {
    closed spec fn order(&self) -> spec_fn(usize, usize) -> bool {
        path_index_order(paths::byte_views(self.list@))
    }

    closed spec fn bound(&self) -> nat {
        self.list@.len()
    }

    closed spec fn ready(&self) -> bool {
        &&& self.keys@.len() == self.list@.len()
        &&& forall|i: int|
            0 <= i < self.keys@.len() ==> paths::byte_views((#[trigger] self.keys@[i])@)
                == paths::components(self.list@[i]@)
    }

    proof fn order_is_total(&self) {
        paths::lemma_components_order_total();
        order::lemma_base_orders_total();
        let list = paths::byte_views(self.list@);
        order::lemma_by_key_total(
            |i: usize| paths::components(list[i as int]),
            paths::components_order(),
            order::by_index(),
        );
    }

    fn le(&self, i: usize, j: usize) -> (le: bool) {
        assert(paths::byte_views(self.list@)[i as int] == self.list@[i as int]@);
        assert(paths::byte_views(self.list@)[j as int] == self.list@[j as int]@);
        if paths::same_components(&self.keys[i], &self.keys[j]) {
            i <= j
        } else {
            paths::components_le(&self.keys[i], &self.keys[j])
        }
    }
}

fn sort_paths(list: &Vec<Vec<u8>>) -> (sorted: Vec<Vec<u8>>)
    ensures
        paths::byte_views(sorted@) == in_order(paths::byte_views(list@)),
{
    let ghost views = paths::byte_views(list@);
    let mut keys: Vec<Vec<Vec<u8>>> = Vec::new();
    let mut i: usize = 0;
    while i < list.len()
        invariant
            i <= list.len(),
            keys@.len() == i,
            forall|k: int|
                0 <= k < i ==> paths::byte_views((#[trigger] keys@[k])@) == paths::components(
                    list@[k]@,
                ),
        decreases list.len() - i,
    {
        keys.push(paths::split_components(&list[i]));
        i = i + 1;
    }
    let sorter = PathSorter { list, keys };
    let indices = library::count_up(list.len());
    let arranged = order::sort_indices(&sorter, &indices);
    proof {
        order::lemma_sort_keeps_within(&sorter, indices@);
    }
    let ghost expected = in_order(views);
    let mut sorted: Vec<Vec<u8>> = Vec::new();
    let mut k: usize = 0;
    assert(paths::byte_views(sorted@) =~= expected.take(0));
    while k < arranged.len()
        invariant
            k <= arranged.len(),
            views == paths::byte_views(list@),
            expected == arranged@.map_values(|i: usize| views[i as int]),
            order::within(&sorter, arranged@),
            sorter.list@ == list@,
            paths::byte_views(sorted@) == expected.take(k as int),
        decreases arranged.len() - k,
    {
        let path = &list[arranged[k]];
        assert(expected[k as int] == path@);
        let ghost before = paths::byte_views(sorted@);
        sorted.push(paths::copy_bytes(path));
        assert(paths::byte_views(sorted@) =~= before.push(path@));
        assert(expected.take(k + 1) =~= expected.take(k as int).push(path@));
        k = k + 1;
    }
    assert(expected.take(k as int) =~= expected);
    sorted
}

/// The directories whose names begin in the given way, in order.
pub fn matching_directories(directories: &Vec<Vec<u8>>, prefix: &str) -> (found: Vec<Vec<u8>>)
    ensures
        paths::byte_views(found@) == candidates(paths::byte_views(directories@), prefix@),
{
    let chars = text::chars_of(prefix);
    let ghost views = paths::byte_views(directories@);
    let ghost begins = |path: Seq<u8>| name_begins(path, prefix@);
    let mut kept: Vec<Vec<u8>> = Vec::new();
    let mut i: usize = 0;
    proof {
        reveal(Seq::filter);
        assert(paths::byte_views(kept@) =~= views.take(0).filter(begins));
    }
    while i < directories.len()
        invariant
            i <= directories.len(),
            chars@ == prefix@,
            views == paths::byte_views(directories@),
            begins == (|path: Seq<u8>| name_begins(path, prefix@)),
            paths::byte_views(kept@) == views.take(i as int).filter(begins),
        decreases directories.len() - i,
    {
        let ghost before = paths::byte_views(kept@);
        let path = &directories[i];
        proof {
            reveal(Seq::filter);
            assert(views.take(i + 1).drop_last() =~= views.take(i as int));
            assert(views.take(i + 1).last() == path@);
        }
        if starts_like(path, &chars) {
            kept.push(paths::copy_bytes(path));
            assert(paths::byte_views(kept@) =~= before.push(path@));
        }
        i = i + 1;
    }
    assert(views.take(i as int) =~= views);
    sort_paths(&kept)
}

/// What the names of all paths begin with: the longest such text.
pub open spec fn common_name(list: Seq<Seq<u8>>) -> Seq<char>
    decreases list.len(),
{
    if list.len() == 0 {
        seq![]
    } else if list.len() == 1 {
        storage::name_text(list[0])
    } else {
        let shared = common_name(list.drop_last());
        shared.take(text::shared_len(shared, storage::name_text(list.last())) as int)
    }
}

/// The path that all paths begin with; empty where their names begin differently.
pub open spec fn common_path(list: Seq<Seq<u8>>) -> Seq<u8> {
    let name = common_name(list);
    if name.len() == 0 {
        seq![]
    } else {
        paths::joined(
            match paths::parent(list[0]) {
                Some(dir) => dir,
                None => seq![],
            },
            encoding::encoded(name),
        )
    }
}

/// The path that all paths begin with; empty where their names begin differently.
pub fn longest_common_prefix(list: &Vec<Vec<u8>>) -> (path: Vec<u8>)
    ensures
        path@ == common_path(paths::byte_views(list@)),
{
    let ghost views = paths::byte_views(list@);
    if list.len() == 0 {
        let path: Vec<u8> = Vec::new();
        assert(path@ =~= seq![]);
        return path;
    }
    let mut shared = text::chars_of(storage::name_of(&list[0]).as_str());
    assert(views[0] == list@[0]@);
    assert(views.take(1)[0] == list@[0]@);
    let mut i: usize = 1;
    while i < list.len()
        invariant
            1 <= i <= list.len(),
            views == paths::byte_views(list@),
            shared@ == common_name(views.take(i as int)),
        decreases list.len() - i,
    {
        assert(views.take(i + 1).drop_last() =~= views.take(i as int));
        assert(views.take(i + 1).last() == list@[i as int]@);
        let name = text::chars_of(storage::name_of(&list[i]).as_str());
        let len = text::common_prefix_len(&shared, &name);
        let shorter = text::slice_chars(&shared, 0, len);
        assert(shorter@ =~= shared@.take(len as int));
        shared = shorter;
        i = i + 1;
    }
    assert(views.take(i as int) =~= views);
    if shared.len() == 0 {
        let path: Vec<u8> = Vec::new();
        assert(path@ =~= seq![]);
        return path;
    }
    let dir = match paths::path_parent(&list[0]) {
        Some(dir) => dir,
        None => {
            let none: Vec<u8> = Vec::new();
            assert(none@ =~= seq![]);
            none
        },
    };
    paths::join_text(&dir, text::string_of(&shared).as_str())
}

/// A path as text, with a slash at the end where it is a directory.
pub open spec fn hinted(path: Seq<u8>, is_dir: bool) -> Seq<char> {
    if is_dir {
        text::with_slash(encoding::lossy(path))
    } else {
        encoding::lossy(path)
    }
}

/// A path as text, with a slash at the end where it is a directory.
pub fn display_path_with_dir_hint(path: &Vec<u8>, is_dir: bool) -> (shown: String)
    ensures
        shown@ == hinted(path@, is_dir),
{
    let whole = encoding::lossy_text(path);
    if is_dir {
        text::ensure_trailing_slash(whole.as_str())
    } else {
        whole
    }
}

/// A path as it is typed: with `~/` for the home directory, and a slash at the end where it is a
/// directory.
pub open spec fn typed(path: Seq<u8>, is_dir: bool, home: Option<Seq<u8>>) -> Seq<char> {
    match home {
        Some(dir) => if paths::components(path) == paths::components(dir) {
            "~/"@
        } else if paths::lies_under(path, dir) {
            let rest = encoding::lossy(
                paths::after_components(path, paths::components(dir).len() as int),
            );
            if rest.len() == 0 {
                "~/"@
            } else if is_dir {
                "~/"@ + text::with_slash(rest)
            } else {
                "~/"@ + rest
            }
        } else {
            hinted(path, is_dir)
        },
        None => hinted(path, is_dir),
    }
}

/// A path as it is typed.
pub fn display_input_path(path: &Vec<u8>, is_dir: bool, home: &Option<Vec<u8>>) -> (shown: String)
    ensures
        shown@ == typed(path@, is_dir, storage::optional_bytes(*home)),
{
    let dir = match home {
        Some(dir) => dir,
        None => {
            return display_path_with_dir_hint(path, is_dir);
        },
    };
    if paths::same_path(path, dir) {
        return "~/".to_owned();
    }
    if paths::starts_with(path, dir) {
        let parts = paths::split_components(dir);
        assert(parts@.len() == paths::components(dir@).len());
        let rest = encoding::lossy_text(&paths::rest_after(path, parts.len()));
        if text::chars_of(rest.as_str()).len() == 0 {
            return "~/".to_owned();
        }
        if is_dir {
            return text::concat2("~/", text::ensure_trailing_slash(rest.as_str()).as_str());
        }
        return text::concat2("~/", rest.as_str());
    }
    display_path_with_dir_hint(path, is_dir)
}

/// One of the paths has the same components as the given one.
pub open spec fn among(path: Seq<u8>, list: Seq<Seq<u8>>) -> bool {
    exists|i: int|
        0 <= i < list.len() && paths::components(#[trigger] list[i]) == paths::components(path)
}

fn is_among(path: &Vec<u8>, list: &Vec<Vec<u8>>) -> (found: bool)
    ensures
        found == among(path@, paths::byte_views(list@)),
{
    let ghost views = paths::byte_views(list@);
    let mut i: usize = 0;
    while i < list.len()
        invariant
            i <= list.len(),
            views == paths::byte_views(list@),
            forall|k: int|
                0 <= k < i ==> paths::components(#[trigger] views[k]) != paths::components(path@),
        decreases list.len() - i,
    {
        assert(views[i as int] == list@[i as int]@);
        if paths::same_path(&list[i], path) {
            return true;
        }
        i = i + 1;
    }
    false
}

/// What completion comes to: a new text, with the number of directories that it may lead to, or
/// none, with the number of directories that match.
#[derive(Debug)]
pub enum Completion {
    Typed { text: String, matches: usize },
    Unchanged { matches: usize },
}

#[verifier::ext_equal]
pub enum CompletionView {
    Typed { text: Seq<char>, matches: nat },
    Unchanged { matches: nat },
}

impl View for Completion {
    type V = CompletionView;

    open spec fn view(&self) -> CompletionView {
        match self {
            Completion::Typed { text, matches } => CompletionView::Typed {
                text: text@,
                matches: *matches as nat,
            },
            Completion::Unchanged { matches } => CompletionView::Unchanged {
                matches: *matches as nat,
            },
        }
    }
}

/// What completion comes to: a sole match is taken; of several, what they have in common.
pub open spec fn completed(found: Seq<Seq<u8>>, home: Option<Seq<u8>>) -> CompletionView {
    if found.len() == 0 {
        CompletionView::Unchanged { matches: 0 }
    } else if found.len() == 1 {
        CompletionView::Typed { text: typed(found[0], true, home), matches: 1 }
    } else {
        let common = common_path(found);
        if common.len() == 0 {
            CompletionView::Unchanged { matches: found.len() }
        } else {
            CompletionView::Typed {
                text: typed(common, among(common, found), home),
                matches: found.len(),
            }
        }
    }
}

/// What completion comes to, for the directories that match. A path that they have in common is
/// itself a directory only if it is one of them.
pub fn complete(found: &Vec<Vec<u8>>, home: &Option<Vec<u8>>) -> (completion: Completion)
    ensures
        completion@ == completed(paths::byte_views(found@), storage::optional_bytes(*home)),
{
    if found.len() == 0 {
        return Completion::Unchanged { matches: 0 };
    }
    if found.len() == 1 {
        assert(paths::byte_views(found@)[0] == found@[0]@);
        return Completion::Typed { text: display_input_path(&found[0], true, home), matches: 1 };
    }
    let common = longest_common_prefix(found);
    if common.len() == 0 {
        return Completion::Unchanged { matches: found.len() };
    }
    Completion::Typed {
        text: display_input_path(&common, is_among(&common, found), home),
        matches: found.len(),
    }
}

}

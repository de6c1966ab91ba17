//! What holds of the files that settings and state are kept in.

use vstd::prelude::*;

use crate::encoding;
use crate::path_laws;
use crate::paths;
use crate::storage;
use crate::storage::{Config, FileRead, FileWrite, Storage, StorageError};

verus! {

/// What one of the files holds.
#[verifier::ext_equal]
pub enum Stored {
    Config(storage::ConfigView),
    UiState(storage::UiStateView),
    Resume(Map<Seq<char>, storage::ResumeEntryView>),
    Bookmarks(Map<Seq<char>, Seq<storage::BookmarkView>>),
    Cache(Map<Seq<char>, storage::CachedEntryView>),
}

/// The file that something is kept in.
pub open spec fn file_of(store: Storage, stored: Stored) -> Seq<u8> {
    match stored {
        Stored::Config(_) => store.config_file(),
        Stored::UiState(_) => store.state_file(),
        Stored::Resume(_) => store.resume_file(),
        Stored::Bookmarks(_) => store.bookmarks_file(),
        Stored::Cache(_) => store.cache_file(),
    }
}

/// Two are kept in the same file.
pub open spec fn same_store(a: Stored, b: Stored) -> bool {
    match (a, b) {
        (Stored::Config(_), Stored::Config(_)) => true,
        (Stored::UiState(_), Stored::UiState(_)) => true,
        (Stored::Resume(_), Stored::Resume(_)) => true,
        (Stored::Bookmarks(_), Stored::Bookmarks(_)) => true,
        (Stored::Cache(_), Stored::Cache(_)) => true,
        _ => false,
    }
}

/// What files hold after something was saved, and then more, one after the other. A file is found
/// by the components of its path.
pub open spec fn after_saves(
    store: Storage,
    disk: Map<Seq<Seq<u8>>, Stored>,
    saves: Seq<Stored>,
) -> Map<Seq<Seq<u8>>, Stored>
    decreases saves.len(),
{
    if saves.len() == 0 {
        disk
    } else {
        after_saves(store, disk, saves.drop_last()).insert(
            paths::components(file_of(store, saves.last())),
            saves.last(),
        )
    }
}

/// The name of the file that something is kept in.
spec fn store_name(stored: Stored) -> Seq<char> {
    match stored {
        Stored::Config(_) => "config.toml"@,
        Stored::UiState(_) => "state.toml"@,
        Stored::Resume(_) => "resume.toml"@,
        Stored::Bookmarks(_) => "bookmarks.toml"@,
        Stored::Cache(_) => "library-cache.toml"@,
    }
}

proof fn lemma_plain_name(name: Seq<char>)
    requires
        vstd::utf8::is_ascii_chars(name),
        name.len() > 1,
        forall|i: int| 0 <= i < name.len() ==> #[trigger] name[i] != '/',
    ensures
        path_laws::is_name(encoding::encoded(name)),
        encoding::encoded(name).len() == name.len(),
{
    vstd::utf8::is_ascii_chars_encode_utf8(name);
    let bytes = encoding::encoded(name);
    assert forall|k: int| 0 <= k < bytes.len() implies #[trigger] bytes[k] != paths::SLASH by {
        let c = name[k];
        assert(c as u8 == bytes[k]);
        assert(c != '/');
    }
}

proof fn lemma_store_names(a: Stored, b: Stored)
    ensures
        path_laws::is_name(encoding::encoded(store_name(a))),
        !same_store(a, b) ==> encoding::encoded(store_name(a)) != encoding::encoded(store_name(b)),
{
    reveal_strlit("config.toml");
    reveal_strlit("state.toml");
    reveal_strlit("resume.toml");
    reveal_strlit("bookmarks.toml");
    reveal_strlit("library-cache.toml");
    lemma_plain_name(store_name(a));
    vstd::utf8::encode_utf8_decode_utf8(store_name(a));
    vstd::utf8::encode_utf8_decode_utf8(store_name(b));
    assert("config.toml"@[0] == 'c');
    assert("resume.toml"@[0] == 'r');
}

proof fn lemma_store_path(
    store: Storage,
    config_base: Seq<u8>,
    state_base: Seq<u8>,
    stored: Stored,
)
    requires
        store.laid_out(config_base, state_base),
    ensures
        ({
            let parts = paths::components(file_of(store, stored));
            parts.len() > 0 && parts.last() == encoding::encoded(store_name(stored))
        }),
{
    reveal_strlit("booktui");
    lemma_plain_name("booktui"@);
    lemma_store_names(stored, stored);
    let dir = match stored {
        Stored::Config(_) => store.config_dir(),
        _ => store.state_dir(),
    };
    assert(dir.len() > 0);
    path_laws::law_join_goes_one_deeper(dir, encoding::encoded(store_name(stored)));
}

/// The five files are five: no two of their paths are the same.
pub proof fn law_files_are_apart(
    store: Storage,
    config_base: Seq<u8>,
    state_base: Seq<u8>,
    a: Stored,
    b: Stored,
)
    requires
        store.laid_out(config_base, state_base),
        !same_store(a, b),
    ensures
        paths::components(file_of(store, a)) != paths::components(file_of(store, b)),
        file_of(store, a) != file_of(store, b),
{
    lemma_store_path(store, config_base, state_base, a);
    lemma_store_path(store, config_base, state_base, b);
    lemma_store_names(a, b);
}

/// What was saved stays in its file, whatever is saved in the others afterwards.
pub proof fn law_other_saves_leave_a_file_alone(
    store: Storage,
    config_base: Seq<u8>,
    state_base: Seq<u8>,
    disk: Map<Seq<Seq<u8>>, Stored>,
    saved: Stored,
    later: Seq<Stored>,
)
    requires
        store.laid_out(config_base, state_base),
        forall|i: int| 0 <= i < later.len() ==> !same_store(saved, #[trigger] later[i]),
    ensures
        ({
            let place = paths::components(file_of(store, saved));
            let end = after_saves(store, disk, seq![saved] + later);
            end.contains_key(place) && end[place] == saved
        }),
    decreases later.len(),
{
    let place = paths::components(file_of(store, saved));
    let all = seq![saved] + later;
    if later.len() == 0 {
        assert(all.last() == saved);
    } else {
        let fewer = later.drop_last();
        assert(all.drop_last() =~= seq![saved] + fewer);
        assert(all.last() == later.last());
        assert(!same_store(saved, later[later.len() - 1]));
        assert forall|i: int| 0 <= i < fewer.len() implies !same_store(
            saved,
            #[trigger] fewer[i],
        ) by {
            assert(fewer[i] == later[i]);
        }
        law_other_saves_leave_a_file_alone(store, config_base, state_base, disk, saved, fewer);
        law_files_are_apart(store, config_base, state_base, saved, later.last());
    }
}

/// Saved settings are loaded whole, whatever else is saved in between, where reading the file gives
/// what it holds.
pub proof fn law_saved_config_is_loaded(
    store: Storage,
    config_base: Seq<u8>,
    state_base: Seq<u8>,
    disk: Map<Seq<Seq<u8>>, Stored>,
    config: storage::ConfigView,
    later: Seq<Stored>,
    read: FileRead<Config>,
    result: Result<Config, StorageError>,
)
    requires
        store.laid_out(config_base, state_base),
        forall|i: int|
            0 <= i < later.len() ==> !same_store(Stored::Config(config), #[trigger] later[i]),
        read matches FileRead::Parsed(found) && Stored::Config(found@) == after_saves(
            store,
            disk,
            seq![Stored::Config(config)] + later,
        )[paths::components(store.config_file())],
        storage::loaded(
            store.config_file(),
            read,
            |value: Config| value@ == storage::ConfigView::initial(),
            result,
        ),
    ensures
        result matches Ok(value) && value@ == config,
{
    law_other_saves_leave_a_file_alone(
        store,
        config_base,
        state_base,
        disk,
        Stored::Config(config),
        later,
    );
}

/// A file that is there but cannot be read, or not be understood, is an error that names it, never a
/// default; only a file that is not there leads to that.
pub proof fn law_broken_file_is_no_default<T>(
    path: Seq<u8>,
    default: T,
    value: T,
    result: Result<T, StorageError>,
)
    ensures
        storage::loaded(path, FileRead::<T>::Missing, |v: T| v == default, result) ==> result
            == Ok::<T, StorageError>(default),
        storage::loaded(path, FileRead::<T>::Unreadable, |v: T| v == default, result) ==> (
        result matches Err(StorageError::Read { path: p }) && p@ == path),
        storage::loaded(path, FileRead::<T>::Malformed, |v: T| v == default, result) ==> (
        result matches Err(StorageError::Parse { path: p }) && p@ == path),
        storage::loaded(path, FileRead::Parsed(value), |v: T| v == default, result) ==> result
            == Ok::<T, StorageError>(value),
{
}

/// A save that failed is an error, and one that was done is none.
pub proof fn law_failed_save_is_an_error(path: Seq<u8>, result: Result<(), StorageError>)
    ensures
        storage::saved(path, FileWrite::Done, result) ==> result is Ok,
        storage::saved(path, FileWrite::NotSerialized, result) ==> result is Err,
        storage::saved(path, FileWrite::NotWritten, result) ==> (
        result matches Err(StorageError::Write { path: p }) && p@ == path),
{
}

/// The directories that are looked through are those of the settings, in their order.
pub proof fn law_tracked_directories_are_looked_through(dirs: Seq<Seq<char>>, i: int)
    requires
        0 <= i < dirs.len(),
    ensures
        crate::app::dir_paths(dirs).len() == dirs.len(),
        crate::app::dir_paths(dirs)[i] == vstd::utf8::encode_utf8(dirs[i]),
{
}

}

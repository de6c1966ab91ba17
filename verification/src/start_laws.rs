//! What the application begins with, and what a scan makes of it.

use vstd::prelude::*;

use crate::app::{ActionView, AppView, InputMode, ScanReasonView};
use crate::browse;
use crate::browse_laws;
use crate::library;
use crate::library::{FoundFile, FoundView, ItemView, Listing};
use crate::scan_laws;
use crate::storage::{BookmarkView, CachedEntryView, ConfigView, ResumeEntryView, UiStateView};

verus! {

/// The key that an item is remembered by: that of its name and size where state follows moved
/// files, else that of its path.
pub open spec fn remembered_by(config: ConfigView, item: ItemView) -> Seq<char> {
    if config.memory_on_move {
        item.media_key
    } else {
        item.canonical_key
    }
}

/// At the start nothing is played and every item is shown; settings, state and what is known of
/// files are what was read. The volume is the one that was set last, at most the full one.
pub proof fn law_start_takes_up_what_was_kept(
    config: ConfigView,
    ui_state: UiStateView,
    resume: Map<Seq<char>, ResumeEntryView>,
    bookmarks: Map<Seq<char>, Seq<BookmarkView>>,
    cache: Map<Seq<char>, CachedEntryView>,
    listings: Seq<Listing>,
    home: Option<Seq<u8>>,
    now: nat,
)
    ensures
        ({
            let app = AppView::at_start(
                config,
                ui_state,
                resume,
                bookmarks,
                cache,
                library::all_files(listings),
                home,
                now,
            );
            &&& app.config == config
            &&& app.ui_state == ui_state
            &&& app.resume == resume
            &&& app.bookmarks == bookmarks
            &&& app.home == home
            &&& app.player.file is None
            &&& app.player.duration is None
            &&& config.default_volume <= 100 ==> app.player.volume == config.default_volume
            &&& config.default_volume > 100 ==> app.player.volume == 100
            &&& app.player.speed == 100
            &&& app.filter.len() == 0
            &&& app.input_mode == InputMode::Normal
            &&& !app.idle_paused
            &&& app.last_interaction == now
            &&& app.sleep_left is None
            &&& app.seek_undo is None
            &&& app.chapters.len() == 0
        }),
{
    reveal_strlit("");
}

/// At the start every audio file in the library directories is listed, at whatever depth it stands.
pub proof fn law_start_lists_every_audio_file(
    config: ConfigView,
    ui_state: UiStateView,
    resume: Map<Seq<char>, ResumeEntryView>,
    bookmarks: Map<Seq<char>, Seq<BookmarkView>>,
    cache: Map<Seq<char>, CachedEntryView>,
    listings: Seq<Listing>,
    home: Option<Seq<u8>>,
    now: nat,
    file: FoundFile,
)
    requires
        scan_laws::stands_in(listings, file),
        library::is_audio(file.path@),
        library::all_files(listings).len() <= usize::MAX,
    ensures
        scan_laws::lists_path(
            AppView::at_start(
                config,
                ui_state,
                resume,
                bookmarks,
                cache,
                library::all_files(listings),
                home,
                now,
            ).items,
            file.path@,
        ),
{
    scan_laws::law_scan_lists_every_audio_file(listings, cache, file);
}

/// The item that was selected at the end is selected at the next start, if it is still there. Items
/// that are remembered by the same key count as one.
pub proof fn law_start_selects_what_was_selected(
    config: ConfigView,
    ui_state: UiStateView,
    resume: Map<Seq<char>, ResumeEntryView>,
    bookmarks: Map<Seq<char>, Seq<BookmarkView>>,
    cache: Map<Seq<char>, CachedEntryView>,
    files: Seq<FoundView>,
    home: Option<Seq<u8>>,
    now: nat,
    i: usize,
)
    requires
        ({
            let app = AppView::at_start(
                config,
                ui_state,
                resume,
                bookmarks,
                cache,
                files,
                home,
                now,
            );
            &&& app.items.len() <= usize::MAX
            &&& app.rows().len() <= usize::MAX
            &&& i < app.items.len()
            &&& ui_state.last_selected == Some(remembered_by(config, app.items[i as int]))
        }),
    ensures
        ({
            let app = AppView::at_start(
                config,
                ui_state,
                resume,
                bookmarks,
                cache,
                files,
                home,
                now,
            );
            &&& app.selected_item() matches Some(item) && Some(remembered_by(config, item))
                == ui_state.last_selected
        }),
{
    let app = AppView::at_start(config, ui_state, resume, bookmarks, cache, files, home, now);
    reveal_strlit("");
    let key = remembered_by(config, app.items[i as int]);
    browse_laws::law_selection_follows_the_item(
        app.items,
        app.filter,
        app.ui_state.sort_mode,
        app.resume,
        app.follow(),
        i,
    );
    browse_laws::law_each_match_is_shown_once(
        app.items,
        app.filter,
        app.ui_state.sort_mode,
        app.resume,
        app.follow(),
    );
    browse_laws::lemma_keyed_item(app.items, app.shown(), 0, key, app.follow());
    assert(app.shown().contains(i));
    let k = choose|k: int| 0 <= k < app.shown().len() && app.shown()[k] == i;
    assert(browse::state_key(app.items[app.shown()[k] as int], app.follow()) == key);
    let found = browse::keyed_item(app.items, app.shown(), 0, key, app.follow());
    assert(app.selected == browse::refreshed(app.items, app.shown(), Some(key), app.follow()));
    let r = app.selected->0;
    browse_laws::lemma_row_is_item(app.rows(), r as int);
    let shown = browse::selected_in(app.rows(), app.selected)->0;
    assert(browse_laws::row_items(app.rows()).contains(shown));
}

/// After a scan, whatever the reason for it, every audio file in the library directories is listed;
/// settings, filter and what is played stay.
pub proof fn law_rescan_lists_every_audio_file(
    app: AppView,
    listings: Seq<Listing>,
    reason: ScanReasonView,
    file: FoundFile,
)
    requires
        scan_laws::stands_in(listings, file),
        library::is_audio(file.path@),
        library::all_files(listings).len() <= usize::MAX,
    ensures
        ({
            let step = app.rescanned(library::all_files(listings), reason);
            &&& scan_laws::lists_path(step.app.items, file.path@)
            &&& step.app.config == app.config
            &&& step.app.filter == app.filter
            &&& step.app.player == app.player
            &&& step.app.resume == app.resume
            &&& step.app.bookmarks == app.bookmarks
            &&& step.app.ui_state.sort_mode == app.ui_state.sort_mode
            &&& step.actions == seq![ActionView::SaveLibraryCache, ActionView::SaveUiState]
        }),
{
    scan_laws::law_scan_lists_every_audio_file(listings, app.cache, file);
}

/// After a scan nothing is listed that does not stand in the library directories.
pub proof fn law_rescan_lists_only_audio_files(
    app: AppView,
    listings: Seq<Listing>,
    reason: ScanReasonView,
    q: int,
)
    requires
        library::all_files(listings).len() <= usize::MAX,
        0 <= q < app.rescanned(library::all_files(listings), reason).app.items.len(),
    ensures
        ({
            let item = app.rescanned(library::all_files(listings), reason).app.items[q];
            &&& library::is_audio(item.path)
            &&& exists|file: FoundFile|
                #[trigger] scan_laws::stands_in(listings, file) && file.path@ == item.path
        }),
{
    scan_laws::law_scan_lists_only_audio_files(listings, app.cache, q);
}

} // verus!

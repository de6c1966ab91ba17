//! What holds of the application as a whole.

use vstd::prelude::*;

use crate::app;
use crate::app::{ActionView, AppView, InputMode};
use crate::browse;
use crate::browse_laws;
use crate::editor;
use crate::editor::{Key, KeyPress};
use crate::library::{FoundView, ItemView};
use crate::playback;
use crate::player;
use crate::player::{CommandView, LoadFailure, LoadOutcome, Output, TrackView};
use crate::storage;
use crate::storage::ConfigView;
use crate::text;
use crate::time;

verus! {

/// A file begins where it was left: once the position of the loaded file is noted, playing the
/// item again asks for that position.
pub proof fn law_resume_where_left(
    app: AppView,
    item: ItemView,
    reported: nat,
    epoch: u64,
    now: nat,
    later: AppView,
)
    requires
        app.player.file == Some(app::track_of(item)),
        later.resume == app.persist_resume(reported, epoch, now).app.resume,
        later.config.memory_on_move == app.config.memory_on_move,
        later.selected_item() == Some(item),
    ensures
        later.play_selected().actions == seq![
            ActionView::Load {
                track: app::track_of(item),
                title: item.title,
                start_at: reported,
            },
        ],
{
}

/// A file that was heard to its end begins at its beginning.
pub proof fn law_finished_file_starts_over(
    app: AppView,
    item: ItemView,
    epoch: u64,
    later: AppView,
)
    requires
        app.player.file == Some(app::track_of(item)),
        later.resume == app.end_of_file(true, epoch).app.resume,
        later.config.memory_on_move == app.config.memory_on_move,
        later.selected_item() == Some(item),
    ensures
        app.end_of_file(true, epoch).app.player.file is None,
        later.play_selected().actions == seq![
            ActionView::Load { track: app::track_of(item), title: item.title, start_at: 0 },
        ],
{
}

/// Where state follows moved files, a file that was moved begins where it was left: its name and
/// size are what counts.
pub proof fn law_memory_follows_moved_file(
    app: AppView,
    moved: ItemView,
    track: TrackView,
    reported: nat,
    epoch: u64,
    now: nat,
)
    requires
        app.follow(),
        app.player.file == Some(track),
        moved.media_key == track.media_key,
    ensures
        app.persist_resume(reported, epoch, now).app.resume_position(
            browse::state_key(moved, true),
        ) == Some(reported),
        browse::last_played(
            app.persist_resume(reported, epoch, now).app.resume,
            browse::state_key(moved, true),
        ) == epoch,
{
}

/// Where state does not follow moved files, noting the position of one path leaves every other path
/// as it was.
pub proof fn law_strict_paths_are_separate(
    app: AppView,
    other: ItemView,
    track: TrackView,
    reported: nat,
    epoch: u64,
    now: nat,
)
    requires
        !app.follow(),
        app.player.file == Some(track),
        other.canonical_key != track.canonical_key,
    ensures
        app.persist_resume(reported, epoch, now).app.resume_position(
            browse::state_key(other, false),
        ) == app.resume_position(browse::state_key(other, false)),
{
}

/// Without a key press playback is paused once the idle time is over and not before; the next key
/// press lets it go on.
pub proof fn law_idle_pause_ends_with_a_key(
    app: AppView,
    output: Output,
    now: nat,
    later: nat,
)
    requires
        app.running(output),
        !app.idle_paused,
    ensures
        ({
            let checked = app.idle_check(output, now);
            let idle = playback::passed(now, app.last_interaction) >= app.config.idle_span();
            &&& checked.app.idle_paused == idle
            &&& checked.actions.contains(ActionView::Device(CommandView::Pause)) == idle
            &&& idle ==> {
                let woken = checked.app.woken(later);
                &&& woken.actions == seq![ActionView::Device(CommandView::Play)]
                &&& !woken.app.idle_paused
                &&& woken.app.last_interaction == later
            }
        }),
{
    let checked = app.idle_check(output, now);
    if app.idle_for_too_long(output, now) {
        assert(checked.actions[0] == ActionView::Device(CommandView::Pause));
    }
}

/// Nothing that is paused or has come to its end is paused for idleness.
pub proof fn law_idle_leaves_pauses_alone(app: AppView, output: Output, now: nat)
    requires
        output.paused || output.empty || app.player.file is None,
    ensures
        app.idle_check(output, now) == app.unchanged(),
{
}

/// The settings of a first run let playback go on for thirty minutes without a key press.
pub proof fn law_initial_idle_time()
    ensures
        ConfigView::initial().idle_span() == playback::seconds(1800),
        playback::in_words(1800) == text::decimal(30) + " minutes"@,
{
    reveal_strlit("30m");
    let notation = "30m"@;
    assert(notation =~= seq!['3', '0', 'm']);
    reveal_with_fuel(text::trim, 2);
    reveal_with_fuel(text::trim_end, 2);
    assert(text::trim(notation) == notation);
    let second = notation.drop_first();
    let third = second.drop_first();
    let end = third.drop_first();
    assert(second =~= seq!['0', 'm']);
    assert(third =~= seq!['m']);
    assert(end =~= seq![]);
    assert(time::group_seconds(end, None) == Some(0nat));
    assert(time::group_seconds(third, Some(30nat)) == Some(1800nat));
    assert(time::group_seconds(second, Some(3nat)) == Some(1800nat));
    assert(time::group_seconds(notation, None) == Some(1800nat));
}

/// While playback runs, its position is noted at least once in the given time: as long as it was
/// noted later than that, nothing is asked for, and then it is.
pub proof fn law_position_is_noted_in_time(app: AppView, output: Output, now: nat)
    requires
        app.running(output),
        now >= app.last_resume_save,
    ensures
        now - app.last_resume_save >= playback::seconds(60) ==> app.checkpoint(
            output,
            now,
        ).actions == seq![ActionView::PersistResume],
        now - app.last_resume_save < playback::seconds(60) ==> app.checkpoint(
            output,
            now,
        ).actions == Seq::<ActionView>::empty(),
        app.persist_resume(output.position@, 0, now).app.last_resume_save == now,
{
}

/// The volume stays between nothing and full, and what is played at is what is kept for the next
/// start.
pub proof fn law_volume_in_range(app: AppView, volume: u8, louder: bool)
    ensures
        app.volume_set(volume).app.player.volume <= 100,
        app.volume_set(volume).app.player.volume == app.volume_set(
            volume,
        ).app.config.default_volume,
        volume <= 100 ==> app.volume_set(volume).app.player.volume == volume,
        app.next_volume(louder) <= 100 || app.player.volume > 100,
{
}

/// One step louder and one step quieter lead back, unless full volume was in the way.
pub proof fn law_volume_steps_undo_each_other(app: AppView)
    requires
        app.player.volume <= 95,
    ensures
        ({
            let louder = app.volume_set(app.next_volume(true)).app;
            let back = louder.volume_set(louder.next_volume(false)).app;
            &&& louder.player.volume == app.player.volume + 5
            &&& back.player.volume == app.player.volume
        }),
{
}

/// Undoing leads to where playback was before the last change of place, and only once.
pub proof fn law_undo_leads_back(app: AppView, target: nat, reported: nat)
    requires
        app.player.file is Some,
        app.player.duration matches Some(end) ==> reported <= end,
    ensures
        ({
            let gone = app.seeking(app.player.seek(target), reported).app;
            let back = gone.undo_seek();
            &&& back.actions == seq![
                ActionView::Device(CommandView::Seek(reported)),
                ActionView::PersistResume,
            ]
            &&& back.app.undo_seek().actions == Seq::<ActionView>::empty()
        }),
{
}

/// A change of place that the sound output refused cannot be undone.
pub proof fn law_refused_seek_is_not_undone(app: AppView, target: nat, reported: nat)
    ensures
        ({
            let undone = app.seeking(app.player.seek(target), reported).app.seek_refused()
                .undo_seek();
            &&& undone.actions == Seq::<ActionView>::empty()
            &&& undone.app.status == "No seek to undo."@
        }),
{
}

/// The sleep timer stands still while playback does not run.
pub proof fn law_sleep_timer_freezes(app: AppView, output: Output, now: nat)
    requires
        !app.running(output),
    ensures
        app.sleep_check(output, now).app.sleep_left == app.sleep_left,
        app.sleep_check(output, now).actions == Seq::<ActionView>::empty(),
{
}

/// While playback runs, two looks at the sleep timer take from it the time between the first and
/// the second, and it pauses playback once nothing is left.
pub proof fn law_sleep_timer_counts_down(
    app: AppView,
    output: Output,
    left: nat,
    first: nat,
    second: nat,
)
    requires
        app.running(output),
        app.sleep_left == Some(left),
        app.last_tick <= first <= second,
        first - app.last_tick < left,
    ensures
        ({
            let once = app.sleep_check(output, first).app;
            let twice = once.sleep_check(output, second);
            &&& second - app.last_tick < left ==> twice.app.sleep_left == Some(
                (left - (second - app.last_tick)) as nat,
            ) && twice.actions == Seq::<ActionView>::empty()
            &&& second - app.last_tick >= left ==> twice.app.sleep_left is None && twice.actions
                == seq![ActionView::Device(CommandView::Pause), ActionView::PersistResume]
        }),
{
}

/// A file that cannot be loaded leaves a message and nothing loaded, and the application goes on.
pub proof fn law_broken_file_is_reported(
    app: AppView,
    track: TrackView,
    title: Seq<char>,
    failure: LoadFailure,
    now: nat,
)
    ensures
        ({
            let after = app.load_finished(track, title, LoadOutcome::Failed(failure), now);
            &&& after.status == failure.text(track.path)
            &&& after.player == app.player.stopped()
            &&& after.resume == app.resume
            &&& after.items == app.items
            &&& after.selected == app.selected
        }),
{
}

/// When the program ends, the position of what is loaded is kept, and the selected item too.
pub proof fn law_shutdown_keeps_position(
    app: AppView,
    track: TrackView,
    reported: nat,
    epoch: u64,
    now: nat,
)
    requires
        app.player.file == Some(track),
    ensures
        ({
            let ended = app.shut_down(reported, epoch, now);
            &&& ended.actions == seq![
                ActionView::SaveResumeStore,
                ActionView::SaveUiState,
                ActionView::Device(CommandView::Stop),
            ]
            &&& ended.app.resume_position(app::track_key(track, app.follow())) == Some(reported)
            &&& ended.app.player.file is None
        }),
{
    let ended = app.shut_down(reported, epoch, now);
    assert(ended.actions =~= seq![
        ActionView::SaveResumeStore,
        ActionView::SaveUiState,
        ActionView::Device(CommandView::Stop),
    ]);
}

/// Three times the sort key lead back to the first sort mode, and the rows are in the same order
/// again.
pub proof fn law_sort_modes_cycle(app: AppView)
    ensures
        ({
            let again = app.sort_cycled().app.sort_cycled().app.sort_cycled().app;
            &&& again.ui_state.sort_mode == app.ui_state.sort_mode
            &&& again.rows() == app.rows()
        }),
{
}

/// A list that a machine can hold.
pub open spec fn holdable(app: AppView) -> bool {
    app.items.len() <= usize::MAX && app.rows().len() <= usize::MAX
}

/// Sorting differently leaves the selected item selected. Items that share a key count as one.
pub proof fn law_sorting_keeps_selection(app: AppView)
    requires
        app.selected_item() is Some,
        holdable(app.sort_cycled().app),
    ensures
        app.sort_cycled().app.selected_key() == app.selected_key(),
{
    let after = app.sort_cycled().app;
    let i = browse::selected_in(app.rows(), app.selected)->0;
    lemma_selected_is_shown(app);
    browse_laws::law_selection_follows_the_item(
        after.items,
        after.filter,
        after.ui_state.sort_mode,
        after.resume,
        after.follow(),
        i,
    );
    lemma_selected_is_shown(after);
}

proof fn lemma_selected_is_shown(app: AppView)
    requires
        app.items.len() <= usize::MAX,
        browse::selected_in(app.rows(), app.selected) is Some,
    ensures
        ({
            let i = browse::selected_in(app.rows(), app.selected)->0;
            i < app.items.len() && browse::passes(app.filter, app.items[i as int])
        }),
{
    let rows = app.rows();
    let i = browse::selected_in(rows, app.selected)->0;
    browse_laws::law_each_match_is_shown_once(
        app.items,
        app.filter,
        app.ui_state.sort_mode,
        app.resume,
        app.follow(),
    );
    browse_laws::lemma_row_is_item(rows, app.selected->0 as int);
    assert(browse_laws::row_items(rows).contains(i));
}

/// A scan that finds the selected item again leaves it selected. Items that share a key count as
/// one.
pub proof fn law_rescan_keeps_selection(
    app: AppView,
    files: Seq<FoundView>,
    reason: app::ScanReasonView,
    found: usize,
)
    requires
        app.selected_item() is Some,
        holdable(app.rescanned(files, reason).app),
        found < app.rescanned(files, reason).app.items.len(),
        browse::passes(app.filter, app.rescanned(files, reason).app.items[found as int]),
        app.selected_key() == Some(
            browse::state_key(
                app.rescanned(files, reason).app.items[found as int],
                app.follow(),
            ),
        ),
    ensures
        app.rescanned(files, reason).app.selected_key() == app.selected_key(),
        app.rescanned(files, reason).app.ui_state.last_selected == app.selected_key(),
{
    let after = app.rescanned(files, reason).app;
    browse_laws::law_selection_follows_the_item(
        after.items,
        after.filter,
        after.ui_state.sort_mode,
        after.resume,
        after.follow(),
        found,
    );
    lemma_selected_is_shown(after);
}

/// Giving up a filter shows every item again.
pub proof fn law_escape_clears_filter(app: AppView, i: usize)
    requires
        app.input_mode == InputMode::Search,
        app.items.len() <= usize::MAX,
        i < app.items.len(),
    ensures
        ({
            let press = KeyPress { key: Key::Esc, control: false };
            let after = app.search_key(press).app;
            &&& after.input_mode == InputMode::Normal
            &&& browse_laws::row_items(after.rows()).contains(i)
        }),
{
    let press = KeyPress { key: Key::Esc, control: false };
    let after = app.search_key(press).app;
    reveal_strlit("");
    browse_laws::law_each_match_is_shown_once(
        after.items,
        after.filter,
        after.ui_state.sort_mode,
        after.resume,
        after.follow(),
    );
}

proof fn lemma_commands_keep_cursor_in_line(app: AppView, key: Key, output: Output)
    requires
        app.editor.valid(),
    ensures
        app.command_key(key, output).app.editor.valid(),
{
}

proof fn lemma_dialogs_keep_cursor_in_line(
    app: AppView,
    press: KeyPress,
    output: Output,
    epoch: u64,
)
    requires
        app.editor.valid(),
    ensures
        app.directory_key(press).app.editor.valid(),
        app.search_key(press).app.editor.valid(),
        app.seek_key(press, output.position@).app.editor.valid(),
        app.sleep_key(press).app.editor.valid(),
        app.bookmark_label_key(press, epoch).app.editor.valid(),
        app.bookmarks_key(press.key, output.position@).app.editor.valid(),
        app.chapters_key(press.key, output.position@).app.editor.valid(),
{
    editor::law_cursor_stays_in_line(app.editor, press);
}

/// Whatever key is pressed, the cursor of the dialogs stays in its line.
#[verifier::rlimit(40)]
#[verifier::spinoff_prover]
pub proof fn law_keys_keep_cursor_in_line(
    app: AppView,
    press: KeyPress,
    output: Output,
    epoch: u64,
)
    requires
        app.editor.valid(),
    ensures
        app.key(press, output, epoch).app.editor.valid(),
{
    match app.input_mode {
        InputMode::Normal => lemma_commands_keep_cursor_in_line(app, press.key, output),
        _ => lemma_dialogs_keep_cursor_in_line(app, press, output, epoch),
    }
}

proof fn lemma_other_commands_do_not_quit(app: AppView, key: Key, output: Output)
    ensures
        app.command_key(key, output).actions.contains(ActionView::Quit) <==> key == Key::Char('q'),
{
    let actions = app.command_key(key, output).actions;
    if key == Key::Char('q') {
        assert(actions[0] == ActionView::Quit);
    }
}

proof fn lemma_dialogs_do_not_quit(app: AppView, press: KeyPress, output: Output, epoch: u64)
    ensures
        !app.directory_key(press).actions.contains(ActionView::Quit),
        !app.search_key(press).actions.contains(ActionView::Quit),
        !app.seek_key(press, output.position@).actions.contains(ActionView::Quit),
        !app.sleep_key(press).actions.contains(ActionView::Quit),
        !app.bookmark_label_key(press, epoch).actions.contains(ActionView::Quit),
        !app.bookmarks_key(press.key, output.position@).actions.contains(ActionView::Quit),
        !app.chapters_key(press.key, output.position@).actions.contains(ActionView::Quit),
{
}

/// Only the command `q` ends the program.
pub proof fn law_only_q_quits(app: AppView, press: KeyPress, output: Output, epoch: u64)
    ensures
        app.key(press, output, epoch).actions.contains(ActionView::Quit) <==> app.input_mode
            == InputMode::Normal && press.key == Key::Char('q'),
{
    match app.input_mode {
        InputMode::Normal => lemma_other_commands_do_not_quit(app, press.key, output),
        _ => lemma_dialogs_do_not_quit(app, press, output, epoch),
    }
}

/// Two states agree in what scans found out and in what is loaded.
spec fn same_library(a: AppView, b: AppView) -> bool {
    a.cache == b.cache && a.items == b.items && a.player.file == b.player.file
}

proof fn lemma_commands_leave_library_alone(app: AppView, key: Key, output: Output)
    ensures
        same_library(app, app.command_key(key, output).app),
{
}

proof fn lemma_dialogs_leave_player_alone(
    app: AppView,
    press: KeyPress,
    output: Output,
    epoch: u64,
)
    ensures
        same_library(app, app.directory_key(press).app),
        same_library(app, app.search_key(press).app),
        same_library(app, app.seek_key(press, output.position@).app),
        same_library(app, app.sleep_key(press).app),
        same_library(app, app.bookmark_label_key(press, epoch).app),
        same_library(app, app.bookmarks_key(press.key, output.position@).app),
        same_library(app, app.chapters_key(press.key, output.position@).app),
        app.directory_key(press).app.player == app.player,
        app.search_key(press).app.player == app.player,
        app.seek_key(press, output.position@).app.player == app.player,
        app.sleep_key(press).app.player == app.player,
        app.bookmark_label_key(press, epoch).app.player == app.player,
        app.bookmarks_key(press.key, output.position@).app.player == app.player,
        app.chapters_key(press.key, output.position@).app.player == app.player,
{
}

/// Keys change neither what scans found out nor what is loaded, and in dialogs they leave the player
/// as it is.
#[verifier::rlimit(40)]
#[verifier::spinoff_prover]
pub proof fn law_keys_leave_cache_alone(
    app: AppView,
    press: KeyPress,
    output: Output,
    epoch: u64,
)
    ensures
        app.key(press, output, epoch).app.cache == app.cache,
        app.key(press, output, epoch).app.items == app.items,
        app.key(press, output, epoch).app.player.file == app.player.file,
        app.input_mode != InputMode::Normal ==> app.key(press, output, epoch).app.player
            == app.player,
{
    match app.input_mode {
        InputMode::Normal => lemma_commands_leave_library_alone(app, press.key, output),
        _ => lemma_dialogs_leave_player_alone(app, press, output, epoch),
    }
}

/// A directory that was added is removed again by removing the root of an item in it, and the list
/// of directories then tracks what it did before.
pub proof fn law_root_removal_undoes_adding(config: ConfigView, dir: Seq<char>, d: Seq<char>)
    requires
        config.library_dirs.no_duplicates(),
        !config.library_dirs.contains(dir),
    ensures
        config.with_dir(dir).without_dir(dir).library_dirs.contains(d)
            == config.library_dirs.contains(d),
{
    storage::law_added_dir_is_tracked_once(config, dir);
    storage::law_removed_dir_is_not_tracked(config.with_dir(dir), dir);
    assert(config.with_dir(dir).without_dir(dir).library_dirs.contains(d) <==> d != dir
        && config.with_dir(dir).library_dirs.contains(d));
    assert(config.with_dir(dir).library_dirs.contains(d) <==> d == dir
        || config.library_dirs.contains(d));
}

/// The selected row is that of an item; nothing is selected only where no item is shown.
pub open spec fn selection_holds(app: AppView) -> bool {
    match app.selected {
        Some(place) => browse_laws::selectable(app.rows(), place),
        None => app.shown().len() == 0,
    }
}

/// Noting positions may reorder the rows, but a selected row stays the row of an item.
proof fn lemma_resume_keeps_selection(before: AppView, after: AppView)
    requires
        selection_holds(before),
        before.items.len() <= usize::MAX,
        after.items == before.items,
        after.filter == before.filter,
        after.ui_state.sort_mode == before.ui_state.sort_mode,
        after.follow() == before.follow(),
        after.selected == before.selected,
    ensures
        selection_holds(after),
{
    browse_laws::law_sorting_keeps_heads(
        before.items,
        before.filter,
        before.ui_state.sort_mode,
        before.resume,
        after.ui_state.sort_mode,
        after.resume,
        before.follow(),
    );
    browse_laws::lemma_same_count(
        before.items,
        before.filter,
        before.ui_state.sort_mode,
        before.resume,
        after.ui_state.sort_mode,
        after.resume,
        before.follow(),
    );
    if let Some(place) = before.selected {
        assert(before.rows()[place as int] is Item);
        assert(after.rows()[place as int] is Item);
    }
}

proof fn lemma_refreshed_selection(app: AppView, key: Option<Seq<char>>)
    requires
        app.rows().len() <= usize::MAX,
    ensures
        selection_holds(app.refreshed(key)),
{
    browse_laws::law_refreshing_selects_an_item(app.items, app.shown(), key, app.follow());
}

/// At the start an item is selected, unless there is none.
pub proof fn law_start_selects_an_item(
    config: ConfigView,
    ui_state: storage::UiStateView,
    resume: Map<Seq<char>, storage::ResumeEntryView>,
    bookmarks: Map<Seq<char>, Seq<storage::BookmarkView>>,
    cache: Map<Seq<char>, storage::CachedEntryView>,
    files: Seq<FoundView>,
    home: Option<Seq<u8>>,
    now: nat,
)
    requires
        holdable(
            AppView::at_start(config, ui_state, resume, bookmarks, cache, files, home, now),
        ),
    ensures
        selection_holds(
            AppView::at_start(config, ui_state, resume, bookmarks, cache, files, home, now),
        ),
{
    let app = AppView::at_start(config, ui_state, resume, bookmarks, cache, files, home, now);
    let target = browse::initial_item(
        app.items,
        app.shown(),
        ui_state.last_selected,
        config.memory_on_move,
    );
    browse_laws::lemma_place_for(app.items, app.shown(), target);
}

/// Two states show the same rows and the same selection.
pub open spec fn same_view(a: AppView, b: AppView) -> bool {
    &&& a.items == b.items
    &&& a.filter == b.filter
    &&& a.ui_state.sort_mode == b.ui_state.sort_mode
    &&& a.resume == b.resume
    &&& a.follow() == b.follow()
    &&& a.selected == b.selected
}

/// A key that moves the selection or sorts.
spec fn rearranges(key: Key) -> bool {
    ||| key == Key::Char('s')
    ||| key == Key::Up
    ||| key == Key::Char('k')
    ||| key == Key::Down
    ||| key == Key::Char('j')
    ||| key == Key::PageUp
    ||| key == Key::PageDown
}

#[verifier::rlimit(40)]
#[verifier::spinoff_prover]
proof fn lemma_other_commands_keep_view(app: AppView, key: Key, output: Output)
    requires
        !rearranges(key),
    ensures
        same_view(app, app.command_key(key, output).app),
{
}

proof fn lemma_commands_keep_an_item_selected(app: AppView, key: Key, output: Output)
    requires
        selection_holds(app),
        holdable(app),
        holdable(app.command_key(key, output).app),
    ensures
        selection_holds(app.command_key(key, output).app),
{
    if !rearranges(key) {
        lemma_other_commands_keep_view(app, key, output);
    } else if key == Key::Char('s') {
        let mode = app.ui_state.sort_mode.following();
        let sorted = AppView {
            ui_state: storage::UiStateView { sort_mode: mode, ..app.ui_state },
            ..app
        };
        lemma_refreshed_selection(sorted, app.selected_key());
    } else if key == Key::Up || key == Key::Char('k') {
        lemma_moved_selection(app, -1);
    } else if key == Key::Down || key == Key::Char('j') {
        lemma_moved_selection(app, 1);
    } else if key == Key::PageUp {
        lemma_moved_selection(app, -10);
    } else {
        lemma_moved_selection(app, 10);
    }
}

proof fn lemma_search_keeps_an_item_selected(app: AppView, press: KeyPress)
    requires
        selection_holds(app),
        holdable(app),
        holdable(app.search_key(press).app),
    ensures
        selection_holds(app.search_key(press).app),
{
    match app.editor.edited(press) {
        Some(editor) => {
            let typed = AppView { editor, ..app };
            lemma_refreshed_selection(
                AppView { filter: text::trim(editor.line), ..typed },
                typed.selected_key(),
            );
        },
        None => {
            if press.key == Key::Esc {
                let cleared = AppView {
                    filter: ""@,
                    editor: editor::EditorView::holding(seq![]),
                    input_mode: InputMode::Normal,
                    ..app
                };
                lemma_refreshed_selection(cleared, None);
            }
            if press.key == Key::Enter {
                lemma_refreshed_selection(
                    AppView { filter: text::trim(app.editor.line), ..app },
                    app.selected_key(),
                );
            }
        },
    }
}

proof fn lemma_dialogs_keep_view(app: AppView, press: KeyPress, output: Output, epoch: u64)
    ensures
        same_view(app, app.directory_key(press).app),
        same_view(app, app.seek_key(press, output.position@).app),
        same_view(app, app.sleep_key(press).app),
        same_view(app, app.bookmark_label_key(press, epoch).app),
        same_view(app, app.bookmarks_key(press.key, output.position@).app),
        same_view(app, app.chapters_key(press.key, output.position@).app),
{
}

/// Whatever key is pressed, an item stays selected, unless none is shown.
#[verifier::rlimit(40)]
#[verifier::spinoff_prover]
pub proof fn law_keys_keep_an_item_selected(
    app: AppView,
    press: KeyPress,
    output: Output,
    epoch: u64,
)
    requires
        selection_holds(app),
        holdable(app),
        holdable(app.key(press, output, epoch).app),
    ensures
        selection_holds(app.key(press, output, epoch).app),
{
    match app.input_mode {
        InputMode::Normal => lemma_commands_keep_an_item_selected(app, press.key, output),
        InputMode::Search => lemma_search_keeps_an_item_selected(app, press),
        _ => lemma_dialogs_keep_view(app, press, output, epoch),
    }
}

proof fn lemma_moved_selection(app: AppView, delta: int)
    requires
        app.rows().len() <= usize::MAX,
    ensures
        selection_holds(app.selection_moved(delta).app),
{
    let places = browse::item_places(app.rows());
    browse_laws::law_moving_selects_an_item(app.rows(), app.selected, delta);
    if browse::moved(places, app.selected, delta) is None {
        browse_laws::lemma_no_item_no_index(app.items, app.shown());
    }
}

/// A scan leaves an item selected, unless none is shown.
pub proof fn law_rescan_selects_an_item(
    app: AppView,
    files: Seq<FoundView>,
    reason: app::ScanReasonView,
)
    requires
        holdable(app.rescanned(files, reason).app),
    ensures
        selection_holds(app.rescanned(files, reason).app),
{
    let scanned = AppView {
        items: crate::library::scanned_items(files, app.cache),
        cache: crate::library::scanned_cache(files, app.cache),
        ..app
    };
    lemma_refreshed_selection(scanned, app.selected_key());
}

/// Playback and the passing of time leave an item selected, unless none is shown.
pub proof fn law_playback_keeps_an_item_selected(
    app: AppView,
    output: Output,
    epoch: u64,
    now: nat,
    track: TrackView,
    title: Seq<char>,
    outcome: LoadOutcome,
)
    requires
        selection_holds(app),
        app.items.len() <= usize::MAX,
    ensures
        selection_holds(app.persist_resume(output.position@, epoch, now).app),
        selection_holds(app.end_of_file(output.empty, epoch).app),
        selection_holds(app.shut_down(output.position@, epoch, now).app),
        selection_holds(app.idle_check(output, now).app),
        selection_holds(app.woken(now).app),
        selection_holds(app.sleep_check(output, now).app),
        selection_holds(app.load_finished(track, title, outcome, now)),
{
    lemma_resume_keeps_selection(app, app.persist_resume(output.position@, epoch, now).app);
    lemma_resume_keeps_selection(app, app.end_of_file(output.empty, epoch).app);
    lemma_resume_keeps_selection(app, app.shut_down(output.position@, epoch, now).app);
}

}

//! Which item is selected, and which keys change nothing.

use vstd::prelude::*;

use crate::app::{ActionView, AppView, InputMode, Step};
use crate::browse;
use crate::browse::RowView;
use crate::browse_laws;
use crate::editor::{Key, KeyPress};
use crate::library::FoundView;
use crate::player::Output;
use crate::session_laws;
use crate::start_laws;
use crate::storage::{BookmarkView, CachedEntryView, ConfigView, ResumeEntryView, UiStateView};
use crate::view_laws;

verus! {

/// The first item that is shown is selected, or none where none is shown.
pub open spec fn selects_the_first(app: AppView) -> bool {
    match app.selected {
        Some(r) => r < app.rows().len() && app.rows()[r as int] is Item && view_laws::items_above(
            app.rows(),
            r as int,
        ) == 0,
        None => view_laws::items_above(app.rows(), app.rows().len() as int) == 0,
    }
}

proof fn lemma_first_place(rows: Seq<RowView>)
    requires
        rows.len() <= usize::MAX,
    ensures
        match browse::first_place(rows) {
            Some(r) => r < rows.len() && rows[r as int] is Item && view_laws::items_above(
                rows,
                r as int,
            ) == 0,
            None => view_laws::items_above(rows, rows.len() as int) == 0,
        },
{
    session_laws::lemma_places_count(rows);
    if browse::item_places(rows).len() > 0 {
        session_laws::lemma_row_at(rows, 0);
    }
}

/// Giving up the filter selects the first item.
pub proof fn law_escape_selects_the_first(
    app: AppView,
    control: bool,
    output: Output,
    epoch: u64,
)
    requires
        app.input_mode == InputMode::Search,
        app.key(KeyPress { key: Key::Esc, control }, output, epoch).app.rows().len() <= usize::MAX,
    ensures
        selects_the_first(app.key(KeyPress { key: Key::Esc, control }, output, epoch).app),
{
    lemma_first_place(app.key(KeyPress { key: Key::Esc, control }, output, epoch).app.rows());
}

/// While the filter is typed the selected item stays selected as long as it is shown. Items that are
/// remembered by the same key count as one.
pub proof fn law_typing_keeps_the_selected_item(
    app: AppView,
    r: usize,
    i: usize,
    press: KeyPress,
    output: Output,
    epoch: u64,
)
    requires
        app.input_mode == InputMode::Search,
        press.key != Key::Esc,
        app.items.len() <= usize::MAX,
        app.selected == Some(r),
        r < app.rows().len(),
        app.rows()[r as int] == (RowView::Item { item_index: i }),
        i < app.items.len(),
        app.key(press, output, epoch).app.rows().len() <= usize::MAX,
        view_laws::shows_item(app.key(press, output, epoch).app.rows(), i),
    ensures
        ({
            let after = app.key(press, output, epoch).app;
            &&& after.items == app.items
            &&& after.selected_item() matches Some(item) && start_laws::remembered_by(
                app.config,
                item,
            ) == start_laws::remembered_by(app.config, app.items[i as int])
        }),
{
    let after = app.key(press, output, epoch).app;
    assert(app.selected_item() == Some(app.items[i as int]));
    let edited = app.editor.edited(press);
    if edited is Some || press.key == Key::Enter {
        browse_laws::law_each_match_is_shown_once(
            after.items,
            after.filter,
            after.ui_state.sort_mode,
            after.resume,
            after.follow(),
        );
        let s = choose|s: int|
            0 <= s < after.rows().len() && #[trigger] after.rows()[s] == (RowView::Item {
                item_index: i,
            });
        browse_laws::lemma_row_is_item(after.rows(), s);
        assert(browse_laws::row_items(after.rows()).contains(i));
        browse_laws::law_selection_follows_the_item(
            after.items,
            after.filter,
            after.ui_state.sort_mode,
            after.resume,
            after.follow(),
            i,
        );
        let place = after.selected->0;
        browse_laws::lemma_row_is_item(after.rows(), place as int);
        let shown = browse::selected_in(after.rows(), after.selected)->0;
        assert(browse_laws::row_items(after.rows()).contains(shown));
    }
}

/// Where no selection is remembered from an earlier time, the first item is selected at the start.
pub proof fn law_start_selects_the_first(
    config: ConfigView,
    ui_state: UiStateView,
    resume: Map<Seq<char>, ResumeEntryView>,
    bookmarks: Map<Seq<char>, Seq<BookmarkView>>,
    cache: Map<Seq<char>, CachedEntryView>,
    files: Seq<FoundView>,
    home: Option<Seq<u8>>,
    now: nat,
)
    requires
        ui_state.last_selected is None,
        ({
            let app = AppView::at_start(
                config,
                ui_state,
                resume,
                bookmarks,
                cache,
                files,
                home,
                now,
            );
            app.items.len() <= usize::MAX && app.rows().len() <= usize::MAX
        }),
    ensures
        selects_the_first(
            AppView::at_start(config, ui_state, resume, bookmarks, cache, files, home, now),
        ),
{
    let app = AppView::at_start(config, ui_state, resume, bookmarks, cache, files, home, now);
    let rows = app.rows();
    let shown = app.shown();
    if shown.len() > 0 {
        let first = RowView::Item { item_index: shown[0] };
        reveal_with_fuel(browse::item_place, 3);
        reveal_with_fuel(view_laws::items_above, 3);
        assert(rows[0] == first || rows[0] is GroupHeader && rows[1] == first);
    } else {
        assert(rows =~= Seq::<RowView>::empty());
    }
}

/// A key is a command.
pub open spec fn is_command(key: Key) -> bool {
    match key {
        Key::Char(c) => c == 'q' || c == 'a' || c == '/' || c == 'r' || c == 'd' || c == 's' || c
            == 'k' || c == 'j' || c == ' ' || c == 'h' || c == 'l' || c == 'e' || c == 'u' || c
            == 't' || c == 'b' || c == 'B' || c == 'c' || c == 'v' || c == 'C' || c == 'o' || c
            == 'p' || c == '-' || c == '=' || c == '+',
        Key::Up | Key::Down | Key::PageUp | Key::PageDown | Key::Enter | Key::Left | Key::Right
        => true,
        _ => false,
    }
}

/// Nothing changes, and nothing is asked for.
pub open spec fn does_nothing(app: AppView, step: Step) -> bool {
    step.app == app && step.actions == Seq::<ActionView>::empty()
}

/// Keys that are no commands do nothing.
pub proof fn law_other_keys_do_nothing(
    app: AppView,
    key: Key,
    control: bool,
    output: Output,
    epoch: u64,
)
    requires
        app.input_mode == InputMode::Normal,
        !is_command(key),
    ensures
        does_nothing(app, app.key(KeyPress { key, control }, output, epoch)),
{
}

/// In a dialog keys that have nothing to do with its line do nothing.
pub proof fn law_other_keys_do_nothing_in_dialogs(
    app: AppView,
    key: Key,
    control: bool,
    output: Output,
    epoch: u64,
)
    requires
        app.input_mode != InputMode::Normal,
        key == Key::PageUp || key == Key::PageDown || key == Key::Other || key == Key::Tab
            && app.input_mode != InputMode::AddDirectory || (key == Key::Up || key == Key::Down)
            && app.input_mode != InputMode::Bookmarks && app.input_mode != InputMode::Chapters,
    ensures
        does_nothing(app, app.key(KeyPress { key, control }, output, epoch)),
{
}

/// Where no item is selected, there is nothing that Enter could play.
pub proof fn law_nothing_to_play(app: AppView, control: bool, output: Output, epoch: u64)
    requires
        app.input_mode == InputMode::Normal,
        app.selected_item() is None,
    ensures
        app.key(KeyPress { key: Key::Enter, control }, output, epoch).actions == Seq::<
            ActionView,
        >::empty(),
{
}

} // verus!

//! What goes on while something is played: bookmarks, chapters, timers, and what is noted of a file.

use vstd::prelude::*;

use crate::app::{ActionView, AppView, InputMode, Step};
use crate::browse;
use crate::browse::RowView;
use crate::chapters::ChapterView;
use crate::editor::{EditorView, Key, KeyPress};
use crate::key_laws;
use crate::library::ItemView;
use crate::player::{CommandView, LoadOutcome, Output, TrackView};
use crate::start_laws;
use crate::storage::BookmarkView;
use crate::text;
use crate::time;
use crate::ui;
use crate::view_laws;

verus! {

/// There are as many places of item rows as item rows.
pub proof fn lemma_places_count(rows: Seq<RowView>)
    ensures
        browse::item_places(rows).len() == view_laws::items_above(rows, rows.len() as int),
    decreases rows.len(),
{
    if rows.len() > 0 {
        let fewer = rows.drop_last();
        lemma_places_count(fewer);
        lemma_same_above(rows, fewer, fewer.len() as int);
    }
}

proof fn lemma_same_above(rows: Seq<RowView>, fewer: Seq<RowView>, r: int)
    requires
        rows.len() > 0,
        fewer == rows.drop_last(),
        r <= fewer.len(),
    ensures
        view_laws::items_above(rows, r) == view_laws::items_above(fewer, r),
    decreases r,
{
    if r > 0 {
        lemma_same_above(rows, fewer, r - 1);
    }
}

proof fn lemma_place_at(rows: Seq<RowView>, r: int)
    requires
        rows.len() <= usize::MAX,
        0 <= r < rows.len(),
        rows[r] is Item,
    ensures
        ({
            let k = view_laws::items_above(rows, r) as int;
            &&& k < browse::item_places(rows).len()
            &&& browse::item_places(rows)[k] == r
        }),
    decreases rows.len(),
{
    let fewer = rows.drop_last();
    lemma_same_above(rows, fewer, r);
    if r == fewer.len() {
        lemma_places_count(fewer);
    } else {
        lemma_place_at(fewer, r);
    }
}

/// The selection is on the item that stands some items below the one in row `r`, or above it for a
/// negative number; where the list ends before that, on the last one, or on the first.
pub open spec fn is_items_further(rows: Seq<RowView>, r: int, count: int, place: int) -> bool {
    let last = view_laws::items_above(rows, rows.len() as int) - 1;
    let wanted = view_laws::items_above(rows, r) + count;
    &&& 0 <= place < rows.len()
    &&& rows[place] is Item
    &&& view_laws::items_above(rows, place) == (if wanted < 0 {
        0
    } else if wanted > last {
        last
    } else {
        wanted
    })
}

/// The selection has moved, and nothing else that is shown.
pub open spec fn moves(app: AppView, step: Step, r: int, count: int) -> bool {
    &&& step.app.selected is Some
    &&& is_items_further(app.rows(), r, count, step.app.selected->0 as int)
    &&& step.app.rows() == app.rows()
    &&& step.app.items == app.items
    &&& step.app.player == app.player
    &&& step.app.ui_state.sort_mode == app.ui_state.sort_mode
    &&& step.app.selected_item() matches Some(item) ==> step.app.ui_state.last_selected == Some(
        start_laws::remembered_by(app.config, item),
    )
}

/// The place of an item row is one where an item stands, with as many items above.
pub proof fn lemma_row_at(rows: Seq<RowView>, k: int)
    requires
        rows.len() <= usize::MAX,
        0 <= k < browse::item_places(rows).len(),
    ensures
        ({
            let r = browse::item_places(rows)[k] as int;
            &&& r < rows.len()
            &&& rows[r] is Item
            &&& view_laws::items_above(rows, r) == k
        }),
    decreases rows.len(),
{
    if rows.len() > 0 {
        let fewer = rows.drop_last();
        lemma_places_count(fewer);
        if k < browse::item_places(fewer).len() {
            lemma_row_at(fewer, k);
            lemma_same_above(rows, fewer, browse::item_places(fewer)[k] as int);
        } else {
            lemma_same_above(rows, fewer, fewer.len() as int);
        }
    }
}

proof fn lemma_rank_at(rows: Seq<RowView>, from: int, k: int)
    requires
        rows.len() <= usize::MAX,
        0 <= from <= k < browse::item_places(rows).len(),
    ensures
        browse::rank_of(browse::item_places(rows), from, browse::item_places(rows)[k]) == k,
    decreases k - from,
{
    if from < k {
        lemma_row_at(rows, from);
        lemma_row_at(rows, k);
        lemma_rank_at(rows, from + 1, k);
    }
}

proof fn lemma_moves(app: AppView, r: usize, count: int)
    requires
        app.selected == Some(r),
        r < app.rows().len() <= usize::MAX,
        app.rows()[r as int] is Item,
    ensures
        moves(app, app.selection_moved(count), r as int, count),
{
    let rows = app.rows();
    let places = browse::item_places(rows);
    let k = view_laws::items_above(rows, r as int) as int;
    lemma_place_at(rows, r as int);
    lemma_places_count(rows);
    lemma_rank_at(rows, 0, k);
    lemma_row_at(rows, browse::clamped(k + count, 0, places.len() - 1));
}

/// Up and down, and `k` and `j`, select the item before and after; the page keys go ten items.
#[verifier::rlimit(60)]
pub proof fn law_selection_keys_move(
    app: AppView,
    r: usize,
    control: bool,
    output: Output,
    epoch: u64,
)
    requires
        app.input_mode == InputMode::Normal,
        app.selected == Some(r),
        r < app.rows().len() <= usize::MAX,
        app.rows()[r as int] is Item,
    ensures
        moves(app, app.key(KeyPress { key: Key::Up, control }, output, epoch), r as int, -1),
        moves(app, app.key(KeyPress { key: Key::Char('k'), control }, output, epoch), r as int, -1),
        moves(app, app.key(KeyPress { key: Key::Down, control }, output, epoch), r as int, 1),
        moves(app, app.key(KeyPress { key: Key::Char('j'), control }, output, epoch), r as int, 1),
        moves(app, app.key(KeyPress { key: Key::PageUp, control }, output, epoch), r as int, -10),
        moves(app, app.key(KeyPress { key: Key::PageDown, control }, output, epoch), r as int, 10),
{
    lemma_moves(app, r, -1);
    lemma_moves(app, r, 1);
    lemma_moves(app, r, -10);
    lemma_moves(app, r, 10);
}

/// The key that what is noted of a file stands under: that of its name and size where state follows
/// moved files, else that of its path.
pub open spec fn noted_under(app: AppView, file: TrackView) -> Seq<char> {
    if app.config.memory_on_move {
        file.media_key
    } else {
        file.canonical_key
    }
}

/// The bookmarks that a file has.
pub open spec fn bookmarks_of(app: AppView, file: TrackView) -> Seq<BookmarkView> {
    if app.bookmarks.contains_key(noted_under(app, file)) {
        app.bookmarks[noted_under(app, file)]
    } else {
        Seq::empty()
    }
}

/// `b`, a label and Enter add a bookmark where playback was at the `b`, after the others of the
/// file; those of other files stay.
pub proof fn law_b_makes_a_bookmark(
    app: AppView,
    file: TrackView,
    control: bool,
    output: Output,
    epoch: u64,
    typed: EditorView,
    later: Output,
    made_at: u64,
)
    requires
        app.input_mode == InputMode::Normal,
        app.player.file == Some(file),
    ensures
        ({
            let asked = app.key(KeyPress { key: Key::Char('b'), control }, output, epoch).app;
            let labelled = AppView { editor: typed, ..asked };
            let step = labelled.key(KeyPress { key: Key::Enter, control }, later, made_at);
            let list = bookmarks_of(step.app, file);
            let label = text::trim(typed.line);
            &&& asked.input_mode == InputMode::BookmarkLabel
            &&& asked.editor.line.len() == 0
            &&& list.len() == bookmarks_of(app, file).len() + 1
            &&& list.drop_last() == bookmarks_of(app, file)
            &&& list.last().position == output.position@
            &&& list.last().created_at_epoch_seconds == made_at
            &&& list.last().id == text::decimal(made_at as nat) + seq!['-'] + text::decimal(
                output.position@ / 1_000_000_000,
            )
            &&& label.len() > 0 ==> list.last().label == label
            &&& label.len() == 0 ==> list.last().label == ui::clock(output.position@)
            &&& forall|other: TrackView|
                noted_under(app, other) != noted_under(app, file) ==> #[trigger] bookmarks_of(
                    step.app,
                    other,
                ) == bookmarks_of(app, other)
            &&& step.actions == seq![ActionView::SaveBookmarkStore]
            &&& step.app.input_mode == InputMode::Normal
        }),
{
    let asked = app.key(KeyPress { key: Key::Char('b'), control }, output, epoch).app;
    let labelled = AppView { editor: typed, ..asked };
    let step = labelled.key(KeyPress { key: Key::Enter, control }, later, made_at);
    reveal_strlit("-");
    assert("-"@ =~= seq!['-']);
    assert(bookmarks_of(step.app, file).drop_last() =~= bookmarks_of(app, file));
}

/// `B` shows the bookmarks of what is played, the first one chosen; up and down choose the ones
/// before and after.
#[verifier::rlimit(40)]
pub proof fn law_bookmark_list_is_walked(
    app: AppView,
    file: TrackView,
    control: bool,
    output: Output,
    epoch: u64,
)
    requires
        app.player.file == Some(file),
    ensures
        app.input_mode == InputMode::Normal && bookmarks_of(app, file).len() > 0 ==> ({
            let step = app.key(KeyPress { key: Key::Char('B'), control }, output, epoch);
            step.app.input_mode == InputMode::Bookmarks && step.app.bookmark_cursor == 0
                && step.actions.len() == 0
        }),
        app.input_mode == InputMode::Normal && bookmarks_of(app, file).len() == 0 ==> ({
            let step = app.key(KeyPress { key: Key::Char('B'), control }, output, epoch);
            step.app.input_mode == InputMode::Normal && step.actions.len() == 0
        }),
        app.input_mode == InputMode::Bookmarks && 0 <= app.bookmark_cursor < bookmarks_of(
            app,
            file,
        ).len() ==> ({
            let up = app.key(KeyPress { key: Key::Up, control }, output, epoch);
            let down = app.key(KeyPress { key: Key::Down, control }, output, epoch);
            &&& up.app == AppView { bookmark_cursor: up.app.bookmark_cursor, ..app }
            &&& down.app == AppView { bookmark_cursor: down.app.bookmark_cursor, ..app }
            &&& app.bookmark_cursor > 0 ==> up.app.bookmark_cursor == app.bookmark_cursor - 1
            &&& app.bookmark_cursor == 0 ==> up.app.bookmark_cursor == 0
            &&& app.bookmark_cursor < bookmarks_of(app, file).len() - 1
                ==> down.app.bookmark_cursor == app.bookmark_cursor + 1
            &&& app.bookmark_cursor == bookmarks_of(app, file).len() - 1
                ==> down.app.bookmark_cursor == app.bookmark_cursor
            &&& app.key(KeyPress { key: Key::Char('k'), control }, output, epoch) == up
            &&& app.key(KeyPress { key: Key::Char('j'), control }, output, epoch) == down
        }),
{
}

/// Enter goes to the chosen bookmark; `d` deletes it and no other.
pub proof fn law_chosen_bookmark_is_used(
    app: AppView,
    file: TrackView,
    control: bool,
    output: Output,
    epoch: u64,
)
    requires
        app.input_mode == InputMode::Bookmarks,
        app.player.file == Some(file),
        0 <= app.bookmark_cursor < bookmarks_of(app, file).len(),
    ensures
        ({
            let i = app.bookmark_cursor;
            let list = bookmarks_of(app, file);
            let jump = app.key(KeyPress { key: Key::Enter, control }, output, epoch);
            let step = app.key(KeyPress { key: Key::Char('d'), control }, output, epoch);
            let left = bookmarks_of(step.app, file);
            &&& key_laws::goes_to(app, jump, list[i].position, output.position@)
            &&& jump.app.input_mode == InputMode::Normal
            &&& jump.app.bookmarks == app.bookmarks
            &&& left.len() == list.len() - 1
            &&& forall|k: int| 0 <= k < i ==> left[k] == #[trigger] list[k]
            &&& forall|k: int| i < k < list.len() ==> left[k - 1] == #[trigger] list[k]
            &&& forall|other: TrackView|
                noted_under(app, other) != noted_under(app, file) ==> #[trigger] bookmarks_of(
                    step.app,
                    other,
                ) == bookmarks_of(app, other)
            &&& step.actions == seq![ActionView::SaveBookmarkStore]
            &&& left.len() > 0 ==> step.app.input_mode == InputMode::Bookmarks && 0
                <= step.app.bookmark_cursor < left.len()
            &&& left.len() == 0 ==> step.app.input_mode == InputMode::Normal
        }),
{
}

/// A chapter is the last one that begins no later than a place.
pub open spec fn holds_place(list: Seq<ChapterView>, i: int, place: nat) -> bool {
    &&& 0 <= i < list.len()
    &&& list[i].start <= place
    &&& forall|k: int| i < k < list.len() ==> place < (#[trigger] list[k]).start
}

proof fn lemma_holds_place(list: Seq<ChapterView>, place: nat)
    ensures
        ({
            let i = crate::chapters::chapter_at(list, place);
            if i == -1 {
                forall|k: int| 0 <= k < list.len() ==> place < (#[trigger] list[k]).start
            } else {
                holds_place(list, i, place)
            }
        }),
    decreases list.len(),
{
    if list.len() > 0 && list.last().start > place {
        let fewer = list.drop_last();
        lemma_holds_place(fewer, place);
        let i = crate::chapters::chapter_at(list, place);
        if i != -1 {
            assert(fewer[i] == list[i]);
        }
        assert forall|k: int| i < k < list.len() && 0 <= k implies place < (#[trigger] list[k]).start by {
            if k < fewer.len() {
                assert(fewer[k] == list[k]);
            }
        }
    }
}

/// From within a chapter `v` goes to the beginning of the next one, if there is one, and `c` to that
/// of the one before, from the first one to its own. `C` shows the chapters with that one chosen.
#[verifier::rlimit(40)]
pub proof fn law_chapter_keys_go_by_chapters(
    app: AppView,
    i: int,
    control: bool,
    output: Output,
    epoch: u64,
)
    requires
        app.input_mode == InputMode::Normal,
        app.player.file is Some,
        holds_place(app.chapters, i, output.position@),
    ensures
        ({
            let from = output.position@;
            let next = app.key(KeyPress { key: Key::Char('v'), control }, output, epoch);
            let back = app.key(KeyPress { key: Key::Char('c'), control }, output, epoch);
            let list = app.key(KeyPress { key: Key::Char('C'), control }, output, epoch);
            &&& i + 1 < app.chapters.len() ==> key_laws::goes_to(
                app,
                next,
                app.chapters[i + 1].start,
                from,
            )
            &&& i + 1 == app.chapters.len() ==> next.actions.len() == 0
            &&& i > 0 ==> key_laws::goes_to(app, back, app.chapters[i - 1].start, from)
            &&& i == 0 ==> key_laws::goes_to(app, back, app.chapters[0].start, from)
            &&& list.actions.len() == 0
            &&& list.app.input_mode == InputMode::Chapters
            &&& list.app.chapter_cursor == i
        }),
{
    lemma_holds_place(app.chapters, output.position@);
    let at = crate::chapters::chapter_at(app.chapters, output.position@);
    if at == -1 {
        assert(output.position@ < app.chapters[i].start);
    } else if at < i {
        assert(output.position@ < app.chapters[i].start);
    } else if i < at {
        assert(output.position@ < app.chapters[at].start);
    }
}

/// Before the first chapter `v` goes to its beginning.
pub proof fn law_first_chapter_comes_next(
    app: AppView,
    control: bool,
    output: Output,
    epoch: u64,
)
    requires
        app.input_mode == InputMode::Normal,
        app.player.file is Some,
        app.chapters.len() > 0,
        forall|k: int|
            0 <= k < app.chapters.len() ==> output.position@ < (#[trigger] app.chapters[k]).start,
    ensures
        key_laws::goes_to(
            app,
            app.key(KeyPress { key: Key::Char('v'), control }, output, epoch),
            app.chapters[0].start,
            output.position@,
        ),
{
    lemma_holds_place(app.chapters, output.position@);
    let at = crate::chapters::chapter_at(app.chapters, output.position@);
    if at != -1 {
        assert(output.position@ < app.chapters[at].start);
    }
}

/// In the list of chapters up and down choose the ones before and after, and Enter goes to the
/// chosen one.
pub proof fn law_chapter_list_is_walked(
    app: AppView,
    control: bool,
    output: Output,
    epoch: u64,
)
    requires
        app.input_mode == InputMode::Chapters,
        app.player.file is Some,
        0 <= app.chapter_cursor < app.chapters.len(),
    ensures
        ({
            let i = app.chapter_cursor;
            let up = app.key(KeyPress { key: Key::Up, control }, output, epoch);
            let down = app.key(KeyPress { key: Key::Down, control }, output, epoch);
            let jump = app.key(KeyPress { key: Key::Enter, control }, output, epoch);
            &&& up.app == AppView { chapter_cursor: up.app.chapter_cursor, ..app }
            &&& down.app == AppView { chapter_cursor: down.app.chapter_cursor, ..app }
            &&& i > 0 ==> up.app.chapter_cursor == i - 1
            &&& i == 0 ==> up.app.chapter_cursor == 0
            &&& i < app.chapters.len() - 1 ==> down.app.chapter_cursor == i + 1
            &&& i == app.chapters.len() - 1 ==> down.app.chapter_cursor == i
            &&& app.key(KeyPress { key: Key::Char('k'), control }, output, epoch) == up
            &&& app.key(KeyPress { key: Key::Char('j'), control }, output, epoch) == down
            &&& key_laws::goes_to(app, jump, app.chapters[i].start, output.position@)
            &&& jump.app.input_mode == InputMode::Normal
        }),
{
}

/// Once a file is loaded it is what is played, with nothing left over of the one before; volume and
/// speed stay.
pub proof fn law_loaded_file_is_played(
    app: AppView,
    file: TrackView,
    title: Seq<char>,
    length: Option<time::Duration>,
    now: nat,
)
    ensures
        ({
            let after = app.load_finished(file, title, LoadOutcome::Loaded(length), now);
            &&& after.player.file == Some(file)
            &&& match length {
                Some(span) => after.player.duration == Some(span@),
                None => after.player.duration is None,
            }
            &&& after.player.volume == app.player.volume
            &&& after.player.speed == app.player.speed
            &&& after.chapters.len() == 0
            &&& after.seek_undo is None
            &&& after.last_resume_save == now
            &&& after.resume == app.resume
            &&& after.bookmarks == app.bookmarks
            &&& after.items == app.items
            &&& after.selected == app.selected
        }),
{
}

/// What is told of playback: where it is and how long what is played, the volume, and whether it is
/// paused; the beginning where nothing is played.
pub proof fn law_snapshot_tells_of_playback(app: AppView, output: Output)
    ensures
        ({
            let told = app.player.snapshot(output);
            &&& app.player.file is Some ==> told.position == output.position@
            &&& app.player.file is None ==> told.position == 0
            &&& told.duration == app.player.duration
            &&& told.volume == app.player.volume
            &&& told.is_paused == output.paused
        }),
{
}

/// At the end the selected item is remembered for the next start.
pub proof fn law_end_remembers_the_selected_item(
    app: AppView,
    item: ItemView,
    reported: nat,
    epoch: u64,
    now: nat,
)
    requires
        app.player.file is None,
        app.selected_item() == Some(item),
    ensures
        ({
            let step = app.shut_down(reported, epoch, now);
            &&& step.app.ui_state.last_selected == Some(start_laws::remembered_by(app.config, item))
            &&& step.app.ui_state.sort_mode == app.ui_state.sort_mode
            &&& step.app.resume == app.resume
        }),
{
}

/// Where nothing is played, there are no bookmarks to make or to show, and no chapters to go to.
#[verifier::rlimit(60)]
pub proof fn law_nothing_to_mark(app: AppView, control: bool, output: Output, epoch: u64)
    requires
        app.input_mode == InputMode::Normal,
        app.player.file is None,
    ensures
        forall|c: char|
            c == 'b' || c == 'B' || c == 'c' || c == 'v' || c == 'C' ==> ({
                let step = #[trigger] app.key(KeyPress { key: Key::Char(c), control }, output, epoch);
                &&& step.actions.len() == 0
                &&& step.app.input_mode == InputMode::Normal
                &&& step.app.bookmarks == app.bookmarks
            }),
{
}

/// Noting how far a file has been heard notes where playback is and when that was, under the file's
/// key and no other.
pub proof fn law_place_is_noted(app: AppView, file: TrackView, reported: nat, epoch: u64, now: nat)
    requires
        app.player.file == Some(file),
    ensures
        ({
            let step = app.persist_resume(reported, epoch, now);
            let key = noted_under(app, file);
            &&& step.app.resume.contains_key(key)
            &&& step.app.resume[key].position == reported
            &&& step.app.resume[key].updated_at_epoch_seconds == epoch
            &&& forall|other: Seq<char>|
                other != key ==> (#[trigger] step.app.resume.contains_key(other)
                    <==> app.resume.contains_key(other))
            &&& forall|other: Seq<char>|
                other != key && app.resume.contains_key(other) ==> #[trigger] step.app.resume[other]
                    == app.resume[other]
            &&& step.actions == seq![ActionView::SaveResumeStore]
        }),
{
}

/// A file that has come to its end is stopped and noted at its beginning.
pub proof fn law_end_stops_the_file(app: AppView, file: TrackView, epoch: u64)
    requires
        app.player.file == Some(file),
    ensures
        ({
            let step = app.end_of_file(true, epoch);
            let key = noted_under(app, file);
            &&& step.app.player.file is None
            &&& step.app.resume.contains_key(key)
            &&& step.app.resume[key].position == 0
            &&& step.app.resume[key].updated_at_epoch_seconds == epoch
            &&& step.actions == seq![
                ActionView::Device(CommandView::Stop),
                ActionView::SaveResumeStore,
            ]
            &&& app.end_of_file(false, epoch).app == app
            &&& app.end_of_file(false, epoch).actions.len() == 0
        }),
{
}

/// While something is played, a minute after the last time its place is noted again; not before, and
/// not during a pause.
pub proof fn law_place_is_noted_each_minute(app: AppView, output: Output, now: nat)
    requires
        app.player.file is Some,
        !output.empty,
        now >= app.last_resume_save,
    ensures
        !output.paused && now - app.last_resume_save >= 60_000_000_000 ==> app.checkpoint(
            output,
            now,
        ).actions == seq![ActionView::PersistResume],
        output.paused || now - app.last_resume_save < 60_000_000_000 ==> app.checkpoint(
            output,
            now,
        ).actions.len() == 0,
        app.checkpoint(output, now).app == app,
{
}

/// The sleep timer pauses playback once as much has been played as was left on it.
pub proof fn law_sleep_timer_pauses(app: AppView, left: nat, output: Output, now: nat)
    requires
        app.player.file is Some,
        !output.empty,
        !output.paused,
        app.sleep_left == Some(left),
        now >= app.last_tick,
    ensures
        ({
            let step = app.sleep_check(output, now);
            &&& now - app.last_tick >= left ==> step.app.sleep_left is None && step.actions == seq![
                ActionView::Device(CommandView::Pause),
                ActionView::PersistResume,
            ]
            &&& now - app.last_tick < left ==> step.app.sleep_left == Some(
                (left - (now - app.last_tick)) as nat,
            ) && step.actions.len() == 0
            &&& step.app.last_tick == now
        }),
{
}

/// Without a key playback is paused once the idle time is over, half an hour where none is set, and the next key lets it go on.
pub proof fn law_idle_time_pauses(app: AppView, output: Output, now: nat, later: nat)
    requires
        app.player.file is Some,
        !output.empty,
        !output.paused,
        now >= app.last_interaction,
    ensures
        ({
            let step = app.idle_check(output, now);
            let limit = match time::notation_seconds(app.config.idle_timeout) {
                Some(secs) => secs * 1_000_000_000,
                None => 1_800_000_000_000,
            };
            let over = now - app.last_interaction >= limit;
            &&& over ==> step.app.idle_paused && step.actions == seq![
                ActionView::Device(CommandView::Pause),
                ActionView::PersistResume,
            ]
            &&& !over ==> step.app == app && step.actions.len() == 0
            &&& over ==> step.app.woken(later).actions == seq![
                ActionView::Device(CommandView::Play),
            ]
            &&& step.app.woken(later).app.last_interaction == later
            &&& !step.app.woken(later).app.idle_paused
        }),
{
}

} // verus!

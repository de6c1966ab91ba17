//! What is to be seen: the lines of the library, the details, the playback controls and the marks.

use vstd::prelude::*;

use crate::app::{ActionView, AppView};
use crate::browse::RowView;
use crate::encoding;
use crate::input;
use crate::input::DirectoryProbe;
use crate::key_laws;
use crate::layout;
use crate::layout::{Direction, HitTarget, InputPopup, Rect};
use crate::library::ItemView;
use crate::playback;
use crate::player::{CommandView, Output};
use crate::pointer::Gesture;
use crate::session_laws;
use crate::start_laws;
use crate::storage::SortMode;
use crate::text;
use crate::time;
use crate::ui;
use crate::ui::LibraryLineView;

verus! {

/// A text for which there is room is shown whole; a longer one loses its middle, for which an
/// ellipsis stands, unless there is room for less than eight characters.
pub proof fn law_only_the_middle_is_left_out(whole: Seq<char>, room: nat)
    ensures
        ({
            let shown = ui::truncated(whole, room);
            &&& whole.len() <= room || room < 8 ==> shown == whole
            &&& whole.len() > room && room >= 8 ==> exists|n: int|
                #![trigger whole.take(n)]
                2 * n <= room - 1 < 2 * n + 2 && shown == whole.take(n).push('\u{2026}')
                    + whole.skip(whole.len() - n)
        }),
{
    if whole.len() > room && room >= 8 {
        let n = (room - 1) / 2;
        assert(ui::truncated(whole, room) =~= whole.take(n).push('\u{2026}') + whole.skip(
            whole.len() - n,
        ));
    }
}

/// The library view has a line for each row: the head of a group with its number of items, and the
/// title of an item with its kind of file.
pub proof fn law_rows_are_lines(app: AppView, width: u16, r: int)
    requires
        0 <= r < app.rows().len(),
    ensures
        app.library_lines(width).len() == app.rows().len(),
        app.rows()[r] matches RowView::Item { item_index } && app.items[item_index as int].title.len()
            + 12 <= width ==> app.library_lines(width)[r] == (LibraryLineView::Item {
            title: app.items[app.rows()[r]->item_index as int].title,
            kind: seq![' ', ' ', '.'] + app.items[app.rows()[r]->item_index as int].extension,
        }),
        app.rows()[r] matches RowView::GroupHeader { title, count } && title.len() + 8 <= width
            ==> app.library_lines(width)[r] == LibraryLineView::Head(
            app.rows()[r]->title + seq![' ', '('] + text::decimal(app.rows()[r]->count) + seq![')'],
        ),
{
    reveal_strlit("  .");
    reveal_strlit(" (");
    reveal_strlit(")");
    assert("  ."@ =~= seq![' ', ' ', '.']);
    assert(" ("@ =~= seq![' ', '(']);
    assert(")"@ =~= seq![')']);
    assert(app.library_lines(width)[r] == app.row_line(app.rows()[r], width));
}

/// Where nothing is shown, one line says so.
pub proof fn law_empty_library_is_noted(app: AppView, width: u16)
    requires
        app.rows().len() == 0,
    ensures
        app.library_lines(width).len() == 1,
        app.library_lines(width)[0] is Note,
{
}

/// What is told of the selected item: its title, the library directory that it lies in, its path,
/// its kind of file, whether its title is an embedded one, its length, and where it will begin.
pub proof fn law_details_tell_of_the_selected_item(app: AppView, item: ItemView, width: u16)
    requires
        app.selected_item() == Some(item),
    ensures
        ({
            let lines = app.detail_lines(width);
            let key = start_laws::remembered_by(app.config, item);
            &&& lines.len() == 7
            &&& lines[0] == ("Title: "@, item.title)
            &&& lines[1].0 == "Root: "@
            &&& forall|i: int| #[trigger]
                key_laws::first_around(app.config.library_dirs, item.path, i)
                    && app.config.library_dirs[i].len() + 10 <= width ==> lines[1].1
                    == app.config.library_dirs[i]
            &&& lines[2].0 == "Path: "@
            &&& forall|path: Seq<char>|
                item.path == #[trigger] vstd::utf8::encode_utf8(path) && path.len() + 10 <= width
                    ==> lines[2].1 == path
            &&& lines[3] == ("Format: "@, item.extension)
            &&& lines[4].0 == "Source: "@
            &&& item.metadata_title is Some ==> lines[4].1 == "metadata"@
            &&& item.metadata_title is None ==> lines[4].1 == "filename"@
            &&& lines[5].0 == "Duration: "@
            &&& app.player.duration matches Some(length) ==> lines[5].1 == ui::clock(length)
            &&& lines[6].0 == "Resume: "@
            &&& app.resume.contains_key(key) ==> lines[6].1 == ui::clock(app.resume[key].position)
            &&& !app.resume.contains_key(key) ==> lines[6].1 == "Start"@
        }),
{
    let lines = app.detail_lines(width);
    key_laws::law_root_holds_the_path(app, item.path);
    let dirs = app.config.library_dirs;
    assert forall|i: int| #[trigger]
        key_laws::first_around(dirs, item.path, i) && dirs[i].len() + 10 <= width implies lines[1].1
        == dirs[i] by {
        match app.root_for(item.path) {
            Some(root) => {
                let j = choose|j: int| #[trigger]
                    key_laws::first_around(dirs, item.path, j) && dirs[j] == root;
                if i < j {
                    assert(!key_laws::is_inside(item.path, dirs[i]));
                }
                if j < i {
                    assert(!key_laws::is_inside(item.path, dirs[j]));
                }
            },
            None => {
                assert(!key_laws::is_inside(item.path, dirs[i]));
            },
        }
    }
    assert forall|path: Seq<char>|
        item.path == #[trigger] vstd::utf8::encode_utf8(path) && path.len() + 10
            <= width implies lines[2].1 == path by {
        encoding::law_encoded_text_is_read_back(path);
    }
}

/// The timeline shows the place that is being chosen, or else where playback is; the beginning where
/// nothing is played.
pub proof fn law_timeline_shows_the_place(app: AppView, output: Output)
    ensures
        app.preview matches Some(place) ==> app.shown_place(output) == place,
        app.preview is None && app.player.file is Some ==> app.shown_place(output)
            == output.position@,
        app.preview is None && app.player.file is None ==> app.shown_place(output) == 0,
{
}

/// A speed is shown as a factor with two decimals.
pub proof fn law_speed_is_shown_as_a_factor(whole: nat, tenths: nat, hundredths: nat)
    requires
        tenths < 10,
        hundredths < 10,
    ensures
        ui::speed_text(whole * 100 + tenths * 10 + hundredths) == text::decimal(whole) + seq![
            '.',
            (48 + tenths) as char,
            (48 + hundredths) as char,
            'x',
        ],
{
    let speed = whole * 100 + tenths * 10 + hundredths;
    let part = tenths * 10 + hundredths;
    assert(speed / 100 == whole && speed % 100 == part) by (nonlinear_arith)
        requires
            speed == whole * 100 + part,
            0 <= part < 100,
    ;
    reveal_strlit(".");
    reveal_strlit("x");
    reveal_strlit("0");
    reveal_with_fuel(text::decimal, 3);
    assert(part / 10 == tenths && part % 10 == hundredths);
    assert(ui::speed_text(speed) =~= text::decimal(whole) + seq![
        '.',
        (48 + tenths) as char,
        (48 + hundredths) as char,
        'x',
    ]);
}

/// A place on a timeline of some columns lies in a column: the place's share of the whole begins no
/// earlier than the column and ends before the next one.
pub open spec fn lies_in_column(place: nat, whole: nat, columns: u16, column: u16) -> bool {
    &&& column < columns
    &&& place < whole ==> column * whole <= place * columns < (column + 1) * whole
    &&& place >= whole ==> column == columns - 1
}

proof fn lemma_column(place: nat, whole: nat, columns: u16)
    requires
        columns > 0,
        whole > 0,
    ensures
        lies_in_column(place, whole, columns, time::part_at(place, whole, columns)),
{
    if place < whole {
        let n = place * columns;
        let q = n / (whole as int);
        assert(0 <= q < columns) by (nonlinear_arith)
            requires
                n == place * columns,
                q == n / (whole as int),
                0 <= place < whole,
                columns > 0,
        ;
        assert(q * whole <= n < (q + 1) * whole) by (nonlinear_arith)
            requires
                q == n / (whole as int),
                n >= 0,
                whole > 0,
        ;
    }
}

/// Each chapter has a mark on the timeline where it begins, and then each bookmark where it leads
/// to.
pub proof fn law_marks_stand_at_their_places(
    app: AppView,
    file: crate::player::TrackView,
    length: nat,
    columns: u16,
    k: int,
)
    requires
        app.player.file == Some(file),
        app.player.duration == Some(length),
        length > 0,
        columns > 0,
    ensures
        ({
            let marks = app.marks(columns);
            let list = session_laws::bookmarks_of(app, file);
            let count = app.chapters.len();
            &&& marks.len() == count + list.len()
            &&& 0 <= k < count ==> !marks[k].bookmark && lies_in_column(
                app.chapters[k].start,
                length,
                columns,
                marks[k].column,
            )
            &&& count <= k < marks.len() ==> marks[k].bookmark && lies_in_column(
                list[k - count].position,
                length,
                columns,
                marks[k].column,
            )
        }),
{
    let list = session_laws::bookmarks_of(app, file);
    assert(app.current_bookmarks() =~= list);
    if 0 <= k < app.chapters.len() {
        lemma_column(app.chapters[k].start, length, columns);
    } else if k < app.marks(columns).len() && 0 <= k {
        lemma_column(list[k - app.chapters.len()].position, length, columns);
    }
}

/// A press or a drag on the volume bar sets the volume at once, at most to the full one, and it is
/// the same at the next start.
pub proof fn law_volume_bar_acts_at_once(
    app: AppView,
    area: Rect,
    place: nat,
    volume: u8,
    reported: nat,
)
    ensures
        ({
            let step = app.pointer(
                Gesture::Press,
                Some(HitTarget::Volume { area }),
                place,
                volume,
                reported,
            );
            let set = if volume > 100 {
                100
            } else {
                volume
            };
            &&& step.actions == seq![
                ActionView::Device(CommandView::SetVolume(set)),
                ActionView::SaveConfig,
            ]
            &&& step.app.player.volume == set
            &&& step.app.config.default_volume == set
            &&& step.app.config.library_dirs == app.config.library_dirs
            &&& step.app.player.file == app.player.file
            &&& step.app.drag == Some(HitTarget::Volume { area })
        }),
{
}

/// A drag that began on the volume bar goes on to set the volume, wherever it leads.
pub proof fn law_volume_follows_the_drag(
    app: AppView,
    area: Rect,
    hit: Option<HitTarget>,
    place: nat,
    volume: u8,
    reported: nat,
)
    requires
        app.drag == Some(HitTarget::Volume { area }),
        volume <= 100,
    ensures
        ({
            let step = app.pointer(Gesture::Drag, hit, place, volume, reported);
            &&& step.actions == seq![
                ActionView::Device(CommandView::SetVolume(volume)),
                ActionView::SaveConfig,
            ]
            &&& step.app.player.volume == volume
            &&& step.app.drag == app.drag
        }),
{
}

/// The heading of the library tells how many directories there are, the order, and the filter where
/// there is one.
pub proof fn law_heading_tells_order_and_filter(app: AppView)
    ensures
        ({
            let order = match app.ui_state.sort_mode {
                SortMode::Alphabetical => "alpha"@,
                SortMode::Date => "date"@,
                SortMode::LastPlayed => "last-played"@,
            };
            let base = "Library ["@ + text::decimal(app.config.library_dirs.len())
                + " roots | sort: "@ + order + "]"@;
            &&& app.filter.len() == 0 ==> app.library_title() == base
            &&& app.filter.len() > 0 ==> app.library_title() == base + " filter: "@ + app.filter
        }),
{
}

/// A press beside the bars does nothing, and neither does a release after it.
pub proof fn law_press_beside_the_bars_does_nothing(
    app: AppView,
    place: nat,
    volume: u8,
    reported: nat,
    hit: Option<HitTarget>,
)
    ensures
        ({
            let pressed = app.pointer(Gesture::Press, None, place, volume, reported);
            let released = pressed.app.pointer(Gesture::Release, hit, place, volume, reported);
            &&& pressed.actions.len() == 0
            &&& released.actions.len() == 0
            &&& released.app.player == app.player
            &&& released.app.config == app.config
            &&& released.app.drag is None
            &&& released.app.preview is None
        }),
{
}

/// On a screen of a hundred columns or more, with room for eight rows of the library, the details
/// stand beside it and have the greater part of the width; on another screen the library has it all.
pub proof fn law_details_stand_beside_the_library(area: Rect)
    requires
        area.x + area.width <= u16::MAX,
        area.y + area.height <= u16::MAX,
    ensures
        ({
            let shown = layout::layout_of(area);
            let wide = area.width >= 100 && shown.top.height >= 8;
            &&& shown.top.x == area.x
            &&& shown.top.y == area.y
            &&& shown.top.width == area.width
            &&& !wide ==> shown.details is None && shown.library == shown.top
            &&& wide ==> {
                &&& shown.details is Some
                &&& shown.library.x == area.x
                &&& shown.library.y == area.y
                &&& shown.library.height == shown.top.height
                &&& shown.details->0.x == area.x + shown.library.width
                &&& shown.details->0.y == area.y
                &&& shown.details->0.height == shown.top.height
                &&& shown.library.width + shown.details->0.width == area.width
                &&& 46 * area.width - 50 <= 100 * shown.library.width <= 46 * area.width + 50
            }
        }),
{
}

/// On a screen with eighteen rows or more the status line has the last two, the line of help the one
/// above, the volume bar and the timeline three each above that, and the library the rest.
pub proof fn law_large_screen_is_divided(area: Rect)
    requires
        area.x + area.width <= u16::MAX,
        area.y + area.height <= u16::MAX,
        area.height >= 18,
    ensures
        ({
            let shown = layout::layout_of(area);
            let bars = layout::sections_of(shown.transport);
            let end = area.y + area.height;
            let across = |part: Rect, from: int, rows: int|
                part.x == area.x && part.width == area.width && part.y == from && part.height
                    == rows;
            &&& across(shown.top, area.y as int, area.height - 9)
            &&& across(bars.timeline, end - 9, 3)
            &&& across(bars.volume, end - 6, 3)
            &&& bars.help is Some
            &&& across(bars.help->0, end - 3, 1)
            &&& across(shown.status, end - 2, 2)
        }),
{
}

/// A click on a bar hits that bar.
pub proof fn law_click_hits_the_bar_under_it(area: Rect, column: u16, row: u16)
    requires
        area.x + area.width <= u16::MAX,
        area.y + area.height <= u16::MAX,
        area.height >= 18,
    ensures
        ({
            let bars = layout::sections_of(layout::layout_of(area).transport);
            let end = area.y + area.height;
            let inside = area.x <= column < area.x + area.width;
            let found = layout::hit(bars, column, row);
            &&& inside && end - 9 <= row < end - 6 <==> found == Some(
                HitTarget::Timeline { area: bars.timeline },
            )
            &&& inside && end - 6 <= row < end - 3 <==> found == Some(
                HitTarget::Volume { area: bars.volume },
            )
            &&& !(inside && end - 9 <= row < end - 3) <==> found is None
        }),
{
}

/// On a bar the columns inside its border count from nothing to all of it.
pub proof fn law_gauge_counts_its_columns(area: Rect, column: u16)
    requires
        area.x + area.width <= u16::MAX,
        area.width >= 4,
        area.x < column < area.x + area.width - 1,
    ensures
        layout::gauge_fraction(area, column).part == column - area.x - 1,
        layout::gauge_fraction(area, column).whole == area.width - 3,
{
}

/// The dialog has seven rows in the middle of a screen with twelve or more, three for the line and
/// four for the hint below it, and about seven tenths of the width.
pub proof fn law_dialog_stands_in_the_middle(screen: Rect, popup: InputPopup, rest: Rect)
    requires
        layout::is_popup(screen, popup, rest),
        screen.x + screen.width <= u16::MAX,
        screen.y + screen.height <= u16::MAX,
        screen.height >= 12,
    ensures
        ({
            let above = popup.area.y - screen.y;
            let below = screen.y + screen.height - popup.area.y - 7;
            let left = popup.area.x - screen.x;
            let right = screen.x + screen.width - popup.area.x - popup.area.width;
            &&& popup.area.height == 7
            &&& below <= above <= below + 1
            &&& -1 <= left - right <= 1
            &&& 70 * screen.width - 100 <= 100 * popup.area.width <= 70 * screen.width + 100
            &&& popup.line.y == popup.area.y
            &&& popup.line.height == 3
            &&& popup.line.x == popup.area.x
            &&& popup.line.width == popup.area.width
            &&& popup.hint matches Some(hint) && hint.y == popup.area.y + 3 && hint.height == 4
        }),
{
    let wanted = seq![layout::Constraint::Length(3), layout::Constraint::Min(1)];
    let parts = seq![popup.line, rest];
    let width = screen.width as int;
    let side: int = 15;
    let end: int = 85;
    assert(side * width == 15 * width && end * width == 85 * width) by (nonlinear_arith)
        requires
            side == 15,
            end == 85,
    ;
    assert(popup.area.x == screen.x + layout::share(side, width));
    assert(popup.area.x + popup.area.width == screen.x + layout::share(end, width));
    assert(wanted.drop_last() =~= seq![layout::Constraint::Length(3)]);
    assert(wanted.drop_last().drop_last() =~= Seq::<layout::Constraint>::empty());
    reveal_with_fuel(layout::demand, 3);
    assert(wanted[0] == layout::Constraint::Length(3));
    assert(wanted[1] == layout::Constraint::Min(1));
    assert(layout::fits(Direction::Vertical, popup.area, wanted));
    assert(parts[0] == popup.line && parts[1] == rest);
    assert(layout::aligned(Direction::Vertical, parts[0], popup.area));
    assert(layout::start(Direction::Vertical, parts[1]) == layout::start(
        Direction::Vertical,
        parts[0],
    ) + layout::size(Direction::Vertical, parts[0]));
}

/// The status line tells that playback will go on by itself, where it was paused for want of input.
pub proof fn law_status_tells_of_an_idle_pause(app: AppView)
    ensures
        !app.idle_paused ==> app.status_line() == app.status,
        app.idle_paused ==> app.status_line() == app.status + " Auto-resume is armed."@,
{
}

/// A directory that was looked up is found only where it really is a directory that can be resolved.
pub proof fn law_only_resolved_directories_are_found(probe: DirectoryProbe)
    ensures
        match probe {
            DirectoryProbe::Resolved(path) => input::resolved_path(probe) == Some(path@),
            DirectoryProbe::NotADirectory => input::resolved_path(probe) is None,
            DirectoryProbe::Unresolved => input::resolved_path(probe) is None,
        },
{
}

/// Whole minutes are told in minutes, other times in seconds.
pub proof fn law_times_are_told_in_words(n: nat)
    ensures
        n != 1 ==> playback::in_words(60 * n) == text::decimal(n) + " minutes"@,
        n % 60 != 0 && n != 1 ==> playback::in_words(n) == text::decimal(n) + " seconds"@,
{
    assert((60 * n) % 60 == 0 && (60 * n) / 60 == n);
}

} // verus!

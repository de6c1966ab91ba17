//! The texts of the screen.

use vstd::prelude::*;

use crate::app::{App, AppView, InputMode};
use crate::browse;
use crate::browse::{LibraryRow, RowView};
use crate::chapters::ChapterView;
use crate::encoding;
use crate::library::{ItemView, LibraryItem};
use crate::player;
use crate::player::Output;
use crate::storage;
use crate::storage::BookmarkView;
use crate::text;
use crate::time;
use crate::time::Duration;

pub use crate::layout::{hit_test, ratio_from_gauge_click, HitTarget};

verus! {

/// A place as hours, minutes and seconds, or as minutes and seconds within the first hour.
pub open spec fn clock(place: nat) -> Seq<char> {
    let total = place / (time::NANOS_PER_SEC as nat);
    let hours = total / 3600;
    let minutes = (total % 3600) / 60;
    let secs = total % 60;
    if hours > 0 {
        text::two_digits(hours) + ":"@ + text::two_digits(minutes) + ":"@ + text::two_digits(secs)
    } else {
        text::two_digits(minutes) + ":"@ + text::two_digits(secs)
    }
}

/// A place as hours, minutes and seconds.
pub fn format_duration(duration: Duration) -> (shown: String)
    ensures
        shown@ == clock(duration@),
{
    let total: u64 = duration.as_secs();
    let hours: u64 = total / 3600;
    let minutes: u64 = (total % 3600) / 60;
    let secs: u64 = total % 60;
    let mut shown = "".to_owned();
    proof {
        reveal_strlit("");
    }
    if hours > 0 {
        text::push_two_digits(&mut shown, hours);
        shown.append(":");
    }
    text::push_two_digits(&mut shown, minutes);
    shown.append(":");
    text::push_two_digits(&mut shown, secs);
    assert(shown@ =~= clock(duration@));
    shown
}

/// A text that is too long, with its middle left out.
pub open spec fn truncated(whole: Seq<char>, max_len: nat) -> Seq<char> {
    if max_len < 8 || whole.len() <= max_len {
        whole
    } else {
        let keep = (max_len - 1) / 2;
        whole.take(keep) + seq!['\u{2026}'] + whole.skip(whole.len() - keep)
    }
}

/// Leaves out the middle of a text that is too long. A text for which there is hardly any room
/// stays as it is.
pub fn truncate_middle(whole: &str, max_len: usize) -> (shown: String)
    ensures
        shown@ == truncated(whole@, max_len as nat),
{
    let chars = text::chars_of(whole);
    if max_len < 8 || chars.len() <= max_len {
        return whole.to_owned();
    }
    let keep: usize = (max_len - 1) / 2;
    let mut shown = text::slice_chars(&chars, 0, keep);
    shown.push('\u{2026}');
    let mut end = text::slice_chars(&chars, chars.len() - keep, chars.len());
    shown.append(&mut end);
    assert(shown@ =~= truncated(whole@, max_len as nat));
    text::string_of(&shown)
}

/// A shortened text is no longer than asked for, begins and ends as the whole does, and is as long
/// as it may be, give or take one character.
pub proof fn law_truncated_fits(whole: Seq<char>, max_len: nat)
    requires
        max_len >= 8,
        whole.len() > max_len,
    ensures
        ({
            let keep = (max_len - 1) / 2;
            let shown = truncated(whole, max_len);
            &&& max_len - 1 <= shown.len() <= max_len
            &&& shown.take(keep) == whole.take(keep)
            &&& shown.skip(shown.len() - keep) == whole.skip(whole.len() - keep)
        }),
{
    let keep = (max_len - 1) / 2;
    let shown = truncated(whole, max_len);
    assert(shown.take(keep) =~= whole.take(keep));
    assert(shown.skip(shown.len() - keep) =~= whole.skip(whole.len() - keep));
}

/// A line with a cursor in it: what stands before it, what it stands on, and what comes after.
#[derive(Debug)]
pub struct CursorLine {
    pub left: String,
    pub under: String,
    pub right: Option<String>,
}

/// Shows where the cursor stands: on a character, or on a blank after the line.
pub fn with_cursor(line: &Vec<char>, cursor: usize) -> (shown: CursorLine)
    ensures
        ({
            let at = if cursor <= line@.len() {
                cursor as int
            } else {
                line@.len() as int
            };
            &&& shown.left@ == line@.take(at)
            &&& at < line@.len() ==> shown.under@ == seq![line@[at]]
                && storage::optional_text(shown.right) == Some(line@.skip(at + 1))
            &&& at == line@.len() ==> shown.under@ == " "@ && shown.right is None
        }),
{
    let at: usize = if cursor <= line.len() {
        cursor
    } else {
        line.len()
    };
    let before = text::slice_chars(line, 0, at);
    assert(before@ =~= line@.take(at as int));
    let left = text::string_of(&before);
    if at < line.len() {
        let under = text::slice_chars(line, at, at + 1);
        assert(under@ =~= seq![line@[at as int]]);
        let after = text::slice_chars(line, at + 1, line.len());
        assert(after@ =~= line@.skip(at + 1));
        CursorLine {
            left,
            under: text::string_of(&under),
            right: Some(text::string_of(&after)),
        }
    } else {
        CursorLine { left, under: " ".to_owned(), right: None }
    }
}

/// A line of the library view: a note, the head of a group, or an item with its kind of file.
#[derive(Debug)]
pub enum LibraryLine {
    Note(String),
    Head(String),
    Item { title: String, kind: String },
}

#[verifier::ext_equal]
pub enum LibraryLineView {
    Note(Seq<char>),
    Head(Seq<char>),
    Item { title: Seq<char>, kind: Seq<char> },
}

impl View for LibraryLine {
    type V = LibraryLineView;

    open spec fn view(&self) -> LibraryLineView {
        match self {
            LibraryLine::Note(note) => LibraryLineView::Note(note@),
            LibraryLine::Head(head) => LibraryLineView::Head(head@),
            LibraryLine::Item { title, kind } => LibraryLineView::Item {
                title: title@,
                kind: kind@,
            },
        }
    }
}

/// The lines of a list.
pub open spec fn line_views(lines: Seq<LibraryLine>) -> Seq<LibraryLineView> {
    lines.map_values(|line: LibraryLine| line@)
}

/// What is left of a width beside something.
pub open spec fn beside(width: u16, taken: int) -> nat {
    if width >= taken {
        (width - taken) as nat
    } else {
        0
    }
}

impl AppView {
    /// The line for a row.
    pub open spec fn row_line(self, row: RowView, width: u16) -> LibraryLineView {
        match row {
            RowView::GroupHeader { title, count } => LibraryLineView::Head(
                truncated(title, beside(width, 8)) + " ("@ + text::decimal(count) + ")"@,
            ),
            RowView::Item { item_index } => {
                let item = self.items[item_index as int];
                LibraryLineView::Item {
                    title: truncated(item.title, beside(width, 12)),
                    kind: "  ."@ + item.extension,
                }
            },
        }
    }

    /// The lines of the library view: one for each row, or a note where there is none.
    pub open spec fn library_lines(self, width: u16) -> Seq<LibraryLineView> {
        if self.rows().len() == 0 {
            seq![
                LibraryLineView::Note(
                    if self.filter.len() == 0 {
                        "No audiobooks found. Press 'a' to add a directory."@
                    } else {
                        "No matches for the current filter."@
                    },
                ),
            ]
        } else {
            self.rows().map_values(|row: RowView| self.row_line(row, width))
        }
    }

    /// The lines about the selected item, each with its label.
    pub open spec fn detail_lines(self, width: u16) -> Seq<(Seq<char>, Seq<char>)> {
        let room = beside(width, 10);
        match self.selected_item() {
            None => seq![(""@, "Add a directory to start building your library."@)],
            Some(item) => seq![
                ("Title: "@, item.title),
                (
                    "Root: "@,
                    truncated(
                        match self.root_for(item.path) {
                            Some(root) => root,
                            None => "Unknown root"@,
                        },
                        room,
                    ),
                ),
                ("Path: "@, truncated(encoding::lossy(item.path), room)),
                ("Format: "@, item.extension),
                (
                    "Source: "@,
                    if item.metadata_title is Some {
                        "metadata"@
                    } else {
                        "filename"@
                    },
                ),
                ("Duration: "@, clock_or_unknown(self.current_duration())),
                ("Resume: "@, self.resume_label(item)),
            ],
        }
    }

    /// Where an item will begin.
    pub open spec fn resume_label(self, item: ItemView) -> Seq<char> {
        match self.resume_position(browse::state_key(item, self.follow())) {
            Some(position) => clock(position),
            None => "Start"@,
        }
    }

    /// The place that the timeline shows: the one being chosen, else where playback is.
    pub open spec fn shown_place(self, output: Output) -> nat {
        match self.preview {
            Some(place) => place,
            None => self.player.position(output.position@),
        }
    }
}

/// A length, or that it is not known.
pub open spec fn clock_or_unknown(duration: Option<nat>) -> Seq<char> {
    match duration {
        Some(d) => clock(d),
        None => "Unknown"@,
    }
}

fn duration_text(duration: Option<Duration>) -> (shown: String)
    ensures
        shown@ == clock_or_unknown(player::optional_span(duration)),
{
    match duration {
        Some(d) => format_duration(d),
        None => "Unknown".to_owned(),
    }
}

/// The lines of a list, each with its label.
pub open spec fn labelled(lines: Seq<(&'static str, String)>) -> Seq<(Seq<char>, Seq<char>)> {
    lines.map_values(|line: (&'static str, String)| (line.0@, line.1@))
}

fn row_line(app: &App, row: &LibraryRow, width: u16) -> (line: LibraryLine)
    requires
        row matches LibraryRow::Item { item_index } ==> item_index < app.library_items@.len(),
    ensures
        line@ == app@.row_line(row@, width),
{
    match row {
        LibraryRow::GroupHeader { title, count } => {
            let mut head = truncate_middle(title.as_str(), width.saturating_sub(8) as usize);
            head.append(" (");
            text::push_decimal(&mut head, *count as u64);
            head.append(")");
            LibraryLine::Head(head)
        },
        LibraryRow::Item { item_index } => {
            let item = &app.library_items[*item_index];
            assert(app@.items[*item_index as int] == item@);
            LibraryLine::Item {
                title: truncate_middle(item.title.as_str(), width.saturating_sub(12) as usize),
                kind: text::concat2("  .", item.extension.as_str()),
            }
        },
    }
}

/// The lines of the library view, for a width.
pub fn library_lines(app: &App, width: u16) -> (lines: Vec<LibraryLine>)
    ensures
        line_views(lines@) == app@.library_lines(width),
{
    let rows = app.visible_rows();
    let ghost views = app@.rows();
    assert(views.len() == rows@.len());
    let mut lines: Vec<LibraryLine> = Vec::new();
    if rows.len() == 0 {
        lines.push(
            LibraryLine::Note(
                if text::chars_of(app.filter_query.as_str()).len() == 0 {
                    "No audiobooks found. Press 'a' to add a directory.".to_owned()
                } else {
                    "No matches for the current filter.".to_owned()
                },
            ),
        );
        assert(line_views(lines@) =~= app@.library_lines(width));
        return lines;
    }
    let mut r: usize = 0;
    while r < rows.len()
        invariant
            r <= rows.len(),
            rows@.len() > 0,
            views == browse::row_views(rows@),
            views == app@.rows(),
            browse::rows_within(views, app@.items.len()),
            line_views(lines@) == app@.library_lines(width).take(r as int),
        decreases rows.len() - r,
    {
        assert(views[r as int] == rows@[r as int]@);
        let ghost before = line_views(lines@);
        let line = row_line(app, &rows[r], width);
        let ghost shown = line@;
        lines.push(line);
        assert(line_views(lines@) =~= before.push(shown));
        assert(app@.library_lines(width).take(r + 1) =~= app@.library_lines(width).take(
            r as int,
        ).push(shown));
        r = r + 1;
    }
    assert(app@.library_lines(width).take(r as int) =~= app@.library_lines(width));
    lines
}

impl App {
    /// Where an item will begin.
    pub fn resume_label(&self, item: &LibraryItem) -> (label: String)
        ensures
            label@ == self@.resume_label(item@),
    {
        match self.resume_duration_for(
            browse::key_of_item(item, self.config.memory_on_move).as_str(),
        ) {
            Some(position) => format_duration(position),
            None => "Start".to_owned(),
        }
    }
}

/// The lines about the selected item, for a width.
pub fn detail_lines(app: &App, width: u16) -> (lines: Vec<(&'static str, String)>)
    ensures
        labelled(lines@) == app@.detail_lines(width),
{
    let mut lines: Vec<(&'static str, String)> = Vec::new();
    let room: usize = width.saturating_sub(10) as usize;
    match app.selected_item() {
        None => {
            lines.push(("", "Add a directory to start building your library.".to_owned()));
        },
        Some(item) => {
            let root = match app.library_root_for_path(&item.path) {
                Some(root) => root.as_str(),
                None => "Unknown root",
            };
            lines.push(("Title: ", item.title.clone()));
            lines.push(("Root: ", truncate_middle(root, room)));
            lines.push(
                ("Path: ", truncate_middle(encoding::lossy_text(&item.path).as_str(), room)),
            );
            lines.push(("Format: ", item.extension.clone()));
            lines.push(
                (
                    "Source: ",
                    if item.metadata_title.is_some() {
                        "metadata".to_owned()
                    } else {
                        "filename".to_owned()
                    },
                ),
            );
            lines.push(("Duration: ", duration_text(app.current_duration())));
            lines.push(("Resume: ", app.resume_label(item)));
        },
    }
    assert(labelled(lines@) =~= app@.detail_lines(width));
    lines
}

/// A speed in percent as a factor, such as `1.25x`.
pub open spec fn speed_text(speed: nat) -> Seq<char> {
    text::decimal(speed / 100) + "."@ + text::two_digits(speed % 100) + "x"@
}

/// A speed in percent as a factor.
pub fn format_speed(speed: u16) -> (shown: String)
    ensures
        shown@ == speed_text(speed as nat),
{
    let mut shown = text::decimal_text((speed / 100) as u64);
    shown.append(".");
    text::push_two_digits(&mut shown, (speed % 100) as u64);
    shown.append("x");
    shown
}

/// What the playback controls show.
#[derive(Debug)]
pub struct TransportView {
    pub timeline_title: &'static str,
    pub timeline_label: String,
    pub progress: Option<(Duration, Duration)>,
    pub volume: u8,
    pub volume_label: String,
    pub speed_label: String,
}

/// How much of the whole has been heard: both lengths, the first no longer than the second; nothing
/// where the whole has no length.
pub fn ratio(position: Duration, duration: Duration) -> (parts: Option<(Duration, Duration)>)
    ensures
        match parts {
            Some((part, whole)) => duration@ > 0 && whole@ == duration@ && part@ == (if position@
                <= duration@ {
                position@
            } else {
                duration@
            }),
            None => duration@ == 0,
        },
{
    if duration.is_zero() {
        return None;
    }
    Some((position.shorter(duration), duration))
}

/// What the playback controls show.
pub fn transport_view(app: &App, output: &Output) -> (view: TransportView)
    ensures
        view.timeline_title@ == (if output.paused {
            "Timeline | Paused"@
        } else {
            "Timeline | Playing"@
        }),
        view.timeline_label@ == clock(app@.shown_place(*output)) + " / "@
            + clock_or_unknown(app@.player.duration),
        match app@.player.duration {
            Some(end) => if end > 0 {
                view.progress matches Some((part, whole)) && whole@ == end && part@
                    == player::up_to_end(app@.shown_place(*output), Some(end))
            } else {
                view.progress is None
            },
            None => view.progress is None,
        },
        view.volume == app@.player.volume,
        view.volume_label@ == text::decimal(app@.player.volume as nat) + "%"@,
        view.speed_label@ == speed_text(app@.player.speed as nat),
{
    let duration = app.player.duration();
    let place = match app.preview {
        Some(place) => place,
        None => app.player.current_position(output),
    };
    let volume: u8 = app.player.volume();
    let mut volume_label = text::decimal_text(volume as u64);
    volume_label.append("%");
    TransportView {
        timeline_title: if app.player.is_paused(output) {
            "Timeline | Paused"
        } else {
            "Timeline | Playing"
        },
        timeline_label: text::concat3(
            format_duration(place).as_str(),
            " / ",
            duration_text(duration).as_str(),
        ),
        progress: match duration {
            Some(end) => ratio(place, end),
            None => None,
        },
        volume,
        volume_label,
        speed_label: format_speed(app.player.speed()),
    }
}

/// A mark on the timeline: in which of its columns, and whether a bookmark is there or a chapter
/// begins.
#[derive(Clone, Copy, Debug, PartialEq, Eq, Structural)]
pub struct Mark {
    pub column: u16,
    pub bookmark: bool,
}

impl AppView {
    /// The marks on a timeline of some columns: where the chapters begin, and then the bookmarks;
    /// none where the length of what is played is not known.
    pub open spec fn marks(self, columns: u16) -> Seq<Mark> {
        match self.player.duration {
            Some(end) => if end > 0 && columns > 0 {
                self.chapters.map_values(
                    |chapter: ChapterView|
                        Mark {
                            column: time::part_at(chapter.start, end, columns),
                            bookmark: false,
                        },
                ) + self.current_bookmarks().map_values(
                    |entry: BookmarkView|
                        Mark {
                            column: time::part_at(entry.position, end, columns),
                            bookmark: true,
                        },
                )
            } else {
                seq![]
            },
            None => seq![],
        }
    }
}

/// The marks on a timeline of some columns.
pub fn timeline_marks(app: &App, columns: u16) -> (marks: Vec<Mark>)
    ensures
        marks@ == app@.marks(columns),
{
    let mut marks: Vec<Mark> = Vec::new();
    let end = match app.player.duration() {
        Some(end) => end,
        None => {
            assert(marks@ =~= app@.marks(columns));
            return marks;
        },
    };
    if end.is_zero() || columns == 0 {
        assert(marks@ =~= app@.marks(columns));
        return marks;
    }
    let ghost expected = app@.marks(columns);
    let ghost count = app.chapters@.len();
    let mut i: usize = 0;
    while i < app.chapters.len()
        invariant
            i <= app.chapters.len(),
            columns > 0,
            end@ > 0,
            app@.player.duration == Some(end@),
            expected == app@.marks(columns),
            marks@.len() == i,
            forall|k: int| 0 <= k < i ==> #[trigger] marks@[k] == expected[k],
        decreases app.chapters.len() - i,
    {
        assert(app@.chapters[i as int] == app.chapters@[i as int]@);
        let column: u16 = app.chapters[i].start.part_of(end, columns);
        marks.push(Mark { column, bookmark: false });
        i = i + 1;
    }
    let list = app.current_bookmarks();
    let mut j: usize = 0;
    while j < list.entries.len()
        invariant
            j <= list.entries.len(),
            columns > 0,
            end@ > 0,
            app@.player.duration == Some(end@),
            app@.chapters.len() == count,
            list@ == app@.current_bookmarks(),
            expected == app@.marks(columns),
            marks@.len() == count + j,
            forall|k: int| 0 <= k < count + j ==> #[trigger] marks@[k] == expected[k],
        decreases list.entries.len() - j,
    {
        assert(list@[j as int] == list.entries@[j as int]@);
        let column: u16 = list.entries[j].position.part_of(end, columns);
        marks.push(Mark { column, bookmark: true });
        j = j + 1;
    }
    assert(list@.len() == list.entries@.len());
    assert(marks@ =~= expected);
    marks
}

/// Every mark stands on the timeline, and what comes later stands no further left.
pub proof fn law_marks_stand_on_the_timeline(place: nat, later: nat, whole: nat, columns: u16)
    requires
        columns > 0,
        whole > 0,
        place <= later,
    ensures
        time::part_at(place, whole, columns) < columns,
        time::part_at(place, whole, columns) <= time::part_at(later, whole, columns),
{
    if place < whole {
        assert(place * columns / (whole as int) < columns) by (nonlinear_arith)
            requires
                0 <= place < whole,
                columns > 0,
        ;
        assert(0 <= place * columns / (whole as int)) by (nonlinear_arith)
            requires
                0 <= place < whole,
                columns > 0,
        ;
    }
    if later < whole {
        assert(place * columns <= later * columns) by (nonlinear_arith)
            requires
                place <= later,
        ;
        vstd::arithmetic::div_mod::lemma_div_is_ordered(
            place * columns,
            later * columns,
            whole as int,
        );
        assert(0 <= later * columns / (whole as int) < columns) by (nonlinear_arith)
            requires
                0 <= later < whole,
                columns > 0,
        ;
    }
}

/// The line of help below the playback controls.
pub fn help_line() -> (line: &'static str)
    ensures
        line@
            == "a add dir  / filter  s sort  e seek by  d drop root  Enter play  Space pause  q quit"@,
{
    "a add dir  / filter  s sort  e seek by  d drop root  Enter play  Space pause  q quit"
}

/// Whether the input dialog is shown.
pub fn shows_dialog(app: &App) -> (shows: bool)
    ensures
        shows == (app.input_mode != InputMode::Normal),
{
    app.input_mode != InputMode::Normal
}

}

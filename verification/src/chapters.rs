//! The chapters of the file that is played: reading, showing and going to them.

use vstd::prelude::*;

use crate::app;
use crate::app::{Action, ActionView, App, AppView, InputMode, Step};
use crate::editor::Key;
use crate::library;
use crate::paths;
use crate::player::Output;
use crate::text;
use crate::time;
use crate::time::Duration;

verus! {

/// A chapter: where it begins, and its title, which may be empty.
#[derive(Debug)]
pub struct Chapter {
    pub start: Duration,
    pub title: String,
}

#[verifier::ext_equal]
pub struct ChapterView {
    pub start: nat,
    pub title: Seq<char>,
}

impl View for Chapter {
    type V = ChapterView;

    open spec fn view(&self) -> ChapterView {
        ChapterView { start: self.start@, title: self.title@ }
    }
}

/// The chapters of a list.
pub open spec fn chapter_views(list: Seq<Chapter>) -> Seq<ChapterView> {
    list.map_values(|chapter: Chapter| chapter@)
}

/// How many nanoseconds one unit is after some decimal places of a second, up to nine.
pub open spec fn unit_after(places: nat) -> nat
    decreases 9 - places,
{
    if places >= 9 {
        1
    } else {
        10 * unit_after(places + 1)
    }
}

/// The nanoseconds that the rest of a decimal number of seconds comes to, after `value` in units of
/// so many decimal places; none where no point has come yet. Places after the ninth do not count.
pub open spec fn nanos_after(rest: Seq<char>, value: nat, places: Option<nat>) -> Option<nat>
    decreases rest.len(),
{
    if rest.len() == 0 {
        match places {
            Some(p) => Some(value * unit_after(p)),
            None => Some(value * unit_after(0)),
        }
    } else if '0' <= rest[0] <= '9' {
        let digit = (rest[0] as int - '0' as int) as nat;
        match places {
            Some(p) => if p < 9 {
                nanos_after(rest.drop_first(), value * 10 + digit, Some(p + 1))
            } else {
                nanos_after(rest.drop_first(), value, places)
            },
            None => nanos_after(rest.drop_first(), value * 10 + digit, None),
        }
    } else if rest[0] == '.' && places is None {
        nanos_after(rest.drop_first(), value, Some(0))
    } else {
        None
    }
}

/// The time that a decimal number of seconds, such as `754.25`, stands for, where it can be counted.
pub open spec fn decimal_time(number: Seq<char>) -> Option<nat> {
    if number.len() == 0 {
        None
    } else {
        match nanos_after(number, 0, None) {
            Some(n) => if n <= time::MAX_NANOS {
                Some(n)
            } else {
                None
            },
            None => None,
        }
    }
}

proof fn lemma_unit(places: nat)
    ensures
        1 <= unit_after(places) <= unit_after(0) == 1_000_000_000,
    decreases 9 - places,
{
    reveal_with_fuel(unit_after, 11);
    if places < 9 {
        lemma_unit(places + 1);
    }
}

/// What has been read of a number is no more than the number comes to.
proof fn lemma_nanos_grow(rest: Seq<char>, value: nat, places: Option<nat>)
    ensures
        nanos_after(rest, value, places) matches Some(n) ==> n >= value,
    decreases rest.len(),
{
    if rest.len() == 0 {
        let p = match places {
            Some(p) => p,
            None => 0,
        };
        lemma_unit(p);
        assert(value * unit_after(p) >= value) by (nonlinear_arith)
            requires
                unit_after(p) >= 1,
        ;
    } else {
        let digit = (rest[0] as int - '0' as int) as nat;
        lemma_nanos_grow(rest.drop_first(), value, places);
        lemma_nanos_grow(rest.drop_first(), value, Some(0));
        lemma_nanos_grow(rest.drop_first(), value * 10 + digit, None);
        if let Some(p) = places {
            lemma_nanos_grow(rest.drop_first(), value * 10 + digit, Some(p + 1));
        }
    }
}

/// The time that a decimal number of seconds stands for.
pub fn parse_decimal_time(number: &Vec<char>) -> (time: Option<Duration>)
    ensures
        match time {
            Some(d) => decimal_time(number@) == Some(d@),
            None => decimal_time(number@) is None,
        },
{
    if number.len() == 0 {
        return None;
    }
    let mut value: u128 = 0;
    let mut point = false;
    let mut places: u64 = 0;
    let mut i: usize = 0;
    assert(number@.skip(0) =~= number@);
    while i < number.len()
        invariant
            i <= number.len(),
            number.len() > 0,
            places <= 9,
            value <= time::MAX_NANOS,
            !point ==> places == 0,
            nanos_after(number@, 0, None) == nanos_after(
                number@.skip(i as int),
                value as nat,
                if point {
                    Some(places as nat)
                } else {
                    None
                },
            ),
        decreases number.len() - i,
    {
        let c: char = number[i];
        assert(number@.skip(i as int)[0] == c);
        assert(number@.skip(i as int).drop_first() =~= number@.skip(i + 1));
        if '0' <= c && c <= '9' {
            if !point || places < 9 {
                let digit: u128 = c as u128 - '0' as u128;
                value = value * 10 + digit;
                if point {
                    places = places + 1;
                }
                if value > time::MAX_NANOS {
                    proof {
                        lemma_nanos_grow(
                            number@.skip(i + 1),
                            value as nat,
                            if point {
                                Some(places as nat)
                            } else {
                                None
                            },
                        );
                    }
                    return None;
                }
            }
        } else if c == '.' && !point {
            point = true;
        } else {
            return None;
        }
        i = i + 1;
    }
    assert(number@.skip(i as int).len() == 0);
    let mut unit: u128 = 1;
    let mut p: u64 = 9;
    proof {
        lemma_unit(9);
        reveal_with_fuel(unit_after, 2);
        lemma_unit(places as nat);
    }
    while p > places
        invariant
            places <= p <= 9,
            unit == unit_after(p as nat),
            unit <= 1_000_000_000,
        decreases p,
    {
        p = p - 1;
        proof {
            lemma_unit(p as nat);
        }
        unit = unit * 10;
    }
    assert(value * unit <= time::MAX_NANOS * 1_000_000_000) by (nonlinear_arith)
        requires
            value <= time::MAX_NANOS,
            unit <= 1_000_000_000,
    ;
    Duration::from_nanos(value * unit)
}

/// Where the line that a place lies in ends.
pub open spec fn line_end(report: Seq<char>, at: int) -> int
    decreases report.len() - at,
{
    if at < 0 || at >= report.len() {
        report.len() as int
    } else if report[at] == '\n' {
        at
    } else {
        line_end(report, at + 1)
    }
}

/// Chapters after one more line of a report: a place begins a new chapter, and a title belongs to
/// the chapter before it, unless that has one. Other lines say nothing.
pub open spec fn with_line(list: Seq<ChapterView>, line: Seq<char>) -> Seq<ChapterView> {
    if text::begins("start_time="@, line) {
        match decimal_time(line.skip("start_time="@.len() as int)) {
            Some(start) => list.push(ChapterView { start, title: seq![] }),
            None => list,
        }
    } else if text::begins("TAG:title="@, line) && list.len() > 0 && list.last().title.len() == 0 {
        list.update(
            list.len() - 1,
            ChapterView { title: line.skip("TAG:title="@.len() as int), ..list.last() },
        )
    } else {
        list
    }
}

/// Chapters after the lines of a report from a place on.
pub open spec fn chapters_after(
    report: Seq<char>,
    at: int,
    list: Seq<ChapterView>,
) -> Seq<ChapterView>
    decreases report.len() + 1 - at,
    via lines_come_to_an_end
{
    if at < 0 || at >= report.len() {
        list
    } else {
        let end = line_end(report, at);
        chapters_after(report, end + 1, with_line(list, report.subrange(at, end)))
    }
}

#[via_fn]
proof fn lines_come_to_an_end(report: Seq<char>, at: int, list: Seq<ChapterView>) {
    lemma_line_end(report, at);
}

proof fn lemma_line_end(report: Seq<char>, at: int)
    ensures
        0 <= at <= report.len() ==> at <= line_end(report, at) <= report.len(),
    decreases report.len() - at,
{
    if 0 <= at < report.len() && report[at] != '\n' {
        lemma_line_end(report, at + 1);
    }
}

/// The chapters that a report tells of.
pub open spec fn reported_chapters(report: Seq<char>) -> Seq<ChapterView> {
    chapters_after(report, 0, seq![])
}

/// The rest of a line that begins in the given way.
fn rest_of(line: &Vec<char>, prefix: &str) -> (rest: Option<Vec<char>>)
    ensures
        match rest {
            Some(r) => text::begins(prefix@, line@) && r@ == line@.skip(prefix@.len() as int),
            None => !text::begins(prefix@, line@),
        },
{
    let chars = text::chars_of(prefix);
    if !text::starts_with_chars(&chars, line) {
        return None;
    }
    let rest = text::slice_chars(line, chars.len(), line.len());
    assert(rest@ =~= line@.skip(prefix@.len() as int));
    Some(rest)
}

fn read_line(list: &mut Vec<Chapter>, line: &Vec<char>)
    ensures
        chapter_views(final(list)@) == with_line(chapter_views(old(list)@), line@),
{
    let ghost before = chapter_views(list@);
    if let Some(number) = rest_of(line, "start_time=") {
        if let Some(start) = parse_decimal_time(&number) {
            let chapter = Chapter { start, title: text::string_of(&Vec::new()) };
            assert(chapter@.title =~= seq![]);
            let ghost added = chapter@;
            list.push(chapter);
            assert(chapter_views(list@) =~= before.push(added));
        }
        return;
    }
    if let Some(title) = rest_of(line, "TAG:title=") {
        let count: usize = list.len();
        if count > 0 {
            assert(before.last() == list@[count - 1]@);
            if text::chars_of(list[count - 1].title.as_str()).len() == 0 {
                let chapter = Chapter {
                    start: list[count - 1].start,
                    title: text::string_of(&title),
                };
                let ghost named = chapter@;
                list.set(count - 1, chapter);
                assert(chapter_views(list@) =~= before.update(count - 1, named));
            }
        }
    }
}

/// Reads the chapters that a report tells of.
pub fn parse_chapters(report: &str) -> (list: Vec<Chapter>)
    ensures
        chapter_views(list@) == reported_chapters(report@),
{
    let chars = text::chars_of(report);
    let mut list: Vec<Chapter> = Vec::new();
    assert(chapter_views(list@) =~= seq![]);
    let mut at: usize = 0;
    while at < chars.len()
        invariant
            at <= chars.len(),
            chars@ == report@,
            reported_chapters(report@) == chapters_after(
                report@,
                at as int,
                chapter_views(list@),
            ),
        decreases chars.len() - at,
    {
        let mut end: usize = at;
        while end < chars.len() && chars[end] != '\n'
            invariant
                at <= end <= chars.len(),
                line_end(chars@, at as int) == line_end(chars@, end as int),
            decreases chars.len() - end,
        {
            end = end + 1;
        }
        let line = text::slice_chars(&chars, at, end);
        read_line(&mut list, &line);
        if end >= chars.len() {
            assert(chapters_after(report@, end + 1, chapter_views(list@)) == chapter_views(list@));
            return list;
        }
        at = end + 1;
    }
    list
}

/// The title that a chapter is shown with: its own, or its number.
pub open spec fn shown_title(list: Seq<ChapterView>, i: int) -> Seq<char> {
    if list[i].title.len() == 0 {
        "Chapter "@ + text::decimal((i + 1) as nat)
    } else {
        list[i].title
    }
}

/// The title that a chapter is shown with.
pub fn title_of(list: &Vec<Chapter>, i: usize) -> (title: String)
    requires
        i < list.len(),
    ensures
        title@ == shown_title(chapter_views(list@), i as int),
{
    assert(chapter_views(list@)[i as int] == list@[i as int]@);
    if text::chars_of(list[i].title.as_str()).len() == 0 {
        text::concat2("Chapter ", text::decimal_text(i as u64 + 1).as_str())
    } else {
        list[i].title.clone()
    }
}

/// The chapter that a place lies in: the last one that begins no later, or -1 before the first.
pub open spec fn chapter_at(list: Seq<ChapterView>, place: nat) -> int
    decreases list.len(),
{
    if list.len() == 0 {
        -1
    } else if list.last().start <= place {
        list.len() - 1
    } else {
        chapter_at(list.drop_last(), place)
    }
}

/// The chapter that a place lies in, where it lies in one.
pub fn find_chapter(list: &Vec<Chapter>, place: Duration) -> (found: Option<usize>)
    ensures
        match found {
            Some(i) => chapter_at(chapter_views(list@), place@) == i && i < list.len(),
            None => chapter_at(chapter_views(list@), place@) == -1,
        },
{
    let ghost views = chapter_views(list@);
    let mut left: usize = list.len();
    assert(views.take(left as int) =~= views);
    while left > 0
        invariant
            left <= list.len(),
            views == chapter_views(list@),
            chapter_at(views, place@) == chapter_at(views.take(left as int), place@),
        decreases left,
    {
        assert(views.take(left as int).last() == list@[left - 1]@);
        assert(views.take(left as int).drop_last() =~= views.take(left - 1));
        if place.at_least(&list[left - 1].start) {
            return Some(left - 1);
        }
        left = left - 1;
    }
    None
}

impl AppView {
    /// Chapters of a file are looked for once it is loaded, where it may have some.
    pub open spec fn load_step(self, path: Seq<u8>, loaded: bool) -> Step {
        Step {
            app: self,
            actions: if loaded && library::is_m4b(path) {
                seq![ActionView::ProbeChapters { path }]
            } else {
                seq![]
            },
        }
    }

    /// The chapters of a file were found; those of another one than is played do not matter.
    pub open spec fn chapters_found(self, path: Seq<u8>, report: Seq<char>) -> AppView {
        match self.player.file {
            Some(track) => if track.path == path {
                AppView { chapters: reported_chapters(report), ..self }
            } else {
                self
            },
            None => self,
        }
    }

    /// Playback goes to a chapter.
    pub open spec fn going_to_chapter(self, i: int, reported: nat) -> Step {
        let step = self.seeking(self.player.seek(self.chapters[i].start), reported);
        Step {
            app: AppView { status: "Jumped to "@ + shown_title(self.chapters, i), ..step.app },
            ..step
        }
    }

    /// Playback goes to the next chapter, or to the one before; from the first one to its
    /// beginning.
    pub open spec fn chapter_step(self, forward: bool, reported: nat) -> Step {
        let current = chapter_at(self.chapters, self.player.position(reported));
        if self.player.file is None {
            self.saying("Nothing is playing."@)
        } else if self.chapters.len() == 0 {
            self.saying("No chapters in this file."@)
        } else if !forward {
            self.going_to_chapter(
                if current > 0 {
                    current - 1
                } else {
                    0
                },
                reported,
            )
        } else if current + 1 < self.chapters.len() {
            self.going_to_chapter(current + 1, reported)
        } else {
            self.saying("No next chapter."@)
        }
    }

    /// The chapters are shown, unless there is none, with the current one chosen.
    pub open spec fn chapters_opened(self, reported: nat) -> Step {
        let current = chapter_at(self.chapters, self.player.position(reported));
        if self.player.file is None {
            self.saying("Nothing is playing."@)
        } else if self.chapters.len() == 0 {
            self.saying("No chapters in this file."@)
        } else {
            (AppView {
                input_mode: InputMode::Chapters,
                chapter_cursor: if current > 0 {
                    current
                } else {
                    0
                },
                status: ""@,
                ..self
            }).unchanged()
        }
    }

    /// Playback goes to the chosen chapter.
    pub open spec fn chapter_chosen(self, reported: nat) -> Step {
        let closed = AppView { input_mode: InputMode::Normal, ..self };
        if 0 <= self.chapter_cursor < self.chapters.len() {
            closed.going_to_chapter(self.chapter_cursor, reported)
        } else {
            closed.unchanged()
        }
    }

    /// Another chapter is chosen: the next one, or the one before.
    pub open spec fn chapter_cursor_moved(self, down: bool) -> Step {
        (AppView {
            chapter_cursor: if down {
                if self.chapter_cursor + 1 < self.chapters.len() {
                    self.chapter_cursor + 1
                } else {
                    self.chapter_cursor
                }
            } else if self.chapter_cursor > 0 {
                self.chapter_cursor - 1
            } else {
                0
            },
            ..self
        }).unchanged()
    }

    /// A key in the list of chapters.
    pub open spec fn chapters_key(self, key: Key, reported: nat) -> Step {
        match key {
            Key::Enter => self.chapter_chosen(reported),
            Key::Up => self.chapter_cursor_moved(false),
            Key::Char('k') => self.chapter_cursor_moved(false),
            Key::Down => self.chapter_cursor_moved(true),
            Key::Char('j') => self.chapter_cursor_moved(true),
            Key::Esc => (AppView { input_mode: InputMode::Normal, ..self }).unchanged(),
            _ => self.unchanged(),
        }
    }
}

impl App {
    /// Takes up the chapters of a file, as they were reported.
    pub fn finish_chapters(&mut self, path: &Vec<u8>, report: &str)
        ensures
            final(self)@ == old(self)@.chapters_found(path@, report@),
    {
        let current = match self.player.current_file() {
            Some(track) => paths::same_bytes(&track.path, path),
            None => false,
        };
        if current {
            self.chapters = parse_chapters(report);
        }
    }

    fn go_to_chapter(&mut self, i: usize, output: &Output) -> (actions: Vec<Action>)
        requires
            i < old(self).chapters@.len(),
        ensures
            old(self)@.going_to_chapter(i as int, output.position@) == (Step {
                app: final(self)@,
                actions: app::action_views(actions@),
            }),
    {
        assert(self@.chapters[i as int] == self.chapters@[i as int]@);
        let title = title_of(&self.chapters, i);
        let command = self.player.seek_to(self.chapters[i].start);
        let actions = self.commit_seek(command, output);
        self.status = text::concat2("Jumped to ", title.as_str());
        actions
    }

    /// Whether there are chapters to go to; the status line says why not.
    fn has_chapters(&mut self) -> (ready: bool)
        ensures
            ready ==> old(self)@ == final(self)@ && old(self)@.player.file is Some
                && old(self).chapters@.len() > 0 && final(self).chapters == old(self).chapters,
            !ready ==> final(self)@ == (AppView {
                status: if old(self)@.player.file is None {
                    "Nothing is playing."@
                } else {
                    "No chapters in this file."@
                },
                ..old(self)@
            }) && (old(self)@.player.file is None || old(self)@.chapters.len() == 0),
    {
        assert(self@.chapters.len() == self.chapters@.len());
        if self.player.current_file().is_none() {
            self.status = "Nothing is playing.".to_owned();
            return false;
        }
        if self.chapters.len() == 0 {
            self.status = "No chapters in this file.".to_owned();
            return false;
        }
        true
    }

    /// Goes to the next chapter, or to the one before.
    pub fn seek_chapter(&mut self, forward: bool, output: &Output) -> (actions: Vec<Action>)
        ensures
            old(self)@.chapter_step(forward, output.position@) == (Step {
                app: final(self)@,
                actions: app::action_views(actions@),
            }),
    {
        if !self.has_chapters() {
            return app::nothing();
        }
        assert(self@.chapters.len() == self.chapters@.len());
        let current = find_chapter(&self.chapters, self.player.current_position(output));
        if !forward {
            let target: usize = match current {
                Some(i) => if i > 0 {
                    i - 1
                } else {
                    0
                },
                None => 0,
            };
            return self.go_to_chapter(target, output);
        }
        let target: usize = match current {
            Some(i) => i + 1,
            None => 0,
        };
        if target < self.chapters.len() {
            return self.go_to_chapter(target, output);
        }
        self.status = "No next chapter.".to_owned();
        app::nothing()
    }

    /// Shows the chapters.
    pub fn open_chapters(&mut self, output: &Output) -> (actions: Vec<Action>)
        ensures
            old(self)@.chapters_opened(output.position@) == (Step {
                app: final(self)@,
                actions: app::action_views(actions@),
            }),
    {
        if !self.has_chapters() {
            return app::nothing();
        }
        assert(self@.chapters.len() == self.chapters@.len());
        self.chapter_cursor = match find_chapter(
            &self.chapters,
            self.player.current_position(output),
        ) {
            Some(i) => i,
            None => 0,
        };
        self.input_mode = InputMode::Chapters;
        self.status = "".to_owned();
        app::nothing()
    }

    /// Goes to the chosen chapter.
    pub fn jump_to_chapter(&mut self, output: &Output) -> (actions: Vec<Action>)
        ensures
            old(self)@.chapter_chosen(output.position@) == (Step {
                app: final(self)@,
                actions: app::action_views(actions@),
            }),
    {
        assert(self@.chapters.len() == self.chapters@.len());
        self.input_mode = InputMode::Normal;
        if self.chapter_cursor < self.chapters.len() {
            return self.go_to_chapter(self.chapter_cursor, output);
        }
        app::nothing()
    }

    /// Chooses the next chapter, or the one before.
    pub fn move_chapter_cursor(&mut self, down: bool) -> (actions: Vec<Action>)
        ensures
            old(self)@.chapter_cursor_moved(down) == (Step {
                app: final(self)@,
                actions: app::action_views(actions@),
            }),
    {
        assert(self@.chapters.len() == self.chapters@.len());
        let count: usize = self.chapters.len();
        if down {
            if count > 0 && self.chapter_cursor < count - 1 {
                self.chapter_cursor = self.chapter_cursor + 1;
            }
        } else if self.chapter_cursor > 0 {
            self.chapter_cursor = self.chapter_cursor - 1;
        }
        app::nothing()
    }

    /// What a key does in the list of chapters.
    pub fn handle_chapters_mode(&mut self, key: Key, output: &Output) -> (actions: Vec<Action>)
        ensures
            old(self)@.chapters_key(key, output.position@) == (Step {
                app: final(self)@,
                actions: app::action_views(actions@),
            }),
    {
        match key {
            Key::Enter => self.jump_to_chapter(output),
            Key::Up => self.move_chapter_cursor(false),
            Key::Char('k') => self.move_chapter_cursor(false),
            Key::Down => self.move_chapter_cursor(true),
            Key::Char('j') => self.move_chapter_cursor(true),
            Key::Esc => {
                self.input_mode = InputMode::Normal;
                app::nothing()
            },
            _ => app::nothing(),
        }
    }
}

/// Chapters that begin one after the other.
pub open spec fn in_sequence(list: Seq<ChapterView>) -> bool {
    forall|i: int, j: int|
        0 <= i < j < list.len() ==> (#[trigger] list[i]).start < (#[trigger] list[j]).start
}

/// A place lies in the chapter that begins no later and is followed by none that begins no later.
pub proof fn law_place_lies_in_its_chapter(list: Seq<ChapterView>, place: nat, i: int)
    requires
        in_sequence(list),
        0 <= i < list.len(),
        list[i].start <= place,
        i + 1 < list.len() ==> place < list[i + 1].start,
    ensures
        chapter_at(list, place) == i,
    decreases list.len(),
{
    if i + 1 < list.len() {
        let fewer = list.drop_last();
        assert(place < list.last().start) by {
            if i + 1 < list.len() - 1 {
                assert(list[i + 1].start < list[list.len() - 1].start);
            }
        }
        assert(in_sequence(fewer)) by {
            assert forall|a: int, b: int| 0 <= a < b < fewer.len() implies (
            #[trigger] fewer[a]).start < (#[trigger] fewer[b]).start by {
                assert(fewer[a] == list[a] && fewer[b] == list[b]);
            }
        }
        assert(fewer[i] == list[i]);
        if i + 1 < fewer.len() {
            assert(fewer[i + 1] == list[i + 1]);
        }
        law_place_lies_in_its_chapter(fewer, place, i);
    }
}

/// From within a chapter the next key leads to the beginning of the next one, and from there the
/// other key leads to the beginning of the one that was left.
pub proof fn law_chapter_there_and_back(app: AppView, reported: nat, i: int)
    requires
        app.player.file is Some,
        in_sequence(app.chapters),
        0 <= i,
        i + 1 < app.chapters.len(),
        app.chapters[i].start <= reported < app.chapters[i + 1].start,
        app.player.duration matches Some(end) ==> app.chapters[i + 1].start <= end,
    ensures
        ({
            let there = app.chapter_step(true, reported);
            let back = there.app.chapter_step(false, app.chapters[i + 1].start);
            &&& there.actions == seq![
                ActionView::Device(crate::player::CommandView::Seek(app.chapters[i + 1].start)),
                ActionView::PersistResume,
            ]
            &&& back.actions == seq![
                ActionView::Device(crate::player::CommandView::Seek(app.chapters[i].start)),
                ActionView::PersistResume,
            ]
        }),
{
    law_place_lies_in_its_chapter(app.chapters, reported, i);
    law_place_lies_in_its_chapter(app.chapters, app.chapters[i + 1].start, i + 1);
}

}

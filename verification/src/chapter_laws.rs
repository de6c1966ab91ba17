//! What reports of chapters and the beginnings of media files come to.

use vstd::prelude::*;

use crate::app::AppView;
use crate::chapters;
use crate::chapters::ChapterView;
use crate::library;
use crate::media;
use crate::player::TrackView;
use crate::text;
use crate::time;

verus! {

/// Decimal notation has one digit for a number below ten, and one more for ten times the number.
pub proof fn law_decimal_adds_a_digit(n: nat, d: nat)
    requires
        d < 10,
    ensures
        text::decimal(d) == seq![(48 + d) as char],
        n > 0 ==> text::decimal(n * 10 + d) == text::decimal(n).push((48 + d) as char),
{
    if n > 0 {
        assert((n * 10 + d) / 10 == n && (n * 10 + d) % 10 == d);
    }
}

proof fn lemma_whole_seconds(s: nat, rest: Seq<char>)
    ensures
        chapters::nanos_after(text::decimal(s) + rest, 0, None) == chapters::nanos_after(
            rest,
            s,
            None,
        ),
    decreases s,
{
    let d = s % 10;
    let c = text::digit(d);
    let more = seq![c] + rest;
    assert(more.drop_first() =~= rest);
    assert('0' <= c <= '9');
    assert(c as int - '0' as int == d);
    if s < 10 {
        assert(text::decimal(s) + rest =~= more);
    } else {
        assert(text::decimal(s) + rest =~= text::decimal(s / 10) + more);
        lemma_whole_seconds(s / 10, more);
        assert(s / 10 * 10 + d == s);
    }
}

/// Six decimals of a second in notation.
pub open spec fn six_digits(a: nat, b: nat, c: nat, d: nat, e: nat, f: nat) -> Seq<char> {
    seq![
        (48 + a) as char,
        (48 + b) as char,
        (48 + c) as char,
        (48 + d) as char,
        (48 + e) as char,
        (48 + f) as char,
    ]
}

proof fn lemma_next_digit(rest: Seq<char>, value: nat, places: nat, d: nat)
    requires
        rest.len() > 0,
        d < 10,
        rest[0] == (48 + d) as char,
        places < 9,
    ensures
        chapters::nanos_after(rest, value, Some(places)) == chapters::nanos_after(
            rest.drop_first(),
            value * 10 + d,
            Some(places + 1),
        ),
{
    assert('0' <= rest[0] <= '9');
    assert(rest[0] as int - '0' as int == d);
}

/// A number of seconds with six decimals stands for that time.
pub proof fn law_decimal_time_counts_millionths(
    s: nat,
    a: nat,
    b: nat,
    c: nat,
    d: nat,
    e: nat,
    f: nat,
)
    requires
        a < 10,
        b < 10,
        c < 10,
        d < 10,
        e < 10,
        f < 10,
        (s + 1) * 1_000_000_000 <= time::MAX_NANOS,
    ensures
        chapters::decimal_time(text::decimal(s) + seq!['.'] + six_digits(a, b, c, d, e, f)) == Some(
            s * 1_000_000_000 + a * 100_000_000 + b * 10_000_000 + c * 1_000_000 + d * 100_000 + e
                * 10_000 + f * 1_000,
        ),
{
    let digits = six_digits(a, b, c, d, e, f);
    let rest = seq!['.'] + digits;
    let whole = text::decimal(s) + seq!['.'] + digits;
    assert(whole =~= text::decimal(s) + rest);
    lemma_whole_seconds(s, rest);
    assert(rest.drop_first() =~= digits);
    let r1 = digits.drop_first();
    let r2 = r1.drop_first();
    let r3 = r2.drop_first();
    let r4 = r3.drop_first();
    let r5 = r4.drop_first();
    let v1 = s * 10 + a;
    let v2 = v1 * 10 + b;
    let v3 = v2 * 10 + c;
    let v4 = v3 * 10 + d;
    let v5 = v4 * 10 + e;
    let v6 = v5 * 10 + f;
    lemma_next_digit(digits, s, 0, a);
    lemma_next_digit(r1, v1, 1, b);
    lemma_next_digit(r2, v2, 2, c);
    lemma_next_digit(r3, v3, 3, d);
    lemma_next_digit(r4, v4, 4, e);
    lemma_next_digit(r5, v5, 5, f);
    reveal_with_fuel(chapters::unit_after, 5);
    assert(chapters::unit_after(6) == 1000);
    assert(chapters::nanos_after(r5.drop_first(), v6, Some(6)) == Some(v6 * 1000));
}

proof fn lemma_line_end_of(report: Seq<char>, tail: Seq<char>, at: int)
    requires
        0 <= at < report.len(),
        report.last() == '\n',
    ensures
        at <= chapters::line_end(report, at) < report.len(),
        chapters::line_end(report + tail, at) == chapters::line_end(report, at),
    decreases report.len() - at,
{
    if report[at] != '\n' {
        lemma_line_end_of(report, tail, at + 1);
    }
}

proof fn lemma_lines_before(
    report: Seq<char>,
    tail: Seq<char>,
    at: int,
    list: Seq<ChapterView>,
)
    requires
        0 <= at <= report.len(),
        report.len() > 0 ==> report.last() == '\n',
    ensures
        chapters::chapters_after(report + tail, at, list) == chapters::chapters_after(
            report + tail,
            report.len() as int,
            chapters::chapters_after(report, at, list),
        ),
    decreases report.len() - at,
{
    if at < report.len() {
        lemma_line_end_of(report, tail, at);
        let end = chapters::line_end(report, at);
        assert((report + tail).subrange(at, end) =~= report.subrange(at, end));
        lemma_lines_before(
            report,
            tail,
            end + 1,
            chapters::with_line(list, report.subrange(at, end)),
        );
    }
}

proof fn lemma_end_of_line(before: Seq<char>, line: Seq<char>, at: int)
    requires
        before.len() <= at <= before.len() + line.len(),
        forall|k: int| 0 <= k < line.len() ==> #[trigger] line[k] != '\n',
    ensures
        chapters::line_end(before + line.push('\n'), at) == before.len() + line.len(),
    decreases before.len() + line.len() - at,
{
    let whole = before + line.push('\n');
    if at < before.len() + line.len() {
        assert(whole[at] == line[at - before.len()]);
        lemma_end_of_line(before, line, at + 1);
    } else {
        assert(whole[at] == '\n');
    }
}

/// One more line of a report counts after all that come before it.
proof fn lemma_one_more_line(report: Seq<char>, line: Seq<char>)
    requires
        report.len() > 0 ==> report.last() == '\n',
        forall|k: int| 0 <= k < line.len() ==> #[trigger] line[k] != '\n',
    ensures
        chapters::reported_chapters(report + line.push('\n')) == chapters::with_line(
            chapters::reported_chapters(report),
            line,
        ),
{
    let tail = line.push('\n');
    let whole = report + tail;
    let start = report.len() as int;
    let list = chapters::reported_chapters(report);
    lemma_lines_before(report, tail, 0, seq![]);
    lemma_end_of_line(report, line, start);
    let end = start + line.len();
    assert(whole.subrange(start, end) =~= line);
    assert(chapters::chapters_after(whole, end + 1, chapters::with_line(list, line))
        == chapters::with_line(list, line));
}

/// A place and a title that are added to a report add a chapter that begins there and has that
/// title.
pub proof fn law_report_tells_of_each_chapter(
    report: Seq<char>,
    number: Seq<char>,
    start: nat,
    title: Seq<char>,
)
    requires
        report.len() > 0 ==> report.last() == '\n',
        chapters::decimal_time(number) == Some(start),
        forall|k: int| 0 <= k < number.len() ==> #[trigger] number[k] != '\n',
        forall|k: int| 0 <= k < title.len() ==> #[trigger] title[k] != '\n',
    ensures
        chapters::reported_chapters(
            report + ("start_time="@ + number).push('\n') + ("TAG:title="@ + title).push('\n'),
        ) == chapters::reported_chapters(report).push(ChapterView { start, title }),
{
    let first = "start_time="@ + number;
    let second = "TAG:title="@ + title;
    let list = chapters::reported_chapters(report);
    let begun = list.push(ChapterView { start, title: seq![] });
    reveal_strlit("start_time=");
    reveal_strlit("TAG:title=");
    assert forall|k: int| 0 <= k < first.len() implies #[trigger] first[k] != '\n' by {
        if k >= "start_time="@.len() {
            assert(first[k] == number[k - "start_time="@.len()]);
        }
    }
    assert forall|k: int| 0 <= k < second.len() implies #[trigger] second[k] != '\n' by {
        if k >= "TAG:title="@.len() {
            assert(second[k] == title[k - "TAG:title="@.len()]);
        }
    }
    lemma_one_more_line(report, first);
    assert(first.take("start_time="@.len() as int) =~= "start_time="@);
    assert(first.skip("start_time="@.len() as int) =~= number);
    assert(chapters::reported_chapters(report + first.push('\n')) == begun);
    lemma_one_more_line(report + first.push('\n'), second);
    assert(second.take("TAG:title="@.len() as int) =~= "TAG:title="@);
    assert(second.skip("TAG:title="@.len() as int) =~= title);
    assert(!text::begins("start_time="@, second)) by {
        if text::begins("start_time="@, second) {
            assert(second.take("start_time="@.len() as int)[0] == 's');
            assert(second[0] == 'T');
        }
    }
    assert(begun.last().title.len() == 0);
    assert(begun.update(begun.len() - 1, ChapterView { start, title }) =~= list.push(
        ChapterView { start, title },
    ));
}

/// Chapters that are found are those of the file that is played; those of another file do not
/// matter. They are looked for only in a file that may have some, once it is loaded.
pub proof fn law_chapters_are_those_of_the_file(
    app: AppView,
    file: TrackView,
    path: Seq<u8>,
    report: Seq<char>,
)
    requires
        app.player.file == Some(file),
    ensures
        file.path == path ==> app.chapters_found(path, report).chapters
            == chapters::reported_chapters(report),
        file.path != path ==> app.chapters_found(path, report) == app,
        app.load_step(path, true).actions == (if library::is_m4b(path) {
            seq![crate::app::ActionView::ProbeChapters { path }]
        } else {
            Seq::empty()
        }),
        app.load_step(path, false).actions.len() == 0,
{
}

/// Contents begin with a frame of MPEG audio of the third layer.
pub open spec fn is_frame_at(contents: Seq<u8>, at: int) -> bool {
    &&& 0 <= at
    &&& at + 16 <= contents.len()
    &&& contents[at] == 0xff
    &&& contents[at + 1] == 0xfb || contents[at + 1] == 0xfa
}

/// The title of an MP3 file is read: of one that begins with a frame, and of one with a tag of the
/// third version before it.
pub proof fn law_titles_of_mp3_files_are_read(contents: Seq<u8>, len: int)
    requires
        contents.len() <= media::LONGEST,
    ensures
        is_frame_at(contents, 0) ==> media::probe_returns(contents),
        contents.len() >= 16 && contents[0] == 0x49 && contents[1] == 0x44 && contents[2] == 0x33
            && contents[3] == 3 && len == contents[6] % 128 * 0x20_0000 + contents[7] % 128 * 0x4000
            + contents[8] % 128 * 0x80 + contents[9] % 128 && is_frame_at(contents, 10 + len)
            ==> media::probe_returns(contents),
{
    if is_frame_at(contents, 0) {
        assert(media::mark_at(contents, 0) == media::Mark::Mpeg);
    }
    if contents.len() >= 16 && contents[0] == 0x49 && contents[1] == 0x44 && contents[2] == 0x33
        && contents[3] == 3 && len == media::id3_len(contents, 0) && is_frame_at(
        contents,
        10 + len,
    ) {
        assert(media::mark_at(contents, 0) == media::Mark::Id3);
        assert(media::mark_at(contents, 10 + len) == media::Mark::Mpeg);
        reveal_with_fuel(media::search_returns, 3);
    }
}

} // verus!

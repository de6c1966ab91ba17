//! What the keys are for: what each of them comes to, whatever is loaded, shown and typed.

use vstd::prelude::*;

use crate::app::{ActionView, AppView, InputMode, ScanReasonView};
use crate::browse::RowView;
use crate::editor::{Key, KeyPress};
use crate::encoding;
use crate::library::ItemView;
use crate::paths;
use crate::player::{CommandView, Output, TrackView};
use crate::storage;
use crate::storage::SortMode;
use crate::text;
use crate::time;

verus! {

/// A place no later than the end of what is loaded, where that is known.
pub open spec fn not_beyond_end(place: nat, end: Option<nat>) -> nat {
    match end {
        Some(last) => if place > last {
            last
        } else {
            place
        },
        None => place,
    }
}

/// Playback is asked to go to a place, and where it was can be gone back to.
pub open spec fn goes_to(before: AppView, step: crate::app::Step, place: nat, from: nat) -> bool {
    &&& step.actions == seq![
        ActionView::Device(CommandView::Seek(not_beyond_end(place, before.player.duration))),
        ActionView::PersistResume,
    ]
    &&& step.app.seek_undo == Some(from)
    &&& step.app.player == before.player
}

/// Left and right, and `h` and `l`, go ten seconds back and forward from where playback is.
#[verifier::rlimit(60)]
pub proof fn law_arrows_go_ten_seconds(
    app: AppView,
    control: bool,
    output: Output,
    epoch: u64,
)
    requires
        app.input_mode == InputMode::Normal,
        app.player.file is Some,
        output.position@ + 10_000_000_000 <= time::MAX_NANOS,
    ensures
        ({
            let from = output.position@;
            let back = if from >= 10_000_000_000 {
                (from - 10_000_000_000) as nat
            } else {
                0
            };
            &&& goes_to(app, app.key(KeyPress { key: Key::Left, control }, output, epoch), back, from)
            &&& goes_to(
                app,
                app.key(KeyPress { key: Key::Char('h'), control }, output, epoch),
                back,
                from,
            )
            &&& goes_to(
                app,
                app.key(KeyPress { key: Key::Right, control }, output, epoch),
                from + 10_000_000_000,
                from,
            )
            &&& goes_to(
                app,
                app.key(KeyPress { key: Key::Char('l'), control }, output, epoch),
                from + 10_000_000_000,
                from,
            )
        }),
{
}

/// Trimming twice is trimming once.
proof fn lemma_trimmed_ends(s: Seq<char>)
    ensures
        text::trim_end(s).len() > 0 ==> !text::is_space(text::trim_end(s).last()),
        text::trim_end(s).len() <= s.len(),
        text::trim_end(s).len() > 0 ==> text::trim_end(s)[0] == s[0],
    decreases s.len(),
{
    if s.len() > 0 && text::is_space(s.last()) {
        lemma_trimmed_ends(s.drop_last());
    }
}

proof fn lemma_trim_twice(s: Seq<char>)
    ensures
        text::trim(text::trim(s)) == text::trim(s),
    decreases s.len(),
{
    if s.len() > 0 && text::is_space(s[0]) {
        lemma_trim_twice(s.drop_first());
    } else {
        lemma_trimmed_ends(s);
        let t = text::trim_end(s);
        if t.len() > 0 {
            assert(text::trim_end(t) == t);
        }
    }
}

/// White space is the blank, what moves to another column or line, and what Unicode counts besides;
/// nothing that is read as a letter, a digit or a sign.
pub proof fn law_white_space_is_blank(c: char)
    ensures
        c <= '\u{7f}' ==> (text::is_space(c) <==> c == ' ' || c == '\t' || c == '\n' || c == '\u{b}'
            || c == '\u{c}' || c == '\r'),
        text::is_space('\u{a0}') && text::is_space('\u{2003}') && text::is_space('\u{3000}'),
        '\u{100}' <= c <= '\u{1600}' ==> !text::is_space(c),
        c > '\u{3000}' ==> !text::is_space(c),
{
}

/// What is left after trimming is what was typed without white space at its ends.
pub proof fn law_trimming_takes_white_space(before: Seq<char>, s: Seq<char>, after: Seq<char>)
    requires
        forall|i: int| 0 <= i < before.len() ==> text::is_space(#[trigger] before[i]),
        forall|i: int| 0 <= i < after.len() ==> text::is_space(#[trigger] after[i]),
        s.len() > 0 ==> !text::is_space(s[0]) && !text::is_space(s.last()),
    ensures
        text::trim(before + s + after) == s,
    decreases before.len() + after.len(),
{
    let whole = before + s + after;
    if before.len() > 0 {
        assert(whole[0] == before[0]);
        assert(whole.drop_first() =~= before.drop_first() + s + after);
        law_trimming_takes_white_space(before.drop_first(), s, after);
    } else if s.len() > 0 {
        assert(whole =~= s + after);
        assert(whole[0] == s[0]);
        lemma_trim_end_takes(s, after);
    } else if after.len() > 0 {
        assert(whole =~= after);
        assert(whole[0] == after[0]);
        assert(whole.drop_first() =~= before + s + after.drop_first());
        law_trimming_takes_white_space(before, s, after.drop_first());
    } else {
        assert(whole =~= s);
    }
}

proof fn lemma_trim_end_takes(s: Seq<char>, after: Seq<char>)
    requires
        forall|i: int| 0 <= i < after.len() ==> text::is_space(#[trigger] after[i]),
        s.len() > 0,
        !text::is_space(s.last()),
    ensures
        text::trim_end(s + after) == s,
    decreases after.len(),
{
    let whole = s + after;
    if after.len() > 0 {
        assert(whole.last() == after[after.len() - 1]);
        assert(whole.drop_last() =~= s + after.drop_last());
        lemma_trim_end_takes(s, after.drop_last());
    } else {
        assert(whole =~= s);
    }
}

/// A time that is typed without a sign is a place: entering it goes there, wherever playback is.
pub proof fn law_typed_time_is_a_place(
    app: AppView,
    n: nat,
    control: bool,
    output: Output,
    epoch: u64,
)
    requires
        app.input_mode == InputMode::SeekBy,
        app.player.file is Some,
        time::notation_seconds(app.editor.line) == Some(n),
    ensures
        ({
            let step = app.key(KeyPress { key: Key::Enter, control }, output, epoch);
            &&& goes_to(app, step, n * 1_000_000_000, output.position@)
            &&& step.app.input_mode == InputMode::Normal
        }),
{
    lemma_trim_twice(app.editor.line);
    let typed = text::trim(app.editor.line);
    if typed[0] == '-' || typed[0] == '+' {
        assert(time::group_seconds(typed, None) is None);
    }
}

/// A time that is typed after a plus goes that far forward from where playback is, and one after a
/// minus that far back, but not before the beginning.
pub proof fn law_typed_sign_goes_from_here(
    app: AppView,
    n: nat,
    control: bool,
    output: Output,
    epoch: u64,
)
    requires
        app.input_mode == InputMode::SeekBy,
        app.player.file is Some,
        text::trim(app.editor.line).len() > 0,
        time::notation_seconds(text::trim(app.editor.line).skip(1)) == Some(n),
        output.position@ + n * 1_000_000_000 <= time::MAX_NANOS,
    ensures
        ({
            let step = app.key(KeyPress { key: Key::Enter, control }, output, epoch);
            let sign = text::trim(app.editor.line)[0];
            let from = output.position@;
            &&& sign == '+' ==> goes_to(app, step, from + n * 1_000_000_000, from)
            &&& sign == '-' && from >= n * 1_000_000_000 ==> goes_to(
                app,
                step,
                (from - n * 1_000_000_000) as nat,
                from,
            )
            &&& sign == '-' && from < n * 1_000_000_000 ==> goes_to(app, step, 0, from)
        }),
{
}

/// What is no time goes nowhere.
pub proof fn law_typed_nonsense_goes_nowhere(
    app: AppView,
    control: bool,
    output: Output,
    epoch: u64,
)
    requires
        app.input_mode == InputMode::SeekBy,
        ({
            let typed = text::trim(app.editor.line);
            ||| typed.len() == 0
            ||| (typed[0] != '+' && typed[0] != '-' && time::notation_seconds(typed) is None)
            ||| ((typed[0] == '+' || typed[0] == '-') && time::notation_seconds(typed.skip(1))
                is None)
        }),
    ensures
        ({
            let step = app.key(KeyPress { key: Key::Enter, control }, output, epoch);
            &&& step.actions == Seq::<ActionView>::empty()
            &&& step.app.seek_undo == app.seek_undo
            &&& step.app.input_mode == InputMode::Normal
        }),
{
    lemma_trim_twice(app.editor.line);
}

/// `u` goes back to where playback was before the last change of place, and has then nothing more to
/// go back to.
pub proof fn law_u_goes_back(app: AppView, control: bool, output: Output, epoch: u64)
    requires
        app.input_mode == InputMode::Normal,
        app.player.file is Some,
    ensures
        ({
            let step = app.key(KeyPress { key: Key::Char('u'), control }, output, epoch);
            &&& step.app.seek_undo is None
            &&& match app.seek_undo {
                Some(place) => step.actions == seq![
                    ActionView::Device(
                        CommandView::Seek(not_beyond_end(place, app.player.duration)),
                    ),
                    ActionView::PersistResume,
                ],
                None => step.actions == Seq::<ActionView>::empty(),
            }
        }),
{
}

/// Without a file no key asks the sound output to go anywhere.
pub proof fn law_nothing_to_seek_in(app: AppView, press: KeyPress, output: Output, epoch: u64)
    requires
        app.input_mode == InputMode::Normal || app.input_mode == InputMode::SeekBy,
        app.player.file is None,
        app.input_mode == InputMode::Normal ==> {
            ||| press.key == Key::Left
            ||| press.key == Key::Right
            ||| press.key == Key::Char('h')
            ||| press.key == Key::Char('l')
            ||| press.key == Key::Char('u')
            ||| press.key == Key::Char('c')
            ||| press.key == Key::Char('v')
        },
    ensures
        app.key(press, output, epoch).actions == Seq::<ActionView>::empty(),
{
}

/// Space pauses what plays, and lets go on what is paused.
#[verifier::rlimit(60)]
pub proof fn law_space_pauses_and_resumes(
    app: AppView,
    control: bool,
    output: Output,
    epoch: u64,
)
    requires
        app.input_mode == InputMode::Normal,
    ensures
        ({
            let step = app.key(KeyPress { key: Key::Char(' '), control }, output, epoch);
            step.actions[0] == ActionView::Device(
                if output.paused {
                    CommandView::Play
                } else {
                    CommandView::Pause
                },
            )
        }),
{
}

/// The volume that a key leads to: what the sound output is told, what is shown, and what is kept for
/// the next start.
pub open spec fn plays_at(step: crate::app::Step, volume: int) -> bool {
    &&& step.actions == seq![
        ActionView::Device(CommandView::SetVolume(volume as u8)),
        ActionView::SaveConfig,
    ]
    &&& step.app.player.volume == volume
    &&& step.app.config.default_volume == volume
}

/// `-` and `=` make playback quieter and louder by five, down to nothing and up to a hundred.
#[verifier::rlimit(60)]
pub proof fn law_volume_keys_go_by_five(
    app: AppView,
    control: bool,
    output: Output,
    epoch: u64,
)
    requires
        app.input_mode == InputMode::Normal,
        app.player.volume <= 100,
    ensures
        ({
            let volume = app.player.volume as int;
            let quieter = if volume >= 5 {
                volume - 5
            } else {
                0
            };
            let louder = if volume <= 95 {
                volume + 5
            } else {
                100
            };
            &&& plays_at(app.key(KeyPress { key: Key::Char('-'), control }, output, epoch), quieter)
            &&& plays_at(app.key(KeyPress { key: Key::Char('='), control }, output, epoch), louder)
            &&& plays_at(app.key(KeyPress { key: Key::Char('+'), control }, output, epoch), louder)
        }),
{
}

/// `o` and `p` make playback slower and faster by a quarter, between half and double speed.
#[verifier::rlimit(60)]
pub proof fn law_speed_keys_go_by_a_quarter(
    app: AppView,
    control: bool,
    output: Output,
    epoch: u64,
)
    requires
        app.input_mode == InputMode::Normal,
        50 <= app.player.speed <= 200,
        app.player.speed % 25 == 0,
    ensures
        ({
            let speed = app.player.speed as int;
            let slower = app.key(KeyPress { key: Key::Char('o'), control }, output, epoch);
            let faster = app.key(KeyPress { key: Key::Char('p'), control }, output, epoch);
            let down = if speed > 50 {
                speed - 25
            } else {
                50
            };
            let up = if speed < 200 {
                speed + 25
            } else {
                200
            };
            &&& slower.app.player.speed == down
            &&& slower.actions == seq![ActionView::Device(CommandView::SetSpeed(down as u16))]
            &&& faster.app.player.speed == up
            &&& faster.actions == seq![ActionView::Device(CommandView::SetSpeed(up as u16))]
        }),
{
}

/// All components of a directory are, in order, the first ones of a path.
pub open spec fn is_inside(path: Seq<u8>, dir: Seq<char>) -> bool {
    let outer = paths::components(vstd::utf8::encode_utf8(dir));
    let inner = paths::components(path);
    outer.len() <= inner.len() && forall|k: int| 0 <= k < outer.len() ==> inner[k] == #[trigger] outer[k]
}

/// A directory is the first of some that a path lies in.
pub open spec fn first_around(dirs: Seq<Seq<char>>, path: Seq<u8>, i: int) -> bool {
    &&& 0 <= i < dirs.len()
    &&& is_inside(path, dirs[i])
    &&& forall|k: int| 0 <= k < i ==> !is_inside(path, #[trigger] dirs[k])
}

proof fn lemma_inside(path: Seq<u8>, dir: Seq<char>)
    ensures
        is_inside(path, dir) <==> paths::lies_under(path, encoding::encoded(dir)),
{
    let outer = paths::components(encoding::encoded(dir));
    let inner = paths::components(path);
    if outer.len() <= inner.len() {
        let front = inner.take(outer.len() as int);
        if is_inside(path, dir) {
            assert(front =~= outer);
        }
        if front == outer {
            assert(forall|k: int| 0 <= k < outer.len() ==> front[k] == inner[k]);
        }
    }
}

proof fn lemma_first_root(dirs: Seq<Seq<char>>, path: Seq<u8>, from: int)
    requires
        0 <= from <= dirs.len(),
        forall|k: int| 0 <= k < from ==> !is_inside(path, #[trigger] dirs[k]),
    ensures
        match crate::app::root_from(dirs, path, from) {
            Some(root) => exists|i: int| #[trigger] first_around(dirs, path, i) && dirs[i] == root,
            None => forall|k: int| 0 <= k < dirs.len() ==> !is_inside(path, #[trigger] dirs[k]),
        },
    decreases dirs.len() - from,
{
    if from < dirs.len() {
        lemma_inside(path, dirs[from]);
        if is_inside(path, dirs[from]) {
            assert(first_around(dirs, path, from));
        } else {
            lemma_first_root(dirs, path, from + 1);
        }
    }
}

/// The library directory that is given for a path is one that it lies in, and no earlier one of the
/// list is; none is given only where it lies in none.
pub proof fn law_root_holds_the_path(app: AppView, path: Seq<u8>)
    ensures
        match app.root_for(path) {
            Some(root) => exists|i: int|
                #[trigger] first_around(app.config.library_dirs, path, i)
                    && app.config.library_dirs[i] == root,
            None => forall|k: int|
                0 <= k < app.config.library_dirs.len() ==> !is_inside(
                    path,
                    #[trigger] app.config.library_dirs[k],
                ),
        },
{
    lemma_first_root(app.config.library_dirs, path, 0);
}

/// `d` stops tracking the library directory that the selected file lies in, and no other.
pub proof fn law_d_removes_the_directory_of_the_file(
    app: AppView,
    item: ItemView,
    i: int,
    control: bool,
    output: Output,
    epoch: u64,
)
    requires
        app.input_mode == InputMode::Normal,
        app.selected_item() == Some(item),
        first_around(app.config.library_dirs, item.path, i),
    ensures
        ({
            let root = app.config.library_dirs[i];
            let step = app.key(KeyPress { key: Key::Char('d'), control }, output, epoch);
            &&& step.actions == seq![
                ActionView::SaveConfig,
                ActionView::Rescan(ScanReasonView::Removed(root)),
            ]
            &&& forall|dir: Seq<char>| #[trigger]
                step.app.config.library_dirs.contains(dir) <==> dir != root
                    && app.config.library_dirs.contains(dir)
        }),
{
    law_root_holds_the_path(app, item.path);
    let root = app.config.library_dirs[i];
    let found = app.root_for(item.path);
    match found {
        Some(other) => {
            let j = choose|j: int| #[trigger]
                first_around(app.config.library_dirs, item.path, j)
                    && app.config.library_dirs[j] == other;
            assert(i == j) by {
                if i < j {
                    assert(!is_inside(item.path, app.config.library_dirs[i]));
                }
                if j < i {
                    assert(!is_inside(item.path, app.config.library_dirs[j]));
                }
            }
        },
        None => {
            assert(!is_inside(item.path, app.config.library_dirs[i]));
        },
    }
    storage::law_removed_dir_is_not_tracked(app.config, root);
}

/// Where the selected file lies in no library directory, or none is selected, `d` removes none.
pub proof fn law_d_removes_nothing_else(
    app: AppView,
    control: bool,
    output: Output,
    epoch: u64,
)
    requires
        app.input_mode == InputMode::Normal,
        app.selected_item() matches Some(item) ==> forall|k: int|
            0 <= k < app.config.library_dirs.len() ==> !is_inside(
                item.path,
                #[trigger] app.config.library_dirs[k],
            ),
    ensures
        ({
            let step = app.key(KeyPress { key: Key::Char('d'), control }, output, epoch);
            &&& step.app.config == app.config
            &&& step.actions == Seq::<ActionView>::empty()
        }),
{
    if let Some(item) = app.selected_item() {
        law_root_holds_the_path(app, item.path);
        if let Some(root) = app.root_for(item.path) {
            let i = choose|i: int| #[trigger]
                first_around(app.config.library_dirs, item.path, i)
                    && app.config.library_dirs[i] == root;
            assert(!is_inside(item.path, app.config.library_dirs[i]));
        }
    }
}

/// A directory that was typed and found is tracked from then on, besides those that were; it is
/// looked through at once.
pub proof fn law_found_directory_is_tracked(app: AppView, path: Seq<u8>, real_path: Seq<u8>)
    ensures
        ({
            let step = app.directory_probed(path, Some(real_path));
            let dir = encoding::lossy(real_path);
            &&& forall|d: Seq<char>| #[trigger]
                step.app.config.library_dirs.contains(d) <==> d == dir
                    || app.config.library_dirs.contains(d)
            &&& !app.config.library_dirs.contains(dir) ==> step.actions == seq![
                ActionView::SaveConfig,
                ActionView::Rescan(ScanReasonView::Added(dir)),
            ]
            &&& app.config.library_dirs.contains(dir) ==> step.app.config == app.config
                && step.actions == Seq::<ActionView>::empty()
        }),
        app.directory_probed(path, None).app.config == app.config,
        app.directory_probed(path, None).actions == Seq::<ActionView>::empty(),
{
    let dir = encoding::lossy(real_path);
    let dirs = app.config.library_dirs;
    if !dirs.contains(dir) {
        let longer = dirs.push(dir);
        let sorted = longer.sort_by(crate::order::text_order());
        crate::order::lemma_base_orders_total();
        longer.lemma_sort_by_ensures(crate::order::text_order());
        longer.to_multiset_ensures();
        sorted.to_multiset_ensures();
        assert forall|d: Seq<char>| #[trigger] sorted.contains(d) <==> d == dir || dirs.contains(d) by {
            assert(sorted.contains(d) <==> sorted.to_multiset().count(d) > 0);
            assert(longer.contains(d) <==> longer.to_multiset().count(d) > 0);
            assert(longer[longer.len() - 1] == dir);
            if dirs.contains(d) {
                let k = choose|k: int| 0 <= k < dirs.len() && dirs[k] == d;
                assert(longer[k] == d);
            }
        }
    }
}

/// Enter plays the selected item from where it was left, or from its beginning.
pub proof fn law_enter_plays_the_selected_item(
    app: AppView,
    item: ItemView,
    control: bool,
    output: Output,
    epoch: u64,
)
    requires
        app.input_mode == InputMode::Normal,
        app.selected_item() == Some(item),
    ensures
        ({
            let step = app.key(KeyPress { key: Key::Enter, control }, output, epoch);
            let key = if app.config.memory_on_move {
                item.media_key
            } else {
                item.canonical_key
            };
            let start_at = if app.resume.contains_key(key) {
                app.resume[key].position
            } else {
                0
            };
            step.actions == seq![
                ActionView::Load {
                    track: TrackView {
                        path: item.path,
                        canonical_key: item.canonical_key,
                        media_key: item.media_key,
                    },
                    title: item.title,
                    start_at,
                },
            ]
        }),
{
}

/// The selected item is the one in the selected row.
pub proof fn law_selected_row_tells_the_item(app: AppView, r: usize)
    requires
        app.selected == Some(r),
        r < app.rows().len(),
        app.rows()[r as int] matches RowView::Item { item_index } && item_index < app.items.len(),
    ensures
        app.selected_item() == Some(app.items[app.rows()[r as int]->item_index as int]),
{
}

/// `s` goes from alphabetical order to that by date, from there to that by what was played last, and
/// from there back.
pub proof fn law_s_changes_the_order(app: AppView, control: bool, output: Output, epoch: u64)
    requires
        app.input_mode == InputMode::Normal,
    ensures
        ({
            let step = app.key(KeyPress { key: Key::Char('s'), control }, output, epoch);
            &&& step.app.ui_state.sort_mode == (match app.ui_state.sort_mode {
                SortMode::Alphabetical => SortMode::Date,
                SortMode::Date => SortMode::LastPlayed,
                SortMode::LastPlayed => SortMode::Alphabetical,
            })
            &&& step.actions == seq![ActionView::SaveUiState]
            &&& step.app.filter == app.filter
            &&& step.app.items == app.items
        }),
{
}

/// A dialog is open, with a line and the cursor at its end.
pub open spec fn asks(step: crate::app::Step, mode: InputMode, line: Seq<char>) -> bool {
    &&& step.actions == Seq::<ActionView>::empty()
    &&& step.app.input_mode == mode
    &&& step.app.editor.line == line
    &&& step.app.editor.cursor == line.len()
}

/// `a`, `/`, `e` and `t` open the dialogs for a directory, the filter, a place and the sleep timer;
/// the filter is there to be changed.
#[verifier::rlimit(60)]
pub proof fn law_dialog_keys_ask(app: AppView, control: bool, output: Output, epoch: u64)
    requires
        app.input_mode == InputMode::Normal,
    ensures
        asks(
            app.key(KeyPress { key: Key::Char('a'), control }, output, epoch),
            InputMode::AddDirectory,
            seq![],
        ),
        asks(
            app.key(KeyPress { key: Key::Char('/'), control }, output, epoch),
            InputMode::Search,
            app.filter,
        ),
        asks(
            app.key(KeyPress { key: Key::Char('e'), control }, output, epoch),
            InputMode::SeekBy,
            seq![],
        ),
        asks(
            app.key(KeyPress { key: Key::Char('t'), control }, output, epoch),
            InputMode::SleepTimer,
            seq![],
        ),
        app.key(KeyPress { key: Key::Char('r'), control }, output, epoch).actions == seq![
            ActionView::Rescan(ScanReasonView::Asked),
        ],
{
}

/// Escape closes every dialog and asks for nothing.
#[verifier::rlimit(60)]
pub proof fn law_escape_closes(app: AppView, control: bool, output: Output, epoch: u64)
    requires
        app.input_mode != InputMode::Normal,
    ensures
        ({
            let step = app.key(KeyPress { key: Key::Esc, control }, output, epoch);
            &&& step.app.input_mode == InputMode::Normal
            &&& step.actions == Seq::<ActionView>::empty()
            &&& step.app.config == app.config
            &&& step.app.player == app.player
            &&& step.app.bookmarks == app.bookmarks
            &&& step.app.sleep_left == app.sleep_left
            &&& step.app.seek_undo == app.seek_undo
            &&& app.input_mode == InputMode::Search ==> step.app.filter.len() == 0
            &&& app.input_mode != InputMode::Search ==> step.app.filter == app.filter
        }),
{
    reveal_strlit("");
}

/// What is typed for the filter is filtered by at once, and kept by Enter.
pub proof fn law_typing_filters(
    app: AppView,
    press: KeyPress,
    output: Output,
    epoch: u64,
)
    requires
        app.input_mode == InputMode::Search,
        press.key != Key::Esc,
        app.filter == text::trim(app.editor.line),
    ensures
        ({
            let step = app.key(press, output, epoch);
            &&& step.app.filter == text::trim(step.app.editor.line)
            &&& step.actions == Seq::<ActionView>::empty()
            &&& press.key == Key::Enter && !press.control ==> step.app.input_mode
                == InputMode::Normal && step.app.filter == app.filter
        }),
{
}

/// A time that is typed for the sleep timer is what is left on it.
pub proof fn law_typed_time_sets_the_timer(
    app: AppView,
    n: nat,
    control: bool,
    output: Output,
    epoch: u64,
)
    requires
        app.input_mode == InputMode::SleepTimer,
        time::notation_seconds(app.editor.line) == Some(n),
    ensures
        ({
            let step = app.key(KeyPress { key: Key::Enter, control }, output, epoch);
            &&& step.app.sleep_left == Some(n * 1_000_000_000)
            &&& step.app.input_mode == InputMode::Normal
        }),
{
}

/// Entering a directory asks for what its text means to be looked up; an empty text asks for nothing.
pub proof fn law_entered_directory_is_looked_up(
    app: AppView,
    control: bool,
    output: Output,
    epoch: u64,
)
    requires
        app.input_mode == InputMode::AddDirectory,
    ensures
        ({
            let step = app.key(KeyPress { key: Key::Enter, control }, output, epoch);
            let typed = text::trim(app.editor.line);
            &&& step.app.input_mode == InputMode::Normal
            &&& step.app.config == app.config
            &&& typed.len() == 0 ==> step.actions == Seq::<ActionView>::empty()
            &&& typed.len() > 0 && typed[0] != '~' ==> step.actions == seq![
                ActionView::ProbeDirectory { path: vstd::utf8::encode_utf8(typed) },
            ]
            &&& typed.len() == 1 && typed[0] == '~' && app.home is Some ==> step.actions == seq![
                ActionView::ProbeDirectory { path: app.home->0 },
            ]
            &&& typed.len() > 1 && typed[0] == '~' && typed[1] == '/' && app.home is Some
                ==> step.actions == seq![
                ActionView::ProbeDirectory {
                    path: paths::joined(
                        app.home->0,
                        vstd::utf8::encode_utf8(typed.skip(2)),
                    ),
                },
            ]
        }),
{
    reveal_strlit("~");
    reveal_strlit("~/");
    let typed = text::trim(app.editor.line);
    let tilde = "~"@;
    let home = "~/"@;
    assert(tilde =~= seq!['~']);
    assert(home =~= seq!['~', '/']);
    if typed.len() > 1 {
        assert(typed.take(2)[0] == typed[0] && typed.take(2)[1] == typed[1]);
        if typed[0] == '~' && typed[1] == '/' {
            assert(typed.take(2) =~= home);
        }
    }
    if typed.len() == 1 && typed[0] == '~' {
        assert(typed =~= tilde);
    }
}

} // verus!

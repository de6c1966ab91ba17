//! What the editing keys are for: what each of them makes of the line that is typed.

use vstd::prelude::*;

use crate::app::{ActionView, AppView, InputMode};
use crate::editor;
use crate::editor::{Key, KeyPress};
use crate::player::Output;

verus! {

/// A dialog is open in which a line is typed.
pub open spec fn is_typed_in(mode: InputMode) -> bool {
    mode == InputMode::AddDirectory || mode == InputMode::Search || mode == InputMode::SeekBy || mode
        == InputMode::SleepTimer || mode == InputMode::BookmarkLabel
}

/// The cursor of a dialog stands between two texts that make up the line.
pub open spec fn holds(app: AppView, before: Seq<char>, after: Seq<char>) -> bool {
    &&& is_typed_in(app.input_mode)
    &&& app.editor.line == before + after
    &&& app.editor.cursor == before.len()
}

/// After a key in the dialog the cursor stands between two texts; the dialog stays and nothing is
/// asked for.
pub open spec fn key_leaves(
    app: AppView,
    key: Key,
    control: bool,
    output: Output,
    epoch: u64,
    before: Seq<char>,
    after: Seq<char>,
) -> bool {
    let step = app.key(KeyPress { key, control }, output, epoch);
    &&& holds(step.app, before, after)
    &&& step.app.input_mode == app.input_mode
    &&& step.actions == Seq::<ActionView>::empty()
}

/// The control key with one of these characters is a command.
pub open spec fn is_shortcut(c: char) -> bool {
    c == 'a' || c == 'e' || c == 'u' || c == 'w'
}

proof fn lemma_key_leaves(
    app: AppView,
    key: Key,
    control: bool,
    output: Output,
    epoch: u64,
    before: Seq<char>,
    after: Seq<char>,
)
    requires
        is_typed_in(app.input_mode),
        app.editor.edited(KeyPress { key, control }) matches Some(edited) && edited.line =~= before
            + after && edited.cursor == before.len(),
    ensures
        key_leaves(app, key, control, output, epoch, before, after),
{
}

/// A character is put in before the cursor.
pub proof fn law_characters_are_put_in(
    app: AppView,
    before: Seq<char>,
    after: Seq<char>,
    c: char,
    control: bool,
    output: Output,
    epoch: u64,
)
    requires
        holds(app, before, after),
        !control || !is_shortcut(c),
    ensures
        key_leaves(app, Key::Char(c), control, output, epoch, before.push(c), after),
{
    assert((before + after).insert(before.len() as int, c) =~= before.push(c) + after);
    lemma_key_leaves(app, Key::Char(c), control, output, epoch, before.push(c), after);
}

/// Left and right go over one character, and stay at the ends of the line.
pub proof fn law_cursor_goes_over_characters(
    app: AppView,
    before: Seq<char>,
    c: char,
    after: Seq<char>,
    control: bool,
    output: Output,
    epoch: u64,
)
    ensures
        holds(app, before.push(c), after) ==> key_leaves(
            app,
            Key::Left,
            control,
            output,
            epoch,
            before,
            seq![c] + after,
        ),
        holds(app, before, seq![c] + after) ==> key_leaves(
            app,
            Key::Right,
            control,
            output,
            epoch,
            before.push(c),
            after,
        ),
        holds(app, Seq::empty(), after) ==> key_leaves(
            app,
            Key::Left,
            control,
            output,
            epoch,
            Seq::empty(),
            after,
        ),
        holds(app, before, Seq::empty()) ==> key_leaves(
            app,
            Key::Right,
            control,
            output,
            epoch,
            before,
            Seq::empty(),
        ),
{
    assert(before.push(c) + after =~= before + (seq![c] + after));
    if holds(app, before.push(c), after) {
        lemma_key_leaves(app, Key::Left, control, output, epoch, before, seq![c] + after);
    }
    if holds(app, before, seq![c] + after) {
        lemma_key_leaves(app, Key::Right, control, output, epoch, before.push(c), after);
    }
    if holds(app, Seq::empty(), after) {
        lemma_key_leaves(app, Key::Left, control, output, epoch, Seq::empty(), after);
    }
    if holds(app, before, Seq::empty()) {
        lemma_key_leaves(app, Key::Right, control, output, epoch, before, Seq::empty());
    }
}

/// Home and the control key with `a` go to the beginning of the line, End and the control key with
/// `e` to its end.
pub proof fn law_cursor_goes_to_the_ends(
    app: AppView,
    before: Seq<char>,
    after: Seq<char>,
    control: bool,
    output: Output,
    epoch: u64,
)
    requires
        holds(app, before, after),
    ensures
        key_leaves(app, Key::Home, control, output, epoch, Seq::empty(), before + after),
        key_leaves(app, Key::Char('a'), true, output, epoch, Seq::empty(), before + after),
        key_leaves(app, Key::End, control, output, epoch, before + after, Seq::empty()),
        key_leaves(app, Key::Char('e'), true, output, epoch, before + after, Seq::empty()),
{
    let whole = before + after;
    assert(Seq::empty() + whole =~= whole);
    assert(whole + Seq::empty() =~= whole);
    lemma_key_leaves(app, Key::Home, control, output, epoch, Seq::empty(), whole);
    lemma_key_leaves(app, Key::Char('a'), true, output, epoch, Seq::empty(), whole);
    lemma_key_leaves(app, Key::End, control, output, epoch, whole, Seq::empty());
    lemma_key_leaves(app, Key::Char('e'), true, output, epoch, whole, Seq::empty());
}

/// Backspace takes out the character before the cursor and the delete key the one at it; at the ends
/// of the line they take out nothing.
pub proof fn law_one_character_is_taken_out(
    app: AppView,
    before: Seq<char>,
    c: char,
    after: Seq<char>,
    control: bool,
    output: Output,
    epoch: u64,
)
    ensures
        holds(app, before.push(c), after) ==> key_leaves(
            app,
            Key::Backspace,
            control,
            output,
            epoch,
            before,
            after,
        ),
        holds(app, before, seq![c] + after) ==> key_leaves(
            app,
            Key::Delete,
            control,
            output,
            epoch,
            before,
            after,
        ),
        holds(app, Seq::empty(), after) ==> key_leaves(
            app,
            Key::Backspace,
            control,
            output,
            epoch,
            Seq::empty(),
            after,
        ),
        holds(app, before, Seq::empty()) ==> key_leaves(
            app,
            Key::Delete,
            control,
            output,
            epoch,
            before,
            Seq::empty(),
        ),
{
    if holds(app, before.push(c), after) {
        let line = before.push(c) + after;
        assert(line.take(before.len() as int) + line.skip(before.len() as int + 1) =~= before + after);
        lemma_key_leaves(app, Key::Backspace, control, output, epoch, before, after);
    }
    if holds(app, before, seq![c] + after) {
        let line = before + (seq![c] + after);
        assert(line.remove(before.len() as int) =~= before + after);
        lemma_key_leaves(app, Key::Delete, control, output, epoch, before, after);
    }
    if holds(app, Seq::empty(), after) {
        lemma_key_leaves(app, Key::Backspace, control, output, epoch, Seq::empty(), after);
    }
    if holds(app, before, Seq::empty()) {
        lemma_key_leaves(app, Key::Delete, control, output, epoch, before, Seq::empty());
    }
}

/// A character that parts words.
pub open spec fn parts_words(c: char) -> bool {
    c == '\u{20}' || c == '\u{9}' || c == '\u{a}' || c == '\u{c}' || c == '\u{d}'
}

proof fn lemma_gap(line: Seq<char>, from: int, n: int)
    requires
        0 <= from <= n <= line.len(),
        forall|k: int| from <= k < n ==> parts_words(#[trigger] line[k]),
        from > 0 ==> !parts_words(line[from - 1]),
    ensures
        editor::blanks_start(line, n) == from,
    decreases n - from,
{
    if from < n {
        assert(parts_words(line[n - 1]));
        lemma_gap(line, from, n - 1);
    }
}

proof fn lemma_word(line: Seq<char>, from: int, n: int)
    requires
        0 <= from <= n <= line.len(),
        forall|k: int| from <= k < n ==> !parts_words(#[trigger] line[k]),
        from > 0 ==> parts_words(line[from - 1]),
    ensures
        editor::letters_start(line, n) == from,
    decreases n - from,
{
    if from < n {
        assert(!parts_words(line[n - 1]));
        lemma_word(line, from, n - 1);
    }
}

/// The control key with `w` takes out the word before the cursor with the white space after it; what
/// stands before the word stays, and so does what stands after the cursor.
pub proof fn law_one_word_is_taken_out(
    app: AppView,
    head: Seq<char>,
    word: Seq<char>,
    gap: Seq<char>,
    after: Seq<char>,
    output: Output,
    epoch: u64,
)
    requires
        holds(app, head + word + gap, after),
        word.len() > 0,
        head.len() > 0 ==> parts_words(head.last()),
        forall|k: int| 0 <= k < word.len() ==> !parts_words(#[trigger] word[k]),
        forall|k: int| 0 <= k < gap.len() ==> parts_words(#[trigger] gap[k]),
    ensures
        key_leaves(app, Key::Char('w'), true, output, epoch, head, after),
{
    let line = app.editor.line;
    let a = head.len() as int;
    let b = a + word.len();
    let n = b + gap.len();
    assert forall|k: int| b <= k < n implies parts_words(#[trigger] line[k]) by {
        assert(line[k] == gap[k - b]);
    }
    assert forall|k: int| a <= k < b implies !parts_words(#[trigger] line[k]) by {
        assert(line[k] == word[k - a]);
    }
    assert(line[b - 1] == word[word.len() - 1]);
    lemma_gap(line, b, n);
    if a > 0 {
        assert(line[a - 1] == head[a - 1]);
    }
    lemma_word(line, a, b);
    assert(line.take(a) + line.skip(n) =~= head + after);
    lemma_key_leaves(app, Key::Char('w'), true, output, epoch, head, after);
}

/// The control key with `u` takes out all that stands before the cursor.
pub proof fn law_line_is_taken_out_to_the_cursor(
    app: AppView,
    before: Seq<char>,
    after: Seq<char>,
    output: Output,
    epoch: u64,
)
    requires
        holds(app, before, after),
    ensures
        key_leaves(app, Key::Char('u'), true, output, epoch, Seq::empty(), after),
{
    let line = before + after;
    assert(line.take(0) + line.skip(before.len() as int) =~= Seq::empty() + after);
    lemma_key_leaves(app, Key::Char('u'), true, output, epoch, Seq::empty(), after);
}

} // verus!

//! Editing a line of text: the keys, and what they do to the text and the cursor.

use vstd::prelude::*;

use crate::text;

verus! {

/// A key of the keyboard.
#[derive(Clone, Copy, Debug, PartialEq, Eq, Structural)]
pub enum Key {
    Char(char),
    Up,
    Down,
    Left,
    Right,
    PageUp,
    PageDown,
    Home,
    End,
    Enter,
    Esc,
    Tab,
    Backspace,
    Delete,
    Other,
}

/// A key that was pressed, and whether the control key was held.
#[derive(Clone, Copy, Debug, PartialEq, Eq, Structural)]
pub struct KeyPress {
    pub key: Key,
    pub control: bool,
}

/// ASCII white space.
pub open spec fn is_blank(c: char) -> bool {
    c == ' ' || c == '\t' || c == '\n' || c == '\u{c}' || c == '\r'
}

/// Where the blanks before a position begin.
pub open spec fn blanks_start(line: Seq<char>, n: int) -> int
    decreases n,
{
    if 0 < n <= line.len() && is_blank(line[n - 1]) {
        blanks_start(line, n - 1)
    } else {
        n
    }
}

/// Where the characters before a position that are no blanks begin.
pub open spec fn letters_start(line: Seq<char>, n: int) -> int
    decreases n,
{
    if 0 < n <= line.len() && !is_blank(line[n - 1]) {
        letters_start(line, n - 1)
    } else {
        n
    }
}

/// A line and the number of its characters that stand before the cursor.
#[verifier::ext_equal]
pub struct EditorView {
    pub line: Seq<char>,
    pub cursor: int,
}

impl EditorView {
    /// The cursor stands in the line or at its end.
    pub open spec fn valid(self) -> bool {
        0 <= self.cursor <= self.line.len()
    }

    /// A line with the cursor at its end.
    pub open spec fn holding(line: Seq<char>) -> EditorView {
        EditorView { line, cursor: line.len() as int }
    }

    /// A character is put in at the cursor, which then stands after it.
    pub open spec fn inserted(self, c: char) -> EditorView {
        EditorView { line: self.line.insert(self.cursor, c), cursor: self.cursor + 1 }
    }

    /// The characters from `from` to the cursor are taken out.
    pub open spec fn cut_from(self, from: int) -> EditorView {
        EditorView { line: self.line.take(from) + self.line.skip(self.cursor), cursor: from }
    }

    /// The character before the cursor is taken out.
    pub open spec fn without_prev(self) -> EditorView {
        if self.cursor == 0 {
            self
        } else {
            self.cut_from(self.cursor - 1)
        }
    }

    /// The character at the cursor is taken out.
    pub open spec fn without_next(self) -> EditorView {
        if self.cursor >= self.line.len() {
            self
        } else {
            EditorView { line: self.line.remove(self.cursor), ..self }
        }
    }

    /// Where the word before the cursor begins.
    pub open spec fn word_start(self) -> int {
        letters_start(self.line, blanks_start(self.line, self.cursor))
    }

    /// The word before the cursor is taken out, with the blanks between it and the cursor.
    pub open spec fn without_word(self) -> EditorView {
        self.cut_from(self.word_start())
    }

    /// What an editing key makes of the line; nothing for other keys.
    pub open spec fn edited(self, press: KeyPress) -> Option<EditorView> {
        let end = self.line.len() as int;
        if press.control && press.key == Key::Char('a') {
            Some(EditorView { cursor: 0, ..self })
        } else if press.control && press.key == Key::Char('e') {
            Some(EditorView { cursor: end, ..self })
        } else if press.control && press.key == Key::Char('u') {
            Some(self.cut_from(0))
        } else if press.control && press.key == Key::Char('w') {
            Some(self.without_word())
        } else {
            match press.key {
                Key::Left => Some(
                    EditorView {
                        cursor: if self.cursor > 0 {
                            self.cursor - 1
                        } else {
                            0
                        },
                        ..self
                    },
                ),
                Key::Right => Some(
                    EditorView {
                        cursor: if self.cursor < end {
                            self.cursor + 1
                        } else {
                            end
                        },
                        ..self
                    },
                ),
                Key::Home => Some(EditorView { cursor: 0, ..self }),
                Key::End => Some(EditorView { cursor: end, ..self }),
                Key::Backspace => Some(self.without_prev()),
                Key::Delete => Some(self.without_next()),
                Key::Char(c) => Some(self.inserted(c)),
                _ => None,
            }
        }
    }
}

/// A line of text that is being edited.
#[derive(Debug)]
pub struct LineEditor {
    buffer: Vec<char>,
    cursor: usize,
}

impl View for LineEditor {
    type V = EditorView;

    closed spec fn view(&self) -> EditorView {
        EditorView { line: self.buffer@, cursor: self.cursor as int }
    }
}

fn blank(c: char) -> (b: bool)
    ensures
        b == is_blank(c),
{
    c == ' ' || c == '\t' || c == '\n' || c == '\u{c}' || c == '\r'
}

impl LineEditor {
    #[verifier::type_invariant]
    spec fn cursor_in_line(self) -> bool {
        self.cursor <= self.buffer@.len()
    }

    /// An empty line.
    pub fn empty() -> (editor: LineEditor)
        ensures
            editor@ == EditorView::holding(seq![]),
    {
        let editor = LineEditor { buffer: Vec::new(), cursor: 0 };
        assert(editor@.line =~= seq![]);
        editor
    }

    /// The given line, with the cursor at its end.
    pub fn holding(line: &str) -> (editor: LineEditor)
        ensures
            editor@ == EditorView::holding(line@),
    {
        let buffer = text::chars_of(line);
        let cursor: usize = buffer.len();
        LineEditor { buffer, cursor }
    }

    /// The characters of the line.
    pub fn chars(&self) -> (chars: &Vec<char>)
        ensures
            chars@ == self@.line,
    {
        &self.buffer
    }

    /// The line.
    pub fn line(&self) -> (line: String)
        ensures
            line@ == self@.line,
    {
        text::string_of(&self.buffer)
    }

    /// The number of characters before the cursor.
    pub fn cursor(&self) -> (cursor: usize)
        ensures
            cursor == self@.cursor,
            self@.valid(),
    {
        proof {
            use_type_invariant(self);
        }
        self.cursor
    }

    fn at(&self, cursor: usize) -> (editor: LineEditor)
        requires
            cursor <= self@.line.len(),
        ensures
            editor@ == (EditorView { cursor: cursor as int, ..self@ }),
    {
        let buffer = text::slice_chars(&self.buffer, 0, self.buffer.len());
        assert(buffer@ =~= self.buffer@);
        LineEditor { buffer, cursor }
    }

    fn cut_from(&self, from: usize) -> (editor: LineEditor)
        requires
            from <= self@.cursor,
        ensures
            editor@ == self@.cut_from(from as int),
    {
        proof {
            use_type_invariant(self);
        }
        let mut buffer = text::slice_chars(&self.buffer, 0, from);
        let mut tail = text::slice_chars(&self.buffer, self.cursor, self.buffer.len());
        buffer.append(&mut tail);
        let editor = LineEditor { buffer, cursor: from };
        assert(editor@.line =~= self@.cut_from(from as int).line);
        editor
    }

    /// Puts a character in at the cursor.
    pub fn insert(&self, c: char) -> (editor: LineEditor)
        ensures
            editor@ == self@.inserted(c),
    {
        proof {
            use_type_invariant(self);
        }
        let mut buffer = text::slice_chars(&self.buffer, 0, self.cursor);
        buffer.push(c);
        let cursor: usize = buffer.len();
        let mut tail = text::slice_chars(&self.buffer, self.cursor, self.buffer.len());
        buffer.append(&mut tail);
        let editor = LineEditor { buffer, cursor };
        assert(editor@.line =~= self@.inserted(c).line);
        editor
    }

    /// Takes out the character before the cursor.
    pub fn delete_prev_char(&self) -> (editor: LineEditor)
        ensures
            editor@ == self@.without_prev(),
    {
        if self.cursor == 0 {
            proof {
                use_type_invariant(self);
            }
            return self.at(0);
        }
        self.cut_from(self.cursor - 1)
    }

    /// Takes out the character at the cursor.
    pub fn delete_next_char(&self) -> (editor: LineEditor)
        ensures
            editor@ == self@.without_next(),
    {
        proof {
            use_type_invariant(self);
        }
        if self.cursor >= self.buffer.len() {
            return self.at(self.cursor);
        }
        let mut buffer = text::slice_chars(&self.buffer, 0, self.cursor);
        let mut tail = text::slice_chars(&self.buffer, self.cursor + 1, self.buffer.len());
        buffer.append(&mut tail);
        let editor = LineEditor { buffer, cursor: self.cursor };
        assert(editor@.line =~= self@.without_next().line);
        editor
    }

    /// Takes out the word before the cursor.
    pub fn delete_prev_word(&self) -> (editor: LineEditor)
        ensures
            editor@ == self@.without_word(),
    {
        proof {
            use_type_invariant(self);
        }
        let mut start: usize = self.cursor;
        while start > 0 && blank(self.buffer[start - 1])
            invariant
                start <= self.cursor <= self.buffer@.len(),
                blanks_start(self.buffer@, self.cursor as int) == blanks_start(
                    self.buffer@,
                    start as int,
                ),
            decreases start,
        {
            start = start - 1;
        }
        assert(blanks_start(self.buffer@, self.cursor as int) == start);
        let ghost gap = start as int;
        while start > 0 && !blank(self.buffer[start - 1])
            invariant
                start <= gap <= self.cursor <= self.buffer@.len(),
                letters_start(self.buffer@, gap) == letters_start(self.buffer@, start as int),
            decreases start,
        {
            start = start - 1;
        }
        self.cut_from(start)
    }

    /// What an editing key makes of the line; nothing for other keys.
    pub fn handle_shared_input_key(&self, press: KeyPress) -> (editor: Option<LineEditor>)
        ensures
            match editor {
                Some(e) => self@.edited(press) == Some(e@),
                None => self@.edited(press) is None,
            },
    {
        proof {
            use_type_invariant(self);
        }
        let end: usize = self.buffer.len();
        if press.control {
            if press.key == Key::Char('a') {
                return Some(self.at(0));
            }
            if press.key == Key::Char('e') {
                return Some(self.at(end));
            }
            if press.key == Key::Char('u') {
                return Some(self.cut_from(0));
            }
            if press.key == Key::Char('w') {
                return Some(self.delete_prev_word());
            }
        }
        match press.key {
            Key::Left => Some(
                self.at(
                    if self.cursor > 0 {
                        self.cursor - 1
                    } else {
                        0
                    },
                ),
            ),
            Key::Right => Some(
                self.at(
                    if self.cursor < end {
                        self.cursor + 1
                    } else {
                        end
                    },
                ),
            ),
            Key::Home => Some(self.at(0)),
            Key::End => Some(self.at(end)),
            Key::Backspace => Some(self.delete_prev_char()),
            Key::Delete => Some(self.delete_next_char()),
            Key::Char(c) => Some(self.insert(c)),
            _ => None,
        }
    }
}

proof fn lemma_word_start(line: Seq<char>, n: int)
    requires
        0 <= n <= line.len(),
    ensures
        0 <= blanks_start(line, n) <= n,
        0 <= letters_start(line, n) <= n,
        forall|k: int| blanks_start(line, n) <= k < n ==> is_blank(#[trigger] line[k]),
        forall|k: int| letters_start(line, n) <= k < n ==> !is_blank(#[trigger] line[k]),
        blanks_start(line, n) > 0 ==> !is_blank(line[blanks_start(line, n) - 1]),
        letters_start(line, n) > 0 ==> is_blank(line[letters_start(line, n) - 1]),
    decreases n,
{
    if n > 0 {
        lemma_word_start(line, n - 1);
    }
}

/// No key leads the cursor out of the line.
pub proof fn law_cursor_stays_in_line(editor: EditorView, press: KeyPress)
    requires
        editor.valid(),
    ensures
        editor.edited(press) matches Some(after) ==> after.valid(),
{
    lemma_word_start(editor.line, editor.cursor);
    lemma_word_start(editor.line, blanks_start(editor.line, editor.cursor));
}

/// Deleting undoes typing: what is typed is what the backspace key takes out, and the delete key
/// too once the cursor is back.
pub proof fn law_delete_undoes_insert(editor: EditorView, c: char)
    requires
        editor.valid(),
    ensures
        editor.inserted(c).without_prev() == editor,
        (EditorView { cursor: editor.cursor, ..editor.inserted(c) }).without_next() == editor,
        editor.inserted(c).line[editor.cursor] == c,
{
    assert(editor.inserted(c).without_prev() =~= editor);
    assert((EditorView { cursor: editor.cursor, ..editor.inserted(c) }).without_next() =~= editor);
}

/// Deleting a word leaves what stands after the cursor, and takes out a run of characters that are
/// no blanks, reaching to a blank or to the beginning, with the blanks after it.
pub proof fn law_delete_word_takes_one_word(editor: EditorView)
    requires
        editor.valid(),
    ensures
        ({
            let from = editor.word_start();
            let gap = blanks_start(editor.line, editor.cursor);
            let after = editor.without_word();
            &&& 0 <= from <= gap <= editor.cursor
            &&& forall|k: int| from <= k < gap ==> !is_blank(#[trigger] editor.line[k])
            &&& forall|k: int| gap <= k < editor.cursor ==> is_blank(#[trigger] editor.line[k])
            &&& from > 0 ==> is_blank(editor.line[from - 1])
            &&& after.line == editor.line.take(from) + editor.line.skip(editor.cursor)
            &&& after.cursor == from
        }),
{
    lemma_word_start(editor.line, editor.cursor);
    lemma_word_start(editor.line, blanks_start(editor.line, editor.cursor));
}

}

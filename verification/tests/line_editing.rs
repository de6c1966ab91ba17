use booktui::editor::{Key, KeyPress, LineEditor};

fn plain(key: Key) -> KeyPress {
    KeyPress {
        key,
        control: false,
    }
}

fn control(c: char) -> KeyPress {
    KeyPress {
        key: Key::Char(c),
        control: true,
    }
}

fn edit(line: &str, keys: &[KeyPress]) -> (String, usize) {
    let mut editor = LineEditor::holding(line);
    for press in keys {
        if let Some(next) = editor.handle_shared_input_key(*press) {
            editor = next;
        }
    }
    (editor.line(), editor.cursor())
}

#[test]
fn a_new_line_has_its_cursor_at_the_end() {
    assert_eq!(edit("books", &[]), ("books".to_owned(), 5));
    assert_eq!(LineEditor::empty().line(), "");
    assert_eq!(LineEditor::empty().cursor(), 0);
}

#[test]
fn characters_go_in_at_the_cursor() {
    let keys = [plain(Key::Left), plain(Key::Left), plain(Key::Char('ß'))];
    assert_eq!(edit("boks", &keys), ("boßks".to_owned(), 3));
}

#[test]
fn deleting_undoes_typing() {
    let keys = [plain(Key::Left), plain(Key::Char('x')), plain(Key::Backspace)];
    assert_eq!(edit("ab", &keys), ("ab".to_owned(), 1));
    let keys = [
        plain(Key::Left),
        plain(Key::Char('x')),
        plain(Key::Left),
        plain(Key::Delete),
    ];
    assert_eq!(edit("ab", &keys), ("ab".to_owned(), 1));
}

#[test]
fn the_cursor_stays_in_the_line() {
    assert_eq!(edit("ab", &[plain(Key::Right)]), ("ab".to_owned(), 2));
    assert_eq!(edit("", &[plain(Key::Left)]), ("".to_owned(), 0));
    assert_eq!(edit("", &[plain(Key::Backspace)]), ("".to_owned(), 0));
    assert_eq!(edit("ab", &[plain(Key::Delete)]), ("ab".to_owned(), 2));
}

#[test]
fn jumps_go_to_the_ends() {
    assert_eq!(edit("abc", &[plain(Key::Home)]).1, 0);
    assert_eq!(edit("abc", &[plain(Key::Home), plain(Key::End)]).1, 3);
    assert_eq!(edit("abc", &[control('a')]).1, 0);
    assert_eq!(edit("abc", &[control('a'), control('e')]).1, 3);
}

#[test]
fn clearing_takes_what_stands_before_the_cursor() {
    assert_eq!(edit("abc", &[plain(Key::Left), control('u')]), ("c".to_owned(), 0));
}

#[test]
fn words_are_deleted_with_the_blanks_after_them() {
    assert_eq!(edit("one two  ", &[control('w')]), ("one ".to_owned(), 4));
    assert_eq!(edit("one", &[control('w')]), ("".to_owned(), 0));
    assert_eq!(edit("", &[control('w')]), ("".to_owned(), 0));
    assert_eq!(
        edit("one two", &[plain(Key::Left), control('w')]),
        ("one o".to_owned(), 4)
    );
}

#[test]
fn other_keys_do_not_edit() {
    let editor = LineEditor::holding("x");
    for key in [Key::Enter, Key::Esc, Key::Tab, Key::Up, Key::Down, Key::Other] {
        assert!(editor.handle_shared_input_key(plain(key)).is_none());
    }
    assert_eq!(edit("x", &[control('z')]), ("xz".to_owned(), 2));
}

use booktui::complete::{
    complete, completion_search, display_input_path, display_path_with_dir_hint, expand_tilde,
    longest_common_prefix, matching_directories, path_to_complete, Completion,
};

fn home() -> Option<Vec<u8>> {
    Some(b"/home/you".to_vec())
}

fn chars(text: &str) -> Vec<char> {
    text.chars().collect()
}

fn paths(list: &[&str]) -> Vec<Vec<u8>> {
    list.iter().map(|path| path.as_bytes().to_vec()).collect()
}

#[test]
fn tilde_stands_for_home() {
    assert_eq!(expand_tilde(&chars("~"), &home()), b"/home/you");
    assert_eq!(expand_tilde(&chars("~/Books"), &home()), b"/home/you/Books");
    assert_eq!(expand_tilde(&chars("~/"), &home()), b"/home/you/");
    assert_eq!(expand_tilde(&chars("~you"), &home()), b"~you");
    assert_eq!(expand_tilde(&chars("/srv"), &home()), b"/srv");
    assert_eq!(expand_tilde(&chars("~"), &None), b"~");
    assert_eq!(expand_tilde(&chars("~/Books"), &None), b"~/Books");
}

#[test]
fn nothing_typed_completes_the_home_directory() {
    assert_eq!(path_to_complete(&chars("  "), &home()), b"/home/you/");
    assert_eq!(path_to_complete(&chars(" /srv "), &home()), b"/srv");
}

#[test]
fn searches_look_in_or_beside_a_path() {
    let search = |path: &str, is_dir: bool| {
        let (dir, prefix) = completion_search(&path.as_bytes().to_vec(), is_dir);
        (String::from_utf8(dir).unwrap(), prefix)
    };
    assert_eq!(search("/srv/books", true), ("/srv/books".to_owned(), "".to_owned()));
    assert_eq!(search("/srv/bo", false), ("/srv".to_owned(), "bo".to_owned()));
    assert_eq!(search("bo", false), (".".to_owned(), "bo".to_owned()));
    assert_eq!(search("", false), ("".to_owned(), "".to_owned()));
    assert_eq!(search("/", false), (".".to_owned(), "".to_owned()));
}

#[test]
fn candidates_begin_like_the_prefix_and_are_sorted() {
    let list = paths(&["/s/books", "/s/albums", "/s/boots", "/s/Bo"]);
    assert_eq!(matching_directories(&list, "bo"), paths(&["/s/books", "/s/boots"]));
    assert_eq!(
        matching_directories(&list, ""),
        paths(&["/s/Bo", "/s/albums", "/s/books", "/s/boots"])
    );
    let mut odd = paths(&["/s/b"]);
    odd.push(b"/s/\xff".to_vec());
    assert_eq!(matching_directories(&odd, ""), paths(&["/s/b"]));
}

#[test]
fn common_beginnings() {
    assert_eq!(longest_common_prefix(&paths(&["/s/books", "/s/boots", "/s/bo"])), b"/s/bo");
    assert_eq!(longest_common_prefix(&paths(&["/s/books", "/s/albums"])), b"");
    assert_eq!(longest_common_prefix(&paths(&["/s/books"])), b"/s/books");
    assert_eq!(longest_common_prefix(&paths(&[])), b"");
    assert_eq!(
        longest_common_prefix(&paths(&["/s/äb", "/s/äc"])),
        "/s/ä".as_bytes()
    );
    assert_eq!(longest_common_prefix(&paths(&["/s/ä", "/s/å"])), b"");
}

#[test]
fn paths_are_shown_as_they_are_typed() {
    let show = |path: &str, is_dir: bool| {
        display_input_path(&path.as_bytes().to_vec(), is_dir, &home())
    };
    assert_eq!(show("/home/you", true), "~/");
    assert_eq!(show("/home/you/Books", true), "~/Books/");
    assert_eq!(show("/home/you/Bo", false), "~/Bo");
    assert_eq!(show("/srv/Books", true), "/srv/Books/");
    assert_eq!(show("/home/your", false), "/home/your");
    assert_eq!(
        display_input_path(&b"/home/you/Books".to_vec(), true, &None),
        "/home/you/Books/"
    );
    assert_eq!(display_path_with_dir_hint(&b"/srv".to_vec(), false), "/srv");
}

#[test]
fn a_sole_match_is_taken() {
    match complete(&paths(&["/home/you/Books"]), &home()) {
        Completion::Typed { text, matches } => {
            assert_eq!(text, "~/Books/");
            assert_eq!(matches, 1);
        }
        other => panic!("{other:?}"),
    }
}

#[test]
fn several_matches_complete_to_what_they_share() {
    match complete(&paths(&["/srv/books", "/srv/boots"]), &home()) {
        Completion::Typed { text, matches } => {
            assert_eq!(text, "/srv/boo");
            assert_eq!(matches, 2);
        }
        other => panic!("{other:?}"),
    }
    match complete(&paths(&["/srv/bo", "/srv/books"]), &home()) {
        Completion::Typed { text, .. } => assert_eq!(text, "/srv/bo/"),
        other => panic!("{other:?}"),
    }
}

#[test]
fn without_anything_shared_nothing_is_typed() {
    assert!(matches!(
        complete(&paths(&["/srv/a", "/srv/b"]), &home()),
        Completion::Unchanged { matches: 2 }
    ));
    assert!(matches!(
        complete(&paths(&[]), &home()),
        Completion::Unchanged { matches: 0 }
    ));
}

#[test]
fn what_is_typed_means_the_path() {
    for path in ["/home/you", "/home/you/Books/", "/home/you/a b/ä", "/srv/x", "/"] {
        for is_dir in [false, true] {
            let bytes = path.as_bytes().to_vec();
            let typed = display_input_path(&bytes, is_dir, &home());
            let meant = expand_tilde(&chars(&typed), &home());
            assert!(booktui::paths::same_path(&meant, &bytes), "{path} {typed}");
        }
    }
}

#[test]
fn bare_names_are_completed_in_the_working_directory() {
    let (dir, prefix) = completion_search(&b"foo".to_vec(), false);
    assert_eq!((dir.as_slice(), prefix.as_str()), (b".".as_slice(), "foo"));
    let found = matching_directories(&paths(&["./foobar", "./other"]), &prefix);
    match complete(&found, &home()) {
        Completion::Typed { text, matches } => {
            assert_eq!((text.as_str(), matches), ("./foobar/", 1));
            assert_eq!(expand_tilde(&chars(&text), &home()), b"./foobar/");
        }
        other => panic!("{other:?}"),
    }
}

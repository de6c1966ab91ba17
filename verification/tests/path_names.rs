use std::path::{Path, PathBuf};

use booktui::paths::{
    join, join_text, name_extension, name_stem, path_file_name, path_parent, path_parent_name,
    rest_after, same_path, split_components, starts_with,
};

const PATHS: [&str; 26] = [
    "",
    "/",
    "//",
    ".",
    "..",
    "./a",
    "a",
    "a/",
    "a/.",
    "a/./b",
    "a//b",
    "/a",
    "/a/",
    "/a/b.mp3",
    "/a/b/../c",
    "../a",
    "/..",
    "a/b/c/",
    "a/..",
    "/home/you/Books",
    "/home/you/Books/",
    "/home/you/Books/One.m4b",
    "/home/you",
    ".hidden",
    "/x/.hidden.mp3",
    "/x/two.dots.mp3",
];

fn bytes(path: &Path) -> Vec<u8> {
    path.to_str().unwrap().as_bytes().to_vec()
}

fn own(path: &str) -> Vec<u8> {
    path.as_bytes().to_vec()
}

#[test]
fn components_agree_with_std() {
    for path in PATHS {
        let expected: Vec<Vec<u8>> = Path::new(path)
            .components()
            .map(|c| c.as_os_str().to_str().unwrap().as_bytes().to_vec())
            .collect();
        assert_eq!(split_components(&own(path)), expected, "{path:?}");
    }
}

#[test]
fn names_agree_with_std() {
    for path in PATHS {
        let std_path = Path::new(path);
        let name = std_path.file_name().map(|n| n.to_str().unwrap().as_bytes().to_vec());
        assert_eq!(path_file_name(&own(path)), name, "{path:?}");
        let parent_name = std_path
            .parent()
            .and_then(Path::file_name)
            .map(|n| n.to_str().unwrap().as_bytes().to_vec());
        assert_eq!(path_parent_name(&own(path)), parent_name, "{path:?}");
        if let Some(name) = name {
            let std_name = Path::new(std::str::from_utf8(&name).unwrap());
            assert_eq!(
                name_extension(&name),
                std_name.extension().map(|e| e.to_str().unwrap().as_bytes().to_vec()),
                "{path:?}"
            );
            assert_eq!(
                Some(name_stem(&name)),
                std_name.file_stem().map(|e| e.to_str().unwrap().as_bytes().to_vec()),
                "{path:?}"
            );
        }
    }
}

#[test]
fn parents_agree_with_std() {
    for path in PATHS {
        assert_eq!(
            path_parent(&own(path)),
            Path::new(path).parent().map(bytes),
            "{path:?}"
        );
    }
}

#[test]
fn joining_agrees_with_std() {
    for base in PATHS {
        for tail in PATHS {
            let expected = bytes(&PathBuf::from(base).join(tail));
            assert_eq!(join(&own(base), &own(tail)), expected, "{base:?} {tail:?}");
            assert_eq!(join_text(&own(base), tail), expected);
        }
    }
}

#[test]
fn prefixes_agree_with_std() {
    for path in PATHS {
        for root in PATHS {
            let stripped = Path::new(path).strip_prefix(root);
            assert_eq!(
                starts_with(&own(path), &own(root)),
                stripped.is_ok(),
                "{path:?} {root:?}"
            );
            if let Ok(rest) = stripped {
                let depth = split_components(&own(root)).len();
                assert_eq!(rest_after(&own(path), depth), bytes(rest), "{path:?} {root:?}");
            }
            assert_eq!(
                same_path(&own(path), &own(root)),
                Path::new(path) == Path::new(root)
            );
        }
    }
}

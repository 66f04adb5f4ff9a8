use rusty_static_server::paths::{same_bytes, FsPath};
use std::path::{Component, Path};

const PATHS: [&str; 26] = [
    "", "/", "//", ".", "..", "./", "/.", "/..", "a", "a/", "/a", "//a//b", "a/b", "a/./b", "./a", "././a",
    "a/../b", "/srv/www", "/srv/www/", "/srv/www/x", "/srv/wwwx", "/srv/www/../y", "srv/www", "/srv/./www/x.y",
    "/sr", "...",
];

fn shown_parts(path: &str) -> Vec<String> {
    FsPath::from_text(path)
        .parts()
        .into_iter()
        .map(|part| String::from_utf8(part).unwrap())
        .collect()
}

#[test]
fn components_of_a_path() {
    assert_eq!(shown_parts("//a//./b/"), vec!["/", "a", "b"]);
    assert_eq!(shown_parts("./a/../b"), vec![".", "a", "..", "b"]);
    assert_eq!(shown_parts(""), Vec::<String>::new());
}

#[test]
fn components_agree_with_std() {
    for path in PATHS {
        let expected: Vec<String> = Path::new(path)
            .components()
            .map(|c| match c {
                Component::RootDir => "/".to_string(),
                other => other.as_os_str().to_str().unwrap().to_string(),
            })
            .collect();
        assert_eq!(shown_parts(path), expected);
    }
}

#[test]
fn prefixes_agree_with_std() {
    for path in PATHS {
        for base in PATHS {
            let ours = FsPath::from_text(path).starts_with(&FsPath::from_text(base));
            assert_eq!(ours, Path::new(path).starts_with(base));
        }
    }
}

#[test]
fn prefixes_are_whole_components() {
    let root = FsPath::from_text("/srv/www");
    assert!(FsPath::from_text("/srv/www").starts_with(&root));
    assert!(FsPath::from_text("/srv/www/a/b").starts_with(&root));
    assert!(!FsPath::from_text("/srv/www2/a").starts_with(&root));
    assert!(!FsPath::from_text("/srv").starts_with(&root));
}

#[test]
fn joining_agrees_with_std() {
    for base in PATHS {
        for more in PATHS {
            let ours = FsPath::from_text(base).join(more.as_bytes());
            let theirs = Path::new(base).join(more);
            assert_eq!(ours.bytes, theirs.to_str().unwrap().as_bytes());
        }
    }
}

#[test]
fn joining_stays_inside() {
    let root = FsPath::from_text("/srv/www");
    let path = FsPath::from_text("/srv/www/dir").join(b"index.html");
    assert_eq!(path.bytes, b"/srv/www/dir/index.html");
    assert!(path.starts_with(&root));
    assert!(root.copy().starts_with(&root));
    assert_eq!(root.join(b"/etc").bytes, b"/etc");
}

#[test]
fn bytes_are_compared() {
    assert!(same_bytes(b"ab", b"ab"));
    assert!(!same_bytes(b"ab", b"ac"));
    assert!(!same_bytes(b"ab", b"abc"));
    assert!(same_bytes(b"", b""));
}

#[test]
fn lying_under_a_directory_carries_over() {
    let base = FsPath::from_text("/srv");
    let middle = FsPath::from_text("/srv/www");
    let path = FsPath::from_text("/srv/www/a");
    assert!(path.starts_with(&middle) && middle.starts_with(&base) && path.starts_with(&base));
}

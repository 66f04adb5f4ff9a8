use rusty_static_server::paths::FsPath;
use rusty_static_server::request::{
    decode_target, locate, parse_request_line, without_leading_slashes, Method, RequestLine,
};

fn located(target: &str) -> String {
    let root = FsPath::from_text("/srv/www");
    String::from_utf8(locate(&root, target).bytes).unwrap()
}

#[test]
fn a_request_line_is_read() {
    match parse_request_line("GET /index.html HTTP/1.1\r\n") {
        RequestLine::Accepted { method, target } => {
            assert_eq!(method, "GET");
            assert_eq!(target, "/index.html");
        }
        other => panic!("{:?}", other),
    }
}

#[test]
fn a_request_line_has_three_words() {
    for line in ["", "\r\n", "GET", "GET /", "GET / HTTP/1.1 x", "a b c d"] {
        assert!(matches!(parse_request_line(line), RequestLine::Malformed));
    }
}

#[test]
fn a_request_line_is_of_the_served_version() {
    for version in ["HTTP/1.0", "HTTP/2", "http/1.1", "x"] {
        match parse_request_line(&format!("GET / {}\r\n", version)) {
            RequestLine::WrongVersion { version: found } => assert_eq!(found, version),
            other => panic!("{:?}", other),
        }
    }
}

#[test]
fn methods_by_name() {
    assert_eq!(Method::from_name("GET"), Method::Get);
    assert_eq!(Method::from_name("HEAD"), Method::Head);
    assert_eq!(Method::from_name("POST"), Method::Other);
    assert_eq!(Method::from_name("get"), Method::Other);
}

#[test]
fn targets_are_decoded() {
    assert_eq!(decode_target("/a%20b"), "/a b");
    assert_eq!(decode_target("/%F0%9F%91%BE"), "/👾");
    assert_eq!(decode_target("/a+b"), "/a+b");
    assert_eq!(decode_target("/%"), "/%");
    assert_eq!(decode_target("/%2"), "/%2");
    assert_eq!(decode_target("/%2g%26"), "/%2g&");
    assert_eq!(decode_target("/%%41"), "/%A");
    assert_eq!(decode_target("/%25%32%65"), "/%2e");
}

#[test]
fn targets_that_cannot_be_decoded_stay() {
    assert_eq!(decode_target("/%ff"), "/%ff");
    assert_eq!(decode_target("/%F0%0F%91%BE%20Hello"), "/%F0%0F%91%BE%20Hello");
}

#[test]
fn plain_targets_stay() {
    for target in ["", "/", "/a/b.txt", "/ü", "*"] {
        assert_eq!(decode_target(target), target);
    }
}

#[test]
fn leading_slashes_are_dropped() {
    assert_eq!(without_leading_slashes("/a"), "a");
    assert_eq!(without_leading_slashes("///a//"), "a//");
    assert_eq!(without_leading_slashes("/"), "");
    assert_eq!(without_leading_slashes("a/"), "a/");
    assert_eq!(without_leading_slashes(""), "");
}

#[test]
fn targets_are_located_under_the_root() {
    assert_eq!(located("/index.html"), "/srv/www/index.html");
    assert_eq!(located("/"), "/srv/www/.");
    assert_eq!(located("//a///b/./c/"), "/srv/www/a/b/c");
    assert_eq!(located("/a/../b"), "/srv/www/b");
    assert_eq!(located("/a%20b.txt"), "/srv/www/a b.txt");
}

#[test]
fn targets_that_climb_show_it() {
    assert_eq!(located("/../etc/passwd"), "/srv/www/../etc/passwd");
    assert_eq!(located("/a/../../x"), "/srv/www/../x");
    assert_eq!(located("/%2e%2e/%2e%2e/x"), "/srv/www/../../x");
}

#[test]
fn escapes_make_no_difference() {
    assert_eq!(located("/%2e%2e%2Fetc"), located("/../etc"));
    assert_eq!(located("/%61%2fb"), located("/a/b"));
    assert_eq!(located("%2f%2fetc"), "/srv/www/etc");
}

#[test]
fn a_root_with_a_slash_at_its_end() {
    let root = FsPath::from_text("/");
    assert_eq!(locate(&root, "/a/b").bytes, b"/a/b");
}

#[test]
fn targets_are_cleaned_as_by_path_clean() {
    let root = FsPath::from_text("/srv/www");
    for text in ["a", "a/", "a//b", "./a", "a/.", "a/..", "a/../..", "../a/../b", "a/b/../../../c", "..", "ü/../ö", "."] {
        let expected = std::path::Path::new("/srv/www").join(path_clean::clean(text));
        assert_eq!(locate(&root, text).bytes, expected.to_str().unwrap().as_bytes());
    }
}

#[test]
fn cleaning_twice_changes_nothing() {
    for text in ["a/../b", "../x", "a//b/./c/", "", "x/../.."] {
        let once = located(text);
        let relative = &once["/srv/www/".len()..];
        assert_eq!(located(relative), once);
    }
}

#[test]
fn requested_paths_extend_the_root() {
    let root = FsPath::from_text("/srv/www");
    for target in ["/", "/../../etc/passwd", "//etc", "/%2e%2e/x", "/a/./b"] {
        assert!(locate(&root, target).starts_with(&root));
    }
}

#[test]
fn leading_slashes_make_no_difference() {
    for target in ["a/b", "", "%ff", "../x"] {
        assert_eq!(located(&format!("/{}", target)), located(target));
        assert_eq!(located(&format!("///{}", target)), located(target));
    }
    assert_eq!(located("%2Fa"), located("a"));
    assert_eq!(located("%2f%2Fa"), located("a"));
    // A target that cannot be decoded keeps its escapes.
    assert_eq!(located("%2F%ff"), "/srv/www/%2F%ff");
}

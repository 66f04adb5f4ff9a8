use rusty_static_server::connection::{Action, Connection, Event, IoFailure, IoKind, Output};
use rusty_static_server::paths::FsPath;

fn path(text: &str) -> FsPath {
    FsPath::from_text(text)
}

fn shown(path: &FsPath) -> String {
    String::from_utf8(path.bytes.clone()).unwrap()
}

fn failure(kind: IoKind, text: &str) -> IoFailure {
    IoFailure { kind, text: text.to_string() }
}

/// Runs a connection through some events and gives the outputs, the first one included.
fn run(events: Vec<Event>) -> Vec<Output> {
    let (mut connection, first) = Connection::open(Some("1.2.3.4:5".to_string()), path("/srv/www"), 10);
    let mut outputs = vec![first];
    for event in events {
        let (next, output) = connection.step(event);
        connection = next;
        outputs.push(output);
    }
    outputs
}

fn line(text: &str) -> Event {
    Event::LineRead(text.to_string())
}

fn get(target: &str) -> Vec<Event> {
    vec![Event::TimeoutSet, line(&format!("GET {} HTTP/1.1\r\n", target))]
}

fn with(mut events: Vec<Event>, more: Vec<Event>) -> Vec<Event> {
    events.extend(more);
    events
}

fn last(outputs: &Vec<Output>) -> &Output {
    outputs.last().unwrap()
}

fn reply_head(output: &Output) -> String {
    match &output.action {
        Action::SendHead(head) => head.clone(),
        other => panic!("{:?}", other),
    }
}

fn body(output: &Output) -> Vec<u8> {
    match &output.action {
        Action::SendBody(body) => body.clone(),
        other => panic!("{:?}", other),
    }
}

#[test]
fn a_connection_begins_with_the_timeout() {
    let outputs = run(vec![Event::TimeoutSet]);
    assert!(matches!(outputs[0].action, Action::SetReadTimeout(10)));
    assert!(matches!(outputs[1].action, Action::ReadLine));
    assert!(outputs[1].log.is_empty());
}

#[test]
fn a_refused_timeout_is_logged() {
    let outputs = run(vec![Event::TimeoutRefused("zero".to_string())]);
    assert!(matches!(last(&outputs).action, Action::ReadLine));
    assert_eq!(last(&outputs).log, vec!["Failed to set read timeout for 1.2.3.4:5: zero"]);
}

#[test]
fn an_unknown_client() {
    let (connection, _) = Connection::open(None, path("/"), 1);
    let (connection, _) = connection.step(Event::TimeoutSet);
    let (_, output) = connection.step(Event::LineEnded);
    assert_eq!(output.log, vec!["Client unknown disconnected before sending request."]);
    assert!(matches!(output.action, Action::Close));
}

#[test]
fn a_line_that_does_not_come() {
    for kind in [IoKind::WouldBlock, IoKind::TimedOut] {
        let outputs = run(vec![Event::TimeoutSet, Event::LineFailed(failure(kind, "late"))]);
        assert_eq!(last(&outputs).log, vec!["Read timeout waiting for request line from 1.2.3.4:5"]);
        assert!(reply_head(last(&outputs)).starts_with("HTTP/1.1 408 Request Timeout\r\n"));
    }
    for kind in [IoKind::Interrupted, IoKind::BrokenPipe, IoKind::Other] {
        let outputs = run(vec![Event::TimeoutSet, Event::LineFailed(failure(kind, "bad"))]);
        assert_eq!(last(&outputs).log, vec!["Error reading request line from 1.2.3.4:5: bad"]);
        assert!(matches!(last(&outputs).action, Action::Close));
    }
}

#[test]
fn a_malformed_line_is_a_bad_request() {
    let outputs = run(vec![Event::TimeoutSet, line("  GET /\r\n")]);
    assert_eq!(last(&outputs).log, vec!["Malformed request line from 1.2.3.4:5: GET /"]);
    assert!(reply_head(last(&outputs)).starts_with("HTTP/1.1 400 Bad Request\r\n"));
}

#[test]
fn another_version_is_not_supported() {
    let outputs = run(vec![Event::TimeoutSet, line("GET / HTTP/1.0\r\n")]);
    assert_eq!(last(&outputs).log, vec!["Unsupported HTTP version from 1.2.3.4:5: HTTP/1.0"]);
    assert!(reply_head(last(&outputs)).starts_with("HTTP/1.1 505 HTTP Version Not Supported\r\n"));
}

#[test]
fn another_method_is_not_implemented() {
    let outputs = run(vec![Event::TimeoutSet, line("POST /x HTTP/1.1\r\n")]);
    assert_eq!(
        last(&outputs).log,
        vec!["Received POST request for /x from 1.2.3.4:5", "Unsupported method POST from 1.2.3.4:5"]
    );
    assert!(reply_head(last(&outputs)).starts_with("HTTP/1.1 501 Not Implemented\r\n"));
}

#[test]
fn a_file_is_served() {
    let outputs = run(with(
        get("/a%20b.TXT"),
        vec![
            Event::Resolved(path("/real/www")),
            Event::Resolved(path("/real/www/a b.TXT")),
            Event::Probed(false),
            Event::Opened { is_dir: false, size: 42 },
            Event::HeadSent,
            Event::BodySent,
        ],
    ));
    assert_eq!(outputs[2].log, vec!["Received GET request for /a%20b.TXT from 1.2.3.4:5"]);
    assert!(matches!(&outputs[2].action, Action::Resolve(p) if shown(p) == "/srv/www"));
    assert!(matches!(&outputs[3].action, Action::Resolve(p) if shown(p) == "/srv/www/a b.TXT"));
    assert!(matches!(&outputs[4].action, Action::Probe(p) if shown(p) == "/real/www/a b.TXT"));
    assert!(matches!(&outputs[5].action, Action::Open(p) if shown(p) == "/real/www/a b.TXT"));
    match &outputs[6].action {
        Action::SendHead(head) => assert_eq!(
            head,
            "HTTP/1.1 200 OK\r\nContent-Type: text/plain\r\nContent-Length: 42\r\nConnection: close\r\n\r\n"
        ),
        other => panic!("{:?}", other),
    }
    assert!(matches!(outputs[7].action, Action::SendFile));
    assert!(matches!(outputs[8].action, Action::Close));
    assert_eq!(outputs[8].log, vec!["Served /real/www/a b.TXT (text/plain, 42 bytes)"]);
}

#[test]
fn a_head_request_gets_the_head_alone() {
    let outputs = run(vec![
        Event::TimeoutSet,
        line("HEAD /x.png HTTP/1.1\r\n"),
        Event::Resolved(path("/srv/www")),
        Event::Resolved(path("/srv/www/x.png")),
        Event::Probed(false),
        Event::Opened { is_dir: false, size: 7 },
        Event::HeadSent,
    ]);
    match &outputs[6].action {
        Action::SendHead(head) => assert_eq!(
            head,
            "HTTP/1.1 200 OK\r\nContent-Type: image/png\r\nContent-Length: 7\r\nConnection: close\r\n\r\n"
        ),
        other => panic!("{:?}", other),
    }
    assert!(matches!(outputs[7].action, Action::Close));
    assert_eq!(outputs[7].log, vec!["Served HEAD for /srv/www/x.png (image/png, 7 bytes)"]);
}

#[test]
fn a_directory_is_served_by_its_index() {
    for answer in ["/srv/www/docs/index.html", "/srv/www/shared/start", ""] {
        let outputs = run(with(
            get("/docs/"),
            vec![
                Event::Resolved(path("/srv/www")),
                Event::Resolved(path("/srv/www/docs")),
                Event::Probed(true),
                if answer.is_empty() { Event::Unresolved("gone".to_string()) } else { Event::Resolved(path(answer)) },
                Event::Opened { is_dir: false, size: 1 },
            ],
        ));
        assert!(matches!(&outputs[5].action, Action::Resolve(p) if shown(p) == "/srv/www/docs/index.html"));
        assert!(outputs[5].log.is_empty() && outputs[6].log.is_empty());
        assert!(matches!(&outputs[6].action, Action::Open(p) if shown(p) == "/srv/www/docs/index.html"));
        assert!(matches!(&outputs[7].action, Action::SendHead(h) if h.contains("Content-Type: text/html\r\n")));
    }
}

#[test]
fn an_index_that_leads_out_of_the_root_is_forbidden() {
    let outputs = run(with(
        get("/docs/"),
        vec![
            Event::Resolved(path("/srv/www")),
            Event::Resolved(path("/srv/www/docs")),
            Event::Probed(true),
            Event::Resolved(path("/etc/secret")),
            Event::Unresolved("gone".to_string()),
        ],
    ));
    assert_eq!(
        outputs[6].log,
        vec!["Forbidden path access attempt: /docs/ resolved outside root to /etc/secret"]
    );
    assert!(matches!(&outputs[6].action, Action::Resolve(p) if shown(p) == "/srv/www/403.html"));
    assert!(reply_head(last(&outputs)).starts_with("HTTP/1.1 403 Forbidden\r\n"));
}

#[test]
fn a_path_outside_the_root_is_forbidden() {
    let outputs = run(with(
        get("/../secret"),
        vec![Event::Resolved(path("/srv/www")), Event::Resolved(path("/srv/secret"))],
    ));
    assert_eq!(
        last(&outputs).log,
        vec!["Forbidden path access attempt: /../secret resolved outside root to /srv/secret"]
    );
    assert!(matches!(&last(&outputs).action, Action::Resolve(p) if shown(p) == "/srv/www/403.html"));
}

#[test]
fn a_path_with_the_root_as_part_of_a_name_is_forbidden() {
    let outputs = run(with(
        get("/x"),
        vec![
            Event::Resolved(path("/srv/www")),
            Event::Resolved(path("/srv/www2/x")),
            Event::Unresolved("gone".to_string()),
        ],
    ));
    let head = reply_head(last(&outputs));
    assert!(head.starts_with("HTTP/1.1 403 Forbidden\r\n"));
}

#[test]
fn a_path_that_cannot_be_resolved_is_looked_for_as_it_is() {
    let outputs = run(with(
        get("/none"),
        vec![
            Event::Resolved(path("/srv/www")),
            Event::Unresolved("gone".to_string()),
            Event::Probed(false),
            Event::NotOpened(failure(IoKind::NotFound, "gone")),
        ],
    ));
    assert_eq!(
        outputs[4].log,
        vec!["Note: Could not canonicalize requested path /srv/www/none: gone. Will check existence."]
    );
    assert!(matches!(&outputs[5].action, Action::Open(p) if shown(p) == "/srv/www/none"));
    assert_eq!(last(&outputs).log, vec!["File not found or inaccessible: /srv/www/none"]);
    assert!(matches!(&last(&outputs).action, Action::Resolve(p) if shown(p) == "/srv/www/404.html"));
}

#[test]
fn an_unresolved_path_outside_a_resolved_root_is_forbidden() {
    let outputs = run(with(
        get("/none"),
        vec![Event::Resolved(path("/real/www")), Event::Unresolved("gone".to_string())],
    ));
    assert_eq!(
        last(&outputs).log,
        vec![
            "Note: Could not canonicalize requested path /srv/www/none: gone. Will check existence.",
            "Forbidden path access attempt: /none resolved outside root to /srv/www/none",
        ]
    );
}

#[test]
fn a_root_that_cannot_be_resolved_is_an_internal_error() {
    let outputs = run(with(get("/x"), vec![Event::Unresolved("gone".to_string())]));
    assert_eq!(last(&outputs).log, vec!["Failed to canonicalize root dir /srv/www: gone"]);
    assert!(reply_head(last(&outputs)).starts_with("HTTP/1.1 500 Internal Server Error\r\n"));
}

fn opened(event: Event) -> Vec<Output> {
    run(with(
        get("/x"),
        vec![
            Event::Resolved(path("/srv/www")),
            Event::Resolved(path("/srv/www/x")),
            Event::Probed(false),
            event,
        ],
    ))
}

#[test]
fn files_that_cannot_be_opened() {
    let outputs = opened(Event::NotOpened(failure(IoKind::PermissionDenied, "no")));
    assert_eq!(last(&outputs).log, vec!["File not found or inaccessible: /srv/www/x"]);
    assert!(matches!(&last(&outputs).action, Action::Resolve(p) if shown(p) == "/srv/www/404.html"));
    let outputs = opened(Event::NotOpened(failure(IoKind::Other, "odd")));
    assert_eq!(last(&outputs).log, vec!["Error opening file /srv/www/x: odd"]);
    assert!(reply_head(last(&outputs)).starts_with("HTTP/1.1 500 "));
    let outputs = opened(Event::NotDescribed("odd".to_string()));
    assert_eq!(last(&outputs).log, vec!["Error getting metadata for /srv/www/x: odd"]);
    assert!(reply_head(last(&outputs)).starts_with("HTTP/1.1 500 "));
    let outputs = opened(Event::Opened { is_dir: true, size: 0 });
    assert_eq!(last(&outputs).log, vec!["Attempt to serve directory directly: /srv/www/x"]);
    assert!(matches!(&last(&outputs).action, Action::Resolve(p) if shown(p) == "/srv/www/403.html"));
}

#[test]
fn a_file_without_a_known_extension() {
    let outputs = opened(Event::Opened { is_dir: false, size: 3 });
    assert!(
        matches!(&last(&outputs).action, Action::SendHead(h) if h.contains("Content-Type: application/octet-stream\r\n"))
    );
}

fn media_of(name: &[u8]) -> String {
    let mut bytes = b"/srv/www/".to_vec();
    bytes.extend_from_slice(name);
    let outputs = run(with(
        get("/x"),
        vec![
            Event::Resolved(path("/srv/www")),
            Event::Resolved(FsPath { bytes }),
            Event::Probed(false),
            Event::Opened { is_dir: false, size: 3 },
        ],
    ));
    match &last(&outputs).action {
        Action::SendHead(head) => {
            let from = head.find("Content-Type: ").unwrap() + 14;
            let to = head[from..].find("\r\n").unwrap();
            head[from..from + to].to_string()
        }
        other => panic!("{:?}", other),
    }
}

#[test]
fn media_types_go_by_the_extension() {
    assert_eq!(media_of(b"a.html"), "text/html");
    assert_eq!(media_of(b"a.css"), "text/css");
    assert_eq!(media_of(b"a.js"), "text/javascript");
    assert_eq!(media_of(b"a.PnG"), "image/png");
    assert_eq!(media_of(b"\xff\xfe.html"), "text/html");
    assert_eq!(media_of(b"a.b.html"), "text/html");
    for name in [&b"html"[..], b".html", b"a.", b"a.\xff", b"..html", b"a.nosuchthing"] {
        let expected = if name == b"..html" { "text/html" } else { "application/octet-stream" };
        assert_eq!(media_of(name), expected);
    }
}

#[test]
fn sending_can_fail() {
    let outputs = run(with(
        get("/x"),
        vec![
            Event::Resolved(path("/srv/www")),
            Event::Resolved(path("/srv/www/x")),
            Event::Probed(false),
            Event::Opened { is_dir: false, size: 3 },
            Event::HeadFailed("gone".to_string()),
        ],
    ));
    assert_eq!(last(&outputs).log, vec!["Error writing headers for /srv/www/x: gone"]);
    assert!(matches!(last(&outputs).action, Action::Close));
    let outputs = run(with(
        get("/x"),
        vec![
            Event::Resolved(path("/srv/www")),
            Event::Resolved(path("/srv/www/x")),
            Event::Probed(false),
            Event::Opened { is_dir: false, size: 3 },
            Event::HeadSent,
            Event::BodyFailed("gone".to_string()),
        ],
    ));
    assert_eq!(last(&outputs).log, vec!["Error streaming file /srv/www/x: gone"]);
    assert!(matches!(last(&outputs).action, Action::Close));
}

fn missing() -> Vec<Event> {
    with(
        get("/x"),
        vec![
            Event::Resolved(path("/srv/www")),
            Event::Unresolved("gone".to_string()),
            Event::Probed(false),
            Event::NotOpened(failure(IoKind::NotFound, "gone")),
        ],
    )
}

#[test]
fn a_site_has_its_own_page_for_a_missing_file() {
    let outputs = run(with(
        missing(),
        vec![
            Event::Resolved(path("/srv/www/404.html")),
            Event::Resolved(path("/srv/www")),
            Event::PageRead(b"gone!".to_vec()),
            Event::HeadSent,
            Event::BodySent,
        ],
    ));
    assert!(matches!(&outputs[7].action, Action::Resolve(p) if shown(p) == "/srv/www"));
    assert!(matches!(&outputs[8].action, Action::ReadPage(p) if shown(p) == "/srv/www/404.html"));
    assert_eq!(
        reply_head(&outputs[9]),
        "HTTP/1.1 404 Not Found\r\nContent-Type: text/html\r\nContent-Length: 5\r\nConnection: close\r\n\r\n"
    );
    assert_eq!(body(&outputs[10]), b"gone!");
    assert!(matches!(outputs[11].action, Action::Close));
    assert!(outputs[7].log.is_empty() && outputs[11].log.is_empty());
}

#[test]
fn the_longest_answer_takes_twelve_events() {
    let outputs = run(with(
        get("/docs"),
        vec![
            Event::Resolved(path("/srv/www")),
            Event::Resolved(path("/srv/www/docs")),
            Event::Probed(true),
            Event::Unresolved("gone".to_string()),
            Event::NotOpened(failure(IoKind::NotFound, "gone")),
            Event::Resolved(path("/srv/www/404.html")),
            Event::Resolved(path("/srv/www")),
            Event::PageRead(Vec::new()),
            Event::HeadSent,
            Event::BodyFailed("gone".to_string()),
        ],
    ));
    assert!(matches!(last(&outputs).action, Action::Close));
    assert_eq!(outputs.len(), 13);
}

#[test]
fn a_page_outside_the_root_is_not_shown() {
    let outputs = run(with(
        missing(),
        vec![
            Event::Resolved(path("/etc/404.html")),
            Event::Resolved(path("/srv/www")),
            Event::HeadSent,
        ],
    ));
    assert_eq!(
        String::from_utf8(body(last(&outputs))).unwrap(),
        "<html><head><title>404 Not Found</title></head><body><h1>404 Not Found</h1></body></html>"
    );
}

#[test]
fn a_page_is_checked_against_the_configured_root_if_need_be() {
    let outputs = run(with(
        missing(),
        vec![Event::Resolved(path("/srv/www/404.html")), Event::Unresolved("gone".to_string())],
    ));
    assert!(matches!(&last(&outputs).action, Action::ReadPage(p) if shown(p) == "/srv/www/404.html"));
}

#[test]
fn pages_that_cannot_be_read_are_replaced() {
    let outputs = run(with(missing(), vec![Event::Unresolved("gone".to_string())]));
    assert!(reply_head(last(&outputs)).starts_with("HTTP/1.1 404 Not Found\r\n"));
    let outputs = run(with(
        missing(),
        vec![
            Event::Resolved(path("/srv/www/404.html")),
            Event::Resolved(path("/srv/www")),
            Event::PageUnread,
        ],
    ));
    assert!(reply_head(last(&outputs)).starts_with("HTTP/1.1 404 Not Found\r\n"));
}

#[test]
fn paths_that_are_not_text_are_shown_with_replacements() {
    let outputs = run(with(
        get("/x"),
        vec![Event::Resolved(path("/srv/www")), Event::Resolved(FsPath { bytes: b"/a\xffb".to_vec() })],
    ));
    assert_eq!(
        last(&outputs).log,
        vec!["Forbidden path access attempt: /x resolved outside root to /a\u{fffd}b"]
    );
}

#[test]
fn get_and_head_go_the_same_way() {
    let mut heads = Vec::new();
    for method in ["GET", "HEAD"] {
        let outputs = run(vec![
            Event::TimeoutSet,
            line(&format!("{} /a.css HTTP/1.1\r\n", method)),
            Event::Resolved(path("/srv/www")),
            Event::Resolved(path("/srv/www/a.css")),
            Event::Probed(false),
            Event::Opened { is_dir: false, size: 9 },
        ]);
        match &last(&outputs).action {
            Action::SendHead(head) => heads.push(head.clone()),
            other => panic!("{:?}", other),
        }
    }
    assert_eq!(heads[0], heads[1]);
}

#[test]
fn a_head_request_gets_no_body_with_an_error_either() {
    for (method, page) in [("HEAD", false), ("GET", true)] {
        let outputs = run(vec![
            Event::TimeoutSet,
            line(&format!("{} /x HTTP/1.1\r\n", method)),
            Event::Resolved(path("/srv/www")),
            Event::Unresolved("gone".to_string()),
            Event::Probed(false),
            Event::NotOpened(failure(IoKind::NotFound, "gone")),
            Event::Unresolved("gone".to_string()),
            Event::HeadSent,
        ]);
        assert_eq!(
            reply_head(&outputs[7]),
            "HTTP/1.1 404 Not Found\r\nContent-Type: text/html\r\nContent-Length: 89\r\nConnection: close\r\n\r\n"
        );
        if page {
            assert_eq!(body(last(&outputs)).len(), 89);
        } else {
            assert!(matches!(last(&outputs).action, Action::Close));
        }
    }
}

#[test]
fn no_page_follows_a_head_that_could_not_be_sent() {
    let outputs = run(vec![Event::TimeoutSet, line("x\r\n"), Event::HeadFailed("gone".to_string())]);
    assert!(reply_head(&outputs[2]).starts_with("HTTP/1.1 400 Bad Request\r\n"));
    assert!(matches!(last(&outputs).action, Action::Close));
    assert!(last(&outputs).log.is_empty());
}

#[test]
fn an_error_of_any_number_and_any_words_is_answered() {
    let (connection, _) = Connection::open(None, path("/srv/www"), 1);
    let (connection, output) = Connection::send_error_response(connection.context, Vec::new(), 418, "é");
    let page = "<html><head><title>418 é</title></head><body><h1>418 é</h1></body></html>";
    assert_eq!(
        reply_head(&output),
        "HTTP/1.1 418 é\r\nContent-Type: text/html\r\nContent-Length: 75\r\nConnection: close\r\n\r\n"
    );
    assert_eq!(page.len(), 75);
    let (connection, output) = connection.step(Event::HeadSent);
    assert_eq!(body(&output), page.as_bytes());
    let (_, output) = connection.step(Event::BodySent);
    assert!(matches!(output.action, Action::Close));
}

#[test]
fn only_two_numbers_have_pages_of_their_own() {
    for code in [200, 400, 402, 403, 404, 405, 500, 65535] {
        let (connection, _) = Connection::open(None, path("/srv/www"), 1);
        let (_, output) = Connection::send_error_response(connection.context, Vec::new(), code, "x");
        assert_eq!(matches!(output.action, Action::Resolve(_)), code == 403 || code == 404);
    }
}

#[test]
fn targets_that_decode_alike_get_the_same_answer() {
    let mut asked = Vec::new();
    for target in ["/a/b", "/%61/b", "//a%2Fb", "a/b", "%2fa/b"] {
        let outputs = run(with(get(target), vec![Event::Resolved(path("/srv/www"))]));
        match &last(&outputs).action {
            Action::Resolve(p) => asked.push(shown(p)),
            other => panic!("{:?}", other),
        }
    }
    assert_eq!(asked, vec!["/srv/www/a/b"; 5]);
}

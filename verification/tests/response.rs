use rusty_static_server::response::{
    has_page, make_error_page, make_file_head, make_header_fields, make_page_name, make_status_line,
    write_headers, ErrorStatus, Reply,
};

const ALL: [ErrorStatus; 7] = [
    ErrorStatus::BadRequest,
    ErrorStatus::Forbidden,
    ErrorStatus::NotFound,
    ErrorStatus::RequestTimeout,
    ErrorStatus::InternalServerError,
    ErrorStatus::NotImplemented,
    ErrorStatus::HttpVersionNotSupported,
];

#[test]
fn the_parts_of_a_head() {
    assert_eq!(make_status_line(404, "Not Found"), "HTTP/1.1 404 Not Found");
    assert_eq!(
        make_header_fields("text/plain", 12),
        "Content-Type: text/plain\r\nContent-Length: 12\r\nConnection: close\r\n"
    );
    assert_eq!(write_headers("A", "B: c\r\n"), "A\r\nB: c\r\n\r\n");
}

#[test]
fn the_head_for_a_file() {
    assert_eq!(
        make_file_head("text/html", 0),
        "HTTP/1.1 200 OK\r\nContent-Type: text/html\r\nContent-Length: 0\r\nConnection: close\r\n\r\n"
    );
}

#[test]
fn the_page_for_an_error() {
    assert_eq!(
        make_error_page(404, "Not Found"),
        "<html><head><title>404 Not Found</title></head><body><h1>404 Not Found</h1></body></html>"
    );
    assert_eq!(make_page_name(404), "404.html");
    assert_eq!(make_page_name(403), "403.html");
}

#[test]
fn errors_have_their_numbers_and_words() {
    let expected = [
        (400, "Bad Request"),
        (403, "Forbidden"),
        (404, "Not Found"),
        (408, "Request Timeout"),
        (500, "Internal Server Error"),
        (501, "Not Implemented"),
        (505, "HTTP Version Not Supported"),
    ];
    for i in 0..7 {
        assert_eq!((ALL[i].code(), ALL[i].reason()), expected[i]);
        assert_eq!(has_page(ALL[i].code()), expected[i].0 == 403 || expected[i].0 == 404);
    }
}

#[test]
fn replies_tell_the_length_of_their_body() {
    for status in ALL {
        let reply = Reply::default_page(status.code(), status.reason());
        assert!(reply.head.contains(&format!("Content-Length: {}\r\n", reply.body.len())));
        assert_eq!(reply.body, make_error_page(status.code(), status.reason()).as_bytes());
    }
    let reply = Reply::to_error(404, "Not Found", vec![0xff, 0x00, 0x0a]);
    assert_eq!(
        reply.head,
        "HTTP/1.1 404 Not Found\r\nContent-Type: text/html\r\nContent-Length: 3\r\nConnection: close\r\n\r\n"
    );
    assert_eq!(reply.body, vec![0xff, 0x00, 0x0a]);
}

#[test]
fn the_first_empty_line_ends_the_head() {
    for status in ALL {
        let head = Reply::default_page(status.code(), status.reason()).head;
        assert_eq!(head.find("\r\n\r\n"), Some(head.len() - 4));
    }
    let head = make_file_head("image/png", 123456789);
    assert_eq!(head.find("\r\n\r\n"), Some(head.len() - 4));
}

#[test]
fn the_length_of_a_page_counts_bytes() {
    let reply = Reply::default_page(418, "é");
    assert_eq!(
        reply.head,
        "HTTP/1.1 418 é\r\nContent-Type: text/html\r\nContent-Length: 75\r\nConnection: close\r\n\r\n"
    );
    assert_eq!(reply.body.len(), 75);
}

//! Status lines, header fields and the pages for errors.
use crate::split::{kept, law_split, lemma_kept_concat, split};
use crate::text::{
    decimal, digit, has_two_gaps, is_two_gaps, is_whitespace, law_decimal_has_no_leading_zeros,
    law_decimal_is_read_back, law_word_is_itself, law_words_of_two_texts, number, some_text,
    to_decimal, words, NumberError,
};
use vstd::prelude::*;
use vstd::string::*;
use vstd::utf8::*;

verus! {

// ---------------------------------------------------------------------------------------------
// The head of a response
// ---------------------------------------------------------------------------------------------
/// The first line of a response.
pub open spec fn status_line(code: nat, reason: Seq<char>) -> Seq<char> {
    "HTTP/1.1 "@ + decimal(code) + " "@ + reason
}

/// The header fields of a response with a body of `length` bytes, each with its line end.
pub open spec fn header_fields(content_type: Seq<char>, length: nat) -> Seq<char> {
    "Content-Type: "@ + content_type + "\r\nContent-Length: "@ + decimal(length)
        + "\r\nConnection: close\r\n"@
}

/// The head of a response: the status line, the header fields and an empty line.
pub open spec fn head(line: Seq<char>, fields: Seq<char>) -> Seq<char> {
    line + "\r\n"@ + fields + "\r\n"@
}

/// The head of the response that a file of `size` bytes is sent with.
pub open spec fn file_head(content_type: Seq<char>, size: nat) -> Seq<char> {
    head("HTTP/1.1 200 OK"@, header_fields(content_type, size))
}

/// The head of the response that an error page of `length` bytes is sent with.
pub open spec fn error_head(code: nat, reason: Seq<char>, length: nat) -> Seq<char> {
    head(status_line(code, reason), header_fields("text/html"@, length))
}

/// The page for an error that has no page of its own.
pub open spec fn error_page(code: nat, reason: Seq<char>) -> Seq<char> {
    "<html><head><title>"@ + decimal(code) + " "@ + reason + "</title></head><body><h1>"@ + decimal(
        code,
    ) + " "@ + reason + "</h1></body></html>"@
}

/// The name of the file that holds a site's own page for an error.
pub open spec fn page_name(code: nat) -> Seq<char> {
    decimal(code) + ".html"@
}

/// Makes the first line of a response.
pub fn make_status_line(code: u16, reason: &str) -> (r: String)
    ensures
        r@ == status_line(code as nat, reason@),
{
    let mut r = "HTTP/1.1 ".to_owned();
    r.append(to_decimal(code as u64).as_str());
    r.append(" ");
    r.append(reason);
    r
}

/// Makes the header fields of a response with a body of `length` bytes.
pub fn make_header_fields(content_type: &str, length: u64) -> (r: String)
    ensures
        r@ == header_fields(content_type@, length as nat),
{
    let mut r = "Content-Type: ".to_owned();
    r.append(content_type);
    r.append("\r\nContent-Length: ");
    r.append(to_decimal(length).as_str());
    r.append("\r\nConnection: close\r\n");
    r
}

/// What is written before the body of a response: the status line, the header fields and an empty
/// line.
pub fn write_headers(line: &str, fields: &str) -> (r: String)
    ensures
        r@ == head(line@, fields@),
{
    let mut r = line.to_owned();
    r.append("\r\n");
    r.append(fields);
    r.append("\r\n");
    r
}

/// Makes the head of the response that a file of `size` bytes is sent with.
pub fn make_file_head(content_type: &str, size: u64) -> (r: String)
    ensures
        r@ == file_head(content_type@, size as nat),
{
    write_headers("HTTP/1.1 200 OK", make_header_fields(content_type, size).as_str())
}

/// Makes the page for an error that has no page of its own.
pub fn make_error_page(code: u16, reason: &str) -> (r: String)
    ensures
        r@ == error_page(code as nat, reason@),
{
    let number = to_decimal(code as u64);
    let mut r = "<html><head><title>".to_owned();
    r.append(number.as_str());
    r.append(" ");
    r.append(reason);
    r.append("</title></head><body><h1>");
    r.append(number.as_str());
    r.append(" ");
    r.append(reason);
    r.append("</h1></body></html>");
    r
}

/// Makes the name of the file that holds a site's own page for an error.
pub fn make_page_name(code: u16) -> (r: String)
    ensures
        r@ == page_name(code as nat),
{
    let mut r = to_decimal(code as u64);
    r.append(".html");
    r
}

// ---------------------------------------------------------------------------------------------
// Error replies
// ---------------------------------------------------------------------------------------------
/// The errors that a client can be answered with.
#[derive(Clone, Copy, PartialEq, Eq, Debug, Structural)]
pub enum ErrorStatus {
    /// The request line has not three words.
    BadRequest,
    /// The path leads out of the root directory, or is a directory.
    Forbidden,
    /// The file is missing or may not be read.
    NotFound,
    /// No request line came in time.
    RequestTimeout,
    /// The server cannot do its part.
    InternalServerError,
    /// The method is not known.
    NotImplemented,
    /// The version is not HTTP/1.1.
    HttpVersionNotSupported,
}

impl ErrorStatus {
    /// The number of this status.
    pub open spec fn number(self) -> u16 {
        match self {
            ErrorStatus::BadRequest => 400,
            ErrorStatus::Forbidden => 403,
            ErrorStatus::NotFound => 404,
            ErrorStatus::RequestTimeout => 408,
            ErrorStatus::InternalServerError => 500,
            ErrorStatus::NotImplemented => 501,
            ErrorStatus::HttpVersionNotSupported => 505,
        }
    }

    /// The words for this status.
    pub open spec fn words(self) -> Seq<char> {
        match self {
            ErrorStatus::BadRequest => "Bad Request"@,
            ErrorStatus::Forbidden => "Forbidden"@,
            ErrorStatus::NotFound => "Not Found"@,
            ErrorStatus::RequestTimeout => "Request Timeout"@,
            ErrorStatus::InternalServerError => "Internal Server Error"@,
            ErrorStatus::NotImplemented => "Not Implemented"@,
            ErrorStatus::HttpVersionNotSupported => "HTTP Version Not Supported"@,
        }
    }

    /// The number of this status.
    pub fn code(self) -> (r: u16)
        ensures
            r == self.number(),
    {
        match self {
            ErrorStatus::BadRequest => 400,
            ErrorStatus::Forbidden => 403,
            ErrorStatus::NotFound => 404,
            ErrorStatus::RequestTimeout => 408,
            ErrorStatus::InternalServerError => 500,
            ErrorStatus::NotImplemented => 501,
            ErrorStatus::HttpVersionNotSupported => 505,
        }
    }

    /// The words for this status.
    pub fn reason(self) -> (r: &'static str)
        ensures
            r@ == self.words(),
    {
        match self {
            ErrorStatus::BadRequest => "Bad Request",
            ErrorStatus::Forbidden => "Forbidden",
            ErrorStatus::NotFound => "Not Found",
            ErrorStatus::RequestTimeout => "Request Timeout",
            ErrorStatus::InternalServerError => "Internal Server Error",
            ErrorStatus::NotImplemented => "Not Implemented",
            ErrorStatus::HttpVersionNotSupported => "HTTP Version Not Supported",
        }
    }
}

/// Tells whether a site may have its own page for the error with this number.
pub open spec fn may_have_page(code: u16) -> bool {
    code == 404 || code == 403
}

/// Tells whether a site may have its own page for the error with this number.
pub fn has_page(code: u16) -> (r: bool)
    ensures
        r == may_have_page(code),
{
    code == 404 || code == 403
}

/// The reply to an error: its head and its page.
#[derive(Debug)]
pub struct Reply {
    /// The status line and the header fields, with the empty line behind them.
    pub head: String,
    /// The bytes that follow the head.
    pub body: Vec<u8>,
}

impl Reply {
    /// The reply to an error with a given page. The length in its head counts bytes.
    pub fn to_error(code: u16, reason: &str, page: Vec<u8>) -> (r: Reply)
        ensures
            r.head@ == error_head(code as nat, reason@, page@.len()),
            r.body@ == page@,
    {
        let line = make_status_line(code, reason);
        let fields = make_header_fields("text/html", page.len() as u64);
        Reply { head: write_headers(line.as_str(), fields.as_str()), body: page }
    }

    /// The reply to an error without a page of its own.
    pub fn default_page(code: u16, reason: &str) -> (r: Reply)
        ensures
            r.head@ == error_head(
                code as nat,
                reason@,
                encode_utf8(error_page(code as nat, reason@)).len(),
            ),
            r.body@ == encode_utf8(error_page(code as nat, reason@)),
    {
        let page = make_error_page(code, reason);
        Reply::to_error(code, reason, page.as_str().as_bytes_vec())
    }
}

// ---------------------------------------------------------------------------------------------
// Laws
// ---------------------------------------------------------------------------------------------
/// Tells whether a text holds no line end, nor a part of one.
pub open spec fn is_one_line(s: Seq<char>) -> bool {
    forall|i: int| 0 <= i < s.len() ==> #[trigger] s[i] != '\r' && s[i] != '\n'
}

/// Tells whether a line ends at index `i` of a text and the next line is empty.
pub open spec fn is_blank_at(s: Seq<char>, i: int) -> bool {
    &&& 0 <= i
    &&& i + 4 <= s.len()
    &&& s[i] == '\r'
    &&& s[i + 1] == '\n'
    &&& s[i + 2] == '\r'
    &&& s[i + 3] == '\n'
}

/// Tells whether the only empty line of a text is its last one.
pub open spec fn is_framed(s: Seq<char>) -> bool {
    &&& is_blank_at(s, s.len() - 4)
    &&& forall|i: int| i < s.len() - 4 ==> !#[trigger] is_blank_at(s, i)
}

/// A line end.
spec fn line_end() -> Seq<char> {
    seq!['\r', '\n']
}

/// A line in front of a framed text that does not begin with a line end makes a framed text.
proof fn lemma_framed_line(line: Seq<char>, rest: Seq<char>)
    requires
        is_one_line(line),
        line.len() > 0,
        is_framed(rest),
        rest[0] != '\r',
    ensures
        is_framed(line + line_end() + rest),
        (line + line_end() + rest)[0] != '\r',
{
    let all = line + line_end() + rest;
    let n = line.len() + 2;
    assert(forall|i: int| n <= i < all.len() ==> all[i] == rest[i - n]);
    assert(all[0] == line[0]);
    assert(is_blank_at(all, all.len() - 4));
    assert forall|i: int| i < all.len() - 4 implies !#[trigger] is_blank_at(all, i) by {
        if 0 <= i < line.len() {
            assert(all[i] == line[i]);
        } else if i == line.len() {
            assert(all[i + 2] == rest[0]);
        } else if i == line.len() + 1 {
            assert(all[i] == '\n');
        } else if i >= n {
            assert(!is_blank_at(rest, i - n));
        }
    }
}

/// A line with an empty line behind it is framed.
proof fn lemma_framed_end(line: Seq<char>)
    requires
        is_one_line(line),
        line.len() > 0,
    ensures
        is_framed(line + line_end() + line_end()),
        (line + line_end() + line_end())[0] != '\r',
{
    let all = line + line_end() + line_end();
    assert(all[0] == line[0]);
    assert forall|i: int| i < all.len() - 4 implies !#[trigger] is_blank_at(all, i) by {
        if 0 <= i < line.len() {
            assert(all[i] == line[i]);
        }
    }
}

/// A number in decimal holds no line end.
proof fn lemma_decimal_is_one_line(n: nat)
    ensures
        is_one_line(decimal(n)),
        decimal(n).len() > 0,
    decreases n,
{
    if n >= 10 {
        lemma_decimal_is_one_line(n / 10);
        assert('0' <= digit(n % 10) <= '9');
    } else {
        assert('0' <= digit(n) <= '9');
    }
}

/// The head of a response is framed: the empty line that ends it is its first one, so that the
/// client finds the body just behind the head.
pub proof fn law_head_is_framed(line: Seq<char>, content_type: Seq<char>, length: nat)
    requires
        is_one_line(line),
        line.len() > 0,
        is_one_line(content_type),
    ensures
        is_framed(head(line, header_fields(content_type, length))),
{
    reveal_strlit("\r\n");
    reveal_strlit("Content-Type: ");
    reveal_strlit("\r\nContent-Length: ");
    reveal_strlit("Content-Length: ");
    reveal_strlit("\r\nConnection: close\r\n");
    reveal_strlit("Connection: close");
    let end = line_end();
    let first = "Content-Type: "@ + content_type;
    let second = "Content-Length: "@ + decimal(length);
    let third = "Connection: close"@;
    lemma_decimal_is_one_line(length);
    assert(is_one_line("Content-Type: "@));
    assert(is_one_line("Content-Length: "@));
    assert(is_one_line(third));
    assert forall|i: int| 0 <= i < first.len() implies #[trigger] first[i] != '\r' && first[i]
        != '\n' by {
        if i < "Content-Type: "@.len() {
            assert(first[i] == "Content-Type: "@[i]);
        } else {
            assert(first[i] == content_type[i - "Content-Type: "@.len()]);
        }
    }
    assert forall|i: int| 0 <= i < second.len() implies #[trigger] second[i] != '\r' && second[i]
        != '\n' by {
        if i < "Content-Length: "@.len() {
            assert(second[i] == "Content-Length: "@[i]);
        } else {
            assert(second[i] == decimal(length)[i - "Content-Length: "@.len()]);
        }
    }
    lemma_framed_end(third);
    let tail = third + end + end;
    lemma_framed_line(second, tail);
    lemma_framed_line(first, second + end + tail);
    lemma_framed_line(line, first + end + (second + end + tail));
    assert("\r\n"@ =~= end);
    assert("\r\nContent-Length: "@ =~= end + "Content-Length: "@);
    assert("\r\nConnection: close\r\n"@ =~= end + third + end);
    assert(head(line, header_fields(content_type, length)) =~= line + end + (first + end + (second
        + end + tail)));
}

/// The head that a file is sent with is framed.
pub proof fn law_file_head_is_framed(content_type: Seq<char>, size: nat)
    requires
        is_one_line(content_type),
    ensures
        is_framed(file_head(content_type, size)),
{
    reveal_strlit("HTTP/1.1 200 OK");
    assert(is_one_line("HTTP/1.1 200 OK"@));
    law_head_is_framed("HTTP/1.1 200 OK"@, content_type, size);
}

/// The first line of the reply to an error holds no line end.
proof fn lemma_status_line_is_one_line(code: nat, reason: Seq<char>)
    requires
        is_one_line(reason),
    ensures
        is_one_line(status_line(code, reason)),
        status_line(code, reason).len() > 0,
{
    reveal_strlit("HTTP/1.1 ");
    reveal_strlit(" ");
    lemma_decimal_is_one_line(code);
    assert(is_one_line("HTTP/1.1 "@));
    assert(is_one_line(" "@));
    lemma_one_line_concat("HTTP/1.1 "@, decimal(code));
    lemma_one_line_concat("HTTP/1.1 "@ + decimal(code), " "@);
    lemma_one_line_concat("HTTP/1.1 "@ + decimal(code) + " "@, reason);
}

/// The head that an error page is sent with is framed.
pub proof fn law_error_head_is_framed(code: nat, reason: Seq<char>, length: nat)
    requires
        is_one_line(reason),
    ensures
        is_framed(error_head(code, reason, length)),
{
    reveal_strlit("text/html");
    lemma_status_line_is_one_line(code, reason);
    assert(is_one_line("text/html"@));
    law_head_is_framed(status_line(code, reason), "text/html"@, length);
}

/// The words for an error hold no line end.
pub proof fn law_words_are_one_line(status: ErrorStatus)
    ensures
        is_one_line(status.words()),
{
    reveal_strlit("Bad Request");
    reveal_strlit("Forbidden");
    reveal_strlit("Not Found");
    reveal_strlit("Request Timeout");
    reveal_strlit("Internal Server Error");
    reveal_strlit("Not Implemented");
    reveal_strlit("HTTP Version Not Supported");
}

// ---------------------------------------------------------------------------------------------
// Reading back
// ---------------------------------------------------------------------------------------------
/// Holds for the character that ends a line.
pub open spec fn line_feed() -> spec_fn(char) -> bool {
    |c: char| c == '\n'
}

/// The lines of a text, cut behind each line feed.
pub open spec fn lines_of(s: Seq<char>) -> Seq<Seq<char>> {
    split(s, line_feed())
}

/// The first line of a text is cut off.
proof fn lemma_first_line(line: Seq<char>, rest: Seq<char>)
    requires
        is_one_line(line),
    ensures
        lines_of(line + line_end() + rest) == seq![line.push('\r')] + lines_of(rest),
{
    let front = line.push('\r');
    assert forall|i: int| 0 <= i < front.len() implies !line_feed()(#[trigger] front[i]) by {
        if i < line.len() {
            assert(front[i] == line[i]);
        }
    }
    law_split(front, '\n', rest, line_feed());
    assert(front.push('\n') + rest =~= line + line_end() + rest);
}

/// The head of a response can be read back: cut at its line ends it is the status line, the field
/// with the media type, the field with the length, whose value reads as the length, the field that
/// closes the connection, and an empty line.
pub proof fn law_head_is_read_back(line: Seq<char>, content_type: Seq<char>, length: nat) -> (d: Seq<
    char,
>)
    requires
        is_one_line(line),
        is_one_line(content_type),
    ensures
        forall|max: nat|
            length <= max ==> #[trigger] number(d, max) == Ok::<nat, NumberError>(length),
        lines_of(head(line, header_fields(content_type, length))) == seq![
            line + "\r"@,
            "Content-Type: "@ + content_type + "\r"@,
            "Content-Length: "@ + d + "\r"@,
            "Connection: close\r"@,
            "\r"@,
            ""@,
        ],
{
    reveal_strlit("\r\n");
    reveal_strlit("\r");
    reveal_strlit("");
    reveal_strlit("Content-Type: ");
    reveal_strlit("\r\nContent-Length: ");
    reveal_strlit("Content-Length: ");
    reveal_strlit("\r\nConnection: close\r\n");
    reveal_strlit("Connection: close");
    reveal_strlit("Connection: close\r");
    let end = line_end();
    let d = decimal(length);
    let first = "Content-Type: "@ + content_type;
    let second = "Content-Length: "@ + d;
    let third = "Connection: close"@;
    let none = Seq::<char>::empty();
    law_decimal_has_no_leading_zeros(length);
    assert(is_one_line(d)) by {
        assert forall|i: int| 0 <= i < d.len() implies #[trigger] d[i] != '\r' && d[i] != '\n' by {
            assert('0' <= d[i] <= '9');
        }
    }
    assert forall|max: nat| length <= max implies #[trigger] number(d, max) == Ok::<
        nat,
        NumberError,
    >(length) by {
        law_decimal_is_read_back(length, max);
    }
    assert(is_one_line("Content-Type: "@));
    assert(is_one_line("Content-Length: "@));
    assert(is_one_line(third));
    lemma_one_line_concat("Content-Type: "@, content_type);
    lemma_one_line_concat("Content-Length: "@, d);
    let tail = none + end + none;
    lemma_first_line(none, none);
    lemma_first_line(third, tail);
    lemma_first_line(second, third + end + tail);
    lemma_first_line(first, second + end + (third + end + tail));
    lemma_first_line(line, first + end + (second + end + (third + end + tail)));
    assert("\r\n"@ =~= end);
    assert("\r\nContent-Length: "@ =~= end + "Content-Length: "@);
    assert("\r\nConnection: close\r\n"@ =~= end + third + end);
    assert(head(line, header_fields(content_type, length)) =~= line + end + (first + end + (second
        + end + (third + end + tail))));
    assert(line.push('\r') =~= line + "\r"@);
    assert(first.push('\r') =~= first + "\r"@);
    assert(second.push('\r') =~= second + "\r"@);
    assert(third.push('\r') =~= "Connection: close\r"@);
    assert(none.push('\r') =~= "\r"@);
    assert(""@ =~= none);
    assert(lines_of(none) =~= seq![none]);
    assert(lines_of(head(line, header_fields(content_type, length))) =~= seq![
        line + "\r"@,
        "Content-Type: "@ + content_type + "\r"@,
        "Content-Length: "@ + d + "\r"@,
        "Connection: close\r"@,
        "\r"@,
        ""@,
    ]);
    d
}

/// Two texts without line ends are one.
proof fn lemma_one_line_concat(a: Seq<char>, b: Seq<char>)
    requires
        is_one_line(a),
        is_one_line(b),
    ensures
        is_one_line(a + b),
{
    let all = a + b;
    assert forall|i: int| 0 <= i < all.len() implies #[trigger] all[i] != '\r' && all[i] != '\n' by {
        if i < a.len() {
            assert(all[i] == a[i]);
        } else {
            assert(all[i] == b[i - a.len()]);
        }
    }
}

/// The head that a file is sent with can be read back: it says `200 OK`, the media type and the
/// size.
pub proof fn law_file_head_is_read_back(content_type: Seq<char>, size: nat) -> (d: Seq<char>)
    requires
        is_one_line(content_type),
    ensures
        forall|max: nat| size <= max ==> #[trigger] number(d, max) == Ok::<nat, NumberError>(size),
        lines_of(file_head(content_type, size)) == seq![
            "HTTP/1.1 200 OK"@ + "\r"@,
            "Content-Type: "@ + content_type + "\r"@,
            "Content-Length: "@ + d + "\r"@,
            "Connection: close\r"@,
            "\r"@,
            ""@,
        ],
{
    reveal_strlit("HTTP/1.1 200 OK");
    assert(is_one_line("HTTP/1.1 200 OK"@));
    law_head_is_read_back("HTTP/1.1 200 OK"@, content_type, size)
}

/// The first line of a response can be read back: behind the version stand the number and the words
/// of the status.
pub proof fn law_status_line_is_read_back(code: nat, reason: Seq<char>) -> (d: Seq<char>)
    ensures
        forall|max: nat| code <= max ==> #[trigger] number(d, max) == Ok::<nat, NumberError>(code),
        status_line(code, reason) == "HTTP/1.1 "@ + d + " "@ + reason,
        words(status_line(code, reason)) == seq!["HTTP/1.1"@, d] + words(reason),
{
    let d = decimal(code);
    assert forall|max: nat| code <= max implies #[trigger] number(d, max) == Ok::<
        nat,
        NumberError,
    >(code) by {
        law_decimal_is_read_back(code, max);
    }
    reveal_strlit("HTTP/1.1 ");
    reveal_strlit("HTTP/1.1");
    reveal_strlit(" ");
    law_decimal_has_no_leading_zeros(code);
    assert forall|i: int| 0 <= i < d.len() implies !is_whitespace(#[trigger] d[i]) by {
        assert('0' <= d[i] <= '9');
    }
    let version = "HTTP/1.1"@;
    law_word_is_itself(version);
    law_word_is_itself(d);
    law_words_of_two_texts(d, ' ', reason);
    law_words_of_two_texts(version, ' ', d.push(' ') + reason);
    assert(status_line(code, reason) =~= version.push(' ') + (d.push(' ') + reason));
    assert(words(status_line(code, reason)) =~= seq![version, d] + words(reason));
    d
}

/// The head that an error page is sent with can be read back: it says the number and the words of
/// the error, and the length of the page.
pub proof fn law_error_head_is_read_back(code: nat, reason: Seq<char>, length: nat) -> (r: (
    Seq<char>,
    Seq<char>,
))
    requires
        is_one_line(reason),
    ensures
        forall|max: nat|
            code <= max ==> #[trigger] number(r.0, max) == Ok::<nat, NumberError>(code),
        forall|max: nat|
            length <= max ==> #[trigger] number(r.1, max) == Ok::<nat, NumberError>(length),
        lines_of(error_head(code, reason, length)) == seq![
            "HTTP/1.1 "@ + r.0 + " "@ + reason + "\r"@,
            "Content-Type: "@ + "text/html"@ + "\r"@,
            "Content-Length: "@ + r.1 + "\r"@,
            "Connection: close\r"@,
            "\r"@,
            ""@,
        ],
{
    reveal_strlit("HTTP/1.1 ");
    reveal_strlit(" ");
    reveal_strlit("text/html");
    let c = law_status_line_is_read_back(code, reason);
    lemma_status_line_is_one_line(code, reason);
    assert(is_one_line("text/html"@));
    let d = law_head_is_read_back(status_line(code, reason), "text/html"@, length);
    (c, d)
}

/// Holds for the characters that open and close a tag.
pub open spec fn bracket() -> spec_fn(char) -> bool {
    |c: char| c == '<' || c == '>'
}

/// The tags and texts of a page, in order.
pub open spec fn html_pieces(page: Seq<char>) -> Seq<Seq<char>> {
    kept(split(page, bracket()), some_text())
}

/// Tells whether a text holds no bracket.
pub open spec fn is_plain_text(s: Seq<char>) -> bool {
    forall|i: int| 0 <= i < s.len() ==> #[trigger] s[i] != '<' && s[i] != '>'
}

proof fn lemma_piece(t: Seq<char>, x: char, rest: Seq<char>)
    requires
        is_plain_text(t),
        x == '<' || x == '>',
    ensures
        html_pieces(t.push(x) + rest) == (if t.len() > 0 {
            seq![t]
        } else {
            Seq::empty()
        }) + html_pieces(rest),
{
    assert forall|i: int| 0 <= i < t.len() implies !bracket()(#[trigger] t[i]) by {
        assert(t[i] != '<');
    }
    law_split(t, x, rest, bracket());
    lemma_kept_concat(seq![t], split(rest, bracket()), some_text());
    reveal_with_fuel(kept, 2);
    assert(seq![t].drop_last() =~= Seq::<Seq<char>>::empty());
    assert(kept(seq![t], some_text()) =~= if t.len() > 0 {
        seq![t]
    } else {
        Seq::empty()
    });
}

proof fn lemma_tag(t: Seq<char>, tag: Seq<char>, name: Seq<char>, rest: Seq<char>)
    requires
        is_plain_text(t),
        is_plain_text(name),
        name.len() > 0,
        tag == seq!['<'] + name + seq!['>'],
    ensures
        html_pieces(t + (tag + rest)) == (if t.len() > 0 {
            seq![t, name]
        } else {
            seq![name]
        }) + html_pieces(rest),
{
    let inner = name.push('>') + rest;
    lemma_piece(name, '>', rest);
    lemma_piece(t, '<', inner);
    assert(t.push('<') + inner =~= t + (tag + rest));
    assert(html_pieces(t + (tag + rest)) =~= (if t.len() > 0 {
        seq![t, name]
    } else {
        seq![name]
    }) + html_pieces(rest));
}

/// The tags in front of the title.
proof fn lemma_page_front(rest: Seq<char>)
    ensures
        html_pieces("<html><head><title>"@ + rest) == seq!["html"@, "head"@, "title"@]
            + html_pieces(rest),
{
    reveal_strlit("<html><head><title>");
    reveal_strlit("html");
    reveal_strlit("head");
    reveal_strlit("title");
    let none = Seq::<char>::empty();
    let a = seq!['<'] + "html"@ + seq!['>'];
    let b = seq!['<'] + "head"@ + seq!['>'];
    let c = seq!['<'] + "title"@ + seq!['>'];
    lemma_tag(none, c, "title"@, rest);
    lemma_tag(none, b, "head"@, none + (c + rest));
    lemma_tag(none, a, "html"@, none + (b + (none + (c + rest))));
    assert("<html><head><title>"@ =~= a + b + c);
    assert("<html><head><title>"@ + rest =~= none + (a + (none + (b + (none + (c + rest))))));
    assert(html_pieces("<html><head><title>"@ + rest) =~= seq!["html"@, "head"@, "title"@]
        + html_pieces(rest));
}

/// The tags between the title and the heading.
proof fn lemma_page_middle(t: Seq<char>, rest: Seq<char>)
    requires
        is_plain_text(t),
        t.len() > 0,
    ensures
        html_pieces(t + ("</title></head><body><h1>"@ + rest)) == seq![
            t,
            "/title"@,
            "/head"@,
            "body"@,
            "h1"@,
        ] + html_pieces(rest),
{
    reveal_strlit("</title></head><body><h1>");
    reveal_strlit("/title");
    reveal_strlit("/head");
    reveal_strlit("body");
    reveal_strlit("h1");
    let none = Seq::<char>::empty();
    let a = seq!['<'] + "/title"@ + seq!['>'];
    let b = seq!['<'] + "/head"@ + seq!['>'];
    let c = seq!['<'] + "body"@ + seq!['>'];
    let d = seq!['<'] + "h1"@ + seq!['>'];
    let p = none + (d + rest);
    let q = none + (c + p);
    let r = none + (b + q);
    lemma_tag(none, d, "h1"@, rest);
    lemma_tag(none, c, "body"@, p);
    lemma_tag(none, b, "/head"@, q);
    lemma_tag(t, a, "/title"@, r);
    assert("</title></head><body><h1>"@ =~= a + b + c + d);
    assert("</title></head><body><h1>"@ + rest =~= a + r);
    assert(html_pieces(t + (a + r)) =~= seq![t, "/title"@, "/head"@, "body"@, "h1"@] + html_pieces(
        rest,
    ));
}

/// The tags behind the heading.
proof fn lemma_page_end(t: Seq<char>)
    requires
        is_plain_text(t),
        t.len() > 0,
    ensures
        html_pieces(t + "</h1></body></html>"@) == seq![t, "/h1"@, "/body"@, "/html"@],
{
    reveal_strlit("</h1></body></html>");
    reveal_strlit("/h1");
    reveal_strlit("/body");
    reveal_strlit("/html");
    let none = Seq::<char>::empty();
    let a = seq!['<'] + "/h1"@ + seq!['>'];
    let b = seq!['<'] + "/body"@ + seq!['>'];
    let c = seq!['<'] + "/html"@ + seq!['>'];
    let p = none + (c + none);
    let q = none + (b + p);
    lemma_tag(none, c, "/html"@, none);
    lemma_tag(none, b, "/body"@, p);
    lemma_tag(t, a, "/h1"@, q);
    reveal_with_fuel(kept, 2);
    assert(html_pieces(none) =~= Seq::<Seq<char>>::empty());
    assert("</h1></body></html>"@ =~= a + b + c);
    assert("</h1></body></html>"@ =~= a + q);
    assert(html_pieces(t + (a + q)) =~= seq![t, "/h1"@, "/body"@, "/html"@]);
}

/// The page for an error can be read back: its title and its heading are the number and the words
/// of the error.
pub proof fn law_error_page_is_read_back(code: nat, reason: Seq<char>) -> (d: Seq<char>)
    requires
        is_plain_text(reason),
    ensures
        forall|max: nat| code <= max ==> #[trigger] number(d, max) == Ok::<nat, NumberError>(code),
        html_pieces(error_page(code, reason)) == seq![
            "html"@,
            "head"@,
            "title"@,
            d + " "@ + reason,
            "/title"@,
            "/head"@,
            "body"@,
            "h1"@,
            d + " "@ + reason,
            "/h1"@,
            "/body"@,
            "/html"@,
        ],
{
    let d = decimal(code);
    assert forall|max: nat| code <= max implies #[trigger] number(d, max) == Ok::<
        nat,
        NumberError,
    >(code) by {
        law_decimal_is_read_back(code, max);
    }
    reveal_strlit(" ");
    law_decimal_has_no_leading_zeros(code);
    let t = d + " "@ + reason;
    assert(is_plain_text(t)) by {
        assert forall|i: int| 0 <= i < t.len() implies #[trigger] t[i] != '<' && t[i] != '>' by {
            if i < d.len() {
                assert('0' <= d[i] <= '9');
            } else if i > d.len() {
                assert(t[i] == reason[i - d.len() - 1]);
            }
        }
    }
    let end = t + "</h1></body></html>"@;
    let rest = t + ("</title></head><body><h1>"@ + end);
    lemma_page_end(t);
    lemma_page_middle(t, end);
    lemma_page_front(rest);
    assert(error_page(code, reason) =~= "<html><head><title>"@ + rest);
    assert(html_pieces(error_page(code, reason)) =~= seq![
        "html"@,
        "head"@,
        "title"@,
        t,
        "/title"@,
        "/head"@,
        "body"@,
        "h1"@,
        t,
        "/h1"@,
        "/body"@,
        "/html"@,
    ]);
    d
}

/// The name of the file that holds a site's own page for an error is the number of the error, with
/// `.html` behind it.
pub proof fn law_page_name_is_read_back(code: nat)
    ensures
        ({
            let name = page_name(code);
            let n = name.len() - 5;
            &&& n > 0
            &&& name.skip(n) == ".html"@
            &&& number(name.take(n), code) == Ok::<nat, NumberError>(code)
            &&& name[0] == '0' ==> code == 0
        }),
{
    reveal_strlit(".html");
    let name = page_name(code);
    law_decimal_has_no_leading_zeros(code);
    law_decimal_is_read_back(code, code);
    assert(name.skip(name.len() - 5) =~= ".html"@);
    assert(name.take(name.len() - 5) =~= decimal(code));
}

/// What is written before the body of a response holds the status line and the header fields in
/// full, whatever they are, with the same line ends around them.
pub proof fn law_head_holds_line_and_fields()
    ensures
        has_two_gaps(|line: Seq<char>, fields: Seq<char>| head(line, fields)),
{
    let none = Seq::<char>::empty();
    let f = |line: Seq<char>, fields: Seq<char>| head(line, fields);
    assert(is_two_gaps(f, none, "\r\n"@, "\r\n"@)) by {
        assert forall|x: Seq<char>, y: Seq<char>| #[trigger] f(x, y) == none + x + "\r\n"@ + y
            + "\r\n"@ by {
            assert(f(x, y) =~= none + x + "\r\n"@ + y + "\r\n"@);
        }
    }
}

} // verus!

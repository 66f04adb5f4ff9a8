//! A connection, from its first byte to its last.
//!
//! The server does one outside action at a time (it sets a timeout, reads the request line, asks
//! the file system, sends bytes) and hands back what came of it. What to do next, and what to
//! write to the log, is decided here.
use crate::messages::{
    body_failed, client_left, directory_requested, file_missing, file_served, file_undescribed,
    head_failed, head_served, line_failed, line_malformed, line_timed_out, make_body_failed,
    make_client_left, make_directory_requested, make_file_missing, make_file_served,
    make_file_undescribed, make_head_failed, make_head_served, make_line_failed,
    make_line_malformed, make_line_timed_out, make_method_unsupported, make_open_failed,
    make_outside_root, make_request_received, make_root_unresolved, make_target_unresolved,
    make_timeout_refused, make_version_unsupported, method_unsupported, open_failed, outside_root,
    request_received, root_unresolved, target_unresolved, timeout_refused, version_unsupported,
};
use crate::outside::{ascii_lowered, guess_media_type, media_type, show_bytes, shown};
use crate::paths::{extension, pushed, starts_with, FsPath};
use crate::request::{
    locate, parse_request_line, requested_path, served_version, Method, RequestLine,
};
use crate::response::{
    error_head, error_page, file_head, has_page, is_one_line, make_file_head, make_page_name,
    may_have_page, page_name, ErrorStatus, Reply,
};
use crate::text::{texts, trim, trimmed, words};
use vstd::pervasive::unreached;
use vstd::prelude::*;
use vstd::string::*;
use vstd::utf8::*;

verus! {

/// The kinds of failures that are told apart.
#[derive(Clone, Copy, PartialEq, Eq, Debug, Structural)]
pub enum IoKind {
    /// There is no such file.
    NotFound,
    /// The file may not be read.
    PermissionDenied,
    /// Nothing came while waiting was not allowed any longer.
    WouldBlock,
    /// The time ran out.
    TimedOut,
    /// A signal came in between.
    Interrupted,
    /// The other side is gone.
    BrokenPipe,
    /// Anything else.
    Other,
}

/// A failed outside action.
#[derive(Debug)]
pub struct IoFailure {
    /// What kind of failure it is.
    pub kind: IoKind,
    /// The failure in words.
    pub text: String,
}

/// What came of an outside action.
#[derive(Debug)]
pub enum Event {
    /// The read timeout is set.
    TimeoutSet,
    /// The read timeout could not be set, for the given reason.
    TimeoutRefused(String),
    /// This line was read, its line end included if it had one.
    LineRead(String),
    /// The client closed the connection before it sent anything.
    LineEnded,
    /// No line could be read.
    LineFailed(IoFailure),
    /// This is the path without links and detours.
    Resolved(FsPath),
    /// The path could not be resolved, for the given reason.
    Unresolved(String),
    /// The path is a directory, or it is not.
    Probed(bool),
    /// The file is open.
    Opened {
        /// Whether it is a directory.
        is_dir: bool,
        /// How many bytes it holds.
        size: u64,
    },
    /// The file could not be opened.
    NotOpened(IoFailure),
    /// The file is open, and nothing could be learned about it, for the given reason.
    NotDescribed(String),
    /// The head of the response was sent.
    HeadSent,
    /// The head of the response could not be sent, for the given reason.
    HeadFailed(String),
    /// The body of the response was sent to its end.
    BodySent,
    /// The body of the response could not be sent to its end, for the given reason.
    BodyFailed(String),
    /// This is what the file with the error page holds.
    PageRead(Vec<u8>),
    /// The file with the error page could not be read.
    PageUnread,
}

/// The next outside action.
#[derive(Debug)]
pub enum Action {
    /// Set the read timeout to so many seconds.
    SetReadTimeout(u64),
    /// Read a line from the client.
    ReadLine,
    /// Find the path without links and detours.
    Resolve(FsPath),
    /// Find out whether the path is a directory.
    Probe(FsPath),
    /// Open the file, and find out whether it is a directory and how large it is.
    Open(FsPath),
    /// Send this head of a response.
    SendHead(String),
    /// Send the open file as the body of a response.
    SendFile,
    /// Read the whole file.
    ReadPage(FsPath),
    /// Send these bytes as the body of a response.
    SendBody(Vec<u8>),
    /// Close the connection.
    Close,
}

/// What is to be done: first the log, then the action.
#[derive(Debug)]
pub struct Output {
    /// The lines for the log.
    pub log: Vec<String>,
    /// The action.
    pub action: Action,
}

/// What stays the same while a request is served.
#[derive(Debug)]
pub struct Context {
    /// The address of the client.
    pub peer: String,
    /// The root directory as it was configured.
    pub root_dir: FsPath,
    /// The target of the request, once there is one.
    pub target: String,
    /// Whether the request asks for the head of a response alone.
    pub head_only: bool,
}

/// What a connection waits for.
#[derive(Debug)]
pub enum Stage {
    /// The read timeout.
    AwaitTimeout,
    /// The request line.
    AwaitLine,
    /// The root directory without links and detours, before the requested path.
    AwaitRoot {
        /// The requested path.
        path: FsPath,
    },
    /// The requested path without links and detours.
    AwaitTarget {
        /// The root directory without links and detours.
        root: FsPath,
        /// The requested path.
        path: FsPath,
    },
    /// Whether the path is a directory.
    AwaitProbe {
        /// The root directory without links and detours.
        root: FsPath,
        /// The path, under the root directory.
        path: FsPath,
    },
    /// The index of a directory without links and detours.
    AwaitIndex {
        /// The root directory without links and detours.
        root: FsPath,
        /// The path of the index.
        path: FsPath,
    },
    /// The file.
    AwaitFile {
        /// The path of the file.
        path: FsPath,
    },
    /// The head of the response for a file to be sent.
    AwaitHead {
        /// The path of the file.
        path: FsPath,
        /// The media type of the file.
        media: String,
        /// The size of the file.
        size: u64,
    },
    /// The file to be sent.
    AwaitBody {
        /// The path of the file.
        path: FsPath,
        /// The media type of the file.
        media: String,
        /// The size of the file.
        size: u64,
    },
    /// The path of a site's own error page without links and detours.
    AwaitPage {
        /// The number of the error.
        code: u16,
        /// The words for the error.
        reason: String,
    },
    /// The root directory without links and detours, after the path of the error page.
    AwaitPageRoot {
        /// The number of the error.
        code: u16,
        /// The words for the error.
        reason: String,
        /// The path of the error page without links and detours.
        page: FsPath,
    },
    /// The error page.
    AwaitContents {
        /// The number of the error.
        code: u16,
        /// The words for the error.
        reason: String,
    },
    /// The head of the reply to an error to be sent.
    AwaitErrorHead {
        /// The page of the reply.
        contents: Vec<u8>,
    },
    /// The page of the reply to an error to be sent.
    AwaitErrorBody,
    /// Nothing any more.
    Closed,
}

/// A connection with a client.
#[derive(Debug)]
pub struct Connection {
    /// What is known about the request.
    pub context: Context,
    /// What the connection waits for.
    pub stage: Stage,
}

// ---------------------------------------------------------------------------------------------
// The rules
// ---------------------------------------------------------------------------------------------
/// The media type that a file is sent with.
pub open spec fn media_of(path: Seq<u8>) -> Seq<char> {
    match extension(path) {
        None => "application/octet-stream"@,
        Some(ext) => media_type(ascii_lowered(ext)),
    }
}

/// The path of the file that is sent for a directory.
pub open spec fn index_of(path: Seq<u8>) -> Seq<u8> {
    pushed(path, encode_utf8("index.html"@))
}

/// The path of a site's own page for an error.
pub open spec fn page_path(root: Seq<u8>, code: u16) -> Seq<u8> {
    pushed(root, encode_utf8(page_name(code as nat)))
}

/// The page for an error that has no page of its own, as it is sent.
pub open spec fn default_body(code: u16, reason: Seq<char>) -> Seq<u8> {
    encode_utf8(error_page(code as nat, reason))
}

impl Context {
    /// Tells whether two contexts are the same in all they say.
    pub open spec fn same(self, other: Context) -> bool {
        &&& self.same_client(other)
        &&& self.target@ == other.target@
        &&& self.head_only == other.head_only
    }

    /// Tells whether two contexts are of the same client and root directory.
    pub open spec fn same_client(self, other: Context) -> bool {
        &&& self.peer@ == other.peer@
        &&& self.root_dir@ == other.root_dir@
    }
}

impl Stage {
    /// Tells whether an event is an answer to what is waited for.
    pub open spec fn expects(self, event: Event) -> bool {
        match self {
            Stage::AwaitTimeout => event is TimeoutSet || event is TimeoutRefused,
            Stage::AwaitLine => event is LineRead || event is LineEnded || event is LineFailed,
            Stage::AwaitRoot { .. } => event is Resolved || event is Unresolved,
            Stage::AwaitTarget { .. } => event is Resolved || event is Unresolved,
            Stage::AwaitProbe { .. } => event is Probed,
            Stage::AwaitIndex { .. } => event is Resolved || event is Unresolved,
            Stage::AwaitFile { .. } => event is Opened || event is NotOpened || event
                is NotDescribed,
            Stage::AwaitHead { .. } => event is HeadSent || event is HeadFailed,
            Stage::AwaitBody { .. } => event is BodySent || event is BodyFailed,
            Stage::AwaitPage { .. } => event is Resolved || event is Unresolved,
            Stage::AwaitPageRoot { .. } => event is Resolved || event is Unresolved,
            Stage::AwaitContents { .. } => event is PageRead || event is PageUnread,
            Stage::AwaitErrorHead { .. } => event is HeadSent || event is HeadFailed,
            Stage::AwaitErrorBody => event is BodySent || event is BodyFailed,
            Stage::Closed => false,
        }
    }
}

impl Output {
    /// Tells whether the lines for the log are the given ones.
    pub open spec fn logs(self, lines: Seq<Seq<char>>) -> bool {
        texts(self.log@) == lines
    }

    /// Tells whether the connection is closed.
    pub open spec fn closes(self, after: Connection) -> bool {
        &&& self.action is Close
        &&& after.stage is Closed
    }

    /// Tells whether a file is opened.
    pub open spec fn opens(self, after: Connection, path: Seq<u8>) -> bool {
        &&& self.action matches Action::Open(p) && p@ == path
        &&& after.stage matches Stage::AwaitFile { path: q } && q@ == path
    }

    /// Tells whether the reply to an error with a given page is begun: its head is sent.
    pub open spec fn replies(
        self,
        after: Connection,
        code: u16,
        reason: Seq<char>,
        page: Seq<u8>,
    ) -> bool {
        &&& self.action matches Action::SendHead(head) && head@ == error_head(
            code as nat,
            reason,
            page.len(),
        )
        &&& after.stage matches Stage::AwaitErrorHead { contents } && contents@ == page
    }

    /// Tells whether an error reply is begun: with a look for the site's own page where there may
    /// be one, else at once.
    pub open spec fn refuses(
        self,
        after: Connection,
        root_dir: Seq<u8>,
        code: u16,
        reason: Seq<char>,
    ) -> bool {
        if may_have_page(code) {
            &&& self.action matches Action::Resolve(page) && page@ == page_path(root_dir, code)
            &&& after.stage matches Stage::AwaitPage { code: c, reason: r } && c == code && r@
                == reason
        } else {
            self.replies(after, code, reason, default_body(code, reason))
        }
    }

    /// [`Output::refuses`] for one of the errors of a connection.
    pub open spec fn refuses_with(
        self,
        after: Connection,
        root_dir: Seq<u8>,
        status: ErrorStatus,
    ) -> bool {
        self.refuses(after, root_dir, status.number(), status.words())
    }
}

/// The start of a connection with a client whose address may not be known.
pub open spec fn begins(
    peer: Option<Seq<char>>,
    root_dir: Seq<u8>,
    read_timeout_secs: u64,
    after: Connection,
    out: Output,
) -> bool {
    &&& after.stage is AwaitTimeout
    &&& after.context.peer@ == match peer {
        Some(address) => address,
        None => "unknown"@,
    }
    &&& after.context.root_dir@ == root_dir
    &&& after.context.target@ == Seq::<char>::empty()
    &&& !after.context.head_only
    &&& out.logs(Seq::empty())
    &&& out.action == Action::SetReadTimeout(read_timeout_secs)
}

/// What follows when the read timeout was set or not: the line is read either way.
pub open spec fn follows_timeout(c: Context, event: Event, after: Connection, out: Output) -> bool {
    &&& after.context.same(c)
    &&& after.stage is AwaitLine
    &&& out.action is ReadLine
    &&& match event {
        Event::TimeoutRefused(error) => out.logs(seq![timeout_refused(c.peer@, error@)]),
        _ => out.logs(Seq::empty()),
    }
}

/// What follows a request line: an error reply where it cannot be served, else the search for the
/// file.
pub open spec fn follows_line(c: Context, event: Event, after: Connection, out: Output) -> bool {
    match event {
        Event::LineRead(line) => {
            let parts = words(trimmed(line@));
            if parts.len() != 3 {
                &&& after.context.same(c)
                &&& out.logs(seq![line_malformed(c.peer@, trimmed(line@))])
                &&& out.refuses_with(after, c.root_dir@, ErrorStatus::BadRequest)
            } else if parts[2] != served_version() {
                &&& after.context.same(c)
                &&& out.logs(seq![version_unsupported(c.peer@, parts[2])])
                &&& out.refuses_with(after, c.root_dir@, ErrorStatus::HttpVersionNotSupported)
            } else if Method::named(parts[0]) == Method::Other {
                &&& after.context.same(c)
                &&& out.logs(
                    seq![
                        request_received(parts[0], parts[1], c.peer@),
                        method_unsupported(parts[0], c.peer@),
                    ],
                )
                &&& out.refuses_with(after, c.root_dir@, ErrorStatus::NotImplemented)
            } else {
                &&& after.context.same_client(c)
                &&& after.context.target@ == parts[1]
                &&& after.context.head_only == (Method::named(parts[0]) == Method::Head)
                &&& out.logs(seq![request_received(parts[0], parts[1], c.peer@)])
                &&& out.action matches Action::Resolve(root) && root@ == c.root_dir@
                &&& after.stage matches Stage::AwaitRoot { path } && path@ == requested_path(
                    c.root_dir@,
                    parts[1],
                )
            }
        },
        Event::LineFailed(failure) if failure.kind == IoKind::WouldBlock || failure.kind
            == IoKind::TimedOut => {
            &&& after.context.same(c)
            &&& out.logs(seq![line_timed_out(c.peer@)])
            &&& out.refuses_with(after, c.root_dir@, ErrorStatus::RequestTimeout)
        },
        Event::LineFailed(failure) => {
            &&& after.context.same(c)
            &&& out.logs(seq![line_failed(c.peer@, failure.text@)])
            &&& out.closes(after)
        },
        _ => {
            &&& after.context.same(c)
            &&& out.logs(seq![client_left(c.peer@)])
            &&& out.closes(after)
        },
    }
}

/// What follows the look for the root directory: the same for the requested path.
pub open spec fn follows_root(
    c: Context,
    path: Seq<u8>,
    event: Event,
    after: Connection,
    out: Output,
) -> bool {
    &&& after.context.same(c)
    &&& match event {
        Event::Resolved(root) => {
            &&& out.logs(Seq::empty())
            &&& out.action matches Action::Resolve(p) && p@ == path
            &&& after.stage matches Stage::AwaitTarget { root: r, path: q } && r@ == root@ && q@
                == path
        },
        Event::Unresolved(error) => {
            &&& out.logs(seq![root_unresolved(shown(c.root_dir@), error@)])
            &&& out.refuses_with(after, c.root_dir@, ErrorStatus::InternalServerError)
        },
        _ => false,
    }
}

/// What follows the look for the requested path, which is taken as it is if it could not be
/// resolved: it is refused unless it lies under the root directory.
pub open spec fn follows_target(
    c: Context,
    root: Seq<u8>,
    path: Seq<u8>,
    event: Event,
    after: Connection,
    out: Output,
) -> bool {
    let target = match event {
        Event::Resolved(p) => p@,
        _ => path,
    };
    let notes = match event {
        Event::Unresolved(error) => seq![target_unresolved(shown(path), error@)],
        _ => Seq::<Seq<char>>::empty(),
    };
    &&& after.context.same(c)
    &&& if starts_with(target, root) {
        &&& out.logs(notes)
        &&& out.action matches Action::Probe(p) && p@ == target
        &&& after.stage matches Stage::AwaitProbe { root: r, path: q } && r@ == root && q@ == target
    } else {
        &&& out.logs(notes.push(outside_root(c.target@, shown(target))))
        &&& out.refuses_with(after, c.root_dir@, ErrorStatus::Forbidden)
    }
}

/// What follows the answer whether the path is a directory: the file is opened, or the index of
/// the directory is looked for.
pub open spec fn follows_probe(
    c: Context,
    root: Seq<u8>,
    path: Seq<u8>,
    event: Event,
    after: Connection,
    out: Output,
) -> bool {
    &&& after.context.same(c)
    &&& out.logs(Seq::empty())
    &&& match event {
        Event::Probed(true) => {
            &&& out.action matches Action::Resolve(p) && p@ == index_of(path)
            &&& after.stage matches Stage::AwaitIndex { root: r, path: q } && r@ == root && q@
                == index_of(path)
        },
        _ => out.opens(after, path),
    }
}

/// What follows the look for the index of a directory: it is opened, unless it leads out of the
/// root directory.
pub open spec fn follows_index(
    c: Context,
    root: Seq<u8>,
    path: Seq<u8>,
    event: Event,
    after: Connection,
    out: Output,
) -> bool {
    &&& after.context.same(c)
    &&& match event {
        Event::Resolved(p) if !starts_with(p@, root) => {
            &&& out.logs(seq![outside_root(c.target@, shown(p@))])
            &&& out.refuses_with(after, c.root_dir@, ErrorStatus::Forbidden)
        },
        _ => {
            &&& out.logs(Seq::empty())
            &&& out.opens(after, path)
        },
    }
}

/// What follows the attempt to open the file: the head of the response for it, or an error reply.
pub open spec fn follows_file(
    c: Context,
    path: Seq<u8>,
    event: Event,
    after: Connection,
    out: Output,
) -> bool {
    &&& after.context.same(c)
    &&& match event {
        Event::Opened { is_dir: true, .. } => {
            &&& out.logs(seq![directory_requested(shown(path))])
            &&& out.refuses_with(after, c.root_dir@, ErrorStatus::Forbidden)
        },
        Event::Opened { size, .. } => {
            &&& out.logs(Seq::empty())
            &&& out.action matches Action::SendHead(h) && h@ == file_head(
                media_of(path),
                size as nat,
            )
            &&& after.stage matches Stage::AwaitHead { path: p, media, size: s } && p@ == path
                && media@ == media_of(path) && s == size
            &&& is_one_line(media_of(path))
        },
        Event::NotDescribed(error) => {
            &&& out.logs(seq![file_undescribed(shown(path), error@)])
            &&& out.refuses_with(after, c.root_dir@, ErrorStatus::InternalServerError)
        },
        Event::NotOpened(failure) if failure.kind == IoKind::NotFound || failure.kind
            == IoKind::PermissionDenied => {
            &&& out.logs(seq![file_missing(shown(path))])
            &&& out.refuses_with(after, c.root_dir@, ErrorStatus::NotFound)
        },
        Event::NotOpened(failure) => {
            &&& out.logs(seq![open_failed(shown(path), failure.text@)])
            &&& out.refuses_with(after, c.root_dir@, ErrorStatus::InternalServerError)
        },
        _ => false,
    }
}

/// What follows the head of the response: the file, unless the request asks for the head alone.
pub open spec fn follows_head(
    c: Context,
    path: Seq<u8>,
    media: Seq<char>,
    size: u64,
    event: Event,
    after: Connection,
    out: Output,
) -> bool {
    &&& after.context.same(c)
    &&& match event {
        Event::HeadFailed(error) => {
            &&& out.logs(seq![head_failed(shown(path), error@)])
            &&& out.closes(after)
        },
        _ => if c.head_only {
            &&& out.logs(seq![head_served(shown(path), media, size as nat)])
            &&& out.closes(after)
        } else {
            &&& out.logs(Seq::empty())
            &&& out.action is SendFile
            &&& after.stage matches Stage::AwaitBody { path: p, media: m, size: s } && p@ == path
                && m@ == media && s == size
        },
    }
}

/// What follows the file: the end.
pub open spec fn follows_body(
    c: Context,
    path: Seq<u8>,
    media: Seq<char>,
    size: u64,
    event: Event,
    after: Connection,
    out: Output,
) -> bool {
    &&& after.context.same(c)
    &&& out.closes(after)
    &&& match event {
        Event::BodyFailed(error) => out.logs(seq![body_failed(shown(path), error@)]),
        _ => out.logs(seq![file_served(shown(path), media, size as nat)]),
    }
}

/// What follows the look for a site's own error page: the look for the root directory, or the reply
/// without such a page.
pub open spec fn follows_page(
    c: Context,
    code: u16,
    reason: Seq<char>,
    event: Event,
    after: Connection,
    out: Output,
) -> bool {
    &&& after.context.same(c)
    &&& out.logs(Seq::empty())
    &&& match event {
        Event::Resolved(page) => {
            &&& out.action matches Action::Resolve(root) && root@ == c.root_dir@
            &&& after.stage matches Stage::AwaitPageRoot { code: n, reason: r, page: p } && n
                == code && r@ == reason && p@ == page@
        },
        _ => out.replies(after, code, reason, default_body(code, reason)),
    }
}

/// What follows the look for the root directory, which is taken as it is configured if it could
/// not be resolved: the page is read if it lies under the root directory.
pub open spec fn follows_page_root(
    c: Context,
    code: u16,
    reason: Seq<char>,
    page: Seq<u8>,
    event: Event,
    after: Connection,
    out: Output,
) -> bool {
    let root = match event {
        Event::Resolved(r) => r@,
        _ => c.root_dir@,
    };
    &&& after.context.same(c)
    &&& out.logs(Seq::empty())
    &&& if starts_with(page, root) {
        &&& out.action matches Action::ReadPage(p) && p@ == page
        &&& after.stage matches Stage::AwaitContents { code: n, reason: r } && n == code && r@
            == reason
    } else {
        out.replies(after, code, reason, default_body(code, reason))
    }
}

/// What follows a site's own error page: the reply that shows it, or the one without it.
pub open spec fn follows_contents(
    c: Context,
    code: u16,
    reason: Seq<char>,
    event: Event,
    after: Connection,
    out: Output,
) -> bool {
    &&& after.context.same(c)
    &&& out.logs(Seq::empty())
    &&& match event {
        Event::PageRead(contents) => out.replies(after, code, reason, contents@),
        _ => out.replies(after, code, reason, default_body(code, reason)),
    }
}

/// What follows the head of the reply to an error: its page, unless the head could not be sent or
/// the request asks for the head alone.
pub open spec fn follows_error_head(
    c: Context,
    page: Seq<u8>,
    event: Event,
    after: Connection,
    out: Output,
) -> bool {
    &&& after.context.same(c)
    &&& out.logs(Seq::empty())
    &&& if event is HeadSent && !c.head_only {
        &&& out.action matches Action::SendBody(body) && body@ == page
        &&& after.stage is AwaitErrorBody
    } else {
        out.closes(after)
    }
}

/// What follows the page of the reply to an error, whatever came of it: the end.
pub open spec fn follows_error_body(c: Context, after: Connection, out: Output) -> bool {
    &&& after.context.same(c)
    &&& out.logs(Seq::empty())
    &&& out.closes(after)
}

/// The rules of a connection: what follows an event, and what is to be done.
pub open spec fn follows(before: Connection, event: Event, after: Connection, out: Output) -> bool {
    let c = before.context;
    match before.stage {
        Stage::AwaitTimeout => follows_timeout(c, event, after, out),
        Stage::AwaitLine => follows_line(c, event, after, out),
        Stage::AwaitRoot { path } => follows_root(c, path@, event, after, out),
        Stage::AwaitTarget { root, path } => follows_target(c, root@, path@, event, after, out),
        Stage::AwaitProbe { root, path } => follows_probe(c, root@, path@, event, after, out),
        Stage::AwaitIndex { root, path } => follows_index(c, root@, path@, event, after, out),
        Stage::AwaitFile { path } => follows_file(c, path@, event, after, out),
        Stage::AwaitHead { path, media, size } => follows_head(
            c,
            path@,
            media@,
            size,
            event,
            after,
            out,
        ),
        Stage::AwaitBody { path, media, size } => follows_body(
            c,
            path@,
            media@,
            size,
            event,
            after,
            out,
        ),
        Stage::AwaitPage { code, reason } => follows_page(c, code, reason@, event, after, out),
        Stage::AwaitPageRoot { code, reason, page } => follows_page_root(
            c,
            code,
            reason@,
            page@,
            event,
            after,
            out,
        ),
        Stage::AwaitContents { code, reason } => follows_contents(
            c,
            code,
            reason@,
            event,
            after,
            out,
        ),
        Stage::AwaitErrorHead { contents } => follows_error_head(c, contents@, event, after, out),
        Stage::AwaitErrorBody => follows_error_body(c, after, out),
        Stage::Closed => false,
    }
}

// ---------------------------------------------------------------------------------------------
// The machine
// ---------------------------------------------------------------------------------------------
/// An output with nothing for the log.
fn quiet(action: Action) -> (r: Output)
    ensures
        r.action == action,
        r.logs(Seq::empty()),
{
    let log: Vec<String> = Vec::new();
    assert(texts(log@) =~= Seq::<Seq<char>>::empty());
    Output { log, action }
}

/// An output with one line for the log.
fn noted(line: String, action: Action) -> (r: Output)
    ensures
        r.action == action,
        r.logs(seq![line@]),
{
    let mut log: Vec<String> = Vec::new();
    log.push(line);
    assert(texts(log@) =~= seq![line@]);
    Output { log, action }
}

impl Context {
    /// Begins the reply to one of the errors of a connection.
    fn refuse(self, log: Vec<String>, status: ErrorStatus) -> (r: (Connection, Output))
        ensures
            r.0.context == self,
            r.1.log == log,
            r.1.refuses_with(r.0, self.root_dir@, status),
    {
        Connection::send_error_response(self, log, status.code(), status.reason())
    }

    /// Begins the reply to one of the errors of a connection with one line for the log.
    fn refuse_with(self, line: String, status: ErrorStatus) -> (r: (Connection, Output))
        ensures
            r.0.context == self,
            r.1.logs(seq![line@]),
            r.1.refuses_with(r.0, self.root_dir@, status),
    {
        let mut log: Vec<String> = Vec::new();
        log.push(line);
        assert(texts(log@) =~= seq![line@]);
        self.refuse(log, status)
    }

    /// Begins a reply to an error that is made already.
    fn reply(self, log: Vec<String>, reply: Reply) -> (r: (Connection, Output))
        ensures
            r.0.context == self,
            r.1.log == log,
            r.1.action matches Action::SendHead(head) && head@ == reply.head@,
            r.0.stage matches Stage::AwaitErrorHead { contents } && contents@ == reply.body@,
    {
        let stage = Stage::AwaitErrorHead { contents: reply.body };
        (Connection { context: self, stage }, Output { log, action: Action::SendHead(reply.head) })
    }

    /// Begins the reply to an error without a page of its own.
    fn reply_default(self, code: u16, reason: &str) -> (r: (Connection, Output))
        ensures
            r.0.context == self,
            r.1.logs(Seq::empty()),
            r.1.replies(r.0, code, reason@, default_body(code, reason@)),
    {
        let log: Vec<String> = Vec::new();
        assert(texts(log@) =~= Seq::<Seq<char>>::empty());
        self.reply(log, Reply::default_page(code, reason))
    }

    /// Closes the connection with one line for the log.
    fn close_with(self, line: String) -> (r: (Connection, Output))
        ensures
            r.0.context == self,
            r.1.logs(seq![line@]),
            r.1.closes(r.0),
    {
        let out = noted(line, Action::Close);
        (Connection { context: self, stage: Stage::Closed }, out)
    }

    /// The read timeout was set, or not.
    fn after_timeout(self, event: Event) -> (r: (Connection, Output))
        requires
            Stage::AwaitTimeout.expects(event),
        ensures
            follows_timeout(self, event, r.0, r.1),
    {
        let out = match event {
            Event::TimeoutRefused(error) => noted(
                make_timeout_refused(self.peer.as_str(), error.as_str()),
                Action::ReadLine,
            ),
            _ => quiet(Action::ReadLine),
        };
        (Connection { context: self, stage: Stage::AwaitLine }, out)
    }

    /// The request line was read, or not.
    fn after_line(self, event: Event) -> (r: (Connection, Output))
        requires
            Stage::AwaitLine.expects(event),
        ensures
            follows_line(self, event, r.0, r.1),
    {
        match event {
            Event::LineRead(line) => self.after_request(line.as_str()),
            Event::LineFailed(failure) => {
                if failure.kind == IoKind::WouldBlock || failure.kind == IoKind::TimedOut {
                    let line = make_line_timed_out(self.peer.as_str());
                    self.refuse_with(line, ErrorStatus::RequestTimeout)
                } else {
                    let line = make_line_failed(self.peer.as_str(), failure.text.as_str());
                    self.close_with(line)
                }
            },
            _ => {
                let line = make_client_left(self.peer.as_str());
                self.close_with(line)
            },
        }
    }

    /// There is a request line.
    fn after_request(self, line: &str) -> (r: (Connection, Output))
        ensures
            forall|event: Event|
                event matches Event::LineRead(l) && l@ == line@ ==> #[trigger] follows_line(
                    self,
                    event,
                    r.0,
                    r.1,
                ),
    {
        match parse_request_line(line) {
            RequestLine::Malformed => {
                let note = make_line_malformed(self.peer.as_str(), trim(line));
                self.refuse_with(note, ErrorStatus::BadRequest)
            },
            RequestLine::WrongVersion { version } => {
                let note = make_version_unsupported(self.peer.as_str(), version.as_str());
                self.refuse_with(note, ErrorStatus::HttpVersionNotSupported)
            },
            RequestLine::Accepted { method, target } => {
                let peer = self.peer.as_str();
                let note = make_request_received(method.as_str(), target.as_str(), peer);
                let kind = Method::from_name(method.as_str());
                if kind == Method::Other {
                    let mut log: Vec<String> = Vec::new();
                    let second = make_method_unsupported(method.as_str(), peer);
                    log.push(note);
                    log.push(second);
                    assert(texts(log@) =~= seq![note@, second@]);
                    return self.refuse(log, ErrorStatus::NotImplemented);
                }
                let path = locate(&self.root_dir, target.as_str());
                let root = self.root_dir.copy();
                let context = Context {
                    peer: self.peer,
                    root_dir: self.root_dir,
                    target,
                    head_only: kind == Method::Head,
                };
                let out = noted(note, Action::Resolve(root));
                (Connection { context, stage: Stage::AwaitRoot { path } }, out)
            },
        }
    }

    /// The root directory was resolved, or not.
    fn after_root(self, path: FsPath, event: Event) -> (r: (Connection, Output))
        requires
            (Stage::AwaitRoot { path }).expects(event),
        ensures
            follows_root(self, path@, event, r.0, r.1),
    {
        match event {
            Event::Resolved(root) => {
                let out = quiet(Action::Resolve(path.copy()));
                (Connection { context: self, stage: Stage::AwaitTarget { root, path } }, out)
            },
            Event::Unresolved(error) => {
                let root = show_bytes(self.root_dir.bytes.as_slice());
                let line = make_root_unresolved(root.as_str(), error.as_str());
                self.refuse_with(line, ErrorStatus::InternalServerError)
            },
            _ => unreached(),
        }
    }

    /// The requested path was resolved, or not.
    fn after_target(self, root: FsPath, path: FsPath, event: Event) -> (r: (Connection, Output))
        requires
            (Stage::AwaitTarget { root, path }).expects(event),
        ensures
            follows_target(self, root@, path@, event, r.0, r.1),
    {
        let ghost asked = path@;
        let mut log: Vec<String> = Vec::new();
        assert(texts(log@) =~= Seq::<Seq<char>>::empty());
        let path = match event {
            Event::Resolved(found) => found,
            Event::Unresolved(error) => {
                let text = show_bytes(path.bytes.as_slice());
                let note = make_target_unresolved(text.as_str(), error.as_str());
                log.push(note);
                assert(texts(log@) =~= seq![target_unresolved(shown(asked), error@)]);
                path
            },
            _ => unreached(),
        };
        let ghost notes = texts(log@);
        if !path.starts_with(&root) {
            let text = show_bytes(path.bytes.as_slice());
            let line = make_outside_root(self.target.as_str(), text.as_str());
            log.push(line);
            assert(texts(log@) =~= notes.push(line@));
            return self.refuse(log, ErrorStatus::Forbidden);
        }
        let action = Action::Probe(path.copy());
        (
            Connection { context: self, stage: Stage::AwaitProbe { root, path } },
            Output { log, action },
        )
    }

    /// The path is a directory, or it is not.
    fn after_probe(self, root: FsPath, path: FsPath, event: Event) -> (r: (Connection, Output))
        requires
            (Stage::AwaitProbe { root, path }).expects(event),
        ensures
            follows_probe(self, root@, path@, event, r.0, r.1),
    {
        match event {
            Event::Probed(true) => {
                let path = path.join("index.html".as_bytes());
                let out = quiet(Action::Resolve(path.copy()));
                (Connection { context: self, stage: Stage::AwaitIndex { root, path } }, out)
            },
            _ => self.open_file(path),
        }
    }

    /// The index of a directory was resolved, or not.
    fn after_index(self, root: FsPath, path: FsPath, event: Event) -> (r: (Connection, Output))
        requires
            (Stage::AwaitIndex { root, path }).expects(event),
        ensures
            follows_index(self, root@, path@, event, r.0, r.1),
    {
        if let Event::Resolved(found) = event {
            if !found.starts_with(&root) {
                let text = show_bytes(found.bytes.as_slice());
                let line = make_outside_root(self.target.as_str(), text.as_str());
                return self.refuse_with(line, ErrorStatus::Forbidden);
            }
        }
        self.open_file(path)
    }

    /// Opens a file.
    fn open_file(self, path: FsPath) -> (r: (Connection, Output))
        ensures
            r.0.context == self,
            r.1.logs(Seq::empty()),
            r.1.opens(r.0, path@),
    {
        let out = quiet(Action::Open(path.copy()));
        (Connection { context: self, stage: Stage::AwaitFile { path } }, out)
    }

    /// The file was opened, or not.
    fn after_file(self, path: FsPath, event: Event) -> (r: (Connection, Output))
        requires
            (Stage::AwaitFile { path }).expects(event),
        ensures
            follows_file(self, path@, event, r.0, r.1),
    {
        let text = show_bytes(path.bytes.as_slice());
        match event {
            Event::Opened { is_dir, size } => {
                if is_dir {
                    let line = make_directory_requested(text.as_str());
                    return self.refuse_with(line, ErrorStatus::Forbidden);
                }
                let media = guess_media_type(path.bytes.as_slice());
                assert(is_one_line(media@)) by {
                    assert forall|i: int| 0 <= i < media@.len() implies #[trigger] media@[i]
                        != '\r' && media@[i] != '\n' by {
                        assert('!' <= media@[i] <= '~');
                    }
                }
                let out = quiet(Action::SendHead(make_file_head(media.as_str(), size)));
                let stage = Stage::AwaitHead { path, media, size };
                (Connection { context: self, stage }, out)
            },
            Event::NotDescribed(error) => {
                let line = make_file_undescribed(text.as_str(), error.as_str());
                self.refuse_with(line, ErrorStatus::InternalServerError)
            },
            Event::NotOpened(failure) => {
                if failure.kind == IoKind::NotFound || failure.kind == IoKind::PermissionDenied {
                    let line = make_file_missing(text.as_str());
                    self.refuse_with(line, ErrorStatus::NotFound)
                } else {
                    let line = make_open_failed(text.as_str(), failure.text.as_str());
                    self.refuse_with(line, ErrorStatus::InternalServerError)
                }
            },
            _ => unreached(),
        }
    }

    /// The head of the response was sent, or not.
    fn after_head(self, path: FsPath, media: String, size: u64, event: Event) -> (r: (
        Connection,
        Output,
    ))
        requires
            (Stage::AwaitHead { path, media, size }).expects(event),
        ensures
            follows_head(self, path@, media@, size, event, r.0, r.1),
    {
        let text = show_bytes(path.bytes.as_slice());
        match event {
            Event::HeadFailed(error) => {
                let line = make_head_failed(text.as_str(), error.as_str());
                self.close_with(line)
            },
            _ => {
                if self.head_only {
                    let line = make_head_served(text.as_str(), media.as_str(), size);
                    self.close_with(line)
                } else {
                    let stage = Stage::AwaitBody { path, media, size };
                    (Connection { context: self, stage }, quiet(Action::SendFile))
                }
            },
        }
    }

    /// The file was sent, or not.
    fn after_body(self, path: FsPath, media: String, size: u64, event: Event) -> (r: (
        Connection,
        Output,
    ))
        requires
            (Stage::AwaitBody { path, media, size }).expects(event),
        ensures
            follows_body(self, path@, media@, size, event, r.0, r.1),
    {
        let text = show_bytes(path.bytes.as_slice());
        let line = match event {
            Event::BodyFailed(error) => make_body_failed(text.as_str(), error.as_str()),
            _ => make_file_served(text.as_str(), media.as_str(), size),
        };
        self.close_with(line)
    }

    /// The path of the error page was resolved, or not.
    fn after_page(self, code: u16, reason: String, event: Event) -> (r: (Connection, Output))
        requires
            (Stage::AwaitPage { code, reason }).expects(event),
        ensures
            follows_page(self, code, reason@, event, r.0, r.1),
    {
        match event {
            Event::Resolved(page) => {
                let out = quiet(Action::Resolve(self.root_dir.copy()));
                let stage = Stage::AwaitPageRoot { code, reason, page };
                (Connection { context: self, stage }, out)
            },
            _ => self.reply_default(code, reason.as_str()),
        }
    }

    /// The root directory was resolved for an error page, or not.
    fn after_page_root(self, code: u16, reason: String, page: FsPath, event: Event) -> (r: (
        Connection,
        Output,
    ))
        requires
            (Stage::AwaitPageRoot { code, reason, page }).expects(event),
        ensures
            follows_page_root(self, code, reason@, page@, event, r.0, r.1),
    {
        let root = match event {
            Event::Resolved(found) => found,
            _ => self.root_dir.copy(),
        };
        if !page.starts_with(&root) {
            return self.reply_default(code, reason.as_str());
        }
        let out = quiet(Action::ReadPage(page));
        (Connection { context: self, stage: Stage::AwaitContents { code, reason } }, out)
    }

    /// The error page was read, or not.
    fn after_contents(self, code: u16, reason: String, event: Event) -> (r: (Connection, Output))
        requires
            (Stage::AwaitContents { code, reason }).expects(event),
        ensures
            follows_contents(self, code, reason@, event, r.0, r.1),
    {
        match event {
            Event::PageRead(contents) => {
                let log: Vec<String> = Vec::new();
                assert(texts(log@) =~= Seq::<Seq<char>>::empty());
                self.reply(log, Reply::to_error(code, reason.as_str(), contents))
            },
            _ => self.reply_default(code, reason.as_str()),
        }
    }

    /// The head of the reply to an error was sent, or not.
    fn after_error_head(self, page: Vec<u8>, event: Event) -> (r: (Connection, Output))
        requires
            (Stage::AwaitErrorHead { contents: page }).expects(event),
        ensures
            follows_error_head(self, page@, event, r.0, r.1),
    {
        match event {
            Event::HeadSent if !self.head_only => (
                Connection { context: self, stage: Stage::AwaitErrorBody },
                quiet(Action::SendBody(page)),
            ),
            _ => self.close(),
        }
    }

    /// Closes the connection.
    fn close(self) -> (r: (Connection, Output))
        ensures
            r.0.context == self,
            r.1.logs(Seq::empty()),
            r.1.closes(r.0),
    {
        (Connection { context: self, stage: Stage::Closed }, quiet(Action::Close))
    }
}

impl Connection {
    /// A connection with a client whose address may not be known.
    pub fn open(peer: Option<String>, root_dir: FsPath, read_timeout_secs: u64) -> (r: (
        Connection,
        Output,
    ))
        ensures
            begins(
                match peer {
                    Some(address) => Some(address@),
                    None => None,
                },
                root_dir@,
                read_timeout_secs,
                r.0,
                r.1,
            ),
            r.0.stage is AwaitTimeout,
            r.0.context.peer@ == match peer {
                Some(address) => address@,
                None => "unknown"@,
            },
            r.0.context.root_dir@ == root_dir@,
            r.0.context.target@ == Seq::<char>::empty(),
            !r.0.context.head_only,
            r.1.logs(Seq::empty()),
            r.1.action == Action::SetReadTimeout(read_timeout_secs),
    {
        let peer = match peer {
            Some(address) => address,
            None => "unknown".to_owned(),
        };
        let context = Context { peer, root_dir, target: String::new(), head_only: false };
        (
            Connection { context, stage: Stage::AwaitTimeout },
            quiet(Action::SetReadTimeout(read_timeout_secs)),
        )
    }

    /// Begins the reply to an error with any number and any words: with a look for the site's own
    /// page where there may be one, else at once.
    pub fn send_error_response(
        context: Context,
        log: Vec<String>,
        code: u16,
        reason: &str,
    ) -> (r: (Connection, Output))
        ensures
            r.0.context == context,
            r.1.log == log,
            r.1.refuses(r.0, context.root_dir@, code, reason@),
    {
        if has_page(code) {
            let name = make_page_name(code);
            let page = context.root_dir.join(name.as_str().as_bytes());
            let stage = Stage::AwaitPage { code, reason: reason.to_owned() };
            (Connection { context, stage }, Output { log, action: Action::Resolve(page) })
        } else {
            context.reply(log, Reply::default_page(code, reason))
        }
    }

    /// Takes in what came of the last action, and decides what is next.
    pub fn step(self, event: Event) -> (r: (Connection, Output))
        requires
            self.stage.expects(event),
        ensures
            follows(self, event, r.0, r.1),
    {
        let c = self.context;
        match self.stage {
            Stage::AwaitTimeout => c.after_timeout(event),
            Stage::AwaitLine => c.after_line(event),
            Stage::AwaitRoot { path } => c.after_root(path, event),
            Stage::AwaitTarget { root, path } => c.after_target(root, path, event),
            Stage::AwaitProbe { root, path } => c.after_probe(root, path, event),
            Stage::AwaitIndex { root, path } => c.after_index(root, path, event),
            Stage::AwaitFile { path } => c.after_file(path, event),
            Stage::AwaitHead { path, media, size } => c.after_head(path, media, size, event),
            Stage::AwaitBody { path, media, size } => c.after_body(path, media, size, event),
            Stage::AwaitPage { code, reason } => c.after_page(code, reason, event),
            Stage::AwaitPageRoot { code, reason, page } => c.after_page_root(
                code,
                reason,
                page,
                event,
            ),
            Stage::AwaitContents { code, reason } => c.after_contents(code, reason, event),
            Stage::AwaitErrorHead { contents } => c.after_error_head(contents, event),
            Stage::AwaitErrorBody => c.close(),
            Stage::Closed => unreached(),
        }
    }
}

} // verus!

//! What holds of every connection, whatever the client and the file system do.
use crate::connection::{
    begins, default_body, follows, index_of, media_of, page_path, Action, Connection, Event, IoKind,
    Output, Stage,
};
use crate::messages::{
    file_served, head_served, line_failed, line_malformed, method_unsupported, open_failed,
    outside_root, request_received, root_unresolved, target_unresolved, version_unsupported,
};
use crate::outside::{ascii_lowered, media_type, shown};
use crate::paths::{
    components, extension, is_absolute, is_entry, law_join_stays_inside,
    law_joined_entry_is_one_more_component, starts_with,
};
use crate::request::{
    decoded_target, law_known_methods, requested_path, served_version, Method,
};
use crate::response::{
    error_head, error_page, file_head, html_pieces, is_framed, is_plain_text,
    law_error_head_is_framed, law_error_page_is_read_back, law_file_head_is_framed,
    law_file_head_is_read_back, law_page_name_is_read_back, law_words_are_one_line, lines_of,
    may_have_page, page_name, ErrorStatus,
};
use crate::text::{
    decimal, law_decimal_has_no_leading_zeros, law_decimal_is_read_back, law_trimming_keeps_words,
    lemma_mentions, mentions, number, texts, trimmed, words, NumberError,
};
use vstd::prelude::*;
use vstd::string::*;
use vstd::utf8::*;

verus! {

/// Step `i` of a course follows the rules, and its event is one that is waited for.
pub open spec fn is_step(
    connections: Seq<Connection>,
    events: Seq<Event>,
    outputs: Seq<Output>,
    i: int,
) -> bool {
    &&& connections[i].stage.expects(events[i])
    &&& follows(connections[i], events[i], connections[i + 1], outputs[i])
}

/// The course of a connection: the connection before and after each event, the events, and what
/// was to be done after each.
pub open spec fn is_course(
    connections: Seq<Connection>,
    events: Seq<Event>,
    outputs: Seq<Output>,
) -> bool {
    &&& connections.len() == events.len() + 1
    &&& outputs.len() == events.len()
    &&& forall|i: int|
        0 <= i < events.len() ==> #[trigger] is_step(connections, events, outputs, i)
}

/// The course of a connection from its beginning.
pub open spec fn is_run(
    connections: Seq<Connection>,
    events: Seq<Event>,
    outputs: Seq<Output>,
) -> bool {
    &&& is_course(connections, events, outputs)
    &&& connections[0].stage is AwaitTimeout
    &&& !connections[0].context.head_only
}

// ---------------------------------------------------------------------------------------------
// Length
// ---------------------------------------------------------------------------------------------
/// How many events a connection can still take.
pub open spec fn events_left(stage: Stage) -> nat {
    match stage {
        Stage::AwaitTimeout => 12,
        Stage::AwaitLine => 11,
        Stage::AwaitRoot { .. } => 10,
        Stage::AwaitTarget { .. } => 9,
        Stage::AwaitProbe { .. } => 8,
        Stage::AwaitIndex { .. } => 7,
        Stage::AwaitFile { .. } => 6,
        Stage::AwaitHead { .. } => 2,
        Stage::AwaitBody { .. } => 1,
        Stage::AwaitPage { .. } => 5,
        Stage::AwaitPageRoot { .. } => 4,
        Stage::AwaitContents { .. } => 3,
        Stage::AwaitErrorHead { .. } => 2,
        Stage::AwaitErrorBody => 1,
        Stage::Closed => 0,
    }
}

/// Each event brings the end of a connection nearer.
pub proof fn law_step_makes_progress(
    before: Connection,
    event: Event,
    after: Connection,
    out: Output,
)
    requires
        before.stage.expects(event),
        follows(before, event, after, out),
    ensures
        events_left(after.stage) < events_left(before.stage),
{
}

/// A connection comes to its end after twelve events at most.
pub proof fn law_run_is_short(
    connections: Seq<Connection>,
    events: Seq<Event>,
    outputs: Seq<Output>,
)
    requires
        is_run(connections, events, outputs),
    ensures
        events.len() <= 12,
{
    lemma_progress(connections, events, outputs, events.len() as int);
}

proof fn lemma_progress(
    connections: Seq<Connection>,
    events: Seq<Event>,
    outputs: Seq<Output>,
    n: int,
)
    requires
        is_run(connections, events, outputs),
        0 <= n <= events.len(),
    ensures
        n + events_left(connections[n].stage) <= 12,
    decreases n,
{
    if n > 0 {
        lemma_progress(connections, events, outputs, n - 1);
        assert(is_step(connections, events, outputs, n - 1));
        law_step_makes_progress(
            connections[n - 1],
            events[n - 1],
            connections[n],
            outputs[n - 1],
        );
    }
}

// ---------------------------------------------------------------------------------------------
// The search for the file
// ---------------------------------------------------------------------------------------------
/// The client and the configured root directory stay the same throughout.
pub proof fn law_client_stays(
    connections: Seq<Connection>,
    events: Seq<Event>,
    outputs: Seq<Output>,
    n: int,
)
    requires
        is_course(connections, events, outputs),
        0 <= n <= events.len(),
    ensures
        connections[n].context.same_client(connections[0].context),
        connections[n].context.peer@ == connections[0].context.peer@,
        connections[n].context.root_dir@ == connections[0].context.root_dir@,
    decreases n,
{
    if n > 0 {
        law_client_stays(connections, events, outputs, n - 1);
        assert(is_step(connections, events, outputs, n - 1));
    }
}

/// The words of the request line of a run.
pub open spec fn request_words(events: Seq<Event>) -> Seq<Seq<char>> {
    match events[1] {
        Event::LineRead(line) => words(trimmed(line@)),
        _ => Seq::empty(),
    }
}

/// Tells whether the second event of a run is a request that is served: a line of three words, the
/// first one `GET` or `HEAD` and the third one the version.
pub open spec fn is_served_request(events: Seq<Event>) -> bool {
    &&& events.len() > 1
    &&& events[1] is LineRead
    &&& request_words(events).len() == 3
    &&& request_words(events)[2] == served_version()
    &&& Method::named(request_words(events)[0]) != Method::Other
}

/// Tells whether the second event of a run is a request with the method `HEAD` that is served.
pub open spec fn is_head_request(events: Seq<Event>) -> bool {
    is_served_request(events) && Method::named(request_words(events)[0]) == Method::Head
}

/// The path that the target of a request means under a configured root directory.
pub open spec fn asked_path(root_dir: Seq<u8>, events: Seq<Event>) -> Seq<u8> {
    requested_path(root_dir, request_words(events)[1])
}

/// What the file system gave for that path, or the path as it is if it could not be resolved.
pub open spec fn found_path(root_dir: Seq<u8>, events: Seq<Event>) -> Seq<u8> {
    match events[3] {
        Event::Resolved(path) => path@,
        _ => asked_path(root_dir, events),
    }
}

/// Tells whether the path that was found is a directory.
pub open spec fn is_directory(events: Seq<Event>) -> bool {
    events[4] == Event::Probed(true)
}

/// The file that is looked for: the path that was found, or its index if it is a directory.
pub open spec fn located_path(root_dir: Seq<u8>, events: Seq<Event>) -> Seq<u8> {
    if is_directory(events) {
        index_of(found_path(root_dir, events))
    } else {
        found_path(root_dir, events)
    }
}

/// Which event tells what came of the attempt to open the file.
pub open spec fn file_event(events: Seq<Event>) -> int {
    if is_directory(events) {
        6
    } else {
        5
    }
}

/// Tells whether the file system gave a root directory, and a path under it for the request.
pub open spec fn is_located(root_dir: Seq<u8>, events: Seq<Event>) -> bool {
    &&& events.len() > 3
    &&& events[2] matches Event::Resolved(root) && starts_with(
        found_path(root_dir, events),
        root@,
    )
}

/// Tells whether the file system gave, for the index of a directory, a path that is not under the
/// root directory.
pub open spec fn index_leads_outside(events: Seq<Event>) -> bool {
    &&& events.len() > 5
    &&& is_directory(events)
    &&& events[2] matches Event::Resolved(root) && events[5] matches Event::Resolved(index)
        && !starts_with(index@, root@)
}

/// Tells whether an output asks for a path without links and detours.
pub open spec fn asks_for(out: Output, path: Seq<u8>) -> bool {
    out.action matches Action::Resolve(asked) && asked@ == path
}

/// What a connection that searches for a file, or sends one, holds after `n` events.
spec fn search_is_in_order(
    connections: Seq<Connection>,
    events: Seq<Event>,
    outputs: Seq<Output>,
    n: int,
) -> bool {
    let root_dir = connections[0].context.root_dir@;
    let begun = is_served_request(events) && asks_for(outputs[1], root_dir);
    let asked = begun && asks_for(outputs[2], asked_path(root_dir, events));
    let found = {
        &&& asked
        &&& is_located(root_dir, events)
        &&& !index_leads_outside(events)
        &&& is_directory(events) ==> asks_for(outputs[4], located_path(root_dir, events))
    };
    match connections[n].stage {
        Stage::AwaitTimeout => n == 0,
        Stage::AwaitLine => n == 1,
        Stage::AwaitRoot { path } => n == 2 && begun && path@ == asked_path(root_dir, events),
        Stage::AwaitTarget { root, path } => {
            &&& n == 3 && asked
            &&& path@ == asked_path(root_dir, events)
            &&& events[2] matches Event::Resolved(r) && r@ == root@
        },
        Stage::AwaitProbe { root, path } => {
            &&& n == 4 && asked
            &&& path@ == found_path(root_dir, events)
            &&& events[2] matches Event::Resolved(r) && r@ == root@
            &&& is_located(root_dir, events)
        },
        Stage::AwaitIndex { root, path } => {
            &&& n == 5 && asked && is_directory(events)
            &&& asks_for(outputs[4], located_path(root_dir, events))
            &&& path@ == located_path(root_dir, events)
            &&& events[2] matches Event::Resolved(r) && r@ == root@
            &&& is_located(root_dir, events)
        },
        Stage::AwaitFile { path } => {
            &&& n == file_event(events) && found
            &&& path@ == located_path(root_dir, events)
        },
        Stage::AwaitHead { .. } => n == file_event(events) + 1 && found,
        Stage::AwaitBody { .. } => n == file_event(events) + 2 && found,
        _ => true,
    }
}

proof fn lemma_search_is_in_order(
    connections: Seq<Connection>,
    events: Seq<Event>,
    outputs: Seq<Output>,
    n: int,
)
    requires
        is_run(connections, events, outputs),
        0 <= n <= events.len(),
    ensures
        search_is_in_order(connections, events, outputs, n),
    decreases n,
{
    if n > 0 {
        lemma_search_is_in_order(connections, events, outputs, n - 1);
        law_client_stays(connections, events, outputs, n - 1);
        assert(is_step(connections, events, outputs, n - 1));
    }
}

/// After the request line, a connection knows whether the head of a response is asked for alone.
proof fn lemma_head_only(
    connections: Seq<Connection>,
    events: Seq<Event>,
    outputs: Seq<Output>,
    n: int,
)
    requires
        is_run(connections, events, outputs),
        0 <= n <= events.len(),
    ensures
        n == 0 <==> connections[n].stage is AwaitTimeout,
        n == 1 <==> connections[n].stage is AwaitLine,
        connections[n].context.head_only == (n > 1 && is_head_request(events)),
    decreases n,
{
    if n > 0 {
        lemma_head_only(connections, events, outputs, n - 1);
        assert(is_step(connections, events, outputs, n - 1));
    }
}

/// The name of the file that is sent for a directory is a relative path.
proof fn lemma_index_is_relative()
    ensures
        !is_absolute(encode_utf8("index.html"@)),
{
    reveal_strlit("index.html");
    assert(is_ascii_chars("index.html"@));
    is_ascii_chars_encode_utf8("index.html"@);
}

/// A file is opened only for a request that is served, and only under the root directory: the path
/// begins with the components of the root directory as the file system gave it. It is what the
/// file system gave for the path that the request asks for, or the index of that directory, and
/// the file system gave no path outside the root directory for that index. A path that the file
/// system could not resolve is taken as it is.
pub proof fn law_opened_files_lie_under_the_root(
    connections: Seq<Connection>,
    events: Seq<Event>,
    outputs: Seq<Output>,
    i: int,
)
    requires
        is_run(connections, events, outputs),
        0 <= i < events.len(),
        outputs[i].action is Open,
    ensures
        ({
            let root_dir = connections[0].context.root_dir@;
            &&& i + 1 == file_event(events)
            &&& is_served_request(events)
            &&& asks_for(outputs[1], root_dir)
            &&& asks_for(outputs[2], asked_path(root_dir, events))
            &&& is_directory(events) ==> asks_for(outputs[4], located_path(root_dir, events))
            &&& is_located(root_dir, events)
            &&& !index_leads_outside(events)
            &&& outputs[i].action->Open_0@ == located_path(root_dir, events)
            &&& starts_with(outputs[i].action->Open_0@, events[2]->Resolved_0@)
        }),
{
    lemma_search_is_in_order(connections, events, outputs, i);
    lemma_search_is_in_order(connections, events, outputs, i + 1);
    assert(is_step(connections, events, outputs, i));
    let root_dir = connections[0].context.root_dir@;
    let root = events[2]->Resolved_0@;
    lemma_index_is_relative();
    law_join_stays_inside(found_path(root_dir, events), root, encode_utf8("index.html"@));
}

/// A file system that does not change: what each path is without links and detours, if the path
/// leads anywhere.
pub open spec fn is_settled(fs: spec_fn(Seq<u8>) -> Option<Seq<u8>>) -> bool {
    forall|path: Seq<u8>| (#[trigger] fs(path)) matches Some(place) ==> fs(place) == Some(place)
}

/// Event `i` tells the truth about a file system: a path is resolved to what it is, one that leads
/// nowhere is not resolved, and what can be opened leads somewhere.
pub open spec fn is_true_answer(
    fs: spec_fn(Seq<u8>) -> Option<Seq<u8>>,
    events: Seq<Event>,
    outputs: Seq<Output>,
    i: int,
) -> bool {
    match (outputs[i - 1].action, events[i]) {
        (Action::Resolve(path), Event::Resolved(place)) => fs(path@) == Some(place@),
        (Action::Resolve(path), Event::Unresolved(_)) => fs(path@) is None,
        (Action::Open(path), Event::Opened { .. }) => fs(path@) is Some,
        _ => true,
    }
}

/// All answers of a run tell the truth about a file system.
pub open spec fn is_true_to(
    fs: spec_fn(Seq<u8>) -> Option<Seq<u8>>,
    events: Seq<Event>,
    outputs: Seq<Output>,
) -> bool {
    forall|i: int| 0 < i < events.len() ==> #[trigger] is_true_answer(fs, events, outputs, i)
}

/// On a file system that does not change, whatever links it holds: every file that is opened and
/// that leads anywhere is, without links and detours, a path under the root directory, which is
/// itself taken without links and detours.
pub proof fn law_opened_files_resolve_under_the_root(
    fs: spec_fn(Seq<u8>) -> Option<Seq<u8>>,
    connections: Seq<Connection>,
    events: Seq<Event>,
    outputs: Seq<Output>,
    i: int,
)
    requires
        is_run(connections, events, outputs),
        is_settled(fs),
        is_true_to(fs, events, outputs),
        0 <= i < events.len(),
        outputs[i].action is Open,
    ensures
        fs(connections[0].context.root_dir@) matches Some(root) && (fs(
            outputs[i].action->Open_0@,
        ) matches Some(place) ==> starts_with(place, root)),
{
    law_opened_files_lie_under_the_root(connections, events, outputs, i);
    let root_dir = connections[0].context.root_dir@;
    assert(is_step(connections, events, outputs, 0));
    assert(is_step(connections, events, outputs, 1));
    assert(is_step(connections, events, outputs, 2));
    assert(is_step(connections, events, outputs, 3));
    assert(is_true_answer(fs, events, outputs, 2));
    assert(is_true_answer(fs, events, outputs, 3));
    assert(fs(asked_path(root_dir, events)) is Some ==> fs(found_path(root_dir, events)) == Some(
        found_path(root_dir, events),
    ));
    if is_directory(events) {
        assert(is_step(connections, events, outputs, 4));
        assert(is_step(connections, events, outputs, 5));
        assert(is_true_answer(fs, events, outputs, 5));
    }
}

/// On a file system that does not change, whatever links it holds: the file that a `200 OK` response
/// tells the size and the media type of, and whose contents follow, is, without links and detours,
/// a path under the root directory.
pub proof fn law_served_files_resolve_under_the_root(
    fs: spec_fn(Seq<u8>) -> Option<Seq<u8>>,
    connections: Seq<Connection>,
    events: Seq<Event>,
    outputs: Seq<Output>,
    i: int,
)
    requires
        is_run(connections, events, outputs),
        is_settled(fs),
        is_true_to(fs, events, outputs),
        0 <= i < events.len(),
        connections[i + 1].stage is AwaitHead,
    ensures
        i > 0,
        outputs[i - 1].action is Open,
        events[i] is Opened,
        outputs[i].action matches Action::SendHead(head) && head@ == file_head(
            media_of(outputs[i - 1].action->Open_0@),
            events[i]->Opened_size as nat,
        ),
        fs(connections[0].context.root_dir@) matches Some(root) && fs(
            outputs[i - 1].action->Open_0@,
        ) matches Some(place) && starts_with(place, root),
{
    lemma_search_is_in_order(connections, events, outputs, i);
    assert(is_step(connections, events, outputs, i));
    assert(is_step(connections, events, outputs, i - 1));
    assert(is_true_answer(fs, events, outputs, i));
    law_opened_files_resolve_under_the_root(fs, connections, events, outputs, i - 1);
}

/// Every error page that is read lies under the root directory, as the file system gave it or, if
/// it gave none, as it is configured.
pub proof fn law_read_pages_lie_under_the_root(
    connections: Seq<Connection>,
    events: Seq<Event>,
    outputs: Seq<Output>,
    i: int,
)
    requires
        is_course(connections, events, outputs),
        0 <= i < events.len(),
        outputs[i].action is ReadPage,
    ensures
        match events[i] {
            Event::Resolved(root) => starts_with(outputs[i].action->ReadPage_0@, root@),
            _ => starts_with(
                outputs[i].action->ReadPage_0@,
                connections[0].context.root_dir@,
            ),
        },
{
    law_client_stays(connections, events, outputs, i);
    assert(is_step(connections, events, outputs, i));
}

// ---------------------------------------------------------------------------------------------
// Replies to errors
// ---------------------------------------------------------------------------------------------
/// The bytes that an output hands to the client; an open file aside.
pub open spec fn bytes_of(out: Output) -> Seq<u8> {
    match out.action {
        Action::SendHead(head) => encode_utf8(head@),
        Action::SendBody(body) => body@,
        _ => Seq::empty(),
    }
}

/// The bytes that the outputs from number `i` on hand to the client.
pub open spec fn bytes_from(outputs: Seq<Output>, i: int) -> Seq<u8>
    decreases outputs.len() - i,
{
    if i >= outputs.len() {
        Seq::empty()
    } else {
        bytes_of(outputs[i]) + bytes_from(outputs, i + 1)
    }
}

/// The page that an error is answered with: the site's own one, where there may be one, if the
/// file system gives it a path under the root directory and its contents, else the one that the
/// server makes.
pub open spec fn error_body(
    code: u16,
    reason: Seq<char>,
    root_dir: Seq<u8>,
    events: Seq<Event>,
    i: int,
) -> Seq<u8> {
    let root = match events[i + 1] {
        Event::Resolved(root) => root@,
        _ => root_dir,
    };
    match (events[i], events[i + 2]) {
        (Event::Resolved(page), Event::PageRead(contents)) if (code == 403 || code == 404)
            && starts_with(page@, root) => contents@,
        _ => default_body(code, reason),
    }
}

/// The bytes of the reply to an error: its head, which tells the length of the page, and the page
/// itself unless the head is asked for alone.
pub open spec fn error_reply(
    code: u16,
    reason: Seq<char>,
    page: Seq<u8>,
    head_only: bool,
) -> Seq<u8> {
    encode_utf8(error_head(code as nat, reason, page.len())) + if head_only {
        Seq::empty()
    } else {
        page
    }
}

/// Once the head of the reply to an error is to be sent, the page follows, unless the head is asked
/// for alone.
proof fn lemma_reply_is_sent(
    connections: Seq<Connection>,
    events: Seq<Event>,
    outputs: Seq<Output>,
    i: int,
)
    requires
        is_course(connections, events, outputs),
        0 <= i <= events.len(),
        connections[i].stage is AwaitErrorHead,
        connections[events.len() as int].stage is Closed,
        forall|k: int| i <= k < events.len() ==> !((#[trigger] events[k]) is HeadFailed),
    ensures
        bytes_from(outputs, i) == if connections[i].context.head_only {
            Seq::empty()
        } else {
            connections[i].stage->AwaitErrorHead_contents@
        },
{
    reveal_with_fuel(bytes_from, 3);
    assert(is_step(connections, events, outputs, i));
    assert(!(events[i] is HeadFailed));
    if !connections[i].context.head_only {
        assert(is_step(connections, events, outputs, i + 1));
    }
    let n = events.len() as int;
    if connections[i].context.head_only && n > i + 1 {
        assert(is_step(connections, events, outputs, i + 1));
    }
    if !connections[i].context.head_only && n > i + 2 {
        assert(is_step(connections, events, outputs, i + 2));
    }
    assert(bytes_from(outputs, i) =~= if connections[i].context.head_only {
        Seq::empty()
    } else {
        connections[i].stage->AwaitErrorHead_contents@
    });
}

/// An error with any number and any words is answered with just these bytes, if they can be sent:
/// the head with the number, the words and the length of the page in bytes, and behind it the page,
/// which is the site's own one for `403` and `404` where there is one to be had, and the one that
/// the server makes otherwise. The page is left out if the head is asked for alone.
pub proof fn law_error_reply_is_exact(
    connections: Seq<Connection>,
    events: Seq<Event>,
    outputs: Seq<Output>,
    i: int,
    first: Output,
    code: u16,
    reason: Seq<char>,
)
    requires
        is_course(connections, events, outputs),
        0 <= i <= events.len(),
        first.refuses(connections[i], connections[i].context.root_dir@, code, reason),
        connections[events.len() as int].stage is Closed,
        forall|k: int| i <= k < events.len() ==> !((#[trigger] events[k]) is HeadFailed),
    ensures
        ({
            let c = connections[i].context;
            let page = error_body(code, reason, c.root_dir@, events, i);
            bytes_of(first) + bytes_from(outputs, i) == error_reply(
                code,
                reason,
                page,
                c.head_only,
            )
        }),
{
    let c = connections[i].context;
    let page = error_body(code, reason, c.root_dir@, events, i);
    let whole = error_reply(code, reason, page, c.head_only);
    if may_have_page(code) {
        reveal_with_fuel(bytes_from, 4);
        assert(is_step(connections, events, outputs, i));
        if events[i] is Resolved {
            assert(is_step(connections, events, outputs, i + 1));
            if connections[i + 2].stage is AwaitContents {
                assert(is_step(connections, events, outputs, i + 2));
                lemma_reply_is_sent(connections, events, outputs, i + 3);
            } else {
                lemma_reply_is_sent(connections, events, outputs, i + 2);
            }
        } else {
            lemma_reply_is_sent(connections, events, outputs, i + 1);
        }
    } else {
        lemma_reply_is_sent(connections, events, outputs, i);
    }
    assert(bytes_of(first) + bytes_from(outputs, i) =~= whole);
}

/// The number and the words of the error that a connection is about to answer with.
pub open spec fn pending_error(stage: Stage) -> Option<(u16, Seq<char>)> {
    match stage {
        Stage::AwaitPage { code, reason } => Some((code, reason@)),
        Stage::AwaitPageRoot { code, reason, .. } => Some((code, reason@)),
        Stage::AwaitContents { code, reason } => Some((code, reason@)),
        _ => None,
    }
}

/// Tells whether output `k` begins the reply to an error with a given page.
pub open spec fn is_reply(
    connections: Seq<Connection>,
    outputs: Seq<Output>,
    k: int,
    status: ErrorStatus,
    page: Seq<u8>,
) -> bool {
    outputs[k].replies(connections[k + 1], status.number(), status.words(), page)
}

/// Tells whether an error is answered by output `i` or a later one.
pub open spec fn is_answered_with(
    connections: Seq<Connection>,
    outputs: Seq<Output>,
    i: int,
    status: ErrorStatus,
) -> bool {
    exists|k: int, page: Seq<u8>|
        i <= k < outputs.len() && #[trigger] is_reply(connections, outputs, k, status, page)
}

/// A connection that is about to answer with an error does so.
pub proof fn law_error_is_answered(
    connections: Seq<Connection>,
    events: Seq<Event>,
    outputs: Seq<Output>,
    i: int,
    status: ErrorStatus,
)
    requires
        is_course(connections, events, outputs),
        0 <= i <= events.len(),
        pending_error(connections[i].stage) == Some((status.number(), status.words())),
        connections[events.len() as int].stage is Closed,
    ensures
        is_answered_with(connections, outputs, i, status),
    decreases events.len() - i,
{
    if i < events.len() {
        assert(is_step(connections, events, outputs, i));
        if connections[i + 1].stage is AwaitErrorHead {
            let page = connections[i + 1].stage->AwaitErrorHead_contents@;
            assert(is_reply(connections, outputs, i, status, page));
        } else {
            law_error_is_answered(connections, events, outputs, i + 1, status);
            let (k, page) = choose|k: int, page: Seq<u8>|
                i + 1 <= k < outputs.len() && #[trigger] is_reply(
                    connections,
                    outputs,
                    k,
                    status,
                    page,
                );
            assert(is_reply(connections, outputs, k, status, page));
        }
    }
}

/// An error that a run is about to answer with a page is `403 Forbidden` or `404 Not Found`.
proof fn lemma_page_errors(
    connections: Seq<Connection>,
    events: Seq<Event>,
    outputs: Seq<Output>,
    n: int,
)
    requires
        is_run(connections, events, outputs),
        0 <= n <= events.len(),
    ensures
        pending_error(connections[n].stage) matches Some((code, reason)) ==> {
            ||| code == ErrorStatus::Forbidden.number() && reason == ErrorStatus::Forbidden.words()
            ||| code == ErrorStatus::NotFound.number() && reason == ErrorStatus::NotFound.words()
        },
    decreases n,
{
    if n > 0 {
        lemma_page_errors(connections, events, outputs, n - 1);
        assert(is_step(connections, events, outputs, n - 1));
    }
}

/// Each reply to an error is one to an error that a client can be answered with, and the length
/// that its head tells is that of its page. A site's own page is shown only for `403 Forbidden` and
/// `404 Not Found`; every other error is answered with the page that the server makes.
pub proof fn law_replies_tell_their_length(
    connections: Seq<Connection>,
    events: Seq<Event>,
    outputs: Seq<Output>,
    i: int,
)
    requires
        is_run(connections, events, outputs),
        0 <= i < events.len(),
        connections[i + 1].stage is AwaitErrorHead,
    ensures
        ({
            let page = connections[i + 1].stage->AwaitErrorHead_contents@;
            exists|status: ErrorStatus|
                {
                    &&& #[trigger] is_reply(connections, outputs, i, status, page)
                    &&& status == ErrorStatus::Forbidden || status == ErrorStatus::NotFound || page
                        == default_body(status.number(), status.words())
                }
        }),
{
    lemma_page_errors(connections, events, outputs, i);
    assert(is_step(connections, events, outputs, i));
    let page = connections[i + 1].stage->AwaitErrorHead_contents@;
    match pending_error(connections[i].stage) {
        Some((code, _)) => {
            if code == ErrorStatus::Forbidden.number() {
                assert(is_reply(connections, outputs, i, ErrorStatus::Forbidden, page));
            } else {
                assert(is_reply(connections, outputs, i, ErrorStatus::NotFound, page));
            }
        },
        None => {
            let fits = |status: ErrorStatus|
                {
                    &&& is_reply(connections, outputs, i, status, page)
                    &&& page == default_body(status.number(), status.words())
                };
            assert({
                ||| fits(ErrorStatus::BadRequest)
                ||| fits(ErrorStatus::RequestTimeout)
                ||| fits(ErrorStatus::NotImplemented)
                ||| fits(ErrorStatus::InternalServerError)
                ||| fits(ErrorStatus::HttpVersionNotSupported)
            });
        },
    }
}

/// A body that is not a file is the page of the reply to an error whose head was sent before it, and
/// has the length that the head tells.
pub proof fn law_pages_follow_their_heads(
    connections: Seq<Connection>,
    events: Seq<Event>,
    outputs: Seq<Output>,
    i: int,
)
    requires
        is_run(connections, events, outputs),
        0 <= i < events.len(),
        outputs[i].action is SendBody,
    ensures
        i > 0,
        events[i] is HeadSent,
        exists|status: ErrorStatus|
            #[trigger] is_reply(
                connections,
                outputs,
                i - 1,
                status,
                outputs[i].action->SendBody_0@,
            ),
{
    assert(is_step(connections, events, outputs, i));
    law_replies_tell_their_length(connections, events, outputs, i - 1);
}

/// A site's own page is shown where there is one: it is looked for by its name in the root
/// directory, and if it lies under the root directory and can be read, the reply to the error holds
/// it.
pub proof fn law_own_page_is_shown(
    connections: Seq<Connection>,
    events: Seq<Event>,
    outputs: Seq<Output>,
    i: int,
    code: u16,
    reason: Seq<char>,
)
    requires
        is_run(connections, events, outputs),
        0 < i < events.len() - 2,
        connections[i].stage is AwaitPage,
        pending_error(connections[i].stage) == Some((code, reason)),
        events[i] matches Event::Resolved(page) && starts_with(
            page@,
            match events[i + 1] {
                Event::Resolved(root) => root@,
                _ => connections[0].context.root_dir@,
            },
        ),
        events[i + 2] is PageRead,
    ensures
        asks_for(outputs[i - 1], page_path(connections[0].context.root_dir@, code)),
        asks_for(outputs[i], connections[0].context.root_dir@),
        outputs[i + 1].action matches Action::ReadPage(page) && page@ == events[i]->Resolved_0@,
        outputs[i + 2].replies(connections[i + 3], code, reason, events[i + 2]->PageRead_0@),
{
    law_client_stays(connections, events, outputs, i - 1);
    law_client_stays(connections, events, outputs, i);
    law_client_stays(connections, events, outputs, i + 1);
    assert(is_step(connections, events, outputs, i - 1));
    assert(is_step(connections, events, outputs, i));
    assert(is_step(connections, events, outputs, i + 1));
    assert(is_step(connections, events, outputs, i + 2));
}

// ---------------------------------------------------------------------------------------------
// Answers
// ---------------------------------------------------------------------------------------------
/// Tells whether a response may have begun before a stage.
spec fn answered(stage: Stage) -> bool {
    ||| stage is AwaitHead
    ||| stage is AwaitBody
    ||| stage is AwaitErrorHead
    ||| stage is AwaitErrorBody
    ||| stage is Closed
}

/// At most one response is sent over a connection.
pub proof fn law_one_response(
    connections: Seq<Connection>,
    events: Seq<Event>,
    outputs: Seq<Output>,
    i: int,
    k: int,
)
    requires
        is_course(connections, events, outputs),
        0 <= i < k < events.len(),
        outputs[i].action is SendHead,
    ensures
        !(outputs[k].action is SendHead),
{
    assert(is_step(connections, events, outputs, i));
    lemma_stays_answered(connections, events, outputs, i + 1, k);
    assert(is_step(connections, events, outputs, k));
}

proof fn lemma_stays_answered(
    connections: Seq<Connection>,
    events: Seq<Event>,
    outputs: Seq<Output>,
    i: int,
    k: int,
)
    requires
        is_course(connections, events, outputs),
        0 <= i <= k <= events.len(),
        answered(connections[i].stage),
    ensures
        answered(connections[k].stage),
    decreases k - i,
{
    if i < k {
        lemma_stays_answered(connections, events, outputs, i, k - 1);
        assert(is_step(connections, events, outputs, k - 1));
    }
}

/// Every request line is answered: once one was read, a connection does not come to its end without
/// a response.
pub proof fn law_every_request_is_answered(
    connections: Seq<Connection>,
    events: Seq<Event>,
    outputs: Seq<Output>,
    i: int,
)
    requires
        is_course(connections, events, outputs),
        0 <= i < events.len(),
        events[i] is LineRead,
        connections[events.len() as int].stage is Closed,
    ensures
        exists|k: int| i <= k < events.len() && (#[trigger] outputs[k]).action is SendHead,
{
    assert(is_step(connections, events, outputs, i));
    lemma_pending_is_answered(connections, events, outputs, i);
}

/// Tells whether a stage is one in which a request is open.
spec fn pending(stage: Stage) -> bool {
    !answered(stage) && !(stage is AwaitTimeout) && !(stage is AwaitLine)
}

proof fn lemma_pending_is_answered(
    connections: Seq<Connection>,
    events: Seq<Event>,
    outputs: Seq<Output>,
    i: int,
)
    requires
        is_course(connections, events, outputs),
        0 <= i < events.len(),
        pending(connections[i].stage) || events[i] is LineRead,
        connections[events.len() as int].stage is Closed,
    ensures
        exists|k: int| i <= k < events.len() && (#[trigger] outputs[k]).action is SendHead,
    decreases events.len() - i,
{
    assert(is_step(connections, events, outputs, i));
    if !(outputs[i].action is SendHead) {
        assert(pending(connections[i + 1].stage));
        if i + 1 < events.len() {
            lemma_pending_is_answered(connections, events, outputs, i + 1);
        }
    }
}

/// The head of every response is framed: the empty line that ends it is its first one.
pub proof fn law_heads_are_framed(
    connections: Seq<Connection>,
    events: Seq<Event>,
    outputs: Seq<Output>,
    i: int,
)
    requires
        is_run(connections, events, outputs),
        0 <= i < events.len(),
        outputs[i].action is SendHead,
    ensures
        is_framed(outputs[i].action->SendHead_0@),
{
    assert(is_step(connections, events, outputs, i));
    if connections[i + 1].stage is AwaitHead {
        let path = connections[i].stage->AwaitFile_path;
        let size = events[i]->Opened_size;
        law_file_head_is_framed(media_of(path@), size as nat);
    } else {
        let page = connections[i + 1].stage->AwaitErrorHead_contents@;
        law_replies_tell_their_length(connections, events, outputs, i);
        let status = choose|status: ErrorStatus|
            #[trigger] is_reply(connections, outputs, i, status, page);
        law_words_are_one_line(status);
        law_error_head_is_framed(status.number() as nat, status.words(), page.len());
    }
}

/// A request for a path that does not lie under the root directory, or for a directory whose index
/// leads out of it, is answered with `403 Forbidden`, and nothing is opened for it.
pub proof fn law_outside_paths_are_forbidden(
    connections: Seq<Connection>,
    events: Seq<Event>,
    outputs: Seq<Output>,
)
    requires
        is_run(connections, events, outputs),
        is_served_request(events),
        events.len() > 3,
        events[2] is Resolved,
        !is_located(connections[0].context.root_dir@, events) || index_leads_outside(events),
        connections[events.len() as int].stage is Closed,
    ensures
        asks_for(
            outputs[if index_leads_outside(events) && is_located(
                connections[0].context.root_dir@,
                events,
            ) {
                5
            } else {
                3
            }],
            page_path(connections[0].context.root_dir@, 403),
        ),
        is_answered_with(connections, outputs, 3, ErrorStatus::Forbidden),
        forall|k: int| 0 <= k < events.len() ==> !((#[trigger] outputs[k]).action is Open),
{
    let root_dir = connections[0].context.root_dir@;
    assert(is_step(connections, events, outputs, 0));
    assert(is_step(connections, events, outputs, 1));
    assert(is_step(connections, events, outputs, 2));
    assert(is_step(connections, events, outputs, 3));
    let from: int = if is_located(root_dir, events) {
        assert(is_step(connections, events, outputs, 4));
        assert(is_step(connections, events, outputs, 5));
        6
    } else {
        4
    };
    law_error_is_answered(connections, events, outputs, from, ErrorStatus::Forbidden);
    let (k, page) = choose|k: int, page: Seq<u8>|
        from <= k < outputs.len() && #[trigger] is_reply(
            connections,
            outputs,
            k,
            ErrorStatus::Forbidden,
            page,
        );
    assert(is_reply(connections, outputs, k, ErrorStatus::Forbidden, page));
    assert forall|k: int| 0 <= k < events.len() implies !((#[trigger] outputs[k]).action is Open) by {
        if outputs[k].action is Open {
            law_opened_files_lie_under_the_root(connections, events, outputs, k);
        }
    }
}

// ---------------------------------------------------------------------------------------------
// GET and HEAD
// ---------------------------------------------------------------------------------------------
/// A `HEAD` request is answered with a head and nothing else, whether the file is found or not.
pub proof fn law_head_requests_get_no_body(
    connections: Seq<Connection>,
    events: Seq<Event>,
    outputs: Seq<Output>,
    i: int,
)
    requires
        is_run(connections, events, outputs),
        is_head_request(events),
        0 <= i < events.len(),
    ensures
        !(outputs[i].action is SendFile),
        !(outputs[i].action is SendBody),
{
    lemma_head_only(connections, events, outputs, i);
    assert(is_step(connections, events, outputs, i));
}

/// A file is sent only for a `GET` request, after the head of its response.
pub proof fn law_files_are_sent_only_for_get(
    connections: Seq<Connection>,
    events: Seq<Event>,
    outputs: Seq<Output>,
    i: int,
)
    requires
        is_run(connections, events, outputs),
        0 <= i < events.len(),
        outputs[i].action is SendFile,
    ensures
        i > 0,
        is_served_request(events),
        Method::named(request_words(events)[0]) == Method::Get,
        outputs[i - 1].action is SendHead,
        events[i] is HeadSent,
{
    lemma_search_is_in_order(connections, events, outputs, i);
    lemma_head_only(connections, events, outputs, i);
    assert(is_step(connections, events, outputs, i));
    assert(is_step(connections, events, outputs, i - 1));
}

/// Two stages are alike: they wait for the same, with the same paths, the same error and the same
/// page.
pub open spec fn alike(a: Stage, b: Stage) -> bool {
    match (a, b) {
        (Stage::AwaitTimeout, Stage::AwaitTimeout) => true,
        (Stage::AwaitLine, Stage::AwaitLine) => true,
        (Stage::AwaitRoot { path: p }, Stage::AwaitRoot { path: q }) => p@ == q@,
        (
            Stage::AwaitTarget { root: r, path: p },
            Stage::AwaitTarget { root: s, path: q },
        ) => r@ == s@ && p@ == q@,
        (
            Stage::AwaitProbe { root: r, path: p },
            Stage::AwaitProbe { root: s, path: q },
        ) => r@ == s@ && p@ == q@,
        (
            Stage::AwaitIndex { root: r, path: p },
            Stage::AwaitIndex { root: s, path: q },
        ) => r@ == s@ && p@ == q@,
        (Stage::AwaitFile { path: p }, Stage::AwaitFile { path: q }) => p@ == q@,
        (
            Stage::AwaitHead { path: p, media: m, size: x },
            Stage::AwaitHead { path: q, media: n, size: y },
        ) => p@ == q@ && m@ == n@ && x == y,
        (
            Stage::AwaitBody { path: p, media: m, size: x },
            Stage::AwaitBody { path: q, media: n, size: y },
        ) => p@ == q@ && m@ == n@ && x == y,
        (
            Stage::AwaitPage { code: s, reason: r },
            Stage::AwaitPage { code: t, reason: u },
        ) => s == t && r@ == u@,
        (
            Stage::AwaitPageRoot { code: s, reason: r, page: p },
            Stage::AwaitPageRoot { code: t, reason: u, page: q },
        ) => s == t && r@ == u@ && p@ == q@,
        (
            Stage::AwaitContents { code: s, reason: r },
            Stage::AwaitContents { code: t, reason: u },
        ) => s == t && r@ == u@,
        (Stage::AwaitErrorHead { contents: p }, Stage::AwaitErrorHead { contents: q }) => p@ == q@,
        (Stage::AwaitErrorBody, Stage::AwaitErrorBody) => true,
        (Stage::Closed, Stage::Closed) => true,
        _ => false,
    }
}

/// Two actions are the same.
pub open spec fn same_action(a: Action, b: Action) -> bool {
    match (a, b) {
        (Action::SetReadTimeout(m), Action::SetReadTimeout(n)) => m == n,
        (Action::ReadLine, Action::ReadLine) => true,
        (Action::Resolve(p), Action::Resolve(q)) => p@ == q@,
        (Action::Probe(p), Action::Probe(q)) => p@ == q@,
        (Action::Open(p), Action::Open(q)) => p@ == q@,
        (Action::SendHead(h), Action::SendHead(k)) => h@ == k@,
        (Action::SendFile, Action::SendFile) => true,
        (Action::ReadPage(p), Action::ReadPage(q)) => p@ == q@,
        (Action::SendBody(p), Action::SendBody(q)) => p@ == q@,
        (Action::Close, Action::Close) => true,
        _ => false,
    }
}

/// Tells whether a connection waits for the head of a response to be sent.
pub open spec fn sends_head(stage: Stage) -> bool {
    stage is AwaitHead || stage is AwaitErrorHead
}

/// The rules leave no choice: for the same client, the same request and the same event there is one
/// thing to do, one log to write and one stage to go on with.
#[verifier::spinoff_prover]
#[verifier::rlimit(60)]
pub proof fn law_rules_are_deterministic(
    a: Connection,
    b: Connection,
    event: Event,
    after_a: Connection,
    after_b: Connection,
    out_a: Output,
    out_b: Output,
)
    requires
        a.context.same(b.context),
        alike(a.stage, b.stage),
        a.stage.expects(event),
        follows(a, event, after_a, out_a),
        follows(b, event, after_b, out_b),
    ensures
        after_a.context.same(after_b.context),
        alike(after_a.stage, after_b.stage),
        same_action(out_a.action, out_b.action),
        texts(out_a.log@) == texts(out_b.log@),
{
}

/// After the request line, what is done rests on the stage alone, and on whether the head is asked
/// for alone once the head was sent.
#[verifier::spinoff_prover]
#[verifier::rlimit(60)]
proof fn lemma_same_way(
    a: Connection,
    b: Connection,
    event: Event,
    after_a: Connection,
    after_b: Connection,
    out_a: Output,
    out_b: Output,
)
    requires
        a.context.same_client(b.context),
        alike(a.stage, b.stage),
        !(a.stage is AwaitLine),
        a.context.head_only == b.context.head_only || !sends_head(a.stage),
        a.stage.expects(event),
        follows(a, event, after_a, out_a),
        follows(b, event, after_b, out_b),
    ensures
        alike(after_a.stage, after_b.stage),
        same_action(out_a.action, out_b.action),
{
}

/// The events of two runs are the same, but for the request lines: both are requests that are
/// served, and their targets decode alike.
pub open spec fn ask_alike(a: Seq<Event>, b: Seq<Event>) -> bool {
    &&& is_served_request(a)
    &&& is_served_request(b)
    &&& decoded_target(request_words(a)[1]) == decoded_target(request_words(b)[1])
    &&& forall|i: int|
        0 <= i < a.len() && i < b.len() && i != 1 ==> #[trigger] a[i] == #[trigger] b[i]
}

/// Two runs that ask alike are alike, up to the head of a response if the methods differ.
proof fn lemma_asking_alike(
    connections_a: Seq<Connection>,
    a: Seq<Event>,
    outputs_a: Seq<Output>,
    connections_b: Seq<Connection>,
    b: Seq<Event>,
    outputs_b: Seq<Output>,
    i: int,
)
    requires
        is_run(connections_a, a, outputs_a),
        is_run(connections_b, b, outputs_b),
        connections_a[0].context.same_client(connections_b[0].context),
        ask_alike(a, b),
        0 <= i < a.len(),
        i < b.len(),
    ensures
        alike(connections_a[i].stage, connections_b[i].stage) || (is_head_request(a)
            != is_head_request(b) && answered(connections_a[i].stage)),
        is_head_request(a) == is_head_request(b) || !sends_head(connections_a[i].stage)
            ==> same_action(outputs_a[i].action, outputs_b[i].action),
    decreases i,
{
    law_client_stays(connections_a, a, outputs_a, i);
    law_client_stays(connections_b, b, outputs_b, i);
    lemma_head_only(connections_a, a, outputs_a, i);
    lemma_head_only(connections_b, b, outputs_b, i);
    assert(is_step(connections_a, a, outputs_a, i));
    assert(is_step(connections_b, b, outputs_b, i));
    if i > 0 {
        let k = i - 1;
        lemma_asking_alike(connections_a, a, outputs_a, connections_b, b, outputs_b, k);
        law_client_stays(connections_a, a, outputs_a, k);
        law_client_stays(connections_b, b, outputs_b, k);
        lemma_head_only(connections_a, a, outputs_a, k);
        lemma_head_only(connections_b, b, outputs_b, k);
        assert(is_step(connections_a, a, outputs_a, k));
        assert(is_step(connections_b, b, outputs_b, k));
        if k == 1 {
        } else {
            assert(a[k] == b[k]);
            if sends_head(connections_a[k].stage) && is_head_request(a) != is_head_request(b) {
                // One of the two runs is at its end, and takes no further event.
                assert(connections_a[i].stage is Closed || connections_b[i].stage is Closed);
            } else {
                lemma_same_way(
                    connections_a[k],
                    connections_b[k],
                    a[k],
                    connections_a[i],
                    connections_b[i],
                    outputs_a[k],
                    outputs_b[k],
                );
            }
        }
    }
    if i != 1 {
        assert(a[i] == b[i]);
        if is_head_request(a) == is_head_request(b) || !sends_head(connections_a[i].stage) {
            lemma_same_way(
                connections_a[i],
                connections_b[i],
                a[i],
                connections_a[i + 1],
                connections_b[i + 1],
                outputs_a[i],
                outputs_b[i],
            );
        }
    }
}

/// Two targets that decode alike get the same answer: with the same method and the same answers of
/// the file system, the same is done throughout.
pub proof fn law_targets_that_decode_alike_get_the_same_answer(
    connections_a: Seq<Connection>,
    a: Seq<Event>,
    outputs_a: Seq<Output>,
    connections_b: Seq<Connection>,
    b: Seq<Event>,
    outputs_b: Seq<Output>,
    i: int,
)
    requires
        is_run(connections_a, a, outputs_a),
        is_run(connections_b, b, outputs_b),
        connections_a[0].context.same_client(connections_b[0].context),
        ask_alike(a, b),
        request_words(a)[0] == request_words(b)[0],
        0 <= i < a.len(),
        i < b.len(),
    ensures
        same_action(outputs_a[i].action, outputs_b[i].action),
{
    lemma_asking_alike(connections_a, a, outputs_a, connections_b, b, outputs_b, i);
}

/// A `HEAD` request goes the way of the `GET` request for the same target: the same questions are
/// asked, and the same head is sent, be it that of a file or of an error.
pub proof fn law_head_is_the_head_of_get(
    connections_g: Seq<Connection>,
    get: Seq<Event>,
    outputs_g: Seq<Output>,
    connections_h: Seq<Connection>,
    head: Seq<Event>,
    outputs_h: Seq<Output>,
    i: int,
)
    requires
        is_run(connections_g, get, outputs_g),
        is_run(connections_h, head, outputs_h),
        connections_g[0].context.same_client(connections_h[0].context),
        ask_alike(get, head),
        request_words(get)[0] == "GET"@,
        request_words(head)[0] == "HEAD"@,
        0 <= i < get.len(),
        i < head.len(),
        !sends_head(connections_g[i].stage),
    ensures
        same_action(outputs_g[i].action, outputs_h[i].action),
{
    lemma_asking_alike(connections_g, get, outputs_g, connections_h, head, outputs_h, i);
}

// ---------------------------------------------------------------------------------------------
// Whole requests
// ---------------------------------------------------------------------------------------------
/// A request that is served asks for the root directory, then for the path that its target means
/// under it, then whether that path is a directory, for its index if it is one, and then opens the
/// file.
pub proof fn law_request_is_located(
    connections: Seq<Connection>,
    events: Seq<Event>,
    outputs: Seq<Output>,
)
    requires
        is_run(connections, events, outputs),
        is_served_request(events),
        is_located(connections[0].context.root_dir@, events),
        !index_leads_outside(events),
        events.len() >= file_event(events),
    ensures
        ({
            let root_dir = connections[0].context.root_dir@;
            let n = file_event(events);
            &&& asks_for(outputs[1], root_dir)
            &&& asks_for(outputs[2], asked_path(root_dir, events))
            &&& outputs[3].action matches Action::Probe(asked) && asked@ == found_path(
                root_dir,
                events,
            )
            &&& is_directory(events) ==> asks_for(outputs[4], located_path(root_dir, events))
            &&& outputs[n - 1].opens(connections[n], located_path(root_dir, events))
            &&& outputs[n - 1].action matches Action::Open(asked) && asked@ == located_path(
                root_dir,
                events,
            )
            &&& connections[n].stage matches Stage::AwaitFile { path } && path@ == located_path(
                root_dir,
                events,
            )
            &&& connections[n].context.root_dir@ == root_dir
            &&& connections[n].context.head_only == is_head_request(events)
        }),
{
    assert(is_step(connections, events, outputs, 0));
    assert(is_step(connections, events, outputs, 1));
    assert(is_step(connections, events, outputs, 2));
    assert(is_step(connections, events, outputs, 3));
    assert(is_step(connections, events, outputs, 4));
    if is_directory(events) {
        assert(is_step(connections, events, outputs, 5));
    }
}

/// A file that is found under the root directory is served: the head of the response tells its
/// media type and its size, and the file itself follows if, and only if, the method is `GET`.
pub proof fn law_found_file_is_served(
    connections: Seq<Connection>,
    events: Seq<Event>,
    outputs: Seq<Output>,
)
    requires
        is_run(connections, events, outputs),
        is_served_request(events),
        is_located(connections[0].context.root_dir@, events),
        !index_leads_outside(events),
        events.len() > file_event(events),
        events[file_event(events)] matches Event::Opened { is_dir: false, .. },
    ensures
        ({
            let path = located_path(connections[0].context.root_dir@, events);
            let n = file_event(events);
            &&& outputs[n].action matches Action::SendHead(head) && head@ == file_head(
                media_of(path),
                events[n]->Opened_size as nat,
            )
            &&& events.len() > n + 1 && events[n + 1] is HeadSent ==> if Method::named(
                request_words(events)[0],
            ) == Method::Get {
                outputs[n + 1].action is SendFile
            } else {
                outputs[n + 1].action is Close
            }
        }),
{
    law_request_is_located(connections, events, outputs);
    let n = file_event(events);
    assert(is_step(connections, events, outputs, n));
    if events.len() > n + 1 {
        assert(is_step(connections, events, outputs, n + 1));
    }
}

/// A request for a file that is missing or may not be read is answered with `404 Not Found`.
pub proof fn law_missing_file_is_not_found(
    connections: Seq<Connection>,
    events: Seq<Event>,
    outputs: Seq<Output>,
)
    requires
        is_run(connections, events, outputs),
        is_served_request(events),
        is_located(connections[0].context.root_dir@, events),
        !index_leads_outside(events),
        events.len() > file_event(events),
        events[file_event(events)] matches Event::NotOpened(failure) && (failure.kind
            == IoKind::NotFound || failure.kind == IoKind::PermissionDenied),
        connections[events.len() as int].stage is Closed,
    ensures
        asks_for(
            outputs[file_event(events)],
            page_path(connections[0].context.root_dir@, 404),
        ),
        is_answered_with(connections, outputs, file_event(events) + 1, ErrorStatus::NotFound),
{
    law_request_is_located(connections, events, outputs);
    let n = file_event(events);
    assert(is_step(connections, events, outputs, n));
    law_error_is_answered(connections, events, outputs, n + 1, ErrorStatus::NotFound);
}

/// The error that a request line is answered with at once, if it is.
pub open spec fn line_error(event: Event) -> Option<ErrorStatus> {
    match event {
        Event::LineRead(line) => {
            let parts = words(trimmed(line@));
            if parts.len() != 3 {
                Some(ErrorStatus::BadRequest)
            } else if parts[2] != served_version() {
                Some(ErrorStatus::HttpVersionNotSupported)
            } else if Method::named(parts[0]) == Method::Other {
                Some(ErrorStatus::NotImplemented)
            } else {
                None
            }
        },
        Event::LineFailed(failure) => if failure.kind == IoKind::WouldBlock || failure.kind
            == IoKind::TimedOut {
            Some(ErrorStatus::RequestTimeout)
        } else {
            None
        },
        _ => None,
    }
}

/// A request line that cannot be served, or that does not come in time, is answered at once and
/// without a look at the file system: `400` if it has not three words, `505` if it is of another
/// version, `501` if its method is not known, `408` if it does not come. If it can be sent, the
/// page that the server makes follows the head.
pub proof fn law_bad_requests_are_answered_at_once(
    connections: Seq<Connection>,
    events: Seq<Event>,
    outputs: Seq<Output>,
    status: ErrorStatus,
)
    requires
        is_run(connections, events, outputs),
        events.len() > 1,
        line_error(events[1]) == Some(status),
    ensures
        is_reply(
            connections,
            outputs,
            1,
            status,
            default_body(status.number(), status.words()),
        ),
        events.len() > 2 && events[2] is HeadSent ==> (outputs[2].action matches Action::SendBody(
            page,
        ) && page@ == default_body(status.number(), status.words())),
        events.len() <= 4,
        forall|k: int|
            1 < k < events.len() ==> (#[trigger] outputs[k]).action is SendBody
                || outputs[k].action is Close,
{
    assert(is_step(connections, events, outputs, 0));
    assert(is_step(connections, events, outputs, 1));
    if events.len() > 2 {
        assert(is_step(connections, events, outputs, 2));
    }
    if events.len() > 3 {
        assert(is_step(connections, events, outputs, 3));
    }
    if events.len() > 4 {
        assert(is_step(connections, events, outputs, 4));
    }
}

// ---------------------------------------------------------------------------------------------
// The log
// ---------------------------------------------------------------------------------------------
/// Every request of the served version is logged, with its method, its target and the client.
pub proof fn law_requests_are_logged(
    connections: Seq<Connection>,
    events: Seq<Event>,
    outputs: Seq<Output>,
)
    requires
        is_run(connections, events, outputs),
        events.len() > 1,
        request_words(events).len() == 3,
        request_words(events)[2] == served_version(),
    ensures
        texts(outputs[1].log@).len() > 0,
        texts(outputs[1].log@)[0] == request_received(
            request_words(events)[0],
            request_words(events)[1],
            connections[0].context.peer@,
        ),
{
    assert(is_step(connections, events, outputs, 0));
    assert(is_step(connections, events, outputs, 1));
}

/// A connection that answers an error, or did, has logged something.
proof fn lemma_error_was_logged(
    connections: Seq<Connection>,
    events: Seq<Event>,
    outputs: Seq<Output>,
    n: int,
)
    requires
        is_run(connections, events, outputs),
        0 <= n <= events.len(),
        ({
            ||| pending_error(connections[n].stage) is Some
            ||| connections[n].stage is AwaitErrorHead
            ||| connections[n].stage is AwaitErrorBody
            ||| connections[n].stage is Closed
        }),
    ensures
        exists|k: int| 0 <= k < n && (#[trigger] outputs[k]).log@.len() > 0,
    decreases n,
{
    if n > 0 {
        let i = n - 1;
        assert(is_step(connections, events, outputs, i));
        assert(outputs[i].log@.len() == texts(outputs[i].log@).len());
        if outputs[i].log@.len() == 0 {
            lemma_error_was_logged(connections, events, outputs, i);
        }
    }
}

/// No connection comes to its end without a line in the log.
pub proof fn law_every_connection_is_logged(
    connections: Seq<Connection>,
    events: Seq<Event>,
    outputs: Seq<Output>,
)
    requires
        is_run(connections, events, outputs),
        connections[events.len() as int].stage is Closed,
    ensures
        exists|k: int| 0 <= k < events.len() && (#[trigger] outputs[k]).log@.len() > 0,
{
    lemma_error_was_logged(connections, events, outputs, events.len() as int);
}

// ---------------------------------------------------------------------------------------------
// Media types
// ---------------------------------------------------------------------------------------------
/// The media type of a file goes by its extension alone, whatever the case of its letters.
pub proof fn law_media_type_goes_by_extension(a: Seq<u8>, b: Seq<u8>)
    requires
        extension(a) is Some,
        extension(b) is Some,
        ascii_lowered(extension(a)->0) == ascii_lowered(extension(b)->0),
    ensures
        media_of(a) == media_of(b),
{
}

/// The response for a file can be read back: it says `200 OK`, the media type that there is for the
/// extension of the file that was opened, `application/octet-stream` if it has no extension, and
/// the size of the file.
pub proof fn law_file_response_is_read_back(
    connections: Seq<Connection>,
    events: Seq<Event>,
    outputs: Seq<Output>,
    i: int,
) -> (d: Seq<char>)
    requires
        is_run(connections, events, outputs),
        0 <= i < events.len(),
        events[i] matches Event::Opened { is_dir: false, .. },
    ensures
        i > 0,
        outputs[i - 1].action is Open,
        outputs[i].action is SendHead,
        number(d, u64::MAX as nat) == Ok::<nat, NumberError>(events[i]->Opened_size as nat),
        ({
            let media = match extension(outputs[i - 1].action->Open_0@) {
                None => "application/octet-stream"@,
                Some(ext) => media_type(ascii_lowered(ext)),
            };
            lines_of(outputs[i].action->SendHead_0@) == seq![
                "HTTP/1.1 200 OK"@ + "\r"@,
                "Content-Type: "@ + media + "\r"@,
                "Content-Length: "@ + d + "\r"@,
                "Connection: close\r"@,
                "\r"@,
                ""@,
            ]
        }),
{
    assert(is_step(connections, events, outputs, i));
    lemma_search_is_in_order(connections, events, outputs, i);
    assert(is_step(connections, events, outputs, i - 1));
    let path = connections[i].stage->AwaitFile_path@;
    let d = law_file_head_is_read_back(media_of(path), events[i]->Opened_size as nat);
    assert(number(d, u64::MAX as nat) == Ok::<nat, NumberError>(events[i]->Opened_size as nat));
    d
}

// ---------------------------------------------------------------------------------------------
// Files and pages by their names
// ---------------------------------------------------------------------------------------------
/// An ASCII text without a slash, other than `.`, names an entry.
proof fn lemma_ascii_entry(name: Seq<char>)
    requires
        is_ascii_chars(name),
        name.len() > 1,
        forall|i: int| 0 <= i < name.len() ==> #[trigger] name[i] != '/',
    ensures
        is_entry(encode_utf8(name)),
{
    is_ascii_chars_encode_utf8(name);
    is_ascii_chars_nat_bound(name);
    let bytes = encode_utf8(name);
    assert forall|i: int| 0 <= i < bytes.len() implies #[trigger] bytes[i] != 0x2f by {
        assert(name[i] != '/');
        assert(bytes[i] == name[i] as u8);
    }
}

/// The file that is sent for a directory is the entry `index.html` of that directory.
pub proof fn law_index_is_an_entry_of_the_directory(path: Seq<u8>)
    requires
        path.len() > 0,
    ensures
        components(index_of(path)) == components(path).push(encode_utf8("index.html"@)),
{
    reveal_strlit("index.html");
    assert(is_ascii_chars("index.html"@));
    lemma_ascii_entry("index.html"@);
    law_joined_entry_is_one_more_component(path, encode_utf8("index.html"@));
}

/// A directory is served by the entry `index.html` in it, and anything else by itself.
pub proof fn law_opened_file_is_the_index_or_the_path(
    connections: Seq<Connection>,
    events: Seq<Event>,
    outputs: Seq<Output>,
    i: int,
)
    requires
        is_run(connections, events, outputs),
        0 <= i < events.len(),
        outputs[i].action is Open,
        found_path(connections[0].context.root_dir@, events).len() > 0,
    ensures
        ({
            let found = found_path(connections[0].context.root_dir@, events);
            let opened = outputs[i].action->Open_0@;
            if events[4] == Event::Probed(true) {
                components(opened) == components(found).push(encode_utf8("index.html"@))
            } else {
                opened == found
            }
        }),
{
    law_opened_files_lie_under_the_root(connections, events, outputs, i);
    law_index_is_an_entry_of_the_directory(
        found_path(connections[0].context.root_dir@, events),
    );
}

/// A site's own page for an error is an entry of the root directory, with the number of the error
/// as its name and `.html` behind it.
pub proof fn law_page_is_an_entry_of_the_root(root: Seq<u8>, code: u16) -> (name: Seq<char>)
    requires
        root.len() > 0,
    ensures
        components(page_path(root, code)) == components(root).push(encode_utf8(name)),
        name.len() > 5,
        name.skip(name.len() - 5) == ".html"@,
        number(name.take(name.len() - 5), 65535) == Ok::<nat, NumberError>(code as nat),
        name[0] == '0' ==> code == 0,
{
    reveal_strlit(".html");
    let name = page_name(code as nat);
    let digits = decimal(code as nat);
    law_page_name_is_read_back(code as nat);
    law_decimal_has_no_leading_zeros(code as nat);
    law_decimal_is_read_back(code as nat, 65535);
    assert(name.take(name.len() - 5) =~= digits);
    assert forall|i: int| 0 <= i < name.len() implies '!' <= #[trigger] name[i] <= '~' && name[i]
        != '/' by {
        if i < digits.len() {
            assert('0' <= digits[i] <= '9');
        } else {
            assert(name[i] == ".html"@[i - digits.len()]);
        }
    }
    assert(is_ascii_chars(name));
    lemma_ascii_entry(name);
    law_joined_entry_is_one_more_component(root, encode_utf8(name));
    name
}

/// A reply to `403` or `404` begins with a look for the site's own page, and a reply to any other
/// error with its head.
pub proof fn law_own_page_is_looked_for_first(
    first: Output,
    after: Connection,
    root_dir: Seq<u8>,
    code: u16,
    reason: Seq<char>,
)
    requires
        first.refuses(after, root_dir, code, reason),
    ensures
        if code == 403 || code == 404 {
            asks_for(first, page_path(root_dir, code))
        } else {
            first.action is SendHead
        },
        events_left(after.stage) > 0,
{
}

/// The page that the server makes for an error can be read back: its title and its heading are the
/// number and the words of the error.
pub proof fn law_default_page_is_read_back(code: u16, reason: Seq<char>) -> (d: Seq<char>)
    requires
        is_plain_text(reason),
    ensures
        number(d, 65535) == Ok::<nat, NumberError>(code as nat),
        valid_utf8(default_body(code, reason)),
        html_pieces(decode_utf8(default_body(code, reason))) == seq![
            "html"@,
            "head"@,
            "title"@,
            d + " "@ + reason,
            "/title"@,
            "/head"@,
            "body"@,
            "h1"@,
            d + " "@ + reason,
            "/h1"@,
            "/body"@,
            "/html"@,
        ],
{
    encode_utf8_valid_utf8(error_page(code as nat, reason));
    encode_utf8_decode_utf8(error_page(code as nat, reason));
    let d = law_error_page_is_read_back(code as nat, reason);
    assert(number(d, 65535) == Ok::<nat, NumberError>(code as nat));
    d
}

/// The page that the server makes is one text for all errors, with the number and the words of the
/// error filled in twice.
pub open spec fn is_page_text(a: Seq<char>, b: Seq<char>, c: Seq<char>) -> bool {
    forall|code: u16, reason: Seq<char>|
        {
            let told = decimal(code as nat) + " "@ + reason;
            decode_utf8(#[trigger] default_body(code, reason)) == a + told + b + told + c
        }
}

/// The page that the server makes differs from error to error in nothing but the number and the
/// words of the error, which it holds in full.
pub proof fn law_default_page_is_one_text()
    ensures
        exists|a: Seq<char>, b: Seq<char>, c: Seq<char>| #[trigger] is_page_text(a, b, c),
{
    let a = "<html><head><title>"@;
    let b = "</title></head><body><h1>"@;
    let c = "</h1></body></html>"@;
    assert forall|code: u16, reason: Seq<char>|
        ({
            let told = decimal(code as nat) + " "@ + reason;
            decode_utf8(#[trigger] default_body(code, reason)) == a + told + b + told + c
        }) by {
        let told = decimal(code as nat) + " "@ + reason;
        encode_utf8_decode_utf8(error_page(code as nat, reason));
        assert(error_page(code as nat, reason) =~= a + told + b + told + c);
    }
    assert(is_page_text(a, b, c));
}

// ---------------------------------------------------------------------------------------------
// Each answer gets its due
// ---------------------------------------------------------------------------------------------
/// Just these requests are served: three words, `GET` or `HEAD` in front and `HTTP/1.1` at the end.
pub proof fn law_served_requests(events: Seq<Event>)
    requires
        events.len() > 1,
        events[1] is LineRead,
    ensures
        is_served_request(events) <==> {
            let parts = words(events[1]->LineRead_0@);
            &&& parts.len() == 3
            &&& parts[0] == "GET"@ || parts[0] == "HEAD"@
            &&& parts[2] == "HTTP/1.1"@
        },
        request_words(events) == words(events[1]->LineRead_0@),
{
    law_trimming_keeps_words(events[1]->LineRead_0@);
    law_known_methods(request_words(events)[0]);
}

/// Tells whether an event is an answer to an action.
pub open spec fn is_answer_to(action: Action, event: Event) -> bool {
    match action {
        Action::SetReadTimeout(_) => event is TimeoutSet || event is TimeoutRefused,
        Action::ReadLine => event is LineRead || event is LineEnded || event is LineFailed,
        Action::Resolve(_) => event is Resolved || event is Unresolved,
        Action::Probe(_) => event is Probed,
        Action::Open(_) => event is Opened || event is NotOpened || event is NotDescribed,
        Action::SendHead(_) => event is HeadSent || event is HeadFailed,
        Action::SendFile => event is BodySent || event is BodyFailed,
        Action::ReadPage(_) => event is PageRead || event is PageUnread,
        Action::SendBody(_) => event is BodySent || event is BodyFailed,
        Action::Close => false,
    }
}

/// Whatever came of an action, a connection takes it in; and it is at its end just when it is
/// closed.
pub proof fn law_every_answer_is_taken_in(
    before: Connection,
    event: Event,
    after: Connection,
    out: Output,
    answer: Event,
)
    requires
        before.stage.expects(event),
        follows(before, event, after, out),
    ensures
        is_answer_to(out.action, answer) <==> after.stage.expects(answer),
        out.action is Close <==> after.stage is Closed,
{
}

/// A new connection takes in whatever comes of the read timeout, and reads the request line then;
/// a timeout that could not be set is logged.
pub proof fn law_request_line_is_read_first(
    connections: Seq<Connection>,
    events: Seq<Event>,
    outputs: Seq<Output>,
    answer: Event,
)
    requires
        is_run(connections, events, outputs),
    ensures
        is_answer_to(Action::SetReadTimeout(0), answer) <==> connections[0].stage.expects(answer),
        events.len() > 0 ==> outputs[0].action is ReadLine,
        events.len() > 0 && events[0] is TimeoutSet ==> outputs[0].log@.len() == 0,
        events.len() > 0 && events[0] is TimeoutRefused ==> outputs[0].log@.len() == 1,
{
    if events.len() > 0 {
        assert(is_step(connections, events, outputs, 0));
        assert(outputs[0].log@.len() == texts(outputs[0].log@).len());
    }
}

/// A client that sends nothing, or whose line cannot be read for another reason than that it comes
/// too late, gets no answer.
pub proof fn law_no_request_gets_no_answer(
    connections: Seq<Connection>,
    events: Seq<Event>,
    outputs: Seq<Output>,
)
    requires
        is_run(connections, events, outputs),
        events.len() > 1,
        events[1] is LineEnded || (events[1] matches Event::LineFailed(failure) && failure.kind
            != IoKind::WouldBlock && failure.kind != IoKind::TimedOut),
    ensures
        outputs[1].action is Close,
        events.len() == 2,
{
    assert(is_step(connections, events, outputs, 0));
    assert(is_step(connections, events, outputs, 1));
    if events.len() > 2 {
        assert(is_step(connections, events, outputs, 2));
    }
}

/// If the root directory itself cannot be resolved, the answer is `500 Internal Server Error`.
pub proof fn law_unresolved_root_is_an_internal_error(
    connections: Seq<Connection>,
    events: Seq<Event>,
    outputs: Seq<Output>,
)
    requires
        is_run(connections, events, outputs),
        is_served_request(events),
        events.len() > 2,
        events[2] is Unresolved,
    ensures
        is_reply(
            connections,
            outputs,
            2,
            ErrorStatus::InternalServerError,
            default_body(500, "Internal Server Error"@),
        ),
{
    assert(is_step(connections, events, outputs, 0));
    assert(is_step(connections, events, outputs, 1));
    assert(is_step(connections, events, outputs, 2));
}

/// The error that the attempt to open a file is answered with, if it is.
pub open spec fn file_error(event: Event) -> Option<ErrorStatus> {
    match event {
        Event::Opened { is_dir: true, .. } => Some(ErrorStatus::Forbidden),
        Event::NotDescribed(_) => Some(ErrorStatus::InternalServerError),
        Event::NotOpened(failure) => if failure.kind == IoKind::NotFound || failure.kind
            == IoKind::PermissionDenied {
            Some(ErrorStatus::NotFound)
        } else {
            Some(ErrorStatus::InternalServerError)
        },
        _ => None,
    }
}

/// What cannot be opened, is a directory after all, or cannot be described is answered with the
/// error that fits, and logged.
pub proof fn law_file_errors_are_answered(
    connections: Seq<Connection>,
    events: Seq<Event>,
    outputs: Seq<Output>,
    i: int,
    status: ErrorStatus,
)
    requires
        is_run(connections, events, outputs),
        0 <= i < events.len(),
        file_error(events[i]) == Some(status),
        connections[events.len() as int].stage is Closed,
    ensures
        is_answered_with(connections, outputs, i, status),
        outputs[i].log@.len() == 1,
{
    assert(is_step(connections, events, outputs, i));
    assert(outputs[i].log@.len() == texts(outputs[i].log@).len());
    if status == ErrorStatus::InternalServerError {
        let page = default_body(status.number(), status.words());
        assert(is_reply(connections, outputs, i, status, page));
    } else {
        law_error_is_answered(connections, events, outputs, i + 1, status);
        let (k, page) = choose|k: int, page: Seq<u8>|
            i + 1 <= k < outputs.len() && #[trigger] is_reply(
                connections,
                outputs,
                k,
                status,
                page,
            );
        assert(is_reply(connections, outputs, k, status, page));
    }
}

/// Nothing follows a head that could not be sent.
pub proof fn law_nothing_follows_a_failed_head(
    connections: Seq<Connection>,
    events: Seq<Event>,
    outputs: Seq<Output>,
    i: int,
)
    requires
        is_course(connections, events, outputs),
        0 <= i < events.len(),
        events[i] is HeadFailed,
    ensures
        outputs[i].action is Close,
        events.len() == i + 1,
{
    assert(is_step(connections, events, outputs, i));
    if events.len() > i + 1 {
        assert(is_step(connections, events, outputs, i + 1));
    }
}

/// A body is the last thing: the connection is closed behind it, whatever came of it.
pub proof fn law_nothing_follows_a_body(
    connections: Seq<Connection>,
    events: Seq<Event>,
    outputs: Seq<Output>,
    i: int,
)
    requires
        is_course(connections, events, outputs),
        0 <= i < events.len(),
        events[i] is BodySent || events[i] is BodyFailed,
    ensures
        outputs[i].action is Close,
        events.len() == i + 1,
{
    assert(is_step(connections, events, outputs, i));
    if events.len() > i + 1 {
        assert(is_step(connections, events, outputs, i + 1));
    }
}

/// What a failure says, where it is logged.
pub open spec fn logged_reason(stage: Stage, event: Event) -> Option<Seq<char>> {
    match event {
        Event::TimeoutRefused(error) => Some(error@),
        Event::LineFailed(failure) if failure.kind != IoKind::WouldBlock && failure.kind
            != IoKind::TimedOut => Some(failure.text@),
        Event::Unresolved(error) if stage is AwaitRoot || stage is AwaitTarget => Some(error@),
        Event::NotDescribed(error) => Some(error@),
        Event::NotOpened(failure) if failure.kind != IoKind::NotFound && failure.kind
            != IoKind::PermissionDenied => Some(failure.text@),
        Event::HeadFailed(error) if stage is AwaitHead => Some(error@),
        Event::BodyFailed(error) if stage is AwaitBody => Some(error@),
        _ => None,
    }
}

/// The log names what it is about: before and at the request line, each line names the client;
/// while a file is opened and sent, each line names the file; and where something failed, the
/// first line tells what the failure says.
pub proof fn law_log_names_what_it_is_about(
    connections: Seq<Connection>,
    events: Seq<Event>,
    outputs: Seq<Output>,
    i: int,
    k: int,
)
    requires
        is_course(connections, events, outputs),
        0 <= i < events.len(),
        0 <= k < texts(outputs[i].log@).len(),
    ensures
        ({
            let line = texts(outputs[i].log@)[k];
            match connections[i].stage {
                Stage::AwaitTimeout => mentions(line, connections[i].context.peer@),
                Stage::AwaitLine => mentions(line, connections[i].context.peer@),
                Stage::AwaitFile { path } => mentions(line, shown(path@)),
                Stage::AwaitHead { path, .. } => mentions(line, shown(path@)),
                Stage::AwaitBody { path, .. } => mentions(line, shown(path@)),
                _ => true,
            }
        }),
{
    assert(is_step(connections, events, outputs, i));
    let peer = connections[i].context.peer@;
    let none = Seq::<char>::empty();
    let line = texts(outputs[i].log@)[k];
    match connections[i].stage {
        Stage::AwaitTimeout => {
            lemma_mentions("Failed to set read timeout for "@, peer, ": "@
                + events[i]->TimeoutRefused_0@);
            assert(line =~= "Failed to set read timeout for "@ + peer + (": "@
                + events[i]->TimeoutRefused_0@));
        },
        Stage::AwaitLine => {
            lemma_lines_name_the_client(connections[i], events[i], connections[i + 1], outputs[i], k);
        },
        Stage::AwaitFile { path } => {
            let name = shown(path@);
            match events[i] {
                Event::Opened { .. } => {
                    lemma_mentions("Attempt to serve directory directly: "@, name, none);
                },
                Event::NotDescribed(error) => {
                    lemma_mentions("Error getting metadata for "@, name, ": "@ + error@);
                    assert(line =~= "Error getting metadata for "@ + name + (": "@ + error@));
                },
                Event::NotOpened(failure) => {
                    lemma_mentions("File not found or inaccessible: "@, name, none);
                    lemma_mentions("Error opening file "@, name, ": "@ + failure.text@);
                    assert(open_failed(name, failure.text@) =~= "Error opening file "@ + name
                        + (": "@ + failure.text@));
                },
                _ => {},
            }
        },
        Stage::AwaitHead { path, media, size } => {
            let name = shown(path@);
            let rest = " ("@ + media@ + ", "@ + decimal(size as nat) + " bytes)"@;
            match events[i] {
                Event::HeadFailed(error) => {
                    lemma_mentions("Error writing headers for "@, name, ": "@ + error@);
                    assert(line =~= "Error writing headers for "@ + name + (": "@ + error@));
                },
                _ => {
                    lemma_mentions("Served HEAD for "@, name, rest);
                    assert(line =~= "Served HEAD for "@ + name + rest);
                },
            }
        },
        Stage::AwaitBody { path, media, size } => {
            let name = shown(path@);
            let rest = " ("@ + media@ + ", "@ + decimal(size as nat) + " bytes)"@;
            match events[i] {
                Event::BodyFailed(error) => {
                    lemma_mentions("Error streaming file "@, name, ": "@ + error@);
                    assert(line =~= "Error streaming file "@ + name + (": "@ + error@));
                },
                _ => {
                    lemma_mentions("Served "@, name, rest);
                    assert(line =~= "Served "@ + name + rest);
                },
            }
        },
        _ => {},
    }
}

/// The lines about a request line name the client.
proof fn lemma_lines_name_the_client(
    before: Connection,
    event: Event,
    after: Connection,
    out: Output,
    k: int,
)
    requires
        before.stage is AwaitLine,
        before.stage.expects(event),
        follows(before, event, after, out),
        0 <= k < texts(out.log@).len(),
    ensures
        mentions(texts(out.log@)[k], before.context.peer@),
{
    let peer = before.context.peer@;
    let none = Seq::<char>::empty();
    let line = texts(out.log@)[k];
    match event {
        Event::LineRead(text) => {
            let parts = words(trimmed(text@));
            if parts.len() != 3 {
                lemma_mentions("Malformed request line from "@, peer, ": "@ + trimmed(text@));
                assert(line =~= "Malformed request line from "@ + peer + (": "@ + trimmed(text@)));
            } else if parts[2] != served_version() {
                lemma_mentions("Unsupported HTTP version from "@, peer, ": "@ + parts[2]);
                assert(line =~= "Unsupported HTTP version from "@ + peer + (": "@ + parts[2]));
            } else if k == 0 {
                lemma_mentions(
                    "Received "@ + parts[0] + " request for "@ + parts[1] + " from "@,
                    peer,
                    none,
                );
            } else {
                lemma_mentions("Unsupported method "@ + parts[0] + " from "@, peer, none);
            }
        },
        Event::LineFailed(failure) => {
            lemma_mentions("Read timeout waiting for request line from "@, peer, none);
            lemma_mentions("Error reading request line from "@, peer, ": "@ + failure.text@);
            assert(line_failed(peer, failure.text@) =~= "Error reading request line from "@ + peer
                + (": "@ + failure.text@));
        },
        _ => {
            lemma_mentions("Client "@, peer, " disconnected before sending request."@);
        },
    }
}

/// Where something failed, the first line for the log tells what the failure says.
pub proof fn law_log_tells_the_reason(
    connections: Seq<Connection>,
    events: Seq<Event>,
    outputs: Seq<Output>,
    i: int,
)
    requires
        is_course(connections, events, outputs),
        0 <= i < events.len(),
    ensures
        logged_reason(connections[i].stage, events[i]) matches Some(reason) ==> texts(
            outputs[i].log@,
        ).len() > 0 && mentions(texts(outputs[i].log@)[0], reason),
{
    assert(is_step(connections, events, outputs, i));
    let none = Seq::<char>::empty();
    let c = connections[i].context;
    match logged_reason(connections[i].stage, events[i]) {
        Some(reason) => {
            match connections[i].stage {
                Stage::AwaitTimeout => {
                    lemma_mentions(
                        "Failed to set read timeout for "@ + c.peer@ + ": "@,
                        reason,
                        none,
                    );
                },
                Stage::AwaitLine => {
                    lemma_mentions(
                        "Error reading request line from "@ + c.peer@ + ": "@,
                        reason,
                        none,
                    );
                },
                Stage::AwaitRoot { .. } => {
                    lemma_mentions(
                        "Failed to canonicalize root dir "@ + shown(c.root_dir@) + ": "@,
                        reason,
                        none,
                    );
                },
                Stage::AwaitTarget { path, .. } => {
                    lemma_mentions(
                        "Note: Could not canonicalize requested path "@ + shown(path@) + ": "@,
                        reason,
                        ". Will check existence."@,
                    );
                },
                Stage::AwaitFile { path } => {
                    lemma_mentions(
                        "Error getting metadata for "@ + shown(path@) + ": "@,
                        reason,
                        none,
                    );
                    lemma_mentions("Error opening file "@ + shown(path@) + ": "@, reason, none);
                },
                Stage::AwaitHead { path, .. } => {
                    lemma_mentions(
                        "Error writing headers for "@ + shown(path@) + ": "@,
                        reason,
                        none,
                    );
                },
                Stage::AwaitBody { path, .. } => {
                    lemma_mentions("Error streaming file "@ + shown(path@) + ": "@, reason, none);
                },
                _ => {},
            }
        },
        None => {},
    }
}

/// A connection begins with the read timeout that is configured, for the client and the root
/// directory that are given, and with no request yet.
pub proof fn law_connection_begins_as_configured(
    peer: Option<Seq<char>>,
    root_dir: Seq<u8>,
    read_timeout_secs: u64,
    connections: Seq<Connection>,
    events: Seq<Event>,
    outputs: Seq<Output>,
    first: Output,
)
    requires
        begins(peer, root_dir, read_timeout_secs, connections[0], first),
        is_course(connections, events, outputs),
    ensures
        is_run(connections, events, outputs),
        first.action == Action::SetReadTimeout(read_timeout_secs),
        first.log@.len() == 0,
        connections[0].context.root_dir@ == root_dir,
        peer matches Some(address) ==> connections[0].context.peer@ == address,
{
    assert(first.log@.len() == texts(first.log@).len());
}

/// A file that was sent, or whose head was, is logged with the path that was opened, the media type
/// that there is for its extension, and its size.
pub proof fn law_served_files_are_logged(
    connections: Seq<Connection>,
    events: Seq<Event>,
    outputs: Seq<Output>,
    i: int,
)
    requires
        is_run(connections, events, outputs),
        1 <= i < events.len(),
        outputs[i - 1].action is Open,
        events[i] matches Event::Opened { is_dir: false, .. },
    ensures
        ({
            let path = outputs[i - 1].action->Open_0@;
            let size = events[i]->Opened_size as nat;
            let media = match extension(path) {
                None => "application/octet-stream"@,
                Some(ext) => media_type(ascii_lowered(ext)),
            };
            &&& events.len() > i + 1 && events[i + 1] is HeadSent ==> texts(outputs[i + 1].log@)
                == if is_head_request(events) {
                seq![head_served(shown(path), media, size)]
            } else {
                Seq::empty()
            }
            &&& events.len() > i + 2 && events[i + 2] is BodySent ==> texts(outputs[i + 2].log@)
                == seq![file_served(shown(path), media, size)]
        }),
{
    assert(is_step(connections, events, outputs, i - 1));
    assert(is_step(connections, events, outputs, i));
    if events.len() > i + 1 {
        lemma_head_only(connections, events, outputs, i + 1);
        lemma_search_is_in_order(connections, events, outputs, i + 1);
        assert(is_step(connections, events, outputs, i + 1));
        if events.len() > i + 2 {
            assert(is_step(connections, events, outputs, i + 2));
        }
    }
}

/// A request that is refused because it leads out of the root directory is logged with its target
/// and the path that it leads to.
pub proof fn law_refused_paths_are_logged(
    connections: Seq<Connection>,
    events: Seq<Event>,
    outputs: Seq<Output>,
    i: int,
)
    requires
        is_course(connections, events, outputs),
        0 <= i < events.len(),
        connections[i].stage is AwaitTarget || connections[i].stage is AwaitIndex,
        connections[i + 1].stage is AwaitPage,
    ensures
        ({
            let path = match (events[i], connections[i].stage) {
                (Event::Resolved(path), _) => path@,
                (_, Stage::AwaitTarget { path, .. }) => path@,
                _ => Seq::empty(),
            };
            let lines = texts(outputs[i].log@);
            &&& lines.len() > 0
            &&& mentions(lines.last(), connections[i].context.target@)
            &&& mentions(lines.last(), shown(path))
        }),
{
    assert(is_step(connections, events, outputs, i));
    let path = match (events[i], connections[i].stage) {
        (Event::Resolved(path), _) => path@,
        (_, Stage::AwaitTarget { path, .. }) => path@,
        _ => Seq::empty(),
    };
    let target = connections[i].context.target@;
    let line = outside_root(target, shown(path));
    let none = Seq::<char>::empty();
    lemma_mentions(
        "Forbidden path access attempt: "@,
        target,
        " resolved outside root to "@ + shown(path),
    );
    assert(line =~= "Forbidden path access attempt: "@ + target + (" resolved outside root to "@
        + shown(path)));
    lemma_mentions(
        "Forbidden path access attempt: "@ + target + " resolved outside root to "@,
        shown(path),
        none,
    );
}

/// A request line that cannot be served is logged with what is wrong with it: the line if it is
/// malformed, the version if that is not served, the method if that is not known.
pub proof fn law_bad_lines_are_logged(
    connections: Seq<Connection>,
    events: Seq<Event>,
    outputs: Seq<Output>,
)
    requires
        is_run(connections, events, outputs),
        events.len() > 1,
        events[1] is LineRead,
    ensures
        ({
            let line = events[1]->LineRead_0@;
            let parts = words(line);
            let lines = texts(outputs[1].log@);
            &&& lines.len() > 0
            &&& parts.len() != 3 ==> mentions(lines.last(), trimmed(line))
            &&& parts.len() == 3 && parts[2] != "HTTP/1.1"@ ==> mentions(lines.last(), parts[2])
            &&& parts.len() == 3 && parts[2] == "HTTP/1.1"@ && parts[0] != "GET"@ && parts[0]
                != "HEAD"@ ==> mentions(lines.last(), parts[0]) && lines.len() == 2
        }),
{
    assert(is_step(connections, events, outputs, 0));
    assert(is_step(connections, events, outputs, 1));
    let line = events[1]->LineRead_0@;
    let parts = words(line);
    let peer = connections[0].context.peer@;
    let none = Seq::<char>::empty();
    law_trimming_keeps_words(line);
    law_known_methods(parts[0]);
    let lines = texts(outputs[1].log@);
    if parts.len() != 3 {
        assert(lines =~= seq![line_malformed(peer, trimmed(line))]);
        lemma_mentions("Malformed request line from "@ + peer + ": "@, trimmed(line), none);
    } else if parts[2] != "HTTP/1.1"@ {
        assert(lines =~= seq![version_unsupported(peer, parts[2])]);
        lemma_mentions("Unsupported HTTP version from "@ + peer + ": "@, parts[2], none);
    } else if parts[0] != "GET"@ && parts[0] != "HEAD"@ {
        assert(lines.len() == 2);
        assert(lines.last() == method_unsupported(parts[0], peer));
        lemma_mentions("Unsupported method "@, parts[0], " from "@ + peer);
        assert(method_unsupported(parts[0], peer) =~= "Unsupported method "@ + parts[0] + (" from "@
            + peer));
    }
}

/// The log names the root directory where that cannot be resolved, and the path where that cannot.
pub proof fn law_log_names_unresolved_paths(
    connections: Seq<Connection>,
    events: Seq<Event>,
    outputs: Seq<Output>,
    i: int,
)
    requires
        is_course(connections, events, outputs),
        0 <= i < events.len(),
        events[i] is Unresolved,
    ensures
        ({
            let lines = texts(outputs[i].log@);
            match connections[i].stage {
                Stage::AwaitRoot { .. } => lines.len() == 1 && mentions(
                    lines[0],
                    shown(connections[i].context.root_dir@),
                ),
                Stage::AwaitTarget { path, .. } => lines.len() > 0 && mentions(
                    lines[0],
                    shown(path@),
                ),
                _ => lines.len() == 0,
            }
        }),
{
    assert(is_step(connections, events, outputs, i));
    let error = events[i]->Unresolved_0@;
    match connections[i].stage {
        Stage::AwaitRoot { .. } => {
            let name = shown(connections[i].context.root_dir@);
            lemma_mentions("Failed to canonicalize root dir "@, name, ": "@ + error);
            assert(root_unresolved(name, error) =~= "Failed to canonicalize root dir "@ + name
                + (": "@ + error));
        },
        Stage::AwaitTarget { path, .. } => {
            let name = shown(path@);
            let front = "Note: Could not canonicalize requested path "@;
            let rest = ": "@ + error + ". Will check existence."@;
            lemma_mentions(front, name, rest);
            assert(target_unresolved(name, error) =~= front + name + rest);
        },
        _ => {},
    }
}

/// Nothing is logged where nothing is wrong and nothing is done yet: while the file is looked for
/// under the root directory, once it is open, and while the page for an error is found and sent.
pub proof fn law_quiet_steps(
    connections: Seq<Connection>,
    events: Seq<Event>,
    outputs: Seq<Output>,
    i: int,
)
    requires
        is_course(connections, events, outputs),
        0 <= i < events.len(),
    ensures
        outputs[i].log@.len() <= 2,
        ({
            ||| connections[i].stage is AwaitRoot && events[i] is Resolved
            ||| connections[i].stage is AwaitProbe
            ||| events[i] matches Event::Opened { is_dir: false, .. }
            ||| connections[i + 1].stage is AwaitBody
            ||| pending_error(connections[i].stage) is Some
            ||| connections[i].stage is AwaitErrorHead
            ||| connections[i].stage is AwaitErrorBody
        }) ==> outputs[i].log@.len() == 0,
{
    assert(is_step(connections, events, outputs, i));
    assert(outputs[i].log@.len() == texts(outputs[i].log@).len());
}

/// From the request line on, a connection keeps the target of the request as the client wrote it.
pub proof fn law_target_is_kept(
    connections: Seq<Connection>,
    events: Seq<Event>,
    outputs: Seq<Output>,
    n: int,
)
    requires
        is_run(connections, events, outputs),
        is_served_request(events),
        1 < n <= events.len(),
    ensures
        connections[n].context.target@ == request_words(events)[1],
    decreases n,
{
    assert(is_step(connections, events, outputs, n - 1));
    lemma_head_only(connections, events, outputs, n - 1);
    if n > 2 {
        law_target_is_kept(connections, events, outputs, n - 1);
    }
}

} // verus!

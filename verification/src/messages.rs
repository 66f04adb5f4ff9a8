//! The lines that go to the log while a connection is served.
//!
//! Each line has its text as a specification and a function that makes it.
use crate::text::{
    decimal, has_one_gap, has_three_gaps, has_two_gaps, is_one_gap, is_three_gaps, is_two_gaps,
    to_decimal,
};
use vstd::prelude::*;
use vstd::string::*;

verus! {

/// The read timeout of a client could not be set.
pub open spec fn timeout_refused(peer: Seq<char>, error: Seq<char>) -> Seq<char> {
    "Failed to set read timeout for "@ + peer + ": "@ + error
}

/// Makes the line [`timeout_refused`].
pub fn make_timeout_refused(peer: &str, error: &str) -> (r: String)
    ensures
        r@ == timeout_refused(peer@, error@),
{
    let mut r = "Failed to set read timeout for ".to_owned();
    r.append(peer);
    r.append(": ");
    r.append(error);
    r
}

/// A client closed the connection before it sent anything.
pub open spec fn client_left(peer: Seq<char>) -> Seq<char> {
    "Client "@ + peer + " disconnected before sending request."@
}

/// Makes the line [`client_left`].
pub fn make_client_left(peer: &str) -> (r: String)
    ensures
        r@ == client_left(peer@),
{
    let mut r = "Client ".to_owned();
    r.append(peer);
    r.append(" disconnected before sending request.");
    r
}

/// A client sent no request line in time.
pub open spec fn line_timed_out(peer: Seq<char>) -> Seq<char> {
    "Read timeout waiting for request line from "@ + peer
}

/// Makes the line [`line_timed_out`].
pub fn make_line_timed_out(peer: &str) -> (r: String)
    ensures
        r@ == line_timed_out(peer@),
{
    let mut r = "Read timeout waiting for request line from ".to_owned();
    r.append(peer);
    r
}

/// The request line of a client could not be read.
pub open spec fn line_failed(peer: Seq<char>, error: Seq<char>) -> Seq<char> {
    "Error reading request line from "@ + peer + ": "@ + error
}

/// Makes the line [`line_failed`].
pub fn make_line_failed(peer: &str, error: &str) -> (r: String)
    ensures
        r@ == line_failed(peer@, error@),
{
    let mut r = "Error reading request line from ".to_owned();
    r.append(peer);
    r.append(": ");
    r.append(error);
    r
}

/// A request line has not three words.
pub open spec fn line_malformed(peer: Seq<char>, line: Seq<char>) -> Seq<char> {
    "Malformed request line from "@ + peer + ": "@ + line
}

/// Makes the line [`line_malformed`].
pub fn make_line_malformed(peer: &str, line: &str) -> (r: String)
    ensures
        r@ == line_malformed(peer@, line@),
{
    let mut r = "Malformed request line from ".to_owned();
    r.append(peer);
    r.append(": ");
    r.append(line);
    r
}

/// A request is of a version that is not served.
pub open spec fn version_unsupported(peer: Seq<char>, version: Seq<char>) -> Seq<char> {
    "Unsupported HTTP version from "@ + peer + ": "@ + version
}

/// Makes the line [`version_unsupported`].
pub fn make_version_unsupported(peer: &str, version: &str) -> (r: String)
    ensures
        r@ == version_unsupported(peer@, version@),
{
    let mut r = "Unsupported HTTP version from ".to_owned();
    r.append(peer);
    r.append(": ");
    r.append(version);
    r
}

/// A request came in.
pub open spec fn request_received(method: Seq<char>, target: Seq<char>, peer: Seq<char>) -> Seq<char> {
    "Received "@ + method + " request for "@ + target + " from "@ + peer
}

/// Makes the line [`request_received`].
pub fn make_request_received(method: &str, target: &str, peer: &str) -> (r: String)
    ensures
        r@ == request_received(method@, target@, peer@),
{
    let mut r = "Received ".to_owned();
    r.append(method);
    r.append(" request for ");
    r.append(target);
    r.append(" from ");
    r.append(peer);
    r
}

/// A request has a method that is not served.
pub open spec fn method_unsupported(method: Seq<char>, peer: Seq<char>) -> Seq<char> {
    "Unsupported method "@ + method + " from "@ + peer
}

/// Makes the line [`method_unsupported`].
pub fn make_method_unsupported(method: &str, peer: &str) -> (r: String)
    ensures
        r@ == method_unsupported(method@, peer@),
{
    let mut r = "Unsupported method ".to_owned();
    r.append(method);
    r.append(" from ");
    r.append(peer);
    r
}

/// The root directory could not be resolved.
pub open spec fn root_unresolved(root: Seq<char>, error: Seq<char>) -> Seq<char> {
    "Failed to canonicalize root dir "@ + root + ": "@ + error
}

/// Makes the line [`root_unresolved`].
pub fn make_root_unresolved(root: &str, error: &str) -> (r: String)
    ensures
        r@ == root_unresolved(root@, error@),
{
    let mut r = "Failed to canonicalize root dir ".to_owned();
    r.append(root);
    r.append(": ");
    r.append(error);
    r
}

/// A requested path could not be resolved.
pub open spec fn target_unresolved(path: Seq<char>, error: Seq<char>) -> Seq<char> {
    "Note: Could not canonicalize requested path "@ + path + ": "@ + error + ". Will check existence."@
}

/// Makes the line [`target_unresolved`].
pub fn make_target_unresolved(path: &str, error: &str) -> (r: String)
    ensures
        r@ == target_unresolved(path@, error@),
{
    let mut r = "Note: Could not canonicalize requested path ".to_owned();
    r.append(path);
    r.append(": ");
    r.append(error);
    r.append(". Will check existence.");
    r
}

/// A requested path leads out of the root directory.
pub open spec fn outside_root(target: Seq<char>, path: Seq<char>) -> Seq<char> {
    "Forbidden path access attempt: "@ + target + " resolved outside root to "@ + path
}

/// Makes the line [`outside_root`].
pub fn make_outside_root(target: &str, path: &str) -> (r: String)
    ensures
        r@ == outside_root(target@, path@),
{
    let mut r = "Forbidden path access attempt: ".to_owned();
    r.append(target);
    r.append(" resolved outside root to ");
    r.append(path);
    r
}

/// What was opened is a directory.
pub open spec fn directory_requested(path: Seq<char>) -> Seq<char> {
    "Attempt to serve directory directly: "@ + path
}

/// Makes the line [`directory_requested`].
pub fn make_directory_requested(path: &str) -> (r: String)
    ensures
        r@ == directory_requested(path@),
{
    let mut r = "Attempt to serve directory directly: ".to_owned();
    r.append(path);
    r
}

/// The head of a response could not be sent.
pub open spec fn head_failed(path: Seq<char>, error: Seq<char>) -> Seq<char> {
    "Error writing headers for "@ + path + ": "@ + error
}

/// Makes the line [`head_failed`].
pub fn make_head_failed(path: &str, error: &str) -> (r: String)
    ensures
        r@ == head_failed(path@, error@),
{
    let mut r = "Error writing headers for ".to_owned();
    r.append(path);
    r.append(": ");
    r.append(error);
    r
}

/// A file could not be sent to its end.
pub open spec fn body_failed(path: Seq<char>, error: Seq<char>) -> Seq<char> {
    "Error streaming file "@ + path + ": "@ + error
}

/// Makes the line [`body_failed`].
pub fn make_body_failed(path: &str, error: &str) -> (r: String)
    ensures
        r@ == body_failed(path@, error@),
{
    let mut r = "Error streaming file ".to_owned();
    r.append(path);
    r.append(": ");
    r.append(error);
    r
}

/// A file was sent.
pub open spec fn file_served(path: Seq<char>, media: Seq<char>, size: nat) -> Seq<char> {
    "Served "@ + path + " ("@ + media + ", "@ + decimal(size) + " bytes)"@
}

/// Makes the line [`file_served`].
pub fn make_file_served(path: &str, media: &str, size: u64) -> (r: String)
    ensures
        r@ == file_served(path@, media@, size as nat),
{
    let mut r = "Served ".to_owned();
    r.append(path);
    r.append(" (");
    r.append(media);
    r.append(", ");
    r.append(to_decimal(size).as_str());
    r.append(" bytes)");
    r
}

/// The head of the response for a file was sent, as asked.
pub open spec fn head_served(path: Seq<char>, media: Seq<char>, size: nat) -> Seq<char> {
    "Served HEAD for "@ + path + " ("@ + media + ", "@ + decimal(size) + " bytes)"@
}

/// Makes the line [`head_served`].
pub fn make_head_served(path: &str, media: &str, size: u64) -> (r: String)
    ensures
        r@ == head_served(path@, media@, size as nat),
{
    let mut r = "Served HEAD for ".to_owned();
    r.append(path);
    r.append(" (");
    r.append(media);
    r.append(", ");
    r.append(to_decimal(size).as_str());
    r.append(" bytes)");
    r
}

/// Nothing could be learned about a file that was opened.
pub open spec fn file_undescribed(path: Seq<char>, error: Seq<char>) -> Seq<char> {
    "Error getting metadata for "@ + path + ": "@ + error
}

/// Makes the line [`file_undescribed`].
pub fn make_file_undescribed(path: &str, error: &str) -> (r: String)
    ensures
        r@ == file_undescribed(path@, error@),
{
    let mut r = "Error getting metadata for ".to_owned();
    r.append(path);
    r.append(": ");
    r.append(error);
    r
}

/// A file is missing or may not be read.
pub open spec fn file_missing(path: Seq<char>) -> Seq<char> {
    "File not found or inaccessible: "@ + path
}

/// Makes the line [`file_missing`].
pub fn make_file_missing(path: &str) -> (r: String)
    ensures
        r@ == file_missing(path@),
{
    let mut r = "File not found or inaccessible: ".to_owned();
    r.append(path);
    r
}

/// A file could not be opened.
pub open spec fn open_failed(path: Seq<char>, error: Seq<char>) -> Seq<char> {
    "Error opening file "@ + path + ": "@ + error
}

/// Makes the line [`open_failed`].
pub fn make_open_failed(path: &str, error: &str) -> (r: String)
    ensures
        r@ == open_failed(path@, error@),
{
    let mut r = "Error opening file ".to_owned();
    r.append(path);
    r.append(": ");
    r.append(error);
    r
}

// ---------------------------------------------------------------------------------------------
// Laws
// ---------------------------------------------------------------------------------------------
/// Each line about one thing is a fixed text that names it in full.
pub proof fn law_lines_about_one_thing()
    ensures
        has_one_gap(|x: Seq<char>| client_left(x)),
        has_one_gap(|x: Seq<char>| line_timed_out(x)),
        has_one_gap(|x: Seq<char>| directory_requested(x)),
        has_one_gap(|x: Seq<char>| file_missing(x)),
{
    let none = Seq::<char>::empty();
    let f = |x: Seq<char>| client_left(x);
    assert(is_one_gap(f, "Client "@, " disconnected before sending request."@)) by {
        assert forall|x: Seq<char>| #[trigger] f(x) == "Client "@ + x + " disconnected before sending request."@ by {
            assert(f(x) =~= "Client "@ + x + " disconnected before sending request."@);
        }
    }
    let f = |x: Seq<char>| line_timed_out(x);
    assert(is_one_gap(f, "Read timeout waiting for request line from "@, none)) by {
        assert forall|x: Seq<char>| #[trigger] f(x) == "Read timeout waiting for request line from "@ + x + none by {
            assert(f(x) =~= "Read timeout waiting for request line from "@ + x + none);
        }
    }
    let f = |x: Seq<char>| directory_requested(x);
    assert(is_one_gap(f, "Attempt to serve directory directly: "@, none)) by {
        assert forall|x: Seq<char>| #[trigger] f(x) == "Attempt to serve directory directly: "@ + x + none by {
            assert(f(x) =~= "Attempt to serve directory directly: "@ + x + none);
        }
    }
    let f = |x: Seq<char>| file_missing(x);
    assert(is_one_gap(f, "File not found or inaccessible: "@, none)) by {
        assert forall|x: Seq<char>| #[trigger] f(x) == "File not found or inaccessible: "@ + x + none by {
            assert(f(x) =~= "File not found or inaccessible: "@ + x + none);
        }
    }
}

/// Each line about a client and something else is a fixed text that names both in full.
pub proof fn law_lines_about_a_client()
    ensures
        has_two_gaps(|x: Seq<char>, y: Seq<char>| timeout_refused(x, y)),
        has_two_gaps(|x: Seq<char>, y: Seq<char>| line_failed(x, y)),
        has_two_gaps(|x: Seq<char>, y: Seq<char>| line_malformed(x, y)),
        has_two_gaps(|x: Seq<char>, y: Seq<char>| version_unsupported(x, y)),
        has_two_gaps(|x: Seq<char>, y: Seq<char>| method_unsupported(x, y)),
{
    let none = Seq::<char>::empty();
    let f = |x: Seq<char>, y: Seq<char>| timeout_refused(x, y);
    assert(is_two_gaps(f, "Failed to set read timeout for "@, ": "@, none)) by {
        assert forall|x: Seq<char>, y: Seq<char>|
            #[trigger] f(x, y) == "Failed to set read timeout for "@ + x + ": "@ + y + none by {
            assert(f(x, y) =~= "Failed to set read timeout for "@ + x + ": "@ + y + none);
        }
    }
    let f = |x: Seq<char>, y: Seq<char>| line_failed(x, y);
    assert(is_two_gaps(f, "Error reading request line from "@, ": "@, none)) by {
        assert forall|x: Seq<char>, y: Seq<char>|
            #[trigger] f(x, y) == "Error reading request line from "@ + x + ": "@ + y + none by {
            assert(f(x, y) =~= "Error reading request line from "@ + x + ": "@ + y + none);
        }
    }
    let f = |x: Seq<char>, y: Seq<char>| line_malformed(x, y);
    assert(is_two_gaps(f, "Malformed request line from "@, ": "@, none)) by {
        assert forall|x: Seq<char>, y: Seq<char>|
            #[trigger] f(x, y) == "Malformed request line from "@ + x + ": "@ + y + none by {
            assert(f(x, y) =~= "Malformed request line from "@ + x + ": "@ + y + none);
        }
    }
    let f = |x: Seq<char>, y: Seq<char>| version_unsupported(x, y);
    assert(is_two_gaps(f, "Unsupported HTTP version from "@, ": "@, none)) by {
        assert forall|x: Seq<char>, y: Seq<char>|
            #[trigger] f(x, y) == "Unsupported HTTP version from "@ + x + ": "@ + y + none by {
            assert(f(x, y) =~= "Unsupported HTTP version from "@ + x + ": "@ + y + none);
        }
    }
    let f = |x: Seq<char>, y: Seq<char>| method_unsupported(x, y);
    assert(is_two_gaps(f, "Unsupported method "@, " from "@, none)) by {
        assert forall|x: Seq<char>, y: Seq<char>|
            #[trigger] f(x, y) == "Unsupported method "@ + x + " from "@ + y + none by {
            assert(f(x, y) =~= "Unsupported method "@ + x + " from "@ + y + none);
        }
    }
}

/// Each line about a path and something else is a fixed text that names both in full.
pub proof fn law_lines_about_a_path()
    ensures
        has_two_gaps(|x: Seq<char>, y: Seq<char>| root_unresolved(x, y)),
        has_two_gaps(|x: Seq<char>, y: Seq<char>| target_unresolved(x, y)),
        has_two_gaps(|x: Seq<char>, y: Seq<char>| outside_root(x, y)),
        has_two_gaps(|x: Seq<char>, y: Seq<char>| head_failed(x, y)),
        has_two_gaps(|x: Seq<char>, y: Seq<char>| body_failed(x, y)),
        has_two_gaps(|x: Seq<char>, y: Seq<char>| file_undescribed(x, y)),
        has_two_gaps(|x: Seq<char>, y: Seq<char>| open_failed(x, y)),
{
    let none = Seq::<char>::empty();
    let f = |x: Seq<char>, y: Seq<char>| root_unresolved(x, y);
    assert(is_two_gaps(f, "Failed to canonicalize root dir "@, ": "@, none)) by {
        assert forall|x: Seq<char>, y: Seq<char>|
            #[trigger] f(x, y) == "Failed to canonicalize root dir "@ + x + ": "@ + y + none by {
            assert(f(x, y) =~= "Failed to canonicalize root dir "@ + x + ": "@ + y + none);
        }
    }
    let f = |x: Seq<char>, y: Seq<char>| target_unresolved(x, y);
    assert(is_two_gaps(f, "Note: Could not canonicalize requested path "@, ": "@, ". Will check existence."@)) by {
        assert forall|x: Seq<char>, y: Seq<char>|
            #[trigger] f(x, y) == "Note: Could not canonicalize requested path "@ + x + ": "@ + y + ". Will check existence."@ by {
            assert(f(x, y) =~= "Note: Could not canonicalize requested path "@ + x + ": "@ + y + ". Will check existence."@);
        }
    }
    let f = |x: Seq<char>, y: Seq<char>| outside_root(x, y);
    assert(is_two_gaps(f, "Forbidden path access attempt: "@, " resolved outside root to "@, none)) by {
        assert forall|x: Seq<char>, y: Seq<char>|
            #[trigger] f(x, y) == "Forbidden path access attempt: "@ + x + " resolved outside root to "@ + y + none by {
            assert(f(x, y) =~= "Forbidden path access attempt: "@ + x + " resolved outside root to "@ + y + none);
        }
    }
    let f = |x: Seq<char>, y: Seq<char>| head_failed(x, y);
    assert(is_two_gaps(f, "Error writing headers for "@, ": "@, none)) by {
        assert forall|x: Seq<char>, y: Seq<char>|
            #[trigger] f(x, y) == "Error writing headers for "@ + x + ": "@ + y + none by {
            assert(f(x, y) =~= "Error writing headers for "@ + x + ": "@ + y + none);
        }
    }
    let f = |x: Seq<char>, y: Seq<char>| body_failed(x, y);
    assert(is_two_gaps(f, "Error streaming file "@, ": "@, none)) by {
        assert forall|x: Seq<char>, y: Seq<char>|
            #[trigger] f(x, y) == "Error streaming file "@ + x + ": "@ + y + none by {
            assert(f(x, y) =~= "Error streaming file "@ + x + ": "@ + y + none);
        }
    }
    let f = |x: Seq<char>, y: Seq<char>| file_undescribed(x, y);
    assert(is_two_gaps(f, "Error getting metadata for "@, ": "@, none)) by {
        assert forall|x: Seq<char>, y: Seq<char>|
            #[trigger] f(x, y) == "Error getting metadata for "@ + x + ": "@ + y + none by {
            assert(f(x, y) =~= "Error getting metadata for "@ + x + ": "@ + y + none);
        }
    }
    let f = |x: Seq<char>, y: Seq<char>| open_failed(x, y);
    assert(is_two_gaps(f, "Error opening file "@, ": "@, none)) by {
        assert forall|x: Seq<char>, y: Seq<char>|
            #[trigger] f(x, y) == "Error opening file "@ + x + ": "@ + y + none by {
            assert(f(x, y) =~= "Error opening file "@ + x + ": "@ + y + none);
        }
    }
}

/// The line about a request is a fixed text that names its method, its target and the client in
/// full.
pub proof fn law_line_about_a_request()
    ensures
        has_three_gaps(|x: Seq<char>, y: Seq<char>, z: Seq<char>| request_received(x, y, z)),
{
    let none = Seq::<char>::empty();
    let f = |x: Seq<char>, y: Seq<char>, z: Seq<char>| request_received(x, y, z);
    assert(is_three_gaps(f, "Received "@, " request for "@, " from "@, none)) by {
        assert forall|x: Seq<char>, y: Seq<char>, z: Seq<char>|
            #[trigger] f(x, y, z) == "Received "@ + x + " request for "@ + y + " from "@ + z
                + none by {
            assert(f(x, y, z) =~= "Received "@ + x + " request for "@ + y + " from "@ + z + none);
        }
    }
}

/// Holds for a fixed text that names a file and its media type in full and tells a size.
pub open spec fn tells_size(f: spec_fn(Seq<char>, Seq<char>, nat) -> Seq<char>) -> bool {
    exists|a: Seq<char>, b: Seq<char>, c: Seq<char>, d: Seq<char>|
        #[trigger] is_text_with_size(f, a, b, c, d)
}

/// The words around the file, the media type and the size of a text.
pub open spec fn is_text_with_size(
    f: spec_fn(Seq<char>, Seq<char>, nat) -> Seq<char>,
    a: Seq<char>,
    b: Seq<char>,
    c: Seq<char>,
    d: Seq<char>,
) -> bool {
    forall|x: Seq<char>, y: Seq<char>, n: nat|
        #[trigger] f(x, y, n) == a + x + b + y + c + decimal(n) + d
}

/// The lines about files that were served name the file and its media type in full and tell its
/// size.
pub proof fn law_lines_about_served_files()
    ensures
        tells_size(|x: Seq<char>, y: Seq<char>, n: nat| file_served(x, y, n)),
        tells_size(|x: Seq<char>, y: Seq<char>, n: nat| head_served(x, y, n)),
{
    let f = |x: Seq<char>, y: Seq<char>, n: nat| file_served(x, y, n);
    let g = |x: Seq<char>, y: Seq<char>, n: nat| head_served(x, y, n);
    assert(is_text_with_size(f, "Served "@, " ("@, ", "@, " bytes)"@));
    assert(is_text_with_size(g, "Served HEAD for "@, " ("@, ", "@, " bytes)"@));
}

} // verus!

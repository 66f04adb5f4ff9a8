//! The entries of the log.
use crate::outside::{is_digit, is_timestamp, local_time};
use crate::text::{has_two_gaps, is_two_gaps};
use vstd::prelude::*;
use vstd::string::*;

verus! {

/// An entry: when, and what.
pub open spec fn entry(timestamp: Seq<char>, message: Seq<char>) -> Seq<char> {
    "["@ + timestamp + "] "@ + message
}

/// Makes an entry for a given time.
pub fn log_entry(timestamp: &str, message: &str) -> (r: String)
    ensures
        r@ == entry(timestamp@, message@),
{
    let mut r = "[".to_owned();
    r.append(timestamp);
    r.append("] ");
    r.append(message);
    r
}

/// Makes an entry for the present time.
pub fn log_message(message: &str) -> (r: String)
    ensures
        exists|timestamp: Seq<char>|
            is_timestamp(timestamp) && r@ == #[trigger] entry(timestamp, message@),
{
    let timestamp = local_time("%Y-%m-%d %H:%M:%S%.3f");
    log_entry(timestamp.as_str(), message)
}

/// An entry can be taken apart again: it holds one time and one message.
pub proof fn law_entry_is_read_back(
    time_a: Seq<char>,
    message_a: Seq<char>,
    time_b: Seq<char>,
    message_b: Seq<char>,
)
    requires
        is_timestamp(time_a),
        is_timestamp(time_b),
        entry(time_a, message_a) == entry(time_b, message_b),
    ensures
        time_a == time_b,
        message_a == message_b,
{
    reveal_strlit("[");
    reveal_strlit("] ");
    lemma_no_bracket(time_a);
    lemma_no_bracket(time_b);
    let a = entry(time_a, message_a);
    let b = entry(time_b, message_b);
    assert(a[1 + time_a.len() as int] == ']');
    assert(b[1 + time_b.len() as int] == ']');
    if time_a.len() < time_b.len() {
        assert(b[1 + time_a.len() as int] == time_b[time_a.len() as int]);
    }
    if time_b.len() < time_a.len() {
        assert(a[1 + time_b.len() as int] == time_a[time_b.len() as int]);
    }
    assert forall|i: int| 0 <= i < time_a.len() implies time_a[i] == time_b[i] by {
        assert(a[i + 1] == time_a[i]);
        assert(b[i + 1] == time_b[i]);
    }
    assert(time_a =~= time_b);
    let n = time_a.len() + 3;
    assert(message_a =~= a.skip(n as int));
    assert(message_b =~= b.skip(n as int));
}

/// A timestamp holds no bracket.
proof fn lemma_no_bracket(time: Seq<char>)
    requires
        is_timestamp(time),
    ensures
        forall|i: int| 0 <= i < time.len() ==> #[trigger] time[i] != ']',
{
    let y = time.len() - 19;
    assert forall|i: int| 0 <= i < time.len() implies #[trigger] time[i] != ']' by {
        if 0 < i < y {
            assert(is_digit(time[i]));
        }
    }
}

/// An entry is a fixed text that holds the time and the message in full.
pub proof fn law_entry_holds_time_and_message()
    ensures
        has_two_gaps(|timestamp: Seq<char>, message: Seq<char>| entry(timestamp, message)),
{
    let none = Seq::<char>::empty();
    let f = |timestamp: Seq<char>, message: Seq<char>| entry(timestamp, message);
    assert(is_two_gaps(f, "["@, "] "@, none)) by {
        assert forall|x: Seq<char>, y: Seq<char>| #[trigger] f(x, y) == "["@ + x + "] "@ + y + none by {
            assert(f(x, y) =~= "["@ + x + "] "@ + y + none);
        }
    }
}

} // verus!

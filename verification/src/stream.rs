//! Sending a file in chunks.
//!
//! The server reads a chunk, writes it, and so on to the end of the file, and then flushes. What
//! to do next is decided here, from what came of the last read, write or flush.
use crate::connection::{IoFailure, IoKind};
use crate::text::{has_one_gap, is_one_gap, lemma_mentions, mentions};
use vstd::prelude::*;
use vstd::string::*;

verus! {

/// How many bytes are read at once.
pub const CHUNK_SIZE: usize = 8192;

/// What came of the last action.
#[derive(Debug)]
pub enum StreamEvent {
    /// So many bytes were read.
    Read(usize),
    /// Nothing could be read.
    ReadFailed(IoFailure),
    /// The chunk was written.
    Written,
    /// The chunk could not be written.
    WriteFailed(IoFailure),
    /// What was written is on its way.
    Flushed,
    /// What was written could not be sent on its way.
    FlushFailed(IoFailure),
}

/// The next action.
#[derive(Debug)]
pub enum StreamAction {
    /// Read a chunk of at most [`CHUNK_SIZE`] bytes.
    ReadChunk,
    /// Write the first so many bytes of the chunk that was read last.
    WriteChunk(usize),
    /// Send on its way what was written.
    Flush,
    /// The file is sent.
    Complete,
    /// The file cannot be sent to its end, for the given reason; a line for the console may come
    /// with it.
    Abort {
        /// The line for the console.
        console: Option<String>,
        /// The reason.
        error: String,
    },
}

/// What a transfer waits for.
#[derive(Clone, Copy, PartialEq, Eq, Debug, Structural)]
pub enum Transfer {
    /// A chunk.
    Reading,
    /// A chunk of so many bytes to be written.
    Writing(usize),
    /// The last bytes to be sent on their way.
    Flushing,
    /// Nothing any more.
    Ended,
}

/// The line for the console about a client that is gone.
pub open spec fn client_gone() -> Seq<char> {
    "Client disconnected during file streaming."@
}

/// The line for the console about a chunk that could not be written.
pub open spec fn chunk_failed(error: Seq<char>) -> Seq<char> {
    "Error writing chunk to stream: "@ + error
}

impl StreamAction {
    /// Tells whether a transfer is given up, for a given reason and with a given line for the
    /// console.
    pub open spec fn aborts(self, line: Option<Seq<char>>, reason: Seq<char>) -> bool {
        &&& self matches StreamAction::Abort { console, error } && error@ == reason && match line {
            None => console is None,
            Some(text) => console matches Some(c) && c@ == text,
        }
    }
}

impl Transfer {
    /// Tells whether an event is an answer to what is waited for.
    pub open spec fn expects(self, event: StreamEvent) -> bool {
        match self {
            Transfer::Reading => event is ReadFailed || (event matches StreamEvent::Read(n) && n
                <= CHUNK_SIZE),
            Transfer::Writing(_) => event is Written || event is WriteFailed,
            Transfer::Flushing => event is Flushed || event is FlushFailed,
            Transfer::Ended => false,
        }
    }

    /// The rules of a transfer: what follows an event, and what is to be done. A chunk that was
    /// read is written, an empty one is the end of the file, an interrupted read is tried again,
    /// and anything else ends the transfer.
    pub open spec fn follows(self, event: StreamEvent, after: Transfer, action: StreamAction) -> bool {
        match event {
            StreamEvent::Read(n) => if n == 0 {
                after == Transfer::Flushing && action is Flush
            } else {
                after == Transfer::Writing(n) && action == StreamAction::WriteChunk(n)
            },
            StreamEvent::ReadFailed(failure) => if failure.kind == IoKind::Interrupted {
                after == Transfer::Reading && action is ReadChunk
            } else {
                after == Transfer::Ended && action.aborts(None, failure.text@)
            },
            StreamEvent::Written => after == Transfer::Reading && action is ReadChunk,
            StreamEvent::WriteFailed(failure) => {
                let line = if failure.kind == IoKind::BrokenPipe {
                    client_gone()
                } else {
                    chunk_failed(failure.text@)
                };
                after == Transfer::Ended && action.aborts(Some(line), failure.text@)
            },
            StreamEvent::Flushed => after == Transfer::Ended && action is Complete,
            StreamEvent::FlushFailed(failure) => {
                after == Transfer::Ended && action.aborts(None, failure.text@)
            },
        }
    }

    /// A new transfer, and its first action.
    pub fn begin() -> (r: (Transfer, StreamAction))
        ensures
            r.0 == Transfer::Reading,
            r.1 is ReadChunk,
    {
        (Transfer::Reading, StreamAction::ReadChunk)
    }

    /// Takes in what came of the last action, and decides what is next.
    pub fn step(self, event: StreamEvent) -> (r: (Transfer, StreamAction))
        requires
            self.expects(event),
        ensures
            self.follows(event, r.0, r.1),
    {
        match event {
            StreamEvent::Read(n) => {
                if n == 0 {
                    (Transfer::Flushing, StreamAction::Flush)
                } else {
                    (Transfer::Writing(n), StreamAction::WriteChunk(n))
                }
            },
            StreamEvent::ReadFailed(failure) => {
                if failure.kind == IoKind::Interrupted {
                    (Transfer::Reading, StreamAction::ReadChunk)
                } else {
                    (Transfer::Ended, StreamAction::Abort { console: None, error: failure.text })
                }
            },
            StreamEvent::Written => (Transfer::Reading, StreamAction::ReadChunk),
            StreamEvent::WriteFailed(failure) => {
                let console = if failure.kind == IoKind::BrokenPipe {
                    "Client disconnected during file streaming.".to_owned()
                } else {
                    let mut line = "Error writing chunk to stream: ".to_owned();
                    line.append(failure.text.as_str());
                    line
                };
                let error = failure.text;
                (Transfer::Ended, StreamAction::Abort { console: Some(console), error })
            },
            StreamEvent::Flushed => (Transfer::Ended, StreamAction::Complete),
            StreamEvent::FlushFailed(failure) => {
                (Transfer::Ended, StreamAction::Abort { console: None, error: failure.text })
            },
        }
    }
}

// ---------------------------------------------------------------------------------------------
// Laws
// ---------------------------------------------------------------------------------------------
/// Step `i` of a transfer follows the rules, and its event is one that is waited for.
pub open spec fn is_transfer_step(
    transfers: Seq<Transfer>,
    events: Seq<StreamEvent>,
    actions: Seq<StreamAction>,
    i: int,
) -> bool {
    &&& transfers[i].expects(events[i])
    &&& transfers[i].follows(events[i], transfers[i + 1], actions[i])
}

/// A transfer from its beginning: its state before and after each event, the events, and what was
/// to be done after each.
pub open spec fn is_transfer(
    transfers: Seq<Transfer>,
    events: Seq<StreamEvent>,
    actions: Seq<StreamAction>,
) -> bool {
    &&& transfers.len() == events.len() + 1
    &&& actions.len() == events.len()
    &&& transfers[0] == Transfer::Reading
    &&& forall|i: int|
        0 <= i < events.len() ==> #[trigger] is_transfer_step(transfers, events, actions, i)
}

/// How many bytes the first `n` events read.
pub open spec fn bytes_read(events: Seq<StreamEvent>, n: int) -> nat
    decreases n,
{
    if n <= 0 {
        0
    } else {
        match events[n - 1] {
            StreamEvent::Read(size) => bytes_read(events, n - 1) + size as nat,
            _ => bytes_read(events, n - 1),
        }
    }
}

/// The reads give the bytes of `file` one after the other, and nothing just at its end.
pub open spec fn reads_file(events: Seq<StreamEvent>, file: Seq<u8>) -> bool {
    forall|i: int|
        0 <= i < events.len() ==> ((#[trigger] events[i]) matches StreamEvent::Read(size) ==> {
            &&& bytes_read(events, i) + size <= file.len()
            &&& size == 0 ==> bytes_read(events, i) == file.len()
        })
}

/// What is in the buffer after the first `n` events: the bytes that were read last.
pub open spec fn buffered(file: Seq<u8>, events: Seq<StreamEvent>, n: int) -> Seq<u8>
    decreases n,
{
    if n <= 0 {
        Seq::empty()
    } else {
        match events[n - 1] {
            StreamEvent::Read(size) => file.subrange(
                bytes_read(events, n - 1) as int,
                bytes_read(events, n - 1) + size,
            ),
            _ => buffered(file, events, n - 1),
        }
    }
}

/// What is written after the first `n` events: for each chunk that was written, as many bytes from
/// the front of the buffer as the action before it says.
pub open spec fn written(
    file: Seq<u8>,
    events: Seq<StreamEvent>,
    actions: Seq<StreamAction>,
    n: int,
) -> Seq<u8>
    decreases n,
{
    if n <= 1 {
        Seq::empty()
    } else {
        let before = written(file, events, actions, n - 1);
        match (actions[n - 2], events[n - 1]) {
            (StreamAction::WriteChunk(size), StreamEvent::Written) => before + buffered(
                file,
                events,
                n - 1,
            ).take(size as int),
            _ => before,
        }
    }
}

/// At any time, what was written is what was read of the file, but for a chunk that is still to be
/// written.
proof fn lemma_written(
    transfers: Seq<Transfer>,
    events: Seq<StreamEvent>,
    actions: Seq<StreamAction>,
    file: Seq<u8>,
    n: int,
)
    requires
        is_transfer(transfers, events, actions),
        reads_file(events, file),
        0 <= n <= events.len(),
    ensures
        bytes_read(events, n) <= file.len(),
        match transfers[n] {
            Transfer::Writing(size) => {
                &&& n > 0 && actions[n - 1] == StreamAction::WriteChunk(size)
                &&& buffered(file, events, n).len() == size
                &&& written(file, events, actions, n) + buffered(file, events, n) == file.take(
                    bytes_read(events, n) as int,
                )
            },
            Transfer::Ended => {
                let w = written(file, events, actions, n);
                w.len() <= file.len() && w == file.take(w.len() as int)
            },
            _ => written(file, events, actions, n) == file.take(bytes_read(events, n) as int),
        },
    decreases n,
{
    if n > 0 {
        assert(is_transfer_step(transfers, events, actions, n - 1));
        lemma_written(transfers, events, actions, file, n - 1);
        let at = bytes_read(events, n - 1) as int;
        let w = written(file, events, actions, n);
        let before = written(file, events, actions, n - 1);
        match events[n - 1] {
            StreamEvent::Read(size) => {
                assert(w == before);
                assert(file.take(at) + file.subrange(at, at + size) =~= file.take(at + size));
            },
            StreamEvent::Written => {
                let chunk = buffered(file, events, n - 1);
                assert(chunk.take(chunk.len() as int) =~= chunk);
            },
            StreamEvent::WriteFailed(_) => {
                assert(w == before);
                assert(before =~= file.take(before.len() as int)) by {
                    let chunk = buffered(file, events, n - 1);
                    assert((before + chunk).take(before.len() as int) =~= before);
                    assert(file.take(at).take(before.len() as int) =~= file.take(
                        before.len() as int,
                    ));
                }
            },
            _ => {
                assert(w == before);
            },
        }
    } else {
        assert(file.take(0) =~= Seq::<u8>::empty());
    }
}

/// When a file is sent, what was written is the file, byte for byte, and its end was reached.
pub proof fn law_complete_transfer_sends_everything(
    transfers: Seq<Transfer>,
    events: Seq<StreamEvent>,
    actions: Seq<StreamAction>,
    file: Seq<u8>,
    i: int,
)
    requires
        is_transfer(transfers, events, actions),
        reads_file(events, file),
        0 <= i < events.len(),
        actions[i] is Complete,
    ensures
        written(file, events, actions, i) == file,
        i > 0 && events[i - 1] == StreamEvent::Read(0),
{
    assert(is_transfer_step(transfers, events, actions, i));
    lemma_written(transfers, events, actions, file, i);
    assert(is_transfer_step(transfers, events, actions, i - 1));
    assert(events[i - 1] == StreamEvent::Read(0));
    assert(file.take(file.len() as int) =~= file);
}

/// At any time, and if a transfer breaks off, what was written is the front of the file.
pub proof fn law_transfer_sends_the_front_of_the_file(
    transfers: Seq<Transfer>,
    events: Seq<StreamEvent>,
    actions: Seq<StreamAction>,
    file: Seq<u8>,
    n: int,
)
    requires
        is_transfer(transfers, events, actions),
        reads_file(events, file),
        0 <= n <= events.len(),
    ensures
        written(file, events, actions, n).is_prefix_of(file),
{
    lemma_written(transfers, events, actions, file, n);
    let w = written(file, events, actions, n);
    let at = bytes_read(events, n) as int;
    if transfers[n] is Writing {
        let chunk = buffered(file, events, n);
        assert((w + chunk).len() == at);
        assert((w + chunk).take(w.len() as int) =~= w);
        assert(file.take(at).take(w.len() as int) =~= file.take(w.len() as int));
    }
    assert(w =~= file.subrange(0, w.len() as int));
}

/// No more than one chunk is held at a time: what is written is never larger than a chunk.
pub proof fn law_chunks_are_small(
    transfers: Seq<Transfer>,
    events: Seq<StreamEvent>,
    actions: Seq<StreamAction>,
    i: int,
)
    requires
        is_transfer(transfers, events, actions),
        0 <= i < events.len(),
        actions[i] is WriteChunk,
    ensures
        0 < actions[i]->WriteChunk_0 <= CHUNK_SIZE,
{
    assert(is_transfer_step(transfers, events, actions, i));
}

/// Tells whether an event is a failure that a transfer cannot go on after.
pub open spec fn is_failure(event: StreamEvent) -> bool {
    match event {
        StreamEvent::ReadFailed(failure) => failure.kind != IoKind::Interrupted,
        StreamEvent::WriteFailed(_) => true,
        StreamEvent::FlushFailed(_) => true,
        _ => false,
    }
}

/// Each answer gets its due: what was read is written, all of it, what was written is followed by
/// the next read, an interrupted read is tried again, the end of the file is followed by the flush,
/// and the flush by the end. A transfer is given up just after a failure, with the words of the
/// failure, and a line for the console comes with it just after a failed write.
pub proof fn law_answers_get_their_due(
    transfers: Seq<Transfer>,
    events: Seq<StreamEvent>,
    actions: Seq<StreamAction>,
    i: int,
)
    requires
        is_transfer(transfers, events, actions),
        0 <= i < events.len(),
    ensures
        actions[i] is Abort <==> is_failure(events[i]),
        events[i] matches StreamEvent::Read(n) ==> if n > 0 {
            actions[i] == StreamAction::WriteChunk(n)
        } else {
            actions[i] is Flush
        },
        events[i] is Written ==> actions[i] is ReadChunk,
        events[i] is ReadFailed && !is_failure(events[i]) ==> actions[i] is ReadChunk,
        events[i] is Flushed <==> actions[i] is Complete,
        match events[i] {
            StreamEvent::ReadFailed(failure) if is_failure(events[i]) => actions[i]->error@
                == failure.text@ && actions[i]->console is None,
            StreamEvent::WriteFailed(failure) => actions[i]->error@ == failure.text@
                && actions[i]->console is Some,
            StreamEvent::FlushFailed(failure) => actions[i]->error@ == failure.text@
                && actions[i]->console is None,
            _ => true,
        },
{
    assert(is_transfer_step(transfers, events, actions, i));
}

/// A transfer without failures that comes to its end has sent the file, byte for byte.
pub proof fn law_transfer_without_failures_is_complete(
    transfers: Seq<Transfer>,
    events: Seq<StreamEvent>,
    actions: Seq<StreamAction>,
    file: Seq<u8>,
)
    requires
        is_transfer(transfers, events, actions),
        reads_file(events, file),
        forall|i: int| 0 <= i < events.len() ==> !is_failure(#[trigger] events[i]),
        transfers[events.len() as int] is Ended,
    ensures
        events.len() > 0,
        actions[events.len() - 1] is Complete,
        written(file, events, actions, events.len() as int) == file,
        forall|i: int| 0 <= i < events.len() ==> !((#[trigger] actions[i]) is Abort),
{
    let n = events.len() as int;
    assert(is_transfer_step(transfers, events, actions, n - 1));
    assert(!is_failure(events[n - 1]));
    law_complete_transfer_sends_everything(transfers, events, actions, file, n - 1);
    assert forall|i: int| 0 <= i < n implies !((#[trigger] actions[i]) is Abort) by {
        assert(!is_failure(events[i]));
        law_answers_get_their_due(transfers, events, actions, i);
    }
}

/// How many of the first `n` reads were interrupted.
pub open spec fn interruptions(events: Seq<StreamEvent>, n: int) -> nat
    decreases n,
{
    if n <= 0 {
        0
    } else {
        interruptions(events, n - 1) + if events[n - 1] is ReadFailed {
            1nat
        } else {
            0
        }
    }
}

/// A transfer comes to its end: but for interrupted reads, it takes no more than two events for each
/// byte, and two for the end.
pub proof fn law_transfer_comes_to_its_end(
    transfers: Seq<Transfer>,
    events: Seq<StreamEvent>,
    actions: Seq<StreamAction>,
    file: Seq<u8>,
)
    requires
        is_transfer(transfers, events, actions),
        reads_file(events, file),
    ensures
        events.len() <= 2 * file.len() + interruptions(events, events.len() as int) + 2,
{
    lemma_transfer_length(transfers, events, actions, file, events.len() as int);
}

proof fn lemma_transfer_length(
    transfers: Seq<Transfer>,
    events: Seq<StreamEvent>,
    actions: Seq<StreamAction>,
    file: Seq<u8>,
    n: int,
)
    requires
        is_transfer(transfers, events, actions),
        reads_file(events, file),
        0 <= n <= events.len(),
    ensures
        bytes_read(events, n) <= file.len(),
        n <= 2 * bytes_read(events, n) + interruptions(events, n) + match transfers[n] {
            Transfer::Reading => 0int,
            Transfer::Writing(_) => -1,
            Transfer::Flushing => 1,
            Transfer::Ended => 2,
        },
    decreases n,
{
    if n > 0 {
        lemma_transfer_length(transfers, events, actions, file, n - 1);
        assert(is_transfer_step(transfers, events, actions, n - 1));
        assert(events[n - 1] matches StreamEvent::Read(size) ==> bytes_read(events, n - 1) + size
            <= file.len());
    }
}

/// Tells whether an event is an answer to an action.
pub open spec fn is_answer_to(action: StreamAction, event: StreamEvent) -> bool {
    match action {
        StreamAction::ReadChunk => event is ReadFailed || (event matches StreamEvent::Read(n) && n
            <= CHUNK_SIZE),
        StreamAction::WriteChunk(_) => event is Written || event is WriteFailed,
        StreamAction::Flush => event is Flushed || event is FlushFailed,
        _ => false,
    }
}

/// A new transfer takes in whatever comes of the first read.
pub proof fn law_new_transfer_takes_every_answer(answer: StreamEvent)
    requires
        is_answer_to(StreamAction::ReadChunk, answer),
    ensures
        Transfer::Reading.expects(answer),
{
}

/// Whatever came of an action, a transfer takes it in.
pub proof fn law_transfer_takes_every_answer(
    before: Transfer,
    event: StreamEvent,
    after: Transfer,
    action: StreamAction,
    answer: StreamEvent,
)
    requires
        before.expects(event),
        before.follows(event, after, action),
        is_answer_to(action, answer),
    ensures
        after.expects(answer),
{
}

/// The line for the console about a chunk that could not be written tells the reason in full, unless
/// the client is gone.
pub proof fn law_console_tells_the_reason(
    before: Transfer,
    event: StreamEvent,
    after: Transfer,
    action: StreamAction,
)
    requires
        before.expects(event),
        before.follows(event, after, action),
        event is WriteFailed,
    ensures
        ({
            let failure = event->WriteFailed_0;
            let line = action->console->0@;
            &&& failure.kind == IoKind::BrokenPipe ==> line == client_gone()
            &&& failure.kind != IoKind::BrokenPipe ==> mentions(line, failure.text@)
        }),
        has_one_gap(|error: Seq<char>| chunk_failed(error)),
{
    let failure = event->WriteFailed_0;
    let none = Seq::<char>::empty();
    lemma_mentions("Error writing chunk to stream: "@, failure.text@, none);
    let f = |error: Seq<char>| chunk_failed(error);
    assert(is_one_gap(f, "Error writing chunk to stream: "@, none)) by {
        assert forall|x: Seq<char>| #[trigger] f(x) == "Error writing chunk to stream: "@ + x + none by {
            assert(f(x) =~= "Error writing chunk to stream: "@ + x + none);
        }
    }
}

} // verus!

use rusty_static_server::connection::{IoFailure, IoKind};
use rusty_static_server::stream::{StreamAction, StreamEvent, Transfer, CHUNK_SIZE};

fn failure(kind: IoKind) -> IoFailure {
    IoFailure { kind, text: "odd".to_string() }
}

/// Sends some bytes through a transfer, with an interrupted read before each chunk.
fn send(file: &[u8]) -> Vec<u8> {
    let mut sent = Vec::new();
    let mut chunk: Vec<u8> = Vec::new();
    let mut at = 0;
    let mut interrupted = false;
    let (mut transfer, mut action) = Transfer::begin();
    loop {
        let event = match action {
            StreamAction::ReadChunk if !interrupted => {
                interrupted = true;
                StreamEvent::ReadFailed(failure(IoKind::Interrupted))
            }
            StreamAction::ReadChunk => {
                interrupted = false;
                let to = file.len().min(at + CHUNK_SIZE);
                chunk = file[at..to].to_vec();
                at = to;
                StreamEvent::Read(chunk.len())
            }
            StreamAction::WriteChunk(n) => {
                sent.extend_from_slice(&chunk[..n]);
                StreamEvent::Written
            }
            StreamAction::Flush => StreamEvent::Flushed,
            StreamAction::Complete => return sent,
            StreamAction::Abort { error, .. } => panic!("{}", error),
        };
        let (next, then) = transfer.step(event);
        transfer = next;
        action = then;
    }
}

#[test]
fn a_whole_file_is_sent() {
    for size in [0, 1, CHUNK_SIZE - 1, CHUNK_SIZE, CHUNK_SIZE + 1, 3 * CHUNK_SIZE + 17] {
        let file: Vec<u8> = (0..size).map(|i| (i % 251) as u8).collect();
        assert_eq!(send(&file), file);
    }
}

#[test]
fn a_chunk_has_eight_kilobytes() {
    assert_eq!(CHUNK_SIZE, 8192);
}

#[test]
fn a_read_can_fail() {
    let (_, action) = Transfer::Reading.step(StreamEvent::ReadFailed(failure(IoKind::Other)));
    match action {
        StreamAction::Abort { console, error } => {
            assert_eq!(console, None);
            assert_eq!(error, "odd");
        }
        other => panic!("{:?}", other),
    }
    let (next, action) = Transfer::Reading.step(StreamEvent::ReadFailed(failure(IoKind::Interrupted)));
    assert_eq!(next, Transfer::Reading);
    assert!(matches!(action, StreamAction::ReadChunk));
}

#[test]
fn a_write_can_fail() {
    for (kind, line) in [
        (IoKind::BrokenPipe, "Client disconnected during file streaming."),
        (IoKind::Other, "Error writing chunk to stream: odd"),
    ] {
        let (next, action) = Transfer::Writing(3).step(StreamEvent::WriteFailed(failure(kind)));
        assert_eq!(next, Transfer::Ended);
        match action {
            StreamAction::Abort { console, error } => {
                assert_eq!(console, Some(line.to_string()));
                assert_eq!(error, "odd");
            }
            other => panic!("{:?}", other),
        }
    }
}

#[test]
fn a_flush_can_fail() {
    let (next, action) = Transfer::Flushing.step(StreamEvent::FlushFailed(failure(IoKind::BrokenPipe)));
    assert_eq!(next, Transfer::Ended);
    assert!(matches!(action, StreamAction::Abort { console: None, .. }));
}

use base64::Engine;
use file_digest::error::{DigestError, IoStage};
use file_digest::hash::{DigestEngine, Event, Phase, Request, Step, CHUNK_SIZE};
use file_digest::models::{HashProgress, HashResult};

const EMPTY_HEX: &str = "e3b0c44298fc1c149afbf4c8996fb92427ae41e4649b934ca495991b7852b855";
const EMPTY_BASE64: &str = "47DEQpj8HBSa+/TImW+5JCeuQeRkm5NMpJWZG3hSuFU=";
const ABC_HEX: &str = "ba7816bf8f01cfea414140de5dae2223b00361a396177a9cb410ff61f20015ad";
const ABC_BASE64: &str = "ungWv48Bz+pBQUDeXa4iI7ADYaOWF3qctBD/YfIAFa0=";
const HELLO_HEX: &str = "b94d27b9934d3e08a52e52d7da7dabfac484efe37a5380ee9088f7ace2efcde9";

fn advance(engine: DigestEngine, event: Event<'_>) -> DigestEngine {
    assert!(engine.admits(&event));
    match engine.step(event) {
        Step::Continue(next) => next,
        Step::Done(outcome) => panic!("ended early: {:?}", outcome),
    }
}

fn finish(engine: DigestEngine, event: Event<'_>) -> Result<HashResult, DigestError> {
    assert!(engine.admits(&event));
    match engine.step(event) {
        Step::Continue(next) => panic!("went on, now asking for {:?}", next.request()),
        Step::Done(outcome) => outcome,
    }
}

fn opened(path: &str, total: u64) -> DigestEngine {
    let engine = DigestEngine::new(path.to_string());
    assert_eq!(engine.request(), Request::Probe);
    let engine = advance(engine, Event::Probed { exists: true, is_file: true });
    assert_eq!(engine.request(), Request::ReadLength);
    let engine = advance(engine, Event::Length(Ok(total)));
    assert_eq!(engine.total(), total);
    assert_eq!(engine.request(), Request::Open);
    let engine = advance(engine, Event::Opened(Ok(())));
    assert_eq!(engine.request(), Request::StartClock);
    let engine = advance(engine, Event::ClockStarted);
    assert_eq!(engine.request(), Request::PollCancellation);
    engine
}

/// Streams `chunks` through a fresh computation and returns the progress
/// updates it asked to deliver, with its result.
fn digest_of(
    path: &str,
    total: u64,
    chunks: &[&[u8]],
    millis: u128,
) -> (Vec<HashProgress>, HashResult) {
    let mut updates = Vec::new();
    let mut engine = opened(path, total);
    for chunk in chunks {
        engine = advance(engine, Event::Polled { cancelled: false });
        assert_eq!(engine.request(), Request::ReadChunk { max_len: CHUNK_SIZE });
        engine = advance(engine, Event::Chunk(Ok(chunk)));
        match engine.request() {
            Request::Emit(progress) => updates.push(progress),
            other => panic!("expected a progress update, got {:?}", other),
        }
        engine = advance(engine, Event::Delivered(Ok(())));
        assert_eq!(engine.request(), Request::PollCancellation);
    }
    engine = advance(engine, Event::Polled { cancelled: false });
    engine = advance(engine, Event::Chunk(Ok(&[])));
    assert_eq!(engine.request(), Request::ReadClock);
    let result = finish(engine, Event::Elapsed { millis }).expect("a result");
    (updates, result)
}

#[test]
fn chunk_size_is_four_mebibytes() {
    assert_eq!(CHUNK_SIZE, 4_194_304);
}

#[test]
fn empty_file_completes_without_progress() {
    let engine = opened("/tmp/empty", 0);
    let engine = advance(engine, Event::Polled { cancelled: false });
    assert_eq!(engine.request(), Request::ReadChunk { max_len: CHUNK_SIZE });
    let engine = advance(engine, Event::Chunk(Ok(&[])));
    assert_eq!(engine.request(), Request::ReadClock);
    assert_eq!(engine.processed(), 0);
    let result = finish(engine, Event::Elapsed { millis: 7 }).expect("a result");
    assert_eq!(result.hex, EMPTY_HEX);
    assert_eq!(result.base64, EMPTY_BASE64);
    assert_eq!(result.elapsed_ms, 7);
    assert_eq!(result.bytes, 0);
    assert_eq!(result.path, "/tmp/empty");
}

#[test]
fn empty_file_emits_no_update() {
    let (updates, result) = digest_of("/tmp/empty", 0, &[], 0);
    assert!(updates.is_empty());
    assert_eq!(result.hex, EMPTY_HEX);
}

#[test]
fn missing_path_is_not_found() {
    let engine = DigestEngine::new("/no/such/file".to_string());
    assert_eq!(engine.request(), Request::Probe);
    let error = finish(engine, Event::Probed { exists: false, is_file: false }).unwrap_err();
    assert_eq!(error, DigestError::NotFound { path: "/no/such/file".to_string() });
    assert_eq!(error.message(), "File does not exist: /no/such/file");
}

#[test]
fn directory_is_not_a_file() {
    let engine = DigestEngine::new("/tmp".to_string());
    assert_eq!(engine.request(), Request::Probe);
    let error = finish(engine, Event::Probed { exists: true, is_file: false }).unwrap_err();
    assert_eq!(error, DigestError::NotAFile { path: "/tmp".to_string() });
    assert_eq!(error.message(), "Path is not a file: /tmp");
}

#[test]
fn existence_is_checked_before_kind() {
    let engine = DigestEngine::new("gone".to_string());
    let error = finish(engine, Event::Probed { exists: false, is_file: true }).unwrap_err();
    assert_eq!(error, DigestError::NotFound { path: "gone".to_string() });
}

#[test]
fn metadata_failure_is_reported() {
    let engine = DigestEngine::new("f".to_string());
    let engine = advance(engine, Event::Probed { exists: true, is_file: true });
    let error = finish(engine, Event::Length(Err("permission denied".to_string()))).unwrap_err();
    assert_eq!(
        error,
        DigestError::IoFailure { stage: IoStage::Metadata, detail: "permission denied".to_string() }
    );
    assert_eq!(error.message(), "Failed to read file metadata: permission denied");
}

#[test]
fn open_failure_is_reported() {
    let engine = DigestEngine::new("f".to_string());
    let engine = advance(engine, Event::Probed { exists: true, is_file: true });
    let engine = advance(engine, Event::Length(Ok(5)));
    let error = finish(engine, Event::Opened(Err("too many open files".to_string()))).unwrap_err();
    assert_eq!(
        error,
        DigestError::IoFailure { stage: IoStage::Open, detail: "too many open files".to_string() }
    );
    assert_eq!(error.message(), "Failed to open file: too many open files");
}

#[test]
fn read_failure_is_reported() {
    let engine = opened("f", 5);
    let engine = advance(engine, Event::Polled { cancelled: false });
    let error = finish(engine, Event::Chunk(Err("input/output error".to_string()))).unwrap_err();
    assert_eq!(
        error,
        DigestError::IoFailure { stage: IoStage::Read, detail: "input/output error".to_string() }
    );
    assert_eq!(error.message(), "Failed to read file: input/output error");
}

#[test]
fn undelivered_update_is_fatal() {
    let engine = opened("f", 3);
    let engine = advance(engine, Event::Polled { cancelled: false });
    let engine = advance(engine, Event::Chunk(Ok(b"abc")));
    assert_eq!(
        engine.request(),
        Request::Emit(HashProgress { processed: 3, total: 3, percent: 100 })
    );
    let error = finish(engine, Event::Delivered(Err("window closed".to_string()))).unwrap_err();
    assert_eq!(error, DigestError::SinkUnavailable { detail: "window closed".to_string() });
    assert_eq!(error.message(), "Failed to emit progress event: window closed");
}

#[test]
fn cancelled_at_first_check_point() {
    let engine = opened("/tmp/some", 3);
    let error = finish(engine, Event::Polled { cancelled: true }).unwrap_err();
    assert_eq!(error, DigestError::Cancelled);
    assert_eq!(error.message(), "Hash operation was cancelled");
}

#[test]
fn cancelled_between_chunks() {
    let engine = opened("/tmp/some", 6);
    let engine = advance(engine, Event::Polled { cancelled: false });
    let engine = advance(engine, Event::Chunk(Ok(b"abc")));
    let engine = advance(engine, Event::Delivered(Ok(())));
    assert_eq!(engine.phase(), Phase::Polling);
    assert_eq!(engine.processed(), 3);
    let error = finish(engine, Event::Polled { cancelled: true }).unwrap_err();
    assert_eq!(error, DigestError::Cancelled);
}

#[test]
fn digest_of_abc() {
    let (updates, result) = digest_of("abc.txt", 3, &[b"abc"], 12);
    assert_eq!(updates, vec![HashProgress { processed: 3, total: 3, percent: 100 }]);
    assert_eq!(result.hex, ABC_HEX);
    assert_eq!(result.base64, ABC_BASE64);
    assert_eq!(result.elapsed_ms, 12);
    assert_eq!(result.bytes, 3);
    assert_eq!(result.path, "abc.txt");
}

#[test]
fn progress_adds_up_to_file_size() {
    let chunks: [&[u8]; 3] = [b"hell", b"o", b" world!"];
    let (updates, result) = digest_of("greeting", 12, &chunks, 1);
    assert_eq!(
        updates,
        vec![
            HashProgress { processed: 4, total: 12, percent: 33 },
            HashProgress { processed: 5, total: 12, percent: 41 },
            HashProgress { processed: 12, total: 12, percent: 100 },
        ]
    );
    let mut previous = 0u64;
    let mut sum = 0u64;
    for update in &updates {
        assert!(update.processed > previous);
        sum += update.processed - previous;
        previous = update.processed;
    }
    assert_eq!(sum, 12);
    assert_eq!(result.bytes, 12);
}

#[test]
fn chunking_is_immaterial() {
    let (_, whole) = digest_of("a", 11, &[b"hello world"], 1);
    let (_, split) = digest_of("b", 11, &[b"hello", b" ", b"world"], 2);
    assert_eq!(whole.hex, HELLO_HEX);
    assert_eq!(split.hex, HELLO_HEX);
    assert_eq!(whole.base64, split.base64);
}

#[test]
fn hashing_twice_gives_the_same_texts() {
    let data = vec![0xa5u8; 1000];
    let (_, first) = digest_of("same", 1000, &[&data[..300], &data[300..]], 5);
    let (_, second) = digest_of("same", 1000, &[&data[..300], &data[300..]], 900);
    assert_eq!(first.hex, second.hex);
    assert_eq!(first.base64, second.base64);
    assert_eq!(first.hex, "30c623ea6bec69e841aee3fc41dcb6cabbe74c11b1404bcfbb026706ce608906");
}

#[test]
fn both_texts_decode_to_the_same_bytes() {
    let (_, result) = digest_of("abc.txt", 3, &[b"abc"], 0);
    let from_hex = hex::decode(&result.hex).expect("hexadecimal");
    let from_base64 = base64::engine::general_purpose::STANDARD
        .decode(&result.base64)
        .expect("base64");
    assert_eq!(from_hex.len(), 32);
    assert_eq!(from_hex, from_base64);
    assert_eq!(from_hex[0], 0xba);
    assert_eq!(from_hex[31], 0xad);
}

#[test]
fn result_echoes_the_length_looked_up() {
    let (updates, result) = digest_of("grown", 2, &[b"abc"], 0);
    assert_eq!(updates, vec![HashProgress { processed: 3, total: 2, percent: 150 }]);
    assert_eq!(result.bytes, 2);
    assert_eq!(result.hex, ABC_HEX);
}

#[test]
fn stray_event_changes_nothing() {
    let engine = DigestEngine::new("f".to_string());
    let engine = advance(engine, Event::Polled { cancelled: true });
    assert_eq!(engine.phase(), Phase::Probing);
    assert_eq!(engine.request(), Request::Probe);
    let engine = advance(engine, Event::Chunk(Ok(b"abc")));
    assert_eq!(engine.processed(), 0);
    let engine = advance(engine, Event::Elapsed { millis: 1 });
    assert_eq!(engine.request(), Request::Probe);
    let engine = opened_from(engine);
    let engine = advance(engine, Event::Delivered(Err("late".to_string())));
    assert_eq!(engine.request(), Request::PollCancellation);
}

fn opened_from(engine: DigestEngine) -> DigestEngine {
    let engine = advance(engine, Event::Probed { exists: true, is_file: true });
    let engine = advance(engine, Event::Length(Ok(0)));
    let engine = advance(engine, Event::Opened(Ok(())));
    advance(engine, Event::ClockStarted)
}

#[test]
fn phases_follow_the_algorithm() {
    let engine = DigestEngine::new("f".to_string());
    assert_eq!(engine.phase(), Phase::Probing);
    let engine = advance(engine, Event::Probed { exists: true, is_file: true });
    assert_eq!(engine.phase(), Phase::Sizing);
    let engine = advance(engine, Event::Length(Ok(1)));
    assert_eq!(engine.phase(), Phase::Opening);
    let engine = advance(engine, Event::Opened(Ok(())));
    assert_eq!(engine.phase(), Phase::Starting);
    let engine = advance(engine, Event::ClockStarted);
    assert_eq!(engine.phase(), Phase::Polling);
    let engine = advance(engine, Event::Polled { cancelled: false });
    assert_eq!(engine.phase(), Phase::Reading);
    let engine = advance(engine, Event::Chunk(Ok(b"x")));
    assert_eq!(engine.phase(), Phase::Delivering);
    let engine = advance(engine, Event::Delivered(Ok(())));
    assert_eq!(engine.phase(), Phase::Polling);
    let engine = advance(engine, Event::Polled { cancelled: false });
    let engine = advance(engine, Event::Chunk(Ok(&[])));
    assert_eq!(engine.phase(), Phase::Timing);
}

#[test]
fn chunk_longer_than_asked_for_is_not_admitted() {
    let engine = opened("big", 10_000_000);
    let engine = advance(engine, Event::Polled { cancelled: false });
    let full = vec![0u8; CHUNK_SIZE];
    let overlong = vec![0u8; CHUNK_SIZE + 1];
    assert!(!engine.admits(&Event::Chunk(Ok(&overlong))));
    assert!(engine.admits(&Event::Chunk(Ok(&full))));
    assert!(engine.admits(&Event::Chunk(Err("failed".to_string()))));
    let engine = advance(engine, Event::Chunk(Ok(&full)));
    assert_eq!(
        engine.request(),
        Request::Emit(HashProgress { processed: 4_194_304, total: 10_000_000, percent: 41 })
    );
    // Outside the reading phase a chunk is a stray event, whatever its length.
    assert!(engine.admits(&Event::Chunk(Ok(&overlong))));
}

//! The digest engine: what a computation does from the first look at its
//! path to the result it publishes.
//!
//! The engine never waits for anything. It names the next thing its shell has
//! to do as a [`Request`], is told the outcome as an [`Event`], and answers
//! with its next state or with the end of the computation. The shell owns the
//! file, the clock, the cancellation signal and the progress sink.
//!
//! A computation probes its path, looks up the file's length, opens the file
//! and starts the clock. Then, chunk by chunk, it looks at the cancellation
//! signal, reads, hashes what it got and has a progress update delivered. At
//! the end of the stream it makes the digest, reads the clock and publishes.
//! Any failure on the way, and a triggered signal at a check point, ends it
//! at once.
use crate::encoding::{base64_decode, hex_decode, lemma_encodings_agree};
use crate::error::{DigestError, DigestErrorView, IoStage};
use crate::models::{DigestTexts, HashProgress, HashResult, HashResultView};
use crate::sha256::{absorbed, sha256, Sha256Hasher, MAX_MESSAGE_BYTES};
use vstd::prelude::*;

verus! {

/// Most bytes asked for in one read. The cancellation signal is looked at
/// once per chunk, so this bounds how long a cancelled computation runs on.
pub const CHUNK_SIZE: usize = 4 * 1024 * 1024;

/// Where a computation stands: the answer it is waiting for.
#[derive(Debug, Clone, Copy, PartialEq, Eq, Structural)]
pub enum Phase {
    /// Whether the path exists and is a regular file.
    Probing,
    /// The file's length.
    Sizing,
    /// The file, opened for reading.
    Opening,
    /// Word that the clock has been started.
    Starting,
    /// The cancellation signal; this is the check point before each read.
    Polling,
    /// The next chunk.
    Reading,
    /// Delivery of the progress update for the chunk just hashed.
    Delivering,
    /// The time the computation took, now that the digest is made.
    Timing,
}

impl Phase {
    /// The phases before the first check point, in which nothing has been
    /// read yet.
    pub open spec fn before_reading(self) -> bool {
        self == Phase::Probing || self == Phase::Sizing || self == Phase::Opening || self
            == Phase::Starting
    }
}

/// What the engine asks of its shell.
#[derive(Debug, Clone, Copy, PartialEq, Eq, Structural)]
pub enum Request {
    /// Find out whether the path exists and whether it is a regular file.
    Probe,
    /// Look up the file's length.
    ReadLength,
    /// Open the file for reading.
    Open,
    /// Start the clock.
    StartClock,
    /// Look at the cancellation signal.
    PollCancellation,
    /// Read the next chunk, of at most `max_len` bytes.
    ReadChunk { max_len: usize },
    /// Deliver a progress update.
    Emit(HashProgress),
    /// Read the clock: the time since it was started.
    ReadClock,
}

/// What the shell found when it carried out a request. Failures carry the
/// storage layer's or the sink's own description.
#[derive(Debug)]
pub enum Event<'a> {
    Probed { exists: bool, is_file: bool },
    Length(Result<u64, String>),
    Opened(Result<(), String>),
    ClockStarted,
    Polled { cancelled: bool },
    /// The bytes read; none at the end of the stream.
    Chunk(Result<&'a [u8], String>),
    Delivered(Result<(), String>),
    Elapsed { millis: u128 },
}

/// An [`Event`] with its payloads as sequences.
pub enum EventView {
    Probed { exists: bool, is_file: bool },
    Length(Result<u64, Seq<char>>),
    Opened(Result<(), Seq<char>>),
    ClockStarted,
    Polled { cancelled: bool },
    Chunk(Result<Seq<u8>, Seq<char>>),
    Delivered(Result<(), Seq<char>>),
    Elapsed { millis: u128 },
}

impl<'a> View for Event<'a> {
    type V = EventView;

    open spec fn view(&self) -> EventView {
        match self {
            Event::Probed { exists, is_file } => EventView::Probed {
                exists: *exists,
                is_file: *is_file,
            },
            Event::Length(Ok(len)) => EventView::Length(Ok(*len)),
            Event::Length(Err(detail)) => EventView::Length(Err(detail@)),
            Event::Opened(Ok(_)) => EventView::Opened(Ok(())),
            Event::Opened(Err(detail)) => EventView::Opened(Err(detail@)),
            Event::ClockStarted => EventView::ClockStarted,
            Event::Polled { cancelled } => EventView::Polled { cancelled: *cancelled },
            Event::Chunk(Ok(bytes)) => EventView::Chunk(Ok(bytes@)),
            Event::Chunk(Err(detail)) => EventView::Chunk(Err(detail@)),
            Event::Delivered(Ok(_)) => EventView::Delivered(Ok(())),
            Event::Delivered(Err(detail)) => EventView::Delivered(Err(detail@)),
            Event::Elapsed { millis } => EventView::Elapsed { millis: *millis },
        }
    }
}

/// A phase together with what the computation holds of its digest in it:
/// nothing before the clock runs, the hash accumulator while the stream is
/// read, the finished texts after its end.
enum Stage {
    Probing,
    Sizing,
    Opening,
    Starting,
    Polling(Sha256Hasher),
    Reading(Sha256Hasher),
    Delivering(Sha256Hasher),
    Timing(DigestTexts),
}

/// One computation in progress.
pub struct DigestEngine {
    path: String,
    stage: Stage,
    total: u64,
    processed: u64,
    absorbed: Ghost<Seq<u8>>,
    reported: Ghost<Seq<HashProgress>>,
}

/// The state of a computation.
pub struct EngineView {
    /// The path the computation was started for.
    pub path: Seq<char>,
    pub phase: Phase,
    /// The file's length as looked up before reading; zero until then.
    pub total: u64,
    /// How many bytes have been hashed.
    pub processed: u64,
    /// The bytes hashed so far, in order.
    pub absorbed: Seq<u8>,
    /// The progress updates handed out for delivery so far, in order.
    pub reported: Seq<HashProgress>,
}

/// How one step ends.
pub enum Step {
    /// The computation goes on and has a new request.
    Continue(DigestEngine),
    /// The computation is over.
    Done(Result<HashResult, DigestError>),
}

/// A [`Step`] over views.
pub enum StepView {
    Continue(EngineView),
    Done(Result<HashResultView, DigestErrorView>),
}

impl View for Step {
    type V = StepView;

    open spec fn view(&self) -> StepView {
        match self {
            Step::Continue(engine) => StepView::Continue(engine@),
            Step::Done(Ok(result)) => StepView::Done(Ok(result@)),
            Step::Done(Err(error)) => StepView::Done(Err(error@)),
        }
    }
}

impl EngineView {
    /// A computation that has done nothing yet.
    pub open spec fn initial(path: Seq<char>) -> EngineView {
        EngineView {
            path,
            phase: Phase::Probing,
            total: 0,
            processed: 0,
            absorbed: Seq::empty(),
            reported: Seq::empty(),
        }
    }

    /// The same computation, waiting for something else.
    pub open spec fn at(self, phase: Phase) -> EngineView {
        EngineView { phase, ..self }
    }

    /// The request that is pending in this state.
    pub open spec fn request(self) -> Request {
        match self.phase {
            Phase::Probing => Request::Probe,
            Phase::Sizing => Request::ReadLength,
            Phase::Opening => Request::Open,
            Phase::Starting => Request::StartClock,
            Phase::Polling => Request::PollCancellation,
            Phase::Reading => Request::ReadChunk { max_len: CHUNK_SIZE },
            Phase::Delivering => Request::Emit(HashProgress::at(self.processed, self.total)),
            Phase::Timing => Request::ReadClock,
        }
    }

    /// Whether `event` can be taken in this state: a chunk must be no longer
    /// than was asked for, and must not carry the message past the length
    /// SHA-256 is defined for.
    pub open spec fn admits(self, event: EventView) -> bool {
        match (self.phase, event) {
            (Phase::Reading, EventView::Chunk(Ok(bytes))) => {
                &&& bytes.len() <= CHUNK_SIZE
                &&& self.processed + bytes.len() <= MAX_MESSAGE_BYTES
            },
            _ => true,
        }
    }

    /// The state after hashing a chunk of at least one byte.
    pub open spec fn absorb(self, bytes: Seq<u8>) -> EngineView {
        let processed: u64 = (self.processed + bytes.len()) as u64;
        EngineView {
            phase: Phase::Delivering,
            processed,
            absorbed: self.absorbed + bytes,
            reported: self.reported.push(HashProgress::at(processed, self.total)),
            ..self
        }
    }

    /// The result of a computation that has reached the end of its stream.
    pub open spec fn result(self, millis: u128) -> HashResultView {
        HashResultView::of_digest(sha256(self.absorbed), millis, self.total, self.path)
    }

    /// The transition: what becomes of this state when the shell reports
    /// `event`.
    ///
    /// An event that does not answer the pending request changes nothing:
    /// the state stays, and with it the request.
    pub open spec fn step(self, event: EventView) -> StepView {
        match (self.phase, event) {
            (Phase::Probing, EventView::Probed { exists, is_file }) => {
                if !exists {
                    StepView::Done(Err(DigestErrorView::NotFound { path: self.path }))
                } else if !is_file {
                    StepView::Done(Err(DigestErrorView::NotAFile { path: self.path }))
                } else {
                    StepView::Continue(self.at(Phase::Sizing))
                }
            },
            (Phase::Sizing, EventView::Length(Ok(len))) => StepView::Continue(
                EngineView { phase: Phase::Opening, total: len, ..self },
            ),
            (Phase::Sizing, EventView::Length(Err(detail))) => StepView::Done(
                Err(DigestErrorView::IoFailure { stage: IoStage::Metadata, detail }),
            ),
            (Phase::Opening, EventView::Opened(Ok(_))) => StepView::Continue(
                self.at(Phase::Starting),
            ),
            (Phase::Opening, EventView::Opened(Err(detail))) => StepView::Done(
                Err(DigestErrorView::IoFailure { stage: IoStage::Open, detail }),
            ),
            (Phase::Starting, EventView::ClockStarted) => StepView::Continue(
                self.at(Phase::Polling),
            ),
            (Phase::Polling, EventView::Polled { cancelled }) => {
                if cancelled {
                    StepView::Done(Err(DigestErrorView::Cancelled))
                } else {
                    StepView::Continue(self.at(Phase::Reading))
                }
            },
            (Phase::Reading, EventView::Chunk(Ok(bytes))) => {
                if bytes.len() == 0 {
                    StepView::Continue(self.at(Phase::Timing))
                } else {
                    StepView::Continue(self.absorb(bytes))
                }
            },
            (Phase::Reading, EventView::Chunk(Err(detail))) => StepView::Done(
                Err(DigestErrorView::IoFailure { stage: IoStage::Read, detail }),
            ),
            (Phase::Delivering, EventView::Delivered(Ok(_))) => StepView::Continue(
                self.at(Phase::Polling),
            ),
            (Phase::Delivering, EventView::Delivered(Err(detail))) => StepView::Done(
                Err(DigestErrorView::SinkUnavailable { detail }),
            ),
            (Phase::Timing, EventView::Elapsed { millis }) => StepView::Done(
                Ok(self.result(millis)),
            ),
            _ => StepView::Continue(self),
        }
    }

    /// What holds of every state a computation can be in: every byte hashed
    /// is counted, and the progress updates say so one chunk at a time.
    pub open spec fn inv(self) -> bool {
        &&& self.processed == self.absorbed.len()
        &&& self.processed <= MAX_MESSAGE_BYTES
        &&& forall|i: int|
            0 <= i < self.reported.len() ==> #[trigger] self.reported[i] == HashProgress::at(
                self.reported[i].processed,
                self.total,
            )
        &&& forall|i: int, j: int|
            0 <= i < j < self.reported.len() ==> (#[trigger] self.reported[i]).processed < (
            #[trigger] self.reported[j]).processed
        &&& self.reported.len() > 0 ==> 0 < self.reported[0].processed
        &&& forall|i: int|
            0 <= i < self.reported.len() ==> #[trigger] chunk_len(self.reported, i) <= CHUNK_SIZE
        &&& self.reported.len() > 0 ==> self.reported.last().processed == self.processed
        &&& self.reported.len() == 0 ==> self.processed == 0
        &&& self.phase.before_reading() ==> self.reported.len() == 0
        &&& self.phase == Phase::Delivering ==> self.reported.len() > 0
    }
}

/// The bytes that update `i` reports beyond the update before it: the length
/// of the chunk it was made for.
pub open spec fn chunk_len(reported: Seq<HashProgress>, i: int) -> int {
    if i == 0 {
        reported[0].processed as int
    } else {
        reported[i].processed - reported[i - 1].processed
    }
}

/// A computation starts out in a state that meets the invariant.
pub proof fn lemma_initial_inv(path: Seq<char>)
    ensures
        EngineView::initial(path).inv(),
{
}

/// A path that names nothing, or something other than a regular file, ends
/// the computation at its first step, before anything is read or reported:
/// the one as not found, the other as not a file.
pub proof fn lemma_unusable_path_fails_at_once(path: Seq<char>, is_file: bool)
    ensures
        EngineView::initial(path).reported.len() == 0,
        EngineView::initial(path).step(EventView::Probed { exists: false, is_file })
            == StepView::Done(Err(DigestErrorView::NotFound { path })),
        EngineView::initial(path).step(EventView::Probed { exists: true, is_file: false })
            == StepView::Done(Err(DigestErrorView::NotAFile { path })),
{
}

/// Hashing a chunk keeps the invariant: the update made for it reports
/// exactly its bytes.
pub proof fn lemma_absorb_inv(state: EngineView, bytes: Seq<u8>)
    requires
        state.inv(),
        state.phase == Phase::Reading,
        0 < bytes.len() <= CHUNK_SIZE,
        state.processed + bytes.len() <= MAX_MESSAGE_BYTES,
    ensures
        state.absorb(bytes).inv(),
        chunk_len(state.absorb(bytes).reported, state.reported.len() as int) == bytes.len(),
{
    let next = state.absorb(bytes);
    let count: int = state.reported.len() as int;
    assert forall|i: int| 0 <= i < next.reported.len() implies #[trigger] chunk_len(
        next.reported,
        i,
    ) <= CHUNK_SIZE by {
        if i < count {
            assert(chunk_len(next.reported, i) == chunk_len(state.reported, i));
        }
    }
}

/// Every step that a state can take keeps the invariant.
pub proof fn lemma_step_inv(state: EngineView, event: EventView)
    requires
        state.inv(),
        state.admits(event),
    ensures
        state.step(event) matches StepView::Continue(next) ==> next.inv(),
{
    if state.phase == Phase::Reading {
        if let EventView::Chunk(Ok(bytes)) = event {
            if bytes.len() > 0 {
                lemma_absorb_inv(state, bytes);
            }
        }
    }
}

/// The two texts of a result stand for the same bytes: decoded, the
/// hexadecimal text and the base64 text both give the digest.
pub proof fn lemma_published_texts_agree(state: EngineView, millis: u128)
    ensures
        hex_decode(state.result(millis).hex) == Some(sha256(state.absorbed)),
        base64_decode(state.result(millis).base64) == Some(sha256(state.absorbed)),
        hex_decode(state.result(millis).hex) == base64_decode(state.result(millis).base64),
{
    lemma_encodings_agree(sha256(state.absorbed));
}

/// At a check point a triggered signal ends the computation at once, with
/// the cancellation error and nothing else.
pub proof fn lemma_check_point_cancels(state: EngineView)
    requires
        state.phase == Phase::Polling,
    ensures
        state.step(EventView::Polled { cancelled: true }) == StepView::Done(
            Err(DigestErrorView::Cancelled),
        ),
        state.step(EventView::Polled { cancelled: false }) == StepView::Continue(
            state.at(Phase::Reading),
        ),
{
}

impl Stage {
    spec fn phase(self) -> Phase {
        match self {
            Stage::Probing => Phase::Probing,
            Stage::Sizing => Phase::Sizing,
            Stage::Opening => Phase::Opening,
            Stage::Starting => Phase::Starting,
            Stage::Polling(_) => Phase::Polling,
            Stage::Reading(_) => Phase::Reading,
            Stage::Delivering(_) => Phase::Delivering,
            Stage::Timing(_) => Phase::Timing,
        }
    }

    /// Whether what this stage holds is right for a computation that has
    /// hashed `message`: a hasher that has been fed just that, or the texts
    /// of its digest.
    spec fn holds(self, message: Seq<u8>) -> bool {
        match self {
            Stage::Polling(hasher) | Stage::Reading(hasher) | Stage::Delivering(hasher) => {
                absorbed(hasher) == message
            },
            Stage::Timing(texts) => texts.are_of(sha256(message)),
            _ => true,
        }
    }
}

impl View for DigestEngine {
    type V = EngineView;

    closed spec fn view(&self) -> EngineView {
        EngineView {
            path: self.path@,
            phase: self.stage.phase(),
            total: self.total,
            processed: self.processed,
            absorbed: self.absorbed@,
            reported: self.reported@,
        }
    }
}

impl DigestEngine {
    #[verifier::type_invariant]
    spec fn holds(self) -> bool {
        &&& self@.inv()
        &&& self.stage.holds(self.absorbed@)
    }

    /// A computation for the file at `path`, about to probe it.
    pub fn new(path: String) -> (engine: Self)
        ensures
            engine@ == EngineView::initial(path@),
            engine@.inv(),
    {
        DigestEngine {
            path,
            stage: Stage::Probing,
            total: 0,
            processed: 0,
            absorbed: Ghost(Seq::empty()),
            reported: Ghost(Seq::empty()),
        }
    }

    /// The answer the computation is waiting for.
    pub fn phase(&self) -> (phase: Phase)
        ensures
            phase == self@.phase,
    {
        match &self.stage {
            Stage::Probing => Phase::Probing,
            Stage::Sizing => Phase::Sizing,
            Stage::Opening => Phase::Opening,
            Stage::Starting => Phase::Starting,
            Stage::Polling(_) => Phase::Polling,
            Stage::Reading(_) => Phase::Reading,
            Stage::Delivering(_) => Phase::Delivering,
            Stage::Timing(_) => Phase::Timing,
        }
    }

    /// How many bytes have been hashed so far.
    pub fn processed(&self) -> (processed: u64)
        ensures
            processed == self@.processed,
            processed == self@.absorbed.len(),
    {
        proof {
            use_type_invariant(self);
        }
        self.processed
    }

    /// The file's length as it was looked up; zero before that.
    pub fn total(&self) -> (total: u64)
        ensures
            total == self@.total,
    {
        self.total
    }

    /// The request the shell has to carry out next.
    pub fn request(&self) -> (request: Request)
        ensures
            request == self@.request(),
    {
        match &self.stage {
            Stage::Probing => Request::Probe,
            Stage::Sizing => Request::ReadLength,
            Stage::Opening => Request::Open,
            Stage::Starting => Request::StartClock,
            Stage::Polling(_) => Request::PollCancellation,
            Stage::Reading(_) => Request::ReadChunk { max_len: CHUNK_SIZE },
            Stage::Delivering(_) => Request::Emit(HashProgress::new(self.processed, self.total)),
            Stage::Timing(_) => Request::ReadClock,
        }
    }

    /// Whether [`DigestEngine::step`] can take `event`.
    pub fn admits(&self, event: &Event<'_>) -> (ok: bool)
        ensures
            ok == self@.admits(event@),
    {
        proof {
            use_type_invariant(self);
        }
        match (&self.stage, event) {
            (Stage::Reading(_), Event::Chunk(Ok(bytes))) => {
                bytes.len() <= CHUNK_SIZE && bytes.len() as u64 <= MAX_MESSAGE_BYTES
                    - self.processed
            },
            _ => true,
        }
    }

    /// Takes the outcome of the pending request and moves on.
    ///
    /// The hash accumulator is made when the clock has been started, fed
    /// with every chunk, and finalized and encoded at the end of the stream,
    /// before the clock is read.
    pub fn step(self, event: Event<'_>) -> (out: Step)
        requires
            self@.admits(event@),
        ensures
            out@ == self@.step(event@),
            out matches Step::Continue(next) ==> next@.inv(),
    {
        proof {
            use_type_invariant(&self);
        }
        let DigestEngine { path, stage, total, processed, absorbed, reported } = self;
        match (stage, event) {
            (Stage::Probing, Event::Probed { exists, is_file }) => {
                if !exists {
                    Step::Done(Err(DigestError::NotFound { path }))
                } else if !is_file {
                    Step::Done(Err(DigestError::NotAFile { path }))
                } else {
                    Step::Continue(
                        DigestEngine {
                            path,
                            stage: Stage::Sizing,
                            total,
                            processed,
                            absorbed,
                            reported,
                        },
                    )
                }
            },
            (Stage::Sizing, Event::Length(Ok(len))) => Step::Continue(
                DigestEngine {
                    path,
                    stage: Stage::Opening,
                    total: len,
                    processed,
                    absorbed,
                    reported,
                },
            ),
            (Stage::Sizing, Event::Length(Err(detail))) => Step::Done(
                Err(DigestError::IoFailure { stage: IoStage::Metadata, detail }),
            ),
            (Stage::Opening, Event::Opened(Ok(_))) => Step::Continue(
                DigestEngine { path, stage: Stage::Starting, total, processed, absorbed, reported },
            ),
            (Stage::Opening, Event::Opened(Err(detail))) => Step::Done(
                Err(DigestError::IoFailure { stage: IoStage::Open, detail }),
            ),
            (Stage::Starting, Event::ClockStarted) => {
                let hasher = Sha256Hasher::new();
                assert(absorbed@ =~= Seq::empty());
                Step::Continue(
                    DigestEngine {
                        path,
                        stage: Stage::Polling(hasher),
                        total,
                        processed,
                        absorbed,
                        reported,
                    },
                )
            },
            (Stage::Polling(hasher), Event::Polled { cancelled }) => {
                if cancelled {
                    Step::Done(Err(DigestError::Cancelled))
                } else {
                    Step::Continue(
                        DigestEngine {
                            path,
                            stage: Stage::Reading(hasher),
                            total,
                            processed,
                            absorbed,
                            reported,
                        },
                    )
                }
            },
            (Stage::Reading(hasher), Event::Chunk(Ok(bytes))) => {
                if bytes.len() == 0 {
                    let digest = hasher.finalize();
                    let texts = DigestTexts::of(&digest);
                    Step::Continue(
                        DigestEngine {
                            path,
                            stage: Stage::Timing(texts),
                            total,
                            processed,
                            absorbed,
                            reported,
                        },
                    )
                } else {
                    let mut hasher = hasher;
                    hasher.update(bytes);
                    let processed: u64 = processed + bytes.len() as u64;
                    let progress = HashProgress::new(processed, total);
                    proof {
                        lemma_absorb_inv(self@, bytes@);
                    }
                    Step::Continue(
                        DigestEngine {
                            path,
                            stage: Stage::Delivering(hasher),
                            total,
                            processed,
                            absorbed: Ghost(absorbed@ + bytes@),
                            reported: Ghost(reported@.push(progress)),
                        },
                    )
                }
            },
            (Stage::Reading(_), Event::Chunk(Err(detail))) => Step::Done(
                Err(DigestError::IoFailure { stage: IoStage::Read, detail }),
            ),
            (Stage::Delivering(hasher), Event::Delivered(Ok(_))) => Step::Continue(
                DigestEngine {
                    path,
                    stage: Stage::Polling(hasher),
                    total,
                    processed,
                    absorbed,
                    reported,
                },
            ),
            (Stage::Delivering(_), Event::Delivered(Err(detail))) => Step::Done(
                Err(DigestError::SinkUnavailable { detail }),
            ),
            (Stage::Timing(texts), Event::Elapsed { millis }) => Step::Done(
                Ok(
                    HashResult {
                        hex: texts.hex,
                        base64: texts.base64,
                        elapsed_ms: millis,
                        bytes: total,
                        path,
                    },
                ),
            ),
            (stage, _) => Step::Continue(
                DigestEngine { path, stage, total, processed, absorbed, reported },
            ),
        }
    }
}

} // verus!

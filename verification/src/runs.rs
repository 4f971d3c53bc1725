//! Whole computations: what the engine does over a sequence of events, from
//! its first request to its end.
use crate::error::DigestErrorView;
use crate::encoding::{base64_decode, hex_decode};
use crate::hash::{chunk_len, lemma_absorb_inv, lemma_published_texts_agree, lemma_step_inv,
    EngineView, EventView, Phase, StepView, CHUNK_SIZE};
use crate::models::{lemma_percent_bounds, HashProgress, HashResultView};
use crate::sha256::{sha256, MAX_MESSAGE_BYTES};
use vstd::prelude::*;

verus! {

/// Where a sequence of events leaves a computation.
pub struct Run {
    /// The last state the computation was in.
    pub state: EngineView,
    /// How it ended, if it did.
    pub outcome: Option<Result<HashResultView, DigestErrorView>>,
}

impl EngineView {
    /// Feeds `events` in order, up to the end of the computation or to the
    /// first event that cannot be taken.
    pub open spec fn run(self, events: Seq<EventView>) -> Run
        decreases events.len(),
    {
        if events.len() == 0 || !self.admits(events[0]) {
            Run { state: self, outcome: None }
        } else {
            match self.step(events[0]) {
                StepView::Continue(next) => next.run(events.drop_first()),
                StepView::Done(outcome) => Run { state: self, outcome: Some(outcome) },
            }
        }
    }
}

/// The bytes that the first `n` updates report between them.
pub open spec fn bytes_accounted(reported: Seq<HashProgress>, n: nat) -> int
    decreases n,
{
    if n == 0 {
        0
    } else {
        bytes_accounted(reported, (n - 1) as nat) + chunk_len(reported, n - 1)
    }
}

/// Whether every look at the cancellation signal in `events` finds it
/// triggered.
pub open spec fn always_cancelled(events: Seq<EventView>) -> bool {
    forall|i: int|
        0 <= i < events.len() ==> (#[trigger] events[i] matches EventView::Polled { cancelled }
            ==> cancelled)
}

/// The chunks of a stream put end to end: the content that was read.
pub open spec fn joined(chunks: Seq<Seq<u8>>) -> Seq<u8>
    decreases chunks.len(),
{
    if chunks.len() == 0 {
        Seq::empty()
    } else {
        chunks[0] + joined(chunks.drop_first())
    }
}

/// The progress updates due for `chunks` when `start` bytes were hashed
/// before them: one for each chunk, counting up by its length.
pub open spec fn updates_for(chunks: Seq<Seq<u8>>, start: int, total: u64) -> Seq<HashProgress>
    decreases chunks.len(),
{
    if chunks.len() == 0 {
        Seq::empty()
    } else {
        let processed: int = start + chunks[0].len();
        seq![HashProgress::at(processed as u64, total)] + updates_for(
            chunks.drop_first(),
            processed,
            total,
        )
    }
}

/// What the shell reports up to the first check point when the path names a
/// regular file of `total` bytes that can be opened: the file is there, has
/// its length, is open, and the clock runs.
pub open spec fn opening(total: u64) -> Seq<EventView> {
    seq![
        EventView::Probed { exists: true, is_file: true },
        EventView::Length(Ok(total)),
        EventView::Opened(Ok(())),
        EventView::ClockStarted,
    ]
}

/// What the shell reports while `chunks` are read one by one, nobody
/// cancels, and every update is delivered.
pub open spec fn streaming(chunks: Seq<Seq<u8>>) -> Seq<EventView>
    decreases chunks.len(),
{
    if chunks.len() == 0 {
        Seq::empty()
    } else {
        seq![
            EventView::Polled { cancelled: false },
            EventView::Chunk(Ok(chunks[0])),
            EventView::Delivered(Ok(())),
        ] + streaming(chunks.drop_first())
    }
}

/// What the shell reports at the end of the stream, `millis` after the
/// start.
pub open spec fn closing(millis: u128) -> Seq<EventView> {
    seq![
        EventView::Polled { cancelled: false },
        EventView::Chunk(Ok(Seq::empty())),
        EventView::Elapsed { millis },
    ]
}

/// Whether `chunks` can be what a stream delivers: every read brought at
/// least one byte and no more than was asked for.
pub open spec fn well_cut(chunks: Seq<Seq<u8>>) -> bool {
    forall|i: int| 0 <= i < chunks.len() ==> 0 < (#[trigger] chunks[i]).len() <= CHUNK_SIZE
}

impl EngineView {
    /// The state at the check point after `chunks` have been hashed and
    /// their updates delivered.
    pub open spec fn after_chunks(self, chunks: Seq<Seq<u8>>) -> EngineView
        decreases chunks.len(),
    {
        if chunks.len() == 0 {
            self
        } else {
            self.absorb(chunks[0]).at(Phase::Polling).after_chunks(chunks.drop_first())
        }
    }
}

/// Whatever the shell reports, and in whatever order, a computation stays
/// within the invariant from its start to its last state.
pub proof fn lemma_run_inv(state: EngineView, events: Seq<EventView>)
    requires
        state.inv(),
    ensures
        state.run(events).state.inv(),
    decreases events.len(),
{
    if events.len() > 0 && state.admits(events[0]) {
        lemma_step_inv(state, events[0]);
        match state.step(events[0]) {
            StepView::Continue(next) => lemma_run_inv(next, events.drop_first()),
            StepView::Done(_) => {},
        }
    }
}

proof fn lemma_accounted_is_last(reported: Seq<HashProgress>, n: nat)
    requires
        0 < n <= reported.len(),
    ensures
        bytes_accounted(reported, n) == reported[n - 1].processed,
    decreases n,
{
    if n > 1 {
        lemma_accounted_is_last(reported, (n - 1) as nat);
    } else {
        assert(bytes_accounted(reported, 0) == 0);
    }
}

/// Progress is complete and strictly increasing: in every state of a
/// computation each update reports at least one byte more than the one
/// before it and at most one chunk, and together the updates account for
/// exactly the bytes hashed.
pub proof fn lemma_progress_accounts_for_every_byte(state: EngineView)
    requires
        state.inv(),
    ensures
        forall|i: int|
            0 <= i < state.reported.len() ==> 0 < #[trigger] chunk_len(state.reported, i)
                <= CHUNK_SIZE,
        forall|i: int, j: int|
            0 <= i < j < state.reported.len() ==> state.reported[i].processed
                < state.reported[j].processed,
        bytes_accounted(state.reported, state.reported.len()) == state.absorbed.len(),
{
    if state.reported.len() > 0 {
        lemma_accounted_is_last(state.reported, state.reported.len());
    }
    assert forall|i: int| 0 <= i < state.reported.len() implies 0 < #[trigger] chunk_len(
        state.reported,
        i,
    ) by {
        if i > 0 {
            assert(state.reported[i - 1].processed < state.reported[i].processed);
        }
    }
}

proof fn lemma_run_outcome(state: EngineView, events: Seq<EventView>)
    ensures
        state.run(events).state.path == state.path,
        state.run(events).outcome matches Some(Ok(result)) ==> result == state.run(
            events,
        ).state.result(result.elapsed_ms),
    decreases events.len(),
{
    if events.len() > 0 && state.admits(events[0]) {
        match state.step(events[0]) {
            StepView::Continue(next) => lemma_run_outcome(next, events.drop_first()),
            StepView::Done(_) => {},
        }
    }
}

/// A computation that ends with a result publishes the digest of exactly
/// the bytes its progress updates accounted for, and echoes the length and
/// the path it was given.
pub proof fn lemma_result_covers_reported_bytes(path: Seq<char>, events: Seq<EventView>)
    ensures
        EngineView::initial(path).run(events).outcome matches Some(Ok(result)) ==> ({
            let last = EngineView::initial(path).run(events).state;
            &&& result == last.result(result.elapsed_ms)
            &&& result.path == path
            &&& bytes_accounted(last.reported, last.reported.len()) == last.absorbed.len()
        }),
{
    let start = EngineView::initial(path);
    lemma_run_inv(start, events);
    lemma_progress_accounts_for_every_byte(start.run(events).state);
    lemma_run_outcome(start, events);
}

/// Whatever a computation went through, the two texts of its result stand
/// for the same bytes: decoded, the hexadecimal text and the base64 text both
/// give the digest of what was hashed.
pub proof fn lemma_result_texts_agree(path: Seq<char>, events: Seq<EventView>)
    ensures
        EngineView::initial(path).run(events).outcome matches Some(Ok(result)) ==> ({
            let digest = sha256(EngineView::initial(path).run(events).state.absorbed);
            &&& hex_decode(result.hex) == Some(digest)
            &&& base64_decode(result.base64) == Some(digest)
            &&& hex_decode(result.hex) == base64_decode(result.base64)
        }),
{
    let run = EngineView::initial(path).run(events);
    lemma_run_outcome(EngineView::initial(path), events);
    if let Some(Ok(result)) = run.outcome {
        lemma_published_texts_agree(run.state, result.elapsed_ms);
    }
}

proof fn lemma_run_continues(state: EngineView, events: Seq<EventView>, next: EngineView)
    requires
        events.len() > 0,
        state.admits(events[0]),
        state.step(events[0]) == StepView::Continue(next),
    ensures
        state.run(events) == next.run(events.drop_first()),
{
}

proof fn lemma_joined_len(chunks: Seq<Seq<u8>>)
    requires
        chunks.len() > 0,
    ensures
        joined(chunks).len() == chunks[0].len() + joined(chunks.drop_first()).len(),
{
}

proof fn lemma_updates_count(chunks: Seq<Seq<u8>>, start: int, total: u64)
    ensures
        updates_for(chunks, start, total).len() == chunks.len(),
    decreases chunks.len(),
{
    if chunks.len() > 0 {
        lemma_updates_count(chunks.drop_first(), start + chunks[0].len(), total);
    }
}

/// Hashing chunk after chunk absorbs their content in order and hands out
/// the updates due for them, and nothing else changes.
proof fn lemma_after_chunks(state: EngineView, chunks: Seq<Seq<u8>>)
    requires
        state.inv(),
        state.phase == Phase::Polling,
        well_cut(chunks),
        state.processed + joined(chunks).len() <= MAX_MESSAGE_BYTES,
    ensures
        state.after_chunks(chunks).inv(),
        state.after_chunks(chunks).phase == Phase::Polling,
        state.after_chunks(chunks).path == state.path,
        state.after_chunks(chunks).total == state.total,
        state.after_chunks(chunks).absorbed == state.absorbed + joined(chunks),
        state.after_chunks(chunks).reported == state.reported + updates_for(
            chunks,
            state.processed as int,
            state.total,
        ),
    decreases chunks.len(),
{
    if chunks.len() == 0 {
        assert(state.absorbed + joined(chunks) =~= state.absorbed);
        assert(state.reported + updates_for(chunks, state.processed as int, state.total)
            =~= state.reported);
    } else {
        let rest = chunks.drop_first();
        let reading = state.at(Phase::Reading);
        lemma_joined_len(chunks);
        lemma_absorb_inv(reading, chunks[0]);
        let next = state.absorb(chunks[0]).at(Phase::Polling);
        assert(reading.absorb(chunks[0]) == state.absorb(chunks[0]));
        assert(well_cut(rest)) by {
            assert forall|i: int| 0 <= i < rest.len() implies 0 < (#[trigger] rest[i]).len()
                <= CHUNK_SIZE by {
                assert(rest[i] == chunks[i + 1]);
            }
        }
        assert(next.inv()) by {
            assert(next.reported == state.absorb(chunks[0]).reported);
        }
        lemma_after_chunks(next, rest);
        assert((state.absorbed + chunks[0]) + joined(rest) =~= state.absorbed + joined(chunks));
        assert(state.reported.push(HashProgress::at(next.processed, state.total)) + updates_for(
            rest,
            next.processed as int,
            state.total,
        ) =~= state.reported + updates_for(chunks, state.processed as int, state.total));
    }
}

/// Reading chunk after chunk, undisturbed, is a run that ends at the check
/// point after the last of them.
proof fn lemma_run_streaming(state: EngineView, chunks: Seq<Seq<u8>>, tail: Seq<EventView>)
    requires
        state.inv(),
        state.phase == Phase::Polling,
        well_cut(chunks),
        state.processed + joined(chunks).len() <= MAX_MESSAGE_BYTES,
    ensures
        state.run(streaming(chunks) + tail) == state.after_chunks(chunks).run(tail),
    decreases chunks.len(),
{
    if chunks.len() == 0 {
        assert(streaming(chunks) + tail =~= tail);
    } else {
        let rest = chunks.drop_first();
        let events = streaming(chunks) + tail;
        lemma_joined_len(chunks);

        let reading = state.at(Phase::Reading);
        assert(events[0] == EventView::Polled { cancelled: false });
        lemma_run_continues(state, events, reading);

        let after_poll = events.drop_first();
        let delivering = state.absorb(chunks[0]);
        assert(after_poll[0] == EventView::Chunk(Ok(chunks[0])));
        assert(reading.absorb(chunks[0]) == delivering);
        lemma_run_continues(reading, after_poll, delivering);

        let after_chunk = after_poll.drop_first();
        let next = delivering.at(Phase::Polling);
        assert(after_chunk[0] == EventView::Delivered(Ok(())));
        lemma_run_continues(delivering, after_chunk, next);

        assert(after_chunk.drop_first() =~= streaming(rest) + tail);
        lemma_absorb_inv(reading, chunks[0]);
        assert(next.inv()) by {
            assert(next.reported == delivering.reported);
        }
        assert(well_cut(rest)) by {
            assert forall|i: int| 0 <= i < rest.len() implies 0 < (#[trigger] rest[i]).len()
                <= CHUNK_SIZE by {
                assert(rest[i] == chunks[i + 1]);
            }
        }
        lemma_run_streaming(next, rest, tail);
    }
}

/// The engine computes the digest of the file. When the path names a
/// regular file that opens, its content arrives as `chunks`, every update is
/// delivered and nobody cancels, then the computation ends with the SHA-256
/// digest of that content, in both encodings, next to the time it was told,
/// the length it looked up and the path it was given. On the way it hands
/// out one progress update per chunk, and none for an empty file.
pub proof fn lemma_undisturbed_run(
    path: Seq<char>,
    total: u64,
    chunks: Seq<Seq<u8>>,
    millis: u128,
)
    requires
        well_cut(chunks),
        joined(chunks).len() <= MAX_MESSAGE_BYTES,
    ensures
        ({
            let run = EngineView::initial(path).run(
                opening(total) + streaming(chunks) + closing(millis),
            );
            &&& run.outcome == Some(
                Ok::<HashResultView, DigestErrorView>(
                    HashResultView::of_digest(sha256(joined(chunks)), millis, total, path),
                ),
            )
            &&& run.state.absorbed == joined(chunks)
            &&& run.state.reported == updates_for(chunks, 0, total)
            &&& run.state.reported.len() == chunks.len()
            &&& bytes_accounted(run.state.reported, chunks.len()) == joined(chunks).len()
            &&& forall|i: int, j: int|
                0 <= i < j < chunks.len() ==> run.state.reported[i].processed
                    < run.state.reported[j].processed
            &&& chunks.len() > 0 ==> run.state.reported.last().processed == joined(chunks).len()
            &&& chunks.len() > 0 && total == joined(chunks).len()
                ==> run.state.reported.last().percent == 100
        }),
{
    let start = EngineView::initial(path);
    let body = streaming(chunks) + closing(millis);
    let events = opening(total) + streaming(chunks) + closing(millis);
    assert(events =~= opening(total) + body);

    let sizing = start.at(Phase::Sizing);
    assert(events[0] == EventView::Probed { exists: true, is_file: true });
    lemma_run_continues(start, events, sizing);

    let after_probe = events.drop_first();
    let opening_state = EngineView { phase: Phase::Opening, total, ..sizing };
    assert(after_probe[0] == EventView::Length(Ok(total)));
    lemma_run_continues(sizing, after_probe, opening_state);

    let after_length = after_probe.drop_first();
    let starting = opening_state.at(Phase::Starting);
    assert(after_length[0] == EventView::Opened(Ok(())));
    lemma_run_continues(opening_state, after_length, starting);

    let after_open = after_length.drop_first();
    let polling = starting.at(Phase::Polling);
    assert(after_open[0] == EventView::ClockStarted);
    lemma_run_continues(starting, after_open, polling);
    assert(after_open.drop_first() =~= body);

    lemma_run_streaming(polling, chunks, closing(millis));
    lemma_after_chunks(polling, chunks);
    let last = polling.after_chunks(chunks);
    assert(last.absorbed =~= joined(chunks));
    assert(last.reported =~= updates_for(chunks, 0, total));

    let tail = closing(millis);
    let reading = last.at(Phase::Reading);
    assert(tail[0] == EventView::Polled { cancelled: false });
    lemma_run_continues(last, tail, reading);

    let after_poll = tail.drop_first();
    let timing = last.at(Phase::Timing);
    assert(after_poll[0] == EventView::Chunk(Ok(Seq::<u8>::empty())));
    lemma_run_continues(reading, after_poll, timing);

    let after_end = after_poll.drop_first();
    assert(after_end[0] == EventView::Elapsed { millis });
    assert(timing.step(after_end[0]) == StepView::Done(Ok(timing.result(millis))));
    lemma_updates_count(chunks, 0, total);
    lemma_progress_accounts_for_every_byte(timing);
    if chunks.len() > 0 && total == joined(chunks).len() {
        lemma_percent_bounds(total, total);
    }
}

/// An empty file yields the digest of the empty message, and no progress
/// update on the way.
pub proof fn lemma_empty_file(path: Seq<char>, total: u64, millis: u128)
    ensures
        ({
            let run = EngineView::initial(path).run(opening(total) + closing(millis));
            &&& run.outcome == Some(
                Ok::<HashResultView, DigestErrorView>(
                    HashResultView::of_digest(sha256(Seq::empty()), millis, total, path),
                ),
            )
            &&& run.state.reported.len() == 0
        }),
{
    let chunks = Seq::<Seq<u8>>::empty();
    lemma_undisturbed_run(path, total, chunks, millis);
    assert(opening(total) + streaming(chunks) + closing(millis) =~= opening(total) + closing(
        millis,
    ));
}

/// Hashing the same content twice gives the same texts, however the content
/// was cut into chunks and whatever length and time the two runs were told.
pub proof fn lemma_same_content_same_texts(
    path: Seq<char>,
    first_total: u64,
    first_chunks: Seq<Seq<u8>>,
    first_millis: u128,
    second_total: u64,
    second_chunks: Seq<Seq<u8>>,
    second_millis: u128,
)
    requires
        well_cut(first_chunks),
        well_cut(second_chunks),
        joined(first_chunks) == joined(second_chunks),
        joined(first_chunks).len() <= MAX_MESSAGE_BYTES,
    ensures
        ({
            let first = EngineView::initial(path).run(
                opening(first_total) + streaming(first_chunks) + closing(first_millis),
            ).outcome;
            let second = EngineView::initial(path).run(
                opening(second_total) + streaming(second_chunks) + closing(second_millis),
            ).outcome;
            &&& first matches Some(Ok(a))
            &&& second matches Some(Ok(b))
            &&& a.hex == b.hex
            &&& a.base64 == b.base64
        }),
{
    lemma_undisturbed_run(path, first_total, first_chunks, first_millis);
    lemma_undisturbed_run(path, second_total, second_chunks, second_millis);
}

/// Cancellation takes effect at the next check point. If a computation has
/// not yet passed the check point before its next read, and its signal reads
/// as triggered from now on, then it hashes nothing more, hands out no
/// further progress update, and never ends with a result.
pub proof fn lemma_cancelled_before_check_point(state: EngineView, events: Seq<EventView>)
    requires
        state.phase != Phase::Reading,
        state.phase != Phase::Timing,
        always_cancelled(events),
    ensures
        !(state.run(events).outcome matches Some(Ok(_))),
        state.run(events).state.absorbed == state.absorbed,
        state.run(events).state.reported == state.reported,
    decreases events.len(),
{
    if events.len() > 0 && state.admits(events[0]) {
        assert(events[0] matches EventView::Polled { cancelled } ==> cancelled);
        match state.step(events[0]) {
            StepView::Continue(next) => {
                let rest = events.drop_first();
                assert forall|i: int| 0 <= i < rest.len() implies (
                #[trigger] rest[i] matches EventView::Polled { cancelled } ==> cancelled) by {
                    assert(rest[i] == events[i + 1]);
                }
                lemma_cancelled_before_check_point(next, rest);
            },
            StepView::Done(_) => {},
        }
    }
}

} // verus!

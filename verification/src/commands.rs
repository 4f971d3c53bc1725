//! The operation coordinator: a single slot that holds the cancellation
//! signal of the computation in progress, if there is one.
//!
//! Starting a computation takes whatever signal the slot holds and installs a
//! fresh one in the same move, so at most one computation is ever live. A
//! signal is a ticket that is never issued twice; it reads as triggered from
//! the moment it leaves the slot, and so for good. The shell keeps the state
//! behind its lock and holds the lock for one call at a time.
use crate::hash::{EngineView, EventView, Phase};
use crate::runs::{always_cancelled, lemma_cancelled_before_check_point};
use vstd::prelude::*;

verus! {

/// The cancellation signal of one computation.
#[derive(Debug, Clone, Copy, PartialEq, Eq, Structural)]
pub struct CancellationSignal {
    id: u64,
}

impl View for CancellationSignal {
    type V = u64;

    /// The ticket number: how many signals were issued before this one.
    closed spec fn view(&self) -> u64 {
        self.id
    }
}

/// The coordinator's slot.
pub struct HashState {
    slot: Option<CancellationSignal>,
    issued: u64,
}

/// What the coordinator knows.
pub struct HashStateView {
    /// The ticket of the live computation.
    pub slot: Option<u64>,
    /// How many signals have been issued.
    pub issued: nat,
}

impl HashStateView {
    /// A coordinator that has started nothing.
    pub open spec fn idle() -> HashStateView {
        HashStateView { slot: None, issued: 0 }
    }

    /// Only issued signals are ever in the slot, and tickets are counted in
    /// 64 bits.
    pub open spec fn wf(self) -> bool {
        &&& self.issued <= u64::MAX
        &&& self.slot matches Some(id) ==> id < self.issued
    }

    /// Whether the signal with ticket `id` has been triggered: it is not, or
    /// no longer, the one in the slot.
    pub open spec fn is_triggered(self, id: u64) -> bool {
        self.slot != Some(id)
    }

    /// After a start: the signal in the slot, if any, is superseded by a
    /// fresh one.
    pub open spec fn started(self) -> HashStateView {
        HashStateView { slot: Some(self.issued as u64), issued: self.issued + 1 }
    }

    /// After the computation with ticket `id` has ended: the slot is cleared
    /// if it still holds that signal, and left alone if a newer computation
    /// has claimed it since.
    pub open spec fn finished(self, id: u64) -> HashStateView {
        if self.slot == Some(id) {
            HashStateView { slot: None, ..self }
        } else {
            self
        }
    }

    /// After a cancellation: the slot is empty.
    pub open spec fn cancelled(self) -> HashStateView {
        HashStateView { slot: None, ..self }
    }

    /// The state that `operation` leaves. A start for which no ticket is
    /// left does not take place.
    pub open spec fn apply(self, operation: Operation) -> HashStateView {
        match operation {
            Operation::Start => if self.issued < u64::MAX {
                self.started()
            } else {
                self
            },
            Operation::Finish(id) => self.finished(id),
            Operation::Cancel => self.cancelled(),
        }
    }

    /// The state that `operations` leave, carried out in order.
    pub open spec fn apply_all(self, operations: Seq<Operation>) -> HashStateView
        decreases operations.len(),
    {
        if operations.len() == 0 {
            self
        } else {
            self.apply(operations[0]).apply_all(operations.drop_first())
        }
    }
}

/// What can be done to the coordinator.
pub enum Operation {
    /// A computation is started.
    Start,
    /// The computation with this ticket has ended.
    Finish(u64),
    /// The computation in progress is cancelled.
    Cancel,
}

/// Whether every look at the cancellation signal in `events` reads the
/// signal with ticket `id` in `state` or in a state that later operations
/// have made of it.
pub open spec fn polls_read(events: Seq<EventView>, state: HashStateView, id: u64) -> bool {
    forall|i: int|
        0 <= i < events.len() ==> (#[trigger] events[i] matches EventView::Polled { cancelled }
            ==> exists|later: Seq<Operation>|
            cancelled == (#[trigger] state.apply_all(later)).is_triggered(id))
}

impl View for HashState {
    type V = HashStateView;

    closed spec fn view(&self) -> HashStateView {
        HashStateView {
            slot: match self.slot {
                Some(signal) => Some(signal@),
                None => None,
            },
            issued: self.issued as nat,
        }
    }
}

impl HashState {
    #[verifier::type_invariant]
    spec fn holds(self) -> bool {
        self@.wf()
    }

    /// A coordinator with an empty slot.
    pub fn new() -> (state: Self)
        ensures
            state@ == HashStateView::idle(),
    {
        HashState { slot: None, issued: 0 }
    }

    /// Whether another computation can be started: tickets are counted in 64
    /// bits.
    pub fn can_start(&self) -> (ok: bool)
        ensures
            ok == (self@.issued < u64::MAX),
            self@.wf(),
    {
        proof {
            use_type_invariant(self);
        }
        self.issued < u64::MAX
    }

    /// Starts a computation: triggers and removes the signal in the slot, if
    /// there is one, and installs a fresh signal, which it returns.
    pub fn start(&mut self) -> (signal: CancellationSignal)
        requires
            old(self)@.issued < u64::MAX,
        ensures
            signal@ == old(self)@.issued,
            final(self)@ == old(self)@.started(),
            final(self)@.wf(),
            !final(self)@.is_triggered(signal@),
            old(self)@.slot matches Some(previous) ==> final(self)@.is_triggered(previous),
    {
        proof {
            use_type_invariant(&*self);
        }
        let signal = CancellationSignal { id: self.issued };
        *self = HashState { slot: Some(signal), issued: self.issued + 1 };
        signal
    }

    /// Whether `signal` has been triggered. The computation that holds it
    /// asks this at every check point.
    pub fn is_cancelled(&self, signal: CancellationSignal) -> (triggered: bool)
        ensures
            triggered == self@.is_triggered(signal@),
    {
        match self.slot {
            Some(live) => live.id != signal.id,
            None => true,
        }
    }

    /// Ends the computation that holds `signal`, whatever its outcome: the
    /// slot is cleared unless a newer computation has claimed it.
    pub fn finish(&mut self, signal: CancellationSignal)
        ensures
            final(self)@ == old(self)@.finished(signal@),
            final(self)@.wf(),
    {
        proof {
            use_type_invariant(&*self);
        }
        let held = match self.slot {
            Some(live) => live.id == signal.id,
            None => false,
        };
        if held {
            *self = HashState { slot: None, issued: self.issued };
        }
    }
}

/// Cancels the computation in progress, if there is one, by taking its
/// signal out of the slot. Succeeds always; with an empty slot it changes
/// nothing.
pub fn cancel_hash(state: &mut HashState) -> (ack: Result<(), String>)
    ensures
        ack is Ok,
        final(state)@ == old(state)@.cancelled(),
        old(state)@.slot is None ==> final(state)@ == old(state)@,
        forall|id: u64| final(state)@.is_triggered(id),
{
    proof {
        use_type_invariant(&*state);
    }
    *state = HashState { slot: None, issued: state.issued };
    Ok(())
}

/// At most one computation is live: two signals that both read as
/// untriggered are the same signal.
pub proof fn lemma_at_most_one_live(state: HashStateView, first: u64, second: u64)
    requires
        !state.is_triggered(first),
        !state.is_triggered(second),
    ensures
        first == second,
{
}

/// Whatever is done to the coordinator, the slot stays well formed.
pub proof fn lemma_operations_keep_wf(state: HashStateView, operations: Seq<Operation>)
    requires
        state.wf(),
    ensures
        state.apply_all(operations).wf(),
        state.apply_all(operations).issued >= state.issued,
    decreases operations.len(),
{
    if operations.len() > 0 {
        lemma_operations_keep_wf(state.apply(operations[0]), operations.drop_first());
    }
}

/// A triggered signal stays triggered: whatever is done to the coordinator
/// afterwards, no start, end or cancellation brings an issued signal back
/// into the slot.
pub proof fn lemma_trigger_is_permanent(
    state: HashStateView,
    id: u64,
    operations: Seq<Operation>,
)
    requires
        state.wf(),
        id < state.issued,
        state.is_triggered(id),
    ensures
        state.apply_all(operations).is_triggered(id),
    decreases operations.len(),
{
    if operations.len() > 0 {
        lemma_trigger_is_permanent(state.apply(operations[0]), id, operations.drop_first());
    }
}

/// Whether `operations` are nothing but the endings of computations other
/// than the one with ticket `live`.
pub open spec fn only_other_endings(operations: Seq<Operation>, live: u64) -> bool {
    forall|i: int|
        0 <= i < operations.len() ==> (#[trigger] operations[i] matches Operation::Finish(id)
            && id != live)
}

/// Ending a computation never disturbs another one: while nothing is
/// started or cancelled, the live signal stays in the slot, untriggered,
/// however many superseded computations end and release their claims.
pub proof fn lemma_endings_spare_the_live_signal(
    state: HashStateView,
    live: u64,
    operations: Seq<Operation>,
)
    requires
        !state.is_triggered(live),
        only_other_endings(operations, live),
    ensures
        state.apply_all(operations) == state,
        !state.apply_all(operations).is_triggered(live),
    decreases operations.len(),
{
    if operations.len() > 0 {
        let rest = operations.drop_first();
        assert(operations[0] matches Operation::Finish(id) && id != live);
        assert forall|i: int| 0 <= i < rest.len() implies (
        #[trigger] rest[i] matches Operation::Finish(id) && id != live) by {
            assert(rest[i] == operations[i + 1]);
        }
        lemma_endings_spare_the_live_signal(state, live, rest);
    }
}

/// Cancelling when nothing is in progress has no effect.
pub proof fn lemma_cancel_when_idle(state: HashStateView)
    requires
        state.slot is None,
    ensures
        state.cancelled() == state,
{
}

/// Starting a second computation before the first has ended supersedes the
/// first: its signal reads as triggered and the second's does not, and that
/// is still so when the first computation ends and releases its claim.
pub proof fn lemma_second_start_supersedes_first(state: HashStateView)
    requires
        state.wf(),
        state.issued + 1 < u64::MAX,
    ensures
        ({
            let first: u64 = state.issued as u64;
            let second: u64 = state.started().issued as u64;
            let both = state.started().started();
            &&& first != second
            &&& both.is_triggered(first)
            &&& !both.is_triggered(second)
            &&& both.finished(first) == both
        }),
{
}

/// A superseded computation does not produce a result. Once a second
/// computation has been started, the first one finds its signal triggered
/// at every later check point, whatever has been done to the coordinator in
/// between. So, provided it has not yet passed the check point before its
/// next read, it hashes nothing more, hands out no further progress update
/// and ends without a result, whatever else its shell reports.
pub proof fn lemma_superseded_run_yields_no_result(
    state: HashStateView,
    engine: EngineView,
    events: Seq<EventView>,
)
    requires
        state.wf(),
        state.issued + 1 < u64::MAX,
        engine.phase != Phase::Reading,
        engine.phase != Phase::Timing,
        polls_read(events, state.started().started(), state.issued as u64),
    ensures
        !(engine.run(events).outcome matches Some(Ok(_))),
        engine.run(events).state.absorbed == engine.absorbed,
        engine.run(events).state.reported == engine.reported,
{
    let first: u64 = state.issued as u64;
    let both = state.started().started();
    lemma_second_start_supersedes_first(state);
    assert forall|i: int| 0 <= i < events.len() implies (
    #[trigger] events[i] matches EventView::Polled { cancelled } ==> cancelled) by {
        if let EventView::Polled { cancelled } = events[i] {
            let later = choose|later: Seq<Operation>|
                cancelled == (#[trigger] both.apply_all(later)).is_triggered(first);
            lemma_trigger_is_permanent(both, first, later);
        }
    }
    assert(always_cancelled(events));
    lemma_cancelled_before_check_point(engine, events);
}

} // verus!

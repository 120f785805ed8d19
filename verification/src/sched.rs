//! The prefetch scheduler's decisions.
//!
//! One background task owns the active session and loops: it consults
//! the stop flag, the completion state, and the viewport, in that order,
//! and acts on the decision.  The decision logic lives here, pure and
//! total, so that the loop around it only performs the work the
//! decision names; a stop request wins every tie.

use crate::book::{first_unloaded_in, search_order, MangaBook};
use vstd::prelude::*;

verus! {

/// The scheduler's lifecycle: no session, an actively decoding session,
/// or a stopped session waiting for in-flight work to finish.
#[derive(PartialEq, Eq, Structural, Clone, Copy, Debug)]
pub enum SchedulerState {
    /// No session runs.
    Idle,
    /// A session is actively decoding.
    Running,
    /// A stop was requested; in-flight work drains before the session's
    /// entries are dropped.
    Draining,
}

impl SchedulerState {
    /// A new session starts only from the idle state.
    pub fn start(self) -> (r: SchedulerState)
        requires
            self is Idle,
        ensures
            r is Running,
    {
        SchedulerState::Running
    }

    /// A stop request sends a running scheduler to draining and leaves
    /// the other states alone.
    pub fn request_stop(self) -> (r: SchedulerState)
        ensures
            self is Running ==> r is Draining,
            !(self is Running) ==> r == self,
    {
        match self {
            SchedulerState::Running => SchedulerState::Draining,
            s => s,
        }
    }

    /// Once the drained session's entries are dropped, the scheduler is
    /// idle again and a new container may open.
    pub fn drained(self) -> (r: SchedulerState)
        requires
            self is Draining,
        ensures
            r is Idle,
    {
        SchedulerState::Idle
    }
}

/// What the prefetch loop does next.
#[derive(PartialEq, Eq, Structural, Clone, Copy, Debug)]
pub enum StepDecision {
    /// A stop was requested: exit the loop without starting new work.
    Stop,
    /// Every page is settled: exit the loop voluntarily and release the
    /// session's resources early.
    Done,
    /// Decode this page next.
    Load(usize),
    /// Nothing near the viewport awaits decoding: wait for the next
    /// viewport update or stop signal.
    Wait,
}

/// The next action of the random-access strategy, given the stop flag
/// and the viewport `(index, size)`.  Stop wins every tie; completion is
/// noticed before any new work; otherwise the nearest unloaded page by
/// the forward-biased search is decoded, and a viewport with nothing
/// unloaded nearby waits.
pub fn prefetch_step(book: &MangaBook, stop: bool, index: usize, size: usize) -> (r: StepDecision)
    requires
        book.inv(),
        index + 2 * size + size / 2 < usize::MAX,
    ensures
        stop ==> r is Stop,
        !stop && (forall|i: int|
            0 <= i < book.spec_slots().len() ==> !((#[trigger] book.spec_slots()[i]) is Empty))
            ==> r is Done,
        !stop && !(forall|i: int|
            0 <= i < book.spec_slots().len() ==> !((#[trigger] book.spec_slots()[i]) is Empty))
            ==> match first_unloaded_in(
            search_order(index as int, size as int),
            book.spec_slots(),
        ) {
            Some(i) => r == StepDecision::Load(i as usize),
            None => r is Wait,
        },
{
    if stop {
        return StepDecision::Stop;
    }
    if book.all_loaded() {
        return StepDecision::Done;
    }
    match book.has_unloaded_nearby(index, size) {
        Some(i) => {
            proof {
                lemma_first_unloaded_bounds(
                    search_order(index as int, size as int),
                    book.spec_slots(),
                );
            }
            StepDecision::Load(i)
        },
        None => StepDecision::Wait,
    }
}

/// A found index is a valid slot index.
pub proof fn lemma_first_unloaded_bounds(order: Seq<int>, slots: Seq<crate::book::Slot>)
    ensures
        first_unloaded_in(order, slots) matches Some(i) ==> 0 <= i < slots.len(),
    decreases order.len(),
{
    if order.len() > 0 {
        lemma_first_unloaded_bounds(order.skip(1), slots);
    }
}

} // verus!

//! The decisions of the dispatcher. Each request's work runs on a worker pool
//! while a deadline timer runs beside it; whichever finishes first settles the
//! request. Running the pool and the timer is left to the caller, which hands
//! back how the race ended.
use vstd::prelude::*;
use crate::codec::{Completion, Request, Response};

verus! {

/// Milliseconds in a second.
pub const MILLIS_PER_SEC: u64 = 1000;
/// Nanoseconds in a millisecond.
pub const NANOS_PER_MILLI: u32 = 1_000_000;
/// Nanoseconds in a second.
pub const NANOS_PER_SEC: u32 = 1_000_000_000;

/// How the race between a request's work and its deadline ended.
#[derive(Clone, Copy, Debug, PartialEq, Eq, Structural)]
pub enum RaceEvent {
    /// The work finished first; it measured this many milliseconds.
    Finished(u64),
    /// The deadline elapsed before the work finished.
    DeadlineElapsed,
    /// The pool could not run the work, or it was cancelled.
    Failed,
}

/// What the caller must start for one request: the work on the pool, and a
/// deadline timer beside it.
#[derive(Clone, Copy, Debug, PartialEq, Eq, Structural)]
pub struct Plan {
    /// Iterations of the synthetic workload.
    pub iterations: u64,
    /// Seconds until the deadline.
    pub deadline_secs: u64,
}

/// The outcome that a race result stands for.
pub open spec fn completion_of(event: RaceEvent) -> Completion {
    match event {
        RaceEvent::Finished(ms) => Completion::Time(ms),
        _ => Completion::OutOfTime,
    }
}

/// The response that a race result gives for `req`.
pub open spec fn settled(req: Request, event: RaceEvent) -> Response {
    Response { id: req.id, completion: completion_of(event) }
}

/// Requests dispatched together, with distinct `id`s, each get back a response
/// that carries their own `id`, and no other request's, however their races
/// ended and in whatever order the responses come.
pub proof fn lemma_responses_match_requests(reqs: Seq<Request>, events: Seq<RaceEvent>)
    requires
        reqs.len() == events.len(),
        forall|j: int, k: int|
            0 <= j < reqs.len() && 0 <= k < reqs.len() && j != k ==> reqs[j].id != reqs[k].id,
    ensures
        forall|k: int| 0 <= k < reqs.len() ==> #[trigger] settled(reqs[k], events[k]).id == reqs[k].id,
        forall|j: int, k: int|
            0 <= j < reqs.len() && 0 <= k < reqs.len() && #[trigger] settled(reqs[j], events[j]).id
                == #[trigger] reqs[k].id ==> j == k,
{
}

/// The synthetic workload: a loop of exactly `iterations` empty rounds.
/// Returns the number of rounds run.
pub fn busy_work(iterations: u64) -> (r: u64)
    ensures
        r == iterations,
{
    let mut done: u64 = 0;
    while done < iterations
        invariant
            done <= iterations,
        decreases iterations - done,
    {
        done = done + 1;
    }
    done
}

/// A measured duration of `secs` seconds and `subsec_nanos` nanoseconds in
/// whole milliseconds, the sub-millisecond rest dropped.
pub fn elapsed_millis(secs: u64, subsec_nanos: u32) -> (r: u64)
    requires
        subsec_nanos < NANOS_PER_SEC,
        secs * MILLIS_PER_SEC + subsec_nanos / NANOS_PER_MILLI <= u64::MAX,
    ensures
        r == secs * MILLIS_PER_SEC + subsec_nanos / NANOS_PER_MILLI,
{
    secs * MILLIS_PER_SEC + (subsec_nanos / NANOS_PER_MILLI) as u64
}

/// The configuration of a dispatcher: the time budget of every request.
#[derive(Clone, Copy, Debug, PartialEq, Eq, Structural)]
pub struct Dispatcher {
    /// Seconds that each request may take, the same for all.
    pub timeout: u64,
}

impl Dispatcher {
    pub fn new(timeout: u64) -> (r: Dispatcher)
        ensures
            r.timeout == timeout,
    {
        Dispatcher { timeout }
    }

    /// What to start for `req`: its `difficulty` as the iteration count, and
    /// the dispatcher's timeout as the deadline.
    pub fn plan(&self, req: &Request) -> (r: Plan)
        ensures
            r.iterations == req.difficulty,
            r.deadline_secs == self.timeout,
    {
        Plan { iterations: req.difficulty as u64, deadline_secs: self.timeout }
    }

    /// The response to `req` once its race has ended: the measured time when
    /// the work won, `OutOfTime` when the deadline won or the work failed.
    /// It always answers the request it was given.
    pub fn settle(&self, req: &Request, event: RaceEvent) -> (r: Response)
        ensures
            r == settled(*req, event),
            r.id == req.id,
    {
        let completion = match event {
            RaceEvent::Finished(ms) => Completion::Time(ms),
            RaceEvent::DeadlineElapsed => Completion::OutOfTime,
            RaceEvent::Failed => Completion::OutOfTime,
        };
        Response { id: req.id, completion }
    }
}

} // verus!

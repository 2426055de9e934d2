//! The batch orchestrator's decision model: bounded parallelism and
//! per-task pacing.
//!
//! The runner that owns the event loop performs the waiting and the
//! fetches; what is verified here is the policy it must follow, stated as
//! a model, not the scheduling mechanism itself: a slot limiter that
//! never grants more than `max_parallel` concurrent slots, and the pacing
//! law that bounds a batch's wall time from below.  A runner built on an
//! executor's own concurrency cap realizes this policy without calling
//! the limiter.  One request's failure never touches a sibling: each task
//! releases exactly its own slot, and outcomes are reported per request.

use vstd::prelude::*;

verus! {

/// The bounded-parallelism limiter: how many fetch slots a batch may hold
/// at once, and how many are currently held.
#[derive(Clone, Copy, PartialEq, Eq, Debug)]
pub struct Limiter {
    /// the cap on concurrently in-flight requests
    pub max_parallel: usize,
    /// the slots currently held
    pub in_flight: usize,
}

/// A limiter never holds more slots than its cap.
pub open spec fn wf_limiter(l: Limiter) -> bool {
    l.in_flight <= l.max_parallel
}

/// A further slot may be granted only below the cap.
pub open spec fn can_acquire(l: Limiter) -> bool {
    l.in_flight < l.max_parallel
}

impl Limiter {
    /// A fresh limiter with the given cap and no slot held.
    pub fn new(max_parallel: usize) -> (r: Limiter)
        ensures
            wf_limiter(r),
            r.max_parallel == max_parallel,
            r.in_flight == 0,
    {
        Limiter { max_parallel, in_flight: 0 }
    }

    /// Grants a slot exactly when one is free: a task beyond the cap
    /// queues until a sibling releases.
    pub fn try_acquire(&mut self) -> (granted: bool)
        requires
            wf_limiter(*old(self)),
        ensures
            wf_limiter(*final(self)),
            granted == can_acquire(*old(self)),
            final(self).max_parallel == old(self).max_parallel,
            granted ==> final(self).in_flight == old(self).in_flight + 1,
            !granted ==> final(self).in_flight == old(self).in_flight,
    {
        if self.in_flight < self.max_parallel {
            self.in_flight = self.in_flight + 1;
            true
        } else {
            false
        }
    }

    /// Returns a task's slot when its work is done, whether it succeeded
    /// or failed.
    pub fn release(&mut self)
        requires
            wf_limiter(*old(self)),
            old(self).in_flight > 0,
        ensures
            wf_limiter(*final(self)),
            final(self).max_parallel == old(self).max_parallel,
            final(self).in_flight == old(self).in_flight - 1,
    {
        self.in_flight = self.in_flight - 1;
    }
}

/// With a cap of one, a held slot refuses every further grant: no two
/// requests' fetch stages run concurrently, whatever the batch size.
pub proof fn lemma_single_slot_serializes(l: Limiter)
    requires
        wf_limiter(l),
        l.max_parallel == 1,
        l.in_flight >= 1,
    ensures
        !can_acquire(l),
{
}

/// A task's observed interval within a batch run, in milliseconds from
/// the batch's start.
#[derive(Clone, Copy, PartialEq, Eq, Debug)]
pub struct TaskSpan {
    /// when the task's first network call became possible
    pub start: u64,
    /// when the task's outcome was reported
    pub end: u64,
}

/// A span ends no earlier than it starts.
pub open spec fn wf_span(t: TaskSpan) -> bool {
    t.start <= t.end
}

/// The task waited out the pacing delay before its first network call.
pub open spec fn paced(t: TaskSpan, delay: u64) -> bool {
    t.start >= delay
}

/// The batch's wall time: when its last task finished.
pub open spec fn wall_time(spans: Seq<TaskSpan>) -> int
    decreases spans.len(),
{
    if spans.len() == 0 {
        0
    } else {
        let rest = wall_time(spans.drop_first());
        if spans[0].end >= rest {
            spans[0].end as int
        } else {
            rest
        }
    }
}

/// The batch's wall time, as the runner can compute it from the spans it
/// observed.
pub fn batch_wall_time(spans: &Vec<TaskSpan>) -> (r: u64)
    ensures
        r == wall_time(spans@),
{
    let n = spans.len();
    let mut i: usize = n;
    let mut acc: u64 = 0;
    while i > 0
        invariant
            i <= n,
            n == spans@.len(),
            acc == wall_time(spans@.subrange(i as int, n as int)),
        decreases i,
    {
        i = i - 1;
        proof {
            let sub = spans@.subrange(i as int, n as int);
            assert(sub.drop_first() =~= spans@.subrange(i as int + 1, n as int));
            assert(sub[0] == spans@[i as int]);
        }
        let e = spans[i].end;
        if e >= acc {
            acc = e;
        }
    }
    proof {
        assert(spans@.subrange(0, n as int) =~= spans@);
    }
    acc
}

/// Pacing is applied per task, not cumulatively: a nonempty batch in which
/// every task waited out the delay takes at least the delay of wall time,
/// and nothing here asks for the delay once per task.
pub proof fn lemma_batch_wall_at_least_delay(spans: Seq<TaskSpan>, delay: u64)
    requires
        spans.len() > 0,
        forall|k: int| 0 <= k < spans.len() ==> wf_span(#[trigger] spans[k]),
        forall|k: int| 0 <= k < spans.len() ==> paced(#[trigger] spans[k], delay),
    ensures
        wall_time(spans) >= delay,
    decreases spans.len(),
{
    assert(wf_span(spans[0]));
    assert(paced(spans[0], delay));
    if spans.len() > 1 {
        lemma_batch_wall_at_least_delay(spans.drop_first(), delay);
    }
}

} // verus!

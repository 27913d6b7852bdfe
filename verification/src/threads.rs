//! The job queue of the worker pool.
//!
//! A pool is a fixed set of workers that take jobs off one shared queue.
//! The queue is first in, first out: jobs are handed out in the order in
//! which they were submitted, each to one worker. Shutting the pool down puts
//! one terminate signal per worker behind the jobs that wait; a worker that
//! takes a terminate signal stops. The threads and the lock around the queue
//! are the caller's; what the queue holds and hands out is decided here.

use vstd::prelude::*;
use std::collections::VecDeque;

verus! {

/// What a worker takes off the queue: work to run, or the signal to stop.
pub enum Job<F> {
    NewJob(F),
    Terminate,
}

/// The queue of jobs that wait for a worker.
pub struct JobQueue<F> {
    jobs: VecDeque<Job<F>>,
}

impl<F> View for JobQueue<F> {
    type V = Seq<Job<F>>;

    closed spec fn view(&self) -> Seq<Job<F>> {
        self.jobs@
    }
}

/// What happens to a queue: a job is submitted, or a worker asks for one.
pub enum Event<F> {
    Submit(Job<F>),
    Claim,
}

/// What waits after `event`, where `queue` waited before it: a submitted
/// job goes to the end, and a claim takes the job at the front away.
pub open spec fn after_event<F>(queue: Seq<Job<F>>, event: Event<F>) -> Seq<Job<F>> {
    match event {
        Event::Submit(job) => queue.push(job),
        Event::Claim => if queue.len() > 0 {
            queue.drop_first()
        } else {
            queue
        },
    }
}

/// The job that `event` hands to a worker, where `queue` waited before it:
/// a claim hands out the job at the front, if there is one.
pub open spec fn handed_out<F>(queue: Seq<Job<F>>, event: Event<F>) -> Option<Job<F>> {
    match event {
        Event::Submit(_) => None,
        Event::Claim => if queue.len() > 0 {
            Some(queue[0])
        } else {
            None
        },
    }
}

/// `count` terminate signals.
pub open spec fn terminate_signals<F>(count: nat) -> Seq<Job<F>> {
    Seq::new(count, |i: int| Job::Terminate)
}

/// The submission of `count` terminate signals, one after the other.
pub open spec fn terminate_events<F>(count: nat) -> Seq<Event<F>> {
    Seq::new(count, |i: int| Event::Submit(Job::Terminate))
}

impl<F> JobQueue<F> {
    /// An empty queue.
    pub fn new() -> (queue: Self)
        ensures
            queue@ == Seq::<Job<F>>::empty(),
    {
        JobQueue { jobs: VecDeque::new() }
    }

    /// The number of jobs that wait.
    pub fn len(&self) -> (n: usize)
        ensures
            n == self@.len(),
    {
        proof {
            vstd::std_specs::vecdeque::axiom_spec_len(&self.jobs);
        }
        self.jobs.len()
    }

    /// Puts `f` at the end of the queue, as work to run: the event
    /// `Submit(NewJob(f))`.
    pub fn execute(&mut self, f: F)
        ensures
            final(self)@ == after_event(old(self)@, Event::Submit(Job::NewJob(f))),
    {
        self.jobs.push_back(Job::NewJob(f));
    }

    /// Puts `workers` terminate signals at the end of the queue, one for
    /// each worker: the events `Submit(Terminate)`, `workers` times.
    pub fn terminate(&mut self, workers: usize)
        ensures
            final(self)@ == old(self)@ + terminate_signals::<F>(workers as nat),
    {
        let mut sent: usize = 0;
        while sent < workers
            invariant
                0 <= sent <= workers,
                self@ == old(self)@ + terminate_signals::<F>(sent as nat),
            decreases workers - sent,
        {
            self.jobs.push_back(Job::Terminate);
            sent += 1;
            assert(self@ =~= old(self)@ + terminate_signals::<F>(sent as nat));
        }
    }

    /// Takes the job at the front of the queue, if there is one: the event `Claim`.
    pub fn claim(&mut self) -> (job: Option<Job<F>>)
        ensures
            job == handed_out(old(self)@, Event::<F>::Claim),
            final(self)@ == after_event(old(self)@, Event::<F>::Claim),
    {
        let job = self.jobs.pop_front();
        assert(job is Some ==> self@ =~= old(self)@.drop_first());
        job
    }
}

/// The jobs that wait after `events`, on a queue that was empty before.
pub open spec fn waiting<F>(events: Seq<Event<F>>) -> Seq<Job<F>>
    decreases events.len(),
{
    if events.len() == 0 {
        Seq::empty()
    } else {
        after_event(waiting(events.drop_last()), events.last())
    }
}

/// The jobs that workers took during `events`, in the order in which they took them.
pub open spec fn claimed<F>(events: Seq<Event<F>>) -> Seq<Job<F>>
    decreases events.len(),
{
    if events.len() == 0 {
        Seq::empty()
    } else {
        match handed_out(waiting(events.drop_last()), events.last()) {
            Some(job) => claimed(events.drop_last()).push(job),
            None => claimed(events.drop_last()),
        }
    }
}

/// The jobs that were submitted during `events`, in the order of submission.
pub open spec fn submitted<F>(events: Seq<Event<F>>) -> Seq<Job<F>>
    decreases events.len(),
{
    if events.len() == 0 {
        Seq::empty()
    } else {
        match events.last() {
            Event::Submit(job) => submitted(events.drop_last()).push(job),
            Event::Claim => submitted(events.drop_last()),
        }
    }
}

/// What one more event does: the jobs that wait change as `after_event`
/// says, a job that is handed out joins the jobs that were taken, and a job
/// that is submitted joins the jobs that were submitted.
pub proof fn lemma_one_more_event<F>(events: Seq<Event<F>>, event: Event<F>)
    ensures
        waiting(events.push(event)) == after_event(waiting(events), event),
        claimed(events.push(event)) == match handed_out(waiting(events), event) {
            Some(job) => claimed(events).push(job),
            None => claimed(events),
        },
        submitted(events.push(event)) == match event {
            Event::Submit(job) => submitted(events).push(job),
            Event::Claim => submitted(events),
        },
{
    assert(events.push(event).drop_last() =~= events);
}

/// No job is lost and none is handed out twice: however submissions and
/// claims alternate, the jobs that were taken, followed by the jobs that
/// wait, are the jobs that were submitted, in the order of submission.
pub proof fn lemma_jobs_conserved<F>(events: Seq<Event<F>>)
    ensures
        claimed(events) + waiting(events) == submitted(events),
    decreases events.len(),
{
    if events.len() > 0 {
        let earlier = events.drop_last();
        lemma_jobs_conserved(earlier);
        let before = waiting(earlier);
        match events.last() {
            Event::Submit(job) => {
                assert(claimed(earlier) + before.push(job) =~= (claimed(earlier) + before).push(
                    job,
                ));
            },
            Event::Claim => {
                if before.len() > 0 {
                    assert(claimed(earlier).push(before[0]) + before.drop_first() =~= claimed(
                        earlier,
                    ) + before);
                }
            },
        }
    } else {
        assert(claimed(events) + waiting(events) =~= submitted(events));
    }
}

/// Once nothing waits, every job that was submitted has been taken, once and in order.
pub proof fn lemma_all_jobs_claimed<F>(events: Seq<Event<F>>)
    requires
        waiting(events).len() == 0,
    ensures
        claimed(events) == submitted(events),
{
    lemma_jobs_conserved(events);
    assert(claimed(events) + waiting(events) =~= claimed(events));
}

/// A queue follows its events. Where `before` holds what waits after
/// `events`, and `event` takes the queue from `before` to `after` as
/// `execute` and `claim` say, `after` holds what waits after `events` and
/// `event`; and the jobs that were taken by then, followed by those that
/// `after` holds, are the jobs that were submitted by then.
pub proof fn lemma_queue_follows_events<F>(
    before: JobQueue<F>,
    after: JobQueue<F>,
    events: Seq<Event<F>>,
    event: Event<F>,
)
    requires
        before@ == waiting(events),
        after@ == after_event(before@, event),
    ensures
        after@ == waiting(events.push(event)),
        claimed(events.push(event)) + after@ == submitted(events.push(event)),
{
    lemma_one_more_event(events, event);
    lemma_jobs_conserved(events.push(event));
}

/// Shutting down follows the events too. Where `before` holds what waits
/// after `events`, and `terminate(count)` takes the queue from `before` to
/// `after`, `after` holds what waits after `events` and `count` submissions
/// of a terminate signal; no job is taken by them.
pub proof fn lemma_terminate_follows_events<F>(
    before: JobQueue<F>,
    after: JobQueue<F>,
    events: Seq<Event<F>>,
    count: nat,
)
    requires
        before@ == waiting(events),
        after@ == before@ + terminate_signals::<F>(count),
    ensures
        after@ == waiting(events + terminate_events::<F>(count)),
        claimed(events + terminate_events::<F>(count)) == claimed(events),
{
    lemma_terminate_events(events, count);
}

/// After `count` more submissions of a terminate signal, `count` terminate
/// signals wait behind what waited before, and the jobs that were taken are
/// the same.
pub proof fn lemma_terminate_events<F>(events: Seq<Event<F>>, count: nat)
    ensures
        waiting(events + terminate_events::<F>(count)) == waiting(events) + terminate_signals::<F>(
            count,
        ),
        claimed(events + terminate_events::<F>(count)) == claimed(events),
    decreases count,
{
    if count == 0 {
        assert(events + terminate_events::<F>(0) =~= events);
        assert(waiting(events) + terminate_signals::<F>(0) =~= waiting(events));
    } else {
        let fewer = (count - 1) as nat;
        let earlier = events + terminate_events::<F>(fewer);
        lemma_terminate_events(events, fewer);
        lemma_one_more_event(earlier, Event::Submit(Job::<F>::Terminate));
        assert(events + terminate_events::<F>(count) =~= earlier.push(
            Event::Submit(Job::<F>::Terminate),
        ));
        assert(waiting(events) + terminate_signals::<F>(count) =~= (waiting(events)
            + terminate_signals::<F>(fewer)).push(Job::<F>::Terminate));
    }
}

} // verus!

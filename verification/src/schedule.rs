//! The scheduler: a queue of deferred continuations, first in, first out.
//!
//! Background work cannot write to the state container; it enqueues a
//! continuation instead, which the flush controller later runs inside a
//! mutation span. The queue does not look into the continuations: `T` is
//! whatever the application runs.
use crate::signals::MistySignal;
use crate::signals::SignalEmitter;
use vstd::prelude::*;

verus! {

pub struct ScheduleManager<T> {
    tasks: Vec<T>,
}

impl<T> View for ScheduleManager<T> {
    type V = Seq<T>;

    closed spec fn view(&self) -> Seq<T> {
        self.tasks@
    }
}

impl<T> ScheduleManager<T> {
    pub fn new() -> (r: Self)
        ensures
            r@ == Seq::<T>::empty(),
    {
        ScheduleManager { tasks: Vec::new() }
    }

    /// The number of continuations that wait.
    pub fn len(&self) -> (n: usize)
        ensures
            n == self@.len(),
    {
        self.tasks.len()
    }

    /// Appends `handler` to the queue, then signals the host. Returns
    /// whether the signal reached a handler.
    pub fn enqueue(&mut self, signal_emitter: &SignalEmitter, handler: T) -> (signalled: bool)
        ensures
            final(self)@ == old(self)@.push(handler),
            signalled == signal_emitter.is_bound(),
    {
        self.tasks.push(handler);
        signal_emitter.emit(MistySignal::Schedule)
    }

    /// Hands out the queued continuations in the order in which they were
    /// enqueued, and leaves the queue empty.
    pub fn take_all_tasks(&mut self) -> (current_tasks: Vec<T>)
        ensures
            current_tasks@ == old(self)@,
            final(self)@ == Seq::<T>::empty(),
    {
        let mut current_tasks: Vec<T> = Vec::new();
        std::mem::swap(&mut self.tasks, &mut current_tasks);
        current_tasks
    }
}

/// What is drained is what was enqueued, in that order: two continuations
/// enqueued one after the other on an empty queue come out first and second.
pub proof fn lemma_queue_is_fifo<T>(queue: Seq<T>, first: T, second: T)
    ensures
        queue.push(first).push(second).len() == queue.len() + 2,
        queue.push(first).push(second)[queue.len() as int] == first,
        queue.push(first).push(second)[queue.len() as int + 1] == second,
        forall|i: int| 0 <= i < queue.len() ==> queue.push(first).push(second)[i] == queue[i],
{
}

} // verus!

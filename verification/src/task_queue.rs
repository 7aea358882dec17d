//! The queue of tasks that wait for the worker.

use crate::model::error::TaskError;
use crate::model::event::Event;
use crate::model::task::Task;
use tokio::sync::oneshot::Receiver;
use vstd::prelude::*;

verus! {

/// The tasks that wait, served first come, first served. A new task goes in at
/// the head of the list and the worker takes from its tail.
pub struct TaskQueue {
    pub task_queue: Vec<Task>,
}

impl TaskQueue {
    /// The waiting tasks, the oldest first.
    pub open spec fn pending(&self) -> Seq<Task> {
        self.task_queue@.reverse()
    }

    /// The events of the waiting tasks, the oldest first.
    pub open spec fn pending_events(&self) -> Seq<Event> {
        self.pending().map_values(|task: Task| task.event)
    }

    /// A queue with nothing in it.
    pub fn new() -> (res: Self)
        ensures
            res.pending() == Seq::<Task>::empty(),
    {
        let res = Self { task_queue: Vec::new() };
        assert(res.task_queue@.reverse() =~= Seq::<Task>::empty());
        res
    }

    /// A queue over the list `task_queue`, whose last task is the oldest.
    pub fn new_with(task_queue: Vec<Task>) -> (res: Self)
        ensures
            res.task_queue == task_queue,
    {
        Self { task_queue }
    }

    /// Puts a task for `event` behind those that wait and gives the receiving
    /// end of its answer channel.
    pub fn add_event_to_queue(&mut self, event: Event) -> (res: Receiver<Result<bool, TaskError>>)
        ensures
            final(self).pending().len() == old(self).pending().len() + 1,
            final(self).pending().drop_last() == old(self).pending(),
            final(self).pending().last().event == event,
    {
        let (task, rx) = Task::new(event);
        self.task_queue.insert(0, task);
        proof {
            let before = old(self).task_queue@;
            let after = self.task_queue@;
            assert(after == before.insert(0, task));
            assert(after.reverse().drop_last() =~= before.reverse());
        }
        rx
    }

    /// Takes the oldest task out, or gives `None` where none waits.
    pub fn get_task(&mut self) -> (res: Option<Task>)
        ensures
            old(self).pending().len() == 0 ==> res is None,
            old(self).pending().len() == 0 ==> final(self).pending() == old(self).pending(),
            old(self).pending().len() > 0 ==> res == Some(old(self).pending()[0]),
            old(self).pending().len() > 0 ==> final(self).pending() == old(self).pending().skip(1),
    {
        let res = self.task_queue.pop();
        proof {
            let before = old(self).task_queue@;
            if before.len() > 0 {
                assert(self.task_queue@ == before.drop_last());
                assert(self.task_queue@.reverse() =~= before.reverse().skip(1));
            }
        }
        res
    }

    /// The number of tasks that wait.
    pub fn len(&self) -> (res: usize)
        ensures
            res == self.pending().len(),
    {
        self.task_queue.len()
    }
}

/// The queue after the tasks of `tasks` came in, one after the other.
pub open spec fn enqueued(queue: Seq<Task>, tasks: Seq<Task>) -> Seq<Task>
    decreases tasks.len(),
{
    if tasks.len() == 0 {
        queue
    } else {
        enqueued(queue, tasks.drop_last()).push(tasks.last())
    }
}

/// The queue after `n` tasks were taken out.
pub open spec fn dequeued(queue: Seq<Task>, n: nat) -> Seq<Task>
    decreases n,
{
    if n == 0 {
        queue
    } else {
        dequeued(queue, (n - 1) as nat).skip(1)
    }
}

/// Tasks that come into a queue stand behind those that waited, in the order
/// in which they came.
pub proof fn lemma_enqueued_appends(queue: Seq<Task>, tasks: Seq<Task>)
    ensures
        enqueued(queue, tasks) == queue + tasks,
    decreases tasks.len(),
{
    if tasks.len() == 0 {
        assert(queue + tasks =~= queue);
    } else {
        lemma_enqueued_appends(queue, tasks.drop_last());
        assert(queue + tasks =~= (queue + tasks.drop_last()).push(tasks.last()));
    }
}

/// Taking `n` tasks out of a queue that holds at least `n` leaves the tasks
/// behind the first `n`.
pub proof fn lemma_dequeued_skips(queue: Seq<Task>, n: nat)
    requires
        n <= queue.len(),
    ensures
        dequeued(queue, n) == queue.skip(n as int),
    decreases n,
{
    if n == 0 {
        assert(queue.skip(0) =~= queue);
    } else {
        lemma_dequeued_skips(queue, (n - 1) as nat);
        assert(queue.skip(n - 1).skip(1) =~= queue.skip(n as int));
    }
}

/// First in, first out: of tasks put into an empty queue one after the other,
/// the one that leaves after `i` others is the one that came in after `i`
/// others, and when as many have left as came in the queue is empty.
pub proof fn lemma_first_in_first_out(tasks: Seq<Task>, i: nat)
    requires
        i < tasks.len(),
    ensures
        dequeued(enqueued(Seq::empty(), tasks), i)[0] == tasks[i as int],
        dequeued(enqueued(Seq::empty(), tasks), tasks.len()).len() == 0,
{
    lemma_enqueued_appends(Seq::empty(), tasks);
    assert(Seq::<Task>::empty() + tasks =~= tasks);
    lemma_dequeued_skips(tasks, i);
    lemma_dequeued_skips(tasks, tasks.len());
}

} // verus!

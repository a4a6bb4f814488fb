//! A first-in first-out task queue that refuses a task while another with
//! the same data and task type waits in it.
use std::collections::VecDeque;
use vstd::prelude::*;

use crate::models::{SwarmTask, TaskType};

verus! {

/// What makes two queued tasks duplicates: their data and their type.
pub open spec fn task_key(t: SwarmTask) -> (Seq<char>, TaskType) {
    (t.data@, t.task_type)
}

/// Some task of `s` has the key `k`.
pub open spec fn has_key(s: Seq<SwarmTask>, k: (Seq<char>, TaskType)) -> bool {
    exists|i: int| 0 <= i < s.len() && task_key(#[trigger] s[i]) == k
}

/// No two tasks of `s` share a key.
pub open spec fn keys_distinct(s: Seq<SwarmTask>) -> bool {
    forall|i: int, j: int| 0 <= i < s.len() && 0 <= j < s.len() && i != j
        ==> task_key(#[trigger] s[i]) != task_key(#[trigger] s[j])
}

/// A queue of tasks without duplicates.
///
/// The keys waiting in the queue are found by searching the queue itself,
/// not kept in a separate `HashSet`: a key holds a `String`, and vstd's
/// specification of `HashSet` says nothing unless the key type obeys its key
/// model, which vstd states only for integers, `bool` and boxes of them. The
/// invariant that no two waiting tasks share a key stands in its place.
pub struct TaskQueue {
    queue: VecDeque<SwarmTask>,
}

impl View for TaskQueue {
    type V = Seq<SwarmTask>;

    /// The waiting tasks, front first.
    closed spec fn view(&self) -> Seq<SwarmTask> {
        self.queue@
    }
}

impl TaskQueue {
    #[verifier::type_invariant]
    spec fn inv(&self) -> bool {
        keys_distinct(self.queue@)
    }

    /// An empty queue.
    pub fn new() -> (q: Self)
        ensures
            q@.len() == 0,
            keys_distinct(q@),
    {
        TaskQueue { queue: VecDeque::new() }
    }

    /// Whether a task with the same data and type waits in the queue.
    fn contains_key(&self, data: &String, task_type: TaskType) -> (res: bool)
        ensures
            res == has_key(self@, (data@, task_type)),
    {
        let mut i: usize = 0;
        while i < self.queue.len()
            invariant
                i <= self.queue@.len(),
                forall|j: int| 0 <= j < i ==> task_key(#[trigger] self.queue@[j]) != (data@, task_type),
            decreases self.queue.len() - i,
        {
            let t = &self.queue[i];
            if t.data == *data && t.task_type == task_type {
                assert(task_key(self.queue@[i as int]) == (data@, task_type));
                return true;
            }
            i = i + 1;
        }
        false
    }

    /// Adds `task` at the back, unless a task with the same data and type
    /// already waits; returns whether it was added.
    pub fn enqueue(&mut self, task: SwarmTask) -> (added: bool)
        ensures
            added == !has_key(old(self)@, task_key(task)),
            added == !exists|i: int| 0 <= i < old(self)@.len() && (#[trigger] old(self)@[i]).data@ == task.data@
                && old(self)@[i].task_type == task.task_type,
            added ==> final(self)@ == old(self)@.push(task),
            !added ==> final(self)@ == old(self)@,
            keys_distinct(old(self)@),
            keys_distinct(final(self)@),
    {
        proof {
            use_type_invariant(&*self);
        }
        if self.contains_key(&task.data, task.task_type) {
            return false;
        }
        let ghost old_q = self.queue@;
        let ghost k = task_key(task);
        let mut q = VecDeque::new();
        std::mem::swap(&mut q, &mut self.queue);
        q.push_back(task);
        assert(q@ == old_q.push(task));
        assert forall|i: int, j: int| 0 <= i < q@.len() && 0 <= j < q@.len() && i != j
            implies task_key(#[trigger] q@[i]) != task_key(#[trigger] q@[j]) by {
            if i == old_q.len() {
                assert(!(0 <= j < old_q.len() && task_key(old_q[j]) == k));
            } else if j == old_q.len() {
                assert(!(0 <= i < old_q.len() && task_key(old_q[i]) == k));
            } else {
                assert(q@[i] == old_q[i] && q@[j] == old_q[j]);
            }
        }
        self.queue = q;
        true
    }

    /// Removes and returns the front task, or `None` when the queue is empty.
    pub fn dequeue(&mut self) -> (t: Option<SwarmTask>)
        ensures
            old(self)@.len() == 0 ==> t.is_none() && final(self)@ == old(self)@,
            old(self)@.len() > 0 ==> t == Some(old(self)@[0]) && final(self)@ == old(self)@.drop_first(),
            old(self)@.len() > 0 ==> !has_key(final(self)@, task_key(old(self)@[0])),
            keys_distinct(old(self)@),
            keys_distinct(final(self)@),
    {
        proof {
            use_type_invariant(&*self);
            if self.queue@.len() > 0 {
                law_dequeued_key_is_free(self.queue@);
            }
        }
        let ghost old_q = self.queue@;
        let mut q = VecDeque::new();
        std::mem::swap(&mut q, &mut self.queue);
        let t = q.pop_front();
        proof {
            if old_q.len() > 0 {
                assert(q@ =~= old_q.drop_first());
                assert forall|i: int, j: int| 0 <= i < q@.len() && 0 <= j < q@.len() && i != j
                    implies task_key(#[trigger] q@[i]) != task_key(#[trigger] q@[j]) by {
                    assert(q@[i] == old_q[i + 1] && q@[j] == old_q[j + 1]);
                }
            }
        }
        self.queue = q;
        t
    }

    /// The number of waiting tasks.
    pub fn len(&self) -> (n: usize)
        ensures
            n == self@.len(),
            keys_distinct(self@),
    {
        proof {
            use_type_invariant(self);
        }
        self.queue.len()
    }

    /// Whether no task waits.
    pub fn is_empty(&self) -> (b: bool)
        ensures
            b == (self@.len() == 0),
            keys_distinct(self@),
    {
        proof {
            use_type_invariant(self);
        }
        self.queue.len() == 0
    }

    /// The front task, left in place.
    pub fn peek(&self) -> (t: Option<&SwarmTask>)
        ensures
            self@.len() == 0 ==> t.is_none(),
            self@.len() > 0 ==> t == Some(&self@[0]),
            keys_distinct(self@),
    {
        proof {
            use_type_invariant(self);
        }
        if self.queue.len() == 0 {
            None
        } else {
            Some(&self.queue[0])
        }
    }
}

impl Default for TaskQueue {
    fn default() -> (q: Self)
        ensures
            q@.len() == 0,
    {
        TaskQueue::new()
    }
}

// ── Laws ────────────────────────────────────────────────────────────

/// Once a task leaves the front of a queue without duplicates, no waiting
/// task has its key, so a task with the same data and type is accepted
/// again.
pub proof fn law_dequeued_key_is_free(s: Seq<SwarmTask>)
    requires
        keys_distinct(s),
        s.len() > 0,
    ensures
        !has_key(s.drop_first(), task_key(s[0])),
{
    if has_key(s.drop_first(), task_key(s[0])) {
        let i = choose|i: int| 0 <= i < s.drop_first().len() && task_key(#[trigger] s.drop_first()[i]) == task_key(s[0]);
        assert(s.drop_first()[i] == s[i + 1]);
    }
}

} // verus!

//! Sleeping locks and events: tasks that cannot go on wait in a first-in
//! first-out queue and are put back on the run queue when woken.
use vstd::prelude::*;
use crate::sched::Scheduler;

verus! {

/// An event that tasks wait on.
pub struct Event {
    /// The waiting tasks, by index, the longest waiting first: a vector
    /// stands for the intrusive list of tasks.
    pub waiters: Vec<usize>,
}

impl Event {
    pub fn new() -> (r: Self)
        ensures
            r.waiters@ == Seq::<usize>::empty(),
    {
        Event { waiters: Vec::new() }
    }

    /// Registers the current task as a waiter.
    pub fn guard(&mut self, current: usize)
        ensures
            final(self).waiters@ == old(self).waiters@.push(current),
    {
        self.waiters.push(current);
    }

    /// Wakes the task that waits longest, if any.
    pub fn wake_one(&mut self, sched: &mut Scheduler) -> (r: Option<usize>)
        ensures
            old(self).waiters@.len() == 0 ==> r.is_none() && final(self).waiters@ == old(self).waiters@
                && final(sched).queue() == old(sched).queue(),
            old(self).waiters@.len() > 0 ==> r == Some(old(self).waiters@[0])
                && final(self).waiters@ == old(self).waiters@.drop_first()
                && final(sched).queue() == old(sched).queue().push(old(self).waiters@[0]),
            final(sched).current == old(sched).current,
            final(sched).idle_task == old(sched).idle_task,
    {
        if self.waiters.len() == 0 {
            None
        } else {
            let w = self.waiters.remove(0);
            assert(self.waiters@ =~= old(self).waiters@.drop_first());
            sched.add_task(w);
            Some(w)
        }
    }

    /// Wakes every waiting task, in the order they came.
    pub fn wake_all(&mut self, sched: &mut Scheduler)
        ensures
            final(self).waiters@ == Seq::<usize>::empty(),
            final(sched).queue() == old(sched).queue() + old(self).waiters@,
            final(sched).current == old(sched).current,
            final(sched).idle_task == old(sched).idle_task,
    {
        let mut i: usize = 0;
        while i < self.waiters.len()
            invariant
                i <= self.waiters@.len(),
                self.waiters@ == old(self).waiters@,
                sched.queue() == old(sched).queue() + self.waiters@.take(i as int),
                sched.current == old(sched).current,
                sched.idle_task == old(sched).idle_task,
            decreases self.waiters.len() - i,
        {
            let w = self.waiters[i];
            sched.add_task(w);
            assert(self.waiters@.take(i + 1) =~= self.waiters@.take(i as int).push(w));
            i = i + 1;
        }
        assert(self.waiters@.take(self.waiters@.len() as int) =~= self.waiters@);
        self.waiters = Vec::new();
    }
}

/// What a task that tries to lock gets.
#[derive(PartialEq, Eq, Structural, Clone, Copy, Debug)]
pub enum LockStep {
    /// The lock is taken; the task owns it.
    Acquired,
    /// The task was queued; it must yield and, once woken, finish locking.
    MustWait,
}

/// A lock that puts waiting tasks to sleep. When it is released while
/// tasks wait, it stays taken and passes to the task that waits longest.
pub struct Mutex<T> {
    flag: bool,
    owner: Option<usize>,
    waiters: Vec<usize>,
    data: T,
}

impl<T> Mutex<T> {
    pub closed spec fn is_taken(&self) -> bool {
        self.flag
    }

    pub closed spec fn owner(&self) -> Option<usize> {
        self.owner
    }

    pub closed spec fn waiting(&self) -> Seq<usize> {
        self.waiters@
    }

    pub closed spec fn value(&self) -> T {
        self.data
    }

    /// A mutex is taken whenever it has an owner or tasks wait on it.
    pub closed spec fn wf(&self) -> bool {
        &&& self.owner.is_some() ==> self.flag
        &&& self.waiters@.len() > 0 ==> self.flag
    }

    pub fn new(data: T) -> (r: Self)
        ensures
            r.wf(),
            !r.is_taken(),
            r.owner().is_none(),
            r.waiting() == Seq::<usize>::empty(),
            r.value() == data,
    {
        Mutex { flag: false, owner: None, waiters: Vec::new(), data }
    }

    /// Tries to take the lock for `current`: a free lock is taken at once;
    /// otherwise the task joins the end of the queue.
    pub fn lock(&mut self, current: usize) -> (r: LockStep)
        requires
            old(self).wf(),
        ensures
            final(self).wf(),
            final(self).is_taken(),
            final(self).value() == old(self).value(),
            !old(self).is_taken() ==> r == LockStep::Acquired && final(self).owner() == Some(current)
                && final(self).waiting() == old(self).waiting(),
            old(self).is_taken() ==> r == LockStep::MustWait && final(self).owner() == old(self).owner()
                && final(self).waiting() == old(self).waiting().push(current),
    {
        if !self.flag {
            self.flag = true;
            self.owner = Some(current);
            LockStep::Acquired
        } else {
            self.waiters.push(current);
            LockStep::MustWait
        }
    }

    /// Takes the lock for `current` if it is free; a taken lock is left as
    /// it is, and the task does not wait.
    pub fn try_lock(&mut self, current: usize) -> (r: bool)
        requires
            old(self).wf(),
        ensures
            final(self).wf(),
            r == !old(self).is_taken(),
            r ==> final(self).is_taken() && final(self).owner() == Some(current) && final(self).waiting()
                == old(self).waiting() && final(self).value() == old(self).value(),
            !r ==> *final(self) == *old(self),
    {
        if self.flag {
            false
        } else {
            self.flag = true;
            self.owner = Some(current);
            true
        }
    }

    /// Finishes locking for a task that was woken: the lock was passed to
    /// it, so it becomes the owner.
    pub fn finish_lock(&mut self, current: usize)
        requires
            old(self).wf(),
            old(self).is_taken(),
        ensures
            final(self).wf(),
            final(self).is_taken(),
            final(self).owner() == Some(current),
            final(self).waiting() == old(self).waiting(),
            final(self).value() == old(self).value(),
    {
        self.owner = Some(current);
    }

    /// Releases the lock: the task that waits longest is woken and gets
    /// the lock; with nobody waiting the lock becomes free.
    pub fn unlock(&mut self, sched: &mut Scheduler) -> (r: Option<usize>)
        requires
            old(self).wf(),
        ensures
            final(self).wf(),
            final(self).owner().is_none(),
            final(self).value() == old(self).value(),
            old(self).waiting().len() == 0 ==> r.is_none() && !final(self).is_taken()
                && final(self).waiting() == old(self).waiting() && final(sched).queue() == old(sched).queue(),
            old(self).waiting().len() > 0 ==> r == Some(old(self).waiting()[0]) && final(self).is_taken()
                && final(self).waiting() == old(self).waiting().drop_first()
                && final(sched).queue() == old(sched).queue().push(old(self).waiting()[0]),
            final(sched).current == old(sched).current,
            final(sched).idle_task == old(sched).idle_task,
    {
        self.owner = None;
        if self.waiters.len() > 0 {
            let w = self.waiters.remove(0);
            assert(self.waiters@ =~= old(self).waiters@.drop_first());
            sched.add_task(w);
            Some(w)
        } else {
            self.flag = false;
            None
        }
    }

    /// Whether a task holds the lock.
    pub fn is_locked(&self) -> (r: bool)
        ensures
            r == self.is_taken(),
    {
        self.flag
    }

    /// The protected value.
    pub fn into_inner(self) -> (r: T)
        ensures
            r == self.value(),
    {
        self.data
    }
}

} // verus!

//! The per-CPU scheduler: a first-in first-out run queue of tasks, the task
//! that runs now and the idle task that runs when nothing else is ready.
//! Tasks are named by their index in a task table that holds their states.
use vstd::prelude::*;

verus! {

/// The state of a task.
#[derive(PartialEq, Eq, Structural, Clone, Copy, Debug)]
pub enum TaskState {
    Ready,
    Running,
    Blocked,
    Dead,
}

/// A switch the scheduler decided on: the task to save and the task to run.
#[derive(Clone, Copy, Debug, PartialEq, Eq, Structural)]
pub struct Switch {
    pub from: Option<usize>,
    pub to: usize,
}

/// The scheduler of one CPU.
pub struct Scheduler {
    /// The task that runs on this CPU now.
    pub current: Option<usize>,
    /// The task that runs when no other task is ready.
    pub idle_task: Option<usize>,
    pub preempt_level: usize,
    pub run_queue: Vec<usize>,
}

pub open spec fn is_ready(states: Seq<TaskState>, t: usize) -> bool {
    t < states.len() && states[t as int] == TaskState::Ready
}

/// Taking the next ready task from `q`: every task before it leaves the
/// queue, the tasks behind it stay in order.
pub open spec fn spec_next(q: Seq<usize>, states: Seq<TaskState>) -> (Option<usize>, Seq<usize>)
    decreases q.len(),
{
    if q.len() == 0 {
        (None, q)
    } else if is_ready(states, q[0]) {
        (Some(q[0]), q.drop_first())
    } else {
        spec_next(q.drop_first(), states)
    }
}

/// `i` is the first index of a smallest load.
pub open spec fn is_first_min(loads: Seq<usize>, i: int) -> bool {
    &&& 0 <= i < loads.len()
    &&& forall|j: int| 0 <= j < loads.len() ==> loads[i] <= #[trigger] loads[j]
    &&& forall|j: int| 0 <= j < i ==> loads[i] < #[trigger] loads[j]
}

/// The index of the first CPU with the smallest load, or `fallback` where
/// every load is `usize::MAX`.
pub open spec fn spec_best_cpu(loads: Seq<usize>, fallback: usize) -> usize {
    if exists|i: int| 0 <= i < loads.len() && loads[i] < usize::MAX {
        (choose|i: int| is_first_min(loads, i)) as usize
    } else {
        fallback
    }
}

impl Scheduler {
    pub open spec fn queue(&self) -> Seq<usize> {
        self.run_queue@
    }

    pub fn new() -> (r: Self)
        ensures
            r.current.is_none(),
            r.idle_task.is_none(),
            r.preempt_level == 0,
            r.queue() == Seq::<usize>::empty(),
    {
        Scheduler { current: None, idle_task: None, preempt_level: 0, run_queue: Vec::new() }
    }

    /// Adds a task to the back of the run queue.
    pub fn add_task(&mut self, task: usize)
        ensures
            final(self).queue() == old(self).queue().push(task),
            final(self).current == old(self).current,
            final(self).idle_task == old(self).idle_task,
            final(self).preempt_level == old(self).preempt_level,
    {
        self.run_queue.push(task);
    }

    /// The number of tasks in the run queue.
    pub fn load(&self) -> (r: usize)
        ensures
            r == self.queue().len(),
    {
        self.run_queue.len()
    }

    /// Takes tasks from the front of the run queue until one is ready, and
    /// gives that one.
    pub fn next(&mut self, states: &Vec<TaskState>) -> (r: Option<usize>)
        ensures
            (r, final(self).queue()) == spec_next(old(self).queue(), states@),
            final(self).current == old(self).current,
            final(self).idle_task == old(self).idle_task,
            final(self).preempt_level == old(self).preempt_level,
    {
        let mut i: usize = 0;
        let ghost q = self.run_queue@;
        assert(q.skip(0) =~= q);
        while i < self.run_queue.len()
            invariant
                q == self.run_queue@,
                q == old(self).queue(),
                self.current == old(self).current,
                self.idle_task == old(self).idle_task,
                self.preempt_level == old(self).preempt_level,
                i <= q.len(),
                spec_next(q, states@) == spec_next(q.skip(i as int), states@),
            decreases q.len() - i,
        {
            let t = self.run_queue[i];
            proof {
                assert(q.skip(i as int)[0] == t);
                assert(q.skip(i as int).drop_first() =~= q.skip(i + 1));
            }
            if t < states.len() && states[t] == TaskState::Ready {
                let rest = vstd::slice::slice_subrange(self.run_queue.as_slice(), i + 1, self.run_queue.len());
                let rest = vstd::slice::slice_to_vec(rest);
                self.run_queue = rest;
                proof {
                    assert(is_ready(states@, t));
                    assert(self.run_queue@ =~= q.skip(i + 1));
                    let qi = q.skip(i as int);
                    assert(qi.len() > 0);
                    assert(is_ready(states@, qi[0]));
                    assert(spec_next(qi, states@) == (Some(qi[0]), qi.drop_first()));
                    assert(spec_next(q, states@) == (Some(t), q.skip(i + 1)));
                }
                return Some(t);
            }
            i = i + 1;
        }
        proof {
            assert(q.skip(q.len() as int) =~= Seq::<usize>::empty());
        }
        self.run_queue = Vec::new();
        assert(self.run_queue@ =~= q.skip(q.len() as int));
        None
    }

    /// Runs the scheduler: the next ready task, or else the idle task,
    /// becomes the current one. Gives the switch to make, if the task
    /// changes.
    pub fn do_reschedule(&mut self, states: &Vec<TaskState>) -> (r: Option<Switch>)
        requires
            old(self).idle_task.is_some(),
        ensures
            ({
                let (n, q) = spec_next(old(self).queue(), states@);
                let to = match n {
                    Some(t) => t,
                    None => old(self).idle_task.unwrap(),
                };
                &&& final(self).queue() == q
                &&& final(self).idle_task == old(self).idle_task
                &&& final(self).preempt_level == old(self).preempt_level
                &&& if old(self).current == Some(to) {
                    r.is_none() && final(self).current == old(self).current
                } else {
                    r == Some(Switch { from: old(self).current, to }) && final(self).current == Some(to)
                }
            }),
    {
        let from = self.current;
        let to = match self.next(states) {
            Some(t) => t,
            None => self.idle_task.unwrap(),
        };
        match from {
            Some(f) => {
                if f == to {
                    return None;
                }
            },
            None => {},
        }
        self.current = Some(to);
        Some(Switch { from, to })
    }

    /// Puts the current task back at the end of the run queue, unless it is
    /// the idle task, and reschedules.
    pub fn reschedule(&mut self, states: &Vec<TaskState>) -> (r: Option<Switch>)
        requires
            old(self).idle_task.is_some(),
            old(self).current.is_some(),
        ensures
            ({
                let cur = old(self).current.unwrap();
                let q0 = if old(self).current == old(self).idle_task {
                    old(self).queue()
                } else {
                    old(self).queue().push(cur)
                };
                let (n, q) = spec_next(q0, states@);
                let to = match n {
                    Some(t) => t,
                    None => old(self).idle_task.unwrap(),
                };
                &&& final(self).queue() == q
                &&& final(self).idle_task == old(self).idle_task
                &&& if cur == to {
                    r.is_none() && final(self).current == old(self).current
                } else {
                    r == Some(Switch { from: old(self).current, to }) && final(self).current == Some(to)
                }
            }),
    {
        let cur = self.current.unwrap();
        let idle = self.idle_task.unwrap();
        if cur != idle {
            self.add_task(cur);
        }
        self.do_reschedule(states)
    }

    /// Reschedules without putting the current task back.
    pub fn do_yield(&mut self, states: &Vec<TaskState>) -> (r: Option<Switch>)
        requires
            old(self).idle_task.is_some(),
        ensures
            ({
                let (n, q) = spec_next(old(self).queue(), states@);
                let to = match n {
                    Some(t) => t,
                    None => old(self).idle_task.unwrap(),
                };
                &&& final(self).queue() == q
                &&& final(self).idle_task == old(self).idle_task
                &&& if old(self).current == Some(to) {
                    r.is_none() && final(self).current == old(self).current
                } else {
                    r == Some(Switch { from: old(self).current, to }) && final(self).current == Some(to)
                }
            }),
    {
        self.do_reschedule(states)
    }

    /// Makes `task` the current one and gives the one it replaces.
    pub fn set_task(&mut self, task: usize) -> (r: Option<usize>)
        ensures
            r == old(self).current,
            final(self).current == Some(task),
            final(self).queue() == old(self).queue(),
            final(self).idle_task == old(self).idle_task,
            final(self).preempt_level == old(self).preempt_level,
    {
        let old_task = self.current;
        self.current = Some(task);
        old_task
    }
}

/// The CPU whose run queue is the shortest (the first such one), or
/// `fallback` where no queue is shorter than `usize::MAX`.
pub fn best_cpu(loads: &Vec<usize>, fallback: usize) -> (r: usize)
    ensures
        r == spec_best_cpu(loads@, fallback),
        r < loads@.len() || r == fallback,
{
    let mut min_load = usize::MAX;
    let mut best = fallback;
    let mut found = false;
    let mut i: usize = 0;
    while i < loads.len()
        invariant
            i <= loads@.len(),
            found <==> exists|k: int| 0 <= k < i && loads@[k] < usize::MAX,
            found ==> best < i && loads@[best as int] == min_load,
            !found ==> best == fallback && min_load == usize::MAX,
            forall|j: int| 0 <= j < i ==> min_load <= #[trigger] loads@[j],
            found ==> forall|j: int| 0 <= j < best ==> min_load < #[trigger] loads@[j],
        decreases loads.len() - i,
    {
        if loads[i] < min_load {
            min_load = loads[i];
            best = i;
            found = true;
        }
        i = i + 1;
    }
    proof {
        if found {
            let b = best as int;
            assert(is_first_min(loads@, b));
            let k = choose|k: int| is_first_min(loads@, k);
            if k < b {
                assert(loads@[b] < loads@[k]);
            }
            if b < k {
                assert(loads@[k] < loads@[b]);
            }
        }
    }
    best
}

impl Scheduler {
    /// Marks the current task dead and yields to the next ready one.
    pub fn kill_current(&mut self, states: &mut Vec<TaskState>) -> (r: Option<Switch>)
        requires
            old(self).idle_task.is_some(),
            old(self).current.is_some(),
            old(self).current.unwrap() < old(states)@.len(),
        ensures
            final(states)@ == old(states)@.update(old(self).current.unwrap() as int, TaskState::Dead),
            ({
                let (n, q) = spec_next(old(self).queue(), final(states)@);
                let to = match n {
                    Some(t) => t,
                    None => old(self).idle_task.unwrap(),
                };
                &&& final(self).queue() == q
                &&& if old(self).current == Some(to) {
                    r.is_none()
                } else {
                    r == Some(Switch { from: old(self).current, to }) && final(self).current == Some(to)
                }
            }),
    {
        let cur = self.current.unwrap();
        states.set(cur, TaskState::Dead);
        self.do_yield(states)
    }

    /// Adds a task to the run queue of the CPU with the lowest load.
    /// This is used for new process creation to balance load across CPUs.
    pub fn add_task_to_best_cpu(cpus: &mut Vec<Scheduler>, this_cpu: usize, task: usize) -> (r: usize)
        requires
            this_cpu < old(cpus)@.len(),
        ensures
            r == spec_best_cpu(old(cpus)@.map_values(|s: Scheduler| s.queue().len() as usize), this_cpu),
            r < old(cpus)@.len(),
            final(cpus)@.len() == old(cpus)@.len(),
            final(cpus)@[r as int].queue() == old(cpus)@[r as int].queue().push(task),
            forall|i: int| 0 <= i < old(cpus)@.len() && i != r ==> #[trigger] final(cpus)@[i] == old(cpus)@[i],
    {
        let mut loads: Vec<usize> = Vec::new();
        let mut i: usize = 0;
        while i < cpus.len()
            invariant
                i <= cpus@.len(),
                loads@ == cpus@.take(i as int).map_values(|s: Scheduler| s.queue().len() as usize),
            decreases cpus.len() - i,
        {
            let l = cpus[i].load();
            proof {
                assert(cpus@.take(i + 1).map_values(|s: Scheduler| s.queue().len() as usize)
                    =~= cpus@.take(i as int).map_values(|s: Scheduler| s.queue().len() as usize).push(l));
            }
            loads.push(l);
            i = i + 1;
        }
        assert(cpus@.take(cpus@.len() as int) =~= cpus@);
        assert(loads@.len() == cpus@.len());
        let best = best_cpu(&loads, this_cpu);
        let mut s = cpus.remove(best);
        s.add_task(task);
        cpus.insert(best, s);
        best
    }
}

/// Adding a task to the back of the queue does not change which task is
/// taken next, where a ready task was queued already; where none was,
/// the added task is taken if it is ready.
pub proof fn lemma_next_after_add(q: Seq<usize>, states: Seq<TaskState>, t: usize)
    ensures
        spec_next(q, states).0.is_some() ==> spec_next(q.push(t), states) == (
            spec_next(q, states).0,
            spec_next(q, states).1.push(t),
        ),
        spec_next(q, states).0.is_none() ==> spec_next(q.push(t), states) == (
            if is_ready(states, t) { (Some(t), Seq::<usize>::empty()) } else { (None, Seq::<usize>::empty()) }
        ),
    decreases q.len(),
{
    if q.len() == 0 {
        assert(q.push(t).drop_first() =~= Seq::<usize>::empty());
        assert(q.push(t)[0] == t);
        assert(spec_next(Seq::<usize>::empty(), states) == (None::<usize>, Seq::<usize>::empty()));
    } else {
        assert(q.push(t)[0] == q[0]);
        assert(q.push(t).drop_first() =~= q.drop_first().push(t));
        lemma_next_after_add(q.drop_first(), states, t);
    }
}

/// The task taken next is ready, and it was in the queue.
pub proof fn lemma_next_is_ready(q: Seq<usize>, states: Seq<TaskState>)
    ensures
        spec_next(q, states).0 matches Some(t) ==> is_ready(states, t) && q.contains(t),
        spec_next(q, states).1.len() <= q.len(),
    decreases q.len(),
{
    if q.len() > 0 {
        lemma_next_is_ready(q.drop_first(), states);
        if !is_ready(states, q[0]) {
            if let Some(t) = spec_next(q.drop_first(), states).0 {
                let k = choose|k: int| 0 <= k < q.drop_first().len() && q.drop_first()[k] == t;
                assert(q[k + 1] == t);
            }
        } else {
            assert(q[0] == q[0]);
        }
    }
}

} // verus!

verus! {

/// Sets up the scheduler of the boot CPU: `idle` runs when nothing else is
/// ready, `initial` (the kernel's main task) is queued first, and the
/// placeholder task `dummy` becomes the current one, to be dropped at the
/// first reschedule.
#[allow(non_snake_case)]
pub fn SCHEDULER_STAGE(bsp: &mut Scheduler, idle: usize, dummy: usize, initial: usize)
    ensures
        final(bsp).idle_task == Some(idle),
        final(bsp).queue() == old(bsp).queue().push(initial),
        final(bsp).current == Some(dummy),
        final(bsp).preempt_level == old(bsp).preempt_level,
{
    bsp.idle_task = Some(idle);
    bsp.add_task(initial);
    bsp.set_task(dummy);
}

} // verus!

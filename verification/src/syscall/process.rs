//! Process system calls.
use vstd::prelude::*;
use crate::errno::{Errno, EResult};
use crate::process::{Identity, ProcessState, ProcessTable, exited, forked_from};
use crate::file::FileDescription;
use crate::sched::{Switch, TaskState};
use crate::sched::{spec_best_cpu, Scheduler};

verus! {

/// What the process system calls read of the calling process.
pub struct ProcessInfo {
    pub pid: usize,
    /// The id of the calling task.
    pub tid: usize,
    /// The parent process, if there is one.
    pub parent: Option<usize>,
    pub identity: Identity,
}

/// A child of the calling process.
#[derive(Clone, Copy, Debug, PartialEq, Eq, Structural)]
pub struct ChildInfo {
    pub pid: usize,
    pub state: ProcessState,
}

/// The id of the calling thread.
pub fn gettid(proc: &ProcessInfo) -> (r: usize)
    ensures
        r == proc.tid,
{
    proc.tid
}

/// The id of the calling process.
pub fn getpid(proc: &ProcessInfo) -> (r: usize)
    ensures
        r == proc.pid,
{
    proc.pid
}

/// The parent's id, or 0 for a process without a parent.
pub fn getppid(proc: &ProcessInfo) -> (r: usize)
    ensures
        r == match proc.parent {
            Some(p) => p,
            None => 0,
        },
{
    match proc.parent {
        Some(p) => p,
        None => 0,
    }
}

/// The real user id of the calling process.
pub fn getuid(proc: &ProcessInfo) -> (r: usize)
    ensures
        r == proc.identity.user_id,
{
    proc.identity.user_id as usize
}

/// The effective user id of the calling process.
pub fn geteuid(proc: &ProcessInfo) -> (r: usize)
    ensures
        r == proc.identity.effective_user_id,
{
    proc.identity.effective_user_id as usize
}

/// The real group id of the calling process.
pub fn getgid(proc: &ProcessInfo) -> (r: usize)
    ensures
        r == proc.identity.group_id,
{
    proc.identity.group_id as usize
}

/// The effective group id of the calling process.
pub fn getegid(proc: &ProcessInfo) -> (r: usize)
    ensures
        r == proc.identity.effective_group_id,
{
    proc.identity.effective_group_id as usize
}

/// Only the own process group (`pid == 0`) can be asked for; it is the
/// process's own id.
pub fn getpgid(proc: &ProcessInfo, pid: usize) -> (r: EResult<usize>)
    ensures
        r == (if pid != 0 {
            Err::<usize, Errno>(Errno::EINVAL)
        } else {
            Ok(proc.pid)
        }),
{
    if pid != 0 {
        return Err(Errno::EINVAL);
    }
    Ok(proc.pid)
}

/// Ends the calling process `pid` with the low byte of `error` as its exit
/// code: its threads die, its files are closed and the current task is
/// killed (see `ProcessTable::exit`). The init process (and the kernel
/// process) may not exit.
pub fn exit(
    procs: &mut ProcessTable,
    pid: usize,
    error: usize,
    states: &mut Vec<TaskState>,
    sched: &mut Scheduler,
) -> (r: (Vec<(FileDescription, bool)>, Option<Switch>))
    requires
        pid > 1,
        old(procs).wf(),
        old(procs).procs().contains_key(pid),
        forall|i: int| 0 <= i < old(procs).procs()[pid].threads@.len()
            ==> #[trigger] old(procs).procs()[pid].threads@[i] < old(states)@.len(),
        old(sched).idle_task.is_some(),
        old(sched).current.is_some(),
        old(sched).current.unwrap() < old(states)@.len(),
    ensures
        final(procs).wf(),
        final(procs).next_pid() == old(procs).next_pid(),
        exited(
            old(procs).procs(),
            final(procs).procs(),
            pid,
            error as u8,
            old(states)@,
            final(states)@,
            old(sched).current.unwrap(),
            r.0@,
        ),
{
    procs.exit(pid, error as u8, states, sched)
}

/// One round of `waitpid` over the children of the calling process.
#[derive(Clone, Copy, Debug, PartialEq, Eq, Structural)]
pub enum WaitStep {
    /// The process has no children: the call fails with `ECHILD`.
    NoChildren,
    /// The child at `index` has exited; it is removed and `status` is
    /// stored for the caller.
    Reaped { index: usize, status: i32 },
    /// No matching child has exited yet; the caller reschedules and retries.
    Retry,
}

/// The child matches the `pid` argument of `waitpid` (-1 and 0 match all).
pub open spec fn wait_matches(pid: i32, child: ChildInfo) -> bool {
    pid == -1 || pid == 0 || child.pid == pid as usize
}

pub open spec fn exited_code(child: ChildInfo) -> Option<u8> {
    match child.state {
        ProcessState::Exited(c) => Some(c),
        ProcessState::Running => None,
    }
}

/// The last matching child among the first `n` that has exited.
pub open spec fn last_exited(pid: i32, children: Seq<ChildInfo>, n: int) -> Option<int>
    decreases n,
{
    if n <= 0 {
        None
    } else if wait_matches(pid, children[n - 1]) && exited_code(children[n - 1]) is Some {
        Some(n - 1)
    } else {
        last_exited(pid, children, n - 1)
    }
}

/// The round of `waitpid` that `children` and `pid` call for.
pub open spec fn spec_wait_step(children: Seq<ChildInfo>, pid: i32) -> WaitStep {
    if children.len() == 0 {
        WaitStep::NoChildren
    } else {
        match last_exited(pid, children, children.len() as int) {
            None => WaitStep::Retry,
            Some(i) => WaitStep::Reaped {
                index: i as usize,
                status: ((exited_code(children[i])->0 as int) * 256) as i32,
            },
        }
    }
}

/// Carries out one round of `waitpid` on the children of the calling
/// process: with no children it fails with `ECHILD`; where a matching
/// child has exited, that child is removed and its pid and status come
/// back; otherwise `None` asks the caller to reschedule and retry, with
/// the children unchanged.
pub fn wait_round(children: &mut Vec<ChildInfo>, pid: i32) -> (r: Option<EResult<(usize, i32)>>)
    requires
        pid >= -1,
    ensures
        match spec_wait_step(old(children)@, pid) {
            WaitStep::NoChildren => r == Some(Err::<(usize, i32), Errno>(Errno::ECHILD))
                && final(children)@ == old(children)@,
            WaitStep::Retry => r is None && final(children)@ == old(children)@,
            WaitStep::Reaped { index, status } => r == Some(Ok::<(usize, i32), Errno>(
                (old(children)@[index as int].pid, status),
            )) && final(children)@ == old(children)@.remove(index as int),
        },
{
    match waitpid(children, pid) {
        WaitStep::NoChildren => Some(Err(Errno::ECHILD)),
        WaitStep::Retry => None,
        WaitStep::Reaped { index, status } => {
            proof {
                lemma_last_exited_bound(pid, children@, children@.len() as int);
            }
            let child = children.remove(index);
            Some(Ok((child.pid, status)))
        },
    }
}

proof fn lemma_last_exited_bound(pid: i32, children: Seq<ChildInfo>, n: int)
    ensures
        last_exited(pid, children, n) matches Some(i) ==> 0 <= i < n,
    decreases n,
{
    if n > 0 {
        lemma_last_exited_bound(pid, children, n - 1);
    }
}

proof fn lemma_last_exited_finds(pid: i32, children: Seq<ChildInfo>, n: int)
    requires
        0 <= n <= children.len(),
    ensures
        (last_exited(pid, children, n) is Some) == (exists|i: int|
            0 <= i < n && wait_matches(pid, #[trigger] children[i]) && exited_code(children[i]) is Some),
        last_exited(pid, children, n) matches Some(i) ==> 0 <= i < n && wait_matches(pid, children[i])
            && exited_code(children[i]) is Some,
        last_exited(pid, children, n) matches Some(i) ==> forall|j: int|
            i < j < n ==> !(wait_matches(pid, #[trigger] children[j]) && exited_code(children[j]) is Some),
    decreases n,
{
    if n > 0 {
        lemma_last_exited_finds(pid, children, n - 1);
    }
}

proof fn lemma_last_exited_same(children: Seq<ChildInfo>, n: int)
    ensures
        last_exited(0i32, children, n) == last_exited(-1i32, children, n),
    decreases n,
{
    if n > 0 {
        lemma_last_exited_same(children, n - 1);
    }
}

/// What `waitpid` decides: with no children it fails; otherwise it reaps
/// the last child that matches `pid` and has exited, where there is one, with
/// the child's exit code in the second byte of the status, and retries
/// where there is none. Every child matches -1 and 0 alike, and a pid
/// above zero matches the child of that pid.
pub proof fn lemma_waitpid_reaps(children: Seq<ChildInfo>, pid: i32)
    requires
        pid >= -1,
        children.len() <= usize::MAX,
    ensures
        forall|c: ChildInfo| #[trigger] wait_matches(0i32, c) && wait_matches(-1i32, c),
        forall|c: ChildInfo| pid > 0 ==> (#[trigger] wait_matches(pid, c) == (c.pid == pid as usize)),
        spec_wait_step(children, 0i32) == spec_wait_step(children, -1i32),
        children.len() == 0 <==> spec_wait_step(children, pid) == WaitStep::NoChildren,
        children.len() > 0 ==> ((spec_wait_step(children, pid) is Reaped) == (exists|i: int|
            0 <= i < children.len() && wait_matches(pid, #[trigger] children[i]) && exited_code(children[i]) is Some)),
        children.len() > 0 ==> ((spec_wait_step(children, pid) == WaitStep::Retry) == !(exists|i: int|
            0 <= i < children.len() && wait_matches(pid, #[trigger] children[i]) && exited_code(children[i]) is Some)),
        spec_wait_step(children, pid) matches WaitStep::Reaped { index, status } ==> {
            &&& index < children.len()
            &&& wait_matches(pid, children[index as int])
            &&& children[index as int].state == ProcessState::Exited((status / 256) as u8)
            &&& status == exited_code(children[index as int])->0 as int * 256
            &&& forall|j: int|
                index < j < children.len() ==> !(wait_matches(pid, #[trigger] children[j]) && exited_code(
                    children[j],
                ) is Some)
        },
{
    lemma_last_exited_finds(pid, children, children.len() as int);
    lemma_last_exited_same(children, children.len() as int);
    if let WaitStep::Reaped { index, status } = spec_wait_step(children, pid) {
        let i = last_exited(pid, children, children.len() as int)->0;
        let code = exited_code(children[i])->0;
        assert(0 <= code as int * 256 <= 255 * 256) by (nonlinear_arith)
            requires
                code < 256,
        ;
        assert(status == code as int * 256);
        assert((code as int * 256) / 256 == code as int) by (nonlinear_arith);
        assert(index as int == i);
        assert(status / 256 == code as int);
        assert(((status / 256) as u8) == code);
        assert(children[i].state == ProcessState::Exited(code));
    }
}

/// Decides one round of `waitpid`. Among the matching children that have
/// exited, the last one in the list is reaped; its status is its exit code
/// shifted left by eight bits.
pub fn waitpid(children: &Vec<ChildInfo>, pid: i32) -> (r: WaitStep)
    requires
        pid >= -1,
    ensures
        children@.len() == 0 ==> r == WaitStep::NoChildren,
        children@.len() > 0 ==> match last_exited(pid, children@, children@.len() as int) {
            None => r == WaitStep::Retry,
            Some(i) => r == (WaitStep::Reaped {
                index: i as usize,
                status: ((exited_code(children@[i])->0 as int) * 256) as i32,
            }),
        },
{
    if children.len() == 0 {
        return WaitStep::NoChildren;
    }
    let mut waitee: Option<(usize, i32)> = None;
    let mut idx: usize = 0;
    while idx < children.len()
        invariant
            idx <= children@.len(),
            match last_exited(pid, children@, idx as int) {
                None => waitee is None,
                Some(i) => waitee == Some(
                    (i as usize, ((exited_code(children@[i])->0 as int) * 256) as i32),
                ),
            },
        decreases children.len() - idx,
    {
        let child = children[idx];
        if pid == -1 || pid == 0 || child.pid == pid as usize {
            match child.state {
                ProcessState::Exited(code) => {
                    waitee = Some((idx, (code as i32) << 8));
                    assert(((code as i32) << 8) == (code as i32) * 256) by (bit_vector)
                        requires code < 256;
                },
                ProcessState::Running => {},
            }
        }
        idx = idx + 1;
    }
    match waitee {
        Some((index, status)) => WaitStep::Reaped { index, status },
        None => WaitStep::Retry,
    }
}


/// Forks the calling process `pid`: the copy gets the new task `thread`,
/// which joins the run queue of the least loaded CPU. Gives the new
/// process's id.
pub fn fork(
    procs: &mut ProcessTable,
    cpus: &mut Vec<Scheduler>,
    this_cpu: usize,
    pid: usize,
    thread: usize,
) -> (r: usize)
    requires
        old(procs).wf(),
        old(procs).next_pid() < usize::MAX,
        old(procs).procs().contains_key(pid),
        this_cpu < old(cpus)@.len(),
    ensures
        final(procs).wf(),
        r == old(procs).next_pid(),
        final(procs).procs().contains_key(r),
        forked_from(final(procs).procs()[r], old(procs).procs()[pid], r, pid, thread),
        final(procs).procs()[pid].children@ == old(procs).procs()[pid].children@.push(r),
        ({
            let best = spec_best_cpu(old(cpus)@.map_values(|s: Scheduler| s.queue().len() as usize), this_cpu);
            &&& final(cpus)@.len() == old(cpus)@.len()
            &&& final(cpus)@[best as int].queue() == old(cpus)@[best as int].queue().push(thread)
            &&& forall|i: int| 0 <= i < old(cpus)@.len() && i != best ==> #[trigger] final(cpus)@[i] == old(cpus)@[i]
        }),
{
    let child = procs.fork(pid, thread);
    Scheduler::add_task_to_best_cpu(cpus, this_cpu, thread);
    child
}

} // verus!

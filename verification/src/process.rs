//! Per-process bookkeeping: file descriptor tables, identities, signals.
use vstd::prelude::*;
use std::collections::BTreeMap;
use crate::file::FileDescription;
use crate::sched::{Scheduler, Switch, TaskState, spec_next};
use vstd::std_specs::cmp::OrdSpec;

verus! {

broadcast use vstd::std_specs::btree::group_btree_axioms;

/// Keys that a map hands out in increasing order are strictly ascending.
proof fn lemma_increasing_keys(ks: Seq<usize>)
    requires
        vstd::std_specs::btree::increasing_seq(ks),
    ensures
        forall|i: int, j: int| 0 <= i < j < ks.len() ==> ks[i] < ks[j],
{
    broadcast use vstd::laws_cmp::group_laws_cmp;
    broadcast use vstd::std_specs::btree::axiom_increasing_seq_meaning;

    assert forall|i: int, j: int| 0 <= i < j < ks.len() implies ks[i] < ks[j] by {
        assert(ks[i].cmp_spec(&ks[j]) is Less);
    }
}

/// A table of open file descriptors.
pub struct FdTable {
    inner: BTreeMap<usize, FileDescription>,
}

impl View for FdTable {
    type V = Map<usize, FileDescription>;

    closed spec fn view(&self) -> Map<usize, FileDescription> {
        self.inner@
    }
}

/// Some descriptor at or above `base` is free.
pub open spec fn has_free_fd(m: Map<usize, FileDescription>, base: usize) -> bool {
    exists|k: usize| k >= base && !m.contains_key(k)
}

/// `fd` is the lowest free descriptor at or above `base`.
pub open spec fn lowest_free_fd(m: Map<usize, FileDescription>, base: usize, fd: usize) -> bool {
    &&& fd >= base
    &&& !m.contains_key(fd)
    &&& forall|k: usize| base <= k < fd ==> m.contains_key(k)
}

/// The descriptions of a list of closed descriptors.
pub open spec fn descriptions(c: Seq<(FileDescription, bool)>) -> Seq<FileDescription> {
    c.map_values(|p: (FileDescription, bool)| p.0)
}

/// Each closed description says whether no later one refers to its file.
pub open spec fn closes_in_order(c: Seq<(FileDescription, bool)>) -> bool {
    forall|i: int|
        0 <= i < c.len() ==> (#[trigger] c[i]).1 == !exists|j: int| i < j < c.len() && c[j].0.file.id == c[i].0.file.id
}

/// Pairs each description with whether no later one refers to its file.
fn mark_last(ds: &Vec<FileDescription>) -> (r: Vec<(FileDescription, bool)>)
    ensures
        descriptions(r@) == ds@,
        closes_in_order(r@),
{
    let mut r: Vec<(FileDescription, bool)> = Vec::new();
    let mut i: usize = 0;
    while i < ds.len()
        invariant
            i <= ds@.len(),
            r@.len() == i,
            forall|k: int| 0 <= k < i ==> (#[trigger] r@[k]).0 == ds@[k],
            forall|k: int|
                0 <= k < i ==> (#[trigger] r@[k]).1 == !exists|j: int| k < j < ds@.len() && ds@[j].file.id == ds@[k].file.id,
        decreases ds.len() - i,
    {
        let mut later = false;
        let mut j: usize = i + 1;
        while j < ds.len()
            invariant
                i < j <= ds@.len(),
                later == exists|m: int| i < m < j && ds@[m].file.id == ds@[i as int].file.id,
            decreases ds.len() - j,
        {
            if ds[j].file.id == ds[i].file.id {
                later = true;
            }
            j = j + 1;
        }
        r.push((ds[i], !later));
        i = i + 1;
    }
    proof {
        assert(descriptions(r@) =~= ds@);
    }
    r
}

impl FdTable {
    pub fn new() -> (r: Self)
        ensures
            r@ == Map::<usize, FileDescription>::empty(),
    {
        Self { inner: BTreeMap::new() }
    }

    /// Attempts to get the file corresponding to the given file descriptor.
    pub fn get_fd(&self, fd: usize) -> (r: Option<FileDescription>)
        ensures
            r == (if self@.contains_key(fd) {
                Some(self@[fd])
            } else {
                None
            }),
    {
        match self.inner.get(&fd) {
            Some(d) => Some(*d),
            None => None,
        }
    }

    /// Allocates the lowest free descriptor at or above `base` for a file.
    /// Returns [`None`] if there are no more free descriptors.
    pub fn open_file(&mut self, file: FileDescription, base: usize) -> (r: Option<usize>)
        ensures
            r is Some <==> has_free_fd(old(self)@, base),
            r matches Some(fd) ==> lowest_free_fd(old(self)@, base, fd) && final(self)@ == old(
                self,
            )@.insert(fd, file),
            r is None ==> final(self)@ == old(self)@,
    {
        let mut last = base;
        while self.inner.contains_key(&last)
            invariant
                base <= last,
                forall|k: usize| base <= k < last ==> self@.contains_key(k),
            decreases usize::MAX - last,
        {
            if last == usize::MAX {
                assert(!has_free_fd(self@, base)) by {
                    assert forall|k: usize| k >= base implies self@.contains_key(k) by {
                        if k < last {
                        } else {
                            assert(k == last);
                        }
                    }
                }
                return None;
            }
            last = last + 1;
        }
        self.inner.insert(last, file);
        Some(last)
    }

    /// Removes all descriptors, in ascending order. Returns the descriptions
    /// they held, in that order, each with whether it was the table's last
    /// descriptor of its file when it went, so that its file is then to be
    /// closed (unless something outside the table still holds it).
    pub fn close_all(&mut self) -> (r: Vec<(FileDescription, bool)>)
        ensures
            final(self)@ == Map::<usize, FileDescription>::empty(),
            exists|fds: Seq<usize>|
                {
                    &&& fds.to_set() == old(self)@.dom()
                    &&& fds.no_duplicates()
                    &&& forall|i: int, j: int| 0 <= i < j < fds.len() ==> fds[i] < fds[j]
                    &&& descriptions(r@) == fds.map_values(|k: usize| old(self)@[k])
                },
            closes_in_order(r@),
    {
        let mut closed: Vec<FileDescription> = Vec::new();
        let ghost m = self@;
        let values = self.inner.values();
        let ghost ks = choose|key_seq: Seq<usize>|
            {
                &&& vstd::std_specs::btree::increasing_seq(key_seq)
                &&& key_seq.to_set() == m.dom()
                &&& key_seq.no_duplicates()
                &&& vstd::std_specs::iter::IteratorSpec::remaining(&values) == key_seq.map(
                    |i: int, k: usize| &m[k],
                )
            };
        for d in it: values
            invariant
                closed@ == it.seq().subrange(0, it.index() as int).map_values(|x: &FileDescription| *x),
        {
            closed.push(*d);
        }
        proof {
            assert(closed@ =~= ks.map_values(|k: usize| m[k]));
            lemma_increasing_keys(ks);
        }
        self.inner.clear();
        let r = mark_last(&closed);
        r
    }

    /// A copy of the table, as a forked process gets it.
    pub fn duplicate(&self) -> (r: FdTable)
        ensures
            r@ == self@,
    {
        FdTable { inner: self.inner.clone() }
    }

    /// Some descriptor of the table refers to the file `id`.
    pub fn refers_to(&self, id: usize) -> (r: bool)
        ensures
            r == exists|k: usize| self@.contains_key(k) && #[trigger] self@[k].file.id == id,
    {
        let ghost m = self@;
        let values = self.inner.values();
        let ghost ks = choose|key_seq: Seq<usize>|
            {
                &&& vstd::std_specs::btree::increasing_seq(key_seq)
                &&& key_seq.to_set() == m.dom()
                &&& key_seq.no_duplicates()
                &&& vstd::std_specs::iter::IteratorSpec::remaining(&values) == key_seq.map(
                    |i: int, k: usize| &m[k],
                )
            };
        let mut found = false;
        for d in it: values
            invariant
                it.seq() == ks.map(|i: int, k: usize| &m[k]),
                ks.to_set() == m.dom(),
                found == exists|j: int| 0 <= j < it.index() && (#[trigger] m[ks[j]]).file.id == id,
        {
            let ghost j = it.index() as int;
            assert(*d == m[ks[j]]);
            if d.file.id == id {
                found = true;
            }
        }
        proof {
            if found {
                let j = choose|j: int| 0 <= j < ks.len() && (#[trigger] m[ks[j]]).file.id == id;
                assert(ks.to_set().contains(ks[j]));
                assert(m.contains_key(ks[j]) && m[ks[j]].file.id == id);
            } else {
                assert forall|k: usize| m.contains_key(k) implies #[trigger] m[k].file.id != id by {
                    assert(ks.to_set().contains(k));
                    let j = choose|j: int| 0 <= j < ks.len() && ks[j] == k;
                    assert(m[ks[j]].file.id != id);
                }
            }
        }
        found
    }

    /// Removes a descriptor. Returns the description it held, if any, and
    /// whether that was the table's last descriptor of its file, which is
    /// then to be closed (unless something outside the table still holds
    /// it).
    pub fn close(&mut self, fd: usize) -> (r: Option<(FileDescription, bool)>)
        ensures
            final(self)@ == old(self)@.remove(fd),
            r == (if old(self)@.contains_key(fd) {
                Some(
                    (
                        old(self)@[fd],
                        !exists|k: usize| final(self)@.contains_key(k) && #[trigger] final(self)@[k].file.id
                            == old(self)@[fd].file.id,
                    ),
                )
            } else {
                None
            }),
    {
        match self.inner.remove(&fd) {
            Some(d) => {
                let shared = self.refers_to(d.file.id);
                Some((d, !shared))
            },
            None => None,
        }
    }
}


/// A user identity.
#[derive(Clone, Debug)]
pub struct Identity {
    pub user_id: u32,
    pub group_id: u32,
    pub effective_user_id: u32,
    pub effective_group_id: u32,
    pub set_user_id: u32,
    pub set_group_id: u32,
    pub groups: Vec<u32>,
}

impl Identity {
    /// Returns an identity suitable for kernel accesses, with absolute privileges for everything.
    pub fn get_kernel() -> (r: Identity)
        ensures
            r.user_id == 0,
            r.group_id == 0,
            r.effective_user_id == 0,
            r.effective_group_id == 0,
            r.set_user_id == 0,
            r.set_group_id == 0,
            r.groups@ == Seq::<u32>::empty(),
    {
        Identity {
            user_id: 0,
            group_id: 0,
            effective_user_id: 0,
            effective_group_id: 0,
            set_user_id: 0,
            set_group_id: 0,
            groups: Vec::new(),
        }
    }
}

impl Identity {
    /// A copy of the identity.
    pub fn duplicate(&self) -> (r: Identity)
        ensures
            r.user_id == self.user_id,
            r.group_id == self.group_id,
            r.effective_user_id == self.effective_user_id,
            r.effective_group_id == self.effective_group_id,
            r.set_user_id == self.set_user_id,
            r.set_group_id == self.set_group_id,
            r.groups@ == self.groups@,
    {
        let mut groups: Vec<u32> = Vec::new();
        let mut i: usize = 0;
        while i < self.groups.len()
            invariant
                i <= self.groups@.len(),
                groups@ == self.groups@.take(i as int),
            decreases self.groups.len() - i,
        {
            groups.push(self.groups[i]);
            assert(groups@ =~= self.groups@.take(i + 1));
            i = i + 1;
        }
        assert(groups@ =~= self.groups@);
        Identity {
            user_id: self.user_id,
            group_id: self.group_id,
            effective_user_id: self.effective_user_id,
            effective_group_id: self.effective_group_id,
            set_user_id: self.set_user_id,
            set_group_id: self.set_group_id,
            groups,
        }
    }
}

impl Default for Identity {
    fn default() -> (r: Identity)
        ensures
            r.user_id == 0,
            r.group_id == 0,
            r.effective_user_id == 0,
            r.effective_group_id == 0,
            r.set_user_id == 0,
            r.set_group_id == 0,
            r.groups@ == Seq::<u32>::empty(),
    {
        Identity {
            user_id: 0,
            group_id: 0,
            effective_user_id: 0,
            effective_group_id: 0,
            set_user_id: 0,
            set_group_id: 0,
            groups: Vec::new(),
        }
    }
}

/// The life state of a process.
#[derive(Clone, Copy, Debug, PartialEq, Eq, Structural)]
pub enum ProcessState {
    Running,
    Exited(u8),
}

/// Whether signal `idx` is in the set `bits`.
pub open spec fn signal_in(bits: u64, idx: u64) -> bool {
    (bits >> idx) & 1 == 1
}

/// Wrapper around a set of signals.
pub struct SignalSet {
    inner: u64,
}

impl View for SignalSet {
    type V = u64;

    closed spec fn view(&self) -> u64 {
        self.inner
    }
}

impl SignalSet {
    pub fn new() -> (r: Self)
        ensures
            r@ == 0,
            forall|j: u64| j < 64 ==> !signal_in(r@, j),
    {
        assert forall|j: u64| j < 64 implies !signal_in(0, j) by {
            assert((0u64 >> j) & 1 == 0) by (bit_vector);
        }
        Self { inner: 0 }
    }

    /// Adds signal `idx` to the set or takes it out; the other signals stay.
    pub fn set_signal(&mut self, idx: usize, state: bool)
        requires
            idx < 64,
        ensures
            signal_in(final(self)@, idx as u64) == state,
            forall|j: u64| j < 64 && j != idx ==> signal_in(final(self)@, j) == signal_in(old(self)@, j),
    {
        let old_bits = self.inner;
        let i = idx as u64;
        if state {
            self.inner = self.inner | (1u64 << i);
            assert(((old_bits | (1u64 << i)) >> i) & 1 == 1) by (bit_vector)
                requires i < 64;
            assert forall|j: u64| j < 64 && j != i implies signal_in(old_bits | (1u64 << i), j) == signal_in(old_bits, j) by {
                assert((((old_bits | (1u64 << i)) >> j) & 1 == 1) == ((old_bits >> j) & 1 == 1)) by (bit_vector)
                    requires i < 64, j < 64, j != i;
            }
        } else {
            self.inner = self.inner & !(1u64 << i);
            assert(((old_bits & !(1u64 << i)) >> i) & 1 == 0) by (bit_vector)
                requires i < 64;
            assert forall|j: u64| j < 64 && j != i implies signal_in(old_bits & !(1u64 << i), j) == signal_in(old_bits, j) by {
                assert((((old_bits & !(1u64 << i)) >> j) & 1 == 1) == ((old_bits >> j) & 1 == 1)) by (bit_vector)
                    requires i < 64, j < 64, j != i;
            }
        }
    }
}


/// A process: its threads (tasks of the task table), its place among the
/// other processes, its directories (entries of the file system), its
/// identity and its open files.
pub struct Process {
    pub id: usize,
    pub name: String,
    pub parent: Option<usize>,
    pub threads: Vec<usize>,
    pub root_dir: usize,
    pub working_dir: usize,
    pub status: ProcessState,
    pub children: Vec<usize>,
    pub identity: Identity,
    pub open_files: FdTable,
    pub mmap_head: u64,
}

/// A forked process `p` of the process `pp` (whose id is `pid`): a fresh
/// id `r`, the parent's name, directories, identity, open files and next
/// mapping address, the single thread `thread`, and no children.
pub open spec fn forked_from(p: Process, pp: Process, r: usize, pid: usize, thread: usize) -> bool {
    &&& p.id == r
    &&& p.name@ == pp.name@
    &&& p.parent == Some(pid)
    &&& p.threads@ == seq![thread]
    &&& p.root_dir == pp.root_dir
    &&& p.working_dir == pp.working_dir
    &&& p.status == ProcessState::Running
    &&& p.children@ == Seq::<usize>::empty()
    &&& p.identity.user_id == pp.identity.user_id
    &&& p.identity.effective_user_id == pp.identity.effective_user_id
    &&& p.identity.group_id == pp.identity.group_id
    &&& p.identity.effective_group_id == pp.identity.effective_group_id
    &&& p.identity.set_user_id == pp.identity.set_user_id
    &&& p.identity.set_group_id == pp.identity.set_group_id
    &&& p.identity.groups@ == pp.identity.groups@
    &&& p.open_files@ == pp.open_files@
    &&& p.mmap_head == pp.mmap_head
}

/// Process `pid` has exited with `code`: only its entry changed; its
/// threads and the current task are dead, other tasks keep their states;
/// it has no threads and no open files; its other fields stay; `closed`
/// holds the descriptions of its files in ascending order of their
/// descriptors.
pub open spec fn exited(
    before: Map<usize, Process>,
    after: Map<usize, Process>,
    pid: usize,
    code: u8,
    old_states: Seq<TaskState>,
    new_states: Seq<TaskState>,
    current: usize,
    closed: Seq<(FileDescription, bool)>,
) -> bool {
    let p = after[pid];
    let q = before[pid];
    &&& after == before.insert(pid, p)
    &&& p.threads@ == Seq::<usize>::empty()
    &&& p.status == ProcessState::Exited(code)
    &&& p.open_files@ == Map::<usize, FileDescription>::empty()
    &&& p.id == q.id && p.parent == q.parent && p.children@ == q.children@
    &&& p.root_dir == q.root_dir && p.working_dir == q.working_dir
    &&& p.mmap_head == q.mmap_head
    &&& new_states.len() == old_states.len()
    &&& forall|t: int| 0 <= t < old_states.len() ==> #[trigger] new_states[t] == (
        if t == current || q.threads@.contains(t as usize) {
            TaskState::Dead
        } else {
            old_states[t]
        })
    &&& exists|fds: Seq<usize>|
        {
            &&& fds.to_set() == q.open_files@.dom()
            &&& fds.no_duplicates()
            &&& forall|i: int, j: int| 0 <= i < j < fds.len() ==> fds[i] < fds[j]
            &&& descriptions(closed) == fds.map_values(|k: usize| q.open_files@[k])
        }
    &&& closes_in_order(closed)
}

/// Where new anonymous mappings of a new process start.
pub const MMAP_BASE: u64 = 0x1_0000_0000;

/// All processes by their id, and the id the next one gets.
pub struct ProcessTable {
    procs: BTreeMap<usize, Process>,
    pid_counter: usize,
}

impl ProcessTable {
    pub closed spec fn procs(&self) -> Map<usize, Process> {
        self.procs@
    }

    pub closed spec fn next_pid(&self) -> usize {
        self.pid_counter
    }

    /// Every process has an id below the next one, and is kept under it.
    pub closed spec fn wf(&self) -> bool {
        forall|p: usize| #[trigger] self.procs@.contains_key(p) ==> p < self.pid_counter && self.procs@[p].id == p
    }

    pub fn new() -> (r: Self)
        ensures
            r.wf(),
            r.procs() == Map::<usize, Process>::empty(),
            r.next_pid() == 0,
    {
        ProcessTable { procs: BTreeMap::new(), pid_counter: 0 }
    }

    /// The process with an id, if there is one.
    pub fn get(&self, pid: usize) -> (r: Option<&Process>)
        ensures
            r == (if self.procs().contains_key(pid) { Some(&self.procs()[pid]) } else { None }),
    {
        self.procs.get(&pid)
    }

    /// The parent of a process, or `None` for the first process.
    pub fn get_parent(&self, pid: usize) -> (r: Option<usize>)
        requires
            self.procs().contains_key(pid),
        ensures
            r == self.procs()[pid].parent,
    {
        match self.procs.get(&pid) {
            Some(p) => p.parent,
            None => None,
        }
    }

    /// Creates a process named `name` with a fresh id. It takes its
    /// directories and identity from its parent; without a parent it starts
    /// at `root` with the default identity. The parent records it among its
    /// children under the parent's own id, as the process structure does.
    pub fn new_with_space(&mut self, name: String, parent: Option<usize>, root: usize) -> (r: usize)
        requires
            old(self).wf(),
            old(self).next_pid() < usize::MAX,
            parent matches Some(p) ==> old(self).procs().contains_key(p),
        ensures
            final(self).wf(),
            r == old(self).next_pid(),
            final(self).next_pid() == old(self).next_pid() + 1,
            !old(self).procs().contains_key(r),
            final(self).procs().contains_key(r),
            ({
                let p = final(self).procs()[r];
                &&& p.id == r
                &&& p.name@ == name@
                &&& p.parent == parent
                &&& p.threads@ == Seq::<usize>::empty()
                &&& p.status == ProcessState::Running
                &&& p.children@ == Seq::<usize>::empty()
                &&& p.open_files@ == Map::<usize, FileDescription>::empty()
                &&& p.mmap_head == MMAP_BASE
                &&& match parent {
                    Some(q) => {
                        let pp = old(self).procs()[q];
                        &&& p.root_dir == pp.root_dir
                        &&& p.working_dir == pp.working_dir
                        &&& p.identity.user_id == pp.identity.user_id
                        &&& p.identity.group_id == pp.identity.group_id
                        &&& p.identity.effective_user_id == pp.identity.effective_user_id
                        &&& p.identity.effective_group_id == pp.identity.effective_group_id
                        &&& p.identity.set_user_id == pp.identity.set_user_id
                        &&& p.identity.set_group_id == pp.identity.set_group_id
                        &&& p.identity.groups@ == pp.identity.groups@
                    },
                    None => {
                        &&& p.root_dir == root
                        &&& p.working_dir == root
                        &&& p.identity.user_id == 0
                        &&& p.identity.effective_user_id == 0
                        &&& p.identity.group_id == 0
                        &&& p.identity.effective_group_id == 0
                        &&& p.identity.groups@ == Seq::<u32>::empty()
                    },
                }
            }),
            match parent {
                Some(q) => final(self).procs()[q].children@ == old(self).procs()[q].children@.push(q)
                    && final(self).procs() == old(self).procs().insert(q, final(self).procs()[q]).insert(r, final(self).procs()[r]),
                None => final(self).procs() == old(self).procs().insert(r, final(self).procs()[r]),
            },
    {
        let pid = self.pid_counter;
        let (root_dir, working_dir, identity) = match parent {
            Some(q) => {
                let mut pp = self.procs.remove(&q).unwrap();
                let dirs = (pp.root_dir, pp.working_dir, pp.identity.duplicate());
                pp.children.push(q);
                self.procs.insert(q, pp);
                dirs
            },
            None => (root, root, Identity::default()),
        };
        self.pid_counter = self.pid_counter + 1;
        let p = Process {
            id: pid,
            name,
            parent,
            threads: Vec::new(),
            root_dir,
            working_dir,
            status: ProcessState::Running,
            children: Vec::new(),
            identity,
            open_files: FdTable::new(),
            mmap_head: MMAP_BASE,
        };
        self.procs.insert(pid, p);
        pid
    }

    /// Forks a process: the copy gets a fresh id, the parent's name,
    /// directories, identity, open files and next mapping address, a single
    /// thread `thread`, and no children; the parent records it as a child.
    pub fn fork(&mut self, pid: usize, thread: usize) -> (r: usize)
        requires
            old(self).wf(),
            old(self).next_pid() < usize::MAX,
            old(self).procs().contains_key(pid),
        ensures
            final(self).wf(),
            r == old(self).next_pid(),
            final(self).next_pid() == old(self).next_pid() + 1,
            forked_from(final(self).procs()[r], old(self).procs()[pid], r, pid, thread),
            final(self).procs()[pid].children@ == old(self).procs()[pid].children@.push(r),
            final(self).procs() == old(self).procs().insert(pid, final(self).procs()[pid]).insert(r, final(self).procs()[r]),
    {
        let child = self.pid_counter;
        let mut pp = self.procs.remove(&pid).unwrap();
        let mut threads: Vec<usize> = Vec::new();
        threads.push(thread);
        let p = Process {
            id: child,
            name: pp.name.clone(),
            parent: Some(pid),
            threads,
            root_dir: pp.root_dir,
            working_dir: pp.working_dir,
            status: ProcessState::Running,
            children: Vec::new(),
            identity: pp.identity.duplicate(),
            open_files: pp.open_files.duplicate(),
            mmap_head: pp.mmap_head,
        };
        pp.children.push(child);
        self.procs.insert(pid, pp);
        self.pid_counter = self.pid_counter + 1;
        self.procs.insert(child, p);
        child
    }
}


impl ProcessTable {
    /// Ends a process: every thread of it dies, its files are closed (the
    /// descriptions come back in ascending order of their descriptors), and
    /// its status records the exit code. Then the current task is killed,
    /// which gives the switch to make.
    pub fn exit(&mut self, pid: usize, code: u8, states: &mut Vec<TaskState>, sched: &mut Scheduler) -> (r: (
        Vec<(FileDescription, bool)>,
        Option<Switch>,
    ))
        requires
            old(self).wf(),
            old(self).procs().contains_key(pid),
            forall|i: int| 0 <= i < old(self).procs()[pid].threads@.len()
                ==> #[trigger] old(self).procs()[pid].threads@[i] < old(states)@.len(),
            old(sched).idle_task.is_some(),
            old(sched).current.is_some(),
            old(sched).current.unwrap() < old(states)@.len(),
        ensures
            final(self).wf(),
            final(self).next_pid() == old(self).next_pid(),
            exited(
                old(self).procs(),
                final(self).procs(),
                pid,
                code,
                old(states)@,
                final(states)@,
                old(sched).current.unwrap(),
                r.0@,
            ),
    {
        let mut p = self.procs.remove(&pid).unwrap();
        let ghost q = p;
        let mut i: usize = 0;
        while i < p.threads.len()
            invariant
                p.threads@ == q.threads@,
                i <= p.threads@.len(),
                forall|k: int| 0 <= k < q.threads@.len() ==> #[trigger] q.threads@[k] < old(states)@.len(),
                states@.len() == old(states)@.len(),
                forall|t: int| 0 <= t < states@.len() ==> #[trigger] states@[t] == (
                    if q.threads@.take(i as int).contains(t as usize) { TaskState::Dead } else { old(states)@[t] }),
            decreases p.threads.len() - i,
        {
            let t = p.threads[i];
            let ghost prev = states@;
            states.set(t, TaskState::Dead);
            proof {
                let a = q.threads@.take(i as int);
                let b = q.threads@.take(i + 1);
                assert(states@.len() == states.len());
                assert(b =~= a.push(t));
                assert forall|u: int| 0 <= u < states@.len() implies #[trigger] states@[u] == (
                    if b.contains(u as usize) { TaskState::Dead } else { old(states)@[u] }) by {
                    let uu = u as usize;
                    assert(uu as int == u);
                    if u == t as int {
                        assert(b[b.len() - 1] == uu);
                    } else {
                        assert(states@[u] == prev[u]);
                        assert(uu != t);
                        if b.contains(uu) {
                            let k = choose|k: int| 0 <= k < b.len() && b[k] == uu;
                            assert(k < a.len());
                            assert(a[k] == uu);
                        }
                        if a.contains(uu) {
                            let k = choose|k: int| 0 <= k < a.len() && a[k] == uu;
                            assert(b[k] == uu);
                        }
                    }
                }
            }
            i = i + 1;
        }
        assert(q.threads@.take(q.threads@.len() as int) =~= q.threads@);
        p.threads = Vec::new();
        let closed = p.open_files.close_all();
        p.status = ProcessState::Exited(code);
        self.procs.insert(pid, p);
        assert(self.procs@ =~= old(self).procs().insert(pid, p));
        let switch = sched.kill_current(states);
        (closed, switch)
    }
}


impl ProcessTable {
    /// Replaces the image of a process, given `loaded`: the first task of
    /// the new image, or why it could not be loaded. On success the task is
    /// the process's only thread and is queued on this CPU, and the current
    /// task is killed, which gives the switch to make; a failed load
    /// changes nothing.
    pub fn fexecve(
        &mut self,
        pid: usize,
        loaded: crate::errno::EResult<usize>,
        states: &mut Vec<TaskState>,
        sched: &mut Scheduler,
    ) -> (r: crate::errno::EResult<Option<Switch>>)
        requires
            old(self).wf(),
            old(self).procs().contains_key(pid),
            old(sched).idle_task.is_some(),
            old(sched).current.is_some(),
            old(sched).current.unwrap() < old(states)@.len(),
        ensures
            final(self).wf(),
            final(self).next_pid() == old(self).next_pid(),
            loaded matches Err(e) ==> r == Err::<Option<Switch>, crate::errno::Errno>(e) && final(self).procs()
                == old(self).procs() && final(states)@ == old(states)@ && final(sched).queue() == old(
                sched,
            ).queue() && final(sched).current == old(sched).current,
            loaded matches Ok(init) ==> {
                let p = final(self).procs()[pid];
                let q = old(self).procs()[pid];
                let (n, queue) = spec_next(old(sched).queue().push(init), final(states)@);
                let to = match n {
                    Some(t) => t,
                    None => old(sched).idle_task.unwrap(),
                };
                &&& final(self).procs() == old(self).procs().insert(pid, p)
                &&& p.threads@ == seq![init]
                &&& p.id == q.id && p.parent == q.parent && p.children@ == q.children@
                &&& p.root_dir == q.root_dir && p.working_dir == q.working_dir
                &&& p.status == q.status && p.mmap_head == q.mmap_head
                &&& p.open_files@ == q.open_files@
                &&& final(states)@ == old(states)@.update(old(sched).current.unwrap() as int, TaskState::Dead)
                &&& final(sched).queue() == queue
                &&& if old(sched).current == Some(to) {
                    r == Ok::<Option<Switch>, crate::errno::Errno>(None)
                } else {
                    r == Ok::<Option<Switch>, crate::errno::Errno>(Some(Switch { from: old(sched).current, to }))
                        && final(sched).current == Some(to)
                }
            },
    {
        let init = match loaded {
            Ok(t) => t,
            Err(e) => return Err(e),
        };
        let mut p = self.procs.remove(&pid).unwrap();
        let mut threads: Vec<usize> = Vec::new();
        threads.push(init);
        p.threads = threads;
        self.procs.insert(pid, p);
        assert(self.procs@ =~= old(self).procs().insert(pid, p));
        sched.add_task(init);
        Ok(sched.kill_current(states))
    }
}

/// Opening a file at the lowest free descriptor and closing that
/// descriptor again leaves the table as it was.
pub proof fn lemma_open_close_restores(m: Map<usize, FileDescription>, base: usize, fd: usize, d: FileDescription)
    requires
        lowest_free_fd(m, base, fd),
    ensures
        m.insert(fd, d).remove(fd) == m,
        m.insert(fd, d).contains_key(fd) && m.insert(fd, d)[fd] == d,
{
    assert(m.insert(fd, d).remove(fd) =~= m);
}

} // verus!

verus! {

/// Creates the kernel process, without a parent and at the root `root`.
#[allow(non_snake_case)]
pub fn PROCESS_STAGE(procs: &mut ProcessTable, root: usize) -> (r: usize)
    requires
        old(procs).wf(),
        old(procs).next_pid() < usize::MAX,
    ensures
        final(procs).wf(),
        r == old(procs).next_pid(),
        final(procs).next_pid() == old(procs).next_pid() + 1,
        final(procs).procs() == old(procs).procs().insert(r, final(procs).procs()[r]),
        ({
            let p = final(procs).procs()[r];
            &&& p.id == r
            &&& p.name@ == "kernel"@
            &&& p.parent is None
            &&& p.threads@ == Seq::<usize>::empty()
            &&& p.status == ProcessState::Running
            &&& p.root_dir == root
            &&& p.working_dir == root
            &&& p.identity.user_id == 0
            &&& p.identity.effective_user_id == 0
            &&& p.open_files@ == Map::<usize, FileDescription>::empty()
            &&& p.mmap_head == MMAP_BASE
        }),
{
    let name = String::from_str("kernel");
    procs.new_with_space(name, None, root)
}

} // verus!

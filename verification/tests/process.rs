use menix::file::{File, FileDescription, NodeType};
use menix::process::{FdTable, Identity, ProcessState, ProcessTable, MMAP_BASE};
use menix::sched::{Scheduler, Switch, TaskState};

fn desc(id: usize) -> FileDescription {
    FileDescription {
        file: File { id, flags: 0, path: Some(0), node: Some(NodeType::Regular) },
        close_on_exec: false,
    }
}

#[test]
fn open_file_takes_the_lowest_free_descriptor() {
    let mut t = FdTable::new();
    assert_eq!(t.open_file(desc(1), 0), Some(0));
    assert_eq!(t.open_file(desc(2), 0), Some(1));
    assert_eq!(t.open_file(desc(3), 5), Some(5));
    assert_eq!(t.close(0), Some((desc(1), true)));
    assert_eq!(t.open_file(desc(4), 0), Some(0));
    assert_eq!(t.get_fd(0), Some(desc(4)));
    assert_eq!(t.get_fd(2), None);
}

#[test]
fn open_then_close_restores_the_table() {
    let mut t = FdTable::new();
    t.open_file(desc(1), 0);
    t.open_file(desc(2), 0);
    let fd = t.open_file(desc(3), 1).unwrap();
    assert_eq!(fd, 2);
    assert_eq!(t.close(fd), Some((desc(3), true)));
    assert_eq!(t.get_fd(0), Some(desc(1)));
    assert_eq!(t.get_fd(1), Some(desc(2)));
    assert_eq!(t.get_fd(2), None);
    assert_eq!(t.close(7), None);
}

#[test]
fn close_all_returns_descriptions_in_descriptor_order() {
    let mut t = FdTable::new();
    t.open_file(desc(10), 4);
    t.open_file(desc(20), 0);
    t.open_file(desc(30), 2);
    assert_eq!(t.close_all(), vec![(desc(20), true), (desc(30), true), (desc(10), true)]);
    assert_eq!(t.get_fd(0), None);
}

#[test]
fn close_all_closes_a_shared_file_with_its_last_descriptor() {
    let mut t = FdTable::new();
    t.open_file(desc(7), 0);
    t.open_file(desc(8), 0);
    t.open_file(desc(7), 0);
    assert_eq!(t.close_all(), vec![(desc(7), false), (desc(8), true), (desc(7), true)]);
}

#[test]
fn duplicate_copies_the_table() {
    let mut t = FdTable::new();
    t.open_file(desc(1), 3);
    let d = t.duplicate();
    assert_eq!(d.get_fd(3), Some(desc(1)));
}

#[test]
fn kernel_identity_is_root() {
    let k = Identity::get_kernel();
    assert_eq!(k.user_id, 0);
    assert_eq!(k.effective_user_id, 0);
    assert!(k.groups.is_empty());
    let d = Identity { groups: vec![5, 6], user_id: 3, ..Identity::get_kernel() }.duplicate();
    assert_eq!(d.groups, vec![5, 6]);
    assert_eq!(d.user_id, 3);
}

#[test]
fn new_process_and_fork() {
    let mut p = ProcessTable::new();
    let init = p.new_with_space("init".to_string(), None, 7);
    assert_eq!(init, 0);
    let proc0 = p.get(init).unwrap();
    assert_eq!(proc0.root_dir, 7);
    assert_eq!(proc0.working_dir, 7);
    assert_eq!(proc0.status, ProcessState::Running);
    assert_eq!(proc0.mmap_head, MMAP_BASE);
    assert_eq!(p.get_parent(init), None);

    let child = p.fork(init, 42);
    assert_eq!(child, 1);
    let c = p.get(child).unwrap();
    assert_eq!(c.parent, Some(init));
    assert_eq!(c.threads, vec![42]);
    assert_eq!(c.name, "init");
    assert_eq!(p.get(init).unwrap().children, vec![child]);

    // A process made with a parent takes its directories; the parent lists
    // itself among its children, as the process structure does.
    let other = p.new_with_space("other".to_string(), Some(init), 9);
    assert_eq!(other, 2);
    assert_eq!(p.get(other).unwrap().root_dir, 7);
    assert_eq!(p.get(init).unwrap().children, vec![child, init]);
}

#[test]
fn exit_kills_threads_and_closes_files() {
    let mut p = ProcessTable::new();
    let init = p.new_with_space("init".to_string(), None, 0);
    let child = p.fork(init, 1);
    let mut states = vec![TaskState::Running, TaskState::Running, TaskState::Ready];
    let mut sched = Scheduler::new();
    sched.idle_task = Some(0);
    sched.current = Some(1);
    sched.add_task(2);
    let (closed, switch) = p.exit(child, 3, &mut states, &mut sched);
    assert!(closed.is_empty());
    assert_eq!(states, vec![TaskState::Running, TaskState::Dead, TaskState::Ready]);
    assert_eq!(switch, Some(Switch { from: Some(1), to: 2 }));
    let c = p.get(child).unwrap();
    assert_eq!(c.status, ProcessState::Exited(3));
    assert!(c.threads.is_empty());
}

#[test]
fn the_exit_call_ends_the_process() {
    let mut p = ProcessTable::new();
    let _kernel = p.new_with_space("kernel".to_string(), None, 0);
    let init = p.new_with_space("init".to_string(), None, 0);
    let child = p.fork(init, 1);
    let mut states = vec![TaskState::Running, TaskState::Running];
    let mut sched = Scheduler::new();
    sched.idle_task = Some(0);
    sched.current = Some(1);
    let (closed, _) = menix::syscall::process::exit(&mut p, child, 0x105, &mut states, &mut sched);
    assert!(closed.is_empty());
    assert_eq!(states[1], TaskState::Dead);
    assert_eq!(p.get(child).unwrap().status, ProcessState::Exited(5));
}

#[test]
fn fexecve_replaces_the_threads_and_kills_the_caller() {
    let mut p = ProcessTable::new();
    let init = p.new_with_space("init".to_string(), None, 0);
    let child = p.fork(init, 1);
    let mut states = vec![TaskState::Running, TaskState::Running, TaskState::Ready, TaskState::Ready];
    let mut sched = Scheduler::new();
    sched.idle_task = Some(0);
    sched.current = Some(1);
    // A failed load changes nothing.
    assert_eq!(p.fexecve(child, Err(menix::errno::Errno::ENOEXEC), &mut states, &mut sched), Err(menix::errno::Errno::ENOEXEC));
    assert_eq!(p.get(child).unwrap().threads, vec![1]);
    assert_eq!(sched.current, Some(1));
    let r = p.fexecve(child, Ok(3), &mut states, &mut sched);
    assert_eq!(r, Ok(Some(Switch { from: Some(1), to: 3 })));
    assert_eq!(p.get(child).unwrap().threads, vec![3]);
    assert_eq!(states[1], TaskState::Dead);
    assert_eq!(sched.current, Some(3));
}

#[test]
fn process_stage_makes_the_kernel_process() {
    let mut p = ProcessTable::new();
    let k = menix::process::PROCESS_STAGE(&mut p, 0);
    assert_eq!(k, 0);
    let proc0 = p.get(k).unwrap();
    assert_eq!(proc0.name, "kernel");
    assert_eq!(proc0.parent, None);
    assert_eq!(proc0.identity.effective_user_id, 0);
}

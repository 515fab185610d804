use menix::errno::Errno;
use menix::file::{File, FileDescription, NodeType, NullFile, O_CLOSE_ON_EXEC};
use menix::process::{FdTable, Identity, ProcessState};
use menix::syscall::memory::{mmap, MmapPlan, MAP_ANONYMOUS, MAP_FIXED, MAP_PRIVATE, MAP_SHARED, PROT_READ, PROT_WRITE, VM_READ, VM_WRITE};
use menix::syscall::process::{getpgid, getppid, wait_round, waitpid, ChildInfo, ProcessInfo, WaitStep};
use menix::syscall::socket::{accept, bind, fd_to_socket, socket, socketpair};
use menix::syscall::system::{
    clock_get, getuname, reboot, setuname, syslog, RebootAction, Timespec, RB_ENABLE_CAD, RB_POWER_OFF, REBOOT_MAGIC,
};
use menix::memory::UserSlice;
use menix::syscall::vfs::{
    close, dup, dup3, fcntl, getcwd, ioctl, pipe, ppoll, pread, pwrite, read, seek, stat_mode, PollFd, F_DUPFD,
    F_GETFD, F_GETFL, POLLNVAL, S_IFDIR,
};

fn file(id: usize, node: NodeType) -> File {
    File { id, flags: 0x2, path: Some(0), node: Some(node) }
}

fn table() -> FdTable {
    let mut t = FdTable::new();
    t.open_file(FileDescription { file: file(1, NodeType::Regular), close_on_exec: false }, 0);
    t.open_file(FileDescription { file: file(2, NodeType::Socket), close_on_exec: false }, 0);
    t
}

#[test]
fn close_and_bad_descriptors() {
    let mut t = table();
    assert_eq!(close(&mut t, 0), Ok(Some(file(1, NodeType::Regular))));
    assert_eq!(close(&mut t, 0), Err(Errno::EBADF));
    // A file that another descriptor still refers to stays open.
    assert_eq!(dup(&mut t, 1), Ok(0));
    assert_eq!(close(&mut t, 0), Ok(None));
    assert_eq!(close(&mut t, 1), Ok(Some(file(2, NodeType::Socket))));
    assert_eq!(close(&mut t, -1), Err(Errno::EBADF));
}

#[test]
fn dup_and_dup3() {
    let mut t = table();
    assert_eq!(dup(&mut t, 0), Ok(2));
    assert_eq!(dup(&mut t, 9), Err(Errno::EBADF));
    // The lowest free descriptor is taken, also below the duplicated one.
    assert_eq!(close(&mut t, 0), Ok(None));
    assert_eq!(dup(&mut t, 2), Ok(0));
    assert_eq!(dup3(&mut t, 0, 0, 0), Ok((0, None)));
    assert_eq!(dup3(&mut t, 0, 1, O_CLOSE_ON_EXEC as usize), Ok((1, Some(file(2, NodeType::Socket)))));
    assert_eq!(dup3(&mut t, 0, 2, 0), Ok((2, None)));
    assert_eq!(t.get_fd(1), Some(FileDescription { file: file(1, NodeType::Regular), close_on_exec: true }));
    assert_eq!(dup3(&mut t, 0, -2, 0), Err(Errno::EBADF));
    assert_eq!(dup3(&mut t, 7, 3, 0), Err(Errno::EBADF));
}

#[test]
fn fcntl_commands() {
    let mut t = table();
    assert_eq!(fcntl(&mut t, 0, F_DUPFD, 5), Ok(5));
    assert_eq!(fcntl(&mut t, 0, F_GETFL, 0), Ok(0x2));
    assert_eq!(fcntl(&mut t, 0, F_GETFD, 0), Ok(0));
    assert_eq!(fcntl(&mut t, 0, 1030, 0), Ok(2));
    assert_eq!(fcntl(&mut t, 2, F_GETFD, 0), Ok(O_CLOSE_ON_EXEC as usize));
    assert_eq!(fcntl(&mut t, 0, 9999, 0), Err(Errno::EINVAL));
    assert_eq!(fcntl(&mut t, 8, F_GETFD, 0), Err(Errno::EBADF));
}

#[test]
fn seek_anchors() {
    let t = table();
    assert_eq!(seek(&t, 0, 5, 0, 10, Some(100)), Ok((5, 5)));
    assert_eq!(seek(&t, 0, 5, 1, 10, Some(100)), Ok((15, 15)));
    assert_eq!(seek(&t, 0, usize::MAX, 1, 10, Some(100)), Ok((9, 9)));
    assert_eq!(seek(&t, 0, 3, 2, 10, Some(100)), Ok((103, 103)));
    assert_eq!(seek(&t, 0, 3, 3, 10, Some(100)), Err(Errno::EINVAL));
    assert_eq!(seek(&t, 4, 3, 0, 10, Some(100)), Err(Errno::EBADF));
}

#[test]
fn reads_and_writes_go_to_the_file() {
    let mut t = FdTable::new();
    let rw = File { id: 1, flags: 0x3, path: None, node: Some(NodeType::CharacterDevice) };
    let wo = File { id: 2, flags: 0x2, path: None, node: Some(NodeType::CharacterDevice) };
    t.open_file(FileDescription { file: rw, close_on_exec: false }, 0);
    t.open_file(FileDescription { file: wo, close_on_exec: false }, 0);
    let mut null = NullFile;
    assert_eq!(read(&t, 0, &mut null, 0, 4), Ok(vec![0u8; 4]));
    assert_eq!(pread(&t, 0, &mut null, 7, 0), Ok(vec![]));
    assert_eq!(read(&t, 1, &mut null, 0, 4), Err(Errno::EBADF));
    assert_eq!(read(&t, 9, &mut null, 0, 4), Err(Errno::EBADF));
    assert_eq!(menix::syscall::vfs::write(&t, 1, &mut null, 0, b"hello"), Ok(5));
    assert_eq!(pwrite(&t, 0, &mut null, 3, b""), Ok(0));
    assert_eq!(ioctl(&t, 0, &mut null, 1, 2), Err(Errno::ENOTTY));
    assert_eq!(ioctl(&t, 5, &mut null, 1, 2), Err(Errno::EBADF));
}

#[test]
fn pipe_takes_the_two_lowest_descriptors() {
    let mut t = table();
    let r = File { id: 8, flags: 0x1, path: None, node: Some(NodeType::FIFO) };
    let w = File { id: 9, flags: 0x2, path: None, node: Some(NodeType::FIFO) };
    close(&mut t, 0).unwrap();
    assert_eq!(pipe(&mut t, r, w), Ok((0, 2)));
    assert_eq!(t.get_fd(2), Some(FileDescription { file: w, close_on_exec: false }));
}

#[test]
fn ppoll_marks_events() {
    let t = table();
    let mut fds = vec![
        PollFd { fd: 0, events: 1, revents: 7 },
        PollFd { fd: 9, events: 1, revents: 0 },
        PollFd { fd: -1, events: 1, revents: 3 },
        PollFd { fd: 1, events: 1, revents: 0 },
    ];
    let polled = vec![Ok(1), Ok(0), Ok(0), Ok(0)];
    assert_eq!(ppoll(&t, &mut fds, &polled), 2);
    assert_eq!(fds[0].revents, 1);
    assert_eq!(fds[1].revents, POLLNVAL);
    assert_eq!(fds[2].revents, 0);
    assert_eq!(fds[3].revents, 0);
}

#[test]
fn getcwd_builds_the_path() {
    assert_eq!(getcwd(&vec![], 16), Ok(b"/".to_vec()));
    // The names go from the working directory up to the root.
    assert_eq!(getcwd(&vec![b"bin".to_vec(), b"usr".to_vec()], 64), Ok(b"/usr/bin".to_vec()));
    assert_eq!(getcwd(&vec![b"bin".to_vec(), b"usr".to_vec()], 4), Err(Errno::ERANGE));
}

#[test]
fn stat_modes_carry_the_type() {
    assert_eq!(stat_mode(0o755, NodeType::Directory), 0o755 | S_IFDIR);
}

#[test]
fn anonymous_mappings_move_the_head() {
    let t = table();
    let mut head: usize = 0x1000_0000;
    let plan = mmap(&t, &mut head, 0x1000, 0, 0x1800, PROT_READ | PROT_WRITE, MAP_PRIVATE | MAP_ANONYMOUS, -1);
    assert_eq!(plan, Ok(MmapPlan { addr: 0x1000_0000, length: 0x1800, prot: VM_READ | VM_WRITE, file: None, private: true }));
    assert_eq!(head, 0x1000_2000);
    let fixed = mmap(&t, &mut head, 0x1000, 0x5000, 0x1000, PROT_READ, MAP_SHARED | MAP_FIXED, 0);
    assert_eq!(fixed.map(|p| (p.addr, p.file)), Ok((0x5000, Some(file(1, NodeType::Regular)))));
    assert_eq!(head, 0x1000_2000);
    assert_eq!(mmap(&t, &mut head, 0x1000, 0, 0x1000, PROT_READ, MAP_SHARED | MAP_PRIVATE, 0), Err(Errno::EINVAL));
    assert_eq!(mmap(&t, &mut head, 0x1000, 0, 0x1000, PROT_READ, MAP_SHARED, 9), Err(Errno::EBADF));
}

#[test]
fn socket_descriptors() {
    let mut t = table();
    assert_eq!(fd_to_socket(&t, 1), Ok(file(2, NodeType::Socket)));
    assert_eq!(fd_to_socket(&t, 0), Err(Errno::ENOTSOCK));
    assert_eq!(fd_to_socket(&t, 5), Err(Errno::EBADF));
    assert_eq!(bind(&t, 1, 16), Ok((file(2, NodeType::Socket), 16)));
    assert_eq!(socket(&mut t, None), Err(Errno::EAFNOSUPPORT));
    assert_eq!(socket(&mut t, Some(file(3, NodeType::Socket))), Ok(2));
    assert_eq!(socketpair(true, true), Err(Errno::ENOSYS));
    assert_eq!(socketpair(true, false), Err(Errno::EAFNOSUPPORT));
}

fn proc_info(pid: usize, parent: Option<usize>) -> ProcessInfo {
    ProcessInfo { pid, tid: pid, parent, identity: Identity::get_kernel() }
}

#[test]
fn process_ids() {
    assert_eq!(getppid(&proc_info(5, Some(2))), 2);
    assert_eq!(getppid(&proc_info(1, None)), 0);
    assert_eq!(getpgid(&proc_info(5, None), 0), Ok(5));
    assert_eq!(getpgid(&proc_info(5, None), 3), Err(Errno::EINVAL));
}

#[test]
fn waitpid_reaps_the_last_exited_match() {
    let children = vec![
        ChildInfo { pid: 4, state: ProcessState::Exited(1) },
        ChildInfo { pid: 5, state: ProcessState::Running },
        ChildInfo { pid: 6, state: ProcessState::Exited(2) },
    ];
    assert_eq!(waitpid(&children, -1), WaitStep::Reaped { index: 2, status: 512 });
    assert_eq!(waitpid(&children, 4), WaitStep::Reaped { index: 0, status: 256 });
    assert_eq!(waitpid(&children, 5), WaitStep::Retry);
    assert_eq!(waitpid(&vec![], -1), WaitStep::NoChildren);
}

#[test]
fn wait_round_removes_the_reaped_child() {
    let mut children = vec![
        ChildInfo { pid: 4, state: ProcessState::Exited(1) },
        ChildInfo { pid: 5, state: ProcessState::Running },
    ];
    assert_eq!(wait_round(&mut children, 5), None);
    assert_eq!(children.len(), 2);
    assert_eq!(wait_round(&mut children, -1), Some(Ok((4, 256))));
    assert_eq!(children, vec![ChildInfo { pid: 5, state: ProcessState::Running }]);
    assert_eq!(wait_round(&mut vec![], 0), Some(Err(Errno::ECHILD)));
}

#[test]
fn accept_checks_the_descriptor_first() {
    let t = table();
    assert_eq!(accept(&t, 1, false, false, 16), Ok((file(2, NodeType::Socket), 16)));
    assert_eq!(accept(&t, 1, true, false, 16), Ok((file(2, NodeType::Socket), 0)));
    assert_eq!(accept(&t, 0, false, false, 16), Err(Errno::ENOTSOCK));
    assert_eq!(accept(&t, 7, false, false, 16), Err(Errno::EBADF));
}

#[test]
fn system_calls_of_the_system() {
    assert_eq!(clock_get(3_000_000_123), Timespec { tv_sec: 3, tv_nsec: 123 });
    let mut name = menix::posix::default_utsname(b"1.0", b"x86_64");
    let copy = getuname(&name);
    assert_eq!(copy.release, name.release);
    assert_eq!(copy.machine, name.machine);
    let other = menix::posix::default_utsname(b"2.0", b"riscv64");
    assert_eq!(setuname(1000, &mut name, Some(menix::posix::default_utsname(b"3.0", b"x"))), Err(Errno::EPERM));
    assert_eq!(name.release, menix::posix::uts_field(b"1.0"));
    assert_eq!(setuname(0, &mut name, None), Err(Errno::EINVAL));
    assert_eq!(setuname(0, &mut name, Some(other)), Ok(0));
    assert_eq!(name.release, menix::posix::uts_field(b"2.0"));
    assert_eq!(name.machine, menix::posix::uts_field(b"riscv64"));
    assert_eq!(syslog(3, &UserSlice::new(0x1000, 16), 0x8000), Ok("ERR"));
    assert_eq!(syslog(42, &UserSlice::new(0x1000, 0), 0x8000), Ok("?"));
    assert_eq!(syslog(3, &UserSlice::new(0x7ff8, 16), 0x8000), Err(Errno::EINVAL));
    assert_eq!(syslog(3, &UserSlice::new(usize::MAX, 2), 0x8000), Err(Errno::EINVAL));
    assert_eq!(reboot(REBOOT_MAGIC, RB_ENABLE_CAD, 0), Ok(RebootAction::Nothing));
    assert_eq!(reboot(REBOOT_MAGIC, RB_POWER_OFF, 0), Ok(RebootAction::PowerOff));
    assert_eq!(reboot(0, RB_ENABLE_CAD, 0), Err(Errno::EINVAL));
    assert_eq!(reboot(REBOOT_MAGIC, RB_ENABLE_CAD, 1), Err(Errno::EPERM));
    assert_eq!(reboot(REBOOT_MAGIC, 77, 0), Err(Errno::EINVAL));
}

#[test]
fn sleep_blocks_for_seconds_and_nanoseconds() {
    assert_eq!(menix::syscall::system::sleep(Some(Timespec { tv_sec: 3, tv_nsec: 500 })), Ok(3_000_000_500));
    assert_eq!(menix::syscall::system::sleep(Some(Timespec { tv_sec: 0, tv_nsec: 1_000_000_000 })), Err(Errno::EINVAL));
    assert_eq!(menix::syscall::system::sleep(Some(Timespec { tv_sec: u64::MAX, tv_nsec: 1 })), Ok(u64::MAX));
    assert_eq!(menix::syscall::system::sleep(None), Err(Errno::EINVAL));
}

//! POSIX notions of the kernel: resource limits, signals and the system
//! name.
use vstd::prelude::*;

verus! {

/// A resource whose use a process can limit.
#[derive(Clone, Copy, Debug, PartialEq, Eq, Structural)]
pub enum Resource {
    Cpu,
    FileSize,
    Data,
    Stack,
    Core,
    Rss,
    NumProc,
    NumFiles,
    MemLock,
    AddressSpace,
    Locks,
    SigPending,
    MsgQueue,
    Nice,
    RtPrio,
    RtTime,
}

impl Resource {
    pub open spec fn spec_number(self) -> u32 {
        match self {
            Resource::Cpu => 0,
            Resource::FileSize => 1,
            Resource::Data => 2,
            Resource::Stack => 3,
            Resource::Core => 4,
            Resource::Rss => 5,
            Resource::NumProc => 6,
            Resource::NumFiles => 7,
            Resource::MemLock => 8,
            Resource::AddressSpace => 9,
            Resource::Locks => 10,
            Resource::SigPending => 11,
            Resource::MsgQueue => 12,
            Resource::Nice => 13,
            Resource::RtPrio => 14,
            Resource::RtTime => 15,
        }
    }

    /// The number the system call interface gives the resource.
    pub fn number(self) -> (r: u32)
        ensures
            r == self.spec_number(),
    {
        match self {
            Resource::Cpu => 0,
            Resource::FileSize => 1,
            Resource::Data => 2,
            Resource::Stack => 3,
            Resource::Core => 4,
            Resource::Rss => 5,
            Resource::NumProc => 6,
            Resource::NumFiles => 7,
            Resource::MemLock => 8,
            Resource::AddressSpace => 9,
            Resource::Locks => 10,
            Resource::SigPending => 11,
            Resource::MsgQueue => 12,
            Resource::Nice => 13,
            Resource::RtPrio => 14,
            Resource::RtTime => 15,
        }
    }
}

/// A soft and a hard limit.
#[derive(Clone, Copy, Debug, PartialEq, Eq, Structural)]
pub struct Rlimit {
    pub rlim_cur: u64,
    pub rlim_max: u64,
}

/// The limits of a process.
#[derive(Clone, Copy, Debug, PartialEq, Eq, Structural)]
pub struct Limits {
    pub open_max: Rlimit,
    pub core_size: Rlimit,
}

impl Default for Limits {
    /// At most 1024 open files, and no core dumps.
    fn default() -> (r: Self)
        ensures
            r.open_max == (Rlimit { rlim_cur: 1024, rlim_max: 1024 }),
            r.core_size == (Rlimit { rlim_cur: 0, rlim_max: 0 }),
    {
        Limits { open_max: Rlimit { rlim_cur: 1024, rlim_max: 1024 }, core_size: Rlimit { rlim_cur: 0, rlim_max: 0 } }
    }
}

/// A signal.
#[derive(Clone, Copy, Debug, PartialEq, Eq, Structural)]
pub enum Signal {
    SIGHUP,
    SIGINT,
    SIGQUIT,
    SIGCONT,
    SIGBUS,
    SIGABRT,
    SIGCHLD,
    SIGFPE,
    SIGKILL,
    SIGILL,
    SIGPIPE,
    SIGSEGV,
    SIGSTOP,
    SIGALRM,
    SIGTERM,
    SIGTSTP,
    SIGTTIN,
    SIGTTOU,
    SIGUSR1,
    SIGUSR2,
    SIGIO,
    SIGPROF,
    SIGSYS,
    SIGTRAP,
    SIGURG,
    SIGVTALRM,
    SIGXCPU,
    SIGXFSZ,
    SIGWINCH,
    SIGPWR,
}

impl Signal {
    pub open spec fn spec_number(self) -> u32 {
        match self {
            Signal::SIGHUP => 1,
            Signal::SIGINT => 2,
            Signal::SIGQUIT => 3,
            Signal::SIGILL => 4,
            Signal::SIGTRAP => 5,
            Signal::SIGABRT => 6,
            Signal::SIGBUS => 7,
            Signal::SIGFPE => 8,
            Signal::SIGKILL => 9,
            Signal::SIGUSR1 => 10,
            Signal::SIGSEGV => 11,
            Signal::SIGUSR2 => 12,
            Signal::SIGPIPE => 13,
            Signal::SIGALRM => 14,
            Signal::SIGTERM => 15,
            Signal::SIGCHLD => 17,
            Signal::SIGCONT => 18,
            Signal::SIGSTOP => 19,
            Signal::SIGTSTP => 20,
            Signal::SIGTTIN => 21,
            Signal::SIGTTOU => 22,
            Signal::SIGURG => 23,
            Signal::SIGXCPU => 24,
            Signal::SIGXFSZ => 25,
            Signal::SIGVTALRM => 26,
            Signal::SIGPROF => 27,
            Signal::SIGWINCH => 28,
            Signal::SIGIO => 29,
            Signal::SIGPWR => 30,
            Signal::SIGSYS => 31,
        }
    }

    /// The number the system call interface gives the signal.
    pub fn number(self) -> (r: u32)
        ensures
            r == self.spec_number(),
    {
        match self {
            Signal::SIGHUP => 1,
            Signal::SIGINT => 2,
            Signal::SIGQUIT => 3,
            Signal::SIGILL => 4,
            Signal::SIGTRAP => 5,
            Signal::SIGABRT => 6,
            Signal::SIGBUS => 7,
            Signal::SIGFPE => 8,
            Signal::SIGKILL => 9,
            Signal::SIGUSR1 => 10,
            Signal::SIGSEGV => 11,
            Signal::SIGUSR2 => 12,
            Signal::SIGPIPE => 13,
            Signal::SIGALRM => 14,
            Signal::SIGTERM => 15,
            Signal::SIGCHLD => 17,
            Signal::SIGCONT => 18,
            Signal::SIGSTOP => 19,
            Signal::SIGTSTP => 20,
            Signal::SIGTTIN => 21,
            Signal::SIGTTOU => 22,
            Signal::SIGURG => 23,
            Signal::SIGXCPU => 24,
            Signal::SIGXFSZ => 25,
            Signal::SIGVTALRM => 26,
            Signal::SIGPROF => 27,
            Signal::SIGWINCH => 28,
            Signal::SIGIO => 29,
            Signal::SIGPWR => 30,
            Signal::SIGSYS => 31,
        }
    }
}

/// The length of each field of the system name.
pub const UTS_FIELD_LEN: usize = 65;

/// The system name: each field a NUL-padded string of 65 bytes.
pub struct Utsname {
    pub sysname: Vec<u8>,
    pub nodename: Vec<u8>,
    pub release: Vec<u8>,
    pub version: Vec<u8>,
    pub machine: Vec<u8>,
    pub domainname: Vec<u8>,
}

/// `s` padded with NUL bytes to the length of a field.
pub open spec fn padded(s: Seq<u8>) -> Seq<u8> {
    s + Seq::new((UTS_FIELD_LEN - s.len()) as nat, |i: int| 0u8)
}

/// A field holding `s`.
pub fn uts_field(s: &[u8]) -> (r: Vec<u8>)
    requires
        s@.len() <= UTS_FIELD_LEN,
    ensures
        r@ == padded(s@),
{
    let mut r: Vec<u8> = Vec::new();
    let mut i: usize = 0;
    while i < s.len()
        invariant
            i <= s@.len(),
            r@ == s@.take(i as int),
        decreases s.len() - i,
    {
        r.push(s[i]);
        assert(r@ =~= s@.take(i + 1));
        i = i + 1;
    }
    while r.len() < UTS_FIELD_LEN
        invariant
            s@.len() <= r@.len() <= UTS_FIELD_LEN,
            r@.take(s@.len() as int) == s@,
            forall|k: int| s@.len() <= k < r@.len() ==> r@[k] == 0u8,
        decreases UTS_FIELD_LEN - r.len(),
    {
        r.push(0u8);
        assert(r@.take(s@.len() as int) =~= r@.drop_last().take(s@.len() as int));
    }
    assert(r@ =~= padded(s@));
    r
}

/// The name the system starts with: Menix on `localhost`, with the given
/// release and machine names.
pub fn default_utsname(release: &[u8], machine: &[u8]) -> (r: Utsname)
    requires
        release@.len() <= UTS_FIELD_LEN,
        machine@.len() <= UTS_FIELD_LEN,
    ensures
        r.sysname@ == padded("Menix"@.map_values(|c: char| c as u8)),
        r.nodename@ == padded("localhost"@.map_values(|c: char| c as u8)),
        r.release@ == padded(release@),
        r.version@ == padded("Menix is not Minix"@.map_values(|c: char| c as u8)),
        r.machine@ == padded(machine@),
        r.domainname@ == padded("(none)"@.map_values(|c: char| c as u8)),
{
    let sysname: [u8; 5] = [0x4d, 0x65, 0x6e, 0x69, 0x78];
    let nodename: [u8; 9] = [0x6c, 0x6f, 0x63, 0x61, 0x6c, 0x68, 0x6f, 0x73, 0x74];
    let version: [u8; 18] = [
        0x4d, 0x65, 0x6e, 0x69, 0x78, 0x20, 0x69, 0x73, 0x20, 0x6e, 0x6f, 0x74, 0x20, 0x4d, 0x69, 0x6e, 0x69, 0x78,
    ];
    let domainname: [u8; 6] = [0x28, 0x6e, 0x6f, 0x6e, 0x65, 0x29];
    proof {
        reveal_strlit("Menix");
        reveal_strlit("localhost");
        reveal_strlit("Menix is not Minix");
        reveal_strlit("(none)");
        assert(sysname@ =~= "Menix"@.map_values(|c: char| c as u8));
        assert(nodename@ =~= "localhost"@.map_values(|c: char| c as u8));
        assert(version@ =~= "Menix is not Minix"@.map_values(|c: char| c as u8));
        assert(domainname@ =~= "(none)"@.map_values(|c: char| c as u8));
    }
    Utsname {
        sysname: uts_field(&sysname),
        nodename: uts_field(&nodename),
        release: uts_field(release),
        version: uts_field(&version),
        machine: uts_field(machine),
        domainname: uts_field(&domainname),
    }
}

} // verus!

//! System information and control calls.
use vstd::prelude::*;
use crate::errno::{Errno, EResult};
use crate::memory::UserSlice;

verus! {

/// Magic value that `reboot` requires.
pub const REBOOT_MAGIC: u32 = 0xdeadbeef;
/// `reboot` commands.
pub const RB_DISABLE_CAD: u32 = 0;
pub const RB_ENABLE_CAD: u32 = 0x89abcdef;
pub const RB_POWER_OFF: u32 = 0x4321fedc;

/// Nanoseconds per second.
pub const NS_TO_SEC: usize = 1000 * 1000 * 1000;

/// A point in time as seconds and nanoseconds.
#[derive(Clone, Copy, Debug, PartialEq, Eq, Structural)]
pub struct Timespec {
    pub tv_sec: u64,
    pub tv_nsec: u64,
}

/// The time reported for `elapsed` nanoseconds since boot.
pub fn clock_get(elapsed: usize) -> (r: Timespec)
    ensures
        r.tv_sec == elapsed / NS_TO_SEC,
        r.tv_nsec == elapsed % NS_TO_SEC,
        r.tv_sec * NS_TO_SEC + r.tv_nsec == elapsed,
        r.tv_nsec < NS_TO_SEC,
{
    let r = Timespec { tv_sec: (elapsed / NS_TO_SEC) as u64, tv_nsec: (elapsed % NS_TO_SEC) as u64 };
    assert(r.tv_sec * NS_TO_SEC + r.tv_nsec == elapsed) by (nonlinear_arith)
        requires
            r.tv_sec == elapsed / NS_TO_SEC,
            r.tv_nsec == elapsed % NS_TO_SEC,
    ;
    r
}

/// Changes the system name to `requested`, the name read from user
/// memory (`None` where it could not be read). Only the superuser may
/// change it.
pub fn setuname(user_id: u32, current: &mut crate::posix::Utsname, requested: Option<crate::posix::Utsname>) -> (r: EResult<usize>)
    ensures
        user_id != 0 ==> r == Err::<usize, Errno>(Errno::EPERM) && *final(current) == *old(current),
        user_id == 0 && requested is None ==> r == Err::<usize, Errno>(Errno::EINVAL) && *final(current)
            == *old(current),
        user_id == 0 ==> (requested matches Some(u) ==> r == Ok::<usize, Errno>(0) && *final(current) == u),
{
    if user_id != 0 {
        return Err(Errno::EPERM);
    }
    match requested {
        Some(u) => {
            *current = u;
            Ok(0)
        },
        None => Err(Errno::EINVAL),
    }
}

/// What `getuname` writes to user memory: a copy of the current system
/// name.
pub fn getuname(current: &crate::posix::Utsname) -> (r: crate::posix::Utsname)
    ensures
        r.sysname@ == current.sysname@,
        r.nodename@ == current.nodename@,
        r.release@ == current.release@,
        r.version@ == current.version@,
        r.machine@ == current.machine@,
        r.domainname@ == current.domainname@,
{
    crate::posix::Utsname {
        sysname: current.sysname.clone(),
        nodename: current.nodename.clone(),
        release: current.release.clone(),
        version: current.version.clone(),
        machine: current.machine.clone(),
        domainname: current.domainname.clone(),
    }
}

/// The tag that `syslog` puts in front of a message of a given level.
pub open spec fn syslog_tag(level: usize) -> Seq<char> {
    if level == 0 {
        "EMERG"@
    } else if level == 1 {
        "ALERT"@
    } else if level == 2 {
        "CRIT"@
    } else if level == 3 {
        "ERR"@
    } else if level == 4 {
        "WARNING"@
    } else if level == 5 {
        "NOTICE"@
    } else if level == 6 {
        "INFO"@
    } else if level == 7 {
        "DEBUG"@
    } else {
        "?"@
    }
}

/// The message buffer lies in user memory, below `user_limit`.
pub open spec fn in_user_range(addr: usize, len: usize, user_limit: usize) -> bool {
    addr + len <= user_limit
}

/// `syslog` of the message `msg` at a level: the message must lie in user
/// memory (addresses below `user_limit`), else `EINVAL` and nothing is
/// logged; otherwise the tag to put in front of it.
pub fn syslog(level: usize, msg: &UserSlice<u8>, user_limit: usize) -> (r: EResult<&'static str>)
    ensures
        !in_user_range(msg.spec_addr(), msg.spec_len(), user_limit) ==> r == Err::<&'static str, Errno>(
            Errno::EINVAL,
        ),
        in_user_range(msg.spec_addr(), msg.spec_len(), user_limit) ==> (r matches Ok(t) && t@ == syslog_tag(
            level,
        )),
{
    let addr = msg.addr();
    let len = msg.len();
    if len > user_limit || addr > user_limit - len {
        return Err(Errno::EINVAL);
    }
    let t = if level == 0 {
        "EMERG"
    } else if level == 1 {
        "ALERT"
    } else if level == 2 {
        "CRIT"
    } else if level == 3 {
        "ERR"
    } else if level == 4 {
        "WARNING"
    } else if level == 5 {
        "NOTICE"
    } else if level == 6 {
        "INFO"
    } else if level == 7 {
        "DEBUG"
    } else {
        "?"
    };
    Ok(t)
}

/// What an accepted `reboot` asks of the machine.
#[derive(Clone, Copy, Debug, PartialEq, Eq, Structural)]
pub enum RebootAction {
    /// Nothing: enabling or disabling Ctrl-Alt-Del has no effect.
    Nothing,
    /// Powering the machine off, which the caller carries out.
    PowerOff,
}

/// A `reboot` request needs the magic value and the superuser; enabling or
/// disabling Ctrl-Alt-Del succeeds without effect; powering off is handed
/// to the caller; other commands are refused.
pub fn reboot(magic: u32, cmd: u32, user_id: u32) -> (r: EResult<RebootAction>)
    ensures
        r == (if magic != REBOOT_MAGIC {
            Err::<RebootAction, Errno>(Errno::EINVAL)
        } else if user_id != 0 {
            Err(Errno::EPERM)
        } else if cmd == RB_DISABLE_CAD || cmd == RB_ENABLE_CAD {
            Ok(RebootAction::Nothing)
        } else if cmd == RB_POWER_OFF {
            Ok(RebootAction::PowerOff)
        } else {
            Err(Errno::EINVAL)
        }),
{
    if magic != REBOOT_MAGIC {
        return Err(Errno::EINVAL);
    }
    if user_id != 0 {
        return Err(Errno::EPERM);
    }
    if cmd == RB_DISABLE_CAD || cmd == RB_ENABLE_CAD {
        Ok(RebootAction::Nothing)
    } else if cmd == RB_POWER_OFF {
        Ok(RebootAction::PowerOff)
    } else {
        Err(Errno::EINVAL)
    }
}

} // verus!

verus! {

/// How many nanoseconds a request of `t` asks for, at most `u64::MAX`.
pub open spec fn sleep_ns(t: Timespec) -> u64 {
    let total = t.tv_sec * (NS_TO_SEC as int) + t.tv_nsec;
    if total > u64::MAX { u64::MAX } else { total as u64 }
}

/// How long `nanosleep` blocks for a `request` read from user memory
/// (`None` where it could not be read): its seconds and nanoseconds
/// together, in nanoseconds. A nanosecond field of a second or more is
/// refused.
pub fn sleep(request: Option<Timespec>) -> (r: EResult<u64>)
    ensures
        r == match request {
            Some(t) => if t.tv_nsec >= NS_TO_SEC {
                Err(crate::errno::Errno::EINVAL)
            } else {
                Ok::<u64, crate::errno::Errno>(sleep_ns(t))
            },
            None => Err(crate::errno::Errno::EINVAL),
        },
{
    match request {
        Some(t) => {
            if t.tv_nsec >= NS_TO_SEC as u64 {
                return Err(crate::errno::Errno::EINVAL);
            }
            let ns = NS_TO_SEC as u64;
            let total = match t.tv_sec.checked_mul(ns) {
                Some(s) => match s.checked_add(t.tv_nsec) {
                    Some(x) => x,
                    None => u64::MAX,
                },
                None => u64::MAX,
            };
            Ok(total)
        },
        None => Err(crate::errno::Errno::EINVAL),
    }
}

} // verus!

//! The commands that are run on the router, and what their output means.
//!
//! Running a command is left to the caller. Each module here gives the text
//! of a command and reads what the command printed.

use vstd::prelude::*;

pub mod batched_sysctls_1;
pub mod batched_sysctls_2;
pub mod dpinger;
pub mod ifconfig;
pub mod netstat_bin;
pub mod pfctl_s_info;
pub mod pgrep;
pub mod smartctl_a;
pub mod smartctl_i;

verus! {

/// The command that follows the filter log.
pub fn clog_filter_log() -> (command: &'static str)
    ensures
        command@ == "/usr/local/sbin/clog -f /var/log/filter.log"@,
{
    "/usr/local/sbin/clog -f /var/log/filter.log"
}

/// The command that lists the mounted file systems.
pub fn df() -> (command: &'static str)
    ensures
        command@ == "/bin/df -kt ufs --libxo json"@,
{
    "/bin/df -kt ufs --libxo json"
}

/// The command that reports the use of network buffers.
pub fn netstat_m() -> (command: &'static str)
    ensures
        command@ == "/usr/bin/netstat -m --libxo json"@,
{
    "/usr/bin/netstat -m --libxo json"
}

/// The command that lists the names of all sysctls.
pub fn sysctl_an() -> (command: &'static str)
    ensures
        command@ == "/sbin/sysctl -aN"@,
{
    "/sbin/sysctl -aN"
}

/// The command that lists the names of the disks.
pub fn sysctl_kern_disks() -> (command: &'static str)
    ensures
        command@ == "/sbin/sysctl -n kern.disks"@,
{
    "/sbin/sysctl -n kern.disks"
}

/// The command that names the architecture.
pub fn uname_m() -> (command: &'static str)
    ensures
        command@ == "/usr/bin/uname -m"@,
{
    "/usr/bin/uname -m"
}

/// The command that names the operating system and its release.
pub fn uname_sr() -> (command: &'static str)
    ensures
        command@ == "/usr/bin/uname -sr"@,
{
    "/usr/bin/uname -sr"
}

/// The first of the lines that a command printed, or an empty line where it
/// printed none.
pub fn exec_line(lines: &Vec<String>) -> (line: String)
    ensures
        lines.len() > 0 ==> line@ == lines[0]@,
        lines.len() == 0 ==> line@ == Seq::<char>::empty(),
{
    if lines.len() > 0 {
        lines[0].clone()
    } else {
        String::new()
    }
}

} // verus!

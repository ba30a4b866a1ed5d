//! The identity of a disk.

use vstd::prelude::*;
use vstd::string::StringExecFns;

verus! {

/// The text of the command that identifies the disk `name`.
pub open spec fn command_text(name: Seq<char>) -> Seq<char> {
    "/usr/local/sbin/smartctl -i --json=c '/dev/"@ + name + "'"@
}

/// The command that identifies the disk `name`.
pub fn command(name: &str) -> (command: String)
    ensures
        command@ == command_text(name@),
{
    let mut command = String::from_str("/usr/local/sbin/smartctl -i --json=c '/dev/");
    command.append(name);
    command.append("'");
    command
}

} // verus!

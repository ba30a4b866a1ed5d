//! The health of a disk.

use vstd::prelude::*;
use vstd::string::StringExecFns;

verus! {

/// The command that reports the health of a disk.
#[derive(Debug)]
pub struct Exec {
    command: String,
}

/// The text of the command for the disk `name`.
pub open spec fn command_text(name: Seq<char>) -> Seq<char> {
    "/usr/local/sbin/smartctl -a --json=c '/dev/"@ + name + "'"@
}

impl View for Exec {
    type V = Seq<char>;

    /// The text of the command.
    closed spec fn view(&self) -> Seq<char> {
        self.command@
    }
}

impl Exec {
    /// The command for the disk `name`.
    pub fn new(name: &str) -> (exec: Exec)
        ensures
            exec@ == command_text(name@),
    {
        let mut command = String::from_str("/usr/local/sbin/smartctl -a --json=c '/dev/");
        command.append(name);
        command.append("'");
        Exec { command }
    }

    /// The text of the command.
    pub fn command(&self) -> (command: &str)
        ensures
            command@ == self@,
    {
        self.command.as_str()
    }
}

} // verus!

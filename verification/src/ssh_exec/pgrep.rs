//! Looking for the process of a service.

use vstd::prelude::*;
use vstd::string::StringExecFns;
use crate::text::{chars_of, is_text};

verus! {

/// The command that tells whether a process runs.
#[derive(Debug)]
pub struct Exec {
    command: String,
}

/// The text of the command for an executable and, where the service keeps
/// one, its pid file.
pub open spec fn command_text(executable: Seq<char>, pidfile: Option<Seq<char>>) -> Seq<char> {
    match pidfile {
        Some(pidfile) => "/bin/pgrep -F '"@ + pidfile + "' -x '"@ + executable
            + "' >/dev/null 2>/dev/null; echo $?"@,
        None => "/bin/pgrep -x '"@ + executable + "' >/dev/null 2>/dev/null; echo $?"@,
    }
}

impl View for Exec {
    type V = Seq<char>;

    /// The text of the command.
    closed spec fn view(&self) -> Seq<char> {
        self.command@
    }
}

impl Exec {
    /// The command for `executable`, looked up through `pidfile` where there
    /// is one.
    pub fn new(executable: &str, pidfile: Option<&str>) -> (exec: Exec)
        ensures
            exec@ == command_text(
                executable@,
                match pidfile {
                    Some(pidfile) => Some(pidfile@),
                    None => None,
                },
            ),
    {
        let command = match pidfile {
            Some(pidfile) => {
                let mut command = String::from_str("/bin/pgrep -F '");
                command.append(pidfile);
                command.append("' -x '");
                command.append(executable);
                command.append("' >/dev/null 2>/dev/null; echo $?");
                command
            },
            None => {
                let mut command = String::from_str("/bin/pgrep -x '");
                command.append(executable);
                command.append("' >/dev/null 2>/dev/null; echo $?");
                command
            },
        };
        Exec { command }
    }

    /// The text of the command.
    pub fn command(&self) -> (command: &str)
        ensures
            command@ == self@,
    {
        self.command.as_str()
    }

    /// Whether the line that the command printed says that the process runs:
    /// the line has to be `0`.
    pub fn is_running(line: &str) -> (running: bool)
        ensures
            running == (line@ == "0"@),
    {
        let chars = chars_of(line);
        is_text(chars.as_slice(), "0")
    }
}

} // verus!

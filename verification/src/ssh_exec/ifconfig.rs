//! The state of the link of an interface.

use vstd::prelude::*;
use vstd::string::StringExecFns;
use crate::text::{chars_of, first_after_marker, first_trimmed_after, is_text, texts};

verus! {

/// The command that describes an interface.
#[derive(Debug)]
pub struct Exec {
    command: String,
}

/// The text of the command for the interface `name`.
pub open spec fn command_text(name: Seq<char>) -> Seq<char> {
    "/sbin/ifconfig '"@ + name + "'"@
}

/// What is wrong with the interface that `lines` describe: its status, taken
/// from the first line that gives one, unless that is `active`.
pub open spec fn error_of(lines: Seq<Seq<char>>) -> Option<Seq<char>> {
    match first_after_marker(lines, "status:"@) {
        Some(status) => if status == "active"@ {
            None
        } else {
            Some(status)
        },
        None => None,
    }
}

impl View for Exec {
    type V = Seq<char>;

    /// The text of the command.
    closed spec fn view(&self) -> Seq<char> {
        self.command@
    }
}

impl Exec {
    /// The command for the interface `name`.
    pub fn new(name: &str) -> (exec: Exec)
        ensures
            exec@ == command_text(name@),
    {
        let mut command = String::from_str("/sbin/ifconfig '");
        command.append(name);
        command.append("'");
        Exec { command }
    }

    /// The text of the command.
    pub fn command(&self) -> (command: &str)
        ensures
            command@ == self@,
    {
        self.command.as_str()
    }

    /// The status of the interface that the output describes, where that
    /// status is not `active`.
    pub fn error(lines: &Vec<String>) -> (error: Option<String>)
        ensures
            match error {
                Some(status) => error_of(texts(lines@)) == Some(status@),
                None => error_of(texts(lines@)) is None,
            },
    {
        match first_trimmed_after(lines, "status:") {
            Some(status) => {
                let chars = chars_of(status.as_str());
                if is_text(chars.as_slice(), "active") {
                    None
                } else {
                    Some(status)
                }
            },
            None => None,
        }
    }
}

} // verus!

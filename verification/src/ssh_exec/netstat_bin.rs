//! The traffic counters and the addresses of the interfaces.

use vstd::prelude::*;

verus! {

/// One line of the table of interfaces: the counters of an interface on one
/// of its networks, with its address there.
#[derive(Clone, Debug, PartialEq, Eq)]
pub struct Interface {
    pub name: String,
    pub network: String,
    pub address: String,
    pub received_bytes: u64,
    pub sent_bytes: u64,
}

/// A line of the table with its texts as characters.
pub struct InterfaceView {
    pub name: Seq<char>,
    pub network: Seq<char>,
    pub address: Seq<char>,
    pub received_bytes: u64,
    pub sent_bytes: u64,
}

impl View for Interface {
    type V = InterfaceView;

    open spec fn view(&self) -> InterfaceView {
        InterfaceView {
            name: self.name@,
            network: self.network@,
            address: self.address@,
            received_bytes: self.received_bytes,
            sent_bytes: self.sent_bytes,
        }
    }
}

/// The command that prints the table of interfaces.
pub fn command() -> (command: &'static str)
    ensures
        command@ == "/usr/bin/netstat -bin --libxo json"@,
{
    "/usr/bin/netstat -bin --libxo json"
}

} // verus!

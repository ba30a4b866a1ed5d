//! The network interfaces: the state of their links, their addresses and
//! their traffic.
//!
//! The interfaces stand in three groups, those of gateways first, then the
//! bridges, then the others; within a group they are sorted by name and
//! each name stands once. A line of the table of interfaces belongs to the
//! first interface of its name.

use vstd::prelude::*;
use crate::counter::{saturating_difference, CounterPair, Ratio};
use crate::error::Error;
use crate::net::{ip_literal, parse_ip, IpAddr};
use crate::sort::{lemma_owner_found, lemma_owner_is_a_place, owner, sort_unique, unique_sorted};
use crate::ssh_exec::ifconfig::{command_text, error_of, Exec};
use crate::text::{chars_eq, chars_of, matches_at, starts_with, texts};

verus! {

/// One interface.
#[derive(Debug)]
pub struct Interface {
    pub name: String,
    /// Whether the interface is a bridge.
    pub is_bridge: bool,
    pub ifconfig_exec: Exec,
    /// What is wrong with the link, if anything.
    pub error: Option<String>,
    /// The addresses, IPv6 before IPv4 and each family in rising order.
    pub addresses: Vec<IpAddr>,
    pub received: CounterPair,
    pub sent: CounterPair,
}

/// An interface with its texts as characters.
pub struct InterfaceView {
    pub name: Seq<char>,
    pub is_bridge: bool,
    pub command: Seq<char>,
    pub error: Option<Seq<char>>,
    pub addresses: Seq<IpAddr>,
    pub received: CounterPair,
    pub sent: CounterPair,
}

impl View for Interface {
    type V = InterfaceView;

    open spec fn view(&self) -> InterfaceView {
        InterfaceView {
            name: self.name@,
            is_bridge: self.is_bridge,
            command: self.ifconfig_exec@,
            error: match self.error {
                Some(error) => Some(error@),
                None => None,
            },
            addresses: self.addresses@,
            received: self.received,
            sent: self.sent,
        }
    }
}

/// All interfaces, in their three groups.
#[derive(Debug)]
pub struct Interfaces {
    entries: Vec<Interface>,
}

/// The place of an address in the order of addresses: every IPv6 address
/// comes before every IPv4 address, and within a family the addresses rise.
pub open spec fn address_rank(address: IpAddr) -> int {
    match address {
        IpAddr::V6(address) => address.bits as int,
        IpAddr::V4(address) => 0x1_0000_0000_0000_0000_0000_0000_0000_0000 + address.bits as int,
    }
}

/// Whether the addresses rise strictly.
pub open spec fn addresses_ordered(addresses: Seq<IpAddr>) -> bool {
    forall|i: int, j: int|
        0 <= i < j < addresses.len() ==> address_rank(#[trigger] addresses[i]) < address_rank(
            #[trigger] addresses[j],
        )
}

/// `sorted` with `address` put in its place, unless it stands there already.
pub open spec fn insert_address(sorted: Seq<IpAddr>, address: IpAddr) -> Seq<IpAddr>
    decreases sorted.len(),
{
    if sorted.len() == 0 {
        seq![address]
    } else if sorted.last() == address {
        sorted
    } else if address_rank(sorted.last()) < address_rank(address) {
        sorted.push(address)
    } else {
        insert_address(sorted.drop_last(), address).push(sorted.last())
    }
}

/// Where `address` goes into `sorted`: nowhere when it stands just before
/// `at` already, else to `at`, when everything from there on comes after it
/// and what stands just before does not.
pub proof fn lemma_insert_address_position(sorted: Seq<IpAddr>, address: IpAddr, at: int)
    requires
        addresses_ordered(sorted),
        0 <= at <= sorted.len(),
        forall|k: int|
            at <= k < sorted.len() ==> address_rank(address) < address_rank(#[trigger] sorted[k]),
        at > 0 ==> address_rank(sorted[at - 1]) <= address_rank(address),
    ensures
        at > 0 && sorted[at - 1] == address ==> insert_address(sorted, address) == sorted,
        !(at > 0 && sorted[at - 1] == address) ==> insert_address(sorted, address)
            == sorted.insert(at, address),
        addresses_ordered(insert_address(sorted, address)),
    decreases sorted.len(),
{
    if sorted.len() == 0 {
        assert(seq![address] =~= sorted.insert(at, address));
    } else if at == sorted.len() {
        if sorted.last() != address {
            assert(address_rank(sorted.last()) != address_rank(address));
            assert(sorted.push(address) =~= sorted.insert(at, address));
            assert forall|i: int, j: int| 0 <= i < j < sorted.len() + 1 implies address_rank(
                #[trigger] sorted.push(address)[i],
            ) < address_rank(#[trigger] sorted.push(address)[j]) by {
                if j == sorted.len() && i < sorted.len() - 1 {
                    assert(address_rank(sorted[i]) < address_rank(sorted[sorted.len() - 1]));
                }
                if j < sorted.len() {
                    assert(address_rank(sorted[i]) < address_rank(sorted[j]));
                }
            }
        }
    } else {
        let front = sorted.drop_last();
        assert(address_rank(address) < address_rank(sorted[sorted.len() - 1]));
        assert forall|i: int, j: int| 0 <= i < j < front.len() implies address_rank(
            #[trigger] front[i],
        ) < address_rank(#[trigger] front[j]) by {
            assert(address_rank(sorted[i]) < address_rank(sorted[j]));
        }
        assert forall|k: int| at <= k < front.len() implies address_rank(address) < address_rank(
            #[trigger] front[k],
        ) by {
            assert(front[k] == sorted[k]);
        }
        lemma_insert_address_position(front, address, at);
        let inner = insert_address(front, address);
        let result = inner.push(sorted.last());
        if at > 0 && sorted[at - 1] == address {
            assert(front.push(sorted.last()) =~= sorted);
        } else {
            assert(front.insert(at, address).push(sorted.last()) =~= sorted.insert(at, address));
            assert forall|i: int, j: int| 0 <= i < j < result.len() implies address_rank(
                #[trigger] result[i],
            ) < address_rank(#[trigger] result[j]) by {
                if j < inner.len() {
                    assert(address_rank(inner[i]) < address_rank(inner[j]));
                } else if i < at {
                    assert(inner[i] == sorted[i]);
                    assert(address_rank(sorted[i]) < address_rank(sorted[sorted.len() - 1]));
                } else if i > at {
                    assert(inner[i] == sorted[i - 1]);
                    assert(address_rank(sorted[i - 1]) < address_rank(sorted[sorted.len() - 1]));
                }
            }
        }
    }
}

/// An interface of which one of the counters has no previous sample has no
/// speed: it is absent, which is not the same as a speed of nothing.
pub proof fn lemma_cold_interface_has_no_speed(interface: Interface, seconds: u64)
    requires
        interface.received.is_cold() || interface.sent.is_cold(),
    ensures
        interface.traffic(seconds) is None,
{
}

/// Whether `a` comes before `b` in the order of addresses.
pub fn address_before(a: IpAddr, b: IpAddr) -> (before: bool)
    ensures
        before == (address_rank(a) < address_rank(b)),
{
    match (a, b) {
        (IpAddr::V6(a), IpAddr::V6(b)) => a.bits < b.bits,
        (IpAddr::V6(_), IpAddr::V4(_)) => true,
        (IpAddr::V4(_), IpAddr::V6(_)) => false,
        (IpAddr::V4(a), IpAddr::V4(b)) => a.bits < b.bits,
    }
}

/// The names of the interfaces.
pub open spec fn names_of(interfaces: Seq<InterfaceView>) -> Seq<Seq<char>> {
    interfaces.map_values(|interface: InterfaceView| interface.name)
}

/// The interfaces, as views.
pub open spec fn interface_views(interfaces: Seq<Interface>) -> Seq<InterfaceView> {
    interfaces.map_values(|interface: Interface| interface@)
}

/// The interface after a line of the table that belongs to it was taken in.
/// A line for a link adds its counters to the counters of the interface. Any
/// other line gives an address, unless the address is link-local, which is
/// one that begins with `fe80:`.
pub open spec fn record_applied(
    interface: InterfaceView,
    record: crate::ssh_exec::netstat_bin::InterfaceView,
) -> Result<InterfaceView, Error> {
    if starts_with(record.network, "<Link#"@) {
        if interface.received.current + record.received_bytes > u64::MAX || interface.sent.current
            + record.sent_bytes > u64::MAX {
            Err(Error::CounterOutOfRange)
        } else {
            Ok(
                InterfaceView {
                    received: CounterPair {
                        current: (interface.received.current + record.received_bytes) as u64,
                        ..interface.received
                    },
                    sent: CounterPair {
                        current: (interface.sent.current + record.sent_bytes) as u64,
                        ..interface.sent
                    },
                    ..interface
                },
            )
        }
    } else if starts_with(record.address, "fe80:"@) {
        Ok(interface)
    } else {
        match ip_literal(record.address) {
            Some(address) => Ok(
                InterfaceView {
                    addresses: insert_address(interface.addresses, address),
                    ..interface
                },
            ),
            None => Err(Error::InvalidAddress),
        }
    }
}

/// The interfaces after the lines of the table were taken in, one after
/// another, up to the first line that cannot be taken in; with it comes the
/// error of that line. A line for an interface that is not among the
/// interfaces is passed over.
pub open spec fn applied(
    interfaces: Seq<InterfaceView>,
    records: Seq<crate::ssh_exec::netstat_bin::InterfaceView>,
) -> (Seq<InterfaceView>, Option<Error>)
    decreases records.len(),
{
    if records.len() == 0 {
        (interfaces, None)
    } else {
        let (before, failed) = applied(interfaces, records.drop_last());
        match failed {
            Some(error) => (before, Some(error)),
            None => match owner(names_of(before), records.last().name) {
                None => (before, None),
                Some(i) => match record_applied(before[i], records.last()) {
                    Ok(interface) => (before.update(i, interface), None),
                    Err(error) => (before, Some(error)),
                },
            },
        }
    }
}

/// A failure among the first `n` lines is the failure of all lines.
pub proof fn lemma_applied_failure(
    interfaces: Seq<InterfaceView>,
    records: Seq<crate::ssh_exec::netstat_bin::InterfaceView>,
    n: int,
)
    requires
        0 <= n <= records.len(),
        applied(interfaces, records.take(n)).1 is Some,
    ensures
        applied(interfaces, records) == applied(interfaces, records.take(n)),
    decreases records.len() - n,
{
    if n < records.len() {
        assert(records.take(n + 1).drop_last() =~= records.take(n));
        lemma_applied_failure(interfaces, records, n + 1);
    } else {
        assert(records.take(n) =~= records);
    }
}

/// The lines of the table, as views.
pub open spec fn record_views(records: Seq<crate::ssh_exec::netstat_bin::Interface>) -> Seq<
    crate::ssh_exec::netstat_bin::InterfaceView,
> {
    records.map_values(|record: crate::ssh_exec::netstat_bin::Interface| record@)
}

/// An interface of which nothing is known yet.
pub open spec fn fresh(name: Seq<char>, is_bridge: bool) -> InterfaceView {
    InterfaceView {
        name,
        is_bridge,
        command: command_text(name),
        error: None,
        addresses: Seq::empty(),
        received: CounterPair { previous: 0, current: 0 },
        sent: CounterPair { previous: 0, current: 0 },
    }
}

/// Interfaces of the given names of which nothing is known yet.
pub open spec fn fresh_group(names: Seq<Seq<char>>, is_bridge: bool) -> Seq<InterfaceView> {
    names.map_values(|name: Seq<char>| fresh(name, is_bridge))
}

/// The interface at the start of an update: its addresses are forgotten,
/// and its counters start a new sample at zero.
pub open spec fn restarted(interface: InterfaceView) -> InterfaceView {
    InterfaceView {
        addresses: Seq::empty(),
        received: CounterPair { previous: interface.received.current, current: 0 },
        sent: CounterPair { previous: interface.sent.current, current: 0 },
        ..interface
    }
}

/// What is wrong with the link of the interface at `index`, going by what
/// its command printed: `link_lines` holds the output for each interface,
/// as lines, in the order of the interfaces. An interface for which it
/// holds none has printed nothing.
pub open spec fn link_error(link_lines: Seq<Vec<String>>, index: int) -> Option<Seq<char>> {
    if 0 <= index < link_lines.len() {
        error_of(texts(link_lines[index]@))
    } else {
        None
    }
}

/// The interfaces at the start of an update, before the table is taken in:
/// each has its link looked at anew, its addresses forgotten, and its
/// current sample made the previous one.
pub open spec fn started(interfaces: Seq<InterfaceView>, link_lines: Seq<Vec<String>>) -> Seq<
    InterfaceView,
> {
    Seq::new(
        interfaces.len(),
        |i: int| InterfaceView { error: link_error(link_lines, i), ..restarted(interfaces[i]) },
    )
}

/// Taking in a table changes of no interface the name, the kind, the
/// command, the error or the previous samples; only the addresses and the
/// current samples are its to change.
pub proof fn lemma_applied_keeps(
    interfaces: Seq<InterfaceView>,
    records: Seq<crate::ssh_exec::netstat_bin::InterfaceView>,
)
    ensures
        applied(interfaces, records).0.len() == interfaces.len(),
        forall|i: int|
            0 <= i < interfaces.len() ==> {
                let after = #[trigger] applied(interfaces, records).0[i];
                &&& after.name == interfaces[i].name
                &&& after.is_bridge == interfaces[i].is_bridge
                &&& after.command == interfaces[i].command
                &&& after.error == interfaces[i].error
                &&& after.received.previous == interfaces[i].received.previous
                &&& after.sent.previous == interfaces[i].sent.previous
            },
    decreases records.len(),
{
    if records.len() > 0 {
        let before = applied(interfaces, records.drop_last()).0;
        lemma_applied_keeps(interfaces, records.drop_last());
        lemma_owner_is_a_place(names_of(before), records.last().name);
    }
}

/// Whatever the table holds, and whether or not all of it is taken in, an
/// update leaves each interface its name, makes its current samples the
/// previous ones, and takes its error from what its link command printed.
pub proof fn lemma_update_of_each(
    interfaces: Seq<InterfaceView>,
    link_lines: Seq<Vec<String>>,
    records: Seq<crate::ssh_exec::netstat_bin::InterfaceView>,
)
    ensures
        applied(started(interfaces, link_lines), records).0.len() == interfaces.len(),
        names_of(applied(started(interfaces, link_lines), records).0) == names_of(interfaces),
        forall|i: int|
            0 <= i < interfaces.len() ==> {
                let after = #[trigger] applied(started(interfaces, link_lines), records).0[i];
                &&& after.error == link_error(link_lines, i)
                &&& after.received.previous == interfaces[i].received.current
                &&& after.sent.previous == interfaces[i].sent.current
            },
        records.len() == 0 ==> forall|i: int|
            0 <= i < interfaces.len() ==> {
                let after = #[trigger] applied(started(interfaces, link_lines), records).0[i];
                &&& after.addresses == Seq::<IpAddr>::empty()
                &&& after.received.current == 0
                &&& after.sent.current == 0
            },
{
    lemma_applied_keeps(started(interfaces, link_lines), records);
    assert(names_of(applied(started(interfaces, link_lines), records).0) =~= names_of(interfaces));
}

impl Interface {
    /// An interface of which nothing is known yet.
    pub fn new(name: String, is_bridge: bool) -> (interface: Interface)
        ensures
            interface@ == fresh(name@, is_bridge),
    {
        let ifconfig_exec = Exec::new(name.as_str());
        Interface {
            name,
            is_bridge,
            ifconfig_exec,
            error: None,
            addresses: Vec::new(),
            received: CounterPair::new(),
            sent: CounterPair::new(),
        }
    }

    /// The addresses of the interface, in order.
    pub fn addresses(&self) -> (addresses: Vec<IpAddr>)
        ensures
            addresses@ == self.addresses@,
    {
        self.addresses.clone()
    }

    /// The traffic since the previous sample as two ratios of bytes to the
    /// seconds that have passed, what was received first; scaled by 8 a
    /// ratio is a speed in bits per second. `None` until both counters have
    /// a previous sample.
    pub open spec fn traffic(&self, seconds: u64) -> Option<(Ratio, Ratio)> {
        if self.received.is_cold() || self.sent.is_cold() {
            None
        } else {
            Some(
                (
                    Ratio {
                        numerator: saturating_difference(
                            self.received.current,
                            self.received.previous,
                        ),
                        denominator: seconds,
                    },
                    Ratio {
                        numerator: saturating_difference(self.sent.current, self.sent.previous),
                        denominator: seconds,
                    },
                ),
            )
        }
    }

    /// The speed at which the interface received and sent since the previous
    /// sample, `seconds` ago.
    pub fn speed(&self, seconds: u64) -> (speed: Option<(Ratio, Ratio)>)
        ensures
            speed == self.traffic(seconds),
            self.received.is_cold() || self.sent.is_cold() ==> speed is None,
    {
        match (self.received.delta(), self.sent.delta()) {
            (Some(received), Some(sent)) => Some(
                (
                    Ratio { numerator: received, denominator: seconds },
                    Ratio { numerator: sent, denominator: seconds },
                ),
            ),
            _ => None,
        }
    }

    /// Puts `address` among the addresses, unless it is there already.
    fn insert(&mut self, address: IpAddr)
        requires
            addresses_ordered(old(self).addresses@),
        ensures
            final(self)@ == (InterfaceView {
                addresses: insert_address(old(self).addresses@, address),
                ..old(self)@
            }),
            addresses_ordered(final(self).addresses@),
    {
        let ghost before = self.addresses@;
        let mut at = self.addresses.len();
        while at > 0 && address_before(address, self.addresses[at - 1])
            invariant
                at <= self.addresses.len(),
                self.addresses@ == before,
                *self == *old(self),
                forall|k: int|
                    at <= k < before.len() ==> address_rank(address) < address_rank(
                        #[trigger] before[k],
                    ),
            decreases at,
        {
            at -= 1;
        }
        proof {
            lemma_insert_address_position(before, address, at as int);
        }
        if at > 0 && self.addresses[at - 1] == address {
            return ;
        }
        self.addresses.insert(at, address);
    }

    /// Takes in a line of the table that belongs to the interface. Where the
    /// line cannot be taken in, nothing changes.
    fn apply(&mut self, record: &crate::ssh_exec::netstat_bin::Interface) -> (done: Result<
        (),
        Error,
    >)
        requires
            addresses_ordered(old(self).addresses@),
        ensures
            addresses_ordered(final(self).addresses@),
            match record_applied(old(self)@, record@) {
                Ok(interface) => done is Ok && final(self)@ == interface,
                Err(error) => done == Err::<(), Error>(error) && final(self)@ == old(self)@,
            },
    {
        let network = chars_of(record.network.as_str());
        let link = chars_of("<Link#");
        if matches_at(network.as_slice(), link.as_slice(), 0) {
            let received = match self.received.current.checked_add(record.received_bytes) {
                Some(sum) => sum,
                None => {
                    return Err(Error::CounterOutOfRange);
                },
            };
            let sent = match self.sent.current.checked_add(record.sent_bytes) {
                Some(sum) => sum,
                None => {
                    return Err(Error::CounterOutOfRange);
                },
            };
            self.received.current = received;
            self.sent.current = sent;
            return Ok(());
        }
        let address = chars_of(record.address.as_str());
        let local = chars_of("fe80:");
        if matches_at(address.as_slice(), local.as_slice(), 0) {
            return Ok(());
        }
        match parse_ip(address.as_slice()) {
            Some(address) => {
                self.insert(address);
                Ok(())
            },
            None => Err(Error::InvalidAddress),
        }
    }
}

impl View for Interfaces {
    type V = Seq<InterfaceView>;

    /// The interfaces in the order of their groups, sorted within a group.
    closed spec fn view(&self) -> Seq<InterfaceView> {
        interface_views(self.entries@)
    }
}

impl Interfaces {
    /// The addresses of every interface rise strictly.
    pub closed spec fn wf(&self) -> bool {
        forall|i: int|
            0 <= i < self.entries.len() ==> addresses_ordered(
                (#[trigger] self.entries@[i]).addresses@,
            )
    }

    fn group(entries: &mut Vec<Interface>, names: Vec<String>, is_bridge: bool)
        requires
            forall|i: int|
                0 <= i < old(entries).len() ==> addresses_ordered(
                    (#[trigger] old(entries)@[i]).addresses@,
                ),
        ensures
            interface_views(final(entries)@) == interface_views(old(entries)@) + fresh_group(
                unique_sorted(texts(names@)),
                is_bridge,
            ),
            forall|i: int|
                0 <= i < final(entries).len() ==> addresses_ordered(
                    (#[trigger] final(entries)@[i]).addresses@,
                ),
    {
        let ghost before = interface_views(entries@);
        let sorted = sort_unique(names);
        let ghost wanted = texts(sorted@);
        assert(fresh_group(wanted.take(0), is_bridge) =~= Seq::<InterfaceView>::empty());
        assert(before + fresh_group(wanted.take(0), is_bridge) =~= before);
        for name in it: sorted
            invariant
                texts(it.seq()) == wanted,
                interface_views(entries@) == before + fresh_group(
                    wanted.take(it.index() as int),
                    is_bridge,
                ),
                forall|i: int|
                    0 <= i < entries.len() ==> addresses_ordered(
                        (#[trigger] entries@[i]).addresses@,
                    ),
        {
            let ghost held = entries@;
            let interface = Interface::new(name, is_bridge);
            entries.push(interface);
            proof {
                assert(wanted.take(it.index() + 1) =~= wanted.take(it.index() as int).push(name@));
                assert(fresh_group(wanted.take(it.index() + 1), is_bridge) =~= fresh_group(
                    wanted.take(it.index() as int),
                    is_bridge,
                ).push(fresh(name@, is_bridge)));
                assert(interface_views(entries@) =~= interface_views(held).push(interface@));
            }
        }
        assert(wanted.take(wanted.len() as int) =~= wanted);
    }

    /// The interfaces of the given names: those of gateways, the bridges and
    /// the others. Nothing is known of any of them yet.
    pub fn new(gateways: Vec<String>, bridges: Vec<String>, other: Vec<String>) -> (made:
        Interfaces)
        ensures
            made.wf(),
            made@ == fresh_group(unique_sorted(texts(gateways@)), false) + fresh_group(
                unique_sorted(texts(bridges@)),
                true,
            ) + fresh_group(unique_sorted(texts(other@)), false),
    {
        let mut entries: Vec<Interface> = Vec::new();
        assert(interface_views(entries@) =~= Seq::<InterfaceView>::empty());
        Interfaces::group(&mut entries, gateways, false);
        Interfaces::group(&mut entries, bridges, true);
        Interfaces::group(&mut entries, other, false);
        let made = Interfaces { entries };
        assert(made@ =~= fresh_group(unique_sorted(texts(gateways@)), false) + fresh_group(
            unique_sorted(texts(bridges@)),
            true,
        ) + fresh_group(unique_sorted(texts(other@)), false));
        made
    }

    /// The number of interfaces.
    pub fn len(&self) -> (count: usize)
        ensures
            count == self@.len(),
    {
        self.entries.len()
    }

    /// Every interface, in order.
    pub fn iter(&self) -> (all: Vec<&Interface>)
        ensures
            all.len() == self@.len(),
            forall|i: int| 0 <= i < all.len() ==> (#[trigger] all@[i])@ == self@[i],
    {
        let mut all: Vec<&Interface> = Vec::new();
        let mut i: usize = 0;
        while i < self.entries.len()
            invariant
                i <= self.entries.len(),
                all.len() == i,
                forall|k: int| 0 <= k < i ==> (#[trigger] all@[k])@ == self@[k],
            decreases self.entries.len() - i,
        {
            all.push(&self.entries[i]);
            i += 1;
        }
        all
    }

    /// The name of every interface, in order.
    pub fn names(&self) -> (names: Vec<&str>)
        ensures
            names.len() == self@.len(),
            forall|i: int| 0 <= i < names.len() ==> (#[trigger] names@[i])@ == self@[i].name,
    {
        let mut names: Vec<&str> = Vec::new();
        let mut i: usize = 0;
        while i < self.entries.len()
            invariant
                i <= self.entries.len(),
                names.len() == i,
                forall|k: int| 0 <= k < i ==> (#[trigger] names@[k])@ == self@[k].name,
            decreases self.entries.len() - i,
        {
            names.push(self.entries[i].name.as_str());
            i += 1;
        }
        names
    }

    /// Starts an update: of every interface the link is looked at anew, the
    /// addresses are forgotten, and the counters start a new sample at zero.
    fn start(&mut self, link_lines: &Vec<Vec<String>>)
        ensures
            final(self).wf(),
            final(self)@ == started(old(self)@, link_lines@),
    {
        let ghost before = self@;
        let count = self.entries.len();
        let mut i: usize = 0;
        while i < count
            invariant
                i <= count,
                count == self.entries.len(),
                count == before.len(),
                forall|k: int|
                    0 <= k < i ==> (#[trigger] self@[k]) == started(before, link_lines@)[k],
                forall|k: int| i <= k < count ==> (#[trigger] self@[k]) == before[k],
                forall|k: int|
                    0 <= k < i ==> (#[trigger] self.entries@[k]).addresses@ == Seq::<
                        IpAddr,
                    >::empty(),
            decreases count - i,
        {
            let ghost held = self@;
            let ghost kept = self.entries@;
            let mut interface = self.entries.remove(i);
            interface.addresses = Vec::new();
            interface.received.record(0);
            interface.sent.record(0);
            interface.error = if i < link_lines.len() {
                Exec::error(&link_lines[i])
            } else {
                None
            };
            let ghost made = interface;
            self.entries.insert(i, interface);
            proof {
                assert(self.entries@ =~= kept.update(i as int, made));
                assert(kept[i as int]@ == held[i as int]);
                assert(made@.error == link_error(link_lines@, i as int));
                assert(made@.addresses =~= Seq::<IpAddr>::empty());
                assert(made@ == started(before, link_lines@)[i as int]);
                assert(self@ =~= held.update(i as int, made@));
            }
            i += 1;
        }
        assert(self@ =~= started(before, link_lines@));
    }

    fn find(&self, name: &[char]) -> (found: Option<usize>)
        ensures
            match found {
                Some(i) => owner(names_of(self@), name@) == Some(i as int) && i < self@.len(),
                None => owner(names_of(self@), name@) is None,
            },
    {
        let ghost names = names_of(self@);
        let mut i: usize = 0;
        assert(names.take(0) =~= Seq::<Seq<char>>::empty());
        while i < self.entries.len()
            invariant
                i <= self.entries.len(),
                names == names_of(self@),
                owner(names.take(i as int), name@) is None,
            decreases self.entries.len() - i,
        {
            proof {
                assert(names.take(i + 1).drop_last() =~= names.take(i as int));
                assert(names.take(i + 1).last() == self.entries@[i as int].name@);
            }
            let other = chars_of(self.entries[i].name.as_str());
            if chars_eq(other.as_slice(), name) {
                proof {
                    lemma_owner_found(names, name@, i + 1);
                }
                return Some(i);
            }
            i += 1;
        }
        assert(names.take(self.entries.len() as int) =~= names);
        None
    }

    /// Updates every interface. First each interface has its link looked at
    /// anew, going by what its command printed (`link_lines`, in the order
    /// of the interfaces), its addresses forgotten, and its current sample
    /// made the previous one. Then the table of interfaces is taken in, line
    /// by line: a line for a link adds to the new sample, any other line
    /// gives an address. The first line that cannot be taken in ends the
    /// update with its error; what the lines before it gave stays.
    pub fn update(
        &mut self,
        link_lines: &Vec<Vec<String>>,
        statistics: &Vec<crate::ssh_exec::netstat_bin::Interface>,
    ) -> (done: Result<(), Error>)
        ensures
            final(self).wf(),
            final(self)@ == applied(
                started(old(self)@, link_lines@),
                record_views(statistics@),
            ).0,
            match applied(started(old(self)@, link_lines@), record_views(statistics@)).1 {
                Some(error) => done == Err::<(), Error>(error),
                None => done is Ok,
            },
    {
        self.start(link_lines);
        self.take_in(statistics)
    }

    /// Takes in the table of interfaces, line by line, up to the first line
    /// that cannot be taken in.
    fn take_in(&mut self, statistics: &Vec<crate::ssh_exec::netstat_bin::Interface>) -> (done:
        Result<(), Error>)
        requires
            old(self).wf(),
        ensures
            final(self).wf(),
            final(self)@ == applied(old(self)@, record_views(statistics@)).0,
            match applied(old(self)@, record_views(statistics@)).1 {
                Some(error) => done == Err::<(), Error>(error),
                None => done is Ok,
            },
    {
        let ghost before = self@;
        let ghost records = record_views(statistics@);
        let mut k: usize = 0;
        assert(records.take(0) =~= Seq::<crate::ssh_exec::netstat_bin::InterfaceView>::empty());
        while k < statistics.len()
            invariant
                k <= statistics.len(),
                self.wf(),
                records == record_views(statistics@),
                before == old(self)@,
                applied(before, records.take(k as int)) == (self@, None::<Error>),
            decreases statistics.len() - k,
        {
            proof {
                assert(records.take(k + 1).drop_last() =~= records.take(k as int));
                assert(records.take(k + 1).last() == statistics@[k as int]@);
            }
            let record = &statistics[k];
            let name = chars_of(record.name.as_str());
            match self.find(name.as_slice()) {
                Some(i) => {
                    let ghost held = self@;
                    let mut interface = self.entries.remove(i);
                    let applied = interface.apply(record);
                    let ghost made = interface@;
                    self.entries.insert(i, interface);
                    assert(self@ =~= held.update(i as int, made));
                    match applied {
                        Ok(()) => {},
                        Err(error) => {
                            proof {
                                assert(self@ =~= held);
                                lemma_applied_failure(before, records, k + 1);
                            }
                            return Err(error);
                        },
                    }
                },
                None => {},
            }
            k += 1;
        }
        assert(records.take(statistics.len() as int) =~= records);
        Ok(())
    }
}

} // verus!

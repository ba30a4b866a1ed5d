//! Firewall log events and the grammar of a filter log line.
//!
//! A line is comma-separated text. Its first fifteen characters are the
//! timestamp; the fields are counted over the whole line, from zero:
//!
//! | field | holds |
//! |-------|-------|
//! | 4 | interface, which has to be one of the interesting interfaces |
//! | 5 | reason, which has to be `match` |
//! | 6 | action, `block` or `pass` |
//! | 7 | direction, which has to be `in` |
//! | 8 | IP version, `4` or `6` |
//!
//! The version decides how many fields lie between it and the protocol id,
//! and between the protocol id and the source address. The destination
//! address follows the source address; for TCP and UDP the source port and
//! the destination port follow the destination address.

use vstd::prelude::*;
use vstd::string::StrSliceExecFns;
use crate::net::{
    ipv4_literal, ipv6_literal, parse_ipv4, parse_ipv6, parse_port, port_literal, IpAddr,
    SocketAddr,
};
use crate::text::{chars_eq, chars_of, field, is_text, split, split_bounds, texts};

verus! {

/// Number of characters of a line that make up its timestamp.
pub const TIMESTAMP_LEN: usize = 15;

/// Index of the field that names the interface.
pub const INTERFACE_FIELD: usize = 4;

/// Index of the field that gives the reason for the entry.
pub const REASON_FIELD: usize = 5;

/// Index of the field that names the action.
pub const ACTION_FIELD: usize = 6;

/// Index of the field that gives the direction of the packet.
pub const DIRECTION_FIELD: usize = 7;

/// Index of the field that gives the IP version.
pub const VERSION_FIELD: usize = 8;

/// What the firewall did with a packet.
#[derive(Clone, Copy, Debug, PartialEq, Eq, Structural)]
pub enum Action {
    Block,
    Pass,
}

/// The protocol of a logged packet, with its endpoints.
#[allow(inconsistent_fields)]
#[derive(Clone, Copy, Debug, PartialEq, Eq, Structural)]
pub enum Protocol {
    Icmp { source: IpAddr, destination: IpAddr },
    Tcp { source: SocketAddr, destination: SocketAddr },
    Udp { source: SocketAddr, destination: SocketAddr },
}

/// One accepted firewall log event.
#[derive(Clone, Debug, PartialEq, Eq)]
pub struct Log {
    pub timestamp: String,
    pub interface: String,
    pub action: Action,
    pub protocol: Protocol,
}

/// A log event with its texts as character sequences.
pub struct LogView {
    pub timestamp: Seq<char>,
    pub interface: Seq<char>,
    pub action: Action,
    pub protocol: Protocol,
}

impl View for Log {
    type V = LogView;

    open spec fn view(&self) -> LogView {
        LogView {
            timestamp: self.timestamp@,
            interface: self.interface@,
            action: self.action,
            protocol: self.protocol,
        }
    }
}

/// The interface names whose log lines are of interest. Fixed once made.
pub struct InterfaceSet {
    names: Vec<Vec<char>>,
}

impl View for InterfaceSet {
    type V = Set<Seq<char>>;

    closed spec fn view(&self) -> Set<Seq<char>> {
        Set::new(|name: Seq<char>| exists|i: int| 0 <= i < self.names.len() && self.names[i]@ == name)
    }
}

impl InterfaceSet {
    /// The set of the given names.
    pub fn new(names: &Vec<String>) -> (set: InterfaceSet)
        ensures
            set@ == texts(names@).to_set(),
    {
        let mut held: Vec<Vec<char>> = Vec::new();
        let mut i: usize = 0;
        while i < names.len()
            invariant
                i <= names.len(),
                held.len() == i,
                forall|k: int| 0 <= k < i ==> (#[trigger] held[k])@ == names[k]@,
            decreases names.len() - i,
        {
            held.push(chars_of(names[i].as_str()));
            i += 1;
        }
        let set = InterfaceSet { names: held };
        proof {
            let wanted = texts(names@);
            assert forall|name: Seq<char>| set@.contains(name) == wanted.to_set().contains(
                name,
            ) by {
                if set@.contains(name) {
                    let k = choose|k: int| 0 <= k < held.len() && held[k]@ == name;
                    assert(wanted[k] == name);
                }
                if wanted.contains(name) {
                    let k = choose|k: int| 0 <= k < wanted.len() && wanted[k] == name;
                    assert(held[k]@ == name);
                }
            }
        }
        set
    }

    /// Whether `name` is in the set.
    pub fn contains(&self, name: &[char]) -> (found: bool)
        ensures
            found == self@.contains(name@),
    {
        let mut i: usize = 0;
        while i < self.names.len()
            invariant
                i <= self.names.len(),
                forall|k: int| 0 <= k < i ==> (#[trigger] self.names[k])@ != name@,
            decreases self.names.len() - i,
        {
            if chars_eq(self.names[i].as_slice(), name) {
                return true;
            }
            i += 1;
        }
        false
    }
}

/// The action that `s` names.
pub open spec fn action_literal(s: Seq<char>) -> Option<Action> {
    if s == "block"@ {
        Some(Action::Block)
    } else if s == "pass"@ {
        Some(Action::Pass)
    } else {
        None
    }
}

/// For an IP version, the number of fields between the version and the
/// protocol id, and between the protocol id and the source address.
pub open spec fn skipped_fields(version: Seq<char>) -> Option<(nat, nat)> {
    if version == "4"@ {
        Some((6, 2))
    } else if version == "6"@ {
        Some((4, 1))
    } else {
        None
    }
}

/// The address that `ip` writes in the family that `version` names.
pub open spec fn ip_addr_literal(version: Seq<char>, ip: Seq<char>) -> Option<IpAddr> {
    if version == "4"@ {
        match ipv4_literal(ip) {
            Some(addr) => Some(IpAddr::V4(addr)),
            None => None,
        }
    } else if version == "6"@ {
        match ipv6_literal(ip) {
            Some(addr) => Some(IpAddr::V6(addr)),
            None => None,
        }
    } else {
        None
    }
}

/// The endpoint that `ip` and `port` write in the family that `version` names.
pub open spec fn socket_addr_literal(version: Seq<char>, ip: Seq<char>, port: Seq<char>) -> Option<
    SocketAddr,
> {
    match (ip_addr_literal(version, ip), port_literal(port)) {
        (Some(ip), Some(port)) => Some(SocketAddr { ip, port }),
        _ => None,
    }
}

/// The protocol that the fields of a line write: `id` is the protocol id,
/// `source` and `destination` are the address fields, and `ports` are the two
/// fields after them, source port first, where the line has them.
pub open spec fn protocol_literal(
    version: Seq<char>,
    id: Seq<char>,
    source: Seq<char>,
    destination: Seq<char>,
    ports: Option<(Seq<char>, Seq<char>)>,
) -> Option<Protocol> {
    if id == "1"@ || id == "58"@ {
        match (ip_addr_literal(version, source), ip_addr_literal(version, destination)) {
            (Some(source), Some(destination)) => Some(Protocol::Icmp { source, destination }),
            _ => None,
        }
    } else if id == "6"@ || id == "17"@ {
        match ports {
            Some((source_port, destination_port)) => match (
                socket_addr_literal(version, source, source_port),
                socket_addr_literal(version, destination, destination_port),
            ) {
                (Some(source), Some(destination)) => if id == "6"@ {
                    Some(Protocol::Tcp { source, destination })
                } else {
                    Some(Protocol::Udp { source, destination })
                },
                _ => None,
            },
            None => None,
        }
    } else {
        None
    }
}

/// The two fields after the destination address, where the line has them.
pub open spec fn port_fields(fields: Seq<Seq<char>>, source: int) -> Option<
    (Seq<char>, Seq<char>),
> {
    if fields.len() >= source + 4 {
        Some((fields[source + 2], fields[source + 3]))
    } else {
        None
    }
}

/// The event that `line` writes, or `None` where the line is rejected.
pub open spec fn parse_line(line: Seq<char>, interesting: Set<Seq<char>>) -> Option<LogView> {
    let fields = split(line, ',');
    if line.len() < TIMESTAMP_LEN || fields.len() <= VERSION_FIELD {
        None
    } else if !interesting.contains(fields[INTERFACE_FIELD as int]) {
        None
    } else if fields[REASON_FIELD as int] != "match"@ || fields[DIRECTION_FIELD as int] != "in"@ {
        None
    } else {
        match (
            action_literal(fields[ACTION_FIELD as int]),
            skipped_fields(fields[VERSION_FIELD as int]),
        ) {
            (Some(action), Some(skipped)) => {
                let protocol = VERSION_FIELD + 1 + skipped.0;
                let source = protocol + 1 + skipped.1;
                let found = if fields.len() >= source + 2 {
                    protocol_literal(
                        fields[VERSION_FIELD as int],
                        fields[protocol],
                        fields[source],
                        fields[source + 1],
                        port_fields(fields, source),
                    )
                } else {
                    None
                };
                match found {
                    Some(protocol) => Some(
                        LogView {
                            timestamp: line.take(TIMESTAMP_LEN as int),
                            interface: fields[INTERFACE_FIELD as int],
                            action,
                            protocol,
                        },
                    ),
                    None => None,
                }
            },
            _ => None,
        }
    }
}

impl Action {
    /// Reads the name of an action.
    pub fn from_str(s: &str) -> (action: Result<Action, ()>)
        ensures
            match action {
                Ok(a) => action_literal(s@) == Some(a),
                Err(_) => action_literal(s@) is None,
            },
    {
        let chars = chars_of(s);
        match action_from_chars(chars.as_slice()) {
            Some(action) => Ok(action),
            None => Err(()),
        }
    }

    /// The name of the action, padded to five characters.
    pub fn to_string(&self) -> (name: String)
        ensures
            *self == Action::Block ==> name@ == "block"@,
            *self == Action::Pass ==> name@ == "pass "@,
    {
        match self {
            Action::Block => "block".to_owned(),
            Action::Pass => "pass ".to_owned(),
        }
    }
}

/// Whether `event` is what reading `line` gives: the event that the line
/// writes, or a rejection where it writes none.
pub open spec fn reads_as(event: Result<Log, ()>, line: Seq<char>, interesting: Set<Seq<char>>) -> bool {
    match event {
        Ok(log) => parse_line(line, interesting) == Some(log@),
        Err(_) => parse_line(line, interesting) is None,
    }
}

/// A line about an interface that is not interesting is rejected, whatever
/// else it holds.
pub proof fn lemma_uninteresting_interface_is_rejected(
    line: Seq<char>,
    interesting: Set<Seq<char>>,
)
    requires
        split(line, ',').len() > INTERFACE_FIELD ==> !interesting.contains(
            split(line, ',')[INTERFACE_FIELD as int],
        ),
    ensures
        parse_line(line, interesting) is None,
{
}

/// A line that does not come in is rejected, whatever else it holds.
pub proof fn lemma_other_direction_is_rejected(line: Seq<char>, interesting: Set<Seq<char>>)
    requires
        split(line, ',').len() > DIRECTION_FIELD ==> split(line, ',')[DIRECTION_FIELD as int]
            != "in"@,
    ensures
        parse_line(line, interesting) is None,
{
}

/// Reading is a function of the line and the interesting interfaces alone:
/// two readings of one line against one set either both reject it or both
/// accept it as the same event.
pub proof fn lemma_same_line_same_verdict(
    line: Seq<char>,
    interesting: Set<Seq<char>>,
    first: Result<Log, ()>,
    second: Result<Log, ()>,
)
    requires
        reads_as(first, line, interesting),
        reads_as(second, line, interesting),
    ensures
        first is Ok <==> second is Ok,
        first is Ok ==> first->Ok_0@ == second->Ok_0@,
{
}

fn action_from_chars(chars: &[char]) -> (action: Option<Action>)
    ensures
        action == action_literal(chars@),
{
    if is_text(chars, "block") {
        Some(Action::Block)
    } else if is_text(chars, "pass") {
        Some(Action::Pass)
    } else {
        None
    }
}

/// Reads an address in the family that `ipv4_or_v6` names.
pub fn ip_addr_from_parts(ipv4_or_v6: &[char], ip: &[char]) -> (addr: Option<IpAddr>)
    ensures
        addr == ip_addr_literal(ipv4_or_v6@, ip@),
{
    if is_text(ipv4_or_v6, "4") {
        match parse_ipv4(ip) {
            Some(addr) => Some(IpAddr::V4(addr)),
            None => None,
        }
    } else if is_text(ipv4_or_v6, "6") {
        match parse_ipv6(ip) {
            Some(addr) => Some(IpAddr::V6(addr)),
            None => None,
        }
    } else {
        None
    }
}

/// Reads an endpoint in the family that `ipv4_or_v6` names.
pub fn socket_addr_from_parts(ipv4_or_v6: &[char], ip: &[char], port: &[char]) -> (addr: Option<
    SocketAddr,
>)
    ensures
        addr == socket_addr_literal(ipv4_or_v6@, ip@, port@),
{
    let ip = match ip_addr_from_parts(ipv4_or_v6, ip) {
        Some(ip) => ip,
        None => {
            return None;
        },
    };
    match parse_port(port) {
        Some(port) => Some(SocketAddr { ip, port }),
        None => None,
    }
}

fn protocol_from_fields(
    version: &[char],
    id: &[char],
    source: &[char],
    destination: &[char],
    ports: Option<(&[char], &[char])>,
) -> (found: Option<Protocol>)
    ensures
        found == protocol_literal(
            version@,
            id@,
            source@,
            destination@,
            match ports {
                Some((source_port, destination_port)) => Some((source_port@, destination_port@)),
                None => None,
            },
        ),
{
    if is_text(id, "1") || is_text(id, "58") {
        let source = match ip_addr_from_parts(version, source) {
            Some(addr) => addr,
            None => {
                return None;
            },
        };
        match ip_addr_from_parts(version, destination) {
            Some(destination) => Some(Protocol::Icmp { source, destination }),
            None => None,
        }
    } else {
        let tcp = is_text(id, "6");
        if !tcp && !is_text(id, "17") {
            return None;
        }
        let (source_port, destination_port) = match ports {
            Some(ports) => ports,
            None => {
                return None;
            },
        };
        let source = match socket_addr_from_parts(version, source, source_port) {
            Some(addr) => addr,
            None => {
                return None;
            },
        };
        match socket_addr_from_parts(version, destination, destination_port) {
            Some(destination) => if tcp {
                Some(Protocol::Tcp { source, destination })
            } else {
                Some(Protocol::Udp { source, destination })
            },
            None => None,
        }
    }
}

impl Log {
    /// Reads one line of the filter log. A line that does not follow the
    /// grammar, or that is about an interface outside `interfaces`, is
    /// rejected with `Err`.
    pub fn from_str(s: &str, interfaces: &InterfaceSet) -> (event: Result<Log, ()>)
        ensures
            reads_as(event, s@, interfaces@),
    {
        let owned = chars_of(s);
        let chars = owned.as_slice();
        let bounds = split_bounds(chars, ',');
        if chars.len() < TIMESTAMP_LEN || bounds.len() <= VERSION_FIELD {
            return Err(());
        }
        let interface = field(chars, &bounds, INTERFACE_FIELD);
        if !interfaces.contains(interface) {
            return Err(());
        }
        if !is_text(field(chars, &bounds, REASON_FIELD), "match") || !is_text(
            field(chars, &bounds, DIRECTION_FIELD),
            "in",
        ) {
            return Err(());
        }
        let action = match action_from_chars(field(chars, &bounds, ACTION_FIELD)) {
            Some(action) => action,
            None => {
                return Err(());
            },
        };
        let version = field(chars, &bounds, VERSION_FIELD);
        let (protocol_skip, source_skip): (usize, usize) = if is_text(version, "4") {
            (6, 2)
        } else if is_text(version, "6") {
            (4, 1)
        } else {
            return Err(());
        };
        let protocol_at = VERSION_FIELD + 1 + protocol_skip;
        let source_at = protocol_at + 1 + source_skip;
        if bounds.len() < source_at + 2 {
            return Err(());
        }
        let ports = if bounds.len() >= source_at + 4 {
            Some((field(chars, &bounds, source_at + 2), field(chars, &bounds, source_at + 3)))
        } else {
            None
        };
        let protocol = match protocol_from_fields(
            version,
            field(chars, &bounds, protocol_at),
            field(chars, &bounds, source_at),
            field(chars, &bounds, source_at + 1),
            ports,
        ) {
            Some(protocol) => protocol,
            None => {
                return Err(());
            },
        };
        let (from, to) = bounds[INTERFACE_FIELD];
        assert(bounds@[INTERFACE_FIELD as int].0 <= bounds@[INTERFACE_FIELD as int].1
            <= chars@.len());
        let log = Log {
            timestamp: s.substring_char(0, TIMESTAMP_LEN).to_owned(),
            interface: s.substring_char(from, to).to_owned(),
            action,
            protocol,
        };
        Ok(log)
    }
}

/// Number of events that the window keeps.
pub const CAPACITY: usize = 10;

/// The newest accepted events, at most `CAPACITY` of them, in a ring of
/// slots. `head` is the slot written last; older events follow it, wrapping
/// round at the end of the ring.
#[derive(Debug)]
pub struct Logs {
    inner: Vec<Option<Log>>,
    head: usize,
    len: usize,
}

/// The window after `event` was pushed: the event first, then the events
/// that were there, the oldest dropped where the window was full.
pub open spec fn pushed(window: Seq<LogView>, event: LogView) -> Seq<LogView> {
    if window.len() < CAPACITY {
        seq![event] + window
    } else {
        seq![event] + window.take(CAPACITY - 1)
    }
}

/// The window after each of `events` was pushed, the first of them first.
pub open spec fn pushed_all(window: Seq<LogView>, events: Seq<LogView>) -> Seq<LogView>
    decreases events.len(),
{
    if events.len() == 0 {
        window
    } else {
        pushed(pushed_all(window, events.drop_last()), events.last())
    }
}

/// In a ring of ten places, the place `k` after the place before `head` is
/// the place `k - 1` after `head`, and is not the place before `head`.
pub proof fn lemma_ring_places(head: int, k: int)
    requires
        0 <= head < 10,
        1 <= k < 10,
    ensures
        0 <= (head + 9) % 10 < 10,
        ((head + 9) % 10 + k) % 10 == (head + (k - 1)) % 10,
        ((head + 9) % 10 + k) % 10 != (head + 9) % 10,
        0 <= (head + (k - 1)) % 10 < 10,
{
}

/// The events that references point to, as views.
pub open spec fn views_of(logs: Seq<&Log>) -> Seq<LogView> {
    Seq::new(logs.len(), |i: int| logs[i]@)
}

impl View for Logs {
    type V = Seq<LogView>;

    /// The events in the window, newest first.
    closed spec fn view(&self) -> Seq<LogView> {
        Seq::new(self.len as nat, |k: int| self.slot(k)->0@)
    }
}

impl Logs {
    /// The place in the ring of the slot that was written last.
    pub closed spec fn head(&self) -> int {
        self.head as int
    }

    /// What the slot at the place `at` of the ring holds.
    pub closed spec fn cell(&self, at: int) -> Option<Log> {
        self.inner@[at]
    }

    /// The slot `k` places after `head`, wrapping round.
    pub open spec fn slot(&self, k: int) -> Option<Log> {
        self.cell((self.head() + k) % 10)
    }

    /// The ring has `CAPACITY` slots, and exactly the slots that hold the
    /// events of the window are filled.
    pub closed spec fn wf(&self) -> bool {
        &&& self.inner.len() == CAPACITY
        &&& self.head < CAPACITY
        &&& self.len <= CAPACITY
        &&& forall|k: int| 0 <= k < CAPACITY ==> ((#[trigger] self.slot(k)) is Some <==> k < self.len)
    }

    /// In a window that is well formed the head is a place of the ring, and
    /// the filled slots are the first slots from the head on, as many as the
    /// window has events: each holds the event of its place in the window.
    pub proof fn lemma_filled_slots(&self)
        requires
            self.wf(),
        ensures
            0 <= self.head() < CAPACITY,
            self@.len() <= CAPACITY,
            forall|k: int|
                0 <= k < CAPACITY ==> ((#[trigger] self.slot(k)) is Some <==> k < self@.len()),
            forall|k: int| 0 <= k < self@.len() ==> (#[trigger] self.slot(k))->0@ == self@[k],
    {
    }

    /// An empty window.
    pub fn new() -> (logs: Logs)
        ensures
            logs.wf(),
            logs@ == Seq::<LogView>::empty(),
            logs.head() == 0,
            forall|at: int| 0 <= at < CAPACITY ==> #[trigger] logs.cell(at) is None,
    {
        let mut inner: Vec<Option<Log>> = Vec::new();
        let mut i: usize = 0;
        while i < CAPACITY
            invariant
                i <= CAPACITY,
                inner.len() == i,
                forall|k: int| 0 <= k < i ==> inner@[k] is None,
            decreases CAPACITY - i,
        {
            inner.push(None);
            i += 1;
        }
        let logs = Logs { inner, head: 0, len: 0 };
        assert(logs@ =~= Seq::<LogView>::empty());
        logs
    }

    /// The number of events in the window.
    pub fn len(&self) -> (count: usize)
        requires
            self.wf(),
        ensures
            count == self@.len(),
            count <= CAPACITY,
    {
        self.len
    }

    /// Puts `log` in front of the window. Where the window is full, its oldest
    /// event leaves. The head moves one place back, wrapping round from the
    /// first place to the last; the slot there takes the event, whatever it
    /// held, and no other slot changes.
    pub fn push(&mut self, log: Log)
        requires
            old(self).wf(),
        ensures
            final(self).wf(),
            final(self)@ == pushed(old(self)@, log@),
            final(self).head() == (old(self).head() + CAPACITY - 1) % 10,
            final(self).cell(final(self).head()) == Some(log),
            forall|at: int|
                0 <= at < CAPACITY && at != final(self).head() ==> #[trigger] final(self).cell(at)
                    == old(self).cell(at),
            final(self).slot(0) == Some(log),
            forall|k: int|
                1 <= k < CAPACITY ==> #[trigger] final(self).slot(k) == old(self).slot(k - 1),
    {
        let ghost before = *self;
        let head = (self.head + CAPACITY - 1) % CAPACITY;
        self.head = head;
        self.inner.set(head, Some(log));
        if self.len < CAPACITY {
            self.len = self.len + 1;
        }
        proof {
            let at = head as int;
            assert(at == (before.head() + 9) % 10);
            assert(self.inner@ == before.inner@.update(at, Some(log)));
            assert forall|k: int| 1 <= k < CAPACITY implies #[trigger] self.slot(k) == before.slot(
                k - 1,
            ) by {
                lemma_ring_places(before.head(), k);
            }
            assert(self.slot(0) == Some(log));
            assert forall|k: int| 0 <= k < CAPACITY implies ((#[trigger] self.slot(k)) is Some
                <==> k < self.len) by {
                if k > 0 {
                    assert(self.slot(k) == before.slot(k - 1));
                }
            }
            assert(self@ =~= pushed(before@, log@)) by {
                assert forall|k: int| 1 <= k < self.len implies self@[k] == before@[k - 1] by {
                    assert(self.slot(k) == before.slot(k - 1));
                }
            }
        }
    }

    /// The events in the window, newest first.
    pub fn iter(&self) -> (logs: Vec<&Log>)
        requires
            self.wf(),
        ensures
            views_of(logs@) == self@,
    {
        let mut logs: Vec<&Log> = Vec::new();
        let mut k: usize = 0;
        while k < CAPACITY
            invariant
                self.wf(),
                k <= CAPACITY,
                logs.len() == (if k <= self.len {
                    k
                } else {
                    self.len
                }),
                forall|i: int| 0 <= i < logs.len() ==> (#[trigger] logs@[i])@ == self@[i],
            decreases CAPACITY - k,
        {
            let at = (self.head + k) % CAPACITY;
            assert(self.inner@[at as int] == self.slot(k as int));
            match &self.inner[at] {
                Some(log) => {
                    logs.push(log);
                },
                None => {},
            }
            k += 1;
        }
        logs
    }
}

/// Whatever is pushed into an empty window, in whatever number, the window
/// then holds the newest of it, newest first, and no more than `CAPACITY`
/// events.
pub proof fn lemma_window_holds_newest(events: Seq<LogView>)
    ensures
        pushed_all(Seq::empty(), events) == events.reverse().take(
            if events.len() < CAPACITY {
                events.len() as int
            } else {
                CAPACITY as int
            },
        ),
    decreases events.len(),
{
    if events.len() > 0 {
        let earlier = events.drop_last();
        lemma_window_holds_newest(earlier);
        let window = pushed_all(Seq::empty(), earlier);
        let kept = if events.len() < CAPACITY {
            events.len() as int
        } else {
            CAPACITY as int
        };
        assert forall|i: int| 0 <= i < kept implies pushed(window, events.last())[i]
            == events.reverse()[i] by {
        }
    }
}

} // verus!

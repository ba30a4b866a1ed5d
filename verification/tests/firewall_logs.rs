use pfsense_dashboard::firewall_logs::{
    ip_addr_from_parts, socket_addr_from_parts, Action, InterfaceSet, Log, Logs, Protocol,
};
use pfsense_dashboard::net::{IpAddr, Ipv4Addr, Ipv6Addr, SocketAddr};

fn interesting(names: &[&str]) -> InterfaceSet {
    let names: Vec<String> = names.iter().map(|name| name.to_string()).collect();
    InterfaceSet::new(&names)
}

fn chars(text: &str) -> Vec<char> {
    text.chars().collect()
}

fn v4(a: u8, b: u8, c: u8, d: u8) -> IpAddr {
    IpAddr::V4(Ipv4Addr::new(a, b, c, d))
}

fn endpoint(a: u8, b: u8, c: u8, d: u8, port: u16) -> SocketAddr {
    SocketAddr { ip: v4(a, b, c, d), port }
}

/// A line in which the fields stand where the grammar wants them: interface
/// at 4, version at 8, for IPv4 the protocol id at 15 and the source at 18.
const TCP_LINE: &str =
    "Jan  1 00:00:01,,,,wan,match,block,in,4,,,,,,,6,,,192.0.2.1,203.0.113.1,12345,80";

const REAL_TCP_LINE: &str = "Jan  1 00:00:01 gw filterlog: 5,,,1000000103,wan,match,block,in,4,0x0,,64,0,0,DF,6,tcp,60,192.0.2.1,203.0.113.1,12345,80,0,S,1,,64240,,mss";

#[test]
fn tcp_line_is_accepted() {
    let log = Log::from_str(TCP_LINE, &interesting(&["wan"])).expect("accepted");
    assert_eq!(
        log,
        Log {
            timestamp: "Jan  1 00:00:01".to_string(),
            interface: "wan".to_string(),
            action: Action::Block,
            protocol: Protocol::Tcp {
                source: endpoint(192, 0, 2, 1, 12345),
                destination: endpoint(203, 0, 113, 1, 80),
            },
        }
    );
}

#[test]
fn line_of_a_real_log_is_accepted() {
    let log = Log::from_str(REAL_TCP_LINE, &interesting(&["lan", "wan"])).expect("accepted");
    assert_eq!(log.timestamp, "Jan  1 00:00:01");
    assert_eq!(log.interface, "wan");
    assert_eq!(log.action, Action::Block);
    assert_eq!(
        log.protocol,
        Protocol::Tcp {
            source: endpoint(192, 0, 2, 1, 12345),
            destination: endpoint(203, 0, 113, 1, 80),
        }
    );
}

#[test]
fn interface_one_field_late_is_rejected() {
    // Here `wan` is the sixth field and an empty field separates it from
    // `match`, so the fifth field is empty and is no interesting interface.
    let line = "Jan  1 00:00:01,,,,,wan,,match,block,in,4,,,,,,6,,192.0.2.1,203.0.113.1,12345,80";
    assert!(Log::from_str(line, &interesting(&["wan"])).is_err());
}

#[test]
fn outbound_line_is_rejected() {
    let line = TCP_LINE.replace(",in,", ",out,");
    assert!(Log::from_str(&line, &interesting(&["wan"])).is_err());
    let line = REAL_TCP_LINE.replace(",in,", ",out,");
    assert!(Log::from_str(&line, &interesting(&["wan"])).is_err());
}

#[test]
fn uninteresting_interface_is_rejected() {
    assert!(Log::from_str(TCP_LINE, &interesting(&["lan"])).is_err());
    assert!(Log::from_str(TCP_LINE, &interesting(&[])).is_err());
    assert!(Log::from_str(TCP_LINE, &interesting(&["wa", "wan0", "WAN"])).is_err());
}

#[test]
fn reading_twice_gives_the_same() {
    let set = interesting(&["wan"]);
    assert_eq!(Log::from_str(TCP_LINE, &set), Log::from_str(TCP_LINE, &set));
    let rejected = TCP_LINE.replace("match", "nomatch");
    assert_eq!(Log::from_str(&rejected, &set), Err(()));
    assert_eq!(Log::from_str(&rejected, &set), Err(()));
}

#[test]
fn short_line_is_rejected() {
    let set = interesting(&[""]);
    // Fifteen characters make a timestamp, fourteen do not.
    assert!(Log::from_str("abcdefghijklmn,,,,,match,pass,in,4,,,,,,,1,,,1.2.3.4,5.6.7.8", &set).is_ok());
    assert!(Log::from_str(",,,,,match,pass,in,4,,,,,,,1,,,1.2.3.4,5.6.7.8", &set).is_ok());
    assert!(Log::from_str(",,,,,,,,,,,,", &set).is_err());
    assert!(Log::from_str("", &set).is_err());
}

#[test]
fn timestamp_is_counted_in_characters() {
    let line = "ÄÖÜäöüßÄÖÜäöüßé x,,,,wan,match,pass,in,4,,,,,,,17,,,10.0.0.1,10.0.0.2,53,5353";
    let log = Log::from_str(line, &interesting(&["wan"])).expect("accepted");
    assert_eq!(log.timestamp, "ÄÖÜäöüßÄÖÜäöüßé");
    assert_eq!(log.action, Action::Pass);
    assert_eq!(
        log.protocol,
        Protocol::Udp { source: endpoint(10, 0, 0, 1, 53), destination: endpoint(10, 0, 0, 2, 5353) }
    );
}

#[test]
fn reason_and_action_have_to_be_known() {
    let set = interesting(&["wan"]);
    assert!(Log::from_str(&TCP_LINE.replace(",match,", ",Match,"), &set).is_err());
    assert!(Log::from_str(&TCP_LINE.replace(",block,", ",reject,"), &set).is_err());
    assert!(Log::from_str(&TCP_LINE.replace(",block,", ",pass ,"), &set).is_err());
    let passed = Log::from_str(&TCP_LINE.replace(",block,", ",pass,"), &set).expect("accepted");
    assert_eq!(passed.action, Action::Pass);
}

#[test]
fn version_has_to_be_four_or_six() {
    let set = interesting(&["wan"]);
    assert!(Log::from_str(&TCP_LINE.replace(",in,4,", ",in,5,"), &set).is_err());
    assert!(Log::from_str(&TCP_LINE.replace(",in,4,", ",in,,"), &set).is_err());
    // An IPv4 address is no IPv6 address.
    assert!(Log::from_str(&TCP_LINE.replace(",in,4,", ",in,6,"), &set).is_err());
}

#[test]
fn ipv6_line_is_accepted() {
    let line = "Jan  1 00:00:01 gw filterlog: 5,,,1000000105,wan,match,pass,in,6,0x00,0x00000,64,tcp,6,40,2001:db8::1,2001:db8::2,443,50000,0,S";
    let log = Log::from_str(line, &interesting(&["wan"])).expect("accepted");
    let source = Ipv6Addr::new([0x2001, 0xdb8, 0, 0, 0, 0, 0, 1]);
    let destination = Ipv6Addr::new([0x2001, 0xdb8, 0, 0, 0, 0, 0, 2]);
    assert_eq!(
        log.protocol,
        Protocol::Tcp {
            source: SocketAddr { ip: IpAddr::V6(source), port: 443 },
            destination: SocketAddr { ip: IpAddr::V6(destination), port: 50000 },
        }
    );
}

#[test]
fn icmp_line_needs_no_ports() {
    let set = interesting(&["wan"]);
    let line = "Jan  1 00:00:01,,,,wan,match,block,in,4,,,,,,,1,,,192.0.2.1,203.0.113.1";
    let log = Log::from_str(line, &set).expect("accepted");
    assert_eq!(
        log.protocol,
        Protocol::Icmp { source: v4(192, 0, 2, 1), destination: v4(203, 0, 113, 1) }
    );
    let line = "Jan  1 00:00:01,,,,wan,match,block,in,6,,,,,58,,fe80::1,ff02::1";
    let log = Log::from_str(line, &set).expect("accepted");
    assert_eq!(
        log.protocol,
        Protocol::Icmp {
            source: IpAddr::V6(Ipv6Addr::new([0xfe80, 0, 0, 0, 0, 0, 0, 1])),
            destination: IpAddr::V6(Ipv6Addr::new([0xff02, 0, 0, 0, 0, 0, 0, 1])),
        }
    );
    // The destination address has to be there.
    assert!(Log::from_str("Jan  1 00:00:01,,,,wan,match,block,in,4,,,,,,,1,,,192.0.2.1", &set).is_err());
}

#[test]
fn udp_line_is_accepted() {
    let line = TCP_LINE.replace(",6,,,192", ",17,,,192");
    let log = Log::from_str(&line, &interesting(&["wan"])).expect("accepted");
    assert_eq!(
        log.protocol,
        Protocol::Udp {
            source: endpoint(192, 0, 2, 1, 12345),
            destination: endpoint(203, 0, 113, 1, 80),
        }
    );
}

#[test]
fn unknown_protocol_is_rejected() {
    let set = interesting(&["wan"]);
    assert!(Log::from_str(&TCP_LINE.replace(",6,,,192", ",2,,,192"), &set).is_err());
    assert!(Log::from_str(&TCP_LINE.replace(",6,,,192", ",tcp,,,192"), &set).is_err());
    assert!(Log::from_str(&TCP_LINE.replace(",6,,,192", ",,,,192"), &set).is_err());
}

#[test]
fn bad_address_or_port_rejects_the_line() {
    let set = interesting(&["wan"]);
    assert!(Log::from_str(&TCP_LINE.replace("192.0.2.1", "192.0.2.256"), &set).is_err());
    assert!(Log::from_str(&TCP_LINE.replace("203.0.113.1", "203.0.113"), &set).is_err());
    assert!(Log::from_str(&TCP_LINE.replace(",12345,", ",65536,"), &set).is_err());
    assert!(Log::from_str(&TCP_LINE.replace(",12345,", ",,"), &set).is_err());
    assert!(Log::from_str(&TCP_LINE.replace(",80", ",http"), &set).is_err());
    assert!(Log::from_str(&TCP_LINE.replace(",12345,80", ",12345"), &set).is_err());
    assert!(Log::from_str(&TCP_LINE.replace(",12345,80", ""), &set).is_err());
    assert!(Log::from_str(&TCP_LINE.replace(",12345,", ",65535,"), &set).is_ok());
}

#[test]
fn action_names() {
    assert_eq!(Action::from_str("block"), Ok(Action::Block));
    assert_eq!(Action::from_str("pass"), Ok(Action::Pass));
    assert_eq!(Action::from_str("Block"), Err(()));
    assert_eq!(Action::from_str(""), Err(()));
    assert_eq!(Action::Block.to_string(), "block");
    assert_eq!(Action::Pass.to_string(), "pass ");
}

#[test]
fn address_from_parts() {
    assert_eq!(ip_addr_from_parts(&chars("4"), &chars("10.1.2.3")), Some(v4(10, 1, 2, 3)));
    assert_eq!(ip_addr_from_parts(&chars("6"), &chars("10.1.2.3")), None);
    assert_eq!(ip_addr_from_parts(&chars("4"), &chars("::1")), None);
    assert_eq!(
        ip_addr_from_parts(&chars("6"), &chars("::1")),
        Some(IpAddr::V6(Ipv6Addr::new([0, 0, 0, 0, 0, 0, 0, 1])))
    );
    assert_eq!(ip_addr_from_parts(&chars("5"), &chars("10.1.2.3")), None);
    assert_eq!(
        socket_addr_from_parts(&chars("4"), &chars("10.1.2.3"), &chars("22")),
        Some(endpoint(10, 1, 2, 3, 22))
    );
    assert_eq!(socket_addr_from_parts(&chars("4"), &chars("10.1.2.3"), &chars("-1")), None);
}

fn event(port: u16) -> Log {
    Log {
        timestamp: "Jan  1 00:00:01".to_string(),
        interface: "wan".to_string(),
        action: Action::Block,
        protocol: Protocol::Udp {
            source: endpoint(192, 0, 2, 1, port),
            destination: endpoint(203, 0, 113, 1, 53),
        },
    }
}

fn ports(logs: &Logs) -> Vec<u16> {
    logs.iter()
        .into_iter()
        .map(|log| match log.protocol {
            Protocol::Udp { source, .. } => source.port,
            _ => panic!("not udp"),
        })
        .collect()
}

#[test]
fn window_keeps_newest_ten() {
    let mut logs = Logs::new();
    for port in 1..=12u16 {
        logs.push(event(port));
    }
    assert_eq!(ports(&logs), vec![12, 11, 10, 9, 8, 7, 6, 5, 4, 3]);
}

#[test]
fn window_grows_up_to_its_capacity() {
    let mut logs = Logs::new();
    assert!(logs.iter().is_empty());
    assert_eq!(logs.len(), 0);
    logs.push(event(1));
    assert_eq!(ports(&logs), vec![1]);
    assert_eq!(logs.len(), 1);
    logs.push(event(2));
    assert_eq!(ports(&logs), vec![2, 1]);
    for port in 3..=10u16 {
        logs.push(event(port));
    }
    assert_eq!(ports(&logs), vec![10, 9, 8, 7, 6, 5, 4, 3, 2, 1]);
    logs.push(event(11));
    assert_eq!(ports(&logs), vec![11, 10, 9, 8, 7, 6, 5, 4, 3, 2]);
    for port in 12..=40u16 {
        logs.push(event(port));
    }
    assert_eq!(ports(&logs), vec![40, 39, 38, 37, 36, 35, 34, 33, 32, 31]);
    assert_eq!(logs.len(), 10);
}

use pfsense_dashboard::config::{CustomService, Services};
use pfsense_dashboard::disk::Disk;
use pfsense_dashboard::error::Error;
use pfsense_dashboard::gateway::{Gateway, Gateways};
use pfsense_dashboard::get_color_for_up_down;
use pfsense_dashboard::pfconfig;
use pfsense_dashboard::service::Service;
use pfsense_dashboard::ssh_exec::{self, dpinger, pfctl_s_info, pgrep, smartctl_a, smartctl_i};
use pfsense_dashboard::version_info::{first_line_of, VersionInfo};

fn strings(names: &[&str]) -> Vec<String> {
    names.iter().map(|name| name.to_string()).collect()
}

#[test]
fn colour_for_up_and_down() {
    assert_eq!(get_color_for_up_down(true), "1;32");
    assert_eq!(get_color_for_up_down(false), "0;31");
}

#[test]
fn services_of_all_kinds_are_sorted() {
    let services = Services {
        builtin: strings(&["unbound", "dhcpd", "syslogd"]),
        custom: vec![
            CustomService {
                name: "nginx".to_string(),
                executable: "/usr/local/sbin/nginx".to_string(),
                pidfile: Some("/var/run/nginx.pid".to_string()),
            },
            CustomService { name: "dhcpd".to_string(), executable: "dhcpd6".to_string(), pidfile: None },
        ],
    };
    let packages = vec![
        pfconfig::Service { name: "avahi".to_string(), executable: "avahi-daemon".to_string() },
        pfconfig::Service { name: "dhcpd".to_string(), executable: "other".to_string() },
    ];
    let all = Service::get_all(Some(services), packages).expect("known services");
    let seen: Vec<(&str, &str)> = all.iter().map(|service| (service.name.as_str(), service.command())).collect();
    assert_eq!(
        seen,
        vec![
            ("avahi", "/bin/pgrep -x 'avahi-daemon' >/dev/null 2>/dev/null; echo $?"),
            ("dhcpd", "/bin/pgrep -x 'dhcpd' >/dev/null 2>/dev/null; echo $?"),
            ("dhcpd", "/bin/pgrep -x 'dhcpd6' >/dev/null 2>/dev/null; echo $?"),
            ("dhcpd", "/bin/pgrep -x 'other' >/dev/null 2>/dev/null; echo $?"),
            ("nginx", "/bin/pgrep -F '/var/run/nginx.pid' -x '/usr/local/sbin/nginx' >/dev/null 2>/dev/null; echo $?"),
            ("syslogd", "/bin/pgrep -F '/var/run/syslog.pid' -x 'syslogd' >/dev/null 2>/dev/null; echo $?"),
            ("unbound", "/bin/pgrep -F '/var/run/unbound.pid' -x 'unbound' >/dev/null 2>/dev/null; echo $?"),
        ]
    );
    assert!(all.iter().all(|service| !service.is_running));
}

#[test]
fn every_builtin_service_is_known() {
    let services = Services {
        builtin: strings(&["dhcpd", "ntpd", "radvd", "sshd", "syslogd", "unbound"]),
        custom: Vec::new(),
    };
    let all = Service::get_all(Some(services), Vec::new()).expect("known services");
    let commands: Vec<&str> = all.iter().map(|service| service.command()).collect();
    assert_eq!(
        commands,
        vec![
            "/bin/pgrep -x 'dhcpd' >/dev/null 2>/dev/null; echo $?",
            "/bin/pgrep -F '/var/run/ntpd.pid' -x 'ntpd' >/dev/null 2>/dev/null; echo $?",
            "/bin/pgrep -F '/var/run/radvd.pid' -x 'radvd' >/dev/null 2>/dev/null; echo $?",
            "/bin/pgrep -F '/var/run/sshd.pid' -x 'sshd' >/dev/null 2>/dev/null; echo $?",
            "/bin/pgrep -F '/var/run/syslog.pid' -x 'syslogd' >/dev/null 2>/dev/null; echo $?",
            "/bin/pgrep -F '/var/run/unbound.pid' -x 'unbound' >/dev/null 2>/dev/null; echo $?",
        ]
    );
}

#[test]
fn unknown_builtin_service_is_an_error() {
    let services = Services { builtin: strings(&["sshd", "httpd", "ftpd"]), custom: Vec::new() };
    let error = Service::get_all(Some(services), Vec::new()).expect_err("unknown service");
    assert_eq!(error, Error::UnknownBuiltinService("httpd".to_string()));
    assert_eq!(error.message(), "\"httpd\" is not recognized as a built-in service");
}

#[test]
fn no_configured_services() {
    assert!(Service::get_all(None, Vec::new()).expect("no services").is_empty());
    let packages = vec![pfconfig::Service { name: "b".to_string(), executable: "b".to_string() }];
    assert_eq!(Service::get_all(None, packages).expect("one service").len(), 1);
}

#[test]
fn sorting_keeps_the_order_of_equal_names() {
    let packages: Vec<pfconfig::Service> = ["b", "a", "c", "ab", "", "B", "a", "é", "aa"]
        .iter()
        .enumerate()
        .map(|(i, name)| pfconfig::Service { name: name.to_string(), executable: i.to_string() })
        .collect();
    let all = Service::get_all(None, packages).expect("services");
    let names: Vec<&str> = all.iter().map(|service| service.name.as_str()).collect();
    assert_eq!(names, vec!["", "B", "a", "a", "aa", "ab", "b", "c", "é"]);
    assert!(all[2].command().contains("'1'"));
    assert!(all[3].command().contains("'6'"));
}

#[test]
fn service_is_updated() {
    let mut service = Service::new("sshd".to_string(), "sshd", None);
    service.update("0");
    assert!(service.is_running);
    service.update("1");
    assert!(!service.is_running);
    service.update("");
    assert!(!service.is_running);
    service.update("0 ");
    assert!(!service.is_running);
    assert!(pgrep::Exec::is_running("0"));
    assert!(!pgrep::Exec::is_running("00"));
    assert_eq!(
        pgrep::Exec::new("x", Some("y")).command(),
        "/bin/pgrep -F 'y' -x 'x' >/dev/null 2>/dev/null; echo $?"
    );
}

fn gateways(names: &[&str]) -> Gateways {
    Gateways::new(
        names
            .iter()
            .map(|name| pfconfig::Gateway { name: name.to_string(), interface: "igb0".to_string() })
            .collect(),
    )
}

#[test]
fn gateways_are_sorted_and_unknown_at_first() {
    let all = gateways(&["WAN_DHCP6", "WAN_DHCP", "WAN_DHCP6"]);
    assert_eq!(all.iter(), vec![("WAN_DHCP", None), ("WAN_DHCP6", None)]);
    assert!(gateways(&[]).iter().is_empty());
}

#[test]
fn gateways_take_in_their_reports() {
    let mut all = gateways(&["b", "a", "c"]);
    let lines = strings(&["c 100 20 3", "zzz 1 1 1", "a 350 40 0 extra", "c 200 30 5"]);
    assert_eq!(all.update(&lines), Ok(()));
    assert_eq!(
        all.iter(),
        vec![
            ("a", Some(Gateway { latency_average: 350, latency_stddev: 40, ping_packet_loss: 0 })),
            ("b", None),
            ("c", Some(Gateway { latency_average: 200, latency_stddev: 30, ping_packet_loss: 5 })),
        ]
    );
    assert_eq!(all.update(&strings(&["b 1 2 3"])), Ok(()));
    assert_eq!(
        all.iter(),
        vec![
            ("a", None),
            ("b", Some(Gateway { latency_average: 1, latency_stddev: 2, ping_packet_loss: 3 })),
            ("c", None),
        ]
    );
    let malformed = Error::StructuredDecode("dpinger output is malformed".to_string());
    let lines = strings(&["a 1 2 3", "a 4 5 6", "c 1 2", "c 7 8 9"]);
    assert_eq!(all.update(&lines), Err(malformed.clone()));
    assert_eq!(
        all.iter(),
        vec![
            ("a", Some(Gateway { latency_average: 4, latency_stddev: 5, ping_packet_loss: 6 })),
            ("b", None),
            ("c", None),
        ]
    );
    assert_eq!(all.update(&strings(&["a 1 x 3", "b 1 2 3"])), Err(malformed));
    assert_eq!(all.iter(), vec![("a", None), ("b", None), ("c", None)]);
    assert_eq!(all.update(&strings(&["c 7 8 9"])), Ok(()));
    assert_eq!(all.update(&Vec::new()), Ok(()));
    assert_eq!(all.iter(), vec![("a", None), ("b", None), ("c", None)]);
}

#[test]
fn report_of_a_monitor() {
    let report = dpinger::get_statistics("WAN_DHCP 1234 567 8").expect("report");
    assert_eq!(report.name, "WAN_DHCP");
    assert_eq!(report.latency_average, 1234);
    assert_eq!(report.latency_stddev, 567);
    assert_eq!(report.ping_packet_loss, 8);
    let report = dpinger::get_statistics(" 18446744073709551615 +1 00").expect("report");
    assert_eq!(report.name, "");
    assert_eq!(report.latency_average, u64::MAX);
    assert_eq!(report.latency_stddev, 1);
    assert_eq!(report.ping_packet_loss, 0);
    for line in ["", "a", "a 1 2", "a  1 2 3", "a 1 2 3.0", "a 18446744073709551616 2 3", "a -1 2 3", "a 1 2 "] {
        assert!(dpinger::get_statistics(line).is_err(), "{:?}", line);
    }
}

#[test]
fn disks_are_named_and_sorted() {
    assert_eq!(Disk::names("ada1 ada0  da0 "), vec!["ada1", "ada0", "da0"]);
    assert_eq!(Disk::names(""), Vec::<String>::new());
    assert_eq!(Disk::names("   "), Vec::<String>::new());
    assert_eq!(Disk::names("ada0\tda0"), vec!["ada0\tda0"]);
    let mut disks = Disk::get_all(vec![
        ("da0".to_string(), "S2".to_string()),
        ("ada0".to_string(), "S1".to_string()),
    ]);
    assert_eq!(disks[0].name, "ada0");
    assert_eq!(disks[0].serial_number, "S1");
    assert_eq!(disks[0].smart_status_exec.command(), "/usr/local/sbin/smartctl -a --json=c '/dev/ada0'");
    assert_eq!(disks[1].name, "da0");
    assert!(!disks[1].smart_passed);
    disks[1].update(true, 41);
    assert!(disks[1].smart_passed);
    assert_eq!(disks[1].temperature, 41);
    assert_eq!(disks[1].serial_number, "S2");
    assert_eq!(smartctl_a::Exec::new("x").command(), "/usr/local/sbin/smartctl -a --json=c '/dev/x'");
    assert_eq!(smartctl_i::command("ada0"), "/usr/local/sbin/smartctl -i --json=c '/dev/ada0'");
}

#[test]
fn state_table_size_is_found() {
    let lines = strings(&[
        "Status: Enabled for 3 days 01:02:03           Debug: Urgent",
        "State Table                          Total             Rate",
        "  current entries                      421               ",
        "  current entries                      999               ",
    ]);
    assert_eq!(pfctl_s_info::get_states_used(&lines), Ok("421".to_string()));
    assert_eq!(
        pfctl_s_info::get_states_used(&strings(&["State Table", "  searches  1"])),
        Err(Error::StructuredDecode("could not read state table size".to_string()))
    );
    assert_eq!(pfctl_s_info::command(), "/sbin/pfctl -s info");
}

#[test]
fn commands_of_the_router() {
    assert_eq!(ssh_exec::clog_filter_log(), "/usr/local/sbin/clog -f /var/log/filter.log");
    assert_eq!(ssh_exec::df(), "/bin/df -kt ufs --libxo json");
    assert_eq!(ssh_exec::netstat_m(), "/usr/bin/netstat -m --libxo json");
    assert_eq!(ssh_exec::netstat_bin::command(), "/usr/bin/netstat -bin --libxo json");
    assert_eq!(ssh_exec::sysctl_an(), "/sbin/sysctl -aN");
    assert_eq!(ssh_exec::sysctl_kern_disks(), "/sbin/sysctl -n kern.disks");
    assert_eq!(ssh_exec::uname_m(), "/usr/bin/uname -m");
    assert_eq!(ssh_exec::uname_sr(), "/usr/bin/uname -sr");
    assert_eq!(
        dpinger::command(),
        "for f in /var/run/dpinger_*.sock; do /usr/bin/nc -U \"$f\" 2>/dev/null || :; done"
    );
    assert_eq!(ssh_exec::exec_line(&strings(&["a", "b"])), "a");
    assert_eq!(ssh_exec::exec_line(&Vec::new()), "");
}

#[test]
fn version_is_read_from_first_lines() {
    assert_eq!(first_line_of("2.4.5-RELEASE\n"), "2.4.5-RELEASE");
    assert_eq!(first_line_of("a\nb\nc"), "a");
    assert_eq!(first_line_of("no line feed"), "no line feed");
    assert_eq!(first_line_of("\nsecond"), "");
    assert_eq!(first_line_of(""), "");
    let info = VersionInfo::get("2.4.5-RELEASE\n", "1\n", "amd64".to_string(), "Tue Jun 02\nx", "FreeBSD 11.3".to_string());
    assert_eq!(info.version, "2.4.5-RELEASE");
    assert_eq!(info.version_patch, "1");
    assert_eq!(info.os_release_date, "Tue Jun 02");
    assert_eq!(info.title(), "2.4.5-RELEASE-p1 (amd64)");
    let info = VersionInfo::get("2.4.5-RELEASE", "0", "amd64".to_string(), "", String::new());
    assert_eq!(info.title(), "2.4.5-RELEASE (amd64)");
}

#[test]
fn messages_of_errors() {
    assert_eq!(Error::CorruptBinaryStream.message(), "binary stream is corrupt");
    assert_eq!(Error::CounterOutOfRange.message(), "counters are out of range");
    assert_eq!(Error::InvalidAddress.message(), "invalid IP address syntax");
    assert_eq!(Error::ClockWentBack.message(), "system started after the present");
    assert_eq!(Error::Connection("refused".to_string()).message(), "refused");
    assert_eq!(Error::StructuredDecode("bad".to_string()).message(), "bad");
    assert_eq!(Error::Configuration("worse".to_string()).message(), "worse");
    assert!(Error::Connection(String::new()).is_connection());
    assert!(!Error::CorruptBinaryStream.is_connection());
}

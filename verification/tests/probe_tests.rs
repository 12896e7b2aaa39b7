use pizdos_scanner::init::ConfigPingType;
use pizdos_scanner::ipv4::Ipv4Net;
use pizdos_scanner::matrix::{cell_kind, first_alive_octet, matrix_base, matrix_summary, parse_octet, CellKind};
use pizdos_scanner::probe::{tcp_ports_with_443, HostProbe, HostProbeResult, ProbeAction, ProbeEvent, ProbeStage};
use pizdos_scanner::subnet_probe::{aggregate_subnet, subnet_host_addresses};
use pizdos_scanner::tcp_ping::{
    clamp_to_timeout, endpoint_lookup, has_char, normalize_sni_host, sni_probe_url, tcp_probe_status, TcpProbeStatus,
};
use pizdos_scanner::utils::HostProbeRecord;

#[test]
fn probe_statuses() {
    assert_eq!(tcp_probe_status(true, 5_000_000_000, 2_000_000_000), TcpProbeStatus::Open);
    assert_eq!(tcp_probe_status(false, 1_999_999_999, 2_000_000_000), TcpProbeStatus::Rejected);
    assert_eq!(tcp_probe_status(false, 2_000_000_000, 2_000_000_000), TcpProbeStatus::Timeout);
    assert!(TcpProbeStatus::Open.is_alive());
    assert!(TcpProbeStatus::Rejected.is_alive());
    assert!(!TcpProbeStatus::Timeout.is_alive());
    assert_eq!(clamp_to_timeout(3_000, 2_000), 2_000);
    assert_eq!(clamp_to_timeout(1_500, 2_000), 1_500);
}

#[test]
fn sni_hosts_and_urls() {
    assert_eq!(normalize_sni_host("  https://example.com:8443/path "), "example.com");
    assert_eq!(normalize_sni_host("http://a.b"), "a.b");
    assert_eq!(normalize_sni_host("https://https://x.org/"), "x.org");
    assert_eq!(normalize_sni_host("plain.host"), "plain.host");
    assert_eq!(sni_probe_url("example.com", 443), "https://example.com/");
    assert_eq!(sni_probe_url("https://example.com/x", 8443), "https://example.com:8443/");
}

#[test]
fn endpoint_lookup_texts() {
    assert_eq!(endpoint_lookup("ya.ru"), "ya.ru:80");
    assert_eq!(endpoint_lookup("ya.ru:443"), "ya.ru:443");
    assert!(has_char("a:b", ':'));
    assert!(!has_char("ab", ':'));
}

#[test]
fn probed_ports_always_include_443() {
    assert_eq!(tcp_ports_with_443(&[80, 8443, 80]), vec![80, 443, 8443]);
    assert_eq!(tcp_ports_with_443(&[]), vec![443]);
    assert_eq!(tcp_ports_with_443(&[443, 22]), vec![22, 443]);
}

fn run(mut m: HostProbe, pings: &[bool], conns: &[TcpProbeStatus]) -> (Vec<ProbeAction>, HostProbeResult) {
    let mut actions = vec![m.action()];
    let (mut pi, mut ci) = (0, 0);
    loop {
        let a = m.action();
        let e = match a {
            ProbeAction::Ping => {
                pi += 1;
                ProbeEvent::PingReply(pings[pi - 1])
            }
            ProbeAction::Pause => ProbeEvent::Paused,
            ProbeAction::Connect(_) => {
                ci += 1;
                ProbeEvent::Connected(conns[ci - 1])
            }
            ProbeAction::Done => break,
        };
        actions.push(m.step(e));
    }
    (actions, m.into_result())
}

#[test]
fn host_probe_echo_then_tcp() {
    let m = HostProbe::start(2, &vec![ConfigPingType::ICMP, ConfigPingType::TCP], &[80]);
    assert_eq!(m.ports, vec![80, 443]);
    let (actions, r) = run(m, &[false, true], &[TcpProbeStatus::Timeout, TcpProbeStatus::Rejected]);
    assert_eq!(
        actions,
        vec![
            ProbeAction::Ping,
            ProbeAction::Pause,
            ProbeAction::Ping,
            ProbeAction::Connect(80),
            ProbeAction::Connect(443),
            ProbeAction::Done
        ]
    );
    assert!(r.icmp);
    assert_eq!(r.tcp_ports, vec![443]);
    assert_eq!(r.tcp_rejected_ports, vec![443]);
    assert!(r.tcp_alive());
}

#[test]
fn host_probe_retries_a_dead_round() {
    let m = HostProbe::start(2, &vec![ConfigPingType::TCP], &[]);
    let (actions, r) = run(m, &[], &[TcpProbeStatus::Timeout, TcpProbeStatus::Open]);
    assert_eq!(actions, vec![ProbeAction::Connect(443), ProbeAction::Connect(443), ProbeAction::Done]);
    assert!(!r.icmp);
    assert_eq!(r.tcp_ports, vec![443]);
    assert!(r.tcp_rejected_ports.is_empty());
}

#[test]
fn host_probe_gives_up_after_all_attempts() {
    let m = HostProbe::start(2, &vec![ConfigPingType::ICMP], &[]);
    let (actions, r) = run(m, &[false, false], &[]);
    assert_eq!(actions, vec![ProbeAction::Ping, ProbeAction::Pause, ProbeAction::Ping, ProbeAction::Pause, ProbeAction::Done]);
    assert!(!r.icmp && !r.tcp_alive());
}

#[test]
fn host_probe_without_attempts_does_nothing() {
    let m = HostProbe::start(0, &vec![ConfigPingType::ICMP, ConfigPingType::TCP], &[80]);
    assert_eq!(m.action(), ProbeAction::Done);
    assert_eq!(m.stage, ProbeStage::Finished);
}

#[test]
fn host_probe_ignores_unrelated_events() {
    let mut m = HostProbe::start(1, &vec![ConfigPingType::ICMP], &[]);
    assert_eq!(m.step(ProbeEvent::Paused), ProbeAction::Ping);
    assert_eq!(m.step(ProbeEvent::Connected(TcpProbeStatus::Open)), ProbeAction::Ping);
    assert_eq!(m.step(ProbeEvent::PingReply(true)), ProbeAction::Done);
}

#[test]
fn hosts_of_a_subnet() {
    let hosts = subnet_host_addresses(Ipv4Net { addr: u32::from_be_bytes([10, 0, 0, 0]), prefix: 24 });
    assert_eq!(hosts.len(), 254);
    assert_eq!(hosts[0], u32::from_be_bytes([10, 0, 0, 1]));
    assert_eq!(hosts[253], u32::from_be_bytes([10, 0, 0, 254]));
    let small = subnet_host_addresses(Ipv4Net { addr: u32::from_be_bytes([10, 0, 0, 254]), prefix: 31 });
    assert_eq!(small, vec![u32::from_be_bytes([10, 0, 0, 254])]);
    let none = subnet_host_addresses(Ipv4Net { addr: u32::from_be_bytes([10, 0, 0, 0]), prefix: 32 });
    assert!(none.is_empty());
}

fn record(octet: u8, icmp: bool, ports: &[u16], rejected: &[u16]) -> HostProbeRecord {
    HostProbeRecord { octet, icmp, tcp_ports: ports.to_vec(), tcp_rejected_ports: rejected.to_vec(), tcp_alive: !ports.is_empty() }
}

#[test]
fn records_from_probes() {
    let p = HostProbeResult { icmp: true, tcp_ports: vec![80], tcp_rejected_ports: vec![] };
    let r = HostProbeRecord::from_probe(7, &p);
    assert_eq!((r.octet, r.icmp, r.tcp_alive), (7, true, true));
    assert_eq!(r.tcp_ports, vec![80]);
}

#[test]
fn counts_of_a_subnet() {
    let hosts = vec![
        record(1, true, &[443], &[]),
        record(2, false, &[80, 443], &[443]),
        record(3, true, &[], &[]),
        record(4, false, &[22], &[22]),
    ];
    let s = aggregate_subnet(&[80], hosts);
    assert_eq!(s.icmp_alive, 2);
    assert_eq!(s.tcp_alive, 3);
    assert_eq!(s.tcp_port_alive, vec![(22, 1), (80, 1), (443, 2)]);
    assert_eq!(s.tcp_port_rejected, vec![(22, 1), (80, 0), (443, 1)]);
    assert_eq!(s.hosts.len(), 4);
}

#[test]
fn counts_of_an_empty_subnet() {
    let s = aggregate_subnet(&[8080], vec![]);
    assert_eq!((s.icmp_alive, s.tcp_alive), (0, 0));
    assert_eq!(s.tcp_port_alive, vec![(443, 0), (8080, 0)]);
    assert_eq!(s.tcp_port_rejected, vec![(443, 0), (8080, 0)]);
}

#[test]
fn octets_parse_like_u8() {
    assert_eq!(parse_octet("0"), Some(0));
    assert_eq!(parse_octet("255"), Some(255));
    assert_eq!(parse_octet("+7"), Some(7));
    assert_eq!(parse_octet("256"), None);
    assert_eq!(parse_octet(""), None);
    assert_eq!(parse_octet("+"), None);
    assert_eq!(parse_octet("-1"), None);
    assert_eq!(parse_octet("1a"), None);
    for s in ["0", "9", "10", "99", "100", "254", "255", "256", "007", "+0", "1000", "x"] {
        assert_eq!(parse_octet(s), s.parse::<u8>().ok(), "{s}");
    }
}

#[test]
fn the_subnet_an_address_names() {
    assert_eq!(matrix_base("1.2.3.4"), Some((1, 2, 3)));
    assert_eq!(matrix_base("1.2.x.4"), Some((1, 2, 0)));
    assert_eq!(matrix_base("1.2.3"), None);
    assert_eq!(matrix_base("1.2.3.4.5"), None);
    assert_eq!(matrix_base("..."), Some((0, 0, 0)));
}

#[test]
fn host_cells_and_chosen_host() {
    let tcp = HostProbeResult { icmp: false, tcp_ports: vec![443], tcp_rejected_ports: vec![] };
    let echo = HostProbeResult { icmp: true, tcp_ports: vec![], tcp_rejected_ports: vec![] };
    let dead = HostProbeResult { icmp: false, tcp_ports: vec![], tcp_rejected_ports: vec![] };
    assert_eq!(cell_kind(&tcp), CellKind::Tcp);
    assert_eq!(cell_kind(&echo), CellKind::Echo);
    assert_eq!(cell_kind(&dead), CellKind::Dead);
    let r = vec![(1, tcp.clone()), (2, echo.clone()), (3, tcp.clone())];
    assert_eq!(first_alive_octet(&r), 3);
    let r = vec![(1, tcp.clone()), (2, dead.clone()), (5, echo.clone())];
    assert_eq!(first_alive_octet(&r), 5);
    let r = vec![(1, tcp), (2, dead)];
    assert_eq!(first_alive_octet(&r), 1);
}

#[test]
fn summary_of_the_view() {
    let recs = vec![record(1, true, &[443, 80], &[]), record(2, true, &[], &[]), record(3, false, &[443], &[])];
    let (echo, tcp, ports) = matrix_summary(&recs);
    assert_eq!((echo, tcp), (2, 2));
    assert_eq!(ports, "80:1,443:2");
    let (_, _, none) = matrix_summary(&vec![]);
    assert_eq!(none, "");
}

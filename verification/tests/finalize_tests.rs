use pizdos_scanner::finalize::{
    in_any_range, list_path, parse_range, read_port_ranges, read_ranges, record_address_lists, record_echo_list,
};
use pizdos_scanner::geoip::SubnetInfo;
use pizdos_scanner::ipv4::Ipv4Net;
use pizdos_scanner::subnet_probe::aggregate_subnet;
use pizdos_scanner::text::text_lines;
use pizdos_scanner::utils::{txt_list_lines, HostProbeRecord, SubnetRecord};

fn strings(v: &[&str]) -> Vec<String> {
    v.iter().map(|s| s.to_string()).collect()
}

fn net(a: u32) -> Ipv4Net {
    Ipv4Net { addr: a, prefix: 24 }
}

#[test]
fn range_texts_read() {
    assert_eq!(parse_range("7"), Some((7, 7)));
    assert_eq!(parse_range("1-5"), Some((1, 5)));
    assert_eq!(parse_range("+3"), Some((3, 3)));
    assert_eq!(parse_range("5-1"), None);
    assert_eq!(parse_range("256"), None);
    assert_eq!(parse_range("1-2-3"), None);
    assert_eq!(parse_range(""), None);
    assert_eq!(parse_range("-4"), None);
    assert_eq!(parse_range("a"), None);
}

#[test]
fn range_lists_read() {
    assert_eq!(read_ranges(&strings(&["1-3", "9"])), Some(vec![(1, 3), (9, 9)]));
    assert_eq!(read_ranges(&strings(&["1-3", "x"])), None);
    let m = vec![(80u16, strings(&["2"])), (443u16, strings(&["4-6", "10"]))];
    assert_eq!(read_port_ranges(&m), Some(vec![(2, 2), (4, 6), (10, 10)]));
    assert!(in_any_range(&vec![(4, 6)], 5));
    assert!(!in_any_range(&vec![(4, 6)], 7));
}

#[test]
fn lists_rebuilt_from_ranges() {
    let n = net(0x0a00_0100);
    let tcp = vec![(80u16, strings(&["1-3"])), (443u16, strings(&["3", "7"]))];
    let rej = vec![(80u16, strings(&["2"])), (443u16, Vec::new())];
    let (alive, rejected) = record_address_lists(n, &tcp, &rej).unwrap();
    assert_eq!(alive, strings(&["10.0.1.1", "10.0.1.3", "10.0.1.7"]));
    assert_eq!(rejected, strings(&["10.0.1.2"]));
    let bad = vec![(80u16, strings(&["9-1"]))];
    assert!(record_address_lists(n, &bad, &rej).is_none());
}

#[test]
fn echo_list_rebuilt_from_ranges() {
    let n = net(0xc0a8_0000);
    assert_eq!(
        record_echo_list(n, &strings(&["1", "253-255"])).unwrap(),
        strings(&["192.168.0.1", "192.168.0.253", "192.168.0.254"])
    );
    assert!(record_echo_list(n, &strings(&["0-x"])).is_none());
}

fn host(octet: u8, icmp: bool, ports: &[u16], rejected: &[u16]) -> HostProbeRecord {
    HostProbeRecord {
        octet,
        icmp,
        tcp_ports: ports.to_vec(),
        tcp_rejected_ports: rejected.to_vec(),
        tcp_alive: !ports.is_empty(),
    }
}

#[test]
fn rebuilt_lists_match_scan_lists() {
    let hosts = vec![
        host(1, true, &[443], &[]),
        host(2, false, &[80, 443], &[80]),
        host(3, false, &[], &[]),
        host(4, true, &[80], &[]),
        host(5, false, &[443], &[]),
    ];
    let stats = aggregate_subnet(&[80], hosts);
    let result = (net(0x0102_0300), SubnetInfo::new(), stats);
    let record = SubnetRecord::from_result(&result);
    let rebuilt = record_address_lists(result.0, &record.probe.tcp_ports, &record.probe.tcp_rejected).unwrap();
    assert_eq!(rebuilt, txt_list_lines(&result));
    assert_eq!(rebuilt.0, strings(&["1.2.3.1", "1.2.3.4", "1.2.3.5"]));
    assert_eq!(rebuilt.1, strings(&["1.2.3.2"]));
    assert_eq!(record_echo_list(result.0, &record.probe.icmp).unwrap(), strings(&["1.2.3.1", "1.2.3.4"]));
}

#[test]
fn lines_of_a_text() {
    assert_eq!(text_lines("  10.0.0.0/8 \n\n# note\r\n1.2.3.0/24"), strings(&["10.0.0.0/8", "# note", "1.2.3.0/24"]));
    assert_eq!(text_lines(""), Vec::<String>::new());
    assert_eq!(text_lines("\n \n"), Vec::<String>::new());
    assert_eq!(text_lines("a\n"), strings(&["a"]));
}

#[test]
fn list_files_beside_jsonl() {
    assert_eq!(list_path("results/scan_20240101.jsonl", "_alive.txt"), "results/scan_20240101_alive.txt");
    assert_eq!(list_path("results/scan.json", "_alive.txt"), "results/scan.json_alive.txt");
    assert_eq!(list_path(".jsonl", "_x"), "_x");
    assert_eq!(list_path("a.jsonl.bak", "_icmp_alive.txt"), "a.jsonl.bak_icmp_alive.txt");
}

use pizdos_scanner::geoip::{subnet_geo_info, SubnetInfo};
use pizdos_scanner::ipv4::Ipv4Net;
use pizdos_scanner::utils::{
    count_rejected_hosts, csv_header, csv_lines_for_result, csv_row, octet_ranges, push_range, ranges_from_octets,
    results_csv_lines, tcp_port_columns, tcp_port_header, tcp_port_summary, tcp_port_values, tcp_rejected_header,
    txt_list_lines, CompactProbeRecord, HostProbeRecord, SubnetProbeStats, SubnetRecord,
};

fn host(octet: u8, icmp: bool, ports: &[u16], rejected: &[u16]) -> HostProbeRecord {
    HostProbeRecord {
        octet,
        icmp,
        tcp_ports: ports.to_vec(),
        tcp_rejected_ports: rejected.to_vec(),
        tcp_alive: !ports.is_empty(),
    }
}

fn sample_stats() -> SubnetProbeStats {
    SubnetProbeStats {
        icmp_alive: 3,
        tcp_alive: 3,
        tcp_port_alive: vec![(80, 1), (443, 3)],
        tcp_port_rejected: vec![(80, 0), (443, 1)],
        hosts: vec![
            host(1, true, &[443], &[]),
            host(2, true, &[80, 443], &[]),
            host(3, false, &[443], &[443]),
            host(4, false, &[], &[]),
            host(5, true, &[], &[]),
            host(9, false, &[], &[]),
        ],
    }
}

fn info() -> SubnetInfo {
    SubnetInfo {
        source: "RU".to_string(),
        country: "RU".to_string(),
        city: "Moscow".to_string(),
        asn: 12389,
        as_name: "Rostelecom".to_string(),
    }
}

fn subnet() -> Ipv4Net {
    Ipv4Net { addr: u32::from_be_bytes([5, 6, 7, 0]), prefix: 24 }
}

#[test]
fn octet_ranges_merge_neighbours() {
    assert_eq!(octet_ranges(&vec![1, 2, 3, 5, 7, 8]), vec![(1, 3), (5, 5), (7, 8)]);
    assert_eq!(octet_ranges(&vec![]), vec![]);
    assert_eq!(octet_ranges(&vec![8, 7, 7, 1]), vec![(1, 1), (7, 8)]);
    assert_eq!(octet_ranges(&vec![254, 255, 0]), vec![(0, 0), (254, 255)]);
}

#[test]
fn range_texts() {
    assert_eq!(ranges_from_octets(&vec![1, 2, 3, 5, 7, 8]), vec!["1-3", "5", "7-8"]);
    assert_eq!(ranges_from_octets(&vec![]), Vec::<String>::new());
    let mut v = vec!["1".to_string()];
    push_range(&mut v, 4, 4);
    push_range(&mut v, 10, 12);
    assert_eq!(v, vec!["1", "4", "10-12"]);
}

#[test]
fn canonical_ranges_unique_example() {
    // the same set given in any order and with repeats has one description
    assert_eq!(ranges_from_octets(&vec![3, 1, 2, 2]), ranges_from_octets(&vec![1, 2, 3]));
}

#[test]
fn compact_record_of_stats() {
    let stats = sample_stats();
    let r = CompactProbeRecord::from_stats(&stats);
    assert_eq!(r.format, "last_octet_ranges");
    assert_eq!(r.icmp, vec!["1-2", "5"]);
    assert_eq!(r.dead, vec!["4", "9"]);
    assert_eq!(r.tcp_ports, vec![(80, vec!["2".to_string()]), (443, vec!["1-3".to_string()])]);
    assert_eq!(r.tcp_rejected, vec![(80, vec![]), (443, vec!["3".to_string()])]);
}

#[test]
fn subnet_record_of_result() {
    let result = (subnet(), info(), sample_stats());
    let r = SubnetRecord::from_result(&result);
    assert_eq!(r.subnet, "5.6.7.0/24");
    assert_eq!(r.source, "RU");
    assert_eq!(r.city, "Moscow");
    assert_eq!(r.asn, 12389);
    assert_eq!(r.icmp_hosts, 3);
    assert_eq!(r.active_hosts, 3);
    assert_eq!(r.tcp_ports, vec![(80, 1), (443, 3)]);
    assert_eq!(r.probe.icmp, vec!["1-2", "5"]);
}

#[test]
fn port_summary_and_columns() {
    let stats = sample_stats();
    assert_eq!(tcp_port_summary(&stats), "80:1,443:3");
    assert_eq!(tcp_port_header(&vec![80, 443]), "tcp_80_hosts;tcp_443_hosts");
    assert_eq!(tcp_rejected_header(&vec![443]), "tcp_443_rejected_hosts");
    assert_eq!(tcp_port_values(&stats.tcp_port_alive, &vec![443, 8080, 80]), "3;0;1");
    assert_eq!(tcp_port_header(&vec![]), "");
}

#[test]
fn csv_header_and_row() {
    let result = (subnet(), info(), sample_stats());
    assert_eq!(
        csv_header(&vec![80, 443], &vec![443]),
        "subnet;source;country;city;asn;as_name;icmp_hosts;active_hosts;tcp_80_hosts;tcp_443_hosts;tcp_443_rejected_hosts"
    );
    assert_eq!(csv_header(&vec![], &vec![]), "subnet;source;country;city;asn;as_name;icmp_hosts;active_hosts");
    assert_eq!(
        csv_row(&result, &vec![80, 443], &vec![443]),
        "5.6.7.0/24;RU;RU;Moscow;12389;Rostelecom;3;3;1;3;1"
    );
    let (h, l) = csv_lines_for_result(&result);
    assert_eq!(
        h,
        "subnet;source;country;city;asn;as_name;icmp_hosts;active_hosts;tcp_80_hosts;tcp_443_hosts;tcp_80_rejected_hosts;tcp_443_rejected_hosts"
    );
    assert_eq!(l, "5.6.7.0/24;RU;RU;Moscow;12389;Rostelecom;3;3;1;3;0;1");
}

#[test]
fn csv_of_several_results() {
    let mut other = sample_stats();
    other.tcp_port_alive = vec![(22, 2), (443, 0)];
    other.tcp_port_rejected = vec![];
    let results = vec![(subnet(), info(), sample_stats()), (subnet(), info(), other)];
    assert_eq!(tcp_port_columns(&results, false), vec![22, 80, 443]);
    assert_eq!(tcp_port_columns(&results, true), vec![80, 443]);
    let lines = results_csv_lines(&results);
    assert_eq!(lines.len(), 3);
    assert!(lines[0].ends_with(";tcp_22_hosts;tcp_80_hosts;tcp_443_hosts;tcp_80_rejected_hosts;tcp_443_rejected_hosts"));
    assert_eq!(lines[2], "5.6.7.0/24;RU;RU;Moscow;12389;Rostelecom;3;3;2;0;0;0;0");
}

#[test]
fn alive_and_rejected_lists() {
    let result = (subnet(), info(), sample_stats());
    let (alive, rejected) = txt_list_lines(&result);
    assert_eq!(alive, vec!["5.6.7.1", "5.6.7.2"]);
    assert_eq!(rejected, vec!["5.6.7.3"]);
    assert_eq!(count_rejected_hosts(&sample_stats()), 1);
}

#[test]
fn alive_and_rejected_lists_are_disjoint() {
    let result = (subnet(), info(), sample_stats());
    let (alive, rejected) = txt_list_lines(&result);
    for a in &alive {
        assert!(!rejected.contains(a));
    }
}

#[test]
fn geo_info_defaults_and_fallback() {
    let i = SubnetInfo::new();
    assert_eq!((i.source.as_str(), i.country.as_str(), i.city.as_str(), i.asn, i.as_name.as_str()), ("N/A", "N/A", "N/A", 0, "N/A"));
    let i = SubnetInfo::with_source("RU");
    assert_eq!(i.source, "RU");
    assert_eq!(i.country, "N/A");
    let i = SubnetInfo::from_geo_fields(Some("Kazan".to_string()), None, Some(42), None);
    assert_eq!((i.city.as_str(), i.country.as_str(), i.asn, i.as_name.as_str()), ("Kazan", "N/A", 42, "N/A"));
    let g = subnet_geo_info(None, "RU", Some("RU"));
    assert_eq!((g.source.as_str(), g.country.as_str(), g.city.as_str()), ("RU", "RU", "N/A"));
    let g = subnet_geo_info(Some(info()), "CN", Some("CN"));
    assert_eq!((g.source.as_str(), g.country.as_str()), ("CN", "RU"));
    let g = subnet_geo_info(None, "RU,BY", None);
    assert_eq!(g.country, "N/A");
}

#[test]
fn fast_rejects_over_all_ports_name_each_rejected_host() {
    let hosts = vec![
        host(3, false, &[], &[443]),
        host(6, false, &[], &[80]),
        host(7, false, &[], &[80, 443]),
        host(9, true, &[443], &[]),
    ];
    let stats = pizdos_scanner::subnet_probe::aggregate_subnet(&[80], hosts);
    let r = CompactProbeRecord::from_stats(&stats);
    assert_eq!(r.tcp_rejected, vec![(80, vec!["6-7".to_string()]), (443, vec!["3".to_string(), "7".to_string()])]);
    let mut flat: Vec<u8> = Vec::new();
    for (_, ranges) in &r.tcp_rejected {
        for text in ranges {
            let (a, b) = match text.split_once('-') {
                Some((a, b)) => (a.parse::<u8>().unwrap(), b.parse::<u8>().unwrap()),
                None => (text.parse::<u8>().unwrap(), text.parse::<u8>().unwrap()),
            };
            flat.extend(a..=b);
        }
    }
    flat.sort();
    flat.dedup();
    assert_eq!(flat, vec![3, 6, 7]);
}

#[test]
fn port_map_order_check() {
    assert!(sample_stats().maps_sorted());
    let mut s = sample_stats();
    s.tcp_port_alive = vec![(443, 3), (80, 1)];
    assert!(!s.maps_sorted());
    s.tcp_port_alive = vec![(80, 1), (80, 2)];
    assert!(!s.maps_sorted());
}

use pizdos_scanner::commands::{
    classify_statuses, code_table_lines, geoip_scan_name, icmp_fast_source, IcmpFastError, IcmpFastSource, TcpFileLists,
};
use pizdos_scanner::geoip::SubnetInfo;
use pizdos_scanner::ipinfo::{
    current_ip_text, geoip_row, header_row, info_table_lines, ip_api_row, ip_api_status_ok, ipapi_co_row, ipinfo_row,
    ipsb_row, ipwhois_row, ipwhois_success, providers_to_query, Provider,
};
use pizdos_scanner::tcp_ping::TcpProbeStatus;
use pizdos_scanner::tui::{
    truncate, EventLevel, ScanDashboard, ScanUiConfig, SubnetStatus, Tone, WhitelistInfo,
};
use pizdos_scanner::xray_geoip::GeoIpCodeInfo;

fn strings(v: &[&str]) -> Vec<String> {
    v.iter().map(|s| s.to_string()).collect()
}

#[test]
fn fast_scan_sources() {
    assert!(matches!(icmp_fast_source(&vec![], vec![]), Ok(IcmpFastSource::ConfigSubnets)));
    match icmp_fast_source(&strings(&["geoip", "ru", "by"]), strings(&["cn"])) {
        Ok(IcmpFastSource::Geoip(c)) => assert_eq!(c, strings(&["ru", "by"])),
        _ => panic!("expected codes"),
    }
    match icmp_fast_source(&strings(&["geoip-scan"]), strings(&["cn"])) {
        Ok(IcmpFastSource::Geoip(c)) => assert_eq!(c, strings(&["cn"])),
        _ => panic!("expected configured codes"),
    }
    assert!(matches!(icmp_fast_source(&strings(&["geoip"]), vec![]), Err(IcmpFastError::NoCodes)));
    match icmp_fast_source(&strings(&["subnets", "list.txt"]), vec![]) {
        Ok(IcmpFastSource::File(p)) => assert_eq!(p, "list.txt"),
        _ => panic!("expected a file"),
    }
    assert!(matches!(icmp_fast_source(&strings(&["subnets"]), vec![]), Ok(IcmpFastSource::ConfigSubnets)));
    match icmp_fast_source(&strings(&["nets.txt", "extra"]), vec![]) {
        Ok(IcmpFastSource::File(p)) => assert_eq!(p, "nets.txt"),
        _ => panic!("expected a file"),
    }
}

#[test]
fn scan_names_of_codes() {
    assert_eq!(geoip_scan_name("geoip_", &strings(&["Private", "RU"])), "geoip_private_ru");
    assert_eq!(geoip_scan_name("icmp_fast_geoip_", &strings(&["CN"])), "icmp_fast_geoip_cn");
}

#[test]
fn code_table() {
    let codes = vec![GeoIpCodeInfo { code: "RU".to_string(), cidr_count: 12, ipv4_count: 10, ipv6_count: 2 }];
    let lines = code_table_lines(&codes);
    assert_eq!(lines.len(), 3);
    assert_eq!(lines[0], format!("{:<24} {:>10} {:>10} {:>10}", "code", "cidr", "ipv4", "ipv6"));
    assert_eq!(lines[1], "-".repeat(60));
    assert_eq!(lines[2], format!("{:<24} {:>10} {:>10} {:>10}", "RU", 12, 10, 2));
    let long = vec![GeoIpCodeInfo { code: "X".repeat(30), cidr_count: 12345678901, ipv4_count: 0, ipv6_count: 0 }];
    assert_eq!(code_table_lines(&long)[2], format!("{:<24} {:>10} {:>10} {:>10}", "X".repeat(30), 12345678901usize, 0, 0));
}

#[test]
fn tcp_file_classification() {
    assert_eq!(classify_statuses(&vec![TcpProbeStatus::Timeout, TcpProbeStatus::Open]), (true, false));
    assert_eq!(classify_statuses(&vec![TcpProbeStatus::Rejected]), (true, true));
    assert_eq!(classify_statuses(&vec![]), (false, false));
    let mut l = TcpFileLists::new();
    l.add_address((4, 0x0a000002), &vec![TcpProbeStatus::Open]);
    l.add_address((4, 0x0a000001), &vec![TcpProbeStatus::Open, TcpProbeStatus::Timeout]);
    l.add_address((6, 1), &vec![TcpProbeStatus::Open]);
    l.add_address((4, 0x0a000003), &vec![TcpProbeStatus::Open, TcpProbeStatus::Rejected]);
    l.add_address((4, 0x0a000004), &vec![TcpProbeStatus::Timeout]);
    l.add_address((4, 0x0a000001), &vec![TcpProbeStatus::Open]);
    assert_eq!(l.alive, vec![(4, 0x0a000001), (4, 0x0a000002), (6, 1)]);
    assert_eq!(l.rejected, vec![(4, 0x0a000003)]);
}

#[test]
fn providers_in_fixed_order() {
    let p = providers_to_query(&strings(&["GeoIP", "ipwho.is", "unknown", "ip-api.com"]));
    assert_eq!(p, vec![Provider::IpApi, Provider::IpWhoIs, Provider::GeoIp]);
    assert!(providers_to_query(&vec![]).is_empty());
}

#[test]
fn provider_rows() {
    let h = header_row();
    assert_eq!((h.provider.as_str(), h.reverse.as_str()), ("PROVIDER", "PTR, DOMAIN, SUBNET"));
    let r = ip_api_row(Some("RU".to_string()), None, Some("AS1 x".to_string()), Some("X".to_string()), None);
    assert_eq!((r.provider.as_str(), r.country_code.as_str(), r.city.as_str(), r.as_number.as_str()), ("ip-api.com", "RU", "", "AS1 x"));
    let r = ipinfo_row(None, Some("Moscow".to_string()), Some("AS8359 MTS".to_string()), Some("h.example".to_string()));
    assert_eq!((r.as_number.as_str(), r.as_name.as_str(), r.reverse.as_str()), ("AS8359 MTS", "", "h.example"));
    let r = ipwhois_row(Some("RU".to_string()), None, Some(8359), Some("MTS".to_string()), None);
    assert_eq!(r.as_number, "AS8359 MTS");
    let r = ipwhois_row(None, None, None, None, None);
    assert_eq!(r.as_number, "AS0 ");
    let r = ipsb_row(None, None, Some(13335), Some("Cloudflare".to_string()));
    assert_eq!((r.provider.as_str(), r.as_number.as_str(), r.reverse.as_str()), ("ip.sb", "AS13335 Cloudflare", ""));
    let r = ipapi_co_row(None, None, Some("AS1".to_string()), Some("Org".to_string()), Some("1.0.0.0/24".to_string()));
    assert_eq!((r.as_number.as_str(), r.reverse.as_str()), ("AS1 Org", "1.0.0.0/24"));
    let info = SubnetInfo { source: "N/A".to_string(), country: "RU".to_string(), city: "Omsk".to_string(), asn: 12, as_name: "Net".to_string() };
    let r = geoip_row(&info);
    assert_eq!((r.provider.as_str(), r.country_code.as_str(), r.as_number.as_str()), ("GeoIP", "RU", "AS12 Net"));
    assert!(ip_api_status_ok("success"));
    assert!(!ip_api_status_ok("fail"));
    assert!(ipwhois_success(Some(true)));
    assert!(!ipwhois_success(Some(false)));
    assert!(!ipwhois_success(None));
}

#[test]
fn info_table() {
    let rows = vec![header_row(), ipwhois_row(Some("RU".to_string()), Some("Москва".to_string()), Some(1), None, None), ipsb_row(None, None, None, None)];
    let lines = info_table_lines(&rows);
    let w = [8usize, 2, 12, 4, 7, 19];
    let total: usize = w.iter().sum::<usize>() + 15;
    assert_eq!(lines.len(), 5);
    assert_eq!(lines[0], "─".repeat(total));
    assert_eq!(lines[2], lines[0]);
    let expect = |r: &pizdos_scanner::ipinfo::GeoInfo| {
        format!(
            "{:<w1$} | {:<w2$} | {:<w3$} | {:<w4$} | {:<w5$} | {:<w6$}",
            r.provider, r.country_code, r.city, r.as_number, r.as_name, r.reverse,
            w1 = w[0], w2 = w[1], w3 = w[2], w4 = w[3], w5 = w[4], w6 = w[5]
        )
    };
    assert_eq!(lines[1], expect(&rows[0]));
    assert_eq!(lines[3], expect(&rows[1]));
    assert_eq!(lines[4], expect(&rows[2]));
}

#[test]
fn public_address_from_the_answer() {
    assert_eq!(current_ip_text("{\"v6\":\"::1\",\"v4\":\"1.2.3.4\",\"x\":1}"), Some("1.2.3.4".to_string()));
    assert_eq!(current_ip_text("no address here"), None);
    assert_eq!(current_ip_text("\"v4\":\"\""), Some("".to_string()));
}

fn ui_config(whitelist: bool) -> ScanUiConfig {
    ScanUiConfig {
        scan_name: "geoip_ru".to_string(),
        total_subnets: 10,
        resume_count: 2,
        endpoint: "77.88.8.8".to_string(),
        operator: Some("mts".to_string()),
        network_interface: None,
        whitelist: if whitelist {
            WhitelistInfo { label: "google.com:443".to_string(), enabled: true, check_before: true, check_after: false }
        } else {
            WhitelistInfo::off()
        },
        tcp_ports: vec![80, 443],
        socket_type: "DGRAM".to_string(),
        ping_types: strings(&["ICMP", "TCP"]),
        subnet_parallelism: 4,
        result_jsonl: "results/geoip_ru_mts_20240101_000000.jsonl".to_string(),
        last_stop: Some("stop_on_available:google.com:443".to_string()),
    }
}

#[test]
fn dashboard_start_events() {
    let d = ScanDashboard::new(ui_config(true), "12:00:00".to_string());
    let msgs: Vec<&str> = d.events.iter().map(|e| e.message.as_str()).collect();
    assert_eq!(
        msgs,
        vec![
            "Старт · 10 /24",
            "Resume: 2 /24 пропускаем",
            "Probe: ICMP+TCP · ports 80,443 · endpoint 77.88.8.8",
            "Whitelist: google.com:443 (до=да, после=нет)"
        ]
    );
    assert_eq!(d.whitelist_status, "не проверен");
    assert_eq!(d.scanned_total, 2);
    let d = ScanDashboard::new(ui_config(false), "12:00:00".to_string());
    assert_eq!(d.events.len(), 3);
    assert_eq!(d.whitelist_status, "выкл");
}

#[test]
fn dashboard_counts_finished_subnets() {
    let mut d = ScanDashboard::new(ui_config(false), "t".to_string());
    d.set_scanning(3, "10.0.0.0/24");
    d.set_scanning(4, "10.0.1.0/24");
    d.set_scanning(5, "10.0.0.0/24");
    assert_eq!(d.inflight.len(), 2);
    assert_eq!(d.progress_position(), 4);
    d.complete_subnet(5, "10.0.0.0/24", 3, 2, 1, "1.5".to_string(), false, "t".to_string());
    d.complete_subnet(4, "10.0.1.0/24", 1, 0, 0, "0.9".to_string(), false, "t".to_string());
    d.subnet_error(6, "10.0.2.0/24", "boom", "t".to_string());
    assert_eq!((d.alive_subnets, d.echo_only_subnets, d.dead_subnets, d.errors), (1, 1, 0, 1));
    assert_eq!((d.echo_hosts_total, d.tcp_hosts_total, d.rejected_hosts_total), (4, 2, 1));
    assert_eq!((d.scanned_this_run, d.scanned_total), (2, 4));
    assert!(d.inflight.is_empty());
    assert_eq!(d.recent[0].status, SubnetStatus::Error);
    assert_eq!(d.recent[1].status, SubnetStatus::EchoOnly);
    assert_eq!(d.recent[2].status, SubnetStatus::Alive);
    let last_two: Vec<&str> = d.events.iter().rev().take(2).map(|e| e.message.as_str()).collect();
    assert_eq!(last_two, vec!["10.0.2.0/24: boom", "10.0.1.0/24 · icmp 1 tcp 0 rej 0 · 0.9s [icmp]"]);
    assert_eq!(d.events.last().unwrap().level, EventLevel::Error);
    let (tcp, rej, subnets, progress) = d.stats_texts();
    assert_eq!((tcp.as_str(), rej.as_str(), subnets.as_str(), progress.as_str()), ("2", "1", "1+1 dead 0", "4/10"));
}

#[test]
fn dashboard_keeps_bounded_lists() {
    let mut d = ScanDashboard::new(ui_config(false), "t".to_string());
    for i in 0..20usize {
        d.complete_subnet(i, &format!("s{i}"), 0, 0, 0, "0.1".to_string(), false, "t".to_string());
    }
    assert_eq!(d.recent.len(), 14);
    assert_eq!(d.recent[0].subnet, "s19");
    assert_eq!(d.dead_subnets, 20);
    for _ in 0..400 {
        d.push_event("t".to_string(), EventLevel::Inf, "x".to_string());
    }
    assert_eq!(d.events.len(), 300);
}

#[test]
fn dashboard_stopping_and_finish() {
    let mut d = ScanDashboard::new(ui_config(false), "t".to_string());
    assert!(d.on_tick(false, "t".to_string()));
    assert!(!d.stopping);
    let n = d.events.len();
    assert!(d.on_tick(true, "t".to_string()));
    assert!(d.stopping);
    assert_eq!(d.events.len(), n + 1);
    assert_eq!(d.events.last().unwrap().level, EventLevel::Wrn);
    d.on_tick(true, "t".to_string());
    assert_eq!(d.events.len(), n + 1);
    d.finish("done".to_string());
    assert!(!d.running && !d.stopping);
    assert!(!d.on_tick(false, "t".to_string()));
}

#[test]
fn dashboard_side_panel() {
    let mut d = ScanDashboard::new(ui_config(true), "t".to_string());
    d.inflight_subnets = 3;
    let p = d.side_panel();
    assert_eq!(p.endpoint, "77.88.8.8 ");
    assert_eq!(p.endpoint_status, "[OK]");
    assert_eq!(p.endpoint_tone, Tone::Green);
    assert_eq!(p.whitelist, "google.com:443");
    assert_eq!(p.whitelist_status_tone, Tone::Yellow);
    assert_eq!(p.probe, "ICMP+TCP · DGRAM · ports 80, 443");
    assert_eq!(p.workers, "3/4");
    assert_eq!(p.operator, "mts");
    assert_eq!(p.interface, "auto (system route)");
    assert_eq!(p.session, "+0 /24 · resume 2 · err 0");
    assert_eq!(p.hosts, "icmp 0 · tcp 0 · rej 0");
    let jsonl = "results/geoip_ru_mts_20240101_000000.jsonl";
    assert_eq!(p.jsonl, format!("…{}", &jsonl[jsonl.len() - 31..]));
    assert_eq!(p.jsonl.chars().count(), 32);
    assert_eq!(p.last_stop.as_deref(), Some("…p_on_available:google.com:443"));
    d.whitelist_status = "доступен".to_string();
    d.endpoint_ok = false;
    let p = d.side_panel();
    assert_eq!(p.whitelist_status_tone, Tone::Red);
    assert_eq!((p.endpoint_status.as_str(), p.endpoint_tone), ("[FAIL]", Tone::Red));
    let d = ScanDashboard::new(ui_config(false), "t".to_string());
    let p = d.side_panel();
    assert_eq!(p.whitelist, "выкл — раскомментируй [stop_on_available]");
    assert_eq!(p.whitelist_status_tone, Tone::DarkGray);
}

#[test]
fn truncating_texts() {
    assert_eq!(truncate("short", 10), "short");
    assert_eq!(truncate("abcdefgh", 4), "…fgh");
    assert_eq!(truncate("", 0), "");
    assert_eq!(truncate("абвгд", 5), "абвгд");
    assert_eq!(EventLevel::Done.label(), "OK ");
    assert_eq!(SubnetStatus::Dead.label(), "—");
}

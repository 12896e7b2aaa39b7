use pizdos_scanner::geoip::{DownloadAction, DownloadPlan};
use pizdos_scanner::init::{
    host_probe_parallelism_or_default, interface_name, subnet_parallelism_or_default, Config, ConfigDBType,
    ConfigError, ConfigPingType, ConfigSocketType, ConfigStopAction, SubnetsScan,
};
use pizdos_scanner::scan_state::{
    build_job_id, create_state, mark_finished, join_path, operator_part, ping_types_string, ports_string, state_path, update_hash,
};

fn config() -> Config {
    Config {
        geoip_city_db: None,
        geoip_asn_db: None,
        geoip_dat_path: None,
        geoip_codes: None,
        subnets: vec![],
        operator: None,
        endpoint: "77.88.8.8".to_string(),
        results_dir: None,
        resume_state_dir: None,
        resume: None,
        tcp_ports: None,
        tcp_sni_host: None,
        socket_type: None,
        ping_type: vec![ConfigPingType::ICMP, ConfigPingType::TCP],
        logger_filetype: vec![],
        ipinfo_providers: vec![],
        task: None,
        db_update: None,
    }
}

fn fnv(parts: &[&str]) -> u64 {
    let mut h: u64 = 0xcbf29ce484222325;
    for p in parts {
        for b in p.as_bytes() {
            h ^= *b as u64;
            h = h.wrapping_mul(0x100000001b3);
        }
    }
    h
}

#[test]
fn config_defaults() {
    let c = config();
    assert_eq!(c.results_dir(), "results");
    assert_eq!(c.tcp_ports(), vec![443]);
    assert_eq!(c.geoip_dat_path(), "geoip.dat");
    assert!(c.geoip_codes().is_empty());
    assert_eq!(c.resume_state_dir(), "results/state");
    assert!(c.resume_enabled());
}

#[test]
fn config_settings_win_over_defaults() {
    let mut c = config();
    c.results_dir = Some("out".to_string());
    c.tcp_ports = Some(vec![80, 8443]);
    c.geoip_dat_path = Some("/data/geoip.dat".to_string());
    c.geoip_codes = Some(vec!["ru".to_string(), "by".to_string()]);
    c.resume_state_dir = Some("st".to_string());
    c.resume = Some(false);
    assert_eq!(c.results_dir(), "out");
    assert_eq!(c.tcp_ports(), vec![80, 8443]);
    assert_eq!(c.geoip_dat_path(), "/data/geoip.dat");
    assert_eq!(c.geoip_codes(), vec!["ru".to_string(), "by".to_string()]);
    assert_eq!(c.resume_state_dir(), "st");
    assert!(!c.resume_enabled());
}

#[test]
fn completing_a_configuration() {
    let c = config().with_defaults(true).unwrap();
    assert_eq!(c.geoip_city_db.as_deref(), Some("db/GeoLite2-City.mmdb"));
    assert_eq!(c.geoip_asn_db.as_deref(), Some("db/GeoLite2-ASN.mmdb"));
    assert_eq!(c.socket_type, Some(ConfigSocketType::DGRAM));
    let dbs = c.db_update.unwrap();
    assert_eq!(dbs.len(), 2);
    assert_eq!(dbs[0].db_type, ConfigDBType::GeoLite2City);
    assert_eq!(
        dbs[0].update_urls,
        vec![
            "https://git.io/GeoLite2-City.mmdb".to_string(),
            "https://github.com/P3TERX/GeoLite.mmdb/raw/download/GeoLite2-City.mmdb".to_string()
        ]
    );
    assert_eq!(dbs[1].db_type, ConfigDBType::GeoLite2ASN);
    let c = config().with_defaults(false).unwrap();
    assert_eq!(c.socket_type, Some(ConfigSocketType::RAW));
    let mut given = config();
    given.socket_type = Some(ConfigSocketType::RAW);
    given.geoip_city_db = Some("x.mmdb".to_string());
    let c = given.with_defaults(true).unwrap();
    assert_eq!(c.socket_type, Some(ConfigSocketType::RAW));
    assert_eq!(c.geoip_city_db.as_deref(), Some("x.mmdb"));
}

#[test]
fn refusing_incomplete_pause_settings() {
    let mut c = config();
    c.task = Some(SubnetsScan { stop_every_times: 5, stop_action: ConfigStopAction::ChangeIp, change_ip_url: None, delay_seconds: None });
    let e = c.with_defaults(true).err().unwrap();
    assert_eq!(e, ConfigError::ChangeIpUrlRequired);
    assert_eq!(e.message(), "change_ip_url is required for stop_action = ChangeIp");
    let mut c = config();
    c.task = Some(SubnetsScan { stop_every_times: 5, stop_action: ConfigStopAction::Delay, change_ip_url: None, delay_seconds: None });
    let e = c.with_defaults(true).err().unwrap();
    assert_eq!(e, ConfigError::DelaySecondsRequired);
    assert_eq!(e.message(), "delay_seconds is required for stop_action = Delay");
    let mut c = config();
    c.task = Some(SubnetsScan { stop_every_times: 5, stop_action: ConfigStopAction::Prompt, change_ip_url: None, delay_seconds: None });
    assert!(c.with_defaults(true).is_ok());
    let mut c = config();
    c.task = Some(SubnetsScan { stop_every_times: 5, stop_action: ConfigStopAction::Delay, change_ip_url: None, delay_seconds: Some(3) });
    assert!(c.with_defaults(true).is_ok());
}

#[test]
fn fnv_hash_update() {
    let mut h: u64 = 0xcbf29ce484222325;
    update_hash(&mut h, "a");
    assert_eq!(h, 0xaf63dc4c8601ec8c);
    let mut h: u64 = 0xcbf29ce484222325;
    update_hash(&mut h, "");
    assert_eq!(h, 0xcbf29ce484222325);
}

#[test]
fn debug_texts() {
    assert_eq!(ping_types_string(&vec![ConfigPingType::ICMP, ConfigPingType::TCP]), "[ICMP, TCP]");
    assert_eq!(ping_types_string(&vec![]), "[]");
    assert_eq!(ports_string(&vec![80, 443]), "[80, 443]");
    assert_eq!(ports_string(&vec![443]), "[443]");
}

#[test]
fn job_ids() {
    let c = config();
    let nets = vec!["10.0.0.0/24".to_string(), "1.1.1.0/24".to_string()];
    let id = build_job_id(&c, "geoip_ru", &nets);
    let expected = fnv(&["result_schema_tcp_txt_lists_v1", "geoip_ru", "[ICMP, TCP]", "[443]", "", "", "10.0.0.0/24", "1.1.1.0/24"]);
    assert_eq!(id, format!("{expected:016x}"));
    let mut c2 = config();
    c2.operator = Some("mts".to_string());
    c2.tcp_sni_host = Some("example.com".to_string());
    c2.tcp_ports = Some(vec![80, 443]);
    let id2 = build_job_id(&c2, "geoip_ru", &nets);
    let expected2 = fnv(&["result_schema_tcp_txt_lists_v1", "geoip_ru", "[ICMP, TCP]", "[80, 443]", "example.com", "mts", "10.0.0.0/24", "1.1.1.0/24"]);
    assert_eq!(id2, format!("{expected2:016x}"));
    assert_ne!(id, id2);
    // the same job gets the same id
    assert_eq!(build_job_id(&c, "geoip_ru", &nets), id);
}

#[test]
fn joining_paths() {
    assert_eq!(join_path("results", "a.csv"), "results/a.csv");
    assert_eq!(join_path("results/", "a.csv"), "results/a.csv");
    assert_eq!(join_path("", "a.csv"), "a.csv");
    assert_eq!(join_path("results", "/tmp/a.csv"), "/tmp/a.csv");
}

#[test]
fn state_file_paths() {
    let c = config();
    assert_eq!(state_path(&c, "00ff"), "results/state/00ff.json");
    let mut c = config();
    c.resume_state_dir = Some("/var/scan/".to_string());
    assert_eq!(state_path(&c, "abc"), "/var/scan/abc.json");
}

#[test]
fn operator_parts() {
    let mut c = config();
    assert_eq!(operator_part(&c), "_");
    c.operator = Some("".to_string());
    assert_eq!(operator_part(&c), "_");
    c.operator = Some("beeline".to_string());
    assert_eq!(operator_part(&c), "_beeline_");
}

#[test]
fn fresh_state() {
    let mut c = config();
    c.operator = Some("mts".to_string());
    let s = create_state(&c, "geoip_ru", "abcdef0123456789".to_string(), "20240101_120000", "2024-01-01T12:00:00+03:00");
    assert_eq!(s.version, 1);
    assert_eq!(s.job_id, "abcdef0123456789");
    assert_eq!(s.scan_name, "geoip_ru");
    assert_eq!(s.result_csv, "results/geoip_ru_mts_20240101_120000.csv");
    assert_eq!(s.result_jsonl, "results/geoip_ru_mts_20240101_120000.jsonl");
    assert_eq!(s.result_alive_txt, "results/geoip_ru_mts_20240101_120000_alive.txt");
    assert_eq!(s.result_rejected_txt, "results/geoip_ru_mts_20240101_120000_rejected.txt");
    assert!(s.completed_subnets.is_empty() && s.failed_subnets.is_empty());
    assert_eq!(s.subnet24_count, 1);
    assert_eq!(s.created_at, "2024-01-01T12:00:00+03:00");
    assert_eq!(s.updated_at, s.created_at);
    assert!(!s.finished);
    assert!(s.stopped_reason.is_none());
}

#[test]
fn front_end_setting_defaults() {
    assert_eq!(subnet_parallelism_or_default(None), 1);
    assert_eq!(subnet_parallelism_or_default(Some(0)), 1);
    assert_eq!(subnet_parallelism_or_default(Some(8)), 8);
    assert_eq!(host_probe_parallelism_or_default(None), 256);
    assert_eq!(host_probe_parallelism_or_default(Some(0)), 1);
    assert_eq!(host_probe_parallelism_or_default(Some(64)), 64);
    assert_eq!(interface_name(&None), None);
    assert_eq!(interface_name(&Some(String::new())), None);
    assert_eq!(interface_name(&Some("eth0".to_string())), Some("eth0"));
}

#[test]
fn finished_state_keeps_the_rest() {
    let mut s = create_state(&config(), "geoip_ru", "job".to_string(), "20240101_000000", "now");
    s.stopped_reason = Some("stop_on_available:x".to_string());
    s.subnet24_count = 7;
    mark_finished(&mut s);
    assert!(s.finished);
    assert_eq!(s.stopped_reason, None);
    assert_eq!(s.subnet24_count, 7);
    assert_eq!(s.job_id, "job");
    assert_eq!(s.created_at, "now");
}

#[test]
fn download_sources_tried_in_order() {
    let mut p = DownloadPlan::new(3);
    assert_eq!(p.step(false), DownloadAction::Fetch(0));
    assert_eq!(p.step(false), DownloadAction::Fetch(1));
    assert_eq!(p.step(true), DownloadAction::Done);
    let mut q = DownloadPlan::new(2);
    assert_eq!(q.step(false), DownloadAction::Fetch(0));
    assert_eq!(q.step(false), DownloadAction::Fetch(1));
    assert_eq!(q.step(false), DownloadAction::GiveUp);
    let mut none = DownloadPlan::new(0);
    assert_eq!(none.step(false), DownloadAction::GiveUp);
}

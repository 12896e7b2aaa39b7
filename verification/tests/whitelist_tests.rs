use pizdos_scanner::init::ConfigPingType;
use pizdos_scanner::scan_state::ScanState;
use pizdos_scanner::tui::{plain_scan_meta, plain_subnet_summary};
use pizdos_scanner::whitelist::{
    ping_types_label, record_whitelist_stop, whitelist_info, whitelist_stop_message, LookAction, LookEvent,
    StopOnAvailableConfig, WhitelistLook,
};

fn stop(enabled: bool, target: &str, port: u16) -> StopOnAvailableConfig {
    StopOnAvailableConfig { enabled, target: target.to_string(), port, check_before_subnet: true, check_after_subnet: false }
}

#[test]
fn whitelist_target_naming() {
    assert!(stop(true, "google.com", 443).is_active());
    assert!(!stop(true, "  ", 443).is_active());
    assert!(!stop(false, "google.com", 443).is_active());
    assert_eq!(stop(true, "google.com", 443).label(), "google.com:443");
    assert_eq!(stop(true, "1.1.1.1:80", 443).label(), "1.1.1.1:80");
}

#[test]
fn whitelist_shown_on_dashboard() {
    let w = whitelist_info(&Some(stop(true, "google.com", 443)));
    assert_eq!(w.label, "google.com:443");
    assert!(w.enabled && w.check_before && !w.check_after);
    let w = whitelist_info(&Some(stop(true, "", 443)));
    assert_eq!(w.label, "target пуст");
    assert!(!w.enabled && w.check_before);
    let w = whitelist_info(&Some(stop(false, "google.com", 443)));
    assert_eq!(w.label, "выкл");
    assert!(!w.enabled && !w.check_before);
    let w = whitelist_info(&None);
    assert_eq!(w.label, "выкл");
}

#[test]
fn whitelist_stop_recorded() {
    let mut state = ScanState {
        version: 1,
        job_id: "j".to_string(),
        scan_name: "s".to_string(),
        result_csv: "a.csv".to_string(),
        result_jsonl: "a.jsonl".to_string(),
        result_alive_txt: String::new(),
        result_rejected_txt: String::new(),
        completed_subnets: vec!["1.2.3.0/24".to_string()],
        failed_subnets: Vec::new(),
        subnet24_count: 4,
        created_at: String::new(),
        updated_at: String::new(),
        finished: true,
        stopped_reason: None,
    };
    record_whitelist_stop(&mut state, "google.com:443");
    assert_eq!(state.stopped_reason.as_deref(), Some("stop_on_available:google.com:443"));
    assert!(!state.finished);
    assert_eq!(state.completed_subnets, vec!["1.2.3.0/24".to_string()]);
    assert_eq!(state.subnet24_count, 4);
    assert_eq!(state.job_id, "j");
    assert_eq!(state.scan_name, "s");
    assert_eq!(state.result_csv, "a.csv");
    assert_eq!(state.result_jsonl, "a.jsonl");
    assert_eq!(whitelist_stop_message("g:443", None), "whitelist stop: g:443 available");
    assert_eq!(
        whitelist_stop_message("g:443", Some("1.2.3.0/24")),
        "whitelist stop: g:443 available, discarded 1.2.3.0/24"
    );
    assert_eq!(ping_types_label(&vec![ConfigPingType::ICMP, ConfigPingType::TCP]), vec!["ICMP", "TCP"]);
}

#[test]
fn plain_console_texts() {
    assert_eq!(
        plain_scan_meta("geoip_ru", 120, 0, None, "77.88.8.8"),
        "geoip_ru · 120 /24 · whitelist выкл · endpoint 77.88.8.8"
    );
    assert_eq!(
        plain_scan_meta("x", 5, 2, Some("google.com:443"), "e"),
        "x · 5 /24 · resume 2 · whitelist google.com:443 · endpoint e"
    );
    assert_eq!(plain_subnet_summary("1.2.3.0/24", 4, 1, "2.5"), "1.2.3.0/24 icmp 4 tcp 1 2.5s");
    assert_eq!(plain_subnet_summary("1.2.3.0/24", 0, 0, "0.3"), "1.2.3.0/24 dead 0.3s");
}

#[test]
fn whitelist_look_resolves_once_and_reports_once() {
    let mut look = WhitelistLook::new();
    assert_eq!(look.step(LookEvent::Begin, false), LookAction::Resolve);
    assert_eq!(look.step(LookEvent::Resolved(false), false), LookAction::ResolveFailed(true));
    assert_eq!(look.step(LookEvent::Begin, false), LookAction::Resolve);
    assert_eq!(look.step(LookEvent::Resolved(false), false), LookAction::ResolveFailed(false));
    assert_eq!(look.step(LookEvent::Begin, false), LookAction::Resolve);
    assert_eq!(look.step(LookEvent::Resolved(true), false), LookAction::Probe);
    assert_eq!(look.step(LookEvent::Probed(true), false), LookAction::Done(true));
    assert_eq!(look.step(LookEvent::Begin, false), LookAction::Probe);
    assert_eq!(look.step(LookEvent::Probed(false), false), LookAction::Done(false));
    assert_eq!(look.step(LookEvent::Begin, true), LookAction::Cancelled);
    let mut fresh = WhitelistLook::new();
    assert_eq!(fresh.step(LookEvent::Begin, true), LookAction::Resolve);
    assert_eq!(fresh.step(LookEvent::Resolved(true), true), LookAction::Cancelled);
    assert!(fresh.resolved && !fresh.error_reported);
}

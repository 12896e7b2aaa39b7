use pizdos_scanner::init::{ConfigSocketType, ConfigStopAction, SubnetsScan};
use pizdos_scanner::scanner::{endpoint_failure_plan, EndpointFailurePlan};
use pizdos_scanner::scan_loop::{
    whitelist_decision, IterationAction, IterationEvent, IterationRules, ParallelAction, ParallelEvent, ParallelRun, ParallelScheduler, StopProbeResult,
    SubnetIteration, SubnetIterationOutcome,
};
use pizdos_scanner::scan_state::ScanState;
use pizdos_scanner::scanner::{
    endpoint_retry_delay_ms, fallback_country_for_source, format_elapsed, holds_text, icmp_unavailable_hint,
    pending_subnets, periodic_stop_due, resume_saved, scan_source, EndpointAction, EndpointCheck, EndpointEvent,
    SessionBook,
};

fn state(completed: &[&str], failed: &[&str], finished: bool) -> ScanState {
    ScanState {
        version: 1,
        job_id: "j".to_string(),
        scan_name: "s".to_string(),
        result_csv: "a.csv".to_string(),
        result_jsonl: "a.jsonl".to_string(),
        result_alive_txt: "a_alive.txt".to_string(),
        result_rejected_txt: "a_rejected.txt".to_string(),
        completed_subnets: completed.iter().map(|s| s.to_string()).collect(),
        failed_subnets: failed.iter().map(|s| s.to_string()).collect(),
        subnet24_count: 1,
        created_at: "t".to_string(),
        updated_at: "t".to_string(),
        finished,
        stopped_reason: None,
    }
}

#[test]
fn scan_source_labels() {
    assert_eq!(scan_source("geoip_ru"), "RU");
    assert_eq!(scan_source("geoip_ru_by"), "RU,BY");
    assert_eq!(scan_source("ping_result"), "PING,RESULT");
    assert_eq!(scan_source("geoip"), "GEOIP");
    assert_eq!(scan_source("icmp_fast_geoip_cn"), "ICMP,FAST,GEOIP,CN");
}

#[test]
fn fallback_countries() {
    assert_eq!(fallback_country_for_source("RU"), Some("RU".to_string()));
    assert_eq!(fallback_country_for_source("RU,BY"), None);
    assert_eq!(fallback_country_for_source("R1"), None);
    assert_eq!(fallback_country_for_source("R"), None);
    assert_eq!(fallback_country_for_source("ЖЖ"), None);
}

#[test]
fn icmp_hints_name_the_socket_type() {
    assert!(icmp_unavailable_hint(ConfigSocketType::DGRAM).contains("ping_group_range"));
    assert!(icmp_unavailable_hint(ConfigSocketType::RAW).starts_with("ICMP через RAW недоступен"));
}

#[test]
fn elapsed_texts() {
    assert_eq!(format_elapsed(0), "00:00:00");
    assert_eq!(format_elapsed(3661), "01:01:01");
    assert_eq!(format_elapsed(59), "00:00:59");
    assert_eq!(format_elapsed(100 * 3600 + 5), "100:00:05");
}

#[test]
fn resuming_saved_states() {
    assert!(resume_saved(true, &Some(state(&[], &[], false))));
    assert!(!resume_saved(true, &Some(state(&[], &[], true))));
    assert!(!resume_saved(false, &Some(state(&[], &[], false))));
    assert!(!resume_saved(true, &None));
}

#[test]
fn subnets_left_to_scan() {
    let all: Vec<String> = ["a", "b", "c", "d"].iter().map(|s| s.to_string()).collect();
    let done: Vec<String> = ["c", "a", "z"].iter().map(|s| s.to_string()).collect();
    assert_eq!(pending_subnets(&all, &done), vec![1, 3]);
    assert_eq!(pending_subnets(&all, &vec![]), vec![0, 1, 2, 3]);
    assert!(holds_text(&done, "z"));
    assert!(!holds_text(&done, "b"));
}

#[test]
fn session_book_records() {
    let s = state(&["10.0.0.0/24", "10.0.0.0/24"], &["10.0.1.0/24"], false);
    let mut b = SessionBook::from_state(&s);
    assert_eq!(b.completed.len(), 1);
    assert!(b.is_completed("10.0.0.0/24"));
    b.record_failure("10.0.2.0/24");
    assert_eq!(b.failed.len(), 2);
    b.record_success("10.0.1.0/24");
    assert!(b.is_completed("10.0.1.0/24"));
    assert_eq!(b.failed, vec!["10.0.2.0/24".to_string()]);
    assert_eq!(b.scanned_this_run, 1);
    // a subnet completed again stays listed once
    b.record_success("10.0.1.0/24");
    assert_eq!(b.completed.len(), 2);
    assert_eq!(b.scanned_this_run, 2);
}

#[test]
fn snapshots_count_and_copy() {
    let mut s = state(&[], &[], false);
    let mut b = SessionBook::from_state(&s);
    b.record_success("x");
    b.snapshot(&mut s);
    assert_eq!(s.completed_subnets, vec!["x".to_string()]);
    assert_eq!(s.subnet24_count, 2);
    b.snapshot(&mut s);
    assert_eq!(s.subnet24_count, 3);
}

#[test]
fn periodic_pauses() {
    assert!(!periodic_stop_due(0, 10));
    assert!(periodic_stop_due(5, 10));
    assert!(!periodic_stop_due(5, 11));
    assert!(periodic_stop_due(1, 7));
}

#[test]
fn endpoint_retry_schedule() {
    let delays: Vec<u64> = (0..6).map(endpoint_retry_delay_ms).collect();
    assert_eq!(delays, vec![5000, 10000, 15000, 20000, 60000, 60000]);
}

#[test]
fn endpoint_check_gives_up_after_six_pings() {
    let mut c = EndpointCheck::new();
    let mut pings = 0;
    let mut waits = vec![];
    loop {
        match c.pending {
            EndpointAction::Ping => {
                pings += 1;
                c.step(EndpointEvent::Answered(false));
            }
            EndpointAction::Wait(ms) => {
                waits.push(ms);
                c.step(EndpointEvent::Waited);
            }
            EndpointAction::Finish(ok, cancelled) => {
                assert!(!ok && !cancelled);
                break;
            }
        }
    }
    assert_eq!(pings, 6);
    assert_eq!(waits, vec![5000, 10000, 15000, 20000, 60000]);
}

#[test]
fn endpoint_check_stops_on_answer_or_cancel() {
    let mut c = EndpointCheck::new();
    assert_eq!(c.step(EndpointEvent::Answered(false)), EndpointAction::Wait(5000));
    assert_eq!(c.step(EndpointEvent::Waited), EndpointAction::Ping);
    assert_eq!(c.step(EndpointEvent::Answered(true)), EndpointAction::Finish(true, false));
    let mut c = EndpointCheck::new();
    assert_eq!(c.step(EndpointEvent::Cancelled), EndpointAction::Finish(false, true));
    assert_eq!(c.step(EndpointEvent::Answered(true)), EndpointAction::Finish(false, true));
}

fn rules(whitelist: bool, before: bool, after: bool, every: u32) -> IterationRules {
    IterationRules { whitelist, check_before: before, check_after: after, stop_every: every }
}

fn drive(r: IterationRules, events: &[IterationEvent]) -> Vec<IterationAction> {
    let mut it = SubnetIteration::start(r);
    let mut actions = vec![it.pending];
    for e in events {
        actions.push(it.step(*e));
    }
    actions
}

#[test]
fn iteration_of_a_good_subnet() {
    let a = drive(
        rules(false, false, false, 0),
        &[IterationEvent::Scanned(true), IterationEvent::Endpoint(true, false), IterationEvent::Done, IterationEvent::Saved(2)],
    );
    assert_eq!(
        a,
        vec![
            IterationAction::ScanSubnet,
            IterationAction::CheckEndpoint,
            IterationAction::RecordSuccess,
            IterationAction::SaveSnapshot,
            IterationAction::Finish(SubnetIterationOutcome::Continue)
        ]
    );
}

#[test]
fn iteration_with_whitelist_and_pause() {
    let a = drive(
        rules(true, true, true, 2),
        &[
            IterationEvent::Whitelist(StopProbeResult::ContinueUnavailable),
            IterationEvent::Scanned(true),
            IterationEvent::Whitelist(StopProbeResult::ContinueUnavailable),
            IterationEvent::Endpoint(true, false),
            IterationEvent::Done,
            IterationEvent::Saved(4),
            IterationEvent::Done,
        ],
    );
    assert_eq!(
        a,
        vec![
            IterationAction::ProbeWhitelist(false),
            IterationAction::ScanSubnet,
            IterationAction::ProbeWhitelist(true),
            IterationAction::CheckEndpoint,
            IterationAction::RecordSuccess,
            IterationAction::SaveSnapshot,
            IterationAction::PeriodicStop,
            IterationAction::Finish(SubnetIterationOutcome::Continue)
        ]
    );
}

#[test]
fn iteration_stops_for_the_whitelist_after_the_scan() {
    let a = drive(
        rules(true, false, true, 0),
        &[
            IterationEvent::Whitelist(StopProbeResult::ContinueAvailable),
            IterationEvent::Scanned(true),
            IterationEvent::Whitelist(StopProbeResult::ContinueAvailable),
            IterationEvent::Done,
        ],
    );
    assert_eq!(
        a,
        vec![
            IterationAction::ProbeWhitelist(false),
            IterationAction::ScanSubnet,
            IterationAction::ProbeWhitelist(true),
            IterationAction::StopOnWhitelist(true),
            IterationAction::Finish(SubnetIterationOutcome::Stopped)
        ]
    );
}

#[test]
fn iteration_discards_a_subnet_when_the_endpoint_fails() {
    let a = drive(rules(false, false, false, 0), &[IterationEvent::Scanned(true), IterationEvent::Endpoint(false, false), IterationEvent::Done]);
    assert_eq!(a[2], IterationAction::HandleEndpointFailure);
    assert_eq!(a[3], IterationAction::Finish(SubnetIterationOutcome::Continue));
    let b = drive(rules(false, false, false, 0), &[IterationEvent::Scanned(true), IterationEvent::Endpoint(true, true)]);
    assert_eq!(b[2], IterationAction::Finish(SubnetIterationOutcome::Interrupted));
}

#[test]
fn iteration_records_a_failed_scan() {
    let a = drive(rules(true, true, true, 0), &[
        IterationEvent::Whitelist(StopProbeResult::ContinueUnavailable),
        IterationEvent::Scanned(false),
        IterationEvent::Done,
        IterationEvent::Saved(3),
    ]);
    assert_eq!(a[2], IterationAction::RecordFailure);
    assert_eq!(a[3], IterationAction::SaveSnapshot);
    assert_eq!(a[4], IterationAction::Finish(SubnetIterationOutcome::Continue));
}

#[test]
fn iteration_interrupted_before_scan() {
    let a = drive(rules(true, true, true, 0), &[IterationEvent::Whitelist(StopProbeResult::Interrupted)]);
    assert_eq!(a[1], IterationAction::Finish(SubnetIterationOutcome::Interrupted));
}

#[test]
fn whitelist_decisions() {
    assert_eq!(whitelist_decision(StopProbeResult::Interrupted, false), Some(SubnetIterationOutcome::Interrupted));
    assert_eq!(whitelist_decision(StopProbeResult::ContinueAvailable, true), Some(SubnetIterationOutcome::Stopped));
    assert_eq!(whitelist_decision(StopProbeResult::ContinueAvailable, false), None);
    assert_eq!(whitelist_decision(StopProbeResult::ContinueUnavailable, true), None);
}

#[test]
fn parallel_schedule() {
    let mut s = ParallelScheduler::new(3, 2);
    assert!(s.can_start(false));
    assert!(!s.can_start(true));
    assert_eq!(s.start_next(), 0);
    assert_eq!(s.start_next(), 1);
    assert!(!s.can_start(false));
    s.finished_one();
    assert!(!s.needs_endpoint_check());
    assert_eq!(s.start_next(), 2);
    s.finished_one();
    assert!(s.needs_endpoint_check());
    assert_eq!((s.next, s.inflight, s.batch), (3, 1, 2));
    let z = ParallelScheduler::new(5, 0);
    assert_eq!(z.parallelism, 1);
}

#[test]
fn parallel_run_commits_in_order_and_drops_on_endpoint_failure() {
    let mut r = ParallelRun::new(3, 2);
    assert_eq!(r.begin(), ParallelAction::Start(0));
    assert_eq!(r.step(ParallelEvent::Started, false), ParallelAction::Start(1));
    assert_eq!(r.step(ParallelEvent::Started, false), ParallelAction::Idle);
    assert_eq!(r.step(ParallelEvent::Joined(1, true), false), ParallelAction::Start(2));
    assert_eq!(r.step(ParallelEvent::Started, false), ParallelAction::Idle);
    assert_eq!(r.step(ParallelEvent::Joined(0, false), false), ParallelAction::CheckEndpoint);
    assert_eq!(r.batch, vec![(1, true), (0, false)]);
    assert_eq!(r.step(ParallelEvent::Endpoint(true), false), ParallelAction::Commit(1, true));
    assert_eq!(r.step(ParallelEvent::Committed, false), ParallelAction::Commit(0, false));
    assert_eq!(r.step(ParallelEvent::Committed, false), ParallelAction::Idle);
    assert!(r.batch.is_empty());
    assert_eq!(r.step(ParallelEvent::Joined(2, true), false), ParallelAction::CheckEndpoint);
    assert_eq!(r.step(ParallelEvent::Endpoint(false), false), ParallelAction::Recover);
    assert!(r.batch.is_empty());
    assert_eq!(r.sched.batch, 0);
    assert_eq!(r.step(ParallelEvent::Recovered, false), ParallelAction::Idle);
    assert_eq!((r.sched.next, r.sched.inflight), (3, 0));
}

#[test]
fn parallel_run_starts_nothing_when_cancelled_or_after_recovery() {
    let mut r = ParallelRun::new(4, 2);
    assert_eq!(r.begin(), ParallelAction::Start(0));
    assert_eq!(r.step(ParallelEvent::Started, true), ParallelAction::Idle);
    assert_eq!(r.step(ParallelEvent::Joined(0, true), false), ParallelAction::Start(1));
    assert_eq!(r.step(ParallelEvent::Started, false), ParallelAction::Start(2));
    assert_eq!(r.step(ParallelEvent::Started, false), ParallelAction::Idle);
    assert_eq!(r.step(ParallelEvent::Joined(2, true), false), ParallelAction::CheckEndpoint);
    assert_eq!(r.step(ParallelEvent::Endpoint(false), false), ParallelAction::Recover);
    assert_eq!(r.step(ParallelEvent::Recovered, false), ParallelAction::Idle);
    assert_eq!(r.sched.inflight, 1);
    assert_eq!(r.step(ParallelEvent::Joined(1, false), false), ParallelAction::Start(3));
    let mut z = ParallelRun::new(0, 0);
    assert_eq!(z.begin(), ParallelAction::Idle);
}

#[test]
fn snapshot_keeps_the_other_fields() {
    let mut s = state(&["a"], &["b"], false);
    s.stopped_reason = Some("r".to_string());
    let before = s.clone();
    let mut b = SessionBook::from_state(&s);
    b.record_success("b");
    b.snapshot(&mut s);
    assert_eq!(s.completed_subnets, vec!["a".to_string(), "b".to_string()]);
    assert!(s.failed_subnets.is_empty());
    assert_eq!(s.subnet24_count, before.subnet24_count + 1);
    assert_eq!(s.version, before.version);
    assert_eq!(s.job_id, before.job_id);
    assert_eq!(s.scan_name, before.scan_name);
    assert_eq!(s.result_csv, before.result_csv);
    assert_eq!(s.result_jsonl, before.result_jsonl);
    assert_eq!(s.result_alive_txt, before.result_alive_txt);
    assert_eq!(s.result_rejected_txt, before.result_rejected_txt);
    assert_eq!(s.created_at, before.created_at);
    assert_eq!(s.updated_at, before.updated_at);
    assert_eq!(s.finished, before.finished);
    assert_eq!(s.stopped_reason, before.stopped_reason);
}

#[test]
fn resumed_session_skips_completed_subnets() {
    let saved = state(&["10.0.1.0/24", "10.0.3.0/24"], &["10.0.2.0/24"], false);
    assert!(resume_saved(true, &Some(saved.clone())));
    let book = SessionBook::from_state(&saved);
    let all: Vec<String> = (0..5).map(|k| format!("10.0.{k}.0/24")).collect();
    assert_eq!(pending_subnets(&all, &book.completed), vec![0, 2, 4]);
}

#[test]
fn endpoint_failure_plans() {
    let task = |url: Option<&str>, delay: Option<u64>| {
        Some(SubnetsScan {
            stop_every_times: 0,
            stop_action: ConfigStopAction::Delay,
            change_ip_url: url.map(str::to_string),
            delay_seconds: delay,
        })
    };
    assert_eq!(endpoint_failure_plan(false, &task(Some("http://h"), None)), EndpointFailurePlan::Stop);
    assert_eq!(endpoint_failure_plan(true, &None), EndpointFailurePlan::MissingTask);
    assert_eq!(endpoint_failure_plan(true, &task(None, Some(3))), EndpointFailurePlan::MissingUrl);
    assert_eq!(endpoint_failure_plan(true, &task(Some("http://h"), None)), EndpointFailurePlan::Rotate("http://h".to_string(), 5));
    assert_eq!(endpoint_failure_plan(true, &task(Some("http://h"), Some(30))), EndpointFailurePlan::Rotate("http://h".to_string(), 30));
}

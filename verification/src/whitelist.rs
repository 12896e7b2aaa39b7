//! The whitelist target whose reachability stops a scan: when it is watched,
//! how it is named, what the dashboard shows of it, and what a stop on it
//! records in the saved state.
use vstd::prelude::*;
use crate::text::{dec, trim, chars_of, trim_chars, push_str, push_char, push_dec};
use crate::tcp_ping::has_char;
use crate::tui::WhitelistInfo;
use crate::scan_state::ScanState;
use crate::init::ConfigPingType;

verus! {

/// The `[stop_on_available]` settings.
#[derive(Clone, Debug)]
pub struct StopOnAvailableConfig {
    pub enabled: bool,
    pub target: String,
    pub port: u16,
    pub check_before_subnet: bool,
    pub check_after_subnet: bool,
}

/// The target is watched: the check is switched on and names a target.
pub open spec fn spec_active(stop: StopOnAvailableConfig) -> bool {
    stop.enabled && trim(stop.target@).len() > 0
}

/// The name of the target: the target itself where it holds a `:` (a port of
/// its own), else `target:port`.
pub open spec fn target_label(stop: StopOnAvailableConfig) -> Seq<char> {
    if stop.target@.contains(':') {
        stop.target@
    } else {
        stop.target@ + seq![':'] + dec(stop.port as nat)
    }
}

impl StopOnAvailableConfig {
    /// Whether the target is watched (see [`spec_active`]).
    pub fn is_active(&self) -> (r: bool)
        ensures
            r == spec_active(*self),
    {
        self.enabled && trim_chars(&chars_of(self.target.as_str())).len() > 0
    }

    /// The name of the target (see [`target_label`]).
    pub fn label(&self) -> (r: String)
        ensures
            r@ == target_label(*self),
    {
        let mut s = String::new();
        push_str(&mut s, self.target.as_str());
        if !has_char(self.target.as_str(), ':') {
            push_char(&mut s, ':');
            push_dec(&mut s, self.port as u64);
        }
        assert(s@ =~= target_label(*self));
        s
    }
}

/// What the dashboard shows of the whitelist settings: a watched target by
/// name with its two switches; a switched-on check without a target as
/// `target пуст`, not watched; otherwise off.
pub open spec fn shown_whitelist(stop: Option<StopOnAvailableConfig>, w: WhitelistInfo) -> bool {
    match stop {
        Some(s) => if spec_active(s) {
            w.label@ == target_label(s) && w.enabled && w.check_before == s.check_before_subnet
                && w.check_after == s.check_after_subnet
        } else if s.enabled {
            w.label@ == "target пуст"@ && !w.enabled && w.check_before == s.check_before_subnet
                && w.check_after == s.check_after_subnet
        } else {
            w.label@ == "выкл"@ && !w.enabled && !w.check_before && !w.check_after
        },
        None => w.label@ == "выкл"@ && !w.enabled && !w.check_before && !w.check_after,
    }
}

/// The whitelist settings as the dashboard shows them (see [`shown_whitelist`]).
pub fn whitelist_info(stop: &Option<StopOnAvailableConfig>) -> (w: WhitelistInfo)
    ensures
        shown_whitelist(*stop, w),
{
    match stop {
        Some(s) => if s.is_active() {
            WhitelistInfo {
                label: s.label(),
                enabled: true,
                check_before: s.check_before_subnet,
                check_after: s.check_after_subnet,
            }
        } else if s.enabled {
            WhitelistInfo {
                label: String::from_str("target пуст"),
                enabled: false,
                check_before: s.check_before_subnet,
                check_after: s.check_after_subnet,
            }
        } else {
            WhitelistInfo::off()
        },
        None => WhitelistInfo::off(),
    }
}

/// The name a probe type is shown with.
pub open spec fn ping_label(t: ConfigPingType) -> Seq<char> {
    match t {
        ConfigPingType::ICMP => "ICMP"@,
        ConfigPingType::TCP => "TCP"@,
    }
}

/// The names of the probe types, in order.
pub fn ping_types_label(ping_type: &Vec<ConfigPingType>) -> (r: Vec<String>)
    ensures
        r@.len() == ping_type@.len(),
        forall|i: int| 0 <= i < r@.len() ==> (#[trigger] r@[i])@ == ping_label(ping_type@[i]),
{
    let mut r: Vec<String> = Vec::new();
    let mut i: usize = 0;
    while i < ping_type.len()
        invariant
            i <= ping_type@.len(),
            r@.len() == i,
            forall|j: int| 0 <= j < i ==> (#[trigger] r@[j])@ == ping_label(ping_type@[j]),
        decreases ping_type@.len() - i,
    {
        let t = match ping_type[i] {
            ConfigPingType::ICMP => String::from_str("ICMP"),
            ConfigPingType::TCP => String::from_str("TCP"),
        };
        r.push(t);
        i = i + 1;
    }
    r
}

/// The stop reason saved when the target became reachable.
pub open spec fn stop_reason_text(label: Seq<char>) -> Seq<char> {
    "stop_on_available:"@ + label
}

/// Records a stop on the whitelist target in the state: the reason names the
/// target and the job stays unfinished, so that it can be resumed; nothing
/// else changes.
pub fn record_whitelist_stop(state: &mut ScanState, label: &str)
    ensures
        final(state).stopped_reason matches Some(r) && r@ == stop_reason_text(label@),
        !final(state).finished,
        final(state).completed_subnets == old(state).completed_subnets,
        final(state).failed_subnets == old(state).failed_subnets,
        final(state).subnet24_count == old(state).subnet24_count,
        final(state).version == old(state).version,
        final(state).job_id == old(state).job_id,
        final(state).scan_name == old(state).scan_name,
        final(state).result_csv == old(state).result_csv,
        final(state).result_jsonl == old(state).result_jsonl,
        final(state).result_alive_txt == old(state).result_alive_txt,
        final(state).result_rejected_txt == old(state).result_rejected_txt,
        final(state).created_at == old(state).created_at,
        final(state).updated_at == old(state).updated_at,
{
    let mut reason = String::from_str("stop_on_available:");
    push_str(&mut reason, label);
    state.stopped_reason = Some(reason);
    state.finished = false;
}

/// The message of a stop on the whitelist target; names the subnet whose
/// result was discarded, if any.
pub fn whitelist_stop_message(label: &str, subnet: Option<&str>) -> (r: String)
    ensures
        r@ == match subnet {
            Some(s) => "whitelist stop: "@ + label@ + " available, discarded "@ + s@,
            None => "whitelist stop: "@ + label@ + " available"@,
        },
{
    let mut m = String::from_str("whitelist stop: ");
    push_str(&mut m, label);
    push_str(&mut m, " available");
    match subnet {
        Some(s) => {
            push_str(&mut m, ", discarded ");
            push_str(&mut m, s);
        },
        None => {},
    }
    proof {
        reveal_strlit("whitelist stop: ");
        reveal_strlit(" available");
        reveal_strlit(", discarded ");
        reveal_strlit(" available, discarded ");
    }
    assert(match subnet {
        Some(s) => m@ =~= "whitelist stop: "@ + label@ + " available, discarded "@ + s@,
        None => m@ =~= "whitelist stop: "@ + label@ + " available"@,
    });
    m
}


// ---------------------------------------------------------------------------
// One look at the target
// ---------------------------------------------------------------------------

/// What a look at the target has learnt so far: whether its address is known
/// (it is resolved once and kept), and whether a failed resolution was
/// already reported (it is reported once).
#[derive(Clone, Copy, Debug, PartialEq, Eq, Structural)]
pub struct WhitelistLook {
    pub resolved: bool,
    pub error_reported: bool,
}

/// What a look at the target is told.
#[derive(Clone, Copy, Debug, PartialEq, Eq, Structural)]
pub enum LookEvent {
    /// A new look begins.
    Begin,
    /// The resolution of the target's address succeeded or failed.
    Resolved(bool),
    /// The TCP probe of the kept address answered or not.
    Probed(bool),
}

/// What a look at the target asks for next.
#[derive(Clone, Copy, Debug, PartialEq, Eq, Structural)]
pub enum LookAction {
    /// Resolve the target's address.
    Resolve,
    /// Probe the kept address.
    Probe,
    /// The look is over: the target is unreachable, and the failed resolution
    /// is to be reported (the first time only).
    ResolveFailed(bool),
    /// The look is over because the session was cancelled.
    Cancelled,
    /// The look is over: the target is reachable or not.
    Done(bool),
}

/// One step of a look. The address is resolved only while none is kept; a
/// failed resolution ends the look as unreachable and is reported the first
/// time; a cancelled session ends the look before the probe.
pub open spec fn look_next(s: WhitelistLook, e: LookEvent, cancelled: bool) -> (WhitelistLook, LookAction) {
    match e {
        LookEvent::Begin => if !s.resolved {
            (s, LookAction::Resolve)
        } else if cancelled {
            (s, LookAction::Cancelled)
        } else {
            (s, LookAction::Probe)
        },
        LookEvent::Resolved(ok) => if ok {
            (
                WhitelistLook { resolved: true, error_reported: s.error_reported },
                if cancelled { LookAction::Cancelled } else { LookAction::Probe },
            )
        } else {
            (WhitelistLook { resolved: s.resolved, error_reported: true }, LookAction::ResolveFailed(!s.error_reported))
        },
        LookEvent::Probed(alive) => (s, LookAction::Done(alive)),
    }
}

impl WhitelistLook {
    /// Nothing is known of the target yet.
    pub fn new() -> (r: WhitelistLook)
        ensures
            !r.resolved,
            !r.error_reported,
    {
        WhitelistLook { resolved: false, error_reported: false }
    }

    /// Takes what the last action led to and gives the next action.
    pub fn step(&mut self, e: LookEvent, cancelled: bool) -> (a: LookAction)
        ensures
            (*final(self), a) == look_next(*old(self), e, cancelled),
    {
        match e {
            LookEvent::Begin => {
                if !self.resolved {
                    LookAction::Resolve
                } else if cancelled {
                    LookAction::Cancelled
                } else {
                    LookAction::Probe
                }
            },
            LookEvent::Resolved(ok) => {
                if ok {
                    self.resolved = true;
                    if cancelled {
                        LookAction::Cancelled
                    } else {
                        LookAction::Probe
                    }
                } else {
                    let first = !self.error_reported;
                    self.error_reported = true;
                    LookAction::ResolveFailed(first)
                }
            },
            LookEvent::Probed(alive) => LookAction::Done(alive),
        }
    }
}

/// Law: a failed resolution is reported at most once over a session, and a
/// kept address is never resolved again.
pub proof fn lemma_look_reports_once(s: WhitelistLook, e: LookEvent, cancelled: bool)
    ensures
        look_next(s, e, cancelled).1 == LookAction::ResolveFailed(true) ==> !s.error_reported,
        s.error_reported ==> look_next(s, e, cancelled).0.error_reported,
        s.resolved ==> look_next(s, e, cancelled).0.resolved && look_next(s, e, cancelled).1 != LookAction::Resolve,
{
}

} // verus!

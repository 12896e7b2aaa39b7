//! Probing one host: the order of ICMP echoes, pauses and TCP connects, and
//! what their outcomes make of the host's record.
use vstd::prelude::*;
use crate::init::ConfigPingType;
use crate::tcp_ping::TcpProbeStatus;
use crate::utils::insert_sorted;

verus! {

broadcast use vstd::seq_lib::group_seq_properties;

/// What the probes of one host found.
#[derive(Clone, Debug)]
pub struct HostProbeResult {
    pub icmp: bool,
    pub tcp_ports: Vec<u16>,
    pub tcp_rejected_ports: Vec<u16>,
}

/// Whether the host answered ICMP echo.
pub open spec fn echoed(r: HostProbeResult) -> bool {
    r.icmp
}

impl HostProbeResult {
    /// Some TCP port answered.
    pub fn tcp_alive(&self) -> (r: bool)
        ensures
            r == (self.tcp_ports@.len() > 0),
    {
        self.tcp_ports.len() > 0
    }
}

/// The items strictly increase.
pub open spec fn strictly_sorted(s: Seq<u16>) -> bool {
    forall|i: int, j: int| 0 <= i < j < s.len() ==> s[i] < s[j]
}

/// The TCP ports probed: the configured ones and 443, each once, in
/// increasing order.
pub fn tcp_ports_with_443(tcp_ports: &[u16]) -> (r: Vec<u16>)
    ensures
        strictly_sorted(r@),
        r@.to_set() == tcp_ports@.to_set().insert(443),
{
    let mut r: Vec<u16> = Vec::new();
    insert_sorted(&mut r, 443);
    let mut i: usize = 0;
    while i < tcp_ports.len()
        invariant
            i <= tcp_ports@.len(),
            strictly_sorted(r@),
            forall|x: u16| r@.contains(x) <==> (x == 443 || tcp_ports@.take(i as int).contains(x)),
        decreases tcp_ports@.len() - i,
    {
        insert_sorted(&mut r, tcp_ports[i]);
        proof {
            assert(tcp_ports@.take(i + 1) =~= tcp_ports@.take(i as int).push(tcp_ports@[i as int]));
        }
        i = i + 1;
    }
    assert(tcp_ports@.take(tcp_ports@.len() as int) =~= tcp_ports@);
    assert(r@.to_set() =~= tcp_ports@.to_set().insert(443));
    r
}

// ---------------------------------------------------------------------------
// The probe sequence of one host
// ---------------------------------------------------------------------------

/// The next thing a host probe needs done.
#[derive(Clone, Copy, Debug, PartialEq, Eq, Structural)]
pub enum ProbeAction {
    /// Send one ICMP echo (one second timeout).
    Ping,
    /// Wait 200 ms after an unanswered echo.
    Pause,
    /// Probe this TCP port (two second timeout).
    Connect(u16),
    /// Nothing more: the result is final.
    Done,
}

/// What came of the last action.
#[derive(Clone, Copy, Debug, PartialEq, Eq, Structural)]
pub enum ProbeEvent {
    /// The echo was answered, or not.
    PingReply(bool),
    /// The pause is over.
    Paused,
    /// The TCP probe ended with this status.
    Connected(TcpProbeStatus),
}

/// Which probes are under way.
#[derive(Clone, Copy, Debug, PartialEq, Eq, Structural)]
pub enum ProbeStage {
    Echo,
    Tcp,
    Finished,
}

/// The probing of one host: up to `attempts` echoes until one is answered,
/// then up to `attempts` rounds over the ports until a round finds one alive.
pub struct HostProbe {
    pub attempts: u8,
    pub use_tcp: bool,
    pub ports: Vec<u16>,
    pub stage: ProbeStage,
    pub attempt: u8,
    pub port_index: usize,
    pub pending: ProbeAction,
    pub result: HostProbeResult,
}

/// Mathematical value of a [`HostProbe`].
pub struct ProbeState {
    pub attempts: nat,
    pub use_tcp: bool,
    pub ports: Seq<u16>,
    pub stage: ProbeStage,
    pub attempt: nat,
    pub port_index: nat,
    pub pending: ProbeAction,
    pub echo: bool,
    pub alive: Seq<u16>,
    pub rejected: Seq<u16>,
}

impl View for HostProbe {
    type V = ProbeState;

    open spec fn view(&self) -> ProbeState {
        ProbeState {
            attempts: self.attempts as nat,
            use_tcp: self.use_tcp,
            ports: self.ports@,
            stage: self.stage,
            attempt: self.attempt as nat,
            port_index: self.port_index as nat,
            pending: self.pending,
            echo: echoed(self.result),
            alive: self.result.tcp_ports@,
            rejected: self.result.tcp_rejected_ports@,
        }
    }
}

/// Entering the TCP probes: the first port of the first round, or the end
/// where TCP is not probed or no round is allowed.
pub open spec fn tcp_stage(s: ProbeState) -> ProbeState {
    if s.use_tcp && s.attempts > 0 && s.ports.len() > 0 {
        ProbeState { stage: ProbeStage::Tcp, attempt: 0, port_index: 0, pending: ProbeAction::Connect(s.ports[0]), ..s }
    } else {
        ProbeState { stage: ProbeStage::Finished, attempt: 0, port_index: 0, pending: ProbeAction::Done, ..s }
    }
}

/// The state a probe starts in.
pub open spec fn probe_start(attempts: nat, use_echo: bool, use_tcp: bool, ports: Seq<u16>) -> ProbeState {
    let s = ProbeState {
        attempts,
        use_tcp,
        ports,
        stage: ProbeStage::Echo,
        attempt: 0,
        port_index: 0,
        pending: ProbeAction::Ping,
        echo: false,
        alive: Seq::empty(),
        rejected: Seq::empty(),
    };
    if use_echo && attempts > 0 {
        s
    } else {
        tcp_stage(s)
    }
}

/// The port list with `p` added at the end where it is not yet there.
pub open spec fn add_once(s: Seq<u16>, p: u16) -> Seq<u16> {
    if s.contains(p) {
        s
    } else {
        s.push(p)
    }
}

/// How an event changes the probe. An event that does not answer the pending
/// action changes nothing.
pub open spec fn probe_next(s: ProbeState, e: ProbeEvent) -> ProbeState {
    match (s.pending, e) {
        (ProbeAction::Ping, ProbeEvent::PingReply(true)) => tcp_stage(ProbeState { echo: true, ..s }),
        (ProbeAction::Ping, ProbeEvent::PingReply(false)) => ProbeState { pending: ProbeAction::Pause, ..s },
        (ProbeAction::Pause, ProbeEvent::Paused) => {
            if s.attempt + 1 < s.attempts {
                ProbeState { attempt: s.attempt + 1, pending: ProbeAction::Ping, ..s }
            } else {
                tcp_stage(s)
            }
        },
        (ProbeAction::Connect(p), ProbeEvent::Connected(st)) => {
            let alive = if st.spec_is_alive() { add_once(s.alive, p) } else { s.alive };
            let rejected = if st is Rejected { add_once(s.rejected, p) } else { s.rejected };
            if s.port_index + 1 < s.ports.len() {
                ProbeState {
                    port_index: s.port_index + 1,
                    pending: ProbeAction::Connect(s.ports[s.port_index + 1int]),
                    alive,
                    rejected,
                    ..s
                }
            } else if alive.len() > 0 || s.attempt + 1 >= s.attempts {
                ProbeState { stage: ProbeStage::Finished, pending: ProbeAction::Done, alive, rejected, ..s }
            } else {
                ProbeState {
                    attempt: s.attempt + 1,
                    port_index: 0,
                    pending: ProbeAction::Connect(s.ports[0]),
                    alive,
                    rejected,
                    ..s
                }
            }
        },
        _ => s,
    }
}

/// The items are pairwise distinct.
pub open spec fn distinct(s: Seq<u16>) -> bool {
    forall|i: int, j: int| 0 <= i < j < s.len() ==> s[i] != s[j]
}

/// The consistency of a probe: the stage and the pending action agree, the
/// counters are in range, the live ports are probed ports, each once, and the
/// refusing ports are live ports, each once.
pub open spec fn probe_wf(s: ProbeState) -> bool {
    &&& s.attempts <= 255
    &&& s.ports.len() > 0
    &&& distinct(s.ports)
    &&& distinct(s.alive)
    &&& distinct(s.rejected)
    &&& forall|p: u16| s.alive.contains(p) ==> s.ports.contains(p)
    &&& forall|p: u16| s.rejected.contains(p) ==> s.alive.contains(p)
    &&& match s.stage {
        ProbeStage::Echo => {
            &&& s.attempt < s.attempts
            &&& (s.pending == ProbeAction::Ping || s.pending == ProbeAction::Pause)
            &&& !s.echo
            &&& s.alive.len() == 0
        },
        ProbeStage::Tcp => {
            &&& s.use_tcp
            &&& s.attempt < s.attempts
            &&& s.port_index < s.ports.len()
            &&& s.pending == ProbeAction::Connect(s.ports[s.port_index as int])
            &&& s.alive.len() == 0 || s.port_index > 0
        },
        ProbeStage::Finished => s.pending == ProbeAction::Done,
    }
}

/// An upper bound on the actions a probe still asks for before `Done`.
pub open spec fn probe_budget(s: ProbeState) -> nat {
    let rounds: nat = if s.use_tcp { s.attempts * s.ports.len() } else { 0 };
    match s.stage {
        ProbeStage::Echo => {
            let left: int = (s.attempts - s.attempt) * 2 - if s.pending == ProbeAction::Pause { 1int } else { 0int };
            (left + rounds) as nat
        },
        ProbeStage::Tcp => ((s.attempts - s.attempt) * s.ports.len() - s.port_index) as nat,
        ProbeStage::Finished => 0,
    }
}

/// An event that answers the pending action.
pub open spec fn answers(a: ProbeAction, e: ProbeEvent) -> bool {
    match (a, e) {
        (ProbeAction::Ping, ProbeEvent::PingReply(_)) => true,
        (ProbeAction::Pause, ProbeEvent::Paused) => true,
        (ProbeAction::Connect(_), ProbeEvent::Connected(_)) => true,
        _ => false,
    }
}

proof fn lemma_add_once(s: Seq<u16>, p: u16, ports: Seq<u16>)
    requires
        distinct(s),
        ports.contains(p),
        forall|q: u16| s.contains(q) ==> ports.contains(q),
    ensures
        distinct(add_once(s, p)),
        add_once(s, p).contains(p),
        forall|q: u16| add_once(s, p).contains(q) <==> (s.contains(q) || q == p),
        forall|q: u16| add_once(s, p).contains(q) ==> ports.contains(q),
        add_once(s, p).len() >= s.len(),
{
    if !s.contains(p) {
        assert forall|i: int, j: int| 0 <= i < j < s.push(p).len() implies s.push(p)[i] != s.push(p)[j] by {
            if j == s.len() {
                assert(s.contains(s[i]));
            }
        }
        assert(s.push(p)[s.len() as int] == p);
    }
}

proof fn lemma_budget_mul(a: nat, b: nat, n: nat)
    requires
        b < a,
        n > 0,
    ensures
        (a - b) * n >= n,
        (a - b) * n == (a - (b + 1)) * n + n,
{
    assert((a - b) * n == (a - (b + 1)) * n + n) by (nonlinear_arith)
        requires b < a;
    assert((a - (b + 1)) * n >= 0) by (nonlinear_arith)
        requires b < a;
}

/// Each answered action keeps the probe consistent and brings it closer to
/// the end: the budget of remaining actions shrinks; an event that does not
/// answer the pending action changes nothing.
pub proof fn lemma_probe_step(s: ProbeState, e: ProbeEvent)
    requires
        probe_wf(s),
    ensures
        probe_wf(probe_next(s, e)),
        answers(s.pending, e) && s.stage != ProbeStage::Finished ==> probe_budget(probe_next(s, e)) < probe_budget(s),
        !answers(s.pending, e) ==> probe_next(s, e) == s,
        s.stage == ProbeStage::Finished ==> probe_next(s, e) == s,
{
    let n = probe_next(s, e);
    let rounds: nat = if s.use_tcp { s.attempts * s.ports.len() } else { 0 };
    if s.use_tcp {
        assert(s.attempts * s.ports.len() >= 0) by (nonlinear_arith);
    }
    match (s.pending, e) {
        (ProbeAction::Ping, ProbeEvent::PingReply(true)) => {
            if s.use_tcp && s.attempts > 0 {
                lemma_budget_mul(s.attempts, 0, s.ports.len());
            }
        },
        (ProbeAction::Ping, ProbeEvent::PingReply(false)) => {},
        (ProbeAction::Pause, ProbeEvent::Paused) => {
            if s.attempt + 1 < s.attempts {
            } else if s.use_tcp && s.attempts > 0 {
                lemma_budget_mul(s.attempts, 0, s.ports.len());
            }
        },
        (ProbeAction::Connect(p), ProbeEvent::Connected(st)) => {
            assert(s.stage == ProbeStage::Tcp);
            assert(p == s.ports[s.port_index as int]);
            assert(s.ports.contains(p));
            lemma_add_once(s.alive, p, s.ports);
            let alive = if st.spec_is_alive() { add_once(s.alive, p) } else { s.alive };
            if st is Rejected {
                assert forall|q: u16| s.rejected.contains(q) implies s.ports.contains(q) by {
                    assert(s.alive.contains(q));
                }
                lemma_add_once(s.rejected, p, s.ports);
                assert(alive.contains(p));
            }
            lemma_budget_mul(s.attempts, s.attempt, s.ports.len());
            if s.port_index + 1 < s.ports.len() {
            } else if alive.len() > 0 || s.attempt + 1 >= s.attempts {
            } else {
                assert(s.attempt + 1 < s.attempts);
            }
        },
        _ => {},
    }
}

/// Whether a ping type list holds a type.
fn has_ping_type(v: &Vec<ConfigPingType>, t: ConfigPingType) -> (r: bool)
    ensures
        r == v@.contains(t),
{
    let mut i: usize = 0;
    while i < v.len()
        invariant
            i <= v@.len(),
            forall|j: int| 0 <= j < i ==> v@[j] != t,
        decreases v@.len() - i,
    {
        if v[i] == t {
            assert(v@[i as int] == t);
            return true;
        }
        i = i + 1;
    }
    false
}

/// The probe types ask for ICMP echo.
pub open spec fn echo_requested(v: Seq<ConfigPingType>) -> bool {
    v.contains(ConfigPingType::ICMP)
}

/// The probe types ask for TCP probes.
pub open spec fn tcp_requested(v: Seq<ConfigPingType>) -> bool {
    v.contains(ConfigPingType::TCP)
}

fn wants_echo(v: &Vec<ConfigPingType>) -> (r: bool)
    ensures
        r == echo_requested(v@),
{
    has_ping_type(v, ConfigPingType::ICMP)
}

fn empty_result() -> (r: HostProbeResult)
    ensures
        !echoed(r),
        r.tcp_ports@.len() == 0,
        r.tcp_rejected_ports@.len() == 0,
{
    HostProbeResult { icmp: false, tcp_ports: Vec::new(), tcp_rejected_ports: Vec::new() }
}

proof fn lemma_sorted_distinct(s: Seq<u16>)
    requires
        strictly_sorted(s),
    ensures
        distinct(s),
{
}

impl HostProbe {
    /// A probe of a host with `attempts` tries, by the given probe types, over
    /// the given ports and 443.
    pub fn start(attempts: u8, ping_type: &Vec<ConfigPingType>, tcp_ports: &[u16]) -> (r: HostProbe)
        ensures
            strictly_sorted(r@.ports),
            r@.ports.to_set() == tcp_ports@.to_set().insert(443),
            r@ == probe_start(
                attempts as nat,
                echo_requested(ping_type@),
                tcp_requested(ping_type@),
                r@.ports,
            ),
            probe_wf(r@),
    {
        let use_echo = wants_echo(ping_type);
        let use_tcp = has_ping_type(ping_type, ConfigPingType::TCP);
        let ports = tcp_ports_with_443(tcp_ports);
        assert(ports@.to_set().contains(443));
        assert(ports@.len() > 0);
        let first = ports[0];
        let result = empty_result();
        let r = if use_echo && attempts > 0 {
            HostProbe { attempts, use_tcp, ports, stage: ProbeStage::Echo, attempt: 0, port_index: 0, pending: ProbeAction::Ping, result }
        } else if use_tcp && attempts > 0 {
            HostProbe { attempts, use_tcp, ports, stage: ProbeStage::Tcp, attempt: 0, port_index: 0, pending: ProbeAction::Connect(first), result }
        } else {
            HostProbe { attempts, use_tcp, ports, stage: ProbeStage::Finished, attempt: 0, port_index: 0, pending: ProbeAction::Done, result }
        };
        proof {
            lemma_sorted_distinct(r@.ports);
        }
        assert(r@ =~= probe_start(attempts as nat, use_echo, use_tcp, r@.ports));
        r
    }

    /// The action the probe waits on.
    pub fn action(&self) -> (a: ProbeAction)
        ensures
            a == self@.pending,
    {
        self.pending
    }

    fn enter_tcp(&mut self)
        requires
            probe_wf(old(self)@) || old(self)@.stage != ProbeStage::Tcp,
            old(self)@.ports.len() > 0,
        ensures
            final(self)@ == tcp_stage(old(self)@),
    {
        if self.use_tcp && self.attempts > 0 {
            self.stage = ProbeStage::Tcp;
            self.attempt = 0;
            self.port_index = 0;
            self.pending = ProbeAction::Connect(self.ports[0]);
        } else {
            self.stage = ProbeStage::Finished;
            self.attempt = 0;
            self.port_index = 0;
            self.pending = ProbeAction::Done;
        }
    }

    /// Takes in what came of the pending action and gives the next action.
    pub fn step(&mut self, event: ProbeEvent) -> (a: ProbeAction)
        requires
            probe_wf(old(self)@),
        ensures
            final(self)@ == probe_next(old(self)@, event),
            a == final(self)@.pending,
            probe_wf(final(self)@),
    {
        proof {
            lemma_probe_step(self@, event);
        }
        match (self.pending, event) {
            (ProbeAction::Ping, ProbeEvent::PingReply(true)) => {
                self.result.icmp = true;
                self.enter_tcp();
            },
            (ProbeAction::Ping, ProbeEvent::PingReply(false)) => {
                self.pending = ProbeAction::Pause;
            },
            (ProbeAction::Pause, ProbeEvent::Paused) => {
                if self.attempt + 1 < self.attempts {
                    self.attempt = self.attempt + 1;
                    self.pending = ProbeAction::Ping;
                } else {
                    self.enter_tcp();
                }
            },
            (ProbeAction::Connect(p), ProbeEvent::Connected(st)) => {
                assert(self.stage == ProbeStage::Tcp);
                assert(self.port_index < self.ports.len());
                if st.is_alive() && !port_listed(&self.result.tcp_ports, p) {
                    self.result.tcp_ports.push(p);
                }
                if st == TcpProbeStatus::Rejected && !port_listed(&self.result.tcp_rejected_ports, p) {
                    self.result.tcp_rejected_ports.push(p);
                }
                if self.port_index + 1 < self.ports.len() {
                    self.port_index = self.port_index + 1;
                    self.pending = ProbeAction::Connect(self.ports[self.port_index]);
                } else if self.result.tcp_ports.len() > 0 || self.attempt + 1 >= self.attempts {
                    self.stage = ProbeStage::Finished;
                    self.pending = ProbeAction::Done;
                } else {
                    self.attempt = self.attempt + 1;
                    self.port_index = 0;
                    self.pending = ProbeAction::Connect(self.ports[0]);
                }
            },
            _ => {},
        }
        assert(self@ =~= probe_next(old(self)@, event));
        self.pending
    }

    /// The result of the probe.
    pub fn into_result(self) -> (r: HostProbeResult)
        ensures
            echoed(r) == self@.echo,
            r.tcp_ports@ == self@.alive,
            r.tcp_rejected_ports@ == self@.rejected,
    {
        self.result
    }
}

/// Whether a port list holds a port.
pub fn port_listed(v: &Vec<u16>, p: u16) -> (r: bool)
    ensures
        r == v@.contains(p),
{
    let mut i: usize = 0;
    while i < v.len()
        invariant
            i <= v@.len(),
            forall|j: int| 0 <= j < i ==> v@[j] != p,
        decreases v@.len() - i,
    {
        if v[i] == p {
            assert(v@[i as int] == p);
            return true;
        }
        i = i + 1;
    }
    false
}

/// Law: the TCP probes of a host go round the ports in order. Within a round
/// the port after the one just probed is probed next; after the last port a
/// round that found no live port, with rounds left, is followed by a new round
/// that starts again at the first port, so every round probes every port; a
/// round that found a live port, or the last allowed round, ends the probe.
/// A port that answered stays found.
pub proof fn lemma_tcp_rounds(s: ProbeState, st: TcpProbeStatus)
    requires
        probe_wf(s),
        s.stage == ProbeStage::Tcp,
    ensures
        ({
            let n = probe_next(s, ProbeEvent::Connected(st));
            &&& s.port_index + 1 < s.ports.len() ==> n.stage == ProbeStage::Tcp && n.attempt == s.attempt
                && n.port_index == s.port_index + 1 && n.pending == ProbeAction::Connect(s.ports[s.port_index + 1int])
            &&& s.port_index + 1 == s.ports.len() && n.alive.len() == 0 && s.attempt + 1 < s.attempts
                ==> n.stage == ProbeStage::Tcp && n.attempt == s.attempt + 1 && n.port_index == 0
                    && n.pending == ProbeAction::Connect(s.ports[0])
            &&& s.port_index + 1 == s.ports.len() && (n.alive.len() > 0 || s.attempt + 1 >= s.attempts)
                ==> n.stage == ProbeStage::Finished && n.pending == ProbeAction::Done
            &&& st.spec_is_alive() ==> n.alive.contains(s.ports[s.port_index as int])
            &&& forall|q: u16| s.alive.contains(q) ==> n.alive.contains(q)
            &&& (n.alive.len() > 0 <==> (s.alive.len() > 0 || st.spec_is_alive()))
        }),
{
    let p = s.ports[s.port_index as int];
    assert(s.ports.contains(p));
    lemma_add_once(s.alive, p, s.ports);
}

/// Law: up to `attempts` echoes are sent, each unanswered one followed by a
/// pause; an answered echo marks the host and moves on to the TCP probes,
/// which start at the first port of the first round (or end the probe when
/// TCP is not probed); after the last unanswered echo the TCP probes start
/// the same way, with the host unmarked.
pub proof fn lemma_echo_rounds(s: ProbeState, e: ProbeEvent)
    requires
        probe_wf(s),
        s.stage == ProbeStage::Echo,
    ensures
        ({
            let n = probe_next(s, e);
            &&& s.pending == ProbeAction::Ping && e == ProbeEvent::PingReply(false)
                ==> n.pending == ProbeAction::Pause && n.attempt == s.attempt && !n.echo
            &&& s.pending == ProbeAction::Pause && e == ProbeEvent::Paused && s.attempt + 1 < s.attempts
                ==> n.pending == ProbeAction::Ping && n.attempt == s.attempt + 1 && !n.echo
            &&& (s.pending == ProbeAction::Ping && e == ProbeEvent::PingReply(true))
                || (s.pending == ProbeAction::Pause && e == ProbeEvent::Paused && s.attempt + 1 >= s.attempts)
                ==> (n.echo == (e == ProbeEvent::PingReply(true))) && n.alive.len() == 0 && n.rejected.len() == 0
                    && (if s.use_tcp {
                        n.stage == ProbeStage::Tcp && n.attempt == 0 && n.port_index == 0
                            && n.pending == ProbeAction::Connect(s.ports[0])
                    } else {
                        n.stage == ProbeStage::Finished && n.pending == ProbeAction::Done
                    })
        }),
{
    assert forall|q: u16| s.rejected.contains(q) implies false by {
        assert(s.alive.contains(q));
    }
    if s.rejected.len() > 0 {
        assert(s.rejected.contains(s.rejected[0]));
    }
}

} // verus!

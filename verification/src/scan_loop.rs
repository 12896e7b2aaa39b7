//! The steps of scanning one `/24` subnet in a session, and the scheduling of
//! several subnets at once.
use vstd::prelude::*;
use crate::scanner::pause_due;

verus! {

/// What a look at the whitelist target found.
#[derive(Clone, Copy, Debug, PartialEq, Eq, Structural)]
pub enum StopProbeResult {
    /// The target is not reachable: the scan goes on.
    ContinueUnavailable,
    /// The target is reachable.
    ContinueAvailable,
    /// The session was cancelled.
    Interrupted,
}

/// How the scan of one subnet ended for the session.
#[derive(Clone, Copy, Debug, PartialEq, Eq, Structural)]
pub enum SubnetIterationOutcome {
    /// Go on with the next subnet.
    Continue,
    /// The user cancelled the session.
    Interrupted,
    /// The whitelist target became reachable: the session stops.
    Stopped,
}

/// What a whitelist look decides: the session ends as interrupted when
/// cancelled, stops when the target is reachable and this look is set to stop
/// it, and otherwise goes on.
pub open spec fn whitelist_verdict(r: StopProbeResult, stop_when_available: bool) -> Option<SubnetIterationOutcome> {
    match r {
        StopProbeResult::Interrupted => Some(SubnetIterationOutcome::Interrupted),
        StopProbeResult::ContinueAvailable => if stop_when_available {
            Some(SubnetIterationOutcome::Stopped)
        } else {
            None
        },
        StopProbeResult::ContinueUnavailable => None,
    }
}

/// The decision of a whitelist look (see [`whitelist_verdict`]).
pub fn whitelist_decision(r: StopProbeResult, stop_when_available: bool) -> (d: Option<SubnetIterationOutcome>)
    ensures
        d == whitelist_verdict(r, stop_when_available),
{
    match r {
        StopProbeResult::Interrupted => Some(SubnetIterationOutcome::Interrupted),
        StopProbeResult::ContinueAvailable => if stop_when_available {
            Some(SubnetIterationOutcome::Stopped)
        } else {
            None
        },
        StopProbeResult::ContinueUnavailable => None,
    }
}

// ---------------------------------------------------------------------------
// One subnet in a sequential session
// ---------------------------------------------------------------------------

/// The next thing the scan of a subnet needs done.
#[derive(Clone, Copy, Debug, PartialEq, Eq, Structural)]
pub enum IterationAction {
    /// Look at the whitelist target (the cancel flag first); `true` after the scan.
    ProbeWhitelist(bool),
    /// Probe the hosts of the subnet.
    ScanSubnet,
    /// Save the whitelist stop in the state; `true` after the scan, whose result
    /// is then discarded.
    StopOnWhitelist(bool),
    /// Check the control endpoint (with its retries).
    CheckEndpoint,
    /// Act on an unavailable endpoint (stop, or rotate the IP); the subnet's
    /// result is discarded.
    HandleEndpointFailure,
    /// Write the subnet's result and mark it completed.
    RecordSuccess,
    /// Mark the subnet failed.
    RecordFailure,
    /// Save a snapshot of the state.
    SaveSnapshot,
    /// Carry out the periodic pause.
    PeriodicStop,
    /// The subnet is over.
    Finish(SubnetIterationOutcome),
}

/// What came of the last action.
#[derive(Clone, Copy, Debug, PartialEq, Eq, Structural)]
pub enum IterationEvent {
    /// The whitelist look found this.
    Whitelist(StopProbeResult),
    /// The scan succeeded, or failed.
    Scanned(bool),
    /// The endpoint check ended: available, interrupted.
    Endpoint(bool, bool),
    /// The action was carried out.
    Done,
    /// The snapshot was saved; the snapshot counter is now this.
    Saved(u32),
}

/// The settings the steps depend on.
#[derive(Clone, Copy, Debug, PartialEq, Eq, Structural)]
pub struct IterationRules {
    /// A whitelist target is watched.
    pub whitelist: bool,
    /// Stop when the target is reachable before a scan.
    pub check_before: bool,
    /// Stop when the target is reachable after a scan.
    pub check_after: bool,
    /// Pause every this many snapshots (0: never).
    pub stop_every: u32,
}

/// The first action of a subnet.
pub open spec fn iteration_first(rules: IterationRules) -> IterationAction {
    if rules.whitelist {
        IterationAction::ProbeWhitelist(false)
    } else {
        IterationAction::ScanSubnet
    }
}

/// The action after `a` once `e` came of it; an event that does not answer
/// `a` leaves it pending.
pub open spec fn iteration_next(rules: IterationRules, a: IterationAction, e: IterationEvent) -> IterationAction {
    match (a, e) {
        (IterationAction::ProbeWhitelist(after), IterationEvent::Whitelist(r)) => {
            match whitelist_verdict(r, if after { rules.check_after } else { rules.check_before }) {
                Some(SubnetIterationOutcome::Stopped) => IterationAction::StopOnWhitelist(after),
                Some(o) => IterationAction::Finish(o),
                None => if after {
                    IterationAction::CheckEndpoint
                } else {
                    IterationAction::ScanSubnet
                },
            }
        },
        (IterationAction::StopOnWhitelist(_), IterationEvent::Done) => IterationAction::Finish(SubnetIterationOutcome::Stopped),
        (IterationAction::ScanSubnet, IterationEvent::Scanned(ok)) => {
            if !ok {
                IterationAction::RecordFailure
            } else if rules.whitelist {
                IterationAction::ProbeWhitelist(true)
            } else {
                IterationAction::CheckEndpoint
            }
        },
        (IterationAction::CheckEndpoint, IterationEvent::Endpoint(available, interrupted)) => {
            if interrupted {
                IterationAction::Finish(SubnetIterationOutcome::Interrupted)
            } else if available {
                IterationAction::RecordSuccess
            } else {
                IterationAction::HandleEndpointFailure
            }
        },
        (IterationAction::HandleEndpointFailure, IterationEvent::Done) => IterationAction::Finish(SubnetIterationOutcome::Continue),
        (IterationAction::RecordSuccess, IterationEvent::Done) => IterationAction::SaveSnapshot,
        (IterationAction::RecordFailure, IterationEvent::Done) => IterationAction::SaveSnapshot,
        (IterationAction::SaveSnapshot, IterationEvent::Saved(count)) => {
            if pause_due(rules.stop_every, count) {
                IterationAction::PeriodicStop
            } else {
                IterationAction::Finish(SubnetIterationOutcome::Continue)
            }
        },
        (IterationAction::PeriodicStop, IterationEvent::Done) => IterationAction::Finish(SubnetIterationOutcome::Continue),
        _ => a,
    }
}

/// The scan of one subnet, step by step.
pub struct SubnetIteration {
    pub rules: IterationRules,
    pub pending: IterationAction,
}

impl SubnetIteration {
    /// The scan of a subnet under the given settings.
    pub fn start(rules: IterationRules) -> (r: SubnetIteration)
        ensures
            r.rules == rules,
            r.pending == iteration_first(rules),
    {
        let pending = if rules.whitelist {
            IterationAction::ProbeWhitelist(false)
        } else {
            IterationAction::ScanSubnet
        };
        SubnetIteration { rules, pending }
    }

    /// Takes in what came of the pending action and gives the next action.
    pub fn step(&mut self, event: IterationEvent) -> (a: IterationAction)
        ensures
            final(self).rules == old(self).rules,
            final(self).pending == iteration_next(old(self).rules, old(self).pending, event),
            a == final(self).pending,
    {
        let rules = self.rules;
        let next = match (self.pending, event) {
            (IterationAction::ProbeWhitelist(after), IterationEvent::Whitelist(r)) => {
                let stop_flag = if after { rules.check_after } else { rules.check_before };
                match whitelist_decision(r, stop_flag) {
                    Some(SubnetIterationOutcome::Stopped) => IterationAction::StopOnWhitelist(after),
                    Some(o) => IterationAction::Finish(o),
                    None => if after {
                        IterationAction::CheckEndpoint
                    } else {
                        IterationAction::ScanSubnet
                    },
                }
            },
            (IterationAction::StopOnWhitelist(_), IterationEvent::Done) => IterationAction::Finish(SubnetIterationOutcome::Stopped),
            (IterationAction::ScanSubnet, IterationEvent::Scanned(ok)) => {
                if !ok {
                    IterationAction::RecordFailure
                } else if rules.whitelist {
                    IterationAction::ProbeWhitelist(true)
                } else {
                    IterationAction::CheckEndpoint
                }
            },
            (IterationAction::CheckEndpoint, IterationEvent::Endpoint(available, interrupted)) => {
                if interrupted {
                    IterationAction::Finish(SubnetIterationOutcome::Interrupted)
                } else if available {
                    IterationAction::RecordSuccess
                } else {
                    IterationAction::HandleEndpointFailure
                }
            },
            (IterationAction::HandleEndpointFailure, IterationEvent::Done) => IterationAction::Finish(SubnetIterationOutcome::Continue),
            (IterationAction::RecordSuccess, IterationEvent::Done) => IterationAction::SaveSnapshot,
            (IterationAction::RecordFailure, IterationEvent::Done) => IterationAction::SaveSnapshot,
            (IterationAction::SaveSnapshot, IterationEvent::Saved(count)) => {
                if rules.stop_every != 0 && count % rules.stop_every == 0 {
                    IterationAction::PeriodicStop
                } else {
                    IterationAction::Finish(SubnetIterationOutcome::Continue)
                }
            },
            (IterationAction::PeriodicStop, IterationEvent::Done) => IterationAction::Finish(SubnetIterationOutcome::Continue),
            (a, _) => a,
        };
        self.pending = next;
        next
    }
}

/// An event that answers the action.
pub open spec fn iteration_answers(a: IterationAction, e: IterationEvent) -> bool {
    match (a, e) {
        (IterationAction::ProbeWhitelist(_), IterationEvent::Whitelist(_)) => true,
        (IterationAction::ScanSubnet, IterationEvent::Scanned(_)) => true,
        (IterationAction::CheckEndpoint, IterationEvent::Endpoint(_, _)) => true,
        (IterationAction::SaveSnapshot, IterationEvent::Saved(_)) => true,
        (IterationAction::StopOnWhitelist(_), IterationEvent::Done) => true,
        (IterationAction::HandleEndpointFailure, IterationEvent::Done) => true,
        (IterationAction::RecordSuccess, IterationEvent::Done) => true,
        (IterationAction::RecordFailure, IterationEvent::Done) => true,
        (IterationAction::PeriodicStop, IterationEvent::Done) => true,
        _ => false,
    }
}

/// How many actions at most are left before the subnet is over.
pub open spec fn iteration_rank(a: IterationAction) -> nat {
    match a {
        IterationAction::ProbeWhitelist(false) => 9,
        IterationAction::ScanSubnet => 8,
        IterationAction::ProbeWhitelist(true) => 7,
        IterationAction::CheckEndpoint => 6,
        IterationAction::RecordSuccess => 5,
        IterationAction::RecordFailure => 5,
        IterationAction::SaveSnapshot => 4,
        IterationAction::StopOnWhitelist(_) => 1,
        IterationAction::HandleEndpointFailure => 1,
        IterationAction::PeriodicStop => 1,
        IterationAction::Finish(_) => 0,
    }
}

/// Every answered action brings the subnet closer to its end, so a subnet takes
/// at most nine actions; `Finish` is final; an unanswering event changes nothing.
pub proof fn lemma_iteration_progress(rules: IterationRules, a: IterationAction, e: IterationEvent)
    ensures
        iteration_answers(a, e) ==> iteration_rank(iteration_next(rules, a, e)) < iteration_rank(a),
        !iteration_answers(a, e) ==> iteration_next(rules, a, e) == a,
        a is Finish ==> iteration_next(rules, a, e) == a,
{
}

/// A subnet's result is kept only after a successful scan, a whitelist look
/// that did not stop the session (when a target is watched) and an available,
/// uncancelled endpoint.
pub proof fn lemma_success_path(rules: IterationRules, a: IterationAction, e: IterationEvent)
    ensures
        iteration_next(rules, a, e) == IterationAction::RecordSuccess && a != IterationAction::RecordSuccess
            ==> a == IterationAction::CheckEndpoint && e == IterationEvent::Endpoint(true, false),
        iteration_next(rules, a, e) == IterationAction::CheckEndpoint && a != IterationAction::CheckEndpoint ==> (
            (a == IterationAction::ScanSubnet && e == IterationEvent::Scanned(true) && !rules.whitelist)
            || (a == IterationAction::ProbeWhitelist(true) && (e == IterationEvent::Whitelist(StopProbeResult::ContinueUnavailable)
                || (e == IterationEvent::Whitelist(StopProbeResult::ContinueAvailable) && !rules.check_after)))),
        iteration_next(rules, a, e) == IterationAction::ProbeWhitelist(true) && a != IterationAction::ProbeWhitelist(true)
            ==> a == IterationAction::ScanSubnet && e == IterationEvent::Scanned(true),
{
}

/// A snapshot is saved only after the subnet was recorded as completed or as
/// failed; a subnet dropped for the whitelist or the endpoint ends without one.
pub proof fn lemma_snapshot_path(rules: IterationRules, a: IterationAction, e: IterationEvent)
    ensures
        iteration_next(rules, a, e) == IterationAction::SaveSnapshot && a != IterationAction::SaveSnapshot
            ==> (a == IterationAction::RecordSuccess || a == IterationAction::RecordFailure) && e == IterationEvent::Done,
        a is StopOnWhitelist ==> (iteration_next(rules, a, e) == a || iteration_next(rules, a, e) == IterationAction::Finish(SubnetIterationOutcome::Stopped)),
        a == IterationAction::HandleEndpointFailure ==> (iteration_next(rules, a, e) == a
            || iteration_next(rules, a, e) == IterationAction::Finish(SubnetIterationOutcome::Continue)),
{
}

/// The session stops for the whitelist only when the target was reachable at
/// a look set to stop it.
pub proof fn lemma_whitelist_stop(rules: IterationRules, a: IterationAction, e: IterationEvent)
    ensures
        (iteration_next(rules, a, e) is StopOnWhitelist && !(a is StopOnWhitelist)) ==> (
            (a == IterationAction::ProbeWhitelist(false) && rules.check_before
                || a == IterationAction::ProbeWhitelist(true) && rules.check_after)
            && e == IterationEvent::Whitelist(StopProbeResult::ContinueAvailable)),
{
}

/// Law: after a snapshot the scan pauses exactly when the snapshot's number is
/// a multiple of the configured period (`stop_every`, `2 * stop_every`, ...),
/// and never when no period is set; otherwise the session goes on.
pub proof fn lemma_periodic_pause(rules: IterationRules, count: u32)
    ensures
        rules.stop_every > 0 ==> (iteration_next(rules, IterationAction::SaveSnapshot, IterationEvent::Saved(count))
            == IterationAction::PeriodicStop <==> exists|k: nat| count == #[trigger] (k * rules.stop_every)),
        rules.stop_every > 0 ==> iteration_next(rules, IterationAction::SaveSnapshot, IterationEvent::Saved(rules.stop_every))
            == IterationAction::PeriodicStop,
        rules.stop_every == 0 ==> iteration_next(rules, IterationAction::SaveSnapshot, IterationEvent::Saved(count))
            == IterationAction::Finish(SubnetIterationOutcome::Continue),
        iteration_next(rules, IterationAction::SaveSnapshot, IterationEvent::Saved(count)) != IterationAction::PeriodicStop
            ==> iteration_next(rules, IterationAction::SaveSnapshot, IterationEvent::Saved(count))
                == IterationAction::Finish(SubnetIterationOutcome::Continue),
{
    crate::scanner::lemma_pause_multiples(rules.stop_every, count);
    crate::scanner::lemma_pause_multiples(rules.stop_every, rules.stop_every);
}

// ---------------------------------------------------------------------------
// Several subnets at once
// ---------------------------------------------------------------------------

/// The bookkeeping of a parallel session: `pending_len` subnets to scan,
/// `next` of them started, `inflight` running, `batch` finished and waiting for
/// the endpoint check, at most `parallelism` running at once.
pub struct ParallelScheduler {
    pub pending_len: usize,
    pub parallelism: usize,
    pub next: usize,
    pub inflight: usize,
    pub batch: usize,
}

impl ParallelScheduler {
    /// The counters agree: every started subnet is running, waiting in the
    /// batch, or was handled; no more than `parallelism` run at once.
    pub open spec fn wf(&self) -> bool {
        &&& self.parallelism > 0
        &&& self.next <= self.pending_len
        &&& self.inflight <= self.parallelism
        &&& self.inflight + self.batch <= self.next
    }

    /// A session with `pending_len` subnets and at most `parallelism` at once
    /// (at least one).
    pub fn new(pending_len: usize, parallelism: usize) -> (r: ParallelScheduler)
        ensures
            r.wf(),
            r.pending_len == pending_len,
            r.parallelism == if parallelism == 0 { 1 } else { parallelism },
            r.next == 0,
            r.inflight == 0,
            r.batch == 0,
    {
        ParallelScheduler {
            pending_len,
            parallelism: if parallelism == 0 { 1 } else { parallelism },
            next: 0,
            inflight: 0,
            batch: 0,
        }
    }

    /// Another subnet may start: some are left, a worker is free, and the
    /// session is not cancelled.
    pub fn can_start(&self, cancelled: bool) -> (r: bool)
        ensures
            r == (self.next < self.pending_len && self.inflight < self.parallelism && !cancelled),
    {
        self.next < self.pending_len && self.inflight < self.parallelism && !cancelled
    }

    /// Starts the next subnet; gives its position among the pending ones.
    pub fn start_next(&mut self) -> (i: usize)
        requires
            old(self).wf(),
            old(self).next < old(self).pending_len,
            old(self).inflight < old(self).parallelism,
        ensures
            final(self).wf(),
            i == old(self).next,
            final(self).next == old(self).next + 1,
            final(self).inflight == old(self).inflight + 1,
            final(self).batch == old(self).batch,
            final(self).pending_len == old(self).pending_len,
            final(self).parallelism == old(self).parallelism,
    {
        let i = self.next;
        self.next = self.next + 1;
        self.inflight = self.inflight + 1;
        i
    }

    /// A running subnet finished; its outcome waits in the batch.
    pub fn finished_one(&mut self)
        requires
            old(self).wf(),
            old(self).inflight > 0,
        ensures
            final(self).wf(),
            final(self).inflight == old(self).inflight - 1,
            final(self).batch == old(self).batch + 1,
            final(self).next == old(self).next,
            final(self).pending_len == old(self).pending_len,
            final(self).parallelism == old(self).parallelism,
    {
        self.inflight = self.inflight - 1;
        self.batch = self.batch + 1;
    }

    /// The endpoint is checked when the batch holds a full round of outcomes,
    /// or when every subnet has been started and none runs any more.
    pub fn needs_endpoint_check(&self) -> (r: bool)
        ensures
            r == (self.batch >= self.parallelism || (self.next >= self.pending_len && self.inflight == 0)),
    {
        self.batch >= self.parallelism || (self.next >= self.pending_len && self.inflight == 0)
    }

}

/// What a parallel run is told after it asked for an action.
#[derive(Clone, Copy, Debug, PartialEq, Eq, Structural)]
pub enum ParallelEvent {
    /// The subnet that the last `Start` named now runs.
    Started,
    /// A running subnet finished: its position among the pending subnets, and
    /// whether its probe succeeded.
    Joined(usize, bool),
    /// The endpoint check answered: available or not.
    Endpoint(bool),
    /// The outcome that the last `Commit` named was recorded and saved.
    Committed,
    /// The endpoint failure was handled.
    Recovered,
}

/// What a parallel run asks for next.
#[derive(Clone, Copy, Debug, PartialEq, Eq, Structural)]
pub enum ParallelAction {
    /// Start the pending subnet at this position.
    Start(usize),
    /// Check the endpoint before the waiting outcomes are kept.
    CheckEndpoint,
    /// Record this waiting outcome (position, probe succeeded) and save the state.
    Commit(usize, bool),
    /// The endpoint is down: the waiting outcomes were dropped; handle the failure.
    Recover,
    /// Wait for a running subnet to finish; with none running, the run is over.
    Idle,
}

/// A parallel run as numbers: the scheduler's counters and the outcomes that
/// wait for the endpoint check, oldest first.
pub struct RunView {
    pub pending_len: nat,
    pub parallelism: nat,
    pub next: nat,
    pub inflight: nat,
    pub batch: Seq<(usize, bool)>,
}

/// The endpoint is checked when outcomes wait and either a full round of them
/// has gathered, or every subnet was started and none runs any more.
pub open spec fn check_due(v: RunView) -> bool {
    v.batch.len() > 0 && (v.batch.len() >= v.parallelism || (v.next >= v.pending_len && v.inflight == 0))
}

/// The action a run takes on its own: the endpoint check when it is due, else
/// the next subnet when one is left, a worker is free and the session is not
/// cancelled, else waiting.
pub open spec fn settle(v: RunView, cancelled: bool) -> (RunView, ParallelAction) {
    if check_due(v) {
        (v, ParallelAction::CheckEndpoint)
    } else if v.next < v.pending_len && v.inflight < v.parallelism && !cancelled {
        (
            RunView {
                pending_len: v.pending_len,
                parallelism: v.parallelism,
                next: v.next + 1,
                inflight: v.inflight + 1,
                batch: v.batch,
            },
            ParallelAction::Start(v.next as usize),
        )
    } else {
        (v, ParallelAction::Idle)
    }
}

/// The oldest waiting outcome is committed; with none left, the run goes on.
pub open spec fn commit_oldest(v: RunView, cancelled: bool) -> (RunView, ParallelAction) {
    if v.batch.len() > 0 {
        (
            RunView {
                pending_len: v.pending_len,
                parallelism: v.parallelism,
                next: v.next,
                inflight: v.inflight,
                batch: v.batch.drop_first(),
            },
            ParallelAction::Commit(v.batch[0].0, v.batch[0].1),
        )
    } else {
        settle(v, cancelled)
    }
}

/// One step of a parallel run. A finished subnet joins the batch; an available
/// endpoint has the batch committed one outcome at a time, oldest first; an
/// unavailable one drops the whole batch. After the failure is handled the run
/// starts nothing new until a running subnet finishes.
pub open spec fn run_next(v: RunView, e: ParallelEvent, cancelled: bool) -> (RunView, ParallelAction) {
    match e {
        ParallelEvent::Started => settle(v, cancelled),
        ParallelEvent::Joined(i, ok) => settle(
            RunView {
                pending_len: v.pending_len,
                parallelism: v.parallelism,
                next: v.next,
                inflight: (v.inflight - 1) as nat,
                batch: v.batch.push((i, ok)),
            },
            cancelled,
        ),
        ParallelEvent::Endpoint(available) => if available {
            commit_oldest(v, cancelled)
        } else {
            (
                RunView {
                    pending_len: v.pending_len,
                    parallelism: v.parallelism,
                    next: v.next,
                    inflight: v.inflight,
                    batch: Seq::empty(),
                },
                ParallelAction::Recover,
            )
        },
        ParallelEvent::Committed => commit_oldest(v, cancelled),
        ParallelEvent::Recovered => if v.batch.len() > 0 {
            (v, ParallelAction::CheckEndpoint)
        } else {
            (v, ParallelAction::Idle)
        },
    }
}

/// A parallel run: the scheduler's counters and the outcomes waiting for the
/// endpoint check, each as its position among the pending subnets and whether
/// its probe succeeded.
pub struct ParallelRun {
    pub sched: ParallelScheduler,
    pub batch: Vec<(usize, bool)>,
}

impl View for ParallelRun {
    type V = RunView;

    open spec fn view(&self) -> RunView {
        RunView {
            pending_len: self.sched.pending_len as nat,
            parallelism: self.sched.parallelism as nat,
            next: self.sched.next as nat,
            inflight: self.sched.inflight as nat,
            batch: self.batch@,
        }
    }
}

impl ParallelRun {
    /// The counters agree, the batch count is the batch, and every waiting
    /// outcome belongs to a subnet that was started.
    pub open spec fn wf(&self) -> bool {
        &&& self.sched.wf()
        &&& self.sched.batch == self.batch@.len()
        &&& forall|k: int| 0 <= k < self.batch@.len() ==> #[trigger] self.batch@[k].0 < self.sched.next
    }

    /// A run over `pending_len` subnets, at most `parallelism` at once (at least one).
    pub fn new(pending_len: usize, parallelism: usize) -> (r: ParallelRun)
        ensures
            r.wf(),
            r@ == (RunView {
                pending_len: pending_len as nat,
                parallelism: if parallelism == 0 { 1nat } else { parallelism as nat },
                next: 0,
                inflight: 0,
                batch: Seq::empty(),
            }),
    {
        let r = ParallelRun { sched: ParallelScheduler::new(pending_len, parallelism), batch: Vec::new() };
        assert(r.batch@ =~= Seq::<(usize, bool)>::empty());
        r
    }

    fn settle_exec(&mut self, cancelled: bool) -> (a: ParallelAction)
        requires
            old(self).wf(),
        ensures
            final(self).wf(),
            (final(self)@, a) == settle(old(self)@, cancelled),
    {
        if self.batch.len() > 0 && self.sched.needs_endpoint_check() {
            ParallelAction::CheckEndpoint
        } else if self.sched.can_start(cancelled) {
            let i = self.sched.start_next();
            ParallelAction::Start(i)
        } else {
            ParallelAction::Idle
        }
    }

    fn commit_exec(&mut self, cancelled: bool) -> (a: ParallelAction)
        requires
            old(self).wf(),
        ensures
            final(self).wf(),
            (final(self)@, a) == commit_oldest(old(self)@, cancelled),
    {
        if self.batch.len() > 0 {
            let first = self.batch.remove(0);
            self.sched.batch = self.sched.batch - 1;
            assert(self.batch@ =~= old(self).batch@.drop_first());
            assert forall|k: int| 0 <= k < self.batch@.len() implies #[trigger] self.batch@[k].0 < self.sched.next by {
                assert(self.batch@[k] == old(self).batch@[k + 1]);
            }
            ParallelAction::Commit(first.0, first.1)
        } else {
            self.settle_exec(cancelled)
        }
    }

    /// The first action of the run.
    pub fn begin(&mut self) -> (a: ParallelAction)
        requires
            old(self).wf(),
        ensures
            final(self).wf(),
            (final(self)@, a) == settle(old(self)@, false),
    {
        self.settle_exec(false)
    }

    /// Takes what the last action led to and gives the next action.
    pub fn step(&mut self, e: ParallelEvent, cancelled: bool) -> (a: ParallelAction)
        requires
            old(self).wf(),
            e matches ParallelEvent::Joined(i, ok) ==> old(self).sched.inflight > 0 && i < old(self).sched.next,
        ensures
            final(self).wf(),
            (final(self)@, a) == run_next(old(self)@, e, cancelled),
            e == ParallelEvent::Endpoint(false) ==> a == ParallelAction::Recover && final(self).batch@.len() == 0,
            e == ParallelEvent::Endpoint(true) && old(self).batch@.len() > 0 ==> a == ParallelAction::Commit(
                old(self).batch@[0].0,
                old(self).batch@[0].1,
            ) && final(self).batch@ == old(self).batch@.drop_first(),
            e matches ParallelEvent::Joined(i, ok) ==> final(self).batch@ == old(self).batch@.push((i, ok)),
    {
        match e {
            ParallelEvent::Started => self.settle_exec(cancelled),
            ParallelEvent::Joined(i, ok) => {
                self.sched.finished_one();
                self.batch.push((i, ok));
                assert forall|k: int| 0 <= k < self.batch@.len() implies #[trigger] self.batch@[k].0 < self.sched.next by {
                    if k < old(self).batch@.len() {
                        assert(self.batch@[k] == old(self).batch@[k]);
                    }
                }
                self.settle_exec(cancelled)
            },
            ParallelEvent::Endpoint(available) => {
                if available {
                    self.commit_exec(cancelled)
                } else {
                    self.batch.clear();
                    self.sched.batch = 0;
                    assert(self.batch@ =~= Seq::<(usize, bool)>::empty());
                    ParallelAction::Recover
                }
            },
            ParallelEvent::Committed => self.commit_exec(cancelled),
            ParallelEvent::Recovered => {
                if self.batch.len() > 0 {
                    ParallelAction::CheckEndpoint
                } else {
                    ParallelAction::Idle
                }
            },
        }
    }
}

/// What becomes of the outcomes that wait for the endpoint check: one leaves
/// the batch only as the `Commit` of the oldest, so the batch is committed in
/// the order its subnets finished; all leave at once, none of them committed,
/// exactly when the endpoint is down; any other step keeps them, or adds the
/// subnet that just finished at the end.
pub proof fn lemma_batch_fate(v: RunView, e: ParallelEvent, cancelled: bool)
    ensures
        ({
            let (w, a) = run_next(v, e, cancelled);
            &&& a matches ParallelAction::Commit(i, ok) ==> v.batch == seq![(i, ok)] + w.batch
            &&& a == ParallelAction::Recover <==> e == ParallelEvent::Endpoint(false)
            &&& a == ParallelAction::Recover ==> w.batch.len() == 0
            &&& !(a is Commit) && a != ParallelAction::Recover ==> (w.batch == v.batch || (
                e matches ParallelEvent::Joined(i, ok) && w.batch == v.batch.push((i, ok))))
        }),
{
    let (w, a) = run_next(v, e, cancelled);
    if let ParallelAction::Commit(i, ok) = a {
        assert(v.batch =~= seq![(i, ok)] + w.batch);
    }
}

/// A run that waits with nothing running and is not cancelled has no outcome
/// left in its batch: every subnet that finished was committed or dropped.
pub proof fn lemma_idle_run_has_empty_batch(v: RunView, e: ParallelEvent, cancelled: bool)
    requires
        v.parallelism > 0,
        !cancelled,
        run_next(v, e, cancelled).1 == ParallelAction::Idle,
        run_next(v, e, cancelled).0.inflight == 0,
    ensures
        run_next(v, e, cancelled).0.batch.len() == 0,
{
}

} // verus!

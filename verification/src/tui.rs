//! The scan dashboard: its counters, its bounded lists of subnets and events,
//! and the texts of its panels.
use vstd::prelude::*;
use crate::text::{dec, join, push_char, push_str, push_dec, chars_of, string_of, views};

verus! {

broadcast use vstd::seq_lib::group_seq_properties;

/// At most this many events are kept.
pub open spec fn max_events() -> nat {
    300
}

/// At most this many finished subnets are shown.
pub open spec fn max_recent() -> nat {
    14
}

/// The level of an event.
#[derive(Clone, Copy, Debug, PartialEq, Eq, Structural)]
pub enum EventLevel {
    Done,
    Inf,
    Wrn,
    Error,
}

impl EventLevel {
    /// The three-letter tag of a level.
    pub fn label(self) -> (r: &'static str)
        ensures
            r@ == match self {
                EventLevel::Done => "OK "@,
                EventLevel::Inf => "INF"@,
                EventLevel::Wrn => "WRN"@,
                EventLevel::Error => "ERR"@,
            },
    {
        match self {
            EventLevel::Done => "OK ",
            EventLevel::Inf => "INF",
            EventLevel::Wrn => "WRN",
            EventLevel::Error => "ERR",
        }
    }
}

/// The state of a subnet row.
#[derive(Clone, Copy, Debug, PartialEq, Eq, Structural)]
pub enum SubnetStatus {
    Scanning,
    Alive,
    EchoOnly,
    Dead,
    Error,
}

/// The tag of a row state.
pub open spec fn status_text(s: SubnetStatus) -> Seq<char> {
    match s {
        SubnetStatus::Scanning => "…"@,
        SubnetStatus::Alive => "tcp"@,
        SubnetStatus::EchoOnly => "icmp"@,
        SubnetStatus::Dead => "—"@,
        SubnetStatus::Error => "err"@,
    }
}

impl SubnetStatus {
    /// The tag of a row state.
    pub fn label(self) -> (r: &'static str)
        ensures
            r@ == status_text(self),
    {
        match self {
            SubnetStatus::Scanning => "…",
            SubnetStatus::Alive => "tcp",
            SubnetStatus::EchoOnly => "icmp",
            SubnetStatus::Dead => "—",
            SubnetStatus::Error => "err",
        }
    }
}

/// The state a finished subnet is shown in: an error, live TCP hosts, only
/// ICMP answers, or nothing.
pub open spec fn finished_status(echo_hosts: usize, tcp: usize, is_error: bool) -> SubnetStatus {
    if is_error {
        SubnetStatus::Error
    } else if tcp > 0 {
        SubnetStatus::Alive
    } else if echo_hosts > 0 {
        SubnetStatus::EchoOnly
    } else {
        SubnetStatus::Dead
    }
}

/// The whitelist target as the dashboard shows it.
#[derive(Clone, Debug)]
pub struct WhitelistInfo {
    pub label: String,
    pub enabled: bool,
    pub check_before: bool,
    pub check_after: bool,
}

impl WhitelistInfo {
    /// No whitelist target.
    pub fn off() -> (r: Self)
        ensures
            r.label@ == "выкл"@,
            !r.enabled,
            !r.check_before,
            !r.check_after,
    {
        WhitelistInfo { label: String::from_str("выкл"), enabled: false, check_before: false, check_after: false }
    }
}

/// What the dashboard shows of the session's settings.
#[derive(Clone, Debug)]
pub struct ScanUiConfig {
    pub scan_name: String,
    pub total_subnets: usize,
    pub resume_count: usize,
    pub endpoint: String,
    pub operator: Option<String>,
    pub network_interface: Option<String>,
    pub whitelist: WhitelistInfo,
    pub tcp_ports: Vec<u16>,
    pub socket_type: String,
    pub ping_types: Vec<String>,
    pub subnet_parallelism: usize,
    pub result_jsonl: String,
    pub last_stop: Option<String>,
}

/// An event line: its time of day, level and message.
#[derive(Clone, Debug)]
pub struct EventLine {
    pub time: String,
    pub level: EventLevel,
    pub message: String,
}

/// A subnet row: position, subnet, counts, duration text and state.
#[derive(Clone, Debug)]
pub struct SubnetRow {
    pub index: usize,
    pub total: usize,
    pub subnet: String,
    pub echo: usize,
    pub tcp: usize,
    pub rejected: usize,
    pub seconds: String,
    pub status: SubnetStatus,
}

/// The counters and lists of the dashboard.
pub struct ScanDashboard {
    pub config: ScanUiConfig,
    pub scanned_total: usize,
    pub scanned_this_run: usize,
    pub alive_subnets: usize,
    pub echo_only_subnets: usize,
    pub dead_subnets: usize,
    pub echo_hosts_total: usize,
    pub tcp_hosts_total: usize,
    pub rejected_hosts_total: usize,
    pub errors: usize,
    pub inflight: Vec<SubnetRow>,
    pub inflight_subnets: usize,
    pub recent: Vec<SubnetRow>,
    pub events: Vec<EventLine>,
    pub whitelist_status: String,
    pub endpoint_ok: bool,
    pub done_message: Option<String>,
    pub running: bool,
    pub stopping: bool,
}

/// The subnet texts of a list of rows.
pub open spec fn row_subnets(rows: Seq<SubnetRow>) -> Seq<Seq<char>> {
    rows.map_values(|r: SubnetRow| r.subnet@)
}

/// The counters of two dashboards agree.
pub open spec fn same_counts(a: ScanDashboard, b: ScanDashboard) -> bool {
    &&& a.scanned_total == b.scanned_total
    &&& a.scanned_this_run == b.scanned_this_run
    &&& a.alive_subnets == b.alive_subnets
    &&& a.echo_only_subnets == b.echo_only_subnets
    &&& a.dead_subnets == b.dead_subnets
    &&& a.echo_hosts_total == b.echo_hosts_total
    &&& a.tcp_hosts_total == b.tcp_hosts_total
    &&& a.rejected_hosts_total == b.rejected_hosts_total
    &&& a.errors == b.errors
    &&& a.inflight_subnets == b.inflight_subnets
    &&& a.config == b.config
    &&& a.stopping == b.stopping
    &&& a.running == b.running
}

/// Everything but the rows of two dashboards agrees: the counters, the
/// settings, and the whitelist, endpoint and run states.
pub open spec fn counters_kept(a: ScanDashboard, b: ScanDashboard) -> bool {
    &&& a.scanned_total == b.scanned_total
    &&& a.scanned_this_run == b.scanned_this_run
    &&& a.alive_subnets == b.alive_subnets
    &&& a.echo_only_subnets == b.echo_only_subnets
    &&& a.dead_subnets == b.dead_subnets
    &&& a.echo_hosts_total == b.echo_hosts_total
    &&& a.tcp_hosts_total == b.tcp_hosts_total
    &&& a.rejected_hosts_total == b.rejected_hosts_total
    &&& a.errors == b.errors
    &&& a.config == b.config
    &&& a.whitelist_status == b.whitelist_status
    &&& a.endpoint_ok == b.endpoint_ok
    &&& a.done_message == b.done_message
    &&& a.stopping == b.stopping
    &&& a.running == b.running
}

/// The number of subnets shown in an ICMP-only state.
pub open spec fn echo_only_count(d: ScanDashboard) -> usize {
    d.echo_only_subnets
}

impl ScanDashboard {
    /// The counters agree: each finished subnet of this session was counted in
    /// exactly one of alive, ICMP-only and dead; at most 300 events and 14
    /// recent rows are kept; no subnet is shown twice as running.
    pub open spec fn wf(&self) -> bool {
        &&& self.alive_subnets + echo_only_count(*self) + self.dead_subnets == self.scanned_this_run
        &&& self.scanned_this_run <= self.scanned_total
        &&& self.events@.len() <= max_events()
        &&& self.recent@.len() <= max_recent()
        &&& forall|i: int, j: int| 0 <= i < j < self.inflight@.len() ==> self.inflight@[i].subnet@ != self.inflight@[j].subnet@
    }

    /// The number of subnets done or under way, at most the total.
    pub open spec fn spec_progress_position(&self) -> nat {
        let p = self.scanned_total + self.inflight@.len();
        if p < self.config.total_subnets {
            p as nat
        } else {
            self.config.total_subnets as nat
        }
    }

    /// The number of subnets done or under way, at most the total.
    pub fn progress_position(&self) -> (r: usize)
        requires
            self.scanned_total + self.inflight@.len() <= usize::MAX,
        ensures
            r as nat == self.spec_progress_position(),
    {
        let p = self.scanned_total + self.inflight.len();
        if p < self.config.total_subnets {
            p
        } else {
            self.config.total_subnets
        }
    }

    /// Adds an event, dropping the oldest beyond 300.
    pub fn push_event(&mut self, time: String, level: EventLevel, message: String)
        requires
            old(self).wf(),
        ensures
            final(self).wf(),
            final(self).events@ == ({
                let all = old(self).events@.push(EventLine { time, level, message });
                if all.len() > max_events() {
                    all.skip(all.len() - max_events())
                } else {
                    all
                }
            }),
            same_counts(*final(self), *old(self)),
            final(self).inflight@ == old(self).inflight@,
            final(self).recent@ == old(self).recent@,
            final(self).whitelist_status == old(self).whitelist_status,
            final(self).endpoint_ok == old(self).endpoint_ok,
            final(self).done_message == old(self).done_message,
    {
        let ghost all = self.events@.push(EventLine { time, level, message });
        self.events.push(EventLine { time, level, message });
        if self.events.len() > 300 {
            self.events.remove(0);
            assert(self.events@ =~= all.skip(all.len() - max_events()));
        }
    }
}

/// Where a row for the subnet is in the list, if any.
pub fn find_row(rows: &Vec<SubnetRow>, subnet: &str) -> (r: Option<usize>)
    ensures
        match r {
            Some(i) => i < rows@.len() && rows@[i as int].subnet@ == subnet@
                && forall|j: int| 0 <= j < i ==> rows@[j].subnet@ != subnet@,
            None => forall|j: int| 0 <= j < rows@.len() ==> rows@[j].subnet@ != subnet@,
        },
{
    let mut i: usize = 0;
    while i < rows.len()
        invariant
            i <= rows@.len(),
            forall|j: int| 0 <= j < i ==> rows@[j].subnet@ != subnet@,
        decreases rows@.len() - i,
    {
        if crate::text::str_eq(rows[i].subnet.as_str(), subnet) {
            return Some(i);
        }
        i = i + 1;
    }
    None
}

/// `s` cut to its last `max - 1` characters behind `…` when it has more than
/// `max` characters.
pub open spec fn truncated(s: Seq<char>, max: nat) -> Seq<char> {
    if s.len() <= max {
        s
    } else {
        seq!['…'] + s.skip(s.len() - (max - 1))
    }
}

/// Shortens a text to at most `max` characters, keeping its end.
pub fn truncate(s: &str, max: usize) -> (r: String)
    requires
        max > 0 || s@.len() == 0,
    ensures
        r@ == truncated(s@, max as nat),
{
    let chars = chars_of(s);
    if chars.len() <= max {
        string_of(&chars)
    } else {
        let mut out = String::new();
        push_char(&mut out, '…');
        let start = chars.len() - (max - 1);
        let mut i = start;
        while i < chars.len()
            invariant
                start <= i <= chars@.len(),
                out@ == seq!['…'] + chars@.subrange(start as int, i as int),
            decreases chars@.len() - i,
        {
            push_char(&mut out, chars[i]);
            assert(chars@.subrange(start as int, i + 1) =~= chars@.subrange(start as int, i as int).push(chars@[i as int]));
            i = i + 1;
        }
        assert(chars@.subrange(start as int, chars@.len() as int) =~= chars@.skip(start as int));
        out
    }
}

// ---------------------------------------------------------------------------
// Texts
// ---------------------------------------------------------------------------

/// Decimal texts of ports joined by `sep`.
pub open spec fn ports_text(ports: Seq<u16>, sep: Seq<char>) -> Seq<char> {
    join(ports.map_values(|p: u16| dec(p as nat)), sep)
}

fn port_list_string(ports: &Vec<u16>, sep: &str) -> (r: String)
    ensures
        r@ == ports_text(ports@, sep@),
{
    let mut r = String::new();
    let ghost items = ports@.map_values(|p: u16| dec(p as nat));
    let mut i: usize = 0;
    while i < ports.len()
        invariant
            i <= ports@.len(),
            items == ports@.map_values(|p: u16| dec(p as nat)),
            r@ == join(items.take(i as int), sep@),
        decreases ports@.len() - i,
    {
        if i > 0 {
            push_str(&mut r, sep);
        }
        push_dec(&mut r, ports[i] as u64);
        proof {
            let t = items.take(i + 1);
            assert(t.drop_last() =~= items.take(i as int));
            assert(r@ =~= join(t, sep@));
        }
        i = i + 1;
    }
    assert(items.take(ports@.len() as int) =~= items);
    r
}

fn joined(items: &Vec<String>, sep: &str) -> (r: String)
    ensures
        r@ == join(views(items@), sep@),
{
    crate::text::join_strings(items, sep)
}

/// `да` or `нет`.
pub open spec fn yes_no(b: bool) -> Seq<char> {
    if b {
        "да"@
    } else {
        "нет"@
    }
}

/// The events a dashboard starts with.
pub open spec fn start_messages(c: ScanUiConfig) -> Seq<Seq<char>> {
    let start = seq!["Старт · "@ + dec(c.total_subnets as nat) + " /24"@];
    let resume = if c.resume_count > 0 {
        seq!["Resume: "@ + dec(c.resume_count as nat) + " /24 пропускаем"@]
    } else {
        Seq::empty()
    };
    let probe = seq!["Probe: "@ + join(views(c.ping_types@), "+"@) + " · ports "@ + ports_text(c.tcp_ports@, ","@)
        + " · endpoint "@ + c.endpoint@];
    let whitelist = if c.whitelist.enabled {
        seq!["Whitelist: "@ + c.whitelist.label@ + " (до="@ + yes_no(c.whitelist.check_before) + ", после="@
            + yes_no(c.whitelist.check_after) + ")"@]
    } else {
        Seq::empty()
    };
    start + resume + probe + whitelist
}

/// The messages of a list of events.
pub open spec fn event_messages(e: Seq<EventLine>) -> Seq<Seq<char>> {
    e.map_values(|l: EventLine| l.message@)
}

fn yes_no_string(b: bool) -> (r: String)
    ensures
        r@ == yes_no(b),
{
    if b {
        String::from_str("да")
    } else {
        String::from_str("нет")
    }
}

fn event_at(time: &String, level: EventLevel, message: String) -> (e: EventLine)
    ensures
        e.time@ == time@,
        e.level == level,
        e.message == message,
{
    EventLine { time: time.clone(), level, message }
}

impl ScanDashboard {
    /// A fresh dashboard: the resumed subnets count as scanned, nothing else
    /// counted, the whitelist not looked at yet, the endpoint taken as
    /// reachable, running; with its first events (start, resume, probe
    /// settings, whitelist), all at `time`.
    pub fn new(config: ScanUiConfig, time: String) -> (d: ScanDashboard)
        ensures
            d.wf(),
            d.scanned_total == config.resume_count,
            d.scanned_this_run == 0,
            d.alive_subnets == 0 && d.echo_only_subnets == 0 && d.dead_subnets == 0 && d.errors == 0,
            d.echo_hosts_total == 0 && d.tcp_hosts_total == 0 && d.rejected_hosts_total == 0,
            d.inflight@.len() == 0 && d.inflight_subnets == 0 && d.recent@.len() == 0,
            d.whitelist_status@ == if config.whitelist.enabled { "не проверен"@ } else { "выкл"@ },
            d.endpoint_ok && d.running && !d.stopping && d.done_message is None,
            event_messages(d.events@) == start_messages(config),
            forall|i: int| 0 <= i < d.events@.len() ==> (#[trigger] d.events@[i]).level == EventLevel::Inf && d.events@[i].time@ == time@,
    {
        let mut events: Vec<EventLine> = Vec::new();
        let mut m1 = String::from_str("Старт · ");
        push_dec(&mut m1, config.total_subnets as u64);
        push_str(&mut m1, " /24");
        events.push(event_at(&time, EventLevel::Inf, m1));
        if config.resume_count > 0 {
            let mut m = String::from_str("Resume: ");
            push_dec(&mut m, config.resume_count as u64);
            push_str(&mut m, " /24 пропускаем");
            events.push(event_at(&time, EventLevel::Inf, m));
        }
        let mut m3 = String::from_str("Probe: ");
        let pt = joined(&config.ping_types, "+");
        push_str(&mut m3, pt.as_str());
        push_str(&mut m3, " · ports ");
        let ps = port_list_string(&config.tcp_ports, ",");
        push_str(&mut m3, ps.as_str());
        push_str(&mut m3, " · endpoint ");
        push_str(&mut m3, config.endpoint.as_str());
        events.push(event_at(&time, EventLevel::Inf, m3));
        if config.whitelist.enabled {
            let mut m = String::from_str("Whitelist: ");
            push_str(&mut m, config.whitelist.label.as_str());
            push_str(&mut m, " (до=");
            let a = yes_no_string(config.whitelist.check_before);
            push_str(&mut m, a.as_str());
            push_str(&mut m, ", после=");
            let b = yes_no_string(config.whitelist.check_after);
            push_str(&mut m, b.as_str());
            push_str(&mut m, ")");
            events.push(event_at(&time, EventLevel::Inf, m));
        }
        assert(event_messages(events@) =~= start_messages(config));
        let status = if config.whitelist.enabled {
            String::from_str("не проверен")
        } else {
            String::from_str("выкл")
        };
        let total = config.resume_count;
        ScanDashboard {
            config,
            scanned_total: total,
            scanned_this_run: 0,
            alive_subnets: 0,
            echo_only_subnets: 0,
            dead_subnets: 0,
            echo_hosts_total: 0,
            tcp_hosts_total: 0,
            rejected_hosts_total: 0,
            errors: 0,
            inflight: Vec::new(),
            inflight_subnets: 0,
            recent: Vec::new(),
            events,
            whitelist_status: status,
            endpoint_ok: true,
            done_message: None,
            running: true,
            stopping: false,
        }
    }

    /// A subnet is under way at position `index`: its row is (re)shown as
    /// scanning; a new row is added only for a subnet not shown yet.
    pub fn set_scanning(&mut self, index: usize, subnet: &str)
        requires
            old(self).wf(),
        ensures
            final(self).wf(),
            row_subnets(final(self).inflight@).to_set() == row_subnets(old(self).inflight@).to_set().insert(subnet@),
            exists|i: int| 0 <= i < final(self).inflight@.len() && final(self).inflight@[i].subnet@ == subnet@
                && final(self).inflight@[i].index == index && final(self).inflight@[i].status == SubnetStatus::Scanning,
            final(self).recent@ == old(self).recent@,
            final(self).events@ == old(self).events@,
            counters_kept(*final(self), *old(self)),
            forall|j: int| 0 <= j < old(self).inflight@.len() && old(self).inflight@[j].subnet@ != subnet@
                ==> final(self).inflight@[j] == old(self).inflight@[j],
            forall|j: int| 0 <= j < old(self).inflight@.len() && old(self).inflight@[j].subnet@ == subnet@ ==> {
                let (a, b) = (final(self).inflight@[j], old(self).inflight@[j]);
                &&& a.index == index && a.total == old(self).config.total_subnets && a.status == SubnetStatus::Scanning
                &&& a.subnet@ == b.subnet@ && a.echo == b.echo && a.tcp == b.tcp && a.rejected == b.rejected
                &&& a.seconds@ == b.seconds@
            },
            (exists|j: int| 0 <= j < old(self).inflight@.len() && old(self).inflight@[j].subnet@ == subnet@) ==> {
                &&& final(self).inflight@.len() == old(self).inflight@.len()
                &&& final(self).inflight_subnets == old(self).inflight_subnets
            },
            !(exists|j: int| 0 <= j < old(self).inflight@.len() && old(self).inflight@[j].subnet@ == subnet@) ==> {
                let r = final(self).inflight@.last();
                &&& final(self).inflight@.len() == old(self).inflight@.len() + 1
                &&& final(self).inflight_subnets == final(self).inflight@.len()
                &&& r.index == index && r.total == old(self).config.total_subnets && r.subnet@ == subnet@
                &&& r.echo == 0 && r.tcp == 0 && r.rejected == 0 && r.seconds@ == "0.0"@
                &&& r.status == SubnetStatus::Scanning
            },
    {
        let total = self.config.total_subnets;
        match find_row(&self.inflight, subnet) {
            Some(i) => {
                let ghost old_rows = self.inflight@;
                let mut row = self.inflight[i].clone_row();
                row.index = index;
                row.total = total;
                row.status = SubnetStatus::Scanning;
                self.inflight.set(i, row);
                proof {
                    assert(row_subnets(self.inflight@) =~= row_subnets(old_rows));
                    assert(row_subnets(old_rows)[i as int] == subnet@);
                    assert(row_subnets(self.inflight@).to_set() =~= row_subnets(old_rows).to_set().insert(subnet@));
                    assert forall|a: int, b: int| 0 <= a < b < self.inflight@.len() implies self.inflight@[a].subnet@ != self.inflight@[b].subnet@ by {
                        assert(row_subnets(self.inflight@)[a] == row_subnets(old_rows)[a]);
                        assert(row_subnets(self.inflight@)[b] == row_subnets(old_rows)[b]);
                    }
                    assert(self.inflight@[i as int].subnet@ == subnet@);
                    assert forall|j: int| 0 <= j < old_rows.len() && old_rows[j].subnet@ == subnet@ implies j == i by {
                        if j != i {
                            assert(old_rows[j].subnet@ != old_rows[i as int].subnet@);
                        }
                    }
                }
            },
            None => {
                let ghost old_rows = self.inflight@;
                let row = SubnetRow {
                    index,
                    total,
                    subnet: String::from_str(subnet),
                    echo: 0,
                    tcp: 0,
                    rejected: 0,
                    seconds: String::from_str("0.0"),
                    status: SubnetStatus::Scanning,
                };
                self.inflight.push(row);
                self.inflight_subnets = self.inflight.len();
                proof {
                    assert(row_subnets(self.inflight@) =~= row_subnets(old_rows).push(subnet@));
                    assert(row_subnets(self.inflight@).to_set() =~= row_subnets(old_rows).to_set().insert(subnet@));
                    assert(self.inflight@[old_rows.len() as int].subnet@ == subnet@);
                    reveal_strlit("0.0");
                }
            },
        }
    }
}

impl SubnetRow {
    /// A copy of the row.
    pub fn clone_row(&self) -> (r: SubnetRow)
        ensures
            r.index == self.index,
            r.total == self.total,
            r.subnet@ == self.subnet@,
            r.echo == self.echo,
            r.tcp == self.tcp,
            r.rejected == self.rejected,
            r.seconds@ == self.seconds@,
            r.status == self.status,
    {
        SubnetRow {
            index: self.index,
            total: self.total,
            subnet: self.subnet.clone(),
            echo: self.echo,
            tcp: self.tcp,
            rejected: self.rejected,
            seconds: self.seconds.clone(),
            status: self.status,
        }
    }
}


impl ScanDashboard {
    fn count_finished(&mut self, echo: usize, tcp: usize, rejected: usize, is_error: bool) -> (status: SubnetStatus)
        requires
            old(self).wf(),
            old(self).errors < usize::MAX,
            old(self).alive_subnets < usize::MAX,
            echo_only_count(*old(self)) < usize::MAX,
            old(self).dead_subnets < usize::MAX,
            old(self).scanned_total < usize::MAX,
            old(self).echo_hosts_total + echo <= usize::MAX,
            old(self).tcp_hosts_total + tcp <= usize::MAX,
            old(self).rejected_hosts_total + rejected <= usize::MAX,
        ensures
            final(self).wf(),
            status == finished_status(echo, tcp, is_error),
            final(self).errors == plus_if(old(self).errors, is_error),
            final(self).alive_subnets == plus_if(old(self).alive_subnets, status == SubnetStatus::Alive),
            echo_only_count(*final(self)) == plus_if(echo_only_count(*old(self)), status == SubnetStatus::EchoOnly),
            final(self).dead_subnets == plus_if(old(self).dead_subnets, status == SubnetStatus::Dead),
            final(self).scanned_this_run == plus_if(old(self).scanned_this_run, !is_error),
            final(self).scanned_total == plus_if(old(self).scanned_total, !is_error),
            final(self).echo_hosts_total == old(self).echo_hosts_total + if is_error { 0 } else { echo },
            final(self).tcp_hosts_total == old(self).tcp_hosts_total + if is_error { 0 } else { tcp },
            final(self).rejected_hosts_total == old(self).rejected_hosts_total + if is_error { 0 } else { rejected },
            final(self).inflight@ == old(self).inflight@,
            final(self).recent@ == old(self).recent@,
            final(self).events@ == old(self).events@,
            final(self).config == old(self).config,
            final(self).stopping == old(self).stopping,
            final(self).running == old(self).running,
    {
        let status = if is_error {
            self.errors = self.errors + 1;
            SubnetStatus::Error
        } else if tcp > 0 {
            self.alive_subnets = self.alive_subnets + 1;
            SubnetStatus::Alive
        } else if echo > 0 {
            self.echo_only_subnets = self.echo_only_subnets + 1;
            SubnetStatus::EchoOnly
        } else {
            self.dead_subnets = self.dead_subnets + 1;
            SubnetStatus::Dead
        };
        if !is_error {
            self.echo_hosts_total = self.echo_hosts_total + echo;
            self.tcp_hosts_total = self.tcp_hosts_total + tcp;
            self.rejected_hosts_total = self.rejected_hosts_total + rejected;
            self.scanned_this_run = self.scanned_this_run + 1;
            self.scanned_total = self.scanned_total + 1;
        }
        status
    }

    fn remove_inflight(&mut self, subnet: &str)
        requires
            old(self).wf(),
        ensures
            final(self).wf(),
            same_counts(*final(self), *old(self)),
            row_subnets(final(self).inflight@).to_set() == row_subnets(old(self).inflight@).to_set().remove(subnet@),
            final(self).recent@ == old(self).recent@,
            final(self).events@ == old(self).events@,
    {
        let ghost old_inflight = self.inflight@;
        match find_row(&self.inflight, subnet) {
            Some(pos) => {
                self.inflight.swap_remove(pos);
                proof {
                    let nr = self.inflight@;
                    assert(nr =~= old_inflight.update(pos as int, old_inflight.last()).drop_last());
                    assert forall|a: int, b: int| 0 <= a < b < nr.len() implies nr[a].subnet@ != nr[b].subnet@ by {
                        if a == pos {
                            assert(nr[a] == old_inflight.last());
                        } else if b == pos {
                            assert(nr[b] == old_inflight.last());
                        }
                    }
                    assert forall|x: Seq<char>| row_subnets(nr).to_set().contains(x) <==> row_subnets(old_inflight).to_set().remove(subnet@).contains(x) by {
                        if row_subnets(nr).contains(x) {
                            let k = row_subnets(nr).index_of(x);
                            if k == pos {
                                assert(row_subnets(old_inflight)[old_inflight.len() - 1] == x);
                                assert(old_inflight.len() - 1 != pos);
                            } else {
                                assert(row_subnets(old_inflight)[k] == x);
                                assert(k != pos);
                            }
                        }
                        if row_subnets(old_inflight).contains(x) && x != subnet@ {
                            let k = row_subnets(old_inflight).index_of(x);
                            if k == old_inflight.len() - 1 {
                                assert(row_subnets(nr)[pos as int] == x);
                            } else {
                                assert(k != pos);
                                assert(row_subnets(nr)[k] == x);
                            }
                        }
                    }
                    assert(row_subnets(nr).to_set() =~= row_subnets(old_inflight).to_set().remove(subnet@));
                }
            },
            None => {
                proof {
                    assert(row_subnets(old_inflight).to_set() =~= row_subnets(old_inflight).to_set().remove(subnet@)) by {
                        if row_subnets(old_inflight).contains(subnet@) {
                            let k = row_subnets(old_inflight).index_of(subnet@);
                            assert(old_inflight[k].subnet@ == subnet@);
                        }
                    }
                }
            },
        }
    }
}

/// The event message of a finished subnet.
pub open spec fn finished_message(subnet: Seq<char>, echo: usize, tcp: usize, rejected: usize, seconds: Seq<char>, status: SubnetStatus) -> Seq<char> {
    subnet + " · icmp "@ + dec(echo as nat) + " tcp "@ + dec(tcp as nat) + " rej "@ + dec(rejected as nat) + " · "@
        + seconds + "s ["@ + status_text(status) + "]"@
}

/// The events after adding one, at most 300 kept.
pub open spec fn events_after(events: Seq<EventLine>, e: EventLine) -> Seq<EventLine> {
    let all = events.push(e);
    if all.len() > max_events() {
        all.skip(all.len() - max_events())
    } else {
        all
    }
}

/// The recent rows after showing one more in front, at most 14 kept.
pub open spec fn recent_after(recent: Seq<SubnetRow>, r: SubnetRow) -> Seq<SubnetRow> {
    let all = seq![r] + recent;
    if all.len() > max_recent() {
        all.take(max_recent() as int)
    } else {
        all
    }
}

/// One more when the condition holds.
pub open spec fn plus_if(n: usize, c: bool) -> int {
    if c {
        n + 1
    } else {
        n as int
    }
}

fn finished_message_string(subnet: &str, echo: usize, tcp: usize, rejected: usize, seconds: &str, status: SubnetStatus) -> (r: String)
    ensures
        r@ == finished_message(subnet@, echo, tcp, rejected, seconds@, status),
{
    let mut m = String::new();
    push_str(&mut m, subnet);
    push_str(&mut m, " · icmp ");
    push_dec(&mut m, echo as u64);
    push_str(&mut m, " tcp ");
    push_dec(&mut m, tcp as u64);
    push_str(&mut m, " rej ");
    push_dec(&mut m, rejected as u64);
    push_str(&mut m, " · ");
    push_str(&mut m, seconds);
    push_str(&mut m, "s [");
    push_str(&mut m, status.label());
    push_str(&mut m, "]");
    assert(m@ =~= finished_message(subnet@, echo, tcp, rejected, seconds@, status));
    m
}

impl ScanDashboard {
    /// A subnet finished (or failed): it is counted by its state, its counts
    /// are added (unless it failed), it leaves the running rows, is shown first
    /// among the recent ones, and (unless it failed) gets an event.
    pub fn complete_subnet(
        &mut self,
        index: usize,
        subnet: &str,
        echo: usize,
        tcp: usize,
        rejected: usize,
        seconds: String,
        is_error: bool,
        time: String,
    )
        requires
            old(self).wf(),
            old(self).errors < usize::MAX,
            old(self).alive_subnets < usize::MAX,
            echo_only_count(*old(self)) < usize::MAX,
            old(self).dead_subnets < usize::MAX,
            old(self).scanned_total < usize::MAX,
            old(self).echo_hosts_total + echo <= usize::MAX,
            old(self).tcp_hosts_total + tcp <= usize::MAX,
            old(self).rejected_hosts_total + rejected <= usize::MAX,
        ensures
            final(self).wf(),
            final(self).errors == plus_if(old(self).errors, is_error),
            final(self).alive_subnets == plus_if(old(self).alive_subnets, finished_status(echo, tcp, is_error) == SubnetStatus::Alive),
            echo_only_count(*final(self)) == plus_if(echo_only_count(*old(self)), finished_status(echo, tcp, is_error) == SubnetStatus::EchoOnly),
            final(self).dead_subnets == plus_if(old(self).dead_subnets, finished_status(echo, tcp, is_error) == SubnetStatus::Dead),
            final(self).scanned_this_run == plus_if(old(self).scanned_this_run, !is_error),
            final(self).scanned_total == plus_if(old(self).scanned_total, !is_error),
            final(self).echo_hosts_total == old(self).echo_hosts_total + if is_error { 0 } else { echo },
            final(self).tcp_hosts_total == old(self).tcp_hosts_total + if is_error { 0 } else { tcp },
            final(self).rejected_hosts_total == old(self).rejected_hosts_total + if is_error { 0 } else { rejected },
            row_subnets(final(self).inflight@).to_set() == row_subnets(old(self).inflight@).to_set().remove(subnet@),
            !row_subnets(final(self).inflight@).contains(subnet@),
            final(self).inflight_subnets == final(self).inflight@.len(),
            final(self).recent@.len() > 0,
            final(self).recent@.drop_first() == recent_after(old(self).recent@, final(self).recent@[0]).drop_first(),
            final(self).recent@[0].index == index,
            final(self).recent@[0].total == old(self).config.total_subnets,
            final(self).recent@[0].subnet@ == subnet@,
            final(self).recent@[0].echo == echo,
            final(self).recent@[0].tcp == tcp,
            final(self).recent@[0].rejected == rejected,
            final(self).recent@[0].seconds == seconds,
            final(self).recent@[0].status == finished_status(echo, tcp, is_error),
            is_error ==> final(self).events@ == old(self).events@,
            !is_error ==> event_messages(final(self).events@) == event_messages(events_after(
                old(self).events@,
                EventLine {
                    time,
                    level: if tcp > 0 { EventLevel::Done } else { EventLevel::Inf },
                    message: final(self).events@.last().message,
                },
            )),
            !is_error ==> final(self).events@.last().message@ == finished_message(subnet@, echo, tcp, rejected, seconds@, finished_status(echo, tcp, is_error)),
            final(self).config == old(self).config,
            final(self).stopping == old(self).stopping,
            final(self).running == old(self).running,
    {
        let status = self.count_finished(echo, tcp, rejected, is_error);
        self.remove_inflight(subnet);
        self.inflight_subnets = self.inflight.len();
        let message = if !is_error {
            Some(finished_message_string(subnet, echo, tcp, rejected, seconds.as_str(), status))
        } else {
            None
        };
        let row = SubnetRow {
            index,
            total: self.config.total_subnets,
            subnet: String::from_str(subnet),
            echo,
            tcp,
            rejected,
            seconds,
            status,
        };
        let ghost old_recent = self.recent@;
        self.recent.insert(0, row);
        self.recent.truncate(14);
        proof {
            assert(self.recent@[0] == row);
            assert(self.recent@.drop_first() =~= recent_after(old_recent, row).drop_first());
        }
        match message {
            Some(m) => {
                let level = if tcp > 0 { EventLevel::Done } else { EventLevel::Inf };
                let ghost mm = m;
                self.push_event(time, level, m);
                proof {
                    assert(self.events@.last().message == mm);
                }
            },
            None => {},
        }
        proof {
            assert(!row_subnets(self.inflight@).to_set().contains(subnet@));
        }
    }

    /// A subnet failed: it is shown as an error, and an error event names it.
    pub fn subnet_error(&mut self, index: usize, subnet: &str, error: &str, time: String)
        requires
            old(self).wf(),
            old(self).errors < usize::MAX,
            old(self).alive_subnets < usize::MAX,
            echo_only_count(*old(self)) < usize::MAX,
            old(self).dead_subnets < usize::MAX,
            old(self).scanned_total < usize::MAX,
        ensures
            final(self).wf(),
            final(self).errors == old(self).errors + 1,
            final(self).scanned_this_run == old(self).scanned_this_run,
            final(self).scanned_total == old(self).scanned_total,
            final(self).recent@[0].status == SubnetStatus::Error,
            final(self).recent@[0].index == index,
            final(self).recent@[0].subnet@ == subnet@,
            final(self).alive_subnets == old(self).alive_subnets,
            final(self).echo_only_subnets == old(self).echo_only_subnets,
            final(self).dead_subnets == old(self).dead_subnets,
            final(self).echo_hosts_total == old(self).echo_hosts_total,
            final(self).tcp_hosts_total == old(self).tcp_hosts_total,
            final(self).rejected_hosts_total == old(self).rejected_hosts_total,
            row_subnets(final(self).inflight@).to_set() == row_subnets(old(self).inflight@).to_set().remove(subnet@),
            final(self).config == old(self).config,
            final(self).events@.last().level == EventLevel::Error,
            final(self).events@.last().time@ == time@,
            final(self).events@.last().message@ == subnet@ + ": "@ + error@,
    {
        let t2 = time.clone();
        self.complete_subnet(index, subnet, 0, 0, 0, String::from_str("0.0"), true, time);
        let mut m = String::new();
        push_str(&mut m, subnet);
        push_str(&mut m, ": ");
        push_str(&mut m, error);
        let ghost mm = m@;
        self.push_event(t2, EventLevel::Error, m);
        assert(self.events@.last().message@ == mm);
    }

    /// One turn of the drawing loop: a cancel request not yet shown starts the
    /// stopping state with a warning; gives whether the loop goes on.
    pub fn on_tick(&mut self, cancelled: bool, time: String) -> (running: bool)
        requires
            old(self).wf(),
        ensures
            final(self).wf(),
            final(self).stopping == (old(self).stopping || cancelled),
            cancelled && !old(self).stopping ==> final(self).events@.last().level == EventLevel::Wrn
                && final(self).events@.last().message@ == "Остановка сканирования, ждите…"@,
            !(cancelled && !old(self).stopping) ==> final(self).events@ == old(self).events@,
            running == final(self).running,
            final(self).running == old(self).running,
            final(self).inflight@ == old(self).inflight@,
            final(self).recent@ == old(self).recent@,
            final(self).config == old(self).config,
            final(self).scanned_total == old(self).scanned_total,
            final(self).scanned_this_run == old(self).scanned_this_run,
            final(self).alive_subnets == old(self).alive_subnets,
            final(self).echo_only_subnets == old(self).echo_only_subnets,
            final(self).dead_subnets == old(self).dead_subnets,
            final(self).echo_hosts_total == old(self).echo_hosts_total,
            final(self).tcp_hosts_total == old(self).tcp_hosts_total,
            final(self).rejected_hosts_total == old(self).rejected_hosts_total,
            final(self).errors == old(self).errors,
            final(self).inflight_subnets == old(self).inflight_subnets,
            final(self).whitelist_status == old(self).whitelist_status,
            final(self).endpoint_ok == old(self).endpoint_ok,
            final(self).done_message == old(self).done_message,
    {
        if cancelled && !self.stopping {
            self.stopping = true;
            let m = String::from_str("Остановка сканирования, ждите…");
            let ghost mm = m@;
            self.push_event(time, EventLevel::Wrn, m);
            assert(self.events@.last().message@ == mm);
        }
        self.running
    }

    /// The session is over: the final message is kept and the drawing stops;
    /// everything else stays as it was.
    pub fn finish(&mut self, message: String)
        ensures
            final(self).done_message == Some(message),
            !final(self).running,
            !final(self).stopping,
            final(self).config == old(self).config,
            final(self).scanned_total == old(self).scanned_total,
            final(self).scanned_this_run == old(self).scanned_this_run,
            final(self).alive_subnets == old(self).alive_subnets,
            final(self).echo_only_subnets == old(self).echo_only_subnets,
            final(self).dead_subnets == old(self).dead_subnets,
            final(self).echo_hosts_total == old(self).echo_hosts_total,
            final(self).tcp_hosts_total == old(self).tcp_hosts_total,
            final(self).rejected_hosts_total == old(self).rejected_hosts_total,
            final(self).errors == old(self).errors,
            final(self).inflight@ == old(self).inflight@,
            final(self).inflight_subnets == old(self).inflight_subnets,
            final(self).recent@ == old(self).recent@,
            final(self).events@ == old(self).events@,
            final(self).whitelist_status == old(self).whitelist_status,
            final(self).endpoint_ok == old(self).endpoint_ok,
    {
        self.done_message = Some(message);
        self.running = false;
        self.stopping = false;
    }
}

// ---------------------------------------------------------------------------
// Panels
// ---------------------------------------------------------------------------

/// A color of the dashboard.
#[derive(Clone, Copy, Debug, PartialEq, Eq, Structural)]
pub enum Tone {
    Green,
    Red,
    Yellow,
    DarkGray,
    White,
}

/// The texts and colors of the control panel.
pub struct SidePanel {
    pub endpoint: String,
    pub endpoint_status: String,
    pub endpoint_tone: Tone,
    pub whitelist: String,
    pub whitelist_tone: Tone,
    pub whitelist_status: String,
    pub whitelist_status_tone: Tone,
    pub probe: String,
    pub workers: String,
    pub operator: String,
    pub interface: String,
    pub session: String,
    pub hosts: String,
    pub jsonl: String,
    pub last_stop: Option<String>,
}

/// The color of the whitelist look: red when the target is reachable (the
/// session is about to stop), green when it is not, yellow otherwise; gray
/// without a target.
pub open spec fn whitelist_tone(enabled: bool, status: Seq<char>) -> Tone {
    if !enabled {
        Tone::DarkGray
    } else if status == "доступен"@ {
        Tone::Red
    } else if status == "недоступен"@ {
        Tone::Green
    } else {
        Tone::Yellow
    }
}

/// An optional setting shown as itself when set and not empty.
pub open spec fn nonempty(v: Option<String>) -> Option<Seq<char>> {
    match v {
        Some(s) => if s@.len() > 0 {
            Some(s@)
        } else {
            None
        },
        None => None,
    }
}

fn nonempty_text(v: &Option<String>) -> (r: Option<&str>)
    ensures
        match nonempty(*v) {
            Some(t) => r matches Some(x) && x@ == t,
            None => r is None,
        },
{
    match v {
        Some(s) => if s.as_str().is_empty() {
            None
        } else {
            Some(s.as_str())
        },
        None => None,
    }
}

impl ScanDashboard {
    /// The control panel of the dashboard.
    pub fn side_panel(&self) -> (p: SidePanel)
        ensures
            p.endpoint@ == self.config.endpoint@ + " "@,
            p.endpoint_status@ == if self.endpoint_ok { "[OK]"@ } else { "[FAIL]"@ },
            p.endpoint_tone == if self.endpoint_ok { Tone::Green } else { Tone::Red },
            p.whitelist@ == if self.config.whitelist.enabled { self.config.whitelist.label@ } else {
                "выкл — раскомментируй [stop_on_available]"@
            },
            p.whitelist_tone == if self.config.whitelist.enabled { Tone::White } else { Tone::DarkGray },
            p.whitelist_status@ == self.whitelist_status@,
            p.whitelist_status_tone == whitelist_tone(self.config.whitelist.enabled, self.whitelist_status@),
            p.probe@ == join(views(self.config.ping_types@), "+"@) + " · "@ + self.config.socket_type@ + " · ports "@
                + ports_text(self.config.tcp_ports@, ", "@),
            p.workers@ == dec(self.inflight_subnets as nat) + "/"@ + dec(self.config.subnet_parallelism as nat),
            p.operator@ == match nonempty(self.config.operator) {
                Some(o) => o,
                None => "—"@,
            },
            p.interface@ == match nonempty(self.config.network_interface) {
                Some(i) => i + " (forced)"@,
                None => "auto (system route)"@,
            },
            p.session@ == "+"@ + dec(self.scanned_this_run as nat) + " /24 · resume "@ + dec(self.config.resume_count as nat)
                + " · err "@ + dec(self.errors as nat),
            p.hosts@ == "icmp "@ + dec(self.echo_hosts_total as nat) + " · tcp "@ + dec(self.tcp_hosts_total as nat)
                + " · rej "@ + dec(self.rejected_hosts_total as nat),
            p.jsonl@ == truncated(self.config.result_jsonl@, 32),
            match self.config.last_stop {
                Some(s) => p.last_stop matches Some(t) && t@ == truncated(s@, 30),
                None => p.last_stop is None,
            },
    {
        let mut endpoint = String::new();
        push_str(&mut endpoint, self.config.endpoint.as_str());
        push_str(&mut endpoint, " ");
        let endpoint_status = if self.endpoint_ok { String::from_str("[OK]") } else { String::from_str("[FAIL]") };
        let whitelist = if self.config.whitelist.enabled {
            self.config.whitelist.label.clone()
        } else {
            String::from_str("выкл — раскомментируй [stop_on_available]")
        };
        let status_tone = if !self.config.whitelist.enabled {
            Tone::DarkGray
        } else if crate::text::str_eq(self.whitelist_status.as_str(), "доступен") {
            Tone::Red
        } else if crate::text::str_eq(self.whitelist_status.as_str(), "недоступен") {
            Tone::Green
        } else {
            Tone::Yellow
        };
        let mut probe = joined(&self.config.ping_types, "+");
        push_str(&mut probe, " · ");
        push_str(&mut probe, self.config.socket_type.as_str());
        push_str(&mut probe, " · ports ");
        let ports = port_list_string(&self.config.tcp_ports, ", ");
        push_str(&mut probe, ports.as_str());
        let mut workers = String::new();
        push_dec(&mut workers, self.inflight_subnets as u64);
        push_str(&mut workers, "/");
        push_dec(&mut workers, self.config.subnet_parallelism as u64);
        let operator = match nonempty_text(&self.config.operator) {
            Some(o) => String::from_str(o),
            None => String::from_str("—"),
        };
        let interface = match nonempty_text(&self.config.network_interface) {
            Some(i) => {
                let mut t = String::from_str(i);
                push_str(&mut t, " (forced)");
                t
            },
            None => String::from_str("auto (system route)"),
        };
        let mut session = String::new();
        push_str(&mut session, "+");
        push_dec(&mut session, self.scanned_this_run as u64);
        push_str(&mut session, " /24 · resume ");
        push_dec(&mut session, self.config.resume_count as u64);
        push_str(&mut session, " · err ");
        push_dec(&mut session, self.errors as u64);
        let mut hosts = String::new();
        push_str(&mut hosts, "icmp ");
        push_dec(&mut hosts, self.echo_hosts_total as u64);
        push_str(&mut hosts, " · tcp ");
        push_dec(&mut hosts, self.tcp_hosts_total as u64);
        push_str(&mut hosts, " · rej ");
        push_dec(&mut hosts, self.rejected_hosts_total as u64);
        let jsonl = truncate(self.config.result_jsonl.as_str(), 32);
        let last_stop = match &self.config.last_stop {
            Some(s) => Some(truncate(s.as_str(), 30)),
            None => None,
        };
        let p = SidePanel {
            endpoint,
            endpoint_status,
            endpoint_tone: if self.endpoint_ok { Tone::Green } else { Tone::Red },
            whitelist,
            whitelist_tone: if self.config.whitelist.enabled { Tone::White } else { Tone::DarkGray },
            whitelist_status: self.whitelist_status.clone(),
            whitelist_status_tone: status_tone,
            probe,
            workers,
            operator,
            interface,
            session,
            hosts,
            jsonl,
            last_stop,
        };
        assert(p.probe@ =~= join(views(self.config.ping_types@), "+"@) + " · "@ + self.config.socket_type@ + " · ports "@
            + ports_text(self.config.tcp_ports@, ", "@));
        assert(p.workers@ =~= dec(self.inflight_subnets as nat) + "/"@ + dec(self.config.subnet_parallelism as nat));
        assert(p.session@ =~= "+"@ + dec(self.scanned_this_run as nat) + " /24 · resume "@ + dec(self.config.resume_count as nat)
            + " · err "@ + dec(self.errors as nat));
        assert(p.hosts@ =~= "icmp "@ + dec(self.echo_hosts_total as nat) + " · tcp "@ + dec(self.tcp_hosts_total as nat)
            + " · rej "@ + dec(self.rejected_hosts_total as nat));
        assert(p.endpoint@ =~= self.config.endpoint@ + " "@);
        p
    }

    /// The counter texts of the header: live hosts, refused hosts, the subnet
    /// states, and `done/total`.
    pub fn stats_texts(&self) -> (r: (String, String, String, String))
        requires
            self.scanned_total + self.inflight@.len() <= usize::MAX,
        ensures
            r.0@ == dec(self.tcp_hosts_total as nat),
            r.1@ == dec(self.rejected_hosts_total as nat),
            r.2@ == dec(self.alive_subnets as nat) + "+"@ + dec(echo_only_count(*self) as nat) + " dead "@
                + dec(self.dead_subnets as nat),
            r.3@ == dec(self.spec_progress_position()) + "/"@ + dec(self.config.total_subnets as nat),
    {
        let mut tcp = String::new();
        push_dec(&mut tcp, self.tcp_hosts_total as u64);
        let mut rej = String::new();
        push_dec(&mut rej, self.rejected_hosts_total as u64);
        let mut subnets = String::new();
        push_dec(&mut subnets, self.alive_subnets as u64);
        push_str(&mut subnets, "+");
        push_dec(&mut subnets, self.echo_only_subnets as u64);
        push_str(&mut subnets, " dead ");
        push_dec(&mut subnets, self.dead_subnets as u64);
        let mut progress = String::new();
        push_dec(&mut progress, self.progress_position() as u64);
        push_str(&mut progress, "/");
        push_dec(&mut progress, self.config.total_subnets as u64);
        assert(subnets@ =~= dec(self.alive_subnets as nat) + "+"@ + dec(echo_only_count(*self) as nat) + " dead "@
            + dec(self.dead_subnets as nat));
        assert(progress@ =~= dec(self.spec_progress_position()) + "/"@ + dec(self.config.total_subnets as nat));
        (tcp, rej, subnets, progress)
    }
}


// ---------------------------------------------------------------------------
// Plain console output
// ---------------------------------------------------------------------------

/// The header of a scan in plain output: the scan name, the number of `/24`
/// blocks, the resumed count (when any), the watched whitelist target (or
/// `выкл`) and the endpoint, joined by ` · `.
pub open spec fn plain_meta_parts(
    scan_name: Seq<char>,
    total: nat,
    resumed: nat,
    whitelist: Option<Seq<char>>,
    endpoint: Seq<char>,
) -> Seq<Seq<char>> {
    let head = seq![scan_name, dec(total) + " /24"@];
    let with_resume = if resumed > 0 {
        head.push("resume "@ + dec(resumed))
    } else {
        head
    };
    let with_whitelist = match whitelist {
        Some(w) => with_resume.push("whitelist "@ + w),
        None => with_resume.push("whitelist выкл"@),
    };
    with_whitelist.push("endpoint "@ + endpoint)
}

/// The header of a scan in plain output (see [`plain_meta_parts`]).
pub fn plain_scan_meta(
    scan_name: &str,
    total: usize,
    resumed: usize,
    whitelist: Option<&str>,
    endpoint: &str,
) -> (r: String)
    ensures
        r@ == join(
            plain_meta_parts(scan_name@, total as nat, resumed as nat, match whitelist {
                Some(w) => Some(w@),
                None => None,
            }, endpoint@),
            " · "@,
        ),
{
    let mut parts: Vec<String> = Vec::new();
    parts.push(String::from_str(scan_name));
    let mut t = String::new();
    push_dec(&mut t, total as u64);
    push_str(&mut t, " /24");
    parts.push(t);
    if resumed > 0 {
        let mut r = String::from_str("resume ");
        push_dec(&mut r, resumed as u64);
        parts.push(r);
    }
    match whitelist {
        Some(w) => {
            let mut x = String::from_str("whitelist ");
            push_str(&mut x, w);
            parts.push(x);
        },
        None => parts.push(String::from_str("whitelist выкл")),
    }
    let mut e = String::from_str("endpoint ");
    push_str(&mut e, endpoint);
    parts.push(e);
    let ghost expected = plain_meta_parts(scan_name@, total as nat, resumed as nat, match whitelist {
        Some(w) => Some(w@),
        None => None,
    }, endpoint@);
    assert(views(parts@) =~= expected);
    crate::text::join_strings(&parts, " · ")
}

/// The progress-bar message of a finished subnet in plain output:
/// `<subnet> icmp <n> tcp <m> <seconds>s` for a subnet with live hosts, else
/// `<subnet> dead <seconds>s`.
pub fn plain_subnet_summary(subnet: &str, echo: usize, tcp: usize, seconds: &str) -> (r: String)
    ensures
        r@ == if tcp > 0 || echo > 0 {
            subnet@ + " icmp "@ + dec(echo as nat) + " tcp "@ + dec(tcp as nat) + " "@ + seconds@ + "s"@
        } else {
            subnet@ + " dead "@ + seconds@ + "s"@
        },
{
    let mut m = String::from_str(subnet);
    if tcp > 0 || echo > 0 {
        push_str(&mut m, " icmp ");
        push_dec(&mut m, echo as u64);
        push_str(&mut m, " tcp ");
        push_dec(&mut m, tcp as u64);
        push_str(&mut m, " ");
    } else {
        push_str(&mut m, " dead ");
    }
    push_str(&mut m, seconds);
    push_str(&mut m, "s");
    m
}

} // verus!

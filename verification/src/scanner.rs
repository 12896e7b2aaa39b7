//! Decisions of a scan session: its source label, which subnets are left,
//! which are done or failed, when to pause, and how the control endpoint is
//! retried.
use vstd::prelude::*;
use crate::init::{ConfigSocketType, SubnetsScan};
use crate::scan_state::ScanState;
use crate::text::{dec, chars_of, string_of, to_uppercase, spec_to_uppercase, push_char, push_dec, views};

verus! {

broadcast use vstd::seq_lib::group_seq_properties;

// ---------------------------------------------------------------------------
// Source of a scan
// ---------------------------------------------------------------------------

/// `geoip_`.
pub open spec fn geoip_prefix() -> Seq<char> {
    seq!['g', 'e', 'o', 'i', 'p', '_']
}

/// The scan name without a leading `geoip_`.
pub open spec fn strip_geoip(s: Seq<char>) -> Seq<char> {
    if s.len() >= 6 && s.take(6) == geoip_prefix() {
        s.skip(6)
    } else {
        s
    }
}

/// Every `_` replaced by `,`.
pub open spec fn underscores_to_commas(s: Seq<char>) -> Seq<char> {
    s.map_values(|c: char| if c == '_' { ',' } else { c })
}

/// The source label of a scan: its name without `geoip_`, with `,` for `_`,
/// upper-cased, so `geoip_ru_by` gives `RU,BY`.
pub open spec fn source_text(scan_name: Seq<char>) -> Seq<char> {
    spec_to_uppercase(underscores_to_commas(strip_geoip(scan_name)))
}

/// The source label of a scan (see [`source_text`]).
pub fn scan_source(scan_name: &str) -> (r: String)
    ensures
        r@ == source_text(scan_name@),
{
    let v = chars_of(scan_name);
    let prefix: Vec<char> = vec!['g', 'e', 'o', 'i', 'p', '_'];
    let mut start: usize = 0;
    if v.len() >= 6 {
        let mut i: usize = 0;
        let mut same = true;
        while i < 6
            invariant
                i <= 6,
                v@.len() >= 6,
                prefix@ == geoip_prefix(),
                same == forall|j: int| 0 <= j < i ==> v@[j] == prefix@[j],
            decreases 6 - i,
        {
            if v[i] != prefix[i] {
                same = false;
            }
            i = i + 1;
        }
        if same {
            assert(v@.take(6) =~= geoip_prefix());
            start = 6;
        } else {
            assert(v@.take(6) != geoip_prefix()) by {
                let j = choose|j: int| 0 <= j < 6 && v@[j] != prefix@[j];
                assert(v@.take(6)[j] != geoip_prefix()[j]);
            }
        }
    }
    let ghost rest = strip_geoip(v@);
    assert(rest =~= v@.skip(start as int));
    let mut out: Vec<char> = Vec::new();
    let mut k: usize = start;
    while k < v.len()
        invariant
            start <= k <= v@.len(),
            rest == v@.skip(start as int),
            out@ == underscores_to_commas(v@.subrange(start as int, k as int)),
        decreases v@.len() - k,
    {
        let c = v[k];
        out.push(if c == '_' { ',' } else { c });
        assert(underscores_to_commas(v@.subrange(start as int, k + 1)) =~= underscores_to_commas(v@.subrange(start as int, k as int)).push(if c == '_' { ',' } else { c }));
        k = k + 1;
    }
    assert(v@.subrange(start as int, v@.len() as int) =~= rest);
    let replaced = string_of(&out);
    to_uppercase(replaced.as_str())
}

/// An ASCII letter.
pub open spec fn ascii_letter(c: char) -> bool {
    ('a' <= c && c <= 'z') || ('A' <= c && c <= 'Z')
}

/// A source that is a two-letter code (two ASCII letters, so two bytes) serves
/// as the country of subnets the database knows no country for.
pub open spec fn fallback_country_text(source: Seq<char>) -> Option<Seq<char>> {
    if source.len() == 2 && forall|i: int| 0 <= i < source.len() ==> ascii_letter(#[trigger] source[i]) {
        Some(source)
    } else {
        None
    }
}

/// The country a source stands for, if it is a two-letter code.
pub fn fallback_country_for_source(source: &str) -> (r: Option<String>)
    ensures
        match fallback_country_text(source@) {
            Some(t) => r matches Some(s) && s@ == t,
            None => r is None,
        },
{
    let v = chars_of(source);
    if v.len() != 2 {
        return None;
    }
    let mut i: usize = 0;
    while i < v.len()
        invariant
            i <= v@.len(),
            v@ == source@,
            forall|j: int| 0 <= j < i ==> ascii_letter(#[trigger] v@[j]),
        decreases v@.len() - i,
    {
        let c = v[i];
        if !(('a' <= c && c <= 'z') || ('A' <= c && c <= 'Z')) {
            assert(!ascii_letter(source@[i as int]));
            return None;
        }
        i = i + 1;
    }
    Some(string_of(&v))
}

/// Advice printed when ICMP echo does not work with the configured socket type.
pub fn icmp_unavailable_hint(socket_type: ConfigSocketType) -> (r: &'static str)
    ensures
        r@ == match socket_type {
            ConfigSocketType::DGRAM => "ICMP через DGRAM сейчас недоступен для текущего пользователя.\nДля Linux без sudo выполните:\n  sudo sysctl -w net.ipv4.ping_group_range=\"0 1000\"\n(постоянно: добавьте net.ipv4.ping_group_range = 0 1000 в /etc/sysctl.d/*.conf и примените sysctl --system)\nЛибо используйте socket_type = \"RAW\" (нужны CAP_NET_RAW/root) или ping_type = [\"TCP\"]."@,
            ConfigSocketType::RAW => "ICMP через RAW недоступен: нужен CAP_NET_RAW или запуск от root.\nЛибо используйте ping_type = [\"TCP\"]."@,
        },
{
    match socket_type {
        ConfigSocketType::DGRAM => "ICMP через DGRAM сейчас недоступен для текущего пользователя.\nДля Linux без sudo выполните:\n  sudo sysctl -w net.ipv4.ping_group_range=\"0 1000\"\n(постоянно: добавьте net.ipv4.ping_group_range = 0 1000 в /etc/sysctl.d/*.conf и примените sysctl --system)\nЛибо используйте socket_type = \"RAW\" (нужны CAP_NET_RAW/root) или ping_type = [\"TCP\"].",
        ConfigSocketType::RAW => "ICMP через RAW недоступен: нужен CAP_NET_RAW или запуск от root.\nЛибо используйте ping_type = [\"TCP\"].",
    }
}

// ---------------------------------------------------------------------------
// Durations
// ---------------------------------------------------------------------------

/// A number with at least two digits (`{:02}`).
pub open spec fn two_digits(n: nat) -> Seq<char> {
    if n < 10 {
        seq!['0'] + dec(n)
    } else {
        dec(n)
    }
}

/// `HH:MM:SS` of a number of seconds; the hours may take more digits.
pub open spec fn hms_text(total: nat) -> Seq<char> {
    two_digits(total / 3600) + seq![':'] + two_digits((total % 3600) / 60) + seq![':'] + two_digits(total % 60)
}

fn push_two_digits(s: &mut String, n: u64)
    ensures
        final(s)@ == old(s)@ + two_digits(n as nat),
{
    if n < 10 {
        push_char(s, '0');
    }
    push_dec(s, n);
    assert(final(s)@ =~= old(s)@ + two_digits(n as nat));
}

/// `HH:MM:SS` of a duration in whole seconds.
pub fn format_elapsed(total_secs: u64) -> (r: String)
    ensures
        r@ == hms_text(total_secs as nat),
{
    let mut s = String::new();
    push_two_digits(&mut s, total_secs / 3600);
    push_char(&mut s, ':');
    push_two_digits(&mut s, (total_secs % 3600) / 60);
    push_char(&mut s, ':');
    push_two_digits(&mut s, total_secs % 60);
    assert(s@ =~= hms_text(total_secs as nat));
    s
}

// ---------------------------------------------------------------------------
// Resuming and the subnets left
// ---------------------------------------------------------------------------

/// A saved state is resumed when resuming is on and the state is unfinished;
/// otherwise the job starts afresh.
pub fn resume_saved(resume_enabled: bool, saved: &Option<ScanState>) -> (r: bool)
    ensures
        r == (resume_enabled && match saved {
            Some(s) => !s.finished,
            None => false,
        }),
{
    match saved {
        Some(s) => resume_enabled && !s.finished,
        None => false,
    }
}

/// The texts are pairwise distinct.
pub open spec fn distinct_texts(s: Seq<Seq<char>>) -> bool {
    forall|i: int, j: int| 0 <= i < j < s.len() ==> s[i] != s[j]
}

/// Whether a list of strings holds a text.
pub fn holds_text(v: &Vec<String>, t: &str) -> (r: bool)
    ensures
        r == views(v@).contains(t@),
{
    let mut i: usize = 0;
    while i < v.len()
        invariant
            i <= v@.len(),
            forall|j: int| 0 <= j < i ==> v@[j]@ != t@,
        decreases v@.len() - i,
    {
        if crate::text::str_eq(v[i].as_str(), t) {
            assert(views(v@)[i as int] == t@);
            return true;
        }
        i = i + 1;
    }
    proof {
        if views(v@).contains(t@) {
            let k = views(v@).index_of(t@);
            assert(v@[k]@ == t@);
        }
    }
    false
}

/// The positions of the subnets still to scan: those whose text is not
/// completed, in list order.
pub open spec fn pending_positions(all: Seq<Seq<char>>, completed: Set<Seq<char>>) -> Seq<usize>
    decreases all.len(),
{
    if all.len() == 0 {
        Seq::empty()
    } else {
        let rest = pending_positions(all.drop_last(), completed);
        if completed.contains(all.last()) {
            rest
        } else {
            rest.push((all.len() - 1) as usize)
        }
    }
}

/// The subnets still to scan, with their position in the full list: those whose
/// text is not among the completed ones, in order.
pub fn pending_subnets(all: &Vec<String>, completed: &Vec<String>) -> (r: Vec<usize>)
    ensures
        r@ == pending_positions(views(all@), views(completed@).to_set()),
        forall|i: int, j: int| 0 <= i < j < r@.len() ==> r@[i] < r@[j],
        forall|k: usize| r@.contains(k) <==> (k < all@.len() && !views(completed@).contains(all@[k as int]@)),
{
    let mut r: Vec<usize> = Vec::new();
    let mut k: usize = 0;
    while k < all.len()
        invariant
            k <= all@.len(),
            forall|i: int, j: int| 0 <= i < j < r@.len() ==> r@[i] < r@[j],
            forall|i: int| 0 <= i < r@.len() ==> r@[i] < k,
            forall|x: usize| r@.contains(x) <==> (x < k && !views(completed@).contains(all@[x as int]@)),
            r@ == pending_positions(views(all@).take(k as int), views(completed@).to_set()),
        decreases all@.len() - k,
    {
        proof {
            let t = views(all@).take(k + 1);
            assert(t.drop_last() =~= views(all@).take(k as int));
            assert(t.last() == all@[k as int]@);
        }
        if !holds_text(completed, all[k].as_str()) {
            let ghost before = r@;
            r.push(k);
            proof {
                assert forall|x: usize| r@.contains(x) <==> (x < k + 1 && !views(completed@).contains(all@[x as int]@)) by {
                    if r@.contains(x) && x != k {
                        let q = r@.index_of(x);
                        assert(before[q] == x);
                    }
                    if x < k && !views(completed@).contains(all@[x as int]@) {
                        let q = before.index_of(x);
                        assert(r@[q] == x);
                    }
                    if x == k {
                        assert(r@[before.len() as int] == k);
                    }
                }
            }
        }
        k = k + 1;
    }
    assert(views(all@).take(all@.len() as int) =~= views(all@));
    r
}

proof fn lemma_pending_positions(all: Seq<Seq<char>>, c: Set<Seq<char>>)
    requires
        all.len() <= usize::MAX,
    ensures
        forall|i: int, j: int| 0 <= i < j < pending_positions(all, c).len()
            ==> pending_positions(all, c)[i] < pending_positions(all, c)[j],
        forall|i: int| 0 <= i < pending_positions(all, c).len()
            ==> (#[trigger] pending_positions(all, c)[i]) < all.len() && !c.contains(all[pending_positions(all, c)[i] as int]),
        forall|k: int| 0 <= k < all.len() && !c.contains(#[trigger] all[k]) ==> pending_positions(all, c).contains(k as usize),
    decreases all.len(),
{
    if all.len() > 0 {
        let a = all.drop_last();
        lemma_pending_positions(a, c);
        let rest = pending_positions(a, c);
        let p = pending_positions(all, c);
        assert forall|i: int| 0 <= i < rest.len() implies #[trigger] rest[i] < a.len() && all[rest[i] as int] == a[rest[i] as int] by {}
        if !c.contains(all.last()) {
            assert(p == rest.push((all.len() - 1) as usize));
            assert(p[p.len() - 1] as int == all.len() - 1);
        }
        assert forall|k: int| 0 <= k < all.len() && !c.contains(#[trigger] all[k]) implies p.contains(k as usize) by {
            if k < a.len() {
                assert(all[k] == a[k]);
                assert(rest.contains(k as usize));
                let q = rest.index_of(k as usize);
                assert(p[q] == rest[q]);
            } else {
                assert(p[p.len() - 1] == k as usize);
            }
        }
    }
}

/// Law: a session resumed from a saved state never scans again a subnet that
/// the state lists as completed, and scans every other subnet of the list
/// once, in list order. The book made from the state
/// (`SessionBook::from_state`) holds the state's completed subnets, and the
/// positions to scan (`pending_subnets` over that book) are those of the
/// other subnets, increasing.
pub proof fn lemma_resume_skips_completed(all: Seq<Seq<char>>, state: ScanState, book: SessionBook)
    requires
        all.len() <= usize::MAX,
        book@.completed == views(state.completed_subnets@).to_set(),
    ensures
        ({
            let p = pending_positions(all, views(book.completed@).to_set());
            &&& forall|i: int, j: int| 0 <= i < j < p.len() ==> p[i] < p[j]
            &&& forall|i: int| 0 <= i < p.len()
                ==> (#[trigger] p[i]) < all.len() && !views(state.completed_subnets@).contains(all[p[i] as int])
            &&& forall|k: int| 0 <= k < all.len() && !views(state.completed_subnets@).contains(#[trigger] all[k])
                ==> p.contains(k as usize)
        }),
{
    let c = views(book.completed@).to_set();
    lemma_pending_positions(all, c);
    assert forall|x: Seq<char>| c.contains(x) <==> views(state.completed_subnets@).contains(x) by {
        assert(views(state.completed_subnets@).to_set().contains(x) == views(state.completed_subnets@).contains(x));
    }
}

// ---------------------------------------------------------------------------
// Completed and failed subnets of a session
// ---------------------------------------------------------------------------

/// The subnets a session has completed and those that failed, each listed
/// once, and how many it scanned.
pub struct SessionBook {
    pub completed: Vec<String>,
    pub failed: Vec<String>,
    pub scanned_this_run: usize,
}

/// Mathematical value of a [`SessionBook`].
pub struct BookView {
    pub completed: Set<Seq<char>>,
    pub failed: Set<Seq<char>>,
    pub scanned_this_run: nat,
}

impl View for SessionBook {
    type V = BookView;

    open spec fn view(&self) -> BookView {
        BookView {
            completed: views(self.completed@).to_set(),
            failed: views(self.failed@).to_set(),
            scanned_this_run: self.scanned_this_run as nat,
        }
    }
}

impl SessionBook {
    /// Each subnet is listed once in each list.
    pub open spec fn wf(&self) -> bool {
        distinct_texts(views(self.completed@)) && distinct_texts(views(self.failed@))
    }
}

fn add_text(v: &mut Vec<String>, t: &str)
    requires
        distinct_texts(views(old(v)@)),
    ensures
        distinct_texts(views(final(v)@)),
        views(final(v)@).to_set() == views(old(v)@).to_set().insert(t@),
{
    if !holds_text(v, t) {
        let ghost before = views(v@);
        v.push(String::from_str(t));
        proof {
            assert(views(v@) =~= before.push(t@));
            assert forall|i: int, j: int| 0 <= i < j < views(v@).len() implies views(v@)[i] != views(v@)[j] by {
                if j == before.len() {
                    assert(before.contains(before[i]));
                }
            }
            assert(views(v@).to_set() =~= before.to_set().insert(t@));
        }
    } else {
        assert(views(v@).to_set() =~= views(v@).to_set().insert(t@));
    }
}

fn remove_text(v: &mut Vec<String>, t: &str)
    requires
        distinct_texts(views(old(v)@)),
    ensures
        distinct_texts(views(final(v)@)),
        views(final(v)@).to_set() == views(old(v)@).to_set().remove(t@),
{
    let ghost before = views(v@);
    let mut out: Vec<String> = Vec::new();
    let mut i: usize = 0;
    while i < v.len()
        invariant
            i <= v@.len(),
            before == views(v@),
            distinct_texts(before),
            distinct_texts(views(out@)),
            forall|x: Seq<char>| views(out@).contains(x) <==> (before.take(i as int).contains(x) && x != t@),
        decreases v@.len() - i,
    {
        if !crate::text::str_eq(v[i].as_str(), t) {
            let ghost prev = views(out@);
            out.push(v[i].clone());
            proof {
                assert(views(out@) =~= prev.push(before[i as int]));
                assert forall|a: int, b: int| 0 <= a < b < views(out@).len() implies views(out@)[a] != views(out@)[b] by {
                    if b == prev.len() {
                        assert(prev.contains(prev[a]));
                        assert(before.take(i as int).contains(prev[a]));
                        let q = before.take(i as int).index_of(prev[a]);
                        assert(before[q] == prev[a]);
                    }
                }
            }
        }
        proof {
            assert(before.take(i + 1) =~= before.take(i as int).push(before[i as int]));
        }
        i = i + 1;
    }
    proof {
        assert(before.take(before.len() as int) =~= before);
        assert(views(out@).to_set() =~= before.to_set().remove(t@));
    }
    *v = out;
}

fn distinct_copy(v: &Vec<String>) -> (r: Vec<String>)
    ensures
        distinct_texts(views(r@)),
        views(r@).to_set() == views(v@).to_set(),
{
    let mut r: Vec<String> = Vec::new();
    let mut i: usize = 0;
    while i < v.len()
        invariant
            i <= v@.len(),
            distinct_texts(views(r@)),
            views(r@).to_set() == views(v@).take(i as int).to_set(),
        decreases v@.len() - i,
    {
        add_text(&mut r, v[i].as_str());
        assert(views(v@).take(i + 1) =~= views(v@).take(i as int).push(views(v@)[i as int]));
        assert(views(v@).take(i + 1).to_set() =~= views(v@).take(i as int).to_set().insert(views(v@)[i as int]));
        i = i + 1;
    }
    assert(views(v@).take(v@.len() as int) =~= views(v@));
    r
}

fn copy_texts(v: &Vec<String>) -> (r: Vec<String>)
    ensures
        views(r@) == views(v@),
{
    let mut r: Vec<String> = Vec::new();
    let mut i: usize = 0;
    while i < v.len()
        invariant
            i <= v@.len(),
            views(r@) == views(v@).take(i as int),
        decreases v@.len() - i,
    {
        let s = v[i].clone();
        let ghost before = r@;
        r.push(s);
        assert(views(r@) =~= views(before).push(s@));
        assert(views(v@).take(i + 1) =~= views(v@).take(i as int).push(views(v@)[i as int]));
        i = i + 1;
    }
    assert(views(v@).take(v@.len() as int) =~= views(v@));
    r
}

impl SessionBook {
    /// The book of a session that resumes from a saved state: its completed and
    /// failed subnets, nothing scanned yet.
    pub fn from_state(state: &ScanState) -> (r: SessionBook)
        ensures
            r.wf(),
            r@.completed == views(state.completed_subnets@).to_set(),
            r@.failed == views(state.failed_subnets@).to_set(),
            r@.scanned_this_run == 0,
    {
        SessionBook {
            completed: distinct_copy(&state.completed_subnets),
            failed: distinct_copy(&state.failed_subnets),
            scanned_this_run: 0,
        }
    }

    /// Whether a subnet is completed.
    pub fn is_completed(&self, subnet: &str) -> (r: bool)
        ensures
            r == self@.completed.contains(subnet@),
    {
        holds_text(&self.completed, subnet)
    }

    /// A subnet was scanned and its result kept: it is completed, no longer
    /// failed, and counts as scanned in this session.
    pub fn record_success(&mut self, subnet: &str)
        requires
            old(self).wf(),
            old(self).scanned_this_run < usize::MAX,
        ensures
            final(self).wf(),
            final(self)@.completed == old(self)@.completed.insert(subnet@),
            final(self)@.failed == old(self)@.failed.remove(subnet@),
            final(self)@.scanned_this_run == old(self)@.scanned_this_run + 1,
    {
        add_text(&mut self.completed, subnet);
        remove_text(&mut self.failed, subnet);
        self.scanned_this_run = self.scanned_this_run + 1;
    }

    /// A subnet's scan failed: it is listed as failed; nothing else changes.
    pub fn record_failure(&mut self, subnet: &str)
        requires
            old(self).wf(),
        ensures
            final(self).wf(),
            final(self)@.completed == old(self)@.completed,
            final(self)@.failed == old(self)@.failed.insert(subnet@),
            final(self)@.scanned_this_run == old(self)@.scanned_this_run,
    {
        add_text(&mut self.failed, subnet);
    }

    /// Writes the lists into the saved state and counts one more snapshot;
    /// every other field of the state stays as it was.
    pub fn snapshot(&self, state: &mut ScanState)
        requires
            old(state).subnet24_count < u32::MAX,
        ensures
            views(final(state).completed_subnets@) == views(self.completed@),
            views(final(state).failed_subnets@) == views(self.failed@),
            final(state).subnet24_count == old(state).subnet24_count + 1,
            final(state).version == old(state).version,
            final(state).scan_name == old(state).scan_name,
            final(state).created_at == old(state).created_at,
            final(state).updated_at == old(state).updated_at,
            final(state).job_id == old(state).job_id,
            final(state).result_csv == old(state).result_csv,
            final(state).result_jsonl == old(state).result_jsonl,
            final(state).result_alive_txt == old(state).result_alive_txt,
            final(state).result_rejected_txt == old(state).result_rejected_txt,
            final(state).finished == old(state).finished,
            final(state).stopped_reason == old(state).stopped_reason,
    {
        state.completed_subnets = copy_texts(&self.completed);
        state.failed_subnets = copy_texts(&self.failed);
        state.subnet24_count = state.subnet24_count + 1;
    }
}

/// A pause is due after the snapshot numbered `count` when pauses are set to
/// every `stop_every` snapshots.
pub open spec fn pause_due(stop_every: u32, count: u32) -> bool {
    stop_every != 0 && count % stop_every == 0
}

/// Whether the periodic pause is due.
pub fn periodic_stop_due(stop_every: u32, count: u32) -> (r: bool)
    ensures
        r == pause_due(stop_every, count),
{
    stop_every != 0 && count % stop_every == 0
}

// ---------------------------------------------------------------------------
// An endpoint that stays unavailable
// ---------------------------------------------------------------------------

/// What a session does when the endpoint stays unavailable.
#[derive(Clone, Debug, PartialEq, Eq)]
pub enum EndpointFailurePlan {
    /// Save the state and stop with an error.
    Stop,
    /// Ask the address-change hook at this URL, wait this many seconds, and
    /// ping the endpoint once more.
    Rotate(String, u64),
    /// Rotation is set but the configuration has no task section.
    MissingTask,
    /// Rotation is set but the task gives no hook URL.
    MissingUrl,
}

/// The plan for an unavailable endpoint: stop, unless rotation is set; a
/// rotation needs the task's hook URL and waits the task's delay, 5 s when it
/// gives none.
pub fn endpoint_failure_plan(rotate: bool, task: &Option<SubnetsScan>) -> (r: EndpointFailurePlan)
    ensures
        !rotate ==> r == EndpointFailurePlan::Stop,
        rotate ==> match task {
            None => r == EndpointFailurePlan::MissingTask,
            Some(t) => match t.change_ip_url {
                None => r == EndpointFailurePlan::MissingUrl,
                Some(u) => r matches EndpointFailurePlan::Rotate(url, delay) && url@ == u@ && delay == match t.delay_seconds {
                    Some(d) => d,
                    None => 5u64,
                },
            },
        },
{
    if !rotate {
        return EndpointFailurePlan::Stop;
    }
    match task {
        None => EndpointFailurePlan::MissingTask,
        Some(t) => match &t.change_ip_url {
            None => EndpointFailurePlan::MissingUrl,
            Some(u) => {
                let delay = match t.delay_seconds {
                    Some(d) => d,
                    None => 5,
                };
                EndpointFailurePlan::Rotate(u.clone(), delay)
            },
        },
    }
}

// ---------------------------------------------------------------------------
// Retrying the control endpoint
// ---------------------------------------------------------------------------

/// How many times the endpoint is pinged before it counts as unavailable.
pub open spec fn endpoint_tries() -> nat {
    6
}

/// The pause after the `cnt`-th failed try (counted from 0), in milliseconds:
/// 5 s, 10 s, 15 s, 20 s, then a minute.
pub open spec fn retry_delay(cnt: nat) -> nat {
    if cnt < 4 {
        5000 + cnt * 5000
    } else {
        60000
    }
}

/// The pause after a failed try.
pub fn endpoint_retry_delay_ms(cnt: u32) -> (r: u64)
    requires
        cnt < 6,
    ensures
        r == retry_delay(cnt as nat),
{
    if cnt < 4 {
        5000 + (cnt as u64) * 5000
    } else {
        60000
    }
}

/// The next thing the endpoint check needs done.
#[derive(Clone, Copy, Debug, PartialEq, Eq, Structural)]
pub enum EndpointAction {
    /// Ping the endpoint once (the session's cancel flag is looked at first).
    Ping,
    /// Wait this many milliseconds.
    Wait(u64),
    /// The check is over: whether the endpoint answered, whether it was cancelled.
    Finish(bool, bool),
}

/// What came of the last endpoint action.
#[derive(Clone, Copy, Debug, PartialEq, Eq, Structural)]
pub enum EndpointEvent {
    Cancelled,
    Answered(bool),
    Waited,
}

/// The check of the control endpoint after a subnet: up to six pings, with
/// growing pauses between them, until one is answered.
pub struct EndpointCheck {
    pub tries: u32,
    pub pending: EndpointAction,
}

/// How an event changes the check; an event that does not answer the pending
/// action changes nothing.
pub open spec fn endpoint_next(tries: nat, pending: EndpointAction, e: EndpointEvent) -> (nat, EndpointAction) {
    match (pending, e) {
        (EndpointAction::Ping, EndpointEvent::Cancelled) => (tries, EndpointAction::Finish(false, true)),
        (EndpointAction::Ping, EndpointEvent::Answered(true)) => (tries + 1, EndpointAction::Finish(true, false)),
        (EndpointAction::Ping, EndpointEvent::Answered(false)) => {
            if tries + 1 < endpoint_tries() {
                (tries + 1, EndpointAction::Wait(retry_delay(tries) as u64))
            } else {
                (tries + 1, EndpointAction::Finish(false, false))
            }
        },
        (EndpointAction::Wait(_), EndpointEvent::Waited) => (tries, EndpointAction::Ping),
        _ => (tries, pending),
    }
}

impl EndpointCheck {
    /// A check about to ping for the first time.
    pub fn new() -> (r: EndpointCheck)
        ensures
            r.tries == 0,
            r.pending == EndpointAction::Ping,
    {
        EndpointCheck { tries: 0, pending: EndpointAction::Ping }
    }

    /// The counters are in range: at most six pings, and a pause only after a
    /// failed ping that was not the last.
    pub open spec fn wf(&self) -> bool {
        &&& self.tries <= 6
        &&& (self.pending == EndpointAction::Ping ==> self.tries < 6)
        &&& (self.pending matches EndpointAction::Wait(_) ==> 1 <= self.tries < 6)
    }

    /// Takes in what came of the pending action and gives the next action.
    pub fn step(&mut self, event: EndpointEvent) -> (a: EndpointAction)
        requires
            old(self).wf(),
        ensures
            final(self).wf(),
            (final(self).tries as nat, final(self).pending) == endpoint_next(old(self).tries as nat, old(self).pending, event),
            a == final(self).pending,
    {
        match (self.pending, event) {
            (EndpointAction::Ping, EndpointEvent::Cancelled) => {
                self.pending = EndpointAction::Finish(false, true);
            },
            (EndpointAction::Ping, EndpointEvent::Answered(true)) => {
                self.tries = self.tries + 1;
                self.pending = EndpointAction::Finish(true, false);
            },
            (EndpointAction::Ping, EndpointEvent::Answered(false)) => {
                if self.tries + 1 < 6 {
                    let d = endpoint_retry_delay_ms(self.tries);
                    self.tries = self.tries + 1;
                    self.pending = EndpointAction::Wait(d);
                } else {
                    self.tries = self.tries + 1;
                    self.pending = EndpointAction::Finish(false, false);
                }
            },
            (EndpointAction::Wait(_), EndpointEvent::Waited) => {
                self.pending = EndpointAction::Ping;
            },
            _ => {},
        }
        self.pending
    }
}

/// The endpoint check asks for at most six pings: a ping is only asked for
/// while fewer than six were made, and every answered ping counts.
pub proof fn lemma_endpoint_bounded(tries: nat, pending: EndpointAction, e: EndpointEvent)
    requires
        tries <= 6,
        pending == EndpointAction::Ping ==> tries < 6,
        pending is Wait ==> 1 <= tries < 6,
    ensures
        endpoint_next(tries, pending, e).0 <= 6,
        endpoint_next(tries, pending, e).1 == EndpointAction::Ping ==> endpoint_next(tries, pending, e).0 < 6,
        pending == EndpointAction::Ping && (e is Answered) ==> endpoint_next(tries, pending, e).0 == tries + 1,
{
}

/// Law: with pauses set (`stop_every > 0`) a pause is due after exactly the
/// snapshots numbered by a multiple of `stop_every` (`stop_every`,
/// `2 * stop_every`, ...); with none set, never.
pub proof fn lemma_pause_multiples(stop_every: u32, count: u32)
    ensures
        stop_every == 0 ==> !pause_due(stop_every, count),
        stop_every > 0 ==> (pause_due(stop_every, count) <==> exists|k: nat| count == #[trigger] (k * stop_every)),
        stop_every > 0 ==> pause_due(stop_every, stop_every),
{
    if stop_every > 0 {
        let s = stop_every as int;
        let c = count as int;
        if count % stop_every == 0 {
            vstd::arithmetic::div_mod::lemma_fundamental_div_mod(c, s);
            let k: nat = (c / s) as nat;
            assert(c == k * s) by (nonlinear_arith)
                requires
                    c == s * (c / s) + c % s,
                    c % s == 0,
                    k == c / s,
                    s > 0;
            assert(count == k * stop_every);
        }
        if exists|k: nat| count == #[trigger] (k * stop_every) {
            let k = choose|k: nat| count == #[trigger] (k * stop_every);
            vstd::arithmetic::div_mod::lemma_mod_multiples_basic(k as int, s);
            assert(count % stop_every == 0);
        }
        vstd::arithmetic::div_mod::lemma_mod_self_0(s);
    }
}

} // verus!

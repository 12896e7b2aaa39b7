//! Per-subnet probe records and the result files written for them: compact
//! last-octet ranges, CSV lines, and alive/rejected address lists.
use vstd::prelude::*;
use crate::text::{dec, dec_usize, dec_u32, join, views, push_char, push_dec, push_dec_usize, push_dec_u32, push_str, dec_string, join_strings};
use crate::ipv4::{Ipv4Net, ip_text, ip_string};
use crate::geoip::SubnetInfo;

verus! {

broadcast use vstd::seq_lib::group_seq_properties;

// ---------------------------------------------------------------------------
// Last-octet ranges
// ---------------------------------------------------------------------------

/// `x` falls in one of the inclusive ranges.
pub open spec fn in_ranges(r: Seq<(u8, u8)>, x: u8) -> bool {
    exists|i: int| 0 <= i < r.len() && r[i].0 <= x && x <= r[i].1
}

/// The ranges are non-empty, increasing, and separated by gaps: no two of them
/// touch or overlap.
pub open spec fn canonical(r: Seq<(u8, u8)>) -> bool {
    &&& forall|i: int| 0 <= i < r.len() ==> (#[trigger] r[i]).0 <= r[i].1
    &&& forall|i: int, j: int| 0 <= i < j < r.len() ==> r[i].1 + 1 < r[j].0
}

/// The ranges hold exactly the octets of `s`.
pub open spec fn covers(r: Seq<(u8, u8)>, s: Set<u8>) -> bool {
    forall|x: u8| s.contains(x) <==> #[trigger] in_ranges(r, x)
}

/// Text of one range: `a` when it holds one octet, otherwise `a-b`.
pub open spec fn range_text(r: (u8, u8)) -> Seq<char> {
    if r.0 == r.1 {
        dec(r.0 as nat)
    } else {
        dec(r.0 as nat) + seq!['-'] + dec(r.1 as nat)
    }
}

/// `v` is the text of the canonical ranges of `s`.
pub open spec fn describes(v: Seq<String>, s: Set<u8>) -> bool {
    exists|r: Seq<(u8, u8)>| canonical(r) && covers(r, s) && views(v) == r.map_values(|x: (u8, u8)| range_text(x))
}

/// Law: a set of octets has one canonical decomposition into ranges.
pub proof fn lemma_canonical_unique(r1: Seq<(u8, u8)>, r2: Seq<(u8, u8)>, s: Set<u8>)
    requires
        canonical(r1),
        covers(r1, s),
        canonical(r2),
        covers(r2, s),
    ensures
        r1 == r2,
    decreases r1.len(),
{
    if r1.len() == 0 {
        if r2.len() > 0 {
            assert(in_ranges(r2, r2[0].0));
            assert(!in_ranges(r1, r2[0].0));
        }
        assert(r1 =~= r2);
    } else if r2.len() == 0 {
        assert(in_ranges(r1, r1[0].0));
        assert(!in_ranges(r2, r1[0].0));
    } else {
        let (a1, b1) = r1[0];
        let (a2, b2) = r2[0];
        // the first start is the least octet of s
        assert(in_ranges(r1, a1));
        assert(in_ranges(r2, a2));
        assert(s.contains(a1) && s.contains(a2));
        assert(in_ranges(r2, a1) && in_ranges(r1, a2));
        if a1 < a2 {
            let j = choose|j: int| 0 <= j < r2.len() && r2[j].0 <= a1 && a1 <= r2[j].1;
            if j > 0 {
                assert(r2[0].1 + 1 < r2[j].0);
            }
        }
        if a2 < a1 {
            let j = choose|j: int| 0 <= j < r1.len() && r1[j].0 <= a2 && a2 <= r1[j].1;
            if j > 0 {
                assert(r1[0].1 + 1 < r1[j].0);
            }
        }
        assert(a1 == a2);
        // the first end is followed by an octet outside s
        if b1 < b2 {
            let y = (b1 + 1) as u8;
            assert(in_ranges(r2, y));
            assert(s.contains(y));
            if in_ranges(r1, y) {
                let j = choose|j: int| 0 <= j < r1.len() && r1[j].0 <= y && y <= r1[j].1;
                if j > 0 {
                    assert(r1[0].1 + 1 < r1[j].0);
                }
            }
        }
        if b2 < b1 {
            let y = (b2 + 1) as u8;
            assert(in_ranges(r1, y));
            assert(s.contains(y));
            if in_ranges(r2, y) {
                let j = choose|j: int| 0 <= j < r2.len() && r2[j].0 <= y && y <= r2[j].1;
                if j > 0 {
                    assert(r2[0].1 + 1 < r2[j].0);
                }
            }
        }
        assert(b1 == b2);
        let t1 = r1.drop_first();
        let t2 = r2.drop_first();
        let s2 = s.filter(|x: u8| x > b1);
        assert forall|x: u8| s2.contains(x) <==> #[trigger] in_ranges(t1, x) by {
            if in_ranges(t1, x) {
                let j = choose|j: int| 0 <= j < t1.len() && t1[j].0 <= x && x <= t1[j].1;
                assert(r1[j + 1] == t1[j]);
                assert(in_ranges(r1, x));
            }
            if s2.contains(x) {
                assert(in_ranges(r1, x));
                let j = choose|j: int| 0 <= j < r1.len() && r1[j].0 <= x && x <= r1[j].1;
                if j == 0 {
                    assert(false);
                }
                assert(t1[j - 1] == r1[j]);
            }
        }
        assert forall|x: u8| s2.contains(x) <==> #[trigger] in_ranges(t2, x) by {
            if in_ranges(t2, x) {
                let j = choose|j: int| 0 <= j < t2.len() && t2[j].0 <= x && x <= t2[j].1;
                assert(r2[j + 1] == t2[j]);
                assert(in_ranges(r2, x));
            }
            if s2.contains(x) {
                assert(in_ranges(r2, x));
                let j = choose|j: int| 0 <= j < r2.len() && r2[j].0 <= x && x <= r2[j].1;
                if j == 0 {
                    assert(false);
                }
                assert(t2[j - 1] == r2[j]);
            }
        }
        assert(canonical(t1)) by {
            assert forall|i: int, j: int| 0 <= i < j < t1.len() implies t1[i].1 + 1 < t1[j].0 by {
                assert(t1[i] == r1[i + 1] && t1[j] == r1[j + 1]);
            }
            assert forall|i: int| 0 <= i < t1.len() implies (#[trigger] t1[i]).0 <= t1[i].1 by {
                assert(t1[i] == r1[i + 1]);
            }
        }
        assert(canonical(t2)) by {
            assert forall|i: int, j: int| 0 <= i < j < t2.len() implies t2[i].1 + 1 < t2[j].0 by {
                assert(t2[i] == r2[i + 1] && t2[j] == r2[j + 1]);
            }
            assert forall|i: int| 0 <= i < t2.len() implies (#[trigger] t2[i]).0 <= t2[i].1 by {
                assert(t2[i] == r2[i + 1]);
            }
        }
        lemma_canonical_unique(t1, t2, s2);
        assert(r1 =~= r2) by {
            assert(r1 == seq![r1[0]] + t1);
            assert(r2 == seq![r2[0]] + t2);
        }
    }
}

/// The canonical ranges of a set of octets: increasing, separated by gaps, and
/// holding exactly the given octets (repeats and order of the input do not matter).
pub fn octet_ranges(octets: &Vec<u8>) -> (r: Vec<(u8, u8)>)
    ensures
        canonical(r@),
        covers(r@, octets@.to_set()),
{
    let mut present: Vec<bool> = Vec::new();
    let mut v: usize = 0;
    while v < 256
        invariant
            v <= 256,
            present@.len() == v,
            forall|q: int| 0 <= q < v ==> !present@[q],
        decreases 256 - v,
    {
        present.push(false);
        v = v + 1;
    }
    let mut k: usize = 0;
    while k < octets.len()
        invariant
            k <= octets.len(),
            present@.len() == 256,
            forall|q: int| 0 <= q < 256 ==> (present@[q] <==> octets@.take(k as int).contains(q as u8)),
        decreases octets.len() - k,
    {
        let o = octets[k];
        present.set(o as usize, true);
        proof {
            assert forall|q: int| 0 <= q < 256 implies (present@[q] <==> octets@.take(k + 1).contains(q as u8)) by {
                assert(octets@.take(k + 1) =~= octets@.take(k as int).push(o));
                if q == o as int {
                    assert(octets@.take(k + 1)[k as int] == o);
                }
            }
        }
        k = k + 1;
    }
    assert(octets@.take(octets.len() as int) =~= octets@);
    let mut closed: Vec<(u8, u8)> = Vec::new();
    let mut open = false;
    let mut s: u8 = 0;
    let mut x: usize = 0;
    while x < 256
        invariant
            x <= 256,
            present@.len() == 256,
            forall|q: int| 0 <= q < 256 ==> (present@[q] <==> octets@.contains(q as u8)),
            canonical(closed@),
            forall|i: int| 0 <= i < closed@.len() ==> (#[trigger] closed@[i]).1 < x,
            open ==> s < x,
            open ==> forall|i: int| 0 <= i < closed@.len() ==> (#[trigger] closed@[i]).1 + 1 < s,
            !open ==> forall|i: int| 0 <= i < closed@.len() ==> (#[trigger] closed@[i]).1 + 1 < x,
            forall|y: u8| y < x ==> (present@[y as int] <==> (in_ranges(closed@, y) || (open && s <= y))),
        decreases 256 - x,
    {
        let here = present[x];
        if here {
            if !open {
                s = x as u8;
                open = true;
            }
        } else if open {
            let ghost before = closed@;
            closed.push((s, (x - 1) as u8));
            open = false;
            proof {
                assert forall|i: int, j: int| 0 <= i < j < closed@.len() implies closed@[i].1 + 1 < closed@[j].0 by {
                    if j == closed@.len() - 1 {
                        assert(closed@[i] == before[i]);
                    } else {
                        assert(closed@[i] == before[i] && closed@[j] == before[j]);
                    }
                }
                assert forall|y: u8| in_ranges(closed@, y) <==> (in_ranges(before, y) || (s <= y && y <= x - 1)) by {
                    if in_ranges(closed@, y) {
                        let j = choose|j: int| 0 <= j < closed@.len() && closed@[j].0 <= y && y <= closed@[j].1;
                        if j < before.len() {
                            assert(closed@[j] == before[j]);
                        }
                    }
                    if in_ranges(before, y) {
                        let j = choose|j: int| 0 <= j < before.len() && before[j].0 <= y && y <= before[j].1;
                        assert(closed@[j] == before[j]);
                    }
                    if s <= y && y <= x - 1 {
                        assert(closed@[before.len() as int] == (s, (x - 1) as u8));
                    }
                }
            }
        }
        x = x + 1;
    }
    if open {
        let ghost before = closed@;
        closed.push((s, 255u8));
        proof {
            assert forall|i: int, j: int| 0 <= i < j < closed@.len() implies closed@[i].1 + 1 < closed@[j].0 by {
                if j == closed@.len() - 1 {
                    assert(closed@[i] == before[i]);
                } else {
                    assert(closed@[i] == before[i] && closed@[j] == before[j]);
                }
            }
            assert forall|y: u8| in_ranges(closed@, y) <==> (in_ranges(before, y) || s <= y) by {
                if in_ranges(closed@, y) {
                    let j = choose|j: int| 0 <= j < closed@.len() && closed@[j].0 <= y && y <= closed@[j].1;
                    if j < before.len() {
                        assert(closed@[j] == before[j]);
                    }
                }
                if in_ranges(before, y) {
                    let j = choose|j: int| 0 <= j < before.len() && before[j].0 <= y && y <= before[j].1;
                    assert(closed@[j] == before[j]);
                }
                if s <= y {
                    assert(closed@[before.len() as int] == (s, 255u8));
                }
            }
        }
    }
    proof {
        assert forall|y: u8| octets@.to_set().contains(y) <==> #[trigger] in_ranges(closed@, y) by {
            assert(present@[y as int] <==> octets@.contains(y));
        }
    }
    closed
}

/// Text of one range (`push_range`).
pub fn range_string(r: (u8, u8)) -> (s: String)
    ensures
        s@ == range_text(r),
{
    let mut s = String::new();
    push_dec(&mut s, r.0 as u64);
    if r.0 != r.1 {
        push_char(&mut s, '-');
        push_dec(&mut s, r.1 as u64);
    }
    assert(s@ =~= range_text(r));
    s
}

/// Appends the text of a range to a list of range texts.
pub fn push_range(ranges: &mut Vec<String>, start: u8, end: u8)
    ensures
        final(ranges)@.len() == old(ranges)@.len() + 1,
        final(ranges)@.take(old(ranges)@.len() as int) == old(ranges)@,
        final(ranges)@.last()@ == range_text((start, end)),
{
    let s = range_string((start, end));
    ranges.push(s);
    assert(ranges@.take(old(ranges)@.len() as int) =~= old(ranges)@);
}

/// The octets compressed into the texts of their canonical ranges, such as
/// `["1-3", "7", "10-12"]`.
pub fn ranges_from_octets(octets: &Vec<u8>) -> (r: Vec<String>)
    ensures
        describes(r@, octets@.to_set()),
{
    let rs = octet_ranges(octets);
    let mut out: Vec<String> = Vec::new();
    let mut i: usize = 0;
    while i < rs.len()
        invariant
            i <= rs.len(),
            views(out@) == rs@.take(i as int).map_values(|x: (u8, u8)| range_text(x)),
        decreases rs.len() - i,
    {
        let ghost before = out@;
        push_range(&mut out, rs[i].0, rs[i].1);
        proof {
            assert(out@ =~= before.push(out@.last()));
            assert(views(out@) =~= views(before).push(out@.last()@));
            assert(rs@.take(i + 1) =~= rs@.take(i as int).push(rs@[i as int]));
            assert(views(out@) =~= rs@.take(i + 1).map_values(|x: (u8, u8)| range_text(x)));
        }
        i = i + 1;
    }
    assert(rs@.take(rs.len() as int) =~= rs@);
    out
}


// ---------------------------------------------------------------------------
// Probe records of a subnet
// ---------------------------------------------------------------------------

/// What the probes found for one host of a subnet.
#[derive(Clone, Debug)]
pub struct HostProbeRecord {
    /// Last octet of the host address.
    pub octet: u8,
    /// The host answered ICMP echo.
    pub icmp: bool,
    /// TCP ports that were open or refused quickly.
    pub tcp_ports: Vec<u16>,
    /// TCP ports that refused the connection quickly.
    pub tcp_rejected_ports: Vec<u16>,
    /// Some TCP port answered.
    pub tcp_alive: bool,
}

/// Counts and host records of one scanned subnet. The per-port maps are
/// lists of `(port, hosts)` in strictly increasing port order.
#[derive(Clone, Debug)]
pub struct SubnetProbeStats {
    pub icmp_alive: usize,
    pub tcp_alive: usize,
    pub tcp_port_alive: Vec<(u16, usize)>,
    pub tcp_port_rejected: Vec<(u16, usize)>,
    pub hosts: Vec<HostProbeRecord>,
}

/// A port map lists each port once, in increasing order.
pub open spec fn port_map_wf(m: Seq<(u16, usize)>) -> bool {
    forall|i: int, j: int| 0 <= i < j < m.len() ==> m[i].0 < m[j].0
}

/// Whether a port map lists each port once, in increasing order.
pub fn port_map_sorted(m: &Vec<(u16, usize)>) -> (r: bool)
    ensures
        r == port_map_wf(m@),
{
    if m.len() == 0 {
        return true;
    }
    let mut i: usize = 1;
    while i < m.len()
        invariant
            1 <= i <= m@.len(),
            forall|a: int, b: int| 0 <= a < b < i ==> m@[a].0 < m@[b].0,
        decreases m@.len() - i,
    {
        if m[i - 1].0 >= m[i].0 {
            return false;
        }
        proof {
            assert forall|a: int, b: int| 0 <= a < b < i + 1 implies m@[a].0 < m@[b].0 by {
                if b == i && a < i - 1 {
                    assert(m@[a].0 < m@[i - 1].0);
                }
            }
        }
        i = i + 1;
    }
    true
}

impl SubnetProbeStats {
    /// Both port maps list each port once, in increasing order.
    pub open spec fn maps_wf(&self) -> bool {
        port_map_wf(self.tcp_port_alive@) && port_map_wf(self.tcp_port_rejected@)
    }

    /// Whether both port maps list each port once, in increasing order.
    pub fn maps_sorted(&self) -> (r: bool)
        ensures
            r == self.maps_wf(),
    {
        port_map_sorted(&self.tcp_port_alive) && port_map_sorted(&self.tcp_port_rejected)
    }
}

/// The count a port map gives a port, 0 where the port is absent.
pub open spec fn port_count(m: Seq<(u16, usize)>, p: u16) -> usize
    decreases m.len(),
{
    if m.len() == 0 {
        0
    } else if m[0].0 == p {
        m[0].1
    } else {
        port_count(m.drop_first(), p)
    }
}

/// The ports of a port map.
pub open spec fn map_ports(m: Seq<(u16, usize)>) -> Seq<u16> {
    m.map_values(|e: (u16, usize)| e.0)
}

/// Which hosts a range list describes.
pub enum OctetSelector {
    Icmp,
    Dead,
    TcpPort(u16),
    RejectedPort(u16),
}

/// Whether a host belongs to the selection.
pub open spec fn selects(sel: OctetSelector, h: HostProbeRecord) -> bool {
    match sel {
        OctetSelector::Icmp => h.icmp,
        OctetSelector::Dead => !h.icmp && !h.tcp_alive,
        OctetSelector::TcpPort(p) => h.tcp_ports@.contains(p),
        OctetSelector::RejectedPort(p) => h.tcp_rejected_ports@.contains(p),
    }
}

/// The last octets of the selected hosts.
pub open spec fn selected_octets(hosts: Seq<HostProbeRecord>, sel: OctetSelector) -> Set<u8> {
    Set::new(|x: u8| exists|i: int| 0 <= i < hosts.len() && selects(sel, hosts[i]) && hosts[i].octet == x)
}

/// Whether a port list holds a port.
pub fn contains_port(v: &Vec<u16>, p: u16) -> (r: bool)
    ensures
        r == v@.contains(p),
{
    let mut i: usize = 0;
    while i < v.len()
        invariant
            i <= v.len(),
            forall|j: int| 0 <= j < i ==> v@[j] != p,
        decreases v.len() - i,
    {
        if v[i] == p {
            assert(v@[i as int] == p);
            return true;
        }
        i = i + 1;
    }
    false
}

fn host_selected(h: &HostProbeRecord, sel: &OctetSelector) -> (r: bool)
    ensures
        r == selects(*sel, *h),
{
    match sel {
        OctetSelector::Icmp => h.icmp,
        OctetSelector::Dead => !h.icmp && !h.tcp_alive,
        OctetSelector::TcpPort(p) => contains_port(&h.tcp_ports, *p),
        OctetSelector::RejectedPort(p) => contains_port(&h.tcp_rejected_ports, *p),
    }
}

/// The last octets of the selected hosts, in host order.
pub fn select_octets(hosts: &Vec<HostProbeRecord>, sel: OctetSelector) -> (r: Vec<u8>)
    ensures
        r@.to_set() == selected_octets(hosts@, sel),
{
    let mut r: Vec<u8> = Vec::new();
    let mut i: usize = 0;
    while i < hosts.len()
        invariant
            i <= hosts.len(),
            forall|x: u8| r@.contains(x) <==> exists|j: int| 0 <= j < i && selects(sel, hosts@[j]) && hosts@[j].octet == x,
        decreases hosts.len() - i,
    {
        if host_selected(&hosts[i], &sel) {
            let ghost before = r@;
            r.push(hosts[i].octet);
            proof {
                assert forall|x: u8| r@.contains(x) <==> exists|j: int| 0 <= j < i + 1 && selects(sel, hosts@[j]) && hosts@[j].octet == x by {
                    if r@.contains(x) && x != hosts@[i as int].octet {
                        let k = r@.index_of(x);
                        assert(before[k] == x);
                        assert(before.contains(x));
                    }
                    if exists|j: int| 0 <= j < i + 1 && selects(sel, hosts@[j]) && hosts@[j].octet == x {
                        if x != hosts@[i as int].octet {
                            let j = choose|j: int| 0 <= j < i + 1 && selects(sel, hosts@[j]) && hosts@[j].octet == x;
                            assert(j < i);
                            assert(before.contains(x));
                            let k = before.index_of(x);
                            assert(r@[k] == x);
                        } else {
                            assert(r@[before.len() as int] == x);
                        }
                    }
                }
            }
        }
        i = i + 1;
    }
    assert(r@.to_set() =~= selected_octets(hosts@, sel)) by {
        assert forall|x: u8| r@.to_set().contains(x) <==> selected_octets(hosts@, sel).contains(x) by {}
    }
    r
}

/// Compact per-subnet record of which last octets answered: ranges for ICMP, for
/// each TCP port, for quick refusals per port, and for dead hosts.
pub struct CompactProbeRecord {
    pub format: String,
    pub icmp: Vec<String>,
    pub tcp_ports: Vec<(u16, Vec<String>)>,
    pub tcp_rejected: Vec<(u16, Vec<String>)>,
    pub dead: Vec<String>,
}

/// The format label of compact probe records.
pub open spec fn compact_format() -> Seq<char> {
    seq!['l', 'a', 's', 't', '_', 'o', 'c', 't', 'e', 't', '_', 'r', 'a', 'n', 'g', 'e', 's']
}

/// Per port of a port map, the ranges of the hosts the selector picks for it.
pub open spec fn describes_per_port(
    v: Seq<(u16, Vec<String>)>,
    m: Seq<(u16, usize)>,
    hosts: Seq<HostProbeRecord>,
    rejected: bool,
) -> bool {
    &&& v.len() == m.len()
    &&& forall|i: int|
        0 <= i < v.len() ==> {
            &&& (#[trigger] v[i]).0 == m[i].0
            &&& describes(
                v[i].1@,
                selected_octets(
                    hosts,
                    if rejected {
                        OctetSelector::RejectedPort(m[i].0)
                    } else {
                        OctetSelector::TcpPort(m[i].0)
                    },
                ),
            )
        }
}

fn ranges_per_port(m: &Vec<(u16, usize)>, hosts: &Vec<HostProbeRecord>, rejected: bool) -> (r: Vec<(u16, Vec<String>)>)
    ensures
        describes_per_port(r@, m@, hosts@, rejected),
{
    let mut r: Vec<(u16, Vec<String>)> = Vec::new();
    let mut i: usize = 0;
    while i < m.len()
        invariant
            i <= m.len(),
            describes_per_port(r@, m@.take(i as int), hosts@, rejected),
        decreases m.len() - i,
    {
        let port = m[i].0;
        let sel = if rejected {
            OctetSelector::RejectedPort(port)
        } else {
            OctetSelector::TcpPort(port)
        };
        let octets = select_octets(hosts, sel);
        let ranges = ranges_from_octets(&octets);
        let ghost before = r@;
        r.push((port, ranges));
        proof {
            assert forall|j: int| 0 <= j < r@.len() implies {
                &&& (#[trigger] r@[j]).0 == m@.take(i + 1)[j].0
                &&& describes(
                    r@[j].1@,
                    selected_octets(
                        hosts@,
                        if rejected {
                            OctetSelector::RejectedPort(m@.take(i + 1)[j].0)
                        } else {
                            OctetSelector::TcpPort(m@.take(i + 1)[j].0)
                        },
                    ),
                )
            } by {
                if j < i {
                    assert(r@[j] == before[j]);
                    assert(m@.take(i + 1)[j] == m@.take(i as int)[j]);
                }
            }
        }
        i = i + 1;
    }
    assert(m@.take(m.len() as int) =~= m@);
    r
}

impl CompactProbeRecord {
    /// The compact record of a subnet's probe results.
    pub fn from_stats(stats: &SubnetProbeStats) -> (r: Self)
        requires
            stats.maps_wf(),
        ensures
            r.format@ == compact_format(),
            describes(r.icmp@, selected_octets(stats.hosts@, OctetSelector::Icmp)),
            describes(r.dead@, selected_octets(stats.hosts@, OctetSelector::Dead)),
            describes_per_port(r.tcp_ports@, stats.tcp_port_alive@, stats.hosts@, false),
            describes_per_port(r.tcp_rejected@, stats.tcp_port_rejected@, stats.hosts@, true),
    {
        proof {
            reveal_strlit("last_octet_ranges");
        }
        let icmp = ranges_from_octets(&select_octets(&stats.hosts, OctetSelector::Icmp));
        let dead = ranges_from_octets(&select_octets(&stats.hosts, OctetSelector::Dead));
        let tcp_ports = ranges_per_port(&stats.tcp_port_alive, &stats.hosts, false);
        let tcp_rejected = ranges_per_port(&stats.tcp_port_rejected, &stats.hosts, true);
        CompactProbeRecord {
            format: String::from_str("last_octet_ranges"),
            icmp,
            tcp_ports,
            tcp_rejected,
            dead,
        }
    }
}

/// The record of one scanned subnet as written to JSON result files.
pub struct SubnetRecord {
    pub subnet: String,
    pub source: String,
    pub country: String,
    pub city: String,
    pub asn: u32,
    pub as_name: String,
    pub icmp_hosts: usize,
    pub active_hosts: usize,
    pub tcp_ports: Vec<(u16, usize)>,
    pub probe: CompactProbeRecord,
}

impl SubnetRecord {
    /// The record of a subnet's result.
    pub fn from_result(result: &(Ipv4Net, SubnetInfo, SubnetProbeStats)) -> (r: Self)
        requires
            result.2.maps_wf(),
        ensures
            r.subnet@ == result.0.text(),
            r.source@ == result.1.source@,
            r.country@ == result.1.country@,
            r.city@ == result.1.city@,
            r.asn == result.1.asn,
            r.as_name@ == result.1.as_name@,
            r.icmp_hosts == result.2.icmp_alive,
            r.active_hosts == result.2.tcp_alive,
            r.tcp_ports@ == result.2.tcp_port_alive@,
            r.probe.format@ == compact_format(),
            describes(r.probe.icmp@, selected_octets(result.2.hosts@, OctetSelector::Icmp)),
            describes(r.probe.dead@, selected_octets(result.2.hosts@, OctetSelector::Dead)),
            describes_per_port(r.probe.tcp_ports@, result.2.tcp_port_alive@, result.2.hosts@, false),
            describes_per_port(r.probe.tcp_rejected@, result.2.tcp_port_rejected@, result.2.hosts@, true),
    {
        let (subnet, info, stats) = result;
        SubnetRecord {
            subnet: subnet.to_string(),
            source: info.source.clone(),
            country: info.country.clone(),
            city: info.city.clone(),
            asn: info.asn,
            as_name: info.as_name.clone(),
            icmp_hosts: stats.icmp_alive,
            active_hosts: stats.tcp_alive,
            tcp_ports: copy_port_map(&stats.tcp_port_alive),
            probe: CompactProbeRecord::from_stats(stats),
        }
    }
}

// ---------------------------------------------------------------------------
// Text summaries and CSV lines
// ---------------------------------------------------------------------------

/// Text of a port map entry, `port:count`.
pub open spec fn entry_text(e: (u16, usize)) -> Seq<char> {
    dec(e.0 as nat) + seq![':'] + dec(e.1 as nat)
}

/// Texts of the entries of a port map.
pub open spec fn entry_texts(m: Seq<(u16, usize)>) -> Seq<Seq<char>> {
    m.map_values(|e: (u16, usize)| entry_text(e))
}

/// `port:count` entries of a port map joined by commas.
pub open spec fn port_summary_text(m: Seq<(u16, usize)>) -> Seq<char> {
    join(entry_texts(m), seq![','])
}

/// A copy of a port map.
pub fn copy_port_map(m: &Vec<(u16, usize)>) -> (r: Vec<(u16, usize)>)
    ensures
        r@ == m@,
{
    let mut r: Vec<(u16, usize)> = Vec::new();
    let mut i: usize = 0;
    while i < m.len()
        invariant
            i <= m.len(),
            r@ == m@.take(i as int),
        decreases m.len() - i,
    {
        r.push(m[i]);
        assert(m@.take(i + 1) =~= m@.take(i as int).push(m@[i as int]));
        i = i + 1;
    }
    assert(m@.take(m.len() as int) =~= m@);
    r
}

/// `port:count` entries of a port map joined by commas.
pub fn port_map_summary(m: &Vec<(u16, usize)>) -> (s: String)
    requires
        port_map_wf(m@),
    ensures
        s@ == port_summary_text(m@),
{
    let mut parts: Vec<String> = Vec::new();
    let mut i: usize = 0;
    while i < m.len()
        invariant
            i <= m.len(),
            views(parts@) == entry_texts(m@.take(i as int)),
        decreases m.len() - i,
    {
        let mut part = dec_string(m[i].0 as u64);
        push_char(&mut part, ':');
        push_dec(&mut part, m[i].1 as u64);
        let ghost before = parts@;
        parts.push(part);
        proof {
            assert(part@ =~= entry_text(m@[i as int]));
            assert(views(parts@) =~= views(before).push(part@));
            assert(m@.take(i + 1) =~= m@.take(i as int).push(m@[i as int]));
            assert(entry_texts(m@.take(i + 1)) =~= entry_texts(m@.take(i as int)).push(entry_text(m@[i as int])));
            assert(views(parts@) =~= entry_texts(m@.take(i + 1)));
        }
        i = i + 1;
    }
    assert(m@.take(m.len() as int) =~= m@);
    assert(views(parts@) == entry_texts(m@));
    proof {
        reveal_strlit(",");
    }
    assert(","@ =~= seq![',']);
    join_strings(&parts, ",")
}

/// Summary of the hosts answering on each TCP port, such as `80:3,443:12`.
pub fn tcp_port_summary(stats: &SubnetProbeStats) -> (s: String)
    requires
        port_map_wf(stats.tcp_port_alive@),
    ensures
        s@ == port_summary_text(stats.tcp_port_alive@),
{
    port_map_summary(&stats.tcp_port_alive)
}

/// Text of `tcp_<port><suffix>`.
pub open spec fn column_name(p: u16, suffix: Seq<char>) -> Seq<char> {
    seq!['t', 'c', 'p', '_'] + dec(p as nat) + suffix
}

/// The suffix of per-port host count columns.
pub open spec fn hosts_suffix() -> Seq<char> {
    seq!['_', 'h', 'o', 's', 't', 's']
}

/// The suffix of per-port refusal count columns.
pub open spec fn rejected_suffix() -> Seq<char> {
    seq!['_', 'r', 'e', 'j', 'e', 'c', 't', 'e', 'd', '_', 'h', 'o', 's', 't', 's']
}

/// Column names for the ports.
pub open spec fn column_names(ports: Seq<u16>, suffix: Seq<char>) -> Seq<Seq<char>> {
    ports.map_values(|p: u16| column_name(p, suffix))
}

/// Column names for the ports, joined by `;`.
pub open spec fn port_header_text(ports: Seq<u16>, suffix: Seq<char>) -> Seq<char> {
    join(column_names(ports, suffix), seq![';'])
}

/// Counts of the ports in a port map.
pub open spec fn value_texts(m: Seq<(u16, usize)>, ports: Seq<u16>) -> Seq<Seq<char>> {
    ports.map_values(|p: u16| dec(port_count(m, p) as nat))
}

/// Counts of the ports in a port map, joined by `;`.
pub open spec fn port_values_text(m: Seq<(u16, usize)>, ports: Seq<u16>) -> Seq<char> {
    join(value_texts(m, ports), seq![';'])
}

fn port_header(ports: &Vec<u16>, suffix: &str) -> (s: String)
    ensures
        s@ == port_header_text(ports@, suffix@),
{
    let mut parts: Vec<String> = Vec::new();
    let mut i: usize = 0;
    while i < ports.len()
        invariant
            i <= ports.len(),
            views(parts@) == column_names(ports@.take(i as int), suffix@),
        decreases ports.len() - i,
    {
        proof {
            reveal_strlit("tcp_");
        }
        let mut part = String::from_str("tcp_");
        push_dec(&mut part, ports[i] as u64);
        push_str(&mut part, suffix);
        let ghost before = parts@;
        parts.push(part);
        proof {
            assert(part@ =~= column_name(ports@[i as int], suffix@));
            assert(views(parts@) =~= views(before).push(part@));
            assert(ports@.take(i + 1) =~= ports@.take(i as int).push(ports@[i as int]));
            assert(views(parts@) =~= column_names(ports@.take(i + 1), suffix@));
        }
        i = i + 1;
    }
    assert(ports@.take(ports.len() as int) =~= ports@);
    assert(views(parts@) == column_names(ports@, suffix@));
    proof {
        reveal_strlit(";");
    }
    assert(";"@ =~= seq![';']);
    join_strings(&parts, ";")
}

/// Column names of host counts per port (`tcp_port_header`), such as
/// `tcp_80_hosts;tcp_443_hosts`.
pub fn tcp_port_header(ports: &Vec<u16>) -> (s: String)
    ensures
        s@ == port_header_text(ports@, hosts_suffix()),
{
    proof {
        reveal_strlit("_hosts");
    }
    assert("_hosts"@ =~= hosts_suffix());
    port_header(ports, "_hosts")
}

/// Column names of quick-refusal counts per port, such as
/// `tcp_80_rejected_hosts;tcp_443_rejected_hosts`.
pub fn tcp_rejected_header(ports: &Vec<u16>) -> (s: String)
    ensures
        s@ == port_header_text(ports@, rejected_suffix()),
{
    proof {
        reveal_strlit("_rejected_hosts");
    }
    assert("_rejected_hosts"@ =~= rejected_suffix());
    port_header(ports, "_rejected_hosts")
}

/// The count a port map gives a port, 0 where it is absent.
pub fn lookup_port(m: &Vec<(u16, usize)>, p: u16) -> (c: usize)
    ensures
        c == port_count(m@, p),
{
    let mut i: usize = 0;
    while i < m.len()
        invariant
            i <= m.len(),
            port_count(m@, p) == port_count(m@.subrange(i as int, m@.len() as int), p),
        decreases m.len() - i,
    {
        assert(m@.subrange(i as int, m@.len() as int).drop_first() =~= m@.subrange(i + 1, m@.len() as int));
        if m[i].0 == p {
            return m[i].1;
        }
        i = i + 1;
    }
    0
}

/// Counts of the given ports joined by `;` (`tcp_port_values`).
pub fn tcp_port_values(m: &Vec<(u16, usize)>, ports: &Vec<u16>) -> (s: String)
    requires
        port_map_wf(m@),
    ensures
        s@ == port_values_text(m@, ports@),
{
    let mut parts: Vec<String> = Vec::new();
    let mut i: usize = 0;
    while i < ports.len()
        invariant
            i <= ports.len(),
            views(parts@) == value_texts(m@, ports@.take(i as int)),
        decreases ports.len() - i,
    {
        let part = dec_string(lookup_port(m, ports[i]) as u64);
        let ghost before = parts@;
        parts.push(part);
        proof {
            assert(views(parts@) =~= views(before).push(part@));
            assert(ports@.take(i + 1) =~= ports@.take(i as int).push(ports@[i as int]));
            assert(views(parts@) =~= value_texts(m@, ports@.take(i + 1)));
        }
        i = i + 1;
    }
    assert(ports@.take(ports.len() as int) =~= ports@);
    assert(views(parts@) == value_texts(m@, ports@));
    proof {
        reveal_strlit(";");
    }
    assert(";"@ =~= seq![';']);
    join_strings(&parts, ";")
}

/// The ports of a port map, in its order.
pub fn ports_of(m: &Vec<(u16, usize)>) -> (r: Vec<u16>)
    ensures
        r@ == map_ports(m@),
{
    let mut r: Vec<u16> = Vec::new();
    let mut i: usize = 0;
    while i < m.len()
        invariant
            i <= m.len(),
            r@ == map_ports(m@.take(i as int)),
        decreases m.len() - i,
    {
        r.push(m[i].0);
        assert(map_ports(m@.take(i + 1)) =~= map_ports(m@.take(i as int)).push(m@[i as int].0));
        i = i + 1;
    }
    assert(m@.take(m.len() as int) =~= m@);
    r
}

/// Optional trailing columns: nothing when `cols` is empty, otherwise `;` and `cols`.
pub open spec fn tail_columns(cols: Seq<char>, any: bool) -> Seq<char> {
    if any {
        seq![';'] + cols
    } else {
        Seq::empty()
    }
}

/// The fixed columns of the CSV header.
pub open spec fn csv_fixed_header() -> Seq<char> {
    seq!['s', 'u', 'b', 'n', 'e', 't', ';', 's', 'o', 'u', 'r', 'c', 'e', ';', 'c', 'o', 'u', 'n', 't', 'r', 'y', ';', 'c',
        'i', 't', 'y', ';', 'a', 's', 'n', ';', 'a', 's', '_', 'n', 'a', 'm', 'e', ';', 'i', 'c', 'm', 'p', '_', 'h', 'o',
        's', 't', 's', ';', 'a', 'c', 't', 'i', 'v', 'e', '_', 'h', 'o', 's', 't', 's']
}

/// The CSV header for the given port columns.
pub open spec fn csv_header_text(ports: Seq<u16>, rejected_ports: Seq<u16>) -> Seq<char> {
    csv_fixed_header() + tail_columns(port_header_text(ports, hosts_suffix()), ports.len() > 0)
        + tail_columns(port_header_text(rejected_ports, rejected_suffix()), rejected_ports.len() > 0)
}

/// The CSV line of a subnet's result for the given port columns.
pub open spec fn csv_row_text(
    result: (Ipv4Net, SubnetInfo, SubnetProbeStats),
    ports: Seq<u16>,
    rejected_ports: Seq<u16>,
) -> Seq<char> {
    let (net, info, stats) = result;
    net.text() + seq![';'] + info.source@ + seq![';'] + info.country@ + seq![';'] + info.city@ + seq![';']
        + dec_u32(info.asn) + seq![';'] + info.as_name@ + seq![';'] + dec_usize(stats.icmp_alive)
        + seq![';'] + dec_usize(stats.tcp_alive) + tail_columns(
        port_values_text(stats.tcp_port_alive@, ports),
        ports.len() > 0,
    ) + tail_columns(port_values_text(stats.tcp_port_rejected@, rejected_ports), rejected_ports.len() > 0)
}

/// The CSV header line (without line break) for the given port columns.
pub fn csv_header(ports: &Vec<u16>, rejected_ports: &Vec<u16>) -> (s: String)
    ensures
        s@ == csv_header_text(ports@, rejected_ports@),
{
    proof {
        reveal_strlit("subnet;source;country;city;asn;as_name;icmp_hosts;active_hosts");
    }
    let mut s = String::from_str("subnet;source;country;city;asn;as_name;icmp_hosts;active_hosts");
    assert(s@ =~= csv_fixed_header());
    if ports.len() > 0 {
        push_char(&mut s, ';');
        let h = tcp_port_header(ports);
        push_str(&mut s, h.as_str());
    }
    if rejected_ports.len() > 0 {
        push_char(&mut s, ';');
        let h = tcp_rejected_header(rejected_ports);
        push_str(&mut s, h.as_str());
    }
    assert(s@ =~= csv_header_text(ports@, rejected_ports@));
    s
}

/// The CSV line (without line break) of a subnet's result for the given port columns.
#[verifier::rlimit(40)]
#[verifier::spinoff_prover]
pub fn csv_row(result: &(Ipv4Net, SubnetInfo, SubnetProbeStats), ports: &Vec<u16>, rejected_ports: &Vec<u16>) -> (s: String)
    requires
        result.2.maps_wf(),
    ensures
        s@ == csv_row_text(*result, ports@, rejected_ports@),
{
    let (net, info, stats) = result;
    let mut s = net.to_string();
    push_char(&mut s, ';');
    push_str(&mut s, info.source.as_str());
    push_char(&mut s, ';');
    push_str(&mut s, info.country.as_str());
    push_char(&mut s, ';');
    push_str(&mut s, info.city.as_str());
    push_char(&mut s, ';');
    push_dec_u32(&mut s, info.asn);
    push_char(&mut s, ';');
    push_str(&mut s, info.as_name.as_str());
    push_char(&mut s, ';');
    push_dec_usize(&mut s, stats.icmp_alive);
    push_char(&mut s, ';');
    push_dec_usize(&mut s, stats.tcp_alive);
    if ports.len() > 0 {
        push_char(&mut s, ';');
        let v = tcp_port_values(&stats.tcp_port_alive, ports);
        push_str(&mut s, v.as_str());
    }
    if rejected_ports.len() > 0 {
        push_char(&mut s, ';');
        let v = tcp_port_values(&stats.tcp_port_rejected, rejected_ports);
        push_str(&mut s, v.as_str());
    }
    assert(s@ =~= csv_row_text(*result, ports@, rejected_ports@));
    s
}

/// Header and line of one subnet appended to the running CSV: its columns are
/// the ports of the subnet's own port maps.
pub fn csv_lines_for_result(result: &(Ipv4Net, SubnetInfo, SubnetProbeStats)) -> (r: (String, String))
    requires
        result.2.maps_wf(),
    ensures
        r.0@ == csv_header_text(map_ports(result.2.tcp_port_alive@), map_ports(result.2.tcp_port_rejected@)),
        r.1@ == csv_row_text(*result, map_ports(result.2.tcp_port_alive@), map_ports(result.2.tcp_port_rejected@)),
{
    let ports = ports_of(&result.2.tcp_port_alive);
    let rejected = ports_of(&result.2.tcp_port_rejected);
    (csv_header(&ports, &rejected), csv_row(result, &ports, &rejected))
}

/// Some result's port map lists the port.
pub open spec fn port_in_results(results: Seq<(Ipv4Net, SubnetInfo, SubnetProbeStats)>, p: u16, rejected: bool) -> bool {
    exists|i: int|
        0 <= i < results.len() && map_ports(
            if rejected {
                results[i].2.tcp_port_rejected@
            } else {
                results[i].2.tcp_port_alive@
            },
        ).contains(p)
}

pub(crate) fn insert_sorted(v: &mut Vec<u16>, p: u16)
    requires
        forall|i: int, j: int| 0 <= i < j < old(v)@.len() ==> old(v)@[i] < old(v)@[j],
    ensures
        forall|i: int, j: int| 0 <= i < j < final(v)@.len() ==> final(v)@[i] < final(v)@[j],
        forall|x: u16| final(v)@.contains(x) <==> (old(v)@.contains(x) || x == p),
{
    let mut i: usize = 0;
    while i < v.len() && v[i] < p
        invariant
            i <= v.len(),
            forall|j: int| 0 <= j < i ==> v@[j] < p,
        decreases v.len() - i,
    {
        i = i + 1;
    }
    if i < v.len() && v[i] == p {
        return;
    }
    let ghost before = v@;
    v.insert(i, p);
    proof {
        assert(v@ =~= before.subrange(0, i as int).push(p) + before.subrange(i as int, before.len() as int));
        assert forall|a: int, b: int| 0 <= a < b < v@.len() implies v@[a] < v@[b] by {
            if b < i {
            } else if b == i {
            } else if a < i {
                assert(before[b - 1] > p);
            } else if a == i {
                assert(before[b - 1] > p);
            } else {
            }
        }
        assert forall|x: u16| v@.contains(x) <==> (before.contains(x) || x == p) by {
            if v@.contains(x) {
                let k = v@.index_of(x);
                if k < i {
                    assert(before[k] == x);
                } else if k > i {
                    assert(before[k - 1] == x);
                }
            }
            if before.contains(x) {
                let k = before.index_of(x);
                if k < i {
                    assert(v@[k] == x);
                } else {
                    assert(v@[k + 1] == x);
                }
            }
            if x == p {
                assert(v@[i as int] == p);
            }
        }
    }
}

/// The ports named in any result's port map (host counts, or refusal counts when
/// `rejected`), in increasing order (`tcp_port_columns`).
pub fn tcp_port_columns(results: &Vec<(Ipv4Net, SubnetInfo, SubnetProbeStats)>, rejected: bool) -> (r: Vec<u16>)
    ensures
        forall|i: int, j: int| 0 <= i < j < r@.len() ==> r@[i] < r@[j],
        forall|p: u16| r@.contains(p) <==> port_in_results(results@, p, rejected),
{
    let mut r: Vec<u16> = Vec::new();
    let mut i: usize = 0;
    while i < results.len()
        invariant
            i <= results.len(),
            forall|a: int, b: int| 0 <= a < b < r@.len() ==> r@[a] < r@[b],
            forall|p: u16| #![trigger r@.contains(p)] r@.contains(p) <==> port_in_results(results@.take(i as int), p, rejected),
        decreases results.len() - i,
    {
        let m = if rejected {
            &results[i].2.tcp_port_rejected
        } else {
            &results[i].2.tcp_port_alive
        };
        let ghost at_i = r@;
        let mut j: usize = 0;
        while j < m.len()
            invariant
                j <= m.len(),
                forall|a: int, b: int| 0 <= a < b < r@.len() ==> r@[a] < r@[b],
                forall|p: u16| #![trigger r@.contains(p)] r@.contains(p) <==> (at_i.contains(p) || map_ports(m@.take(j as int)).contains(p)),
            decreases m.len() - j,
        {
            let ghost before = r@;
            insert_sorted(&mut r, m[j].0);
            assert(map_ports(m@.take(j + 1)) =~= map_ports(m@.take(j as int)).push(m@[j as int].0));
            proof {
                assert forall|p: u16| r@.contains(p) <==> (at_i.contains(p) || map_ports(m@.take(j + 1)).contains(p)) by {
                    let a = map_ports(m@.take(j as int));
                    let b = map_ports(m@.take(j + 1));
                    assert(b == a.push(m@[j as int].0));
                    assert(r@.contains(p) <==> (before.contains(p) || p == m@[j as int].0));
                    if r@.contains(p) {
                        if before.contains(p) {
                            assert(at_i.contains(p) || a.contains(p));
                            if a.contains(p) {
                                let k = a.index_of(p);
                                assert(b[k] == p);
                            }
                        } else {
                            assert(b[j as int] == p);
                        }
                    }
                    if b.contains(p) {
                        let k = b.index_of(p);
                        if k < a.len() {
                            assert(a[k] == p);
                            assert(before.contains(p));
                        }
                    }
                    if at_i.contains(p) {
                        assert(before.contains(p));
                    }
                }
            }
            j = j + 1;
        }
        assert(m@.take(m.len() as int) =~= m@);
        proof {
            assert forall|p: u16| r@.contains(p) <==> port_in_results(results@.take(i + 1), p, rejected) by {
                let t = results@.take(i + 1);
                if port_in_results(t, p, rejected) {
                    let k = choose|k: int| 0 <= k < t.len() && map_ports(
                        if rejected { t[k].2.tcp_port_rejected@ } else { t[k].2.tcp_port_alive@ }).contains(p);
                    if k < i {
                        assert(results@.take(i as int)[k] == t[k]);
                    }
                }
                if port_in_results(results@.take(i as int), p, rejected) {
                    let k = choose|k: int| 0 <= k < results@.take(i as int).len() && map_ports(
                        if rejected { results@.take(i as int)[k].2.tcp_port_rejected@ } else { results@.take(i as int)[k].2.tcp_port_alive@ }).contains(p);
                    assert(t[k] == results@.take(i as int)[k]);
                }
                if map_ports(m@).contains(p) {
                    assert(t[i as int] == results@[i as int]);
                }
                assert(r@.contains(p) <==> (at_i.contains(p) || map_ports(m@).contains(p)));
                assert(at_i.contains(p) <==> port_in_results(results@.take(i as int), p, rejected));
            }
        }
        i = i + 1;
    }
    assert(results@.take(results.len() as int) =~= results@);
    r
}

/// The aggregate CSV of several results: the header line, then one line per
/// result, with the union of all results' ports as columns (`save_results_to_file`).
pub fn results_csv_lines(results: &Vec<(Ipv4Net, SubnetInfo, SubnetProbeStats)>) -> (lines: Vec<String>)
    requires
        forall|i: int| 0 <= i < results@.len() ==> (#[trigger] results@[i]).2.maps_wf(),
    ensures
        lines@.len() == results@.len() + 1,
        exists|ports: Seq<u16>, rejected: Seq<u16>|
            {
                &&& forall|p: u16| ports.contains(p) <==> port_in_results(results@, p, false)
                &&& forall|p: u16| rejected.contains(p) <==> port_in_results(results@, p, true)
                &&& forall|i: int, j: int| 0 <= i < j < ports.len() ==> ports[i] < ports[j]
                &&& forall|i: int, j: int| 0 <= i < j < rejected.len() ==> rejected[i] < rejected[j]
                &&& lines@[0]@ == csv_header_text(ports, rejected)
                &&& forall|i: int|
                    0 <= i < results@.len() ==> (#[trigger] lines@[i + 1])@ == csv_row_text(
                        results@[i],
                        ports,
                        rejected,
                    )
            },
{
    let ports = tcp_port_columns(results, false);
    let rejected = tcp_port_columns(results, true);
    let mut lines: Vec<String> = Vec::new();
    lines.push(csv_header(&ports, &rejected));
    let mut i: usize = 0;
    while i < results.len()
        invariant
            i <= results.len(),
            lines@.len() == i + 1,
            lines@[0]@ == csv_header_text(ports@, rejected@),
            forall|k: int| 0 <= k < i ==> (#[trigger] lines@[k + 1])@ == csv_row_text(results@[k], ports@, rejected@),
            forall|k: int| 0 <= k < results@.len() ==> (#[trigger] results@[k]).2.maps_wf(),
        decreases results.len() - i,
    {
        lines.push(csv_row(&results[i], &ports, &rejected));
        i = i + 1;
    }
    lines
}

// ---------------------------------------------------------------------------
// Alive and rejected address lists
// ---------------------------------------------------------------------------

/// The address of a host of a subnet: the subnet's network address with the
/// host's last octet.
pub open spec fn host_address(net: Ipv4Net, octet: u8) -> u32 {
    ((net.spec_network() / 256) * 256 + octet) as u32
}

/// A host goes to the alive list: some TCP port answered and none refused quickly.
pub open spec fn listed_alive(h: HostProbeRecord) -> bool {
    h.tcp_alive && h.tcp_rejected_ports@.len() == 0
}

/// A host goes to the rejected list: some TCP port refused quickly.
pub open spec fn listed_rejected(h: HostProbeRecord) -> bool {
    h.tcp_rejected_ports@.len() > 0
}

/// Addresses of the hosts that satisfy `pred`, in host order.
pub open spec fn address_lines(net: Ipv4Net, hosts: Seq<HostProbeRecord>, rejected: bool) -> Seq<Seq<char>>
    decreases hosts.len(),
{
    if hosts.len() == 0 {
        Seq::empty()
    } else {
        let rest = address_lines(net, hosts.drop_last(), rejected);
        let h = hosts.last();
        if (rejected && listed_rejected(h)) || (!rejected && listed_alive(h)) {
            rest.push(ip_text(host_address(net, h.octet)))
        } else {
            rest
        }
    }
}

/// The lines appended to the alive and the rejected address lists for a subnet:
/// hosts where TCP answered without a quick refusal, and hosts where some port
/// refused quickly.
pub fn txt_list_lines(result: &(Ipv4Net, SubnetInfo, SubnetProbeStats)) -> (r: (Vec<String>, Vec<String>))
    requires
        result.0.wf(),
    ensures
        views(r.0@) == address_lines(result.0, result.2.hosts@, false),
        views(r.1@) == address_lines(result.0, result.2.hosts@, true),
{
    let net = &result.0;
    let hosts = &result.2.hosts;
    let base = (net.network() / 256) * 256;
    let mut alive: Vec<String> = Vec::new();
    let mut rejected: Vec<String> = Vec::new();
    let mut i: usize = 0;
    while i < hosts.len()
        invariant
            i <= hosts.len(),
            net.wf(),
            base == (net.spec_network() / 256) * 256,
            views(alive@) == address_lines(*net, hosts@.take(i as int), false),
            views(rejected@) == address_lines(*net, hosts@.take(i as int), true),
        decreases hosts.len() - i,
    {
        let h = &hosts[i];
        assert(hosts@.take(i + 1).drop_last() =~= hosts@.take(i as int));
        assert(base + h.octet <= u32::MAX);
        let addr = (base + h.octet as u32) as u32;
        if h.tcp_alive && h.tcp_rejected_ports.len() == 0 {
            let ghost before = alive@;
            alive.push(ip_string(addr));
            assert(views(alive@) =~= views(before).push(alive@.last()@));
        }
        if h.tcp_rejected_ports.len() > 0 {
            let ghost before = rejected@;
            rejected.push(ip_string(addr));
            assert(views(rejected@) =~= views(before).push(rejected@.last()@));
        }
        i = i + 1;
    }
    assert(hosts@.take(hosts.len() as int) =~= hosts@);
    (alive, rejected)
}

/// Number of hosts where some TCP port refused quickly.
pub open spec fn rejected_count(hosts: Seq<HostProbeRecord>) -> nat
    decreases hosts.len(),
{
    if hosts.len() == 0 {
        0
    } else {
        rejected_count(hosts.drop_last()) + if listed_rejected(hosts.last()) { 1nat } else { 0nat }
    }
}

/// Number of hosts where some TCP port refused quickly.
pub fn count_rejected_hosts(stats: &SubnetProbeStats) -> (n: usize)
    ensures
        n == rejected_count(stats.hosts@),
{
    let hosts = &stats.hosts;
    let mut n: usize = 0;
    let mut i: usize = 0;
    while i < hosts.len()
        invariant
            i <= hosts.len(),
            n == rejected_count(hosts@.take(i as int)),
            n <= i,
        decreases hosts.len() - i,
    {
        assert(hosts@.take(i + 1).drop_last() =~= hosts@.take(i as int));
        if hosts[i].tcp_rejected_ports.len() > 0 {
            n = n + 1;
        }
        i = i + 1;
    }
    assert(hosts@.take(hosts.len() as int) =~= hosts@);
    n
}

} // verus!

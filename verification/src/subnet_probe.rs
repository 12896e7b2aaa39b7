//! The hosts of a scanned subnet and the counts made of their probe records.
use vstd::prelude::*;
use crate::ipv4::{Ipv4Net, lemma_holds_range};
use crate::probe::{HostProbeResult, echoed, strictly_sorted, tcp_ports_with_443};
use crate::utils::{HostProbeRecord, SubnetProbeStats, port_map_wf, port_count, map_ports};

verus! {

broadcast use vstd::seq_lib::group_seq_properties;

// ---------------------------------------------------------------------------
// The hosts of a subnet
// ---------------------------------------------------------------------------

/// A host address of a network: inside it, with a last octet from 1 to 254.
pub open spec fn usable_host(n: Ipv4Net, a: u32) -> bool {
    n.holds(a) && 1 <= a % 256 <= 254
}

/// The addresses of a network that are probed, in increasing order: those whose
/// last octet is neither 0 nor 255.
pub fn subnet_host_addresses(net: Ipv4Net) -> (r: Vec<u32>)
    requires
        net.wf(),
    ensures
        forall|i: int, j: int| 0 <= i < j < r@.len() ==> r@[i] < r@[j],
        forall|a: u32| r@.contains(a) <==> usable_host(net, a),
{
    let lo = net.network();
    let hi = net.broadcast();
    proof {
        lemma_holds_range(net, lo);
        assert forall|a: u32| usable_host(net, a) implies a >= lo by {
            lemma_holds_range(net, a);
        }
    }
    let mut r: Vec<u32> = Vec::new();
    let mut x: u64 = lo as u64;
    while x <= hi as u64
        invariant
            lo as u64 <= x <= hi as u64 + 1,
            lo == net.spec_network(),
            hi == net.spec_broadcast(),
            lo <= hi,
            net.wf(),
            forall|i: int, j: int| 0 <= i < j < r@.len() ==> r@[i] < r@[j],
            forall|i: int| 0 <= i < r@.len() ==> r@[i] < x,
            forall|a: u32| r@.contains(a) <==> (usable_host(net, a) && a < x),
        decreases hi as u64 + 1 - x,
    {
        let a = x as u32;
        proof {
            lemma_holds_range(net, a);
        }
        if a % 256 != 0 && a % 256 != 255 {
            let ghost before = r@;
            r.push(a);
            proof {
                assert forall|b: u32| r@.contains(b) <==> (usable_host(net, b) && b < x + 1) by {
                    lemma_holds_range(net, b);
                    if r@.contains(b) && b != a {
                        let k = r@.index_of(b);
                        assert(before[k] == b);
                    }
                    if usable_host(net, b) && b < x {
                        assert(before.contains(b));
                        let k = before.index_of(b);
                        assert(r@[k] == b);
                    }
                    if b == a {
                        assert(r@[before.len() as int] == a);
                    }
                }
            }
        } else {
            proof {
                assert forall|b: u32| r@.contains(b) <==> (usable_host(net, b) && b < x + 1) by {
                    lemma_holds_range(net, b);
                }
            }
        }
        x = x + 1;
    }
    proof {
        assert forall|b: u32| r@.contains(b) <==> usable_host(net, b) by {
            lemma_holds_range(net, b);
        }
    }
    r
}

/// The record of a probed host, by the last octet of its address.
pub open spec fn record_of(octet: u8, p: HostProbeResult, r: HostProbeRecord) -> bool {
    &&& r.octet == octet
    &&& echo_of(r) == echoed(p)
    &&& r.tcp_ports@ == p.tcp_ports@
    &&& r.tcp_rejected_ports@ == p.tcp_rejected_ports@
    &&& r.tcp_alive == (p.tcp_ports@.len() > 0)
}

/// Whether a host record shows an ICMP answer.
pub open spec fn echo_of(h: HostProbeRecord) -> bool {
    h.icmp
}

fn copy_port_list(v: &Vec<u16>) -> (r: Vec<u16>)
    ensures
        r@ == v@,
{
    let mut r: Vec<u16> = Vec::new();
    let mut i: usize = 0;
    while i < v.len()
        invariant
            i <= v@.len(),
            r@ == v@.take(i as int),
        decreases v@.len() - i,
    {
        r.push(v[i]);
        assert(v@.take(i + 1) =~= v@.take(i as int).push(v@[i as int]));
        i = i + 1;
    }
    assert(v@.take(v@.len() as int) =~= v@);
    r
}

impl HostProbeRecord {
    /// The record of a host whose last octet is `octet` from its probe result.
    pub fn from_probe(octet: u8, probe: &HostProbeResult) -> (r: HostProbeRecord)
        ensures
            record_of(octet, *probe, r),
    {
        HostProbeRecord {
            octet,
            icmp: probe.icmp,
            tcp_ports: copy_port_list(&probe.tcp_ports),
            tcp_rejected_ports: copy_port_list(&probe.tcp_rejected_ports),
            tcp_alive: probe.tcp_alive(),
        }
    }
}

// ---------------------------------------------------------------------------
// Counts of a subnet
// ---------------------------------------------------------------------------

/// How often `p` occurs in `s`.
pub open spec fn count_in(s: Seq<u16>, p: u16) -> nat
    decreases s.len(),
{
    if s.len() == 0 {
        0
    } else {
        count_in(s.drop_last(), p) + if s.last() == p {
            1nat
        } else {
            0nat
        }
    }
}

/// The live ports of a host record, or its refusing ports.
pub open spec fn port_list(h: HostProbeRecord, rejected: bool) -> Seq<u16> {
    if rejected {
        h.tcp_rejected_ports@
    } else {
        h.tcp_ports@
    }
}

/// How often `p` occurs in the port lists of the hosts.
pub open spec fn occurrences(hosts: Seq<HostProbeRecord>, p: u16, rejected: bool) -> nat
    decreases hosts.len(),
{
    if hosts.len() == 0 {
        0
    } else {
        occurrences(hosts.drop_last(), p, rejected) + count_in(port_list(hosts.last(), rejected), p)
    }
}

/// The number of entries in the port lists of the hosts.
pub open spec fn entries(hosts: Seq<HostProbeRecord>, rejected: bool) -> nat
    decreases hosts.len(),
{
    if hosts.len() == 0 {
        0
    } else {
        entries(hosts.drop_last(), rejected) + port_list(hosts.last(), rejected).len()
    }
}

/// The number of hosts that answered ICMP echo.
pub open spec fn echo_hosts(hosts: Seq<HostProbeRecord>) -> nat
    decreases hosts.len(),
{
    if hosts.len() == 0 {
        0
    } else {
        echo_hosts(hosts.drop_last()) + if echo_of(hosts.last()) {
            1nat
        } else {
            0nat
        }
    }
}

/// The number of hosts some TCP port answered on.
pub open spec fn tcp_hosts(hosts: Seq<HostProbeRecord>) -> nat
    decreases hosts.len(),
{
    if hosts.len() == 0 {
        0
    } else {
        tcp_hosts(hosts.drop_last()) + if hosts.last().tcp_alive {
            1nat
        } else {
            0nat
        }
    }
}

/// Some host lists the port.
pub open spec fn port_seen(hosts: Seq<HostProbeRecord>, p: u16, rejected: bool) -> bool {
    exists|i: int| 0 <= i < hosts.len() && port_list(hosts[i], rejected).contains(p)
}

/// A per-port map of a subnet: the given ports and every port a host lists,
/// each with the number of times the hosts list it.
pub open spec fn counts_ports(m: Seq<(u16, usize)>, base: Set<u16>, hosts: Seq<HostProbeRecord>, rejected: bool) -> bool {
    &&& port_map_wf(m)
    &&& forall|p: u16|
        #![trigger map_ports(m).contains(p)]
        #![trigger port_seen(hosts, p, rejected)]
        map_ports(m).contains(p) <==> (base.contains(p) || port_seen(hosts, p, rejected))
    &&& forall|p: u16| #[trigger] port_count(m, p) == occurrences(hosts, p, rejected)
}

proof fn lemma_port_count_at(m: Seq<(u16, usize)>, i: int)
    requires
        port_map_wf(m),
        0 <= i < m.len(),
    ensures
        port_count(m, m[i].0) == m[i].1,
    decreases i,
{
    if i > 0 {
        assert(m[0].0 < m[i].0);
        lemma_port_count_at(m.drop_first(), i - 1);
    }
}

proof fn lemma_port_count_absent(m: Seq<(u16, usize)>, p: u16)
    requires
        !map_ports(m).contains(p),
    ensures
        port_count(m, p) == 0,
    decreases m.len(),
{
    if m.len() > 0 {
        assert(map_ports(m)[0] == m[0].0);
        assert(map_ports(m.drop_first()) =~= map_ports(m).drop_first());
        lemma_port_count_absent(m.drop_first(), p);
    }
}

proof fn lemma_count_in_bound(s: Seq<u16>, p: u16)
    ensures
        count_in(s, p) <= s.len(),
        !s.contains(p) ==> count_in(s, p) == 0,
    decreases s.len(),
{
    if s.len() > 0 {
        lemma_count_in_bound(s.drop_last(), p);
        if !s.contains(p) {
            assert(!s.drop_last().contains(p)) by {
                if s.drop_last().contains(p) {
                    let k = s.drop_last().index_of(p);
                    assert(s[k] == p);
                }
            }
        }
    }
}

proof fn lemma_occurrences_bound(hosts: Seq<HostProbeRecord>, p: u16, rejected: bool)
    ensures
        occurrences(hosts, p, rejected) <= entries(hosts, rejected),
        !port_seen(hosts, p, rejected) ==> occurrences(hosts, p, rejected) == 0,
    decreases hosts.len(),
{
    if hosts.len() > 0 {
        lemma_occurrences_bound(hosts.drop_last(), p, rejected);
        lemma_count_in_bound(port_list(hosts.last(), rejected), p);
        if !port_seen(hosts, p, rejected) {
            assert(!port_list(hosts[hosts.len() - 1], rejected).contains(p));
            assert(!port_seen(hosts.drop_last(), p, rejected)) by {
                if port_seen(hosts.drop_last(), p, rejected) {
                    let k = choose|k: int| 0 <= k < hosts.drop_last().len() && port_list(hosts.drop_last()[k], rejected).contains(p);
                    assert(hosts[k] == hosts.drop_last()[k]);
                }
            }
        }
    }
}

proof fn lemma_entries_prefix(hosts: Seq<HostProbeRecord>, i: int, rejected: bool)
    requires
        0 <= i <= hosts.len(),
    ensures
        entries(hosts.take(i), rejected) <= entries(hosts, rejected),
    decreases hosts.len(),
{
    if i < hosts.len() {
        assert(hosts.drop_last().take(i) =~= hosts.take(i));
        lemma_entries_prefix(hosts.drop_last(), i, rejected);
    } else {
        assert(hosts.take(i) =~= hosts);
    }
}

proof fn lemma_map_ports_contains(m: Seq<(u16, usize)>, q: u16)
    ensures
        map_ports(m).contains(q) <==> exists|k: int| 0 <= k < m.len() && m[k].0 == q,
{
    if map_ports(m).contains(q) {
        let k = map_ports(m).index_of(q);
        assert(m[k].0 == q);
    }
    if exists|k: int| 0 <= k < m.len() && m[k].0 == q {
        let k = choose|k: int| 0 <= k < m.len() && m[k].0 == q;
        assert(map_ports(m)[k] == q);
    }
}

/// Adds one to the count of `p`, listing it where absent.
fn map_increment(m: &mut Vec<(u16, usize)>, p: u16)
    requires
        port_map_wf(old(m)@),
        port_count(old(m)@, p) < usize::MAX,
    ensures
        port_map_wf(final(m)@),
        forall|q: u16| map_ports(final(m)@).contains(q) <==> (map_ports(old(m)@).contains(q) || q == p),
        forall|q: u16| #[trigger] port_count(final(m)@, q) == port_count(old(m)@, q) + if q == p { 1int } else { 0int },
{
    let ghost old_m = m@;
    let mut i: usize = 0;
    while i < m.len() && m[i].0 < p
        invariant
            i <= m@.len(),
            m@ == old_m,
            port_map_wf(old_m),
            forall|j: int| 0 <= j < i ==> m@[j].0 < p,
        decreases m@.len() - i,
    {
        i = i + 1;
    }
    if i < m.len() && m[i].0 == p {
        proof {
            lemma_port_count_at(old_m, i as int);
        }
        let c = m[i].1;
        m.set(i, (p, c + 1));
        proof {
            let nm = m@;
            assert(nm =~= old_m.update(i as int, (p, (c + 1) as usize)));
            assert forall|k: int| 0 <= k < nm.len() implies nm[k].0 == old_m[k].0 by {
                if k == i {
                } else {
                    assert(nm[k] == old_m[k]);
                }
            }
            assert(map_ports(nm) =~= map_ports(old_m));
            assert(map_ports(old_m)[i as int] == p);
            assert(port_map_wf(nm));
            assert forall|q: u16| #[trigger] port_count(nm, q) == port_count(old_m, q) + if q == p { 1int } else { 0int } by {
                lemma_map_ports_contains(old_m, q);
                if map_ports(old_m).contains(q) {
                    let k = choose|k: int| 0 <= k < old_m.len() && old_m[k].0 == q;
                    lemma_port_count_at(old_m, k);
                    lemma_port_count_at(nm, k);
                    if k != i {
                        assert(nm[k] == old_m[k]);
                    }
                } else {
                    lemma_port_count_absent(old_m, q);
                    lemma_port_count_absent(nm, q);
                }
            }
        }
    } else {
        proof {
            if map_ports(old_m).contains(p) {
                let k = map_ports(old_m).index_of(p);
                if k < i {
                    assert(old_m[k].0 < p);
                } else {
                    assert(i < old_m.len());
                    assert(old_m[i as int].0 > p);
                    assert(old_m[k].0 >= old_m[i as int].0);
                }
            }
            lemma_port_count_absent(old_m, p);
        }
        m.insert(i, (p, 1));
        proof {
            let nm = m@;
            assert(nm =~= old_m.take(i as int).push((p, 1usize)) + old_m.skip(i as int));
            assert forall|a: int, b: int| 0 <= a < b < nm.len() implies nm[a].0 < nm[b].0 by {
                if b < i {
                } else if b == i {
                } else if a < i {
                    assert(old_m[b - 1].0 >= old_m[i as int].0);
                } else if a == i {
                    assert(old_m[b - 1].0 >= old_m[i as int].0);
                } else {
                }
            }
            assert forall|q: u16| map_ports(nm).contains(q) <==> (map_ports(old_m).contains(q) || q == p) by {
                if map_ports(nm).contains(q) {
                    let k = map_ports(nm).index_of(q);
                    if k < i {
                        assert(map_ports(old_m)[k] == q);
                    } else if k > i {
                        assert(map_ports(old_m)[k - 1] == q);
                    }
                }
                if map_ports(old_m).contains(q) {
                    let k = map_ports(old_m).index_of(q);
                    if k < i {
                        assert(map_ports(nm)[k] == q);
                    } else {
                        assert(map_ports(nm)[k + 1] == q);
                    }
                }
                if q == p {
                    assert(map_ports(nm)[i as int] == p);
                }
            }
            assert forall|q: u16| #[trigger] port_count(nm, q) == port_count(old_m, q) + if q == p { 1int } else { 0int } by {
                if q == p {
                    lemma_port_count_at(nm, i as int);
                } else if map_ports(old_m).contains(q) {
                    let k = map_ports(old_m).index_of(q);
                    lemma_port_count_at(old_m, k);
                    if k < i {
                        lemma_port_count_at(nm, k);
                    } else {
                        assert(nm[k + 1] == old_m[k]);
                        lemma_port_count_at(nm, k + 1);
                    }
                } else {
                    lemma_port_count_absent(old_m, q);
                    lemma_port_count_absent(nm, q);
                }
            }
        }
    }
}

fn zero_counts(ports: &Vec<u16>) -> (m: Vec<(u16, usize)>)
    requires
        strictly_sorted(ports@),
    ensures
        port_map_wf(m@),
        forall|p: u16| map_ports(m@).contains(p) <==> ports@.contains(p),
        forall|p: u16| #[trigger] port_count(m@, p) == 0,
{
    let mut m: Vec<(u16, usize)> = Vec::new();
    let mut i: usize = 0;
    while i < ports.len()
        invariant
            i <= ports@.len(),
            strictly_sorted(ports@),
            m@.len() == i,
            forall|j: int| 0 <= j < i ==> (#[trigger] m@[j]) == (ports@[j], 0usize),
        decreases ports@.len() - i,
    {
        m.push((ports[i], 0));
        i = i + 1;
    }
    proof {
        assert(map_ports(m@) =~= ports@);
        assert forall|p: u16| #[trigger] port_count(m@, p) == 0 by {
            if map_ports(m@).contains(p) {
                let k = map_ports(m@).index_of(p);
                lemma_port_count_at(m@, k);
            } else {
                lemma_port_count_absent(m@, p);
            }
        }
    }
    m
}

/// Per port (the given ones and every port a host lists), how often the hosts
/// list it: live ports, or refusing ports when `rejected`.
pub fn count_ports(ports: &Vec<u16>, hosts: &Vec<HostProbeRecord>, rejected: bool) -> (m: Vec<(u16, usize)>)
    requires
        strictly_sorted(ports@),
        entries(hosts@, rejected) <= usize::MAX,
    ensures
        counts_ports(m@, ports@.to_set(), hosts@, rejected),
{
    let mut m = zero_counts(ports);
    let mut i: usize = 0;
    assert(hosts@.take(0) =~= Seq::<HostProbeRecord>::empty());
    while i < hosts.len()
        invariant
            i <= hosts@.len(),
            entries(hosts@, rejected) <= usize::MAX,
            port_map_wf(m@),
            forall|p: u16| #![trigger map_ports(m@).contains(p)] map_ports(m@).contains(p) <==> (ports@.contains(p) || port_seen(hosts@.take(i as int), p, rejected)),
            forall|p: u16| #[trigger] port_count(m@, p) == occurrences(hosts@.take(i as int), p, rejected),
        decreases hosts@.len() - i,
    {
        let h = &hosts[i];
        let list = if rejected { &h.tcp_rejected_ports } else { &h.tcp_ports };
        let ghost before = hosts@.take(i as int);
        let ghost after = hosts@.take(i + 1);
        proof {
            assert(after.drop_last() =~= before);
            assert(after.last() == hosts@[i as int]);
            assert(list@ == port_list(hosts@[i as int], rejected));
            lemma_entries_prefix(hosts@, i + 1, rejected);
        }
        let mut j: usize = 0;
        proof {
            assert(list@.take(0) =~= Seq::<u16>::empty());
            assert(entries(after, rejected) == entries(before, rejected) + list@.len());
        }
        while j < list.len()
            invariant
                i < hosts@.len(),
                before == hosts@.take(i as int),
                after == hosts@.take(i + 1),
                entries(after, rejected) == entries(before, rejected) + list@.len(),
                j <= list@.len(),
                list@ == port_list(hosts@[i as int], rejected),
                after.drop_last() == before,
                after.last() == hosts@[i as int],
                entries(after, rejected) <= usize::MAX,
                port_map_wf(m@),
                forall|p: u16| #![trigger map_ports(m@).contains(p)] map_ports(m@).contains(p) <==> (ports@.contains(p) || port_seen(before, p, rejected) || list@.take(j as int).contains(p)),
                forall|p: u16| #[trigger] port_count(m@, p) == occurrences(before, p, rejected) + count_in(list@.take(j as int), p),
            decreases list@.len() - j,
        {
            let p = list[j];
            proof {
                lemma_occurrences_bound(before, p, rejected);
                lemma_count_in_bound(list@.take(j as int), p);
                assert(port_count(m@, p) <= entries(before, rejected) + j);
            }
            let ghost old_m = m@;
            map_increment(&mut m, p);
            proof {
                let t = list@.take(j + 1);
                assert(t.drop_last() =~= list@.take(j as int));
                assert(t =~= list@.take(j as int).push(p));
                assert(t.last() == p);
                assert forall|q: u16| #[trigger] port_count(m@, q) == occurrences(before, q, rejected) + count_in(t, q) by {
                    assert(port_count(old_m, q) == occurrences(before, q, rejected) + count_in(list@.take(j as int), q));
                }
                assert forall|q: u16| map_ports(m@).contains(q) <==> (ports@.contains(q) || port_seen(before, q, rejected) || t.contains(q)) by {
                    assert(map_ports(m@).contains(q) <==> (map_ports(old_m).contains(q) || q == p));
                    assert(map_ports(old_m).contains(q) <==> (ports@.contains(q) || port_seen(before, q, rejected) || list@.take(j as int).contains(q)));
                    if t.contains(q) && q != p {
                        let k = t.index_of(q);
                        assert(list@.take(j as int)[k] == q);
                    }
                    if list@.take(j as int).contains(q) {
                        let k = list@.take(j as int).index_of(q);
                        assert(t[k] == q);
                    }
                    if q == p {
                        assert(t[j as int] == p);
                    }
                }
            }
            j = j + 1;
        }
        proof {
            assert(list@.take(list@.len() as int) =~= list@);
            assert forall|p: u16| #[trigger] port_count(m@, p) == occurrences(after, p, rejected) by {
                assert(occurrences(after, p, rejected) == occurrences(before, p, rejected) + count_in(list@, p));
            }
            assert forall|p: u16| map_ports(m@).contains(p) <==> (ports@.contains(p) || port_seen(after, p, rejected)) by {
                if port_seen(before, p, rejected) {
                    let k = choose|k: int| 0 <= k < before.len() && port_list(before[k], rejected).contains(p);
                    assert(after[k] == before[k]);
                }
                if list@.contains(p) {
                    assert(after[i as int] == hosts@[i as int]);
                }
                if port_seen(after, p, rejected) {
                    let k = choose|k: int| 0 <= k < after.len() && port_list(after[k], rejected).contains(p);
                    if k < i {
                        assert(before[k] == after[k]);
                    }
                }
            }
        }
        i = i + 1;
    }
    proof {
        assert(hosts@.take(hosts@.len() as int) =~= hosts@);
        assert forall|p: u16| map_ports(m@).contains(p) <==> (ports@.to_set().contains(p) || port_seen(hosts@, p, rejected)) by {
            assert(ports@.to_set().contains(p) == ports@.contains(p));
        }
        assert forall|p: u16| #[trigger] port_count(m@, p) == occurrences(hosts@, p, rejected) by {
            assert(port_count(m@, p) == occurrences(hosts@.take(hosts@.len() as int), p, rejected));
        }
    }
    m
}

fn answered_echo(h: &HostProbeRecord) -> (r: bool)
    ensures
        r == echo_of(*h),
{
    h.icmp
}

/// The number of hosts that answered ICMP echo.
pub fn count_echo(hosts: &Vec<HostProbeRecord>) -> (n: usize)
    ensures
        n == echo_hosts(hosts@),
{
    let mut n: usize = 0;
    let mut i: usize = 0;
    while i < hosts.len()
        invariant
            i <= hosts@.len(),
            n == echo_hosts(hosts@.take(i as int)),
            n <= i,
        decreases hosts@.len() - i,
    {
        assert(hosts@.take(i + 1).drop_last() =~= hosts@.take(i as int));
        assert(hosts@.take(i + 1).last() == hosts@[i as int]);
        if answered_echo(&hosts[i]) {
            n = n + 1;
        }
        i = i + 1;
    }
    assert(hosts@.take(hosts@.len() as int) =~= hosts@);
    n
}

/// The number of hosts some TCP port answered on.
pub fn count_tcp(hosts: &Vec<HostProbeRecord>) -> (n: usize)
    ensures
        n == tcp_hosts(hosts@),
{
    let mut n: usize = 0;
    let mut i: usize = 0;
    while i < hosts.len()
        invariant
            i <= hosts@.len(),
            n == tcp_hosts(hosts@.take(i as int)),
            n <= i,
        decreases hosts@.len() - i,
    {
        assert(hosts@.take(i + 1).drop_last() =~= hosts@.take(i as int));
        assert(hosts@.take(i + 1).last() == hosts@[i as int]);
        if hosts[i].tcp_alive {
            n = n + 1;
        }
        i = i + 1;
    }
    assert(hosts@.take(hosts@.len() as int) =~= hosts@);
    n
}

/// The counts of a scanned subnet from its host records: hosts with an ICMP
/// answer, hosts with a live TCP port, and per port (443, the configured ports
/// and every port a host lists) how many hosts it was live on and how many it
/// refused on.
pub fn aggregate_subnet(tcp_ports: &[u16], hosts: Vec<HostProbeRecord>) -> (s: SubnetProbeStats)
    requires
        entries(hosts@, false) <= usize::MAX,
        entries(hosts@, true) <= usize::MAX,
    ensures
        s.hosts@ == hosts@,
        s.icmp_alive == echo_hosts(hosts@),
        s.tcp_alive == tcp_hosts(hosts@),
        s.icmp_alive == hosts@.filter(|h: HostProbeRecord| h.icmp).len(),
        s.tcp_alive == hosts@.filter(|h: HostProbeRecord| h.tcp_alive).len(),
        counts_ports(s.tcp_port_alive@, tcp_ports@.to_set().insert(443), hosts@, false),
        counts_ports(s.tcp_port_rejected@, tcp_ports@.to_set().insert(443), hosts@, true),
{
    proof {
        lemma_host_counts(hosts@);
    }
    let ports = tcp_ports_with_443(tcp_ports);
    let alive = count_ports(&ports, &hosts, false);
    let rejected = count_ports(&ports, &hosts, true);
    let e = count_echo(&hosts);
    let t = count_tcp(&hosts);
    SubnetProbeStats { icmp_alive: e, tcp_alive: t, tcp_port_alive: alive, tcp_port_rejected: rejected, hosts }
}

/// Law: the ICMP count of a subnet is the number of its host records that
/// answered ICMP echo, whatever their TCP ports; the TCP count is the number
/// marked TCP-alive.
pub proof fn lemma_host_counts(hosts: Seq<HostProbeRecord>)
    ensures
        echo_hosts(hosts) == hosts.filter(|h: HostProbeRecord| h.icmp).len(),
        tcp_hosts(hosts) == hosts.filter(|h: HostProbeRecord| h.tcp_alive).len(),
    decreases hosts.len(),
{
    reveal(Seq::filter);
    if hosts.len() > 0 {
        lemma_host_counts(hosts.drop_last());
    }
}

} // verus!

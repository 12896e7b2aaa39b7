//! The one-subnet view: which `/24` an address names, how each host is shown,
//! which host is looked at more closely, and the summary line.
use vstd::prelude::*;
use crate::probe::{HostProbeResult, echoed};
use crate::subnet_probe::{record_of, echo_hosts, tcp_hosts, counts_ports, count_echo, count_tcp, count_ports, entries};
use crate::utils::{HostProbeRecord, port_map_summary, port_summary_text};
use crate::text::chars_of;

verus! {

broadcast use vstd::seq_lib::group_seq_properties;

// ---------------------------------------------------------------------------
// The subnet an address names
// ---------------------------------------------------------------------------

/// The pieces of a text between dots (`str::split('.')`).
pub open spec fn dot_pieces(s: Seq<char>) -> Seq<Seq<char>>
    decreases s.len(),
{
    if s.len() == 0 {
        seq![s]
    } else if s[0] == '.' {
        seq![Seq::<char>::empty()] + dot_pieces(s.drop_first())
    } else {
        let rest = dot_pieces(s.drop_first());
        rest.update(0, seq![s[0]] + rest[0])
    }
}

proof fn lemma_dot_pieces_nonempty(s: Seq<char>)
    ensures
        dot_pieces(s).len() >= 1,
    decreases s.len(),
{
    if s.len() > 0 {
        lemma_dot_pieces_nonempty(s.drop_first());
    }
}

/// The value of a decimal digit.
pub open spec fn digit_value(c: char) -> nat {
    (c as u32 - '0' as u32) as nat
}

/// A decimal digit.
pub open spec fn is_digit(c: char) -> bool {
    '0' <= c && c <= '9'
}

/// The value of a text of digits.
pub open spec fn digits_value(s: Seq<char>) -> nat
    decreases s.len(),
{
    if s.len() == 0 {
        0
    } else {
        digits_value(s.drop_last()) * 10 + digit_value(s.last())
    }
}

/// The text without a leading `+`.
pub open spec fn unsigned_part(s: Seq<char>) -> Seq<char> {
    if s.len() > 0 && s[0] == '+' {
        s.drop_first()
    } else {
        s
    }
}

/// Every character is a decimal digit.
pub open spec fn all_digits(d: Seq<char>) -> bool {
    forall|i: int| 0 <= i < d.len() ==> is_digit(#[trigger] d[i])
}

/// What `u8::from_str` gives: an optional `+`, then at least one digit and
/// nothing else, with a value below 256.
pub open spec fn octet_value(s: Seq<char>) -> Option<u8> {
    let d = unsigned_part(s);
    if d.len() > 0 && all_digits(d) && digits_value(d) < 256 {
        Some(digits_value(d) as u8)
    } else {
        None
    }
}

proof fn lemma_digits_grow(s: Seq<char>, i: int)
    requires
        0 <= i <= s.len(),
        forall|j: int| 0 <= j < s.len() ==> is_digit(#[trigger] s[j]),
    ensures
        digits_value(s.take(i)) <= digits_value(s),
    decreases s.len(),
{
    if i < s.len() {
        assert(s.drop_last().take(i) =~= s.take(i));
        assert forall|j: int| 0 <= j < s.drop_last().len() implies is_digit(#[trigger] s.drop_last()[j]) by {
            assert(s.drop_last()[j] == s[j]);
        }
        lemma_digits_grow(s.drop_last(), i);
    } else {
        assert(s.take(i) =~= s);
    }
}

/// Parses an octet as `u8::from_str` does (see [`octet_value`]).
pub fn parse_octet(s: &str) -> (r: Option<u8>)
    ensures
        r == octet_value(s@),
{
    let v = chars_of(s);
    let start: usize = if v.len() > 0 && v[0] == '+' { 1 } else { 0 };
    let ghost d = unsigned_part(s@);
    assert(d =~= v@.skip(start as int));
    if start >= v.len() {
        return None;
    }
    let mut value: u32 = 0;
    let mut i = start;
    while i < v.len()
        invariant
            start <= i <= v@.len(),
            start < v@.len(),
            d == v@.skip(start as int),
            d == unsigned_part(s@),
            forall|j: int| start <= j < i ==> is_digit(#[trigger] v@[j]),
            value as nat == digits_value(d.take(i - start)),
            value < 256,
        decreases v@.len() - i,
    {
        let c = v[i];
        if !('0' <= c && c <= '9') {
            proof {
                assert(d[i - start] == c);
                assert(!is_digit(d[i - start]));
                assert(!all_digits(d));
                assert(octet_value(s@) is None);
            }
            return None;
        }
        let ghost t = d.take(i - start + 1);
        assert(t.drop_last() =~= d.take(i - start));
        assert(t.last() == c);
        let next: u32 = value * 10 + (c as u32 - '0' as u32);
        assert(digits_value(t) == next);
        if next >= 256 {
            proof {
                assert forall|j: int| 0 <= j < t.len() implies is_digit(#[trigger] t[j]) by {
                    assert(t[j] == v@[start + j]);
                }
                if all_digits(d) {
                    lemma_digits_grow(d, i - start + 1);
                    assert(digits_value(d) >= 256);
                }
                assert(octet_value(s@) is None);
            }
            return None;
        }
        value = next;
        i = i + 1;
    }
    assert(d.take(v@.len() - start) =~= d);
    Some(value as u8)
}

/// The character views of a list of character vectors.
pub open spec fn char_views(v: Seq<Vec<char>>) -> Seq<Seq<char>> {
    v.map_values(|p: Vec<char>| p@)
}

fn pieces_of(s: &Vec<char>) -> (r: Vec<Vec<char>>)
    ensures
        char_views(r@) == dot_pieces(s@),
{
    let mut acc: Vec<Vec<char>> = Vec::new();
    acc.push(Vec::new());
    let mut i: usize = s.len();
    proof {
        assert(s@.skip(s@.len() as int) =~= Seq::<char>::empty());
        assert(char_views(acc@) =~= seq![Seq::<char>::empty()]);
    }
    while i > 0
        invariant
            i <= s@.len(),
            char_views(acc@) == dot_pieces(s@.skip(i as int)),
            acc@.len() >= 1,
        decreases i,
    {
        let c = s[i - 1];
        let ghost before = s@.skip(i as int);
        proof {
            assert(s@.skip(i - 1).drop_first() =~= before);
            assert(s@.skip(i - 1)[0] == c);
            assert(s@.skip(i - 1).len() > 0);
        }
        let ghost old_views = char_views(acc@);
        if c == '.' {
            acc.insert(0, Vec::new());
            assert(char_views(acc@) =~= seq![Seq::<char>::empty()] + old_views);
        } else {
            let mut first: Vec<char> = Vec::new();
            first.push(c);
            let mut k: usize = 0;
            while k < acc[0].len()
                invariant
                    acc@.len() >= 1,
                    k <= acc@[0]@.len(),
                    first@ == seq![c] + acc@[0]@.take(k as int),
                decreases acc@[0]@.len() - k,
            {
                first.push(acc[0][k]);
                assert(acc@[0]@.take(k + 1) =~= acc@[0]@.take(k as int).push(acc@[0]@[k as int]));
                k = k + 1;
            }
            assert(acc@[0]@.take(acc@[0]@.len() as int) =~= acc@[0]@);
            acc.set(0, first);
            assert(char_views(acc@) =~= old_views.update(0, seq![c] + old_views[0]));
        }
        i = i - 1;
    }
    assert(s@.skip(0) =~= s@);
    acc
}

/// The first three octets of the `/24` an address names: the address must
/// have exactly four dot-separated parts; a part that is not an octet counts
/// as 0.
pub open spec fn base_octets(s: Seq<char>) -> Option<(u8, u8, u8)> {
    let p = dot_pieces(s);
    if p.len() == 4 {
        Some((
            match octet_value(p[0]) { Some(v) => v, None => 0 },
            match octet_value(p[1]) { Some(v) => v, None => 0 },
            match octet_value(p[2]) { Some(v) => v, None => 0 },
        ))
    } else {
        None
    }
}

fn octet_or_zero(p: &Vec<char>) -> (r: u8)
    ensures
        r == match octet_value(p@) { Some(v) => v, None => 0 },
{
    let t = crate::text::string_of(p);
    match parse_octet(t.as_str()) {
        Some(v) => v,
        None => 0,
    }
}

/// The `/24` an address names (see [`base_octets`]).
pub fn matrix_base(base_ip: &str) -> (r: Option<(u8, u8, u8)>)
    ensures
        r == base_octets(base_ip@),
{
    let v = chars_of(base_ip);
    let parts = pieces_of(&v);
    if parts.len() != 4 {
        return None;
    }
    let a = octet_or_zero(&parts[0]);
    let b = octet_or_zero(&parts[1]);
    let c = octet_or_zero(&parts[2]);
    Some((a, b, c))
}

// ---------------------------------------------------------------------------
// Hosts of the view
// ---------------------------------------------------------------------------

/// How a host is shown: live TCP, only an ICMP answer, or nothing.
#[derive(Clone, Copy, Debug, PartialEq, Eq, Structural)]
pub enum CellKind {
    Tcp,
    Echo,
    Dead,
}

/// How a probe result is shown.
pub open spec fn cell_of(p: HostProbeResult) -> CellKind {
    if p.tcp_ports@.len() > 0 {
        CellKind::Tcp
    } else if echoed(p) {
        CellKind::Echo
    } else {
        CellKind::Dead
    }
}

fn answered(p: &HostProbeResult) -> (r: bool)
    ensures
        r == echoed(*p),
{
    p.icmp
}

/// How a probe result is shown.
pub fn cell_kind(p: &HostProbeResult) -> (r: CellKind)
    ensures
        r == cell_of(*p),
{
    if p.tcp_alive() {
        CellKind::Tcp
    } else if answered(p) {
        CellKind::Echo
    } else {
        CellKind::Dead
    }
}

/// The index of the first result other than octet 1 that matches, if any.
pub open spec fn first_match(r: Seq<(u8, HostProbeResult)>, tcp: bool) -> Option<int> {
    if exists|i: int| 0 <= i < r.len() && r[i].0 != 1 && (if tcp { r[i].1.tcp_ports@.len() > 0 } else { echoed(r[i].1) }) {
        Some(choose|i: int| 0 <= i < r.len() && r[i].0 != 1 && (if tcp { r[i].1.tcp_ports@.len() > 0 } else { echoed(r[i].1) })
            && forall|j: int| 0 <= j < i ==> !(r[j].0 != 1 && (if tcp { r[j].1.tcp_ports@.len() > 0 } else { echoed(r[j].1) })))
    } else {
        None
    }
}

fn find_first(results: &Vec<(u8, HostProbeResult)>, tcp: bool) -> (r: Option<usize>)
    ensures
        match r {
            Some(i) => i < results@.len() && results@[i as int].0 != 1
                && (if tcp { results@[i as int].1.tcp_ports@.len() > 0 } else { echoed(results@[i as int].1) })
                && forall|j: int| 0 <= j < i ==> !(results@[j].0 != 1 && (if tcp { results@[j].1.tcp_ports@.len() > 0 } else { echoed(results@[j].1) })),
            None => forall|j: int| 0 <= j < results@.len() ==> !(results@[j].0 != 1 && (if tcp { results@[j].1.tcp_ports@.len() > 0 } else { echoed(results@[j].1) })),
        },
{
    let mut i: usize = 0;
    while i < results.len()
        invariant
            i <= results@.len(),
            forall|j: int| 0 <= j < i ==> !(results@[j].0 != 1 && (if tcp { results@[j].1.tcp_ports@.len() > 0 } else { echoed(results@[j].1) })),
        decreases results@.len() - i,
    {
        let hit = if tcp { results[i].1.tcp_alive() } else { answered(&results[i].1) };
        if results[i].0 != 1 && hit {
            return Some(i);
        }
        i = i + 1;
    }
    None
}

/// The host looked at more closely: the first one other than `.1` with a live
/// TCP port, else the first other than `.1` that answered ICMP, else `.1`.
pub open spec fn chosen_octet(r: Seq<(u8, HostProbeResult)>) -> u8 {
    if exists|i: int| 0 <= i < r.len() && r[i].0 != 1 && r[i].1.tcp_ports@.len() > 0 {
        r[(choose|i: int| 0 <= i < r.len() && r[i].0 != 1 && r[i].1.tcp_ports@.len() > 0
            && forall|j: int| 0 <= j < i ==> !(r[j].0 != 1 && r[j].1.tcp_ports@.len() > 0))].0
    } else if exists|i: int| 0 <= i < r.len() && r[i].0 != 1 && echoed(r[i].1) {
        r[(choose|i: int| 0 <= i < r.len() && r[i].0 != 1 && echoed(r[i].1)
            && forall|j: int| 0 <= j < i ==> !(r[j].0 != 1 && echoed(r[j].1)))].0
    } else {
        1
    }
}

/// The host looked at more closely (see [`chosen_octet`]).
pub fn first_alive_octet(results: &Vec<(u8, HostProbeResult)>) -> (r: u8)
    ensures
        r == chosen_octet(results@),
{
    match find_first(results, true) {
        Some(i) => {
            proof {
                let rr = results@;
                let w = choose|k: int| 0 <= k < rr.len() && rr[k].0 != 1 && rr[k].1.tcp_ports@.len() > 0
                    && forall|j: int| 0 <= j < k ==> !(rr[j].0 != 1 && rr[j].1.tcp_ports@.len() > 0);
                assert(w == i) by {
                    if w < i {
                    } else if w > i {
                    }
                }
            }
            results[i].0
        },
        None => match find_first(results, false) {
            Some(i) => {
                proof {
                    let rr = results@;
                    let w = choose|k: int| 0 <= k < rr.len() && rr[k].0 != 1 && echoed(rr[k].1)
                        && forall|j: int| 0 <= j < k ==> !(rr[j].0 != 1 && echoed(rr[j].1));
                    assert(w == i) by {
                        if w < i {
                        } else if w > i {
                        }
                    }
                }
                results[i].0
            },
            None => 1,
        },
    }
}

/// The records of the hosts of the view.
pub open spec fn records_of(r: Seq<(u8, HostProbeResult)>, recs: Seq<HostProbeRecord>) -> bool {
    recs.len() == r.len() && forall|i: int| 0 <= i < r.len() ==> record_of(r[i].0, r[i].1, #[trigger] recs[i])
}

/// The summary of the view: hosts that answered ICMP, hosts with a live TCP
/// port, and `port:count` of the live ports seen.
pub fn matrix_summary(records: &Vec<HostProbeRecord>) -> (r: (usize, usize, String))
    requires
        entries(records@, false) <= usize::MAX,
    ensures
        r.0 == echo_hosts(records@),
        r.1 == tcp_hosts(records@),
        exists|m: Seq<(u16, usize)>| counts_ports(m, Set::empty(), records@, false) && r.2@ == port_summary_text(m),
{
    let none: Vec<u16> = Vec::new();
    let m = count_ports(&none, records, false);
    assert(none@.to_set() =~= Set::<u16>::empty());
    let s = port_map_summary(&m);
    (count_echo(records), count_tcp(records), s)
}

} // verus!

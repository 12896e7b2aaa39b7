//! Address lists rebuilt from saved subnet records: the compact last-octet
//! ranges of a JSONL record are read back and turned into the alive, rejected
//! and ICMP address lists.
use vstd::prelude::*;
use crate::ipv4::{Ipv4Net, ip_text, ip_string, parse_ipv4_network, spec_parse_ipv4_network};
use crate::matrix::{octet_value, parse_octet, digits_value, digit_value, is_digit, all_digits, unsigned_part};
use crate::text::{views, chars_of, string_of, dec, digit_char};
use crate::utils::{in_ranges, host_address, range_text, canonical, covers, describes, describes_per_port, selected_octets, selects, OctetSelector, HostProbeRecord, address_lines, listed_alive, listed_rejected, map_ports};
use crate::subnet_probe::{counts_ports, port_seen, port_list};

verus! {

broadcast use vstd::seq_lib::group_seq_properties;

// ---------------------------------------------------------------------------
// Reading one range text
// ---------------------------------------------------------------------------

/// No character of the text is a dash.
pub open spec fn no_dash(s: Seq<char>) -> bool {
    forall|i: int| 0 <= i < s.len() ==> s[i] != '-'
}

/// Position of the first dash of a text that has one.
pub open spec fn first_dash(s: Seq<char>) -> int {
    choose|k: int| 0 <= k < s.len() && s[k] == '-' && no_dash(s.take(k))
}

/// The bounds a range text stands for, as the result files write ranges: `a`
/// for the one octet `a`, `a-b` for `a` up to `b` (split at the first dash,
/// each side read as `u8::from_str` reads it, and `a <= b`).
#[verifier::opaque]
pub open spec fn range_bounds(s: Seq<char>) -> Option<(u8, u8)> {
    if no_dash(s) {
        match octet_value(s) {
            Some(a) => Some((a, a)),
            None => None,
        }
    } else {
        let k = first_dash(s);
        match (octet_value(s.take(k)), octet_value(s.skip(k + 1))) {
            (Some(a), Some(b)) => if a <= b {
                Some((a, b))
            } else {
                None
            },
            _ => None,
        }
    }
}

fn sub_chars(v: &Vec<char>, lo: usize, hi: usize) -> (r: Vec<char>)
    requires
        lo <= hi <= v@.len(),
    ensures
        r@ == v@.subrange(lo as int, hi as int),
{
    let mut r: Vec<char> = Vec::new();
    let mut i = lo;
    while i < hi
        invariant
            lo <= i <= hi,
            hi <= v@.len(),
            r@ == v@.subrange(lo as int, i as int),
        decreases hi - i,
    {
        r.push(v[i]);
        assert(r@ =~= v@.subrange(lo as int, i + 1));
        i = i + 1;
    }
    r
}

/// Reads a range text (see [`range_bounds`]).
pub fn parse_range(s: &str) -> (r: Option<(u8, u8)>)
    ensures
        r == range_bounds(s@),
{
    reveal(range_bounds);
    let v = chars_of(s);
    let mut k: usize = 0;
    while k < v.len() && v[k] != '-'
        invariant
            k <= v@.len(),
            v@ == s@,
            no_dash(v@.take(k as int)),
        decreases v@.len() - k,
    {
        assert(no_dash(v@.take(k + 1))) by {
            assert forall|i: int| 0 <= i < k + 1 implies #[trigger] v@.take(k + 1)[i] != '-' by {
                if i < k {
                    assert(v@.take(k + 1)[i] == v@.take(k as int)[i]);
                }
            }
        }
        k = k + 1;
    }
    if k == v.len() {
        assert(v@.take(k as int) =~= s@);
        match parse_octet(s) {
            Some(a) => Some((a, a)),
            None => None,
        }
    } else {
        assert(!no_dash(s@)) by {
            assert(s@[k as int] == '-');
        }
        assert(first_dash(s@) == k) by {
            assert(0 <= k < s@.len() && s@[k as int] == '-' && no_dash(s@.take(k as int)));
            let c = first_dash(s@);
            if c < k {
                assert(s@.take(k as int)[c] == '-');
            }
            if c > k {
                assert(s@.take(c)[k as int] == '-');
            }
        }
        let left = string_of(&sub_chars(&v, 0, k));
        let right = string_of(&sub_chars(&v, k + 1, v.len()));
        assert(left@ =~= s@.take(k as int));
        assert(right@ =~= s@.skip(k + 1));
        match (parse_octet(left.as_str()), parse_octet(right.as_str())) {
            (Some(a), Some(b)) => if a <= b {
                Some((a, b))
            } else {
                None
            },
            _ => None,
        }
    }
}

// ---------------------------------------------------------------------------
// Reading lists of range texts
// ---------------------------------------------------------------------------

/// Every range text of the list reads.
pub open spec fn texts_valid(ranges: Seq<String>) -> bool {
    forall|j: int| 0 <= j < ranges.len() ==> (#[trigger] range_bounds(ranges[j]@)) is Some
}

/// The bounds of a list of range texts that all read, in list order.
pub open spec fn texts_bounds(ranges: Seq<String>) -> Seq<(u8, u8)>
    decreases ranges.len(),
{
    if ranges.len() == 0 {
        Seq::empty()
    } else {
        texts_bounds(ranges.drop_last()).push(range_bounds(ranges.last()@).unwrap())
    }
}

/// Every range text of every port reads.
pub open spec fn ports_valid(m: Seq<(u16, Vec<String>)>) -> bool {
    forall|i: int| 0 <= i < m.len() ==> texts_valid(#[trigger] m[i].1@)
}

/// The bounds of the range texts of all ports, port after port.
pub open spec fn ports_bounds(m: Seq<(u16, Vec<String>)>) -> Seq<(u8, u8)>
    decreases m.len(),
{
    if m.len() == 0 {
        Seq::empty()
    } else {
        ports_bounds(m.drop_last()) + texts_bounds(m.last().1@)
    }
}

proof fn lemma_texts_step(ranges: Seq<String>, j: int)
    requires
        0 <= j < ranges.len(),
        texts_valid(ranges.take(j)),
        range_bounds(ranges[j]@) is Some,
    ensures
        texts_valid(ranges.take(j + 1)),
        texts_bounds(ranges.take(j + 1)) == texts_bounds(ranges.take(j)).push(range_bounds(ranges[j]@).unwrap()),
{
    assert(ranges.take(j + 1).drop_last() =~= ranges.take(j));
    assert forall|t: int| 0 <= t < j + 1 implies (#[trigger] range_bounds(ranges.take(j + 1)[t]@)) is Some by {
        if t < j {
            assert(ranges.take(j + 1)[t] == ranges.take(j)[t]);
        }
    }
}

/// Appends the bounds of a list of range texts; false when one does not read.
fn read_texts(ranges: &Vec<String>, out: &mut Vec<(u8, u8)>) -> (ok: bool)
    ensures
        ok == texts_valid(ranges@),
        ok ==> final(out)@ == old(out)@ + texts_bounds(ranges@),
{
    let ghost start = out@;
    let mut j: usize = 0;
    while j < ranges.len()
        invariant
            j <= ranges@.len(),
            texts_valid(ranges@.take(j as int)),
            out@ == start + texts_bounds(ranges@.take(j as int)),
        decreases ranges@.len() - j,
    {
        let b = parse_range(ranges[j].as_str());
        if b.is_none() {
            assert(range_bounds(ranges@[j as int]@) is None);
            return false;
        }
        let x = b.unwrap();
        proof {
            lemma_texts_step(ranges@, j as int);
        }
        let ghost before = out@;
        out.push(x);
        assert(out@ =~= start + texts_bounds(ranges@.take(j + 1)));
        j = j + 1;
    }
    assert(ranges@.take(ranges@.len() as int) =~= ranges@);
    true
}

/// Reads the range texts of all ports of a record; `None` when one does not
/// read.
pub fn read_port_ranges(m: &Vec<(u16, Vec<String>)>) -> (r: Option<Vec<(u8, u8)>>)
    ensures
        r is Some <==> ports_valid(m@),
        r matches Some(v) ==> v@ == ports_bounds(m@),
{
    let mut out: Vec<(u8, u8)> = Vec::new();
    let mut i: usize = 0;
    while i < m.len()
        invariant
            i <= m@.len(),
            ports_valid(m@.take(i as int)),
            out@ == ports_bounds(m@.take(i as int)),
        decreases m@.len() - i,
    {
        assert(m@.take(i + 1).drop_last() =~= m@.take(i as int));
        let ok = read_texts(&m[i].1, &mut out);
        if !ok {
            assert(!ports_valid(m@)) by {
                assert(!texts_valid(m@[i as int].1@));
            }
            return None;
        }
        assert(ports_valid(m@.take(i + 1))) by {
            assert forall|t: int| 0 <= t < i + 1 implies texts_valid(#[trigger] m@.take(i + 1)[t].1@) by {
                if t < i {
                    assert(m@.take(i + 1)[t] == m@.take(i as int)[t]);
                }
            }
        }
        i = i + 1;
    }
    assert(m@.take(m@.len() as int) =~= m@);
    Some(out)
}

/// Reads a list of range texts; `None` when one does not read.
pub fn read_ranges(ranges: &Vec<String>) -> (r: Option<Vec<(u8, u8)>>)
    ensures
        r is Some <==> texts_valid(ranges@),
        r matches Some(v) ==> v@ == texts_bounds(ranges@),
{
    let mut out: Vec<(u8, u8)> = Vec::new();
    if read_texts(ranges, &mut out) {
        assert(out@ =~= texts_bounds(ranges@));
        Some(out)
    } else {
        None
    }
}

// ---------------------------------------------------------------------------
// Address lists
// ---------------------------------------------------------------------------

/// Whether an octet falls in one of the ranges.
pub fn in_any_range(rs: &Vec<(u8, u8)>, o: u8) -> (r: bool)
    ensures
        r == in_ranges(rs@, o),
{
    let mut i: usize = 0;
    while i < rs.len()
        invariant
            i <= rs@.len(),
            forall|t: int| 0 <= t < i ==> !(rs@[t].0 <= o && o <= rs@[t].1),
        decreases rs@.len() - i,
    {
        if rs[i].0 <= o && o <= rs[i].1 {
            return true;
        }
        i = i + 1;
    }
    false
}

/// The addresses of the hosts `.1` up to `.(n - 1)` of the subnet whose last
/// octet falls in `yes` and not in `no`, in octet order.
pub open spec fn lines_where(net: Ipv4Net, yes: Seq<(u8, u8)>, no: Seq<(u8, u8)>, n: nat) -> Seq<Seq<char>>
    decreases n,
{
    if n <= 1 {
        Seq::empty()
    } else {
        let rest = lines_where(net, yes, no, (n - 1) as nat);
        let o = (n - 1) as u8;
        if in_ranges(yes, o) && !in_ranges(no, o) {
            rest.push(ip_text(host_address(net, o)))
        } else {
            rest
        }
    }
}

/// The addresses of the hosts `.1` to `.254` whose last octet falls in `yes`
/// and not in `no`.
fn lines_for(net: Ipv4Net, yes: &Vec<(u8, u8)>, no: &Vec<(u8, u8)>) -> (r: Vec<String>)
    requires
        net.wf(),
    ensures
        views(r@) == lines_where(net, yes@, no@, 255),
{
    let base = (net.network() / 256) * 256;
    let mut out: Vec<String> = Vec::new();
    let mut n: u32 = 1;
    while n < 255
        invariant
            1 <= n <= 255,
            net.wf(),
            base == (net.spec_network() / 256) * 256,
            views(out@) == lines_where(net, yes@, no@, n as nat),
        decreases 255 - n,
    {
        let o = n as u8;
        if in_any_range(yes, o) && !in_any_range(no, o) {
            assert(base + o <= u32::MAX);
            let addr = (base + o as u32) as u32;
            let ghost before = out@;
            out.push(ip_string(addr));
            assert(views(out@) =~= views(before).push(out@.last()@));
        }
        n = n + 1;
    }
    out
}

/// The alive and the rejected address lists of a saved subnet record, read
/// from its per-port TCP ranges and per-port quick-refusal ranges: a host is
/// alive when some TCP range holds it and no refusal range does, and rejected
/// when some refusal range holds it, hosts `.1` to `.254` in octet order.
/// `None` when a range text does not read.
pub fn record_address_lists(
    net: Ipv4Net,
    tcp_ports: &Vec<(u16, Vec<String>)>,
    tcp_rejected: &Vec<(u16, Vec<String>)>,
) -> (r: Option<(Vec<String>, Vec<String>)>)
    requires
        net.wf(),
    ensures
        r is Some <==> (ports_valid(tcp_ports@) && ports_valid(tcp_rejected@)),
        r matches Some(p) ==> {
            &&& views(p.0@) == lines_where(net, ports_bounds(tcp_ports@), ports_bounds(tcp_rejected@), 255)
            &&& views(p.1@) == lines_where(net, ports_bounds(tcp_rejected@), Seq::empty(), 255)
        },
{
    let alive = read_port_ranges(tcp_ports);
    let rejected = read_port_ranges(tcp_rejected);
    match (alive, rejected) {
        (Some(a), Some(j)) => {
            let none: Vec<(u8, u8)> = Vec::new();
            assert(none@ =~= Seq::<(u8, u8)>::empty());
            Some((lines_for(net, &a, &j), lines_for(net, &j, &none)))
        },
        _ => None,
    }
}

/// The ICMP address list of a saved subnet record, read from its ICMP ranges:
/// hosts `.1` to `.254` that some range holds, in octet order. `None` when a
/// range text does not read.
pub fn record_echo_list(net: Ipv4Net, icmp: &Vec<String>) -> (r: Option<Vec<String>>)
    requires
        net.wf(),
    ensures
        r is Some <==> texts_valid(icmp@),
        r matches Some(v) ==> views(v@) == lines_where(net, texts_bounds(icmp@), Seq::empty(), 255),
{
    match read_ranges(icmp) {
        Some(rs) => {
            let none: Vec<(u8, u8)> = Vec::new();
            assert(none@ =~= Seq::<(u8, u8)>::empty());
            Some(lines_for(net, &rs, &none))
        },
        None => None,
    }
}

/// The alive and rejected address lists of a saved record whose subnet is
/// given as text (read as `ipnetwork` reads a network); `None` when the subnet
/// or a range text does not read.
pub fn subnet_address_lists(
    subnet: &str,
    tcp_ports: &Vec<(u16, Vec<String>)>,
    tcp_rejected: &Vec<(u16, Vec<String>)>,
) -> (r: Option<(Vec<String>, Vec<String>)>)
    ensures
        match spec_parse_ipv4_network(subnet@) {
            None => r is None,
            Some((a, p)) => {
                let net = Ipv4Net { addr: a, prefix: p };
                &&& r is Some <==> (ports_valid(tcp_ports@) && ports_valid(tcp_rejected@))
                &&& r matches Some(l) ==> {
                    &&& views(l.0@) == lines_where(net, ports_bounds(tcp_ports@), ports_bounds(tcp_rejected@), 255)
                    &&& views(l.1@) == lines_where(net, ports_bounds(tcp_rejected@), Seq::empty(), 255)
                }
            },
        },
{
    match parse_ipv4_network(subnet) {
        Some(net) => record_address_lists(net, tcp_ports, tcp_rejected),
        None => None,
    }
}

/// The ICMP address list of a saved record whose subnet is given as text;
/// `None` when the subnet or a range text does not read.
pub fn subnet_echo_list(subnet: &str, icmp: &Vec<String>) -> (r: Option<Vec<String>>)
    ensures
        match spec_parse_ipv4_network(subnet@) {
            None => r is None,
            Some((a, p)) => {
                &&& r is Some <==> texts_valid(icmp@)
                &&& r matches Some(v) ==> views(v@) == lines_where(
                    Ipv4Net { addr: a, prefix: p },
                    texts_bounds(icmp@),
                    Seq::empty(),
                    255,
                )
            },
        },
{
    match parse_ipv4_network(subnet) {
        Some(net) => record_echo_list(net, icmp),
        None => None,
    }
}

/// The path of a list written beside a JSONL result file: the file's path
/// without its `.jsonl` ending (where it has one), then `suffix`.
pub open spec fn list_path_text(jsonl_file: Seq<char>, suffix: Seq<char>) -> Seq<char> {
    let ext = ".jsonl"@;
    if jsonl_file.len() >= ext.len() && jsonl_file.skip(jsonl_file.len() - ext.len()) == ext {
        jsonl_file.take(jsonl_file.len() - ext.len()) + suffix
    } else {
        jsonl_file + suffix
    }
}

/// The path of a list written beside a JSONL result file (see [`list_path_text`]).
pub fn list_path(jsonl_file: &str, suffix: &str) -> (r: String)
    ensures
        r@ == list_path_text(jsonl_file@, suffix@),
{
    proof {
        reveal_strlit(".jsonl");
    }
    let v = chars_of(jsonl_file);
    let ext: Vec<char> = vec!['.', 'j', 's', 'o', 'n', 'l'];
    assert(ext@ =~= ".jsonl"@);
    let n = v.len();
    let mut keep = n;
    if n >= 6 {
        let mut same = true;
        let mut i: usize = 0;
        while i < 6
            invariant
                i <= 6,
                n == v@.len(),
                n >= 6,
                ext@ == ".jsonl"@,
                ext@.len() == 6,
                same == (forall|j: int| 0 <= j < i ==> v@[n - 6 + j] == ext@[j]),
            decreases 6 - i,
        {
            if v[n - 6 + i] != ext[i] {
                same = false;
            }
            i = i + 1;
        }
        if same {
            assert(v@.skip(n - 6) =~= ext@);
        } else {
            assert(v@.skip(n - 6) != ext@) by {
                let j = choose|j: int| 0 <= j < 6 && v@[n - 6 + j] != ext@[j];
                assert(v@.skip(n - 6)[j] == v@[n - 6 + j]);
            }
        }
        if same {
            keep = n - 6;
        }
    }
    let mut out = string_of(&sub_chars(&v, 0, keep));
    crate::text::push_str(&mut out, suffix);
    assert(v@.subrange(0, n as int) =~= v@);
    assert(out@ =~= list_path_text(jsonl_file@, suffix@));
    out
}

// ---------------------------------------------------------------------------
// Range texts read back
// ---------------------------------------------------------------------------

proof fn lemma_digit_char(d: nat)
    requires
        d < 10,
    ensures
        is_digit(digit_char(d)),
        digit_value(digit_char(d)) == d,
{
}

proof fn lemma_dec_digits(n: nat)
    ensures
        dec(n).len() > 0,
        all_digits(dec(n)),
        digits_value(dec(n)) == n,
    decreases n,
{
    if n < 10 {
        lemma_digit_char(n);
        let s = dec(n);
        assert(s =~= seq![digit_char(n)]);
        assert(s.drop_last() =~= Seq::<char>::empty());
        assert(digits_value(s.drop_last()) == 0);
        assert(digits_value(s) == digits_value(s.drop_last()) * 10 + digit_value(s.last()));
    } else {
        lemma_dec_digits(n / 10);
        lemma_digit_char(n % 10);
        let s = dec(n);
        assert(s == dec(n / 10).push(digit_char(n % 10)));
        assert(s.drop_last() =~= dec(n / 10));
        assert(s.last() == digit_char(n % 10));
        assert(digits_value(s) == digits_value(s.drop_last()) * 10 + digit_value(s.last()));
        assert((n / 10) * 10 + n % 10 == n) by (nonlinear_arith);
        assert forall|i: int| 0 <= i < s.len() implies is_digit(#[trigger] s[i]) by {
            if i < s.len() - 1 {
                assert(s[i] == dec(n / 10)[i]);
            }
        }
    }
}

proof fn lemma_octet_text(n: u8)
    ensures
        octet_value(dec(n as nat)) == Some(n),
        no_dash(dec(n as nat)),
        dec(n as nat).len() > 0,
{
    let s = dec(n as nat);
    lemma_dec_digits(n as nat);
    assert(is_digit(s[0]));
    assert(unsigned_part(s) == s);
    assert forall|i: int| 0 <= i < s.len() implies s[i] != '-' by {
        assert(is_digit(s[i]));
    }
}

/// The text of a range reads back as the range.
proof fn lemma_range_text(r: (u8, u8))
    requires
        r.0 <= r.1,
    ensures
        range_bounds(range_text(r)) == Some(r),
{
    reveal(range_bounds);
    lemma_octet_text(r.0);
    lemma_octet_text(r.1);
    if r.0 != r.1 {
        let a = dec(r.0 as nat);
        let b = dec(r.1 as nat);
        let s = a + seq!['-'] + b;
        assert(s == range_text(r));
        let k = a.len() as int;
        assert(s[k] == '-');
        assert(s.take(k) =~= a);
        assert(s.skip(k + 1) =~= b);
        assert(!no_dash(s));
        assert(0 <= k < s.len() && s[k] == '-' && no_dash(s.take(k)));
        let c = first_dash(s);
        if c < k {
            assert(s.take(k)[c] == '-');
        }
        if c > k {
            assert(s.take(c)[k] == '-');
        }
        assert(c == k);
    }
}

/// Texts written for ranges read back as those ranges.
proof fn lemma_texts_of_ranges(v: Seq<String>, r: Seq<(u8, u8)>)
    requires
        v.len() == r.len(),
        forall|i: int| 0 <= i < r.len() ==> (#[trigger] r[i]).0 <= r[i].1,
        forall|i: int| 0 <= i < v.len() ==> (#[trigger] v[i])@ == range_text(r[i]),
    ensures
        texts_valid(v),
        texts_bounds(v) == r,
    decreases v.len(),
{
    if v.len() > 0 {
        let n = v.len() - 1;
        assert forall|i: int| 0 <= i < n implies (#[trigger] v.drop_last()[i])@ == range_text(r.drop_last()[i]) by {
            assert(v.drop_last()[i] == v[i]);
            assert(r.drop_last()[i] == r[i]);
        }
        assert forall|i: int| 0 <= i < n implies (#[trigger] r.drop_last()[i]).0 <= r.drop_last()[i].1 by {
            assert(r.drop_last()[i] == r[i]);
        }
        lemma_texts_of_ranges(v.drop_last(), r.drop_last());
        assert(v[n]@ == range_text(r[n]));
        lemma_range_text(r[n]);
        assert forall|j: int| 0 <= j < v.len() implies (#[trigger] range_bounds(v[j]@)) is Some by {
            if j < n {
                assert(v.drop_last()[j] == v[j]);
            }
        }
        assert(texts_bounds(v) =~= r);
    }
}

/// The texts of a described set of octets read back as ranges holding exactly
/// that set.
proof fn lemma_described_texts(v: Seq<String>, s: Set<u8>)
    requires
        describes(v, s),
    ensures
        texts_valid(v),
        forall|o: u8| #[trigger] in_ranges(texts_bounds(v), o) <==> s.contains(o),
{
    let r = choose|r: Seq<(u8, u8)>| canonical(r) && covers(r, s) && views(v) == r.map_values(|x: (u8, u8)| range_text(x));
    assert(views(v).len() == v.len());
    assert forall|i: int| 0 <= i < v.len() implies (#[trigger] v[i])@ == range_text(r[i]) by {
        assert(views(v)[i] == v[i]@);
    }
    lemma_texts_of_ranges(v, r);
}

proof fn lemma_in_ranges_concat(a: Seq<(u8, u8)>, b: Seq<(u8, u8)>, o: u8)
    ensures
        in_ranges(a + b, o) <==> (in_ranges(a, o) || in_ranges(b, o)),
{
    if in_ranges(a + b, o) {
        let i = choose|i: int| 0 <= i < (a + b).len() && (a + b)[i].0 <= o && o <= (a + b)[i].1;
        if i >= a.len() {
            assert(b[i - a.len()] == (a + b)[i]);
        }
    }
    if in_ranges(b, o) {
        let i = choose|i: int| 0 <= i < b.len() && b[i].0 <= o && o <= b[i].1;
        assert((a + b)[a.len() + i] == b[i]);
    }
    if in_ranges(a, o) {
        let i = choose|i: int| 0 <= i < a.len() && a[i].0 <= o && o <= a[i].1;
        assert((a + b)[i] == a[i]);
    }
}

/// The selection a per-port range list describes.
pub open spec fn port_selector(p: u16, rejected: bool) -> OctetSelector {
    if rejected {
        OctetSelector::RejectedPort(p)
    } else {
        OctetSelector::TcpPort(p)
    }
}

/// The ranges of all ports hold an octet exactly when some port's selection does.
proof fn lemma_port_texts(t: Seq<(u16, Vec<String>)>, m: Seq<(u16, usize)>, hosts: Seq<HostProbeRecord>, rejected: bool)
    requires
        describes_per_port(t, m, hosts, rejected),
    ensures
        ports_valid(t),
        forall|o: u8| #[trigger] in_ranges(ports_bounds(t), o) <==> exists|i: int|
            0 <= i < m.len() && (#[trigger] selected_octets(hosts, port_selector(m[i].0, rejected))).contains(o),
    decreases t.len(),
{
    if t.len() == 0 {
        assert(m.len() == 0);
    } else {
        let n = t.len() - 1;
        let t2 = t.drop_last();
        let m2 = m.drop_last();
        assert forall|i: int| 0 <= i < t2.len() implies {
            &&& (#[trigger] t2[i]).0 == m2[i].0
            &&& describes(
                t2[i].1@,
                selected_octets(
                    hosts,
                    if rejected {
                        OctetSelector::RejectedPort(m2[i].0)
                    } else {
                        OctetSelector::TcpPort(m2[i].0)
                    },
                ),
            )
        } by {
            assert(t2[i] == t[i]);
            assert(m2[i] == m[i]);
        }
        lemma_port_texts(t2, m2, hosts, rejected);
        assert(t[n].0 == m[n].0);
        let last_sel = selected_octets(hosts, port_selector(m[n].0, rejected));
        assert(describes(t[n].1@, last_sel));
        lemma_described_texts(t[n].1@, last_sel);
        assert(ports_valid(t)) by {
            assert forall|i: int| 0 <= i < t.len() implies texts_valid(#[trigger] t[i].1@) by {
                if i < n {
                    assert(t2[i] == t[i]);
                }
            }
        }
        assert forall|o: u8| #[trigger] in_ranges(ports_bounds(t), o) <==> exists|i: int|
            0 <= i < m.len() && (#[trigger] selected_octets(hosts, port_selector(m[i].0, rejected))).contains(o) by {
            lemma_in_ranges_concat(ports_bounds(t2), texts_bounds(t.last().1@), o);
            if in_ranges(ports_bounds(t), o) {
                if in_ranges(ports_bounds(t2), o) {
                    let i = choose|i: int| 0 <= i < m2.len() && (#[trigger] selected_octets(hosts, port_selector(m2[i].0, rejected))).contains(o);
                    assert(m2[i] == m[i]);
                } else {
                    assert(last_sel.contains(o));
                }
            }
            if exists|i: int| 0 <= i < m.len() && (#[trigger] selected_octets(hosts, port_selector(m[i].0, rejected))).contains(o) {
                let i = choose|i: int| 0 <= i < m.len() && (#[trigger] selected_octets(hosts, port_selector(m[i].0, rejected))).contains(o);
                if i < n {
                    assert(m2[i] == m[i]);
                    assert(selected_octets(hosts, port_selector(m2[i].0, rejected)).contains(o));
                    assert(in_ranges(ports_bounds(t2), o));
                } else {
                    assert(in_ranges(texts_bounds(t.last().1@), o));
                }
            }
        }
    }
}

// ---------------------------------------------------------------------------
// Hosts in octet order
// ---------------------------------------------------------------------------

/// The hosts are listed in strictly increasing last-octet order, each among
/// `.1` to `.254`.
pub open spec fn hosts_in_order(hosts: Seq<HostProbeRecord>) -> bool {
    &&& forall|i: int, j: int| 0 <= i < j < hosts.len() ==> (#[trigger] hosts[i]).octet < (#[trigger] hosts[j]).octet
    &&& forall|i: int| 0 <= i < hosts.len() ==> 1 <= (#[trigger] hosts[i]).octet <= 254
}

/// Each host record marks TCP alive exactly when it lists a TCP port.
pub open spec fn records_consistent(hosts: Seq<HostProbeRecord>) -> bool {
    forall|i: int| 0 <= i < hosts.len() ==> (#[trigger] hosts[i]).tcp_alive == (hosts[i].tcp_ports@.len() > 0)
}

/// The number of leading hosts whose last octet is below `n`.
spec fn below(hosts: Seq<HostProbeRecord>, n: int) -> int
    decreases hosts.len(),
{
    if hosts.len() == 0 {
        0
    } else if hosts.last().octet < n {
        hosts.len() as int
    } else {
        below(hosts.drop_last(), n)
    }
}

proof fn lemma_below(hosts: Seq<HostProbeRecord>, n: int)
    requires
        hosts_in_order(hosts),
    ensures
        0 <= below(hosts, n) <= hosts.len(),
        forall|j: int| 0 <= j < below(hosts, n) ==> (#[trigger] hosts[j]).octet < n,
        forall|j: int| below(hosts, n) <= j < hosts.len() ==> (#[trigger] hosts[j]).octet >= n,
    decreases hosts.len(),
{
    if hosts.len() > 0 {
        let l = hosts.len() - 1;
        if hosts.last().octet < n {
            assert forall|j: int| 0 <= j < hosts.len() implies (#[trigger] hosts[j]).octet < n by {
                if j < l {
                    assert(hosts[j].octet < hosts[l].octet);
                }
            }
        } else {
            let h2 = hosts.drop_last();
            assert(hosts_in_order(h2)) by {
                assert forall|i: int, j: int| 0 <= i < j < h2.len() implies (#[trigger] h2[i]).octet < (#[trigger] h2[j]).octet by {
                    assert(h2[i] == hosts[i] && h2[j] == hosts[j]);
                    assert(hosts[i].octet < hosts[j].octet);
                }
                assert forall|i: int| 0 <= i < h2.len() implies 1 <= (#[trigger] h2[i]).octet <= 254 by {
                    assert(h2[i] == hosts[i]);
                }
            }
            lemma_below(h2, n);
            assert forall|j: int| 0 <= j < below(hosts, n) implies (#[trigger] hosts[j]).octet < n by {
                assert(h2[j] == hosts[j]);
            }
            assert forall|j: int| below(hosts, n) <= j < hosts.len() implies (#[trigger] hosts[j]).octet >= n by {
                if j < l {
                    assert(h2[j] == hosts[j]);
                }
            }
        }
    }
}

proof fn lemma_split_unique(hosts: Seq<HostProbeRecord>, n: int, k: int)
    requires
        hosts_in_order(hosts),
        0 <= k <= hosts.len(),
        forall|j: int| 0 <= j < k ==> (#[trigger] hosts[j]).octet < n,
        forall|j: int| k <= j < hosts.len() ==> (#[trigger] hosts[j]).octet >= n,
    ensures
        below(hosts, n) == k,
{
    lemma_below(hosts, n);
    let b = below(hosts, n);
    if b < k {
        assert(hosts[b].octet >= n);
    }
    if k < b {
        assert(hosts[k].octet < n);
    }
}

/// A host goes to the alive list, or to the rejected list.
pub open spec fn listed(h: HostProbeRecord, rejected: bool) -> bool {
    (rejected && listed_rejected(h)) || (!rejected && listed_alive(h))
}

proof fn lemma_lines_match(
    net: Ipv4Net,
    yes: Seq<(u8, u8)>,
    no: Seq<(u8, u8)>,
    hosts: Seq<HostProbeRecord>,
    rejected: bool,
    n: nat,
)
    requires
        1 <= n <= 255,
        hosts_in_order(hosts),
        forall|o: u8| 1 <= o <= 254 ==> ((in_ranges(yes, o) && !in_ranges(no, o)) <==> exists|j: int|
            0 <= j < hosts.len() && (#[trigger] hosts[j]).octet == o && listed(hosts[j], rejected)),
    ensures
        lines_where(net, yes, no, n) == address_lines(net, hosts.take(below(hosts, n as int)), rejected),
    decreases n,
{
    lemma_below(hosts, n as int);
    if n == 1 {
        lemma_split_unique(hosts, 1, 0);
        assert(hosts.take(0) =~= Seq::<HostProbeRecord>::empty());
    } else {
        let m = (n - 1) as nat;
        lemma_lines_match(net, yes, no, hosts, rejected, m);
        lemma_below(hosts, m as int);
        let c = below(hosts, m as int);
        let o = m as u8;
        if c < hosts.len() && hosts[c].octet == o {
            assert forall|j: int| c + 1 <= j < hosts.len() implies (#[trigger] hosts[j]).octet >= n by {
                assert(hosts[c].octet < hosts[j].octet);
            }
            lemma_split_unique(hosts, n as int, c + 1);
            assert(hosts.take(c + 1).drop_last() =~= hosts.take(c));
            assert(hosts.take(c + 1).last() == hosts[c]);
            assert((exists|j: int| 0 <= j < hosts.len() && (#[trigger] hosts[j]).octet == o && listed(hosts[j], rejected))
                <==> listed(hosts[c], rejected)) by {
                if exists|j: int| 0 <= j < hosts.len() && (#[trigger] hosts[j]).octet == o && listed(hosts[j], rejected) {
                    let j = choose|j: int| 0 <= j < hosts.len() && (#[trigger] hosts[j]).octet == o && listed(hosts[j], rejected);
                    if j < c {
                        assert(hosts[j].octet < hosts[c].octet);
                    }
                    if j > c {
                        assert(hosts[c].octet < hosts[j].octet);
                    }
                }
            }
        } else {
            assert forall|j: int| c <= j < hosts.len() implies (#[trigger] hosts[j]).octet >= n by {
                if j > c {
                    assert(hosts[c].octet < hosts[j].octet);
                }
            }
            lemma_split_unique(hosts, n as int, c);
            assert(!exists|j: int| 0 <= j < hosts.len() && (#[trigger] hosts[j]).octet == o && listed(hosts[j], rejected)) by {
                if exists|j: int| 0 <= j < hosts.len() && (#[trigger] hosts[j]).octet == o && listed(hosts[j], rejected) {
                    let j = choose|j: int| 0 <= j < hosts.len() && (#[trigger] hosts[j]).octet == o && listed(hosts[j], rejected);
                    if j > c {
                        assert(hosts[c].octet < hosts[j].octet);
                    }
                }
            }
        }
    }
}

/// A per-port map that holds every listed port selects an octet exactly when
/// the host with that octet lists some port.
proof fn lemma_port_hosts(m: Seq<(u16, usize)>, base: Set<u16>, hosts: Seq<HostProbeRecord>, rejected: bool, o: u8)
    requires
        counts_ports(m, base, hosts, rejected),
    ensures
        (exists|i: int| 0 <= i < m.len() && (#[trigger] selected_octets(hosts, port_selector(m[i].0, rejected))).contains(o))
            <==> (exists|j: int| 0 <= j < hosts.len() && (#[trigger] hosts[j]).octet == o && port_list(hosts[j], rejected).len() > 0),
{
    if exists|i: int| 0 <= i < m.len() && (#[trigger] selected_octets(hosts, port_selector(m[i].0, rejected))).contains(o) {
        let i = choose|i: int| 0 <= i < m.len() && (#[trigger] selected_octets(hosts, port_selector(m[i].0, rejected))).contains(o);
        let sel = port_selector(m[i].0, rejected);
        assert(selected_octets(hosts, sel).contains(o));
        let j = choose|j: int| 0 <= j < hosts.len() && selects(sel, hosts[j]) && hosts[j].octet == o;
        assert(port_list(hosts[j], rejected).contains(m[i].0));
        assert(port_list(hosts[j], rejected).len() > 0);
    }
    if exists|j: int| 0 <= j < hosts.len() && (#[trigger] hosts[j]).octet == o && port_list(hosts[j], rejected).len() > 0 {
        let j = choose|j: int| 0 <= j < hosts.len() && (#[trigger] hosts[j]).octet == o && port_list(hosts[j], rejected).len() > 0;
        let p = port_list(hosts[j], rejected)[0];
        assert(port_list(hosts[j], rejected).contains(p));
        assert(port_seen(hosts, p, rejected));
        assert(map_ports(m).contains(p));
        let i = map_ports(m).index_of(p);
        assert(m[i].0 == p);
        let sel = port_selector(p, rejected);
        assert(selects(sel, hosts[j]));
        assert(selected_octets(hosts, sel).contains(o));
    }
}

/// Law: the alive and rejected address lists rebuilt from the ranges written
/// in a subnet's record (`finalize`) are the lists written for the subnet
/// during the scan. It holds of the host records a scan produces: listed once
/// each in increasing last-octet order among `.1` to `.254`, TCP marked alive
/// exactly when a port is listed, and per-port maps holding every listed port.
pub proof fn lemma_rebuilt_lists_match(
    net: Ipv4Net,
    hosts: Seq<HostProbeRecord>,
    base: Set<u16>,
    alive_map: Seq<(u16, usize)>,
    rejected_map: Seq<(u16, usize)>,
    tcp_texts: Seq<(u16, Vec<String>)>,
    rejected_texts: Seq<(u16, Vec<String>)>,
)
    requires
        hosts_in_order(hosts),
        records_consistent(hosts),
        counts_ports(alive_map, base, hosts, false),
        counts_ports(rejected_map, base, hosts, true),
        describes_per_port(tcp_texts, alive_map, hosts, false),
        describes_per_port(rejected_texts, rejected_map, hosts, true),
    ensures
        ports_valid(tcp_texts),
        ports_valid(rejected_texts),
        lines_where(net, ports_bounds(tcp_texts), ports_bounds(rejected_texts), 255) == address_lines(net, hosts, false),
        lines_where(net, ports_bounds(rejected_texts), Seq::empty(), 255) == address_lines(net, hosts, true),
{
    lemma_port_texts(tcp_texts, alive_map, hosts, false);
    lemma_port_texts(rejected_texts, rejected_map, hosts, true);
    let yes = ports_bounds(tcp_texts);
    let rej = ports_bounds(rejected_texts);
    let none = Seq::<(u8, u8)>::empty();
    assert forall|o: u8| 1 <= o <= 254 implies ((in_ranges(yes, o) && !in_ranges(rej, o)) <==> exists|j: int|
        0 <= j < hosts.len() && (#[trigger] hosts[j]).octet == o && listed(hosts[j], false)) by {
        lemma_port_hosts(alive_map, base, hosts, false, o);
        lemma_port_hosts(rejected_map, base, hosts, true, o);
        assert(in_ranges(yes, o) == exists|i: int| 0 <= i < alive_map.len() && (#[trigger] selected_octets(hosts, port_selector(alive_map[i].0, false))).contains(o));
        assert(in_ranges(rej, o) == exists|i: int| 0 <= i < rejected_map.len() && (#[trigger] selected_octets(hosts, port_selector(rejected_map[i].0, true))).contains(o));
        if in_ranges(yes, o) && !in_ranges(rej, o) {
            let j = choose|j: int| 0 <= j < hosts.len() && (#[trigger] hosts[j]).octet == o && port_list(hosts[j], false).len() > 0;
            assert(port_list(hosts[j], true).len() == 0);
            assert(listed(hosts[j], false));
        }
        if exists|j: int| 0 <= j < hosts.len() && (#[trigger] hosts[j]).octet == o && listed(hosts[j], false) {
            let j = choose|j: int| 0 <= j < hosts.len() && (#[trigger] hosts[j]).octet == o && listed(hosts[j], false);
            assert(port_list(hosts[j], false).len() > 0);
            if exists|k: int| 0 <= k < hosts.len() && (#[trigger] hosts[k]).octet == o && port_list(hosts[k], true).len() > 0 {
                let k = choose|k: int| 0 <= k < hosts.len() && (#[trigger] hosts[k]).octet == o && port_list(hosts[k], true).len() > 0;
                if k < j {
                    assert(hosts[k].octet < hosts[j].octet);
                }
                if j < k {
                    assert(hosts[j].octet < hosts[k].octet);
                }
            }
        }
    }
    assert forall|o: u8| 1 <= o <= 254 implies ((in_ranges(rej, o) && !in_ranges(none, o)) <==> exists|j: int|
        0 <= j < hosts.len() && (#[trigger] hosts[j]).octet == o && listed(hosts[j], true)) by {
        lemma_port_hosts(rejected_map, base, hosts, true, o);
        assert(in_ranges(rej, o) == exists|i: int| 0 <= i < rejected_map.len() && (#[trigger] selected_octets(hosts, port_selector(rejected_map[i].0, true))).contains(o));
        assert(!in_ranges(none, o));
        if exists|j: int| 0 <= j < hosts.len() && (#[trigger] hosts[j]).octet == o && listed(hosts[j], true) {
            let j = choose|j: int| 0 <= j < hosts.len() && (#[trigger] hosts[j]).octet == o && listed(hosts[j], true);
            assert(port_list(hosts[j], true).len() > 0);
        }
    }
    lemma_lines_match(net, yes, rej, hosts, false, 255);
    lemma_lines_match(net, rej, none, hosts, true, 255);
    lemma_split_unique(hosts, 255, hosts.len() as int);
    assert(hosts.take(hosts.len() as int) =~= hosts);
}

/// Law: the fast-reject ranges of a subnet's compact record (`tcp_rejected`,
/// one range list per port), taken over all ports together, hold an octet
/// exactly when the host with that octet was fast-rejected on some port.
pub proof fn lemma_fast_reject_union(
    hosts: Seq<HostProbeRecord>,
    base: Set<u16>,
    rejected_map: Seq<(u16, usize)>,
    rejected_texts: Seq<(u16, Vec<String>)>,
    o: u8,
)
    requires
        counts_ports(rejected_map, base, hosts, true),
        describes_per_port(rejected_texts, rejected_map, hosts, true),
    ensures
        ports_valid(rejected_texts),
        in_ranges(ports_bounds(rejected_texts), o) <==> exists|j: int|
            0 <= j < hosts.len() && (#[trigger] hosts[j]).octet == o && hosts[j].tcp_rejected_ports@.len() > 0,
{
    lemma_port_texts(rejected_texts, rejected_map, hosts, true);
    lemma_port_hosts(rejected_map, base, hosts, true, o);
}

/// Law: the ICMP list rebuilt from a subnet's record (`icmp-fast`) holds the
/// address of a host exactly when that host answered ICMP echo.
pub proof fn lemma_rebuilt_echo_hosts(icmp_texts: Seq<String>, hosts: Seq<HostProbeRecord>, o: u8)
    requires
        describes(icmp_texts, selected_octets(hosts, OctetSelector::Icmp)),
    ensures
        texts_valid(icmp_texts),
        in_ranges(texts_bounds(icmp_texts), o) <==> exists|j: int| 0 <= j < hosts.len() && (#[trigger] hosts[j]).octet == o && hosts[j].icmp,
{
    lemma_described_texts(icmp_texts, selected_octets(hosts, OctetSelector::Icmp));
    if in_ranges(texts_bounds(icmp_texts), o) {
        assert(selected_octets(hosts, OctetSelector::Icmp).contains(o));
        let j = choose|j: int| 0 <= j < hosts.len() && selects(OctetSelector::Icmp, hosts[j]) && hosts[j].octet == o;
        assert(hosts[j].icmp);
    }
    if exists|j: int| 0 <= j < hosts.len() && (#[trigger] hosts[j]).octet == o && hosts[j].icmp {
        let j = choose|j: int| 0 <= j < hosts.len() && (#[trigger] hosts[j]).octet == o && hosts[j].icmp;
        assert(selects(OctetSelector::Icmp, hosts[j]));
        assert(selected_octets(hosts, OctetSelector::Icmp).contains(o));
    }
}

} // verus!

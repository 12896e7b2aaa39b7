//! Decisions and texts of the command-line commands: where a fast ICMP scan
//! takes its networks from, the names of scans, the code table, and the
//! address lists of a TCP scan of a file.
use vstd::prelude::*;
use crate::text::{dec, join, views, push_char, push_str, push_dec, chars_of, str_eq, join_strings, to_lowercase, spec_to_lowercase};
use crate::tcp_ping::TcpProbeStatus;
use crate::xray_geoip::GeoIpCodeInfo;
use crate::init::texts;

verus! {

broadcast use vstd::seq_lib::group_seq_properties;

// ---------------------------------------------------------------------------
// Where a fast ICMP scan takes its networks from
// ---------------------------------------------------------------------------

/// The networks of a fast ICMP scan.
#[derive(Clone, Debug)]
pub enum IcmpFastSource {
    /// The `subnets` of the configuration.
    ConfigSubnets,
    /// The networks of these `geoip.dat` codes.
    Geoip(Vec<String>),
    /// The network list in this file.
    File(String),
}

/// Why a fast ICMP scan cannot start.
#[derive(Clone, Copy, Debug, PartialEq, Eq, Structural)]
pub enum IcmpFastError {
    /// `geoip` without codes, and none configured.
    NoCodes,
}

/// The source the arguments of `icmp-fast` name: none means the configured
/// subnets; `geoip` or `geoip-scan` the codes that follow (or the configured
/// codes, an error when there are none); `subnets` the file that follows (or
/// the configured subnets); anything else a file.
pub open spec fn icmp_fast_choice(args: Seq<Seq<char>>, config_codes: Seq<Seq<char>>) -> Result<(nat, Seq<Seq<char>>), IcmpFastError> {
    if args.len() == 0 {
        Ok((0, Seq::empty()))
    } else if args[0] == "geoip"@ || args[0] == "geoip-scan"@ {
        let codes = if args.len() > 1 { args.skip(1) } else { config_codes };
        if codes.len() == 0 {
            Err(IcmpFastError::NoCodes)
        } else {
            Ok((1, codes))
        }
    } else if args[0] == "subnets"@ {
        if args.len() > 1 {
            Ok((2, seq![args[1]]))
        } else {
            Ok((0, Seq::empty()))
        }
    } else {
        Ok((2, seq![args[0]]))
    }
}

/// The codes `geoip-scan` scans: those given on the command line, else the
/// configured ones; `None` when both lists are empty.
pub fn geoip_scan_codes(args: Vec<String>, config_codes: Vec<String>) -> (r: Option<Vec<String>>)
    ensures
        r is None <==> (args@.len() == 0 && config_codes@.len() == 0),
        r matches Some(c) ==> c@ == if args@.len() > 0 {
            args@
        } else {
            config_codes@
        },
{
    let codes = if args.len() > 0 {
        args
    } else {
        config_codes
    };
    if codes.len() == 0 {
        None
    } else {
        Some(codes)
    }
}

/// The kind and the texts a source carries, as in [`icmp_fast_choice`]: 0 for
/// the configured subnets, 1 with the codes, 2 with the file.
pub open spec fn source_parts(s: IcmpFastSource) -> (nat, Seq<Seq<char>>) {
    match s {
        IcmpFastSource::ConfigSubnets => (0, Seq::empty()),
        IcmpFastSource::Geoip(codes) => (1, views(codes@)),
        IcmpFastSource::File(path) => (2, seq![path@]),
    }
}

fn copy_strings_from(v: &Vec<String>, start: usize) -> (r: Vec<String>)
    requires
        start <= v@.len(),
    ensures
        views(r@) == views(v@).skip(start as int),
{
    let mut r: Vec<String> = Vec::new();
    let mut i = start;
    while i < v.len()
        invariant
            start <= i <= v@.len(),
            views(r@) == views(v@).subrange(start as int, i as int),
        decreases v@.len() - i,
    {
        let s = v[i].clone();
        let ghost before = r@;
        r.push(s);
        assert(views(r@) =~= views(before).push(s@));
        assert(views(v@).subrange(start as int, i + 1) =~= views(v@).subrange(start as int, i as int).push(views(v@)[i as int]));
        i = i + 1;
    }
    assert(views(v@).subrange(start as int, v@.len() as int) =~= views(v@).skip(start as int));
    r
}

/// The source the arguments of `icmp-fast` name (see [`icmp_fast_choice`]).
pub fn icmp_fast_source(args: &Vec<String>, config_codes: Vec<String>) -> (r: Result<IcmpFastSource, IcmpFastError>)
    ensures
        match icmp_fast_choice(views(args@), views(config_codes@)) {
            Ok(parts) => r matches Ok(s) && source_parts(s) == parts,
            Err(e) => r == Err::<IcmpFastSource, IcmpFastError>(e),
        },
{
    if args.len() == 0 {
        return Ok(IcmpFastSource::ConfigSubnets);
    }
    let first = args[0].as_str();
    assert(views(args@)[0] == first@);
    if str_eq(first, "geoip") || str_eq(first, "geoip-scan") {
        let codes = if args.len() > 1 { copy_strings_from(args, 1) } else { config_codes };
        if codes.len() == 0 {
            return Err(IcmpFastError::NoCodes);
        }
        Ok(IcmpFastSource::Geoip(codes))
    } else if str_eq(first, "subnets") {
        if args.len() > 1 {
            assert(views(args@)[1] == args@[1]@);
            let p = args[1].clone();
            let r = IcmpFastSource::File(p);
            assert(source_parts(r).1 =~= seq![views(args@)[1]]);
            Ok(r)
        } else {
            Ok(IcmpFastSource::ConfigSubnets)
        }
    } else {
        let p = args[0].clone();
        let r = IcmpFastSource::File(p);
        assert(source_parts(r).1 =~= seq![views(args@)[0]]);
        Ok(r)
    }
}

// ---------------------------------------------------------------------------
// Names of scans
// ---------------------------------------------------------------------------

/// The name of a scan of `geoip.dat` codes: the prefix, then the chosen codes
/// joined by `_`, lower-cased (`geoip_ru_by`).
pub open spec fn codes_scan_name(prefix: Seq<char>, matched: Seq<Seq<char>>) -> Seq<char> {
    prefix + spec_to_lowercase(join(matched, "_"@))
}

/// The name of a scan of the chosen codes, after `prefix`.
pub fn geoip_scan_name(prefix: &str, matched: &Vec<String>) -> (r: String)
    ensures
        r@ == codes_scan_name(prefix@, views(matched@)),
{
    let joined = join_strings(matched, "_");
    let lower = to_lowercase(joined.as_str());
    let mut s = String::new();
    push_str(&mut s, prefix);
    push_str(&mut s, lower.as_str());
    s
}

// ---------------------------------------------------------------------------
// The code table
// ---------------------------------------------------------------------------

/// `s` padded with spaces on the right to `w` characters (`{:<w}`).
pub open spec fn left_aligned(s: Seq<char>, w: nat) -> Seq<char> {
    if s.len() < w {
        s + Seq::new((w - s.len()) as nat, |i: int| ' ')
    } else {
        s
    }
}

/// `s` padded with spaces on the left to `w` characters (`{:>w}`).
pub open spec fn right_aligned(s: Seq<char>, w: nat) -> Seq<char> {
    if s.len() < w {
        Seq::new((w - s.len()) as nat, |i: int| ' ') + s
    } else {
        s
    }
}

/// A line of the code table: the code in 24 columns, the three counts right
/// aligned in 10 columns each, one space between.
pub open spec fn code_line(code: Seq<char>, a: Seq<char>, b: Seq<char>, c: Seq<char>) -> Seq<char> {
    left_aligned(code, 24) + " "@ + right_aligned(a, 10) + " "@ + right_aligned(b, 10) + " "@ + right_aligned(c, 10)
}

/// The lines of the code table: the header, a rule of 60 dashes, one line per code.
pub open spec fn code_table(codes: Seq<GeoIpCodeInfo>) -> Seq<Seq<char>> {
    seq![code_line("code"@, "cidr"@, "ipv4"@, "ipv6"@), Seq::new(60, |i: int| '-')] + codes.map_values(
        |c: GeoIpCodeInfo| code_line(c.code@, dec(c.cidr_count as nat), dec(c.ipv4_count as nat), dec(c.ipv6_count as nat)),
    )
}

fn push_spaces(s: &mut String, n: usize)
    ensures
        final(s)@ == old(s)@ + Seq::new(n as nat, |i: int| ' '),
{
    let mut k: usize = 0;
    while k < n
        invariant
            k <= n,
            s@ == old(s)@ + Seq::new(k as nat, |i: int| ' '),
        decreases n - k,
    {
        push_char(s, ' ');
        assert(Seq::new((k + 1) as nat, |i: int| ' ') =~= Seq::new(k as nat, |i: int| ' ').push(' '));
        assert(s@ =~= old(s)@ + Seq::new((k + 1) as nat, |i: int| ' '));
        k = k + 1;
    }
}

fn push_left(s: &mut String, t: &str, w: usize)
    ensures
        final(s)@ == old(s)@ + left_aligned(t@, w as nat),
{
    let n = chars_of(t).len();
    push_str(s, t);
    if n < w {
        push_spaces(s, w - n);
    }
    assert(final(s)@ =~= old(s)@ + left_aligned(t@, w as nat));
}

fn push_right(s: &mut String, t: &str, w: usize)
    ensures
        final(s)@ == old(s)@ + right_aligned(t@, w as nat),
{
    let n = chars_of(t).len();
    if n < w {
        push_spaces(s, w - n);
    }
    push_str(s, t);
    assert(final(s)@ =~= old(s)@ + right_aligned(t@, w as nat));
}

fn code_line_string(code: &str, a: &str, b: &str, c: &str) -> (r: String)
    ensures
        r@ == code_line(code@, a@, b@, c@),
{
    let mut s = String::new();
    push_left(&mut s, code, 24);
    push_str(&mut s, " ");
    push_right(&mut s, a, 10);
    push_str(&mut s, " ");
    push_right(&mut s, b, 10);
    push_str(&mut s, " ");
    push_right(&mut s, c, 10);
    assert(s@ =~= code_line(code@, a@, b@, c@));
    s
}

fn dec_text(n: usize) -> (r: String)
    ensures
        r@ == dec(n as nat),
{
    let mut s = String::new();
    push_dec(&mut s, n as u64);
    assert(s@ =~= dec(n as nat));
    s
}

/// The lines `geoip-list` prints for the codes of a file.
pub fn code_table_lines(codes: &Vec<GeoIpCodeInfo>) -> (lines: Vec<String>)
    ensures
        views(lines@) == code_table(codes@),
{
    let mut lines: Vec<String> = Vec::new();
    lines.push(code_line_string("code", "cidr", "ipv4", "ipv6"));
    let mut rule = String::new();
    let mut k: usize = 0;
    while k < 60
        invariant
            k <= 60,
            rule@ == Seq::new(k as nat, |i: int| '-'),
        decreases 60 - k,
    {
        push_char(&mut rule, '-');
        assert(rule@ =~= Seq::new((k + 1) as nat, |i: int| '-'));
        k = k + 1;
    }
    lines.push(rule);
    let ghost rows = codes@.map_values(
        |c: GeoIpCodeInfo| code_line(c.code@, dec(c.cidr_count as nat), dec(c.ipv4_count as nat), dec(c.ipv6_count as nat)),
    );
    let mut i: usize = 0;
    while i < codes.len()
        invariant
            i <= codes@.len(),
            rows == codes@.map_values(
                |c: GeoIpCodeInfo| code_line(c.code@, dec(c.cidr_count as nat), dec(c.ipv4_count as nat), dec(c.ipv6_count as nat)),
            ),
            views(lines@) == seq![code_line("code"@, "cidr"@, "ipv4"@, "ipv6"@), Seq::new(60, |i: int| '-')] + rows.take(i as int),
        decreases codes@.len() - i,
    {
        let c = &codes[i];
        let a = dec_text(c.cidr_count);
        let b = dec_text(c.ipv4_count);
        let d = dec_text(c.ipv6_count);
        let line = code_line_string(c.code.as_str(), a.as_str(), b.as_str(), d.as_str());
        let ghost before = views(lines@);
        lines.push(line);
        assert(views(lines@) =~= before.push(line@));
        assert(rows.take(i + 1) =~= rows.take(i as int).push(rows[i as int]));
        i = i + 1;
    }
    assert(rows.take(codes@.len() as int) =~= rows);
    lines
}

// ---------------------------------------------------------------------------
// TCP scan of an address file
// ---------------------------------------------------------------------------

/// Some probe shows a live host.
pub open spec fn any_alive(s: Seq<TcpProbeStatus>) -> bool {
    exists|i: int| 0 <= i < s.len() && s[i].spec_is_alive()
}

/// Some probe was refused quickly.
pub open spec fn any_rejected(s: Seq<TcpProbeStatus>) -> bool {
    exists|i: int| 0 <= i < s.len() && s[i] == TcpProbeStatus::Rejected
}

/// Whether the probes of an address show it live, and whether one was refused.
pub fn classify_statuses(statuses: &Vec<TcpProbeStatus>) -> (r: (bool, bool))
    ensures
        r.0 == any_alive(statuses@),
        r.1 == any_rejected(statuses@),
{
    let mut alive = false;
    let mut rejected = false;
    let mut i: usize = 0;
    while i < statuses.len()
        invariant
            i <= statuses@.len(),
            alive == exists|j: int| 0 <= j < i && statuses@[j].spec_is_alive(),
            rejected == exists|j: int| 0 <= j < i && statuses@[j] == TcpProbeStatus::Rejected,
        decreases statuses@.len() - i,
    {
        let st = statuses[i];
        if st.is_alive() {
            alive = true;
        }
        if st == TcpProbeStatus::Rejected {
            rejected = true;
        }
        i = i + 1;
    }
    (alive, rejected)
}

/// An address as the order of `IpAddr` sees it: the family (4 before 6), then
/// the address as a number.
pub open spec fn ip_before(a: (u8, u128), b: (u8, u128)) -> bool {
    a.0 < b.0 || (a.0 == b.0 && a.1 < b.1)
}

/// The addresses strictly increase in that order.
pub open spec fn ip_sorted(s: Seq<(u8, u128)>) -> bool {
    forall|i: int, j: int| 0 <= i < j < s.len() ==> ip_before(s[i], s[j])
}

fn ip_less(a: (u8, u128), b: (u8, u128)) -> (r: bool)
    ensures
        r == ip_before(a, b),
{
    a.0 < b.0 || (a.0 == b.0 && a.1 < b.1)
}

fn insert_ip(v: &mut Vec<(u8, u128)>, x: (u8, u128))
    requires
        ip_sorted(old(v)@),
    ensures
        ip_sorted(final(v)@),
        final(v)@.to_set() == old(v)@.to_set().insert(x),
{
    let mut i: usize = 0;
    while i < v.len() && ip_less(v[i], x)
        invariant
            i <= v@.len(),
            forall|j: int| 0 <= j < i ==> ip_before(v@[j], x),
        decreases v@.len() - i,
    {
        i = i + 1;
    }
    if i < v.len() && v[i].0 == x.0 && v[i].1 == x.1 {
        assert(v@[i as int] == x);
        assert(v@.to_set() =~= v@.to_set().insert(x));
        return;
    }
    let ghost before = v@;
    v.insert(i, x);
    proof {
        assert(v@ =~= before.take(i as int).push(x) + before.skip(i as int));
        assert forall|a: int, b: int| 0 <= a < b < v@.len() implies ip_before(v@[a], v@[b]) by {
            if b < i {
            } else if b == i {
            } else if a < i {
                assert(v@[b] == before[b - 1]);
                assert(i < before.len());
                assert(!ip_before(before[i as int], x));
                if b - 1 > i {
                    assert(ip_before(before[i as int], before[b - 1]));
                }
            } else if a == i {
                assert(v@[b] == before[b - 1]);
                assert(!ip_before(before[i as int], x));
                assert(before[i as int] != x);
                if b - 1 > i {
                    assert(ip_before(before[i as int], before[b - 1]));
                }
            } else {
                assert(v@[a] == before[a - 1]);
                assert(v@[b] == before[b - 1]);
            }
        }
        assert forall|y: (u8, u128)| v@.contains(y) <==> (before.contains(y) || y == x) by {
            if v@.contains(y) {
                let k = v@.index_of(y);
                if k < i {
                    assert(before[k] == y);
                } else if k > i {
                    assert(before[k - 1] == y);
                }
            }
            if before.contains(y) {
                let k = before.index_of(y);
                if k < i {
                    assert(v@[k] == y);
                } else {
                    assert(v@[k + 1] == y);
                }
            }
            if y == x {
                assert(v@[i as int] == x);
            }
        }
        assert(v@.to_set() =~= before.to_set().insert(x));
    }
}

/// The live and the refusing addresses of a TCP scan of a file, each sorted
/// and listed once.
pub struct TcpFileLists {
    pub alive: Vec<(u8, u128)>,
    pub rejected: Vec<(u8, u128)>,
}

impl TcpFileLists {
    /// Both lists sorted, without repeats.
    pub open spec fn wf(&self) -> bool {
        ip_sorted(self.alive@) && ip_sorted(self.rejected@)
    }

    /// Empty lists.
    pub fn new() -> (r: TcpFileLists)
        ensures
            r.wf(),
            r.alive@.len() == 0,
            r.rejected@.len() == 0,
    {
        TcpFileLists { alive: Vec::new(), rejected: Vec::new() }
    }

    /// Takes in the probes of one address: a refused probe puts it among the
    /// refusing addresses; a live probe without any refusal among the live ones.
    pub fn add_address(&mut self, ip: (u8, u128), statuses: &Vec<TcpProbeStatus>)
        requires
            old(self).wf(),
        ensures
            final(self).wf(),
            final(self).rejected@.to_set() == if any_rejected(statuses@) {
                old(self).rejected@.to_set().insert(ip)
            } else {
                old(self).rejected@.to_set()
            },
            final(self).alive@.to_set() == if any_alive(statuses@) && !any_rejected(statuses@) {
                old(self).alive@.to_set().insert(ip)
            } else {
                old(self).alive@.to_set()
            },
    {
        let (alive, rejected) = classify_statuses(statuses);
        if rejected {
            insert_ip(&mut self.rejected, ip);
        }
        if alive && !rejected {
            insert_ip(&mut self.alive, ip);
        }
    }
}

} // verus!

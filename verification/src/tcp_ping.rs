//! TCP probe outcomes and the text of probe targets.
use vstd::prelude::*;
use crate::text::{chars_of, trim_chars, string_of, trim, push_str, push_char, push_dec, dec};

verus! {

/// Outcome of one TCP probe.
#[derive(Clone, Copy, Debug, PartialEq, Eq, Structural)]
pub enum TcpProbeStatus {
    /// The connection (or the TLS request) succeeded.
    Open,
    /// It failed before the timeout: the port refused quickly.
    Rejected,
    /// It failed at or after the timeout.
    Timeout,
}

impl TcpProbeStatus {
    /// An open port and a quick refusal both show a live host.
    pub open spec fn spec_is_alive(self) -> bool {
        self is Open || self is Rejected
    }

    /// Whether the probe shows a live host.
    pub fn is_alive(self) -> (r: bool)
        ensures
            r == self.spec_is_alive(),
    {
        match self {
            TcpProbeStatus::Open => true,
            TcpProbeStatus::Rejected => true,
            TcpProbeStatus::Timeout => false,
        }
    }
}

/// The status of a probe from whether it succeeded and how long it took:
/// success is `Open`, a failure before the timeout `Rejected`, else `Timeout`.
pub open spec fn probe_status(ok: bool, elapsed_nanos: u64, timeout_nanos: u64) -> TcpProbeStatus {
    if ok {
        TcpProbeStatus::Open
    } else if elapsed_nanos < timeout_nanos {
        TcpProbeStatus::Rejected
    } else {
        TcpProbeStatus::Timeout
    }
}

/// Classifies a probe by its success and its duration (both in nanoseconds).
pub fn tcp_probe_status(ok: bool, elapsed_nanos: u64, timeout_nanos: u64) -> (r: TcpProbeStatus)
    ensures
        r == probe_status(ok, elapsed_nanos, timeout_nanos),
{
    if ok {
        TcpProbeStatus::Open
    } else if elapsed_nanos < timeout_nanos {
        TcpProbeStatus::Rejected
    } else {
        TcpProbeStatus::Timeout
    }
}

/// The reported round-trip time: the elapsed time, at most the timeout.
pub fn clamp_to_timeout(elapsed_nanos: u64, timeout_nanos: u64) -> (r: u64)
    ensures
        r == if elapsed_nanos > timeout_nanos { timeout_nanos } else { elapsed_nanos },
{
    if elapsed_nanos > timeout_nanos {
        timeout_nanos
    } else {
        elapsed_nanos
    }
}

// ---------------------------------------------------------------------------
// SNI host and probe URL
// ---------------------------------------------------------------------------

/// `https://`.
pub open spec fn https_scheme() -> Seq<char> {
    seq!['h', 't', 't', 'p', 's', ':', '/', '/']
}

/// `http://`.
pub open spec fn http_scheme() -> Seq<char> {
    seq!['h', 't', 't', 'p', ':', '/', '/']
}

/// `s` with every leading repetition of `p` removed (`str::trim_start_matches`).
pub open spec fn strip_all(s: Seq<char>, p: Seq<char>) -> Seq<char>
    decreases s.len(),
{
    if p.len() > 0 && p.len() <= s.len() && s.take(p.len() as int) == p {
        strip_all(s.skip(p.len() as int), p)
    } else {
        s
    }
}

/// The part of `s` before the first `c`, all of `s` where there is none
/// (the first item of `str::split(c)`).
pub open spec fn before_first(s: Seq<char>, c: char) -> Seq<char>
    decreases s.len(),
{
    if s.len() == 0 {
        s
    } else if s[0] == c {
        Seq::empty()
    } else {
        seq![s[0]] + before_first(s.drop_first(), c)
    }
}

/// The host name of an SNI setting: trimmed, without `https://` and `http://`
/// prefixes, without a path and without a port.
pub open spec fn sni_host(host: Seq<char>) -> Seq<char> {
    before_first(before_first(strip_all(strip_all(trim(host), https_scheme()), http_scheme()), '/'), ':')
}

fn strip_all_exec(s: Vec<char>, p: &Vec<char>) -> (r: Vec<char>)
    ensures
        r@ == strip_all(s@, p@),
    decreases s@.len(),
{
    if p.len() == 0 || p.len() > s.len() {
        return s;
    }
    let mut i: usize = 0;
    while i < p.len()
        invariant
            i <= p@.len(),
            p@.len() <= s@.len(),
            forall|j: int| 0 <= j < i ==> s@[j] == p@[j],
        decreases p@.len() - i,
    {
        if s[i] != p[i] {
            assert(s@.take(p@.len() as int)[i as int] != p@[i as int]);
            return s;
        }
        i = i + 1;
    }
    assert(s@.take(p@.len() as int) =~= p@);
    let mut rest: Vec<char> = Vec::new();
    let mut k: usize = p.len();
    while k < s.len()
        invariant
            p@.len() <= k <= s@.len(),
            rest@ == s@.subrange(p@.len() as int, k as int),
        decreases s@.len() - k,
    {
        rest.push(s[k]);
        assert(s@.subrange(p@.len() as int, k + 1) =~= s@.subrange(p@.len() as int, k as int).push(s@[k as int]));
        k = k + 1;
    }
    assert(rest@ =~= s@.skip(p@.len() as int));
    strip_all_exec(rest, p)
}

proof fn lemma_before_first(s: Seq<char>, c: char, i: int)
    requires
        0 <= i <= s.len(),
        forall|j: int| 0 <= j < i ==> s[j] != c,
        i < s.len() ==> s[i] == c,
    ensures
        before_first(s, c) == s.take(i),
    decreases s.len(),
{
    if s.len() > 0 && i > 0 {
        lemma_before_first(s.drop_first(), c, i - 1);
        assert(s.take(i) =~= seq![s[0]] + s.drop_first().take(i - 1));
    } else if s.len() == 0 {
        assert(s.take(i) =~= s);
    }
}

fn before_first_exec(s: &Vec<char>, c: char) -> (r: Vec<char>)
    ensures
        r@ == before_first(s@, c),
{
    let mut r: Vec<char> = Vec::new();
    let mut i: usize = 0;
    while i < s.len() && s[i] != c
        invariant
            i <= s@.len(),
            r@ == s@.take(i as int),
            forall|j: int| 0 <= j < i ==> s@[j] != c,
        decreases s@.len() - i,
    {
        r.push(s[i]);
        assert(s@.take(i + 1) =~= s@.take(i as int).push(s@[i as int]));
        i = i + 1;
    }
    proof {
        lemma_before_first(s@, c, i as int);
    }
    r
}

/// The host name of an SNI setting (see [`sni_host`]).
pub fn normalize_sni_host(host: &str) -> (r: String)
    ensures
        r@ == sni_host(host@),
{
    let https: Vec<char> = vec!['h', 't', 't', 'p', 's', ':', '/', '/'];
    let http: Vec<char> = vec!['h', 't', 't', 'p', ':', '/', '/'];
    assert(https@ =~= https_scheme());
    assert(http@ =~= http_scheme());
    let t = trim_chars(&chars_of(host));
    let a = strip_all_exec(t, &https);
    let b = strip_all_exec(a, &http);
    let c = before_first_exec(&b, '/');
    let d = before_first_exec(&c, ':');
    string_of(&d)
}

/// The URL a TLS probe requests: `https://host/` on port 443, else
/// `https://host:port/`, with the host normalized.
pub open spec fn sni_url(host: Seq<char>, port: u16) -> Seq<char> {
    if port == 443 {
        https_scheme() + sni_host(host) + seq!['/']
    } else {
        https_scheme() + sni_host(host) + seq![':'] + dec(port as nat) + seq!['/']
    }
}

/// The URL a TLS probe of `port` requests for an SNI setting.
pub fn sni_probe_url(host: &str, port: u16) -> (r: String)
    ensures
        r@ == sni_url(host@, port),
{
    let h = normalize_sni_host(host);
    let mut s = String::new();
    let scheme: Vec<char> = vec!['h', 't', 't', 'p', 's', ':', '/', '/'];
    let mut i: usize = 0;
    while i < scheme.len()
        invariant
            i <= scheme@.len(),
            scheme@ == https_scheme(),
            s@ == scheme@.take(i as int),
        decreases scheme@.len() - i,
    {
        push_char(&mut s, scheme[i]);
        assert(scheme@.take(i + 1) =~= scheme@.take(i as int).push(scheme@[i as int]));
        i = i + 1;
    }
    assert(scheme@.take(8) =~= https_scheme());
    push_str(&mut s, h.as_str());
    if port != 443 {
        push_char(&mut s, ':');
        push_dec(&mut s, port as u64);
    }
    push_char(&mut s, '/');
    assert(s@ =~= sni_url(host@, port));
    s
}

/// Whether `s` holds the character `c`.
pub fn has_char(s: &str, c: char) -> (r: bool)
    ensures
        r == s@.contains(c),
{
    let v = chars_of(s);
    let mut i: usize = 0;
    while i < v.len()
        invariant
            i <= v@.len(),
            v@ == s@,
            forall|j: int| 0 <= j < i ==> v@[j] != c,
        decreases v@.len() - i,
    {
        if v[i] == c {
            assert(s@[i as int] == c);
            return true;
        }
        i = i + 1;
    }
    false
}

/// The text a host name is resolved from: the address itself where it holds
/// a `:`, else the address with port 80.
pub open spec fn lookup_text(address: Seq<char>) -> Seq<char> {
    if address.contains(':') {
        address
    } else {
        address + seq![':', '8', '0']
    }
}

/// The text to resolve for an endpoint that is not an IPv4 address.
pub fn endpoint_lookup(address: &str) -> (r: String)
    ensures
        r@ == lookup_text(address@),
{
    let mut s = string_of(&chars_of(address));
    if !has_char(address, ':') {
        push_char(&mut s, ':');
        push_char(&mut s, '8');
        push_char(&mut s, '0');
    }
    assert(s@ =~= lookup_text(address@));
    s
}

} // verus!

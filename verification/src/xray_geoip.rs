//! Listing the codes of a `geoip.dat` file and collecting the IPv4 networks of
//! chosen codes.
use vstd::prelude::*;
use crate::geoip_dat::{CidrEntry, CidrView, GeoIpEntry, GeoIpView, geoip_list, total_cidrs, entries_view, decode_geoip_list};
use crate::ipv4::{Ipv4Net, registry, dedup_sorted, add_block, sorted_blocks};
use crate::sorting::{stably_sorted, keyed_by, item_views, stable_sort_by_text, lemma_stable_items};
use crate::text::{spec_to_lowercase, to_lowercase, chars_of, views};
use std::collections::HashSet;

verus! {

broadcast use vstd::std_specs::hash::group_hash_axioms;

/// Why a `geoip.dat` file could not be used.
#[derive(Clone, Copy, Debug, PartialEq, Eq, Structural)]
pub enum GeoIpError {
    /// The bytes are not a well-formed `GeoIPList` message.
    Decode,
    /// An IPv4 CIDR entry of a chosen code has this prefix length, over 32.
    InvalidPrefix(u32),
}

/// A code of the file with the number of its CIDR entries.
#[derive(Clone, Debug)]
pub struct GeoIpCodeInfo {
    pub code: String,
    pub cidr_count: usize,
    pub ipv4_count: usize,
    pub ipv6_count: usize,
}

/// Mathematical value of a [`GeoIpCodeInfo`].
pub struct CodeInfoView {
    pub code: Seq<char>,
    pub cidr_count: nat,
    pub ipv4_count: nat,
    pub ipv6_count: nat,
}

impl View for GeoIpCodeInfo {
    type V = CodeInfoView;

    open spec fn view(&self) -> CodeInfoView {
        CodeInfoView {
            code: self.code@,
            cidr_count: self.cidr_count as nat,
            ipv4_count: self.ipv4_count as nat,
            ipv6_count: self.ipv6_count as nat,
        }
    }
}

/// The IPv4 networks of the chosen codes, the chosen codes found, and the
/// number of CIDR entries of those codes that were not IPv4.
#[derive(Clone, Debug)]
pub struct GeoIpLoadResult {
    pub networks: Vec<Ipv4Net>,
    pub matched_codes: Vec<String>,
    pub skipped_ipv6: usize,
}

// ---------------------------------------------------------------------------
// Specification
// ---------------------------------------------------------------------------

/// The code of an entry: its `code`, or its country code where `code` is empty.
pub open spec fn code_of(e: GeoIpView) -> Seq<char> {
    if e.code.len() > 0 {
        e.code
    } else {
        e.country_code
    }
}

/// Number of CIDR entries whose address has `n` bytes.
pub open spec fn count_len(c: Seq<CidrView>, n: nat) -> nat
    decreases c.len(),
{
    if c.len() == 0 {
        0
    } else {
        count_len(c.drop_last(), n) + if c.last().ip.len() == n {
            1nat
        } else {
            0nat
        }
    }
}

/// What `list_codes` reports of an entry.
pub open spec fn info_of(e: GeoIpView) -> CodeInfoView {
    CodeInfoView {
        code: code_of(e),
        cidr_count: e.cidr.len(),
        ipv4_count: count_len(e.cidr, 4),
        ipv6_count: count_len(e.cidr, 16),
    }
}

/// The reports of all entries, in file order.
pub open spec fn infos_of(es: Seq<GeoIpView>) -> Seq<CodeInfoView> {
    es.map_values(|e: GeoIpView| info_of(e))
}

/// Codes are ordered by their lowercase form.
pub open spec fn info_key() -> spec_fn(CodeInfoView) -> Seq<char> {
    |i: CodeInfoView| spec_to_lowercase(i.code)
}

/// Texts are ordered by their lowercase form.
pub open spec fn lowercase_key() -> spec_fn(Seq<char>) -> Seq<char> {
    |s: Seq<char>| spec_to_lowercase(s)
}

/// The values of code reports.
pub open spec fn info_views(v: Seq<GeoIpCodeInfo>) -> Seq<CodeInfoView> {
    v.map_values(|c: GeoIpCodeInfo| c@)
}

/// The address of four bytes, most significant first.
pub open spec fn be_addr(ip: Seq<u8>) -> u32 {
    (ip[0] as int * 0x100_0000 + ip[1] as int * 0x1_0000 + ip[2] as int * 0x100 + ip[3] as int) as u32
}

/// The network of an IPv4 CIDR entry, held at its network address.
pub open spec fn cidr_net(c: CidrView) -> Ipv4Net {
    Ipv4Net { addr: Ipv4Net { addr: be_addr(c.ip), prefix: c.prefix as u8 }.spec_network(), prefix: c.prefix as u8 }
}

/// Progress of collecting networks: the networks met, in order, repeats
/// included; the chosen codes met; the non-IPv4 entries of chosen codes met.
pub struct LoadState {
    pub nets: Seq<Ipv4Net>,
    pub matched: Seq<Seq<char>>,
    pub skipped: nat,
}

/// Takes in the CIDR entries of a chosen code, in order: an entry whose
/// address is not 4 bytes long is skipped and counted, an IPv4 entry with a
/// prefix over 32 stops everything with that prefix, any other adds its network.
pub open spec fn add_cidrs(cs: Seq<CidrView>, st: LoadState) -> Result<LoadState, u32>
    decreases cs.len(),
{
    if cs.len() == 0 {
        Ok(st)
    } else {
        match add_cidrs(cs.drop_last(), st) {
            Err(p) => Err(p),
            Ok(s2) => {
                let c = cs.last();
                if c.ip.len() != 4 {
                    Ok(LoadState { nets: s2.nets, matched: s2.matched, skipped: s2.skipped + 1 })
                } else if c.prefix > 32 {
                    Err(c.prefix)
                } else {
                    Ok(LoadState { nets: s2.nets.push(cidr_net(c)), matched: s2.matched, skipped: s2.skipped })
                }
            },
        }
    }
}

/// A code is chosen when its lowercase form is that of a wanted code.
pub open spec fn is_wanted(code: Seq<char>, wanted: Seq<Seq<char>>) -> bool {
    exists|i: int| 0 <= i < wanted.len() && spec_to_lowercase(wanted[i]) == spec_to_lowercase(code)
}

/// Goes through the entries in file order, taking in those of chosen codes.
pub open spec fn load_entries(es: Seq<GeoIpView>, wanted: Seq<Seq<char>>) -> Result<LoadState, u32>
    decreases es.len(),
{
    if es.len() == 0 {
        Ok(LoadState { nets: Seq::empty(), matched: Seq::empty(), skipped: 0 })
    } else {
        match load_entries(es.drop_last(), wanted) {
            Err(p) => Err(p),
            Ok(st) => {
                let e = es.last();
                if is_wanted(code_of(e), wanted) {
                    add_cidrs(e.cidr, LoadState { nets: st.nets, matched: st.matched.push(code_of(e)), skipped: st.skipped })
                } else {
                    Ok(st)
                }
            },
        }
    }
}

// ---------------------------------------------------------------------------
// Entries
// ---------------------------------------------------------------------------

/// The code of an entry: its `code`, or its country code where `code` is empty.
pub fn entry_code(entry: &GeoIpEntry) -> (r: String)
    ensures
        r@ == code_of(entry@),
{
    if !entry.code.as_str().is_empty() {
        entry.code.clone()
    } else {
        entry.country_code.clone()
    }
}

/// The network of a CIDR entry: `None` where the address is not 4 bytes long,
/// an error where the prefix is over 32, else the network at its network address.
pub fn cidr_to_ipv4(cidr: &CidrEntry) -> (r: Result<Option<Ipv4Net>, GeoIpError>)
    ensures
        cidr.ip@.len() != 4 ==> r == Ok::<Option<Ipv4Net>, GeoIpError>(None),
        cidr.ip@.len() == 4 && cidr.prefix > 32 ==> r == Err::<Option<Ipv4Net>, GeoIpError>(GeoIpError::InvalidPrefix(cidr.prefix)),
        cidr.ip@.len() == 4 && cidr.prefix <= 32 ==> r == Ok::<Option<Ipv4Net>, GeoIpError>(Some(cidr_net(cidr@))),
{
    if cidr.ip.len() != 4 {
        return Ok(None);
    }
    if cidr.prefix > 32 {
        return Err(GeoIpError::InvalidPrefix(cidr.prefix));
    }
    let b0 = cidr.ip[0] as u32;
    let b1 = cidr.ip[1] as u32;
    let b2 = cidr.ip[2] as u32;
    let b3 = cidr.ip[3] as u32;
    let addr: u32 = b0 * 0x100_0000 + b1 * 0x1_0000 + b2 * 0x100 + b3;
    let prefix = cidr.prefix as u8;
    let raw = Ipv4Net { addr, prefix };
    Ok(Some(Ipv4Net { addr: raw.network(), prefix }))
}

fn count_ip_len(cidrs: &Vec<CidrEntry>, n: usize) -> (r: usize)
    ensures
        r == count_len(cidrs@.map_values(|c: CidrEntry| c@), n as nat),
{
    let ghost cs = cidrs@.map_values(|c: CidrEntry| c@);
    let mut r: usize = 0;
    let mut i: usize = 0;
    while i < cidrs.len()
        invariant
            i <= cidrs.len(),
            cs == cidrs@.map_values(|c: CidrEntry| c@),
            r == count_len(cs.take(i as int), n as nat),
            r <= i,
        decreases cidrs.len() - i,
    {
        assert(cs.take(i + 1).drop_last() =~= cs.take(i as int));
        assert(cs.take(i + 1).last() == cidrs@[i as int]@);
        if cidrs[i].ip.len() == n {
            r = r + 1;
        }
        i = i + 1;
    }
    assert(cs.take(cidrs.len() as int) =~= cs);
    r
}

fn info_for(entry: &GeoIpEntry) -> (r: GeoIpCodeInfo)
    ensures
        r@ == info_of(entry@),
{
    GeoIpCodeInfo {
        code: entry_code(entry),
        cidr_count: entry.cidr.len(),
        ipv4_count: count_ip_len(&entry.cidr, 4),
        ipv6_count: count_ip_len(&entry.cidr, 16),
    }
}

/// The codes of a `geoip.dat` file with the number of CIDR entries of each, in
/// all, of IPv4 (4 address bytes) and of IPv6 (16 address bytes), sorted
/// stably by the lowercase form of the code.
pub fn list_codes(data: &[u8]) -> (r: Result<Vec<GeoIpCodeInfo>, GeoIpError>)
    ensures
        match geoip_list(data@) {
            None => r == Err::<Vec<GeoIpCodeInfo>, GeoIpError>(GeoIpError::Decode),
            Some(es) => r matches Ok(v) && stably_sorted(infos_of(es), info_views(v@), info_key()),
        },
{
    let entries = match decode_geoip_list(data) {
        None => return Err(GeoIpError::Decode),
        Some(e) => e,
    };
    let ghost es = entries_view(entries@);
    let mut pairs: Vec<(Vec<char>, GeoIpCodeInfo)> = Vec::new();
    let mut i: usize = 0;
    while i < entries.len()
        invariant
            i <= entries.len(),
            es == entries_view(entries@),
            item_views(pairs@) == infos_of(es.take(i as int)),
            keyed_by(pairs@, info_key()),
        decreases entries.len() - i,
    {
        let info = info_for(&entries[i]);
        let key = chars_of(to_lowercase(info.code.as_str()).as_str());
        let ghost before = pairs@;
        pairs.push((key, info));
        proof {
            assert(es[i as int] == entries@[i as int]@);
            assert(item_views(pairs@) =~= item_views(before).push(info_of(es[i as int])));
            assert(infos_of(es.take(i + 1)) =~= infos_of(es.take(i as int)).push(info_of(es[i as int])));
            assert forall|q: int| 0 <= q < pairs@.len() implies (#[trigger] pairs@[q]).0@ == info_key()(pairs@[q].1@) by {
                if q < before.len() {
                    assert(pairs@[q] == before[q]);
                }
            }
        }
        i = i + 1;
    }
    assert(es.take(entries.len() as int) =~= es);
    let ghost unsorted = pairs@;
    let sorted = stable_sort_by_text(pairs);
    proof {
        lemma_stable_items(unsorted, sorted@, info_key());
    }
    let mut out: Vec<GeoIpCodeInfo> = Vec::new();
    let mut j: usize = 0;
    while j < sorted.len()
        invariant
            j <= sorted.len(),
            info_views(out@) == item_views(sorted@).take(j as int),
        decreases sorted.len() - j,
    {
        let p = &sorted[j].1;
        let c = GeoIpCodeInfo {
            code: p.code.clone(),
            cidr_count: p.cidr_count,
            ipv4_count: p.ipv4_count,
            ipv6_count: p.ipv6_count,
        };
        assert(c@ == item_views(sorted@)[j as int]);
        let ghost prev = out@;
        out.push(c);
        assert(info_views(out@) =~= info_views(prev).push(c@));
        assert(item_views(sorted@).take(j + 1) =~= item_views(sorted@).take(j as int).push(item_views(sorted@)[j as int]));
        j = j + 1;
    }
    assert(item_views(sorted@).take(sorted.len() as int) =~= item_views(sorted@));
    Ok(out)
}

// ---------------------------------------------------------------------------
// Collecting the networks of chosen codes
// ---------------------------------------------------------------------------

proof fn lemma_add_cidrs_err(cs: Seq<CidrView>, st: LoadState, j: int, p: u32)
    requires
        0 <= j <= cs.len(),
        add_cidrs(cs.take(j), st) == Err::<LoadState, u32>(p),
    ensures
        add_cidrs(cs, st) == Err::<LoadState, u32>(p),
    decreases cs.len(),
{
    if j < cs.len() {
        assert(cs.drop_last().take(j) =~= cs.take(j));
        lemma_add_cidrs_err(cs.drop_last(), st, j, p);
    } else {
        assert(cs.take(j) =~= cs);
    }
}

proof fn lemma_load_err(es: Seq<GeoIpView>, wanted: Seq<Seq<char>>, i: int, p: u32)
    requires
        0 <= i <= es.len(),
        load_entries(es.take(i), wanted) == Err::<LoadState, u32>(p),
    ensures
        load_entries(es, wanted) == Err::<LoadState, u32>(p),
    decreases es.len(),
{
    if i < es.len() {
        assert(es.drop_last().take(i) =~= es.take(i));
        lemma_load_err(es.drop_last(), wanted, i, p);
    } else {
        assert(es.take(i) =~= es);
    }
}

proof fn lemma_total_prefix(es: Seq<GeoIpView>, i: int)
    requires
        0 <= i <= es.len(),
    ensures
        total_cidrs(es.take(i)) <= total_cidrs(es),
    decreases es.len(),
{
    if i < es.len() {
        assert(es.drop_last().take(i) =~= es.take(i));
        lemma_total_prefix(es.drop_last(), i);
    } else {
        assert(es.take(i) =~= es);
    }
}

fn lowercase_all(items: &[String]) -> (r: Vec<String>)
    ensures
        r@.len() == items@.len(),
        forall|k: int| 0 <= k < r@.len() ==> (#[trigger] r@[k])@ == spec_to_lowercase(items@[k]@),
{
    let mut r: Vec<String> = Vec::new();
    let mut i: usize = 0;
    while i < items.len()
        invariant
            i <= items@.len(),
            r@.len() == i,
            forall|k: int| 0 <= k < r@.len() ==> (#[trigger] r@[k])@ == spec_to_lowercase(items@[k]@),
        decreases items@.len() - i,
    {
        r.push(to_lowercase(items[i].as_str()));
        i = i + 1;
    }
    r
}

fn contains_text(items: &Vec<String>, s: &String) -> (r: bool)
    ensures
        r == exists|k: int| 0 <= k < items@.len() && (#[trigger] items@[k])@ == s@,
{
    let mut i: usize = 0;
    while i < items.len()
        invariant
            i <= items@.len(),
            forall|k: int| 0 <= k < i ==> (#[trigger] items@[k])@ != s@,
        decreases items@.len() - i,
    {
        if items[i] == *s {
            return true;
        }
        i = i + 1;
    }
    false
}

/// Collects the IPv4 networks of the entries of a `geoip.dat` file whose code
/// has the lowercase form of a wanted code: each network at its network
/// address, once per network address and prefix length, in increasing order of
/// both; the chosen codes, sorted stably by their lowercase form; and the
/// number of CIDR entries of chosen codes that are not IPv4. An IPv4 entry of a
/// chosen code with a prefix over 32 makes it fail with that prefix.
pub fn load_ipv4_cidrs(data: &[u8], wanted_codes: &[String]) -> (r: Result<GeoIpLoadResult, GeoIpError>)
    ensures
        match geoip_list(data@) {
            None => r == Err::<GeoIpLoadResult, GeoIpError>(GeoIpError::Decode),
            Some(es) => match load_entries(es, views(wanted_codes@)) {
                Err(p) => r == Err::<GeoIpLoadResult, GeoIpError>(GeoIpError::InvalidPrefix(p)),
                Ok(st) => r matches Ok(res) && dedup_sorted(st.nets, res.networks@)
                    && stably_sorted(st.matched, views(res.matched_codes@), lowercase_key())
                    && res.skipped_ipv6 == st.skipped,
            },
        },
{
    let entries = match decode_geoip_list(data) {
        None => return Err(GeoIpError::Decode),
        Some(e) => e,
    };
    let ghost es = entries_view(entries@);
    let ghost wanted = views(wanted_codes@);
    let data_len = data.len();
    let lower = lowercase_all(wanted_codes);
    let mut matched: Vec<(Vec<char>, String)> = Vec::new();
    let mut skipped: usize = 0;
    let mut seen: HashSet<u64> = HashSet::new();
    let mut pairs: Vec<(u64, Ipv4Net)> = Vec::new();
    let ghost mut st = LoadState { nets: Seq::empty(), matched: Seq::empty(), skipped: 0 };
    proof {
        assert(es.take(0) =~= Seq::<GeoIpView>::empty());
        assert(item_views(matched@) =~= st.matched);
        assert(seen@ =~= Set::<u64>::empty());
    }
    let mut i: usize = 0;
    while i < entries.len()
        invariant
            i <= entries@.len(),
            es == entries_view(entries@),
            total_cidrs(es) <= data_len,
            geoip_list(data@) == Some(es),
            wanted == views(wanted_codes@),
            lower@.len() == wanted_codes@.len(),
            forall|k: int| 0 <= k < lower@.len() ==> (#[trigger] lower@[k])@ == spec_to_lowercase(wanted_codes@[k]@),
            load_entries(es.take(i as int), wanted) == Ok::<LoadState, u32>(st),
            registry(seen@, pairs@, st.nets),
            item_views(matched@) == st.matched,
            keyed_by(matched@, lowercase_key()),
            skipped == st.skipped,
            st.skipped <= total_cidrs(es.take(i as int)),
        decreases entries@.len() - i,
    {
        let e = &entries[i];
        let ghost ev = es[i as int];
        proof {
            assert(ev == e@);
            assert(es.take(i + 1).drop_last() =~= es.take(i as int));
            assert(es.take(i + 1).last() == ev);
            lemma_total_prefix(es, i + 1);
        }
        let code = entry_code(e);
        let lc = to_lowercase(code.as_str());
        if contains_text(&lower, &lc) {
            proof {
                let k = choose|k: int| 0 <= k < lower@.len() && (#[trigger] lower@[k])@ == lc@;
                assert(wanted[k] == wanted_codes@[k]@);
                assert(is_wanted(code_of(ev), wanted));
            }
            let key = chars_of(lc.as_str());
            let ghost before = matched@;
            let ghost stq = st;
            matched.push((key, code));
            proof {
                st = LoadState { nets: st.nets, matched: st.matched.push(code_of(ev)), skipped: st.skipped };
                assert(item_views(matched@) =~= item_views(before).push(code_of(ev)));
                assert forall|q: int| 0 <= q < matched@.len() implies (#[trigger] matched@[q]).0@ == lowercase_key()(matched@[q].1@) by {
                    if q < before.len() {
                        assert(matched@[q] == before[q]);
                    }
                }
            }
            let ghost stp = stq;
            let ghost st0 = st;
            let ghost cs = ev.cidr;
            let mut j: usize = 0;
            assert(cs.take(0) =~= Seq::<CidrView>::empty());
            while j < e.cidr.len()
                invariant
                    j <= e.cidr@.len(),
                    cs == e@.cidr,
                    cs.len() == e.cidr@.len(),
                    add_cidrs(cs.take(j as int), st0) == Ok::<LoadState, u32>(st),
                    registry(seen@, pairs@, st.nets),
                    st.matched == st0.matched,
                    item_views(matched@) == st.matched,
                    skipped == st.skipped,
                    st.skipped <= total_cidrs(es.take(i as int)) + j,
                    total_cidrs(es.take(i + 1)) == total_cidrs(es.take(i as int)) + cs.len(),
                    total_cidrs(es.take(i + 1)) <= total_cidrs(es),
                    total_cidrs(es) <= data_len,
                    geoip_list(data@) == Some(es),
                    wanted == views(wanted_codes@),
                    i < es.len(),
                    es == entries_view(entries@),
                    load_entries(es.take(i as int), wanted) == Ok::<LoadState, u32>(stp),
                    st0 == (LoadState { nets: stp.nets, matched: stp.matched.push(code_of(ev)), skipped: stp.skipped }),
                    is_wanted(code_of(ev), wanted),
                    es.take(i + 1).drop_last() == es.take(i as int),
                    es.take(i + 1).last() == ev,
                    ev.cidr == cs,
                decreases e.cidr@.len() - j,
            {
                proof {
                    assert(cs.take(j + 1).drop_last() =~= cs.take(j as int));
                    assert(cs.take(j + 1).last() == cs[j as int]);
                    assert(cs[j as int] == e.cidr@[j as int]@);
                }
                match cidr_to_ipv4(&e.cidr[j]) {
                    Err(err) => {
                        proof {
                            lemma_add_cidrs_err(cs, st0, j + 1, e.cidr@[j as int].prefix);
                            assert(load_entries(es.take(i + 1), wanted) == Err::<LoadState, u32>(e.cidr@[j as int].prefix));
                            lemma_load_err(es, wanted, i + 1, e.cidr@[j as int].prefix);
                        }
                        return Err(err);
                    },
                    Ok(None) => {
                        skipped = skipped + 1;
                        proof {
                            st = LoadState { nets: st.nets, matched: st.matched, skipped: st.skipped + 1 };
                        }
                    },
                    Ok(Some(net)) => {
                        add_block(&mut seen, &mut pairs, net, Ghost(st.nets));
                        proof {
                            st = LoadState { nets: st.nets.push(net), matched: st.matched, skipped: st.skipped };
                        }
                    },
                }
                j = j + 1;
            }
            assert(cs.take(cs.len() as int) =~= cs);
        } else {
            proof {
                if is_wanted(code_of(ev), wanted) {
                    let k = choose|k: int| 0 <= k < wanted.len() && spec_to_lowercase(wanted[k]) == spec_to_lowercase(code_of(ev));
                    assert(lower@[k]@ == lc@);
                }
            }
        }
        i = i + 1;
    }
    assert(es.take(entries.len() as int) =~= es);
    let networks = sorted_blocks(pairs, Ghost(seen@), Ghost(st.nets));
    let ghost unsorted = matched@;
    let sorted = stable_sort_by_text(matched);
    proof {
        lemma_stable_items(unsorted, sorted@, lowercase_key());
    }
    let mut codes: Vec<String> = Vec::new();
    let mut t: usize = 0;
    while t < sorted.len()
        invariant
            t <= sorted.len(),
            views(codes@) == item_views(sorted@).take(t as int),
        decreases sorted.len() - t,
    {
        let c = sorted[t].1.clone();
        let ghost prev = codes@;
        codes.push(c);
        assert(views(codes@) =~= views(prev).push(c@));
        assert(item_views(sorted@).take(t + 1) =~= item_views(sorted@).take(t as int).push(item_views(sorted@)[t as int]));
        t = t + 1;
    }
    assert(item_views(sorted@).take(sorted.len() as int) =~= item_views(sorted@));
    Ok(GeoIpLoadResult { networks, matched_codes: codes, skipped_ipv6: skipped })
}

} // verus!

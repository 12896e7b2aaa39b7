//! IPv4 networks in CIDR form, their text, and their expansion into `/24` blocks.
use vstd::prelude::*;
use crate::text::{dec, push_char, push_dec, views, chars_of, trim_chars, string_of, trim};
use crate::sorting::{distinct_keys, sort_by_first, lemma_sorted_distinct};
use std::collections::HashSet;

verus! {

broadcast use vstd::std_specs::hash::group_hash_axioms;

/// An IPv4 network: an address (not necessarily the network address) and a
/// prefix length, as `ipnetwork::Ipv4Network` holds them.
#[derive(Clone, Copy, Debug, PartialEq, Eq, Structural)]
pub struct Ipv4Net {
    pub addr: u32,
    pub prefix: u8,
}

/// The netmask of a prefix length: `prefix` leading one bits.
pub open spec fn mask_of(prefix: u8) -> u32 {
    if prefix == 0 {
        0
    } else {
        0xffff_ffffu32 << ((32 - prefix) as u32)
    }
}

/// Text of an address in dotted-quad notation.
pub open spec fn ip_text(a: u32) -> Seq<char> {
    dec((a / 0x100_0000) as nat) + seq!['.'] + dec(((a / 0x1_0000) % 256) as nat) + seq!['.'] + dec(
        ((a / 0x100) % 256) as nat,
    ) + seq!['.'] + dec((a % 256) as nat)
}

impl Ipv4Net {
    /// The prefix length is at most 32.
    pub open spec fn wf(self) -> bool {
        self.prefix <= 32
    }

    /// Lowest address of the network.
    pub open spec fn spec_network(self) -> u32 {
        self.addr & mask_of(self.prefix)
    }

    /// Highest address of the network.
    pub open spec fn spec_broadcast(self) -> u32 {
        self.addr | !mask_of(self.prefix)
    }

    /// Whether `x` lies in the network.
    pub open spec fn holds(self, x: u32) -> bool {
        x & mask_of(self.prefix) == self.spec_network()
    }

    /// Identity of the network as a number: network address, then prefix length.
    pub open spec fn spec_key(self) -> u64 {
        (self.spec_network() as int * 256 + self.prefix as int) as u64
    }

    /// Text of the network, `address/prefix` (as `Display` of `Ipv4Network` prints it).
    pub open spec fn text(self) -> Seq<char> {
        ip_text(self.addr) + seq!['/'] + dec(self.prefix as nat)
    }

    /// The network address.
    pub fn network(&self) -> (n: u32)
        requires
            self.wf(),
        ensures
            n == self.spec_network(),
    {
        self.addr & mask(self.prefix)
    }

    /// The broadcast address.
    pub fn broadcast(&self) -> (b: u32)
        requires
            self.wf(),
        ensures
            b == self.spec_broadcast(),
    {
        self.addr | !mask(self.prefix)
    }

    /// The key of the network, ordering networks by network address, then prefix.
    pub fn key(&self) -> (k: u64)
        requires
            self.wf(),
        ensures
            k == self.spec_key(),
    {
        (self.network() as u64) * 256 + (self.prefix as u64)
    }

    /// `address/prefix` text.
    pub fn to_string(&self) -> (s: String)
        ensures
            s@ == self.text(),
    {
        let mut s = String::new();
        push_ip(&mut s, self.addr);
        push_char(&mut s, '/');
        push_dec(&mut s, self.prefix as u64);
        assert(s@ =~= self.text());
        s
    }
}

/// The netmask of a prefix length.
pub fn mask(prefix: u8) -> (m: u32)
    requires
        prefix <= 32,
    ensures
        m == mask_of(prefix),
{
    if prefix == 0 {
        0
    } else {
        let s: u32 = (32 - prefix) as u32;
        0xffff_ffffu32 << s
    }
}

/// Appends the dotted-quad text of an address.
pub fn push_ip(s: &mut String, a: u32)
    ensures
        final(s)@ == old(s)@ + ip_text(a),
{
    push_dec(s, (a / 0x100_0000) as u64);
    push_char(s, '.');
    push_dec(s, ((a / 0x1_0000) % 256) as u64);
    push_char(s, '.');
    push_dec(s, ((a / 0x100) % 256) as u64);
    push_char(s, '.');
    push_dec(s, (a % 256) as u64);
    assert(s@ =~= old(s)@ + ip_text(a));
}

/// The dotted-quad text of an address.
pub fn ip_string(a: u32) -> (s: String)
    ensures
        s@ == ip_text(a),
{
    let mut s = String::new();
    push_ip(&mut s, a);
    assert(s@ =~= ip_text(a));
    s
}

// ---------------------------------------------------------------------------
// Bit facts about prefix masks
// ---------------------------------------------------------------------------

proof fn lemma_mask_bits(a: u32, x: u32, s: u32, m: u32)
    by (bit_vector)
    requires
        s <= 32,
        s < 32 ==> m == 0xffff_ffffu32 << s,
        s == 32 ==> m == 0,
    ensures
        (x & m == a & m) <==> ((a & m) <= x && x <= (a | !m)),
        (a | !m) - (a & m) == !m,
{
}

proof fn lemma_block_bits(a: u32, s: u32, m: u32)
    by (bit_vector)
    requires
        8 <= s <= 32,
        s < 32 ==> m == 0xffff_ffffu32 << s,
        s == 32 ==> m == 0,
    ensures
        (a & m) & 0xffu32 == 0,
        (a | !m) & 0xffu32 == 0xffu32,
        ((a | !m) & 0xffff_ff00u32) == (a | !m) - 255u32,
        (a & m) <= ((a | !m) & 0xffff_ff00u32),
{
}

proof fn lemma_low_byte_mod(x: u32)
    by (bit_vector)
    ensures
        x & 0xffu32 == x % 256,
{
}

/// Membership in a network is the address range from its network address to its
/// broadcast address.
pub proof fn lemma_holds_range(n: Ipv4Net, x: u32)
    requires
        n.wf(),
    ensures
        n.holds(x) <==> n.spec_network() <= x <= n.spec_broadcast(),
        n.spec_broadcast() - n.spec_network() == !mask_of(n.prefix),
{
    let s: u32 = (32 - n.prefix) as u32;
    lemma_mask_bits(n.addr, x, s, mask_of(n.prefix));
}

// ---------------------------------------------------------------------------
// Splitting into /24 blocks
// ---------------------------------------------------------------------------

/// The first address of the last `/24` block of a network shorter than `/24`.
pub open spec fn last_block(n: Ipv4Net) -> u32 {
    n.spec_broadcast() & 0xffff_ff00
}

/// The `/24` blocks of a network: the network itself when its prefix is 24 or
/// longer, otherwise every `/24` from its network address to its broadcast address.
pub open spec fn split24(n: Ipv4Net) -> Seq<Ipv4Net> {
    if n.prefix >= 24 {
        seq![n]
    } else {
        Seq::new(
            ((last_block(n) - n.spec_network()) / 256 + 1) as nat,
            |i: int| Ipv4Net { addr: (n.spec_network() + 256 * i) as u32, prefix: 24 },
        )
    }
}

proof fn lemma_split_bounds(n: Ipv4Net)
    requires
        n.wf(),
        n.prefix < 24,
    ensures
        n.spec_network() % 256 == 0,
        last_block(n) % 256 == 0,
        n.spec_network() <= last_block(n),
        last_block(n) == n.spec_broadcast() - 255,
{
    let s: u32 = (32 - n.prefix) as u32;
    lemma_block_bits(n.addr, s, mask_of(n.prefix));
    lemma_low_byte_mod(n.spec_network());
    lemma_low_byte_mod(last_block(n));
    lemma_block_aligned(n.spec_broadcast());
}

proof fn lemma_block_aligned(x: u32)
    by (bit_vector)
    ensures
        (x & 0xffff_ff00u32) & 0xffu32 == 0,
{
}

/// Law: the `/24` blocks of a network shorter than `/24` lie inside it, are
/// `/24`-aligned, increase by 256, and every address of the network falls in
/// one of them.
pub proof fn lemma_split24_partition(n: Ipv4Net)
    requires
        n.wf(),
        n.prefix < 24,
    ensures
        forall|i: int|
            0 <= i < split24(n).len() ==> {
                &&& (#[trigger] split24(n)[i]).prefix == 24
                &&& split24(n)[i].addr % 256 == 0
                &&& n.holds(split24(n)[i].addr)
                &&& n.holds((split24(n)[i].addr + 255) as u32)
            },
        forall|i: int, j: int|
            0 <= i < j < split24(n).len() ==> split24(n)[i].addr < split24(n)[j].addr,
        forall|x: u32|
            #![trigger n.holds(x)]
            n.holds(x) ==> exists|i: int|
                0 <= i < split24(n).len() && split24(n)[i].addr == x - x % 256,
{
    lemma_split_bounds(n);
    let st = n.spec_network();
    let lb = last_block(n);
    assert forall|i: int| 0 <= i < split24(n).len() implies {
        &&& (#[trigger] split24(n)[i]).prefix == 24
        &&& split24(n)[i].addr % 256 == 0
        &&& n.holds(split24(n)[i].addr)
        &&& n.holds((split24(n)[i].addr + 255) as u32)
    } by {
        let a = split24(n)[i].addr;
        assert(a == st + 256 * i);
        assert(a + 255 <= lb + 255);
        lemma_holds_range(n, a);
        lemma_holds_range(n, (a + 255) as u32);
    }
    assert forall|x: u32| #![trigger n.holds(x)] n.holds(x) implies exists|i: int|
        0 <= i < split24(n).len() && split24(n)[i].addr == x - x % 256 by {
        lemma_holds_range(n, x);
        let b = x - x % 256;
        let i = (b - st) / 256;
        assert(b <= lb);
        assert(split24(n)[i].addr == b);
    }
}

/// Splits a network into its `/24` blocks.
pub fn split_ipv4_to_24(net: Ipv4Net) -> (r: Vec<Ipv4Net>)
    requires
        net.wf(),
    ensures
        r@ == split24(net),
{
    if net.prefix >= 24 {
        return vec![net];
    }
    proof {
        lemma_split_bounds(net);
    }
    let start = net.network();
    let last = net.broadcast() & 0xffff_ff00u32;
    let ghost target = split24(net);
    let mut r: Vec<Ipv4Net> = Vec::new();
    let mut cur: u64 = start as u64;
    while cur <= last as u64
        invariant
            start == net.spec_network(),
            last == last_block(net),
            start % 256 == 0,
            last % 256 == 0,
            start <= last,
            target == split24(net),
            net.prefix < 24,
            cur == start + 256 * r@.len(),
            cur <= last + 256,
            r@ == target.take(r@.len() as int),
        decreases last + 256 - cur,
    {
        proof {
            assert(r@.len() < target.len());
        }
        r.push(Ipv4Net { addr: cur as u32, prefix: 24 });
        proof {
            assert(r@ =~= target.take(r@.len() as int));
        }
        cur = cur + 256;
    }
    assert(r@.len() == target.len());
    assert(r@ =~= target);
    r
}

// ---------------------------------------------------------------------------
// Parsing network text
// ---------------------------------------------------------------------------

/// What `str::parse::<ipnetwork::Ipv4Network>` gives for a text: the address
/// and the prefix length, or `None` where it returns an error.
pub uninterp spec fn spec_parse_ipv4_network(s: Seq<char>) -> Option<(u32, u8)>;

/// Calls `str::parse::<ipnetwork::Ipv4Network>` and gives back the address as a
/// number and the prefix length. The result is named by
/// `spec_parse_ipv4_network`, a function of the text alone; its prefix length is
/// at most 32, because `Ipv4Network::new` refuses longer ones.
#[verifier::external_body]
pub(crate) fn parse_ipv4_network(s: &str) -> (r: Option<Ipv4Net>)
    ensures
        r matches Some(n) ==> spec_parse_ipv4_network(s@) == Some((n.addr, n.prefix)),
        r is None ==> spec_parse_ipv4_network(s@) is None,
        r matches Some(n) ==> n.prefix <= 32,
{
    match s.parse::<ipnetwork::Ipv4Network>() {
        Ok(net) => Some(Ipv4Net { addr: u32::from(net.ip()), prefix: net.prefix() }),
        Err(_) => None,
    }
}

/// The network a text names, after trimming white space.
pub open spec fn parsed_net(line: Seq<char>) -> Option<Ipv4Net> {
    match spec_parse_ipv4_network(trim(line)) {
        Some((a, p)) => Some(Ipv4Net { addr: a, prefix: p }),
        None => None,
    }
}

/// A line of a network list that names a network: not blank and not a `#` comment.
pub open spec fn spec_is_cidr_line(line: Seq<char>) -> bool {
    trim(line).len() > 0 && trim(line)[0] != '#'
}

/// Whether a line of a network list names a network.
pub fn is_cidr_line(line: &str) -> (r: bool)
    ensures
        r == spec_is_cidr_line(line@),
{
    let chars = chars_of(line);
    let t = trim_chars(&chars);
    t.len() > 0 && t[0] != '#'
}

// ---------------------------------------------------------------------------
// Expanding a network list
// ---------------------------------------------------------------------------

/// The networks named by the network lines, in order.
pub open spec fn listed_nets(lines: Seq<Seq<char>>) -> Seq<Ipv4Net>
    decreases lines.len(),
{
    if lines.len() == 0 {
        Seq::empty()
    } else {
        let rest = listed_nets(lines.drop_last());
        if spec_is_cidr_line(lines.last()) && parsed_net(lines.last()) is Some {
            rest.push(parsed_net(lines.last())->0)
        } else {
            rest
        }
    }
}

/// Every network line of the list names a network.
pub open spec fn all_lines_parse(lines: Seq<Seq<char>>) -> bool {
    forall|i: int|
        0 <= i < lines.len() && spec_is_cidr_line(#[trigger] lines[i]) ==> parsed_net(lines[i]) is Some
}

/// All `/24` blocks of the networks, in order, repeats included.
pub open spec fn blocks_of(nets: Seq<Ipv4Net>) -> Seq<Ipv4Net>
    decreases nets.len(),
{
    if nets.len() == 0 {
        Seq::empty()
    } else {
        blocks_of(nets.drop_last()) + split24(nets.last())
    }
}

/// `e` is the first item of `all` with its key.
pub open spec fn first_with_key(all: Seq<Ipv4Net>, e: Ipv4Net) -> bool {
    exists|j: int|
        0 <= j < all.len() && all[j] == e && forall|k: int| 0 <= k < j ==> all[k].spec_key() != e.spec_key()
}

/// Some item of `r` has key `k`.
pub open spec fn key_listed(r: Seq<Ipv4Net>, k: u64) -> bool {
    exists|i: int| 0 <= i < r.len() && r[i].spec_key() == k
}

/// `r` lists, in increasing key order, the first block of `all` with each key.
pub open spec fn dedup_sorted(all: Seq<Ipv4Net>, r: Seq<Ipv4Net>) -> bool {
    &&& forall|i: int, j: int| 0 <= i < j < r.len() ==> r[i].spec_key() < r[j].spec_key()
    &&& forall|i: int| 0 <= i < r.len() ==> first_with_key(all, #[trigger] r[i])
    &&& forall|j: int|
        0 <= j < all.len() ==> key_listed(r, (#[trigger] all[j]).spec_key())
}

/// The bookkeeping of the expansion: `pairs` holds, keyed, the first block of
/// `all` with each key, every key of `all` once, and `seen` holds those keys.
pub open spec fn registry(seen: Set<u64>, pairs: Seq<(u64, Ipv4Net)>, all: Seq<Ipv4Net>) -> bool {
    &&& distinct_keys(pairs)
    &&& forall|k: u64| seen.contains(k) <==> exists|j: int| 0 <= j < pairs.len() && pairs[j].0 == k
    &&& forall|j: int| 0 <= j < pairs.len() ==> (#[trigger] pairs[j]).0 == pairs[j].1.spec_key()
    &&& forall|j: int| 0 <= j < pairs.len() ==> first_with_key(all, #[trigger] pairs[j].1)
    &&& forall|j: int|
        0 <= j < all.len() ==> exists|k: int| 0 <= k < pairs.len() && pairs[k].0 == (#[trigger] all[j]).spec_key()
}

pub(crate) fn add_block(seen: &mut HashSet<u64>, pairs: &mut Vec<(u64, Ipv4Net)>, sub: Ipv4Net, Ghost(prev): Ghost<Seq<Ipv4Net>>)
    requires
        registry(old(seen)@, old(pairs)@, prev),
        sub.wf(),
    ensures
        registry(final(seen)@, final(pairs)@, prev.push(sub)),
{
    let k = sub.key();
    let ghost next = prev.push(sub);
    let ghost old_pairs = pairs@;
    let ghost old_seen = seen@;
    let fresh = seen.insert(k);
    if fresh {
        pairs.push((k, sub));
        proof {
            assert forall|t: int| 0 <= t < pairs@.len() implies first_with_key(next, #[trigger] pairs@[t].1) by {
                if t < old_pairs.len() {
                    assert(pairs@[t] == old_pairs[t]);
                    let w = choose|w: int| 0 <= w < prev.len() && prev[w] == old_pairs[t].1 && forall|q: int| 0 <= q < w ==> prev[q].spec_key() != old_pairs[t].1.spec_key();
                    assert(next[w] == prev[w]);
                    assert(next[w] == pairs@[t].1);
                    assert forall|q: int| 0 <= q < w implies next[q].spec_key() != pairs@[t].1.spec_key() by {
                        assert(next[q] == prev[q]);
                    }
                } else {
                    let w = prev.len() as int;
                    assert(next[w] == sub);
                    assert forall|q: int| 0 <= q < w implies next[q].spec_key() != sub.spec_key() by {
                        let kk = choose|kk: int| 0 <= kk < old_pairs.len() && old_pairs[kk].0 == (#[trigger] prev[q]).spec_key();
                        assert(old_seen.contains(prev[q].spec_key()));
                        assert(prev[q] == next[q]);
                    }
                }
            }
            assert forall|a: int, b: int| 0 <= a < pairs@.len() && 0 <= b < pairs@.len() && a != b implies pairs@[a].0 != pairs@[b].0 by {
                if a < old_pairs.len() && b < old_pairs.len() {
                    assert(pairs@[a] == old_pairs[a]);
                    assert(pairs@[b] == old_pairs[b]);
                } else if a < old_pairs.len() {
                    assert(pairs@[a] == old_pairs[a]);
                    assert(old_seen.contains(old_pairs[a].0));
                } else {
                    assert(pairs@[b] == old_pairs[b]);
                    assert(old_seen.contains(old_pairs[b].0));
                }
            }
            assert forall|kq: u64| seen@.contains(kq) implies exists|q: int| 0 <= q < pairs@.len() && pairs@[q].0 == kq by {
                if kq != k {
                    let q = choose|q: int| 0 <= q < old_pairs.len() && old_pairs[q].0 == kq;
                    assert(pairs@[q] == old_pairs[q]);
                } else {
                    assert(pairs@[old_pairs.len() as int].0 == k);
                }
            }
            assert forall|kq: u64| (exists|q: int| 0 <= q < pairs@.len() && pairs@[q].0 == kq) implies seen@.contains(kq) by {
                let q = choose|q: int| 0 <= q < pairs@.len() && pairs@[q].0 == kq;
                if q < old_pairs.len() {
                    assert(pairs@[q] == old_pairs[q]);
                }
            }
            assert forall|t: int| 0 <= t < pairs@.len() implies (#[trigger] pairs@[t]).0 == pairs@[t].1.spec_key() by {
                if t < old_pairs.len() {
                    assert(pairs@[t] == old_pairs[t]);
                }
            }
            assert forall|t: int| 0 <= t < next.len() implies exists|kk: int|
                0 <= kk < pairs@.len() && pairs@[kk].0 == (#[trigger] next[t]).spec_key() by {
                if t < prev.len() {
                    assert(next[t] == prev[t]);
                    let kk = choose|kk: int| 0 <= kk < old_pairs.len() && old_pairs[kk].0 == (#[trigger] prev[t]).spec_key();
                    assert(pairs@[kk] == old_pairs[kk]);
                } else {
                    assert(next[t] == sub);
                    assert(pairs@[old_pairs.len() as int].0 == k);
                }
            }
        }
    } else {
        proof {
            assert forall|t: int| 0 <= t < pairs@.len() implies first_with_key(next, #[trigger] pairs@[t].1) by {
                let w = choose|w: int| 0 <= w < prev.len() && prev[w] == pairs@[t].1 && forall|q: int| 0 <= q < w ==> prev[q].spec_key() != pairs@[t].1.spec_key();
                assert(next[w] == prev[w]);
                assert(next[w] == pairs@[t].1);
                assert forall|q: int| 0 <= q < w implies next[q].spec_key() != pairs@[t].1.spec_key() by {
                    assert(next[q] == prev[q]);
                }
            }
            assert forall|t: int| 0 <= t < next.len() implies exists|kk: int|
                0 <= kk < pairs@.len() && pairs@[kk].0 == (#[trigger] next[t]).spec_key() by {
                if t < prev.len() {
                    assert(next[t] == prev[t]);
                } else {
                    assert(next[t] == sub);
                    assert(old_seen.contains(k));
                    let kk = choose|kk: int| 0 <= kk < old_pairs.len() && old_pairs[kk].0 == k;
                    assert(pairs@[kk].0 == sub.spec_key());
                }
            }
        }
    }
}

fn add_blocks(seen: &mut HashSet<u64>, pairs: &mut Vec<(u64, Ipv4Net)>, subs: &Vec<Ipv4Net>, Ghost(before): Ghost<Seq<Ipv4Net>>)
    requires
        registry(old(seen)@, old(pairs)@, before),
        forall|i: int| 0 <= i < subs@.len() ==> (#[trigger] subs@[i]).wf(),
    ensures
        registry(final(seen)@, final(pairs)@, before + subs@),
{
    let mut j: usize = 0;
    assert(before + subs@.take(0) =~= before);
    while j < subs.len()
        invariant
            j <= subs.len(),
            forall|i: int| 0 <= i < subs@.len() ==> (#[trigger] subs@[i]).wf(),
            registry(seen@, pairs@, before + subs@.take(j as int)),
        decreases subs.len() - j,
    {
        assert(before + subs@.take(j + 1) =~= (before + subs@.take(j as int)).push(subs@[j as int]));
        add_block(seen, pairs, subs[j], Ghost(before + subs@.take(j as int)));
        j = j + 1;
    }
    assert(subs@.take(subs@.len() as int) =~= subs@);
}

proof fn lemma_blocks_push(nets: Seq<Ipv4Net>, n: Ipv4Net)
    ensures
        blocks_of(nets.push(n)) == blocks_of(nets) + split24(n),
{
    assert(nets.push(n).drop_last() =~= nets);
}

/// The blocks of a registry, one per key, in increasing key order.
pub(crate) fn sorted_blocks(pairs: Vec<(u64, Ipv4Net)>, Ghost(seen): Ghost<Set<u64>>, Ghost(all): Ghost<Seq<Ipv4Net>>) -> (out: Vec<Ipv4Net>)
    requires
        registry(seen, pairs@, all),
    ensures
        dedup_sorted(all, out@),
{
    let mut pairs = pairs;
    let ghost unsorted = pairs@;
    sort_by_first(&mut pairs);
    proof {
        lemma_sorted_distinct(unsorted, pairs@);
    }
    let mut out: Vec<Ipv4Net> = Vec::new();
    let mut t: usize = 0;
    while t < pairs.len()
        invariant
            t <= pairs.len(),
            out@.len() == t,
            forall|q: int| 0 <= q < t ==> out@[q] == pairs@[q].1,
        decreases pairs.len() - t,
    {
        out.push(pairs[t].1);
        t = t + 1;
    }
    proof {
        assert forall|q: int| 0 <= q < pairs@.len() implies #[trigger] pairs@[q].0 == pairs@[q].1.spec_key() by {
            assert(pairs@.contains(pairs@[q]));
            assert(unsorted.contains(pairs@[q]));
            let w = unsorted.index_of(pairs@[q]);
            assert(unsorted[w] == pairs@[q]);
        }
        assert forall|a: int, b: int| 0 <= a < b < out@.len() implies out@[a].spec_key() < out@[b].spec_key() by {
            assert(pairs@[a].0 == pairs@[a].1.spec_key());
            assert(pairs@[b].0 == pairs@[b].1.spec_key());
        }
        assert forall|a: int| 0 <= a < out@.len() implies first_with_key(all, #[trigger] out@[a]) by {
            assert(pairs@.contains(pairs@[a]));
            assert(unsorted.contains(pairs@[a]));
            let w = unsorted.index_of(pairs@[a]);
            assert(unsorted[w] == pairs@[a]);
        }
        assert forall|j: int| 0 <= j < all.len() implies key_listed(out@, (#[trigger] all[j]).spec_key()) by {
            let kk = choose|kk: int| 0 <= kk < unsorted.len() && unsorted[kk].0 == all[j].spec_key();
            assert(unsorted.contains(unsorted[kk]));
            assert(pairs@.contains(unsorted[kk]));
            let a = pairs@.index_of(unsorted[kk]);
            assert(out@[a] == pairs@[a].1);
            assert(pairs@[a] == unsorted[kk]);
            assert(unsorted[kk].0 == unsorted[kk].1.spec_key());
            assert(out@[a].spec_key() == all[j].spec_key());
        }
        assert(forall|i: int, j: int| 0 <= i < j < out@.len() ==> out@[i].spec_key() < out@[j].spec_key());
        assert(forall|i: int| 0 <= i < out@.len() ==> first_with_key(all, #[trigger] out@[i]));
        assert(dedup_sorted(all, out@));
    }
    out
}

/// Expands a network list into its distinct `/24` blocks in increasing order.
/// Lines that do not name a network (blank lines, `#` comments) are skipped; a
/// network line that does not parse makes the whole expansion fail with the
/// first such line.
pub fn expand_to_24(networks: &Vec<String>) -> (r: Result<Vec<Ipv4Net>, String>)
    ensures
        r is Ok <==> all_lines_parse(views(networks@)),
        r matches Ok(v) ==> dedup_sorted(blocks_of(listed_nets(views(networks@))), v@),
        r matches Err(line) ==> exists|i: int|
            0 <= i < networks@.len() && networks@[i]@ == line@ && spec_is_cidr_line(line@)
                && parsed_net(line@) is None && all_lines_parse(#[trigger] views(networks@).take(i)),
{
    let ghost lines = views(networks@);
    let mut seen: HashSet<u64> = HashSet::new();
    let mut pairs: Vec<(u64, Ipv4Net)> = Vec::new();
    let mut i: usize = 0;
    proof {
        assert(lines.take(0) =~= Seq::<Seq<char>>::empty());
        assert(blocks_of(listed_nets(lines.take(0))) =~= Seq::<Ipv4Net>::empty());
    }
    while i < networks.len()
        invariant
            i <= networks.len(),
            lines == views(networks@),
            all_lines_parse(lines.take(i as int)),
            forall|q: int| 0 <= q < listed_nets(lines.take(i as int)).len() ==> (#[trigger] listed_nets(lines.take(i as int))[q]).wf(),
            registry(seen@, pairs@, blocks_of(listed_nets(lines.take(i as int)))),
        decreases networks.len() - i,
    {
        let ghost before = blocks_of(listed_nets(lines.take(i as int)));
        let ghost nets = listed_nets(lines.take(i as int));
        assert(lines.take(i + 1).drop_last() =~= lines.take(i as int));
        assert(lines.take(i + 1).last() == networks@[i as int]@);
        let line = networks[i].as_str();
        if is_cidr_line(line) {
            let chars = chars_of(line);
            let trimmed = string_of(&trim_chars(&chars));
            match parse_ipv4_network(trimmed.as_str()) {
                None => {
                    return Err(networks[i].clone());
                },
                Some(net) => {
                    assert(parsed_net(networks@[i as int]@) == Some(net));
                    let subs = split_ipv4_to_24(net);
                    assert(listed_nets(lines.take(i + 1)) == nets.push(net));
                    proof {
                        lemma_blocks_push(nets, net);
                        if net.prefix < 24 {
                            lemma_split24_partition(net);
                        }
                        assert forall|q: int| 0 <= q < subs@.len() implies (#[trigger] subs@[q]).wf() by {
                            if net.prefix >= 24 {
                                assert(subs@[q] == net);
                            }
                        }
                        assert forall|q: int| 0 <= q < listed_nets(lines.take(i + 1)).len() implies (#[trigger] listed_nets(lines.take(i + 1))[q]).wf() by {
                            if q < nets.len() {
                                assert(listed_nets(lines.take(i + 1))[q] == nets[q]);
                            }
                        }
                    }
                    add_blocks(&mut seen, &mut pairs, &subs, Ghost(before));
                },
            }
        } else {
            assert(listed_nets(lines.take(i + 1)) == nets);
        }
        assert(all_lines_parse(lines.take(i + 1))) by {
            assert forall|q: int| 0 <= q < lines.take(i + 1).len() && spec_is_cidr_line(#[trigger] lines.take(i + 1)[q]) implies parsed_net(lines.take(i + 1)[q]) is Some by {
                if q < i {
                    assert(lines.take(i + 1)[q] == lines.take(i as int)[q]);
                }
            }
        }
        i = i + 1;
    }
    assert(lines.take(networks.len() as int) =~= lines);
    let out = sorted_blocks(pairs, Ghost(seen@), Ghost(blocks_of(listed_nets(lines))));
    Ok(out)
}

} // verus!

//! Decoding of Xray/V2Ray `geoip.dat` files: a protobuf `GeoIPList` message of
//! `GeoIP` entries (country code, CIDR list, inverse-match flag, resource hash,
//! code), each `CIDR` being address bytes and a prefix length.
//!
//! Decoding follows protobuf's wire rules: varints of at most ten bytes, keys
//! with tag numbers of at least 1 and wire types 0 to 5, length-delimited
//! fields that must fit in their enclosing message, unknown fields skipped
//! (groups included, nested at most 100 deep), scalar fields where the last
//! occurrence wins, repeated messages appended, and UTF-8 text fields.
use vstd::prelude::*;
use vstd::utf8::{valid_utf8, decode_utf8};
use crate::text::string_from_utf8;

verus! {

// ---------------------------------------------------------------------------
// Decoded values
// ---------------------------------------------------------------------------

/// A CIDR entry: address bytes (4 for IPv4, 16 for IPv6) and prefix length.
pub struct CidrEntry {
    pub ip: Vec<u8>,
    pub prefix: u32,
}

/// A geoip entry: its country code, its CIDR list and its code.
pub struct GeoIpEntry {
    pub country_code: String,
    pub cidr: Vec<CidrEntry>,
    pub code: String,
}

/// Mathematical value of a CIDR entry.
pub struct CidrView {
    pub ip: Seq<u8>,
    pub prefix: u32,
}

/// Mathematical value of a geoip entry.
pub struct GeoIpView {
    pub country_code: Seq<char>,
    pub cidr: Seq<CidrView>,
    pub code: Seq<char>,
}

impl View for CidrEntry {
    type V = CidrView;

    open spec fn view(&self) -> CidrView {
        CidrView { ip: self.ip@, prefix: self.prefix }
    }
}

impl View for GeoIpEntry {
    type V = GeoIpView;

    open spec fn view(&self) -> GeoIpView {
        GeoIpView {
            country_code: self.country_code@,
            cidr: self.cidr@.map_values(|c: CidrEntry| c@),
            code: self.code@,
        }
    }
}

/// The values of a list of geoip entries.
pub open spec fn entries_view(v: Seq<GeoIpEntry>) -> Seq<GeoIpView> {
    v.map_values(|e: GeoIpEntry| e@)
}

/// Nesting depth protobuf decoding allows.
pub open spec fn recursion_limit() -> nat {
    100
}

// ---------------------------------------------------------------------------
// Varints and keys
// ---------------------------------------------------------------------------

/// `128^k`.
pub open spec fn pow128(k: nat) -> nat
    decreases k,
{
    if k == 0 {
        1
    } else {
        128 * pow128((k - 1) as nat)
    }
}

/// Continues decoding a varint that starts at `pos`, having read `k` bytes
/// worth `acc`. The value and the position after it, or `None` when the bytes
/// end first, the varint is longer than ten bytes, or it exceeds 64 bits.
pub open spec fn varint_from(d: Seq<u8>, pos: int, end: int, k: nat, acc: nat) -> Option<(nat, int)>
    decreases 10 - k,
{
    if k >= 10 || pos + k >= end {
        None
    } else {
        let b = d[pos + k];
        let acc2 = acc + (b % 128) as nat * pow128(k);
        if b < 128 {
            if k == 9 && b >= 2 {
                None
            } else {
                Some((acc2, pos + k + 1))
            }
        } else {
            varint_from(d, pos, end, k + 1, acc2)
        }
    }
}

/// The varint at `pos`, read within `[pos, end)`.
pub open spec fn varint_at(d: Seq<u8>, pos: int, end: int) -> Option<(nat, int)> {
    varint_from(d, pos, end, 0, 0)
}

/// The field key at `pos`: tag number, wire type, and the position after it.
/// Keys above `u32::MAX`, wire types above 5 and tag 0 are refused.
pub open spec fn key_at(d: Seq<u8>, pos: int, end: int) -> Option<(u32, u8, int)> {
    match varint_at(d, pos, end) {
        None => None,
        Some((v, p)) => if v > u32::MAX || v % 8 > 5 || v / 8 < 1 {
            None
        } else {
            Some(((v / 8) as u32, (v % 8) as u8, p))
        },
    }
}

/// A length-delimited value at `pos`: where its bytes start and stop.
pub open spec fn delimited_at(d: Seq<u8>, pos: int, end: int) -> Option<(int, int)> {
    match varint_at(d, pos, end) {
        None => None,
        Some((len, p)) => if p + len > end {
            None
        } else {
            Some((p, p + len))
        },
    }
}

proof fn lemma_pow128_bound(k: nat)
    requires
        k <= 9,
    ensures
        1 <= pow128(k) <= 0x8000_0000_0000_0000,
        k < 9 ==> pow128(k) * 128 <= 0x8000_0000_0000_0000,
{
    assert(pow128(0) == 1);
    assert(pow128(1) == 0x80);
    assert(pow128(2) == 0x4000);
    assert(pow128(3) == 0x20_0000);
    assert(pow128(4) == 0x1000_0000);
    assert(pow128(5) == 0x8_0000_0000);
    assert(pow128(6) == 0x400_0000_0000);
    assert(pow128(7) == 0x2_0000_0000_0000);
    assert(pow128(8) == 0x100_0000_0000_0000);
    assert(pow128(9) == 0x8000_0000_0000_0000);
}

proof fn lemma_varint_from_bounds(d: Seq<u8>, pos: int, end: int, k: nat, acc: nat)
    ensures
        varint_from(d, pos, end, k, acc) matches Some((v, p)) ==> pos + k < p <= end,
    decreases 10 - k,
{
    if !(k >= 10 || pos + k >= end) && d[pos + k] >= 128 {
        lemma_varint_from_bounds(d, pos, end, k + 1, acc + (d[pos + k] % 128) as nat * pow128(k));
    }
}

/// Decoded values stay within their bytes.
pub proof fn lemma_varint_bounds(d: Seq<u8>, pos: int, end: int)
    ensures
        varint_at(d, pos, end) matches Some((v, p)) ==> pos < p <= end,
        key_at(d, pos, end) matches Some((t, w, p)) ==> pos < p <= end,
        delimited_at(d, pos, end) matches Some((a, b)) ==> pos < a <= b <= end,
{
    lemma_varint_from_bounds(d, pos, end, 0, 0);
}

/// Decodes the varint at `pos` within `[pos, end)`.
pub fn decode_varint(data: &[u8], pos: usize, end: usize) -> (r: Option<(u64, usize)>)
    requires
        end <= data@.len(),
    ensures
        match varint_at(data@, pos as int, end as int) {
            None => r is None,
            Some((v, p)) => v <= u64::MAX && p <= end && r == Some((v as u64, p as usize)),
        },
{
    let mut k: usize = 0;
    let mut acc: u64 = 0;
    let mut scale: u64 = 1;
    proof {
        lemma_pow128_bound(0);
        lemma_varint_from_bounds(data@, pos as int, end as int, 0, 0);
    }
    while k < 10
        invariant
            k <= 10,
            end <= data@.len(),
            k <= 9 ==> scale == pow128(k as nat),
            acc < pow128(k as nat),
            k <= 9,
            varint_at(data@, pos as int, end as int) == varint_from(data@, pos as int, end as int, k as nat, acc as nat),
        decreases 10 - k,
    {
        proof {
            lemma_pow128_bound(k as nat);
        }
        if pos >= end || k >= end - pos {
            return None;
        }
        let b = data[pos + k];
        if b < 128 {
            if k == 9 && b >= 2 {
                return None;
            }
            proof {
                assert((b % 128) as nat * pow128(k as nat) <= 0x8000_0000_0000_0000) by (nonlinear_arith)
                    requires
                        k == 9 ==> b < 2,
                        k < 9 ==> pow128(k as nat) * 128 <= 0x8000_0000_0000_0000,
                        pow128(k as nat) <= 0x8000_0000_0000_0000,
                        b < 128,
                        k <= 9,
                {
                    if k == 9 {
                        assert((b % 128) as nat <= 1);
                    } else {
                        assert((b % 128) as nat * pow128(k as nat) <= 128 * pow128(k as nat));
                    }
                }
                if k < 9 {
                    assert(acc + (b % 128) as nat * pow128(k as nat) < pow128(k as nat) * 128) by (nonlinear_arith)
                        requires
                            acc < pow128(k as nat),
                            b < 128,
                    {
                        assert((b % 128) as nat * pow128(k as nat) <= 127 * pow128(k as nat));
                    }
                }
            }
            let v = acc + ((b % 128) as u64) * scale;
            return Some((v, pos + k + 1));
        }
        if k == 9 {
            assert(varint_from(data@, pos as int, end as int, 10, (acc + (b % 128) as nat * pow128(9)) as nat) is None);
            return None;
        }
        proof {
            assert(acc + (b % 128) as nat * pow128(k as nat) < pow128(k as nat) * 128) by (nonlinear_arith)
                requires
                    acc < pow128(k as nat),
                    b < 256,
            {
                assert((b % 128) as nat * pow128(k as nat) <= 127 * pow128(k as nat));
            }
            assert(pow128((k + 1) as nat) == 128 * pow128(k as nat));
        }
        acc = acc + ((b % 128) as u64) * scale;
        scale = scale * 128;
        k = k + 1;
    }
    None
}

/// Decodes the field key at `pos`.
pub fn decode_key(data: &[u8], pos: usize, end: usize) -> (r: Option<(u32, u8, usize)>)
    requires
        end <= data@.len(),
    ensures
        match key_at(data@, pos as int, end as int) {
            None => r is None,
            Some((t, w, p)) => r == Some((t, w, p as usize)),
        },
{
    match decode_varint(data, pos, end) {
        None => None,
        Some((v, p)) => {
            if v > 0xffff_ffff || v % 8 > 5 || v / 8 < 1 {
                None
            } else {
                Some(((v / 8) as u32, (v % 8) as u8, p))
            }
        },
    }
}

/// Decodes the bounds of the length-delimited value at `pos`.
pub fn decode_delimited(data: &[u8], pos: usize, end: usize) -> (r: Option<(usize, usize)>)
    requires
        end <= data@.len(),
    ensures
        match delimited_at(data@, pos as int, end as int) {
            None => r is None,
            Some((a, b)) => r == Some((a as usize, b as usize)),
        },
{
    proof {
        lemma_varint_bounds(data@, pos as int, end as int);
    }
    match decode_varint(data, pos, end) {
        None => None,
        Some((len, p)) => {
            if len > (end - p) as u64 {
                None
            } else {
                Some((p, p + len as usize))
            }
        },
    }
}

// ---------------------------------------------------------------------------
// Skipping unknown fields
// ---------------------------------------------------------------------------

/// Skips the value of a field with wire type `wire` at `pos`, where `depth`
/// more nesting levels are allowed. The position after the value.
pub open spec fn skip_value(d: Seq<u8>, pos: int, end: int, wire: u8, tag: u32, depth: nat) -> Option<int>
    decreases end - pos, 1nat,
{
    if depth == 0 {
        None
    } else if wire == 0 {
        match varint_at(d, pos, end) {
            None => None,
            Some((v, p)) => Some(p),
        }
    } else if wire == 1 {
        if pos + 8 <= end {
            Some(pos + 8)
        } else {
            None
        }
    } else if wire == 2 {
        match delimited_at(d, pos, end) {
            None => None,
            Some((a, b)) => Some(b),
        }
    } else if wire == 3 {
        if pos <= end {
            skip_group(d, pos, end, tag, (depth - 1) as nat)
        } else {
            None
        }
    } else if wire == 5 {
        if pos + 4 <= end {
            Some(pos + 4)
        } else {
            None
        }
    } else {
        None
    }
}

/// Skips the fields of a group with tag `tag` up to its end-group key.
pub open spec fn skip_group(d: Seq<u8>, pos: int, end: int, tag: u32, depth: nat) -> Option<int>
    decreases end - pos, 0nat,
{
    match key_at(d, pos, end) {
        None => None,
        Some((t, w, p1)) => if w == 4 {
            if t == tag {
                Some(p1)
            } else {
                None
            }
        } else if p1 <= pos || p1 > end {
            None
        } else {
            match skip_value(d, p1, end, w, t, depth) {
                None => None,
                Some(p2) => if p2 <= pos || p2 > end {
                    None
                } else {
                    skip_group(d, p2, end, tag, depth)
                },
            }
        },
    }
}

/// Skipping a value moves forward and stays within the bytes.
pub proof fn lemma_skip_bounds(d: Seq<u8>, pos: int, end: int, wire: u8, tag: u32, depth: nat)
    ensures
        skip_value(d, pos, end, wire, tag, depth) matches Some(p) ==> pos < p <= end,
    decreases end - pos, 1nat,
{
    lemma_varint_bounds(d, pos, end);
    if depth > 0 && wire == 3 && pos <= end {
        lemma_skip_group_bounds(d, pos, end, tag, (depth - 1) as nat);
    }
}

/// Skipping a group moves forward and stays within the bytes.
pub proof fn lemma_skip_group_bounds(d: Seq<u8>, pos: int, end: int, tag: u32, depth: nat)
    ensures
        skip_group(d, pos, end, tag, depth) matches Some(p) ==> pos < p <= end,
    decreases end - pos, 0nat,
{
    lemma_varint_bounds(d, pos, end);
    if let Some((t, w, p1)) = key_at(d, pos, end) {
        if w != 4 && !(p1 <= pos || p1 > end) {
            if let Some(p2) = skip_value(d, p1, end, w, t, depth) {
                if !(p2 <= pos || p2 > end) {
                    lemma_skip_group_bounds(d, p2, end, tag, depth);
                }
            }
        }
    }
}

fn skip_value_exec(data: &[u8], pos: usize, end: usize, wire: u8, tag: u32, depth: u32) -> (r: Option<usize>)
    requires
        end <= data@.len(),
        pos <= end,
    ensures
        match skip_value(data@, pos as int, end as int, wire, tag, depth as nat) {
            None => r is None,
            Some(p) => r == Some(p as usize),
        },
    decreases end - pos, 1nat,
{
    proof {
        lemma_varint_bounds(data@, pos as int, end as int);
    }
    if depth == 0 {
        None
    } else if wire == 0 {
        proof {
            lemma_skip_group_bounds(data@, pos as int, end as int, tag, (depth - 1) as nat);
        }
        match decode_varint(data, pos, end) {
            None => None,
            Some((_, p)) => Some(p),
        }
    } else if wire == 1 {
        if end - pos >= 8 {
            Some(pos + 8)
        } else {
            None
        }
    } else if wire == 2 {
        match decode_delimited(data, pos, end) {
            None => None,
            Some((_, b)) => Some(b),
        }
    } else if wire == 3 {
        skip_group_exec(data, pos, end, tag, depth - 1)
    } else if wire == 5 {
        if end - pos >= 4 {
            Some(pos + 4)
        } else {
            None
        }
    } else {
        None
    }
}

fn skip_group_exec(data: &[u8], pos: usize, end: usize, tag: u32, depth: u32) -> (r: Option<usize>)
    requires
        end <= data@.len(),
        pos <= end,
    ensures
        match skip_group(data@, pos as int, end as int, tag, depth as nat) {
            None => r is None,
            Some(p) => r == Some(p as usize),
        },
    decreases end - pos, 0nat,
{
    proof {
        lemma_varint_bounds(data@, pos as int, end as int);
        lemma_skip_group_bounds(data@, pos as int, end as int, tag, depth as nat);
    }
    match decode_key(data, pos, end) {
        None => None,
        Some((t, w, p1)) => {
            if w == 4 {
                if t == tag {
                    Some(p1)
                } else {
                    None
                }
            } else if p1 <= pos || p1 > end {
                None
            } else {
                proof {
                    lemma_skip_bounds(data@, p1 as int, end as int, w, t, depth as nat);
                }
                match skip_value_exec(data, p1, end, w, t, depth) {
                    None => None,
                    Some(p2) => {
                        if p2 <= pos || p2 > end {
                            None
                        } else {
                            skip_group_exec(data, p2, end, tag, depth)
                        }
                    },
                }
            }
        },
    }
}

// ---------------------------------------------------------------------------
// Messages
// ---------------------------------------------------------------------------

/// Text of a UTF-8 field, or `None` when its bytes are not valid UTF-8.
pub open spec fn utf8_text(b: Seq<u8>) -> Option<Seq<char>> {
    if valid_utf8(b) {
        Some(decode_utf8(b))
    } else {
        None
    }
}

/// The fields of a `CIDR` message in `[pos, end)`, applied to `acc`.
pub open spec fn cidr_fields(d: Seq<u8>, pos: int, end: int, depth: nat, acc: CidrView) -> Option<CidrView>
    decreases end - pos,
{
    if pos >= end {
        Some(acc)
    } else {
        match key_at(d, pos, end) {
            None => None,
            Some((tag, wire, p1)) => if p1 <= pos || p1 > end {
                None
            } else if tag == 1 {
                if wire != 2 {
                    None
                } else {
                    match delimited_at(d, p1, end) {
                        None => None,
                        Some((a, b)) => if b <= pos || b > end {
                            None
                        } else {
                            cidr_fields(d, b, end, depth, CidrView { ip: d.subrange(a, b), ..acc })
                        },
                    }
                }
            } else if tag == 2 {
                if wire != 0 {
                    None
                } else {
                    match varint_at(d, p1, end) {
                        None => None,
                        Some((v, p2)) => if p2 <= pos || p2 > end {
                            None
                        } else {
                            cidr_fields(d, p2, end, depth, CidrView { prefix: (v % 0x1_0000_0000) as u32, ..acc })
                        },
                    }
                }
            } else {
                match skip_value(d, p1, end, wire, tag, depth) {
                    None => None,
                    Some(p2) => if p2 <= pos || p2 > end {
                        None
                    } else {
                        cidr_fields(d, p2, end, depth, acc)
                    },
                }
            },
        }
    }
}

/// The `CIDR` message in `[pos, end)`, decoded at the given nesting allowance.
pub open spec fn cidr_at(d: Seq<u8>, pos: int, end: int, depth: nat) -> Option<CidrView> {
    cidr_fields(d, pos, end, depth, CidrView { ip: Seq::empty(), prefix: 0 })
}

/// The fields of a `GeoIP` message in `[pos, end)`, applied to `acc`.
pub open spec fn geoip_fields(d: Seq<u8>, pos: int, end: int, depth: nat, acc: GeoIpView) -> Option<GeoIpView>
    decreases end - pos,
{
    if pos >= end {
        Some(acc)
    } else {
        match key_at(d, pos, end) {
            None => None,
            Some((tag, wire, p1)) => if p1 <= pos || p1 > end {
                None
            } else if tag == 1 || tag == 5 || tag == 4 {
                if wire != 2 {
                    None
                } else {
                    match delimited_at(d, p1, end) {
                        None => None,
                        Some((a, b)) => if b <= pos || b > end {
                            None
                        } else if tag == 4 {
                            geoip_fields(d, b, end, depth, acc)
                        } else {
                            match utf8_text(d.subrange(a, b)) {
                                None => None,
                                Some(s) => if tag == 1 {
                                    geoip_fields(d, b, end, depth, GeoIpView { country_code: s, ..acc })
                                } else {
                                    geoip_fields(d, b, end, depth, GeoIpView { code: s, ..acc })
                                },
                            }
                        },
                    }
                }
            } else if tag == 2 {
                if wire != 2 || depth == 0 {
                    None
                } else {
                    match delimited_at(d, p1, end) {
                        None => None,
                        Some((a, b)) => if b <= pos || b > end {
                            None
                        } else {
                            match cidr_at(d, a, b, (depth - 1) as nat) {
                                None => None,
                                Some(c) => geoip_fields(d, b, end, depth, GeoIpView { cidr: acc.cidr.push(c), ..acc }),
                            }
                        },
                    }
                }
            } else if tag == 3 {
                if wire != 0 {
                    None
                } else {
                    match varint_at(d, p1, end) {
                        None => None,
                        Some((v, p2)) => if p2 <= pos || p2 > end {
                            None
                        } else {
                            geoip_fields(d, p2, end, depth, acc)
                        },
                    }
                }
            } else {
                match skip_value(d, p1, end, wire, tag, depth) {
                    None => None,
                    Some(p2) => if p2 <= pos || p2 > end {
                        None
                    } else {
                        geoip_fields(d, p2, end, depth, acc)
                    },
                }
            },
        }
    }
}

/// An empty `GeoIP` value.
pub open spec fn empty_geoip() -> GeoIpView {
    GeoIpView { country_code: Seq::empty(), cidr: Seq::empty(), code: Seq::empty() }
}

/// The `GeoIP` message in `[pos, end)`.
pub open spec fn geoip_at(d: Seq<u8>, pos: int, end: int, depth: nat) -> Option<GeoIpView> {
    geoip_fields(d, pos, end, depth, empty_geoip())
}

/// The fields of the top-level `GeoIPList` message from `pos`, applied to `acc`.
pub open spec fn list_fields(d: Seq<u8>, pos: int, acc: Seq<GeoIpView>) -> Option<Seq<GeoIpView>>
    decreases d.len() - pos,
{
    let end = d.len() as int;
    let depth = recursion_limit();
    if pos >= end {
        Some(acc)
    } else {
        match key_at(d, pos, end) {
            None => None,
            Some((tag, wire, p1)) => if p1 <= pos || p1 > end {
                None
            } else if tag == 1 {
                if wire != 2 {
                    None
                } else {
                    match delimited_at(d, p1, end) {
                        None => None,
                        Some((a, b)) => if b <= pos || b > end {
                            None
                        } else {
                            match geoip_at(d, a, b, (depth - 1) as nat) {
                                None => None,
                                Some(e) => list_fields(d, b, acc.push(e)),
                            }
                        },
                    }
                }
            } else {
                match skip_value(d, p1, end, wire, tag, depth) {
                    None => None,
                    Some(p2) => if p2 <= pos || p2 > end {
                        None
                    } else {
                        list_fields(d, p2, acc)
                    },
                }
            },
        }
    }
}

/// The entries of a `geoip.dat` file, or `None` where the bytes are not a
/// well-formed `GeoIPList` message.
pub open spec fn geoip_list(d: Seq<u8>) -> Option<Seq<GeoIpView>> {
    list_fields(d, 0, Seq::empty())
}

/// Total number of CIDR entries of a list of entries.
pub open spec fn total_cidrs(v: Seq<GeoIpView>) -> nat
    decreases v.len(),
{
    if v.len() == 0 {
        0
    } else {
        total_cidrs(v.drop_last()) + v.last().cidr.len()
    }
}

fn copy_bytes(data: &[u8], a: usize, b: usize) -> (r: Vec<u8>)
    requires
        a <= b <= data@.len(),
    ensures
        r@ == data@.subrange(a as int, b as int),
{
    let mut r: Vec<u8> = Vec::new();
    let mut i = a;
    while i < b
        invariant
            a <= i <= b,
            b <= data@.len(),
            r@ == data@.subrange(a as int, i as int),
        decreases b - i,
    {
        r.push(data[i]);
        assert(data@.subrange(a as int, i + 1) =~= data@.subrange(a as int, i as int).push(data@[i as int]));
        i = i + 1;
    }
    r
}

fn decode_cidr(data: &[u8], start: usize, end: usize, depth: u32) -> (r: Option<CidrEntry>)
    requires
        start <= end <= data@.len(),
    ensures
        match cidr_at(data@, start as int, end as int, depth as nat) {
            None => r is None,
            Some(c) => r matches Some(e) && e@ == c,
        },
{
    let mut ip: Vec<u8> = Vec::new();
    let mut prefix: u32 = 0;
    let mut pos = start;
    while pos < end
        invariant
            start <= pos <= end,
            end <= data@.len(),
            cidr_at(data@, start as int, end as int, depth as nat) == cidr_fields(
                data@,
                pos as int,
                end as int,
                depth as nat,
                CidrView { ip: ip@, prefix },
            ),
        decreases end - pos,
    {
        let ghost acc = CidrView { ip: ip@, prefix };
        proof {
            lemma_varint_bounds(data@, pos as int, end as int);
        }
        let (tag, wire, p1) = match decode_key(data, pos, end) {
            None => return None,
            Some(k) => k,
        };
        if p1 <= pos || p1 > end {
            return None;
        }
        proof {
            lemma_varint_bounds(data@, p1 as int, end as int);
            lemma_skip_bounds(data@, p1 as int, end as int, wire, tag, depth as nat);
        }
        if tag == 1 {
            if wire != 2 {
                return None;
            }
            match decode_delimited(data, p1, end) {
                None => return None,
                Some((a, b)) => {
                    if b <= pos || b > end {
                        return None;
                    }
                    ip = copy_bytes(data, a, b);
                    assert(CidrView { ip: ip@, prefix } == CidrView { ip: data@.subrange(a as int, b as int), ..acc });
                    pos = b;
                },
            }
        } else if tag == 2 {
            if wire != 0 {
                return None;
            }
            match decode_varint(data, p1, end) {
                None => return None,
                Some((v, p2)) => {
                    if p2 <= pos || p2 > end {
                        return None;
                    }
                    prefix = (v % 0x1_0000_0000) as u32;
                    pos = p2;
                },
            }
        } else {
            match skip_value_exec(data, p1, end, wire, tag, depth) {
                None => return None,
                Some(p2) => {
                    if p2 <= pos || p2 > end {
                        return None;
                    }
                    pos = p2;
                },
            }
        }
    }
    Some(CidrEntry { ip, prefix })
}

/// The view of a geoip entry being built.
pub open spec fn building(country_code: Seq<char>, cidr: Seq<CidrEntry>, code: Seq<char>) -> GeoIpView {
    GeoIpView { country_code, cidr: cidr.map_values(|c: CidrEntry| c@), code }
}

fn decode_geoip(data: &[u8], start: usize, end: usize, depth: u32) -> (r: Option<GeoIpEntry>)
    requires
        start <= end <= data@.len(),
    ensures
        match geoip_at(data@, start as int, end as int, depth as nat) {
            None => r is None,
            Some(g) => r matches Some(e) && e@ == g && e@.cidr.len() <= end - start,
        },
{
    let mut country_code = String::new();
    let mut code = String::new();
    let mut cidr: Vec<CidrEntry> = Vec::new();
    let mut pos = start;
    assert(cidr@.map_values(|c: CidrEntry| c@) =~= Seq::<CidrView>::empty());
    assert(country_code@ =~= Seq::<char>::empty());
    assert(code@ =~= Seq::<char>::empty());
    assert(building(country_code@, cidr@, code@) == empty_geoip());
    while pos < end
        invariant
            start <= pos <= end,
            end <= data@.len(),
            cidr@.len() <= pos - start,
            geoip_at(data@, start as int, end as int, depth as nat) == geoip_fields(
                data@,
                pos as int,
                end as int,
                depth as nat,
                building(country_code@, cidr@, code@),
            ),
        decreases end - pos,
    {
        let ghost acc = building(country_code@, cidr@, code@);
        proof {
            lemma_varint_bounds(data@, pos as int, end as int);
        }
        let (tag, wire, p1) = match decode_key(data, pos, end) {
            None => return None,
            Some(k) => k,
        };
        if p1 <= pos || p1 > end {
            return None;
        }
        proof {
            lemma_varint_bounds(data@, p1 as int, end as int);
            lemma_skip_bounds(data@, p1 as int, end as int, wire, tag, depth as nat);
        }
        if tag == 1 || tag == 5 || tag == 4 {
            if wire != 2 {
                return None;
            }
            match decode_delimited(data, p1, end) {
                None => return None,
                Some((a, b)) => {
                    if b <= pos || b > end {
                        return None;
                    }
                    if tag != 4 {
                        let bytes = copy_bytes(data, a, b);
                        match string_from_utf8(bytes) {
                            None => return None,
                            Some(s) => {
                                if tag == 1 {
                                    country_code = s;
                                } else {
                                    code = s;
                                }
                            },
                        }
                    }
                    pos = b;
                },
            }
        } else if tag == 2 {
            if wire != 2 || depth == 0 {
                return None;
            }
            match decode_delimited(data, p1, end) {
                None => return None,
                Some((a, b)) => {
                    if b <= pos || b > end {
                        return None;
                    }
                    match decode_cidr(data, a, b, depth - 1) {
                        None => return None,
                        Some(c) => {
                            let ghost before = cidr@;
                            cidr.push(c);
                            proof {
                                assert(cidr@.map_values(|c: CidrEntry| c@) =~= before.map_values(|c: CidrEntry| c@).push(c@));
                            }
                            pos = b;
                        },
                    }
                },
            }
        } else if tag == 3 {
            if wire != 0 {
                return None;
            }
            match decode_varint(data, p1, end) {
                None => return None,
                Some((_, p2)) => {
                    if p2 <= pos || p2 > end {
                        return None;
                    }
                    pos = p2;
                },
            }
        } else {
            match skip_value_exec(data, p1, end, wire, tag, depth) {
                None => return None,
                Some(p2) => {
                    if p2 <= pos || p2 > end {
                        return None;
                    }
                    pos = p2;
                },
            }
        }
    }
    Some(GeoIpEntry { country_code, cidr, code })
}

/// Decodes a `geoip.dat` file into its entries.
pub fn decode_geoip_list(data: &[u8]) -> (r: Option<Vec<GeoIpEntry>>)
    ensures
        match geoip_list(data@) {
            None => r is None,
            Some(v) => r matches Some(e) && entries_view(e@) == v && total_cidrs(v) <= data@.len(),
        },
{
    let end = data.len();
    let mut entries: Vec<GeoIpEntry> = Vec::new();
    let mut pos: usize = 0;
    assert(entries_view(entries@) =~= Seq::<GeoIpView>::empty());
    while pos < end
        invariant
            pos <= end,
            end == data@.len(),
            total_cidrs(entries_view(entries@)) <= pos,
            geoip_list(data@) == list_fields(data@, pos as int, entries_view(entries@)),
        decreases end - pos,
    {
        proof {
            lemma_varint_bounds(data@, pos as int, end as int);
        }
        let (tag, wire, p1) = match decode_key(data, pos, end) {
            None => return None,
            Some(k) => k,
        };
        if p1 <= pos || p1 > end {
            return None;
        }
        proof {
            lemma_varint_bounds(data@, p1 as int, end as int);
            lemma_skip_bounds(data@, p1 as int, end as int, wire, tag, recursion_limit());
        }
        if tag == 1 {
            if wire != 2 {
                return None;
            }
            match decode_delimited(data, p1, end) {
                None => return None,
                Some((a, b)) => {
                    if b <= pos || b > end {
                        return None;
                    }
                    match decode_geoip(data, a, b, 99) {
                        None => return None,
                        Some(e) => {
                            let ghost before = entries@;
                            entries.push(e);
                            proof {
                                assert(entries_view(entries@) =~= entries_view(before).push(e@));
                                assert(entries_view(entries@).drop_last() =~= entries_view(before));
                            }
                            pos = b;
                        },
                    }
                },
            }
        } else {
            match skip_value_exec(data, p1, end, wire, tag, 100) {
                None => return None,
                Some(p2) => {
                    if p2 <= pos || p2 > end {
                        return None;
                    }
                    pos = p2;
                },
            }
        }
    }
    Some(entries)
}

} // verus!

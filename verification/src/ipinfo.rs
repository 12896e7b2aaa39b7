//! The IP information table: which providers are asked, what each of their
//! answers puts in a row, and the text of the table.
use vstd::prelude::*;
use vstd::utf8::encode_utf8;
use crate::geoip::SubnetInfo;
use crate::text::{dec, join, push_char, push_str, push_dec, chars_of, views, str_eq};

verus! {

broadcast use vstd::seq_lib::group_seq_properties;

/// A source of IP information.
#[derive(Clone, Copy, Debug, PartialEq, Eq, Structural)]
pub enum Provider {
    IpApi,
    IpInfo,
    IpWhoIs,
    IpSb,
    IpApiCo,
    GeoIp,
}

/// The name a provider is configured by and shown with.
pub open spec fn provider_name(p: Provider) -> Seq<char> {
    match p {
        Provider::IpApi => "ip-api.com"@,
        Provider::IpInfo => "ipinfo.com"@,
        Provider::IpWhoIs => "ipwho.is"@,
        Provider::IpSb => "ip.sb"@,
        Provider::IpApiCo => "ipapi.co"@,
        Provider::GeoIp => "GeoIP"@,
    }
}

/// The providers in the order they are asked.
pub open spec fn provider_order() -> Seq<Provider> {
    seq![Provider::IpApi, Provider::IpInfo, Provider::IpWhoIs, Provider::IpSb, Provider::IpApiCo, Provider::GeoIp]
}

/// The name of a provider.
pub fn provider_label(p: Provider) -> (r: &'static str)
    ensures
        r@ == provider_name(p),
{
    match p {
        Provider::IpApi => "ip-api.com",
        Provider::IpInfo => "ipinfo.com",
        Provider::IpWhoIs => "ipwho.is",
        Provider::IpSb => "ip.sb",
        Provider::IpApiCo => "ipapi.co",
        Provider::GeoIp => "GeoIP",
    }
}

/// The configured providers, in the fixed order they are asked.
pub fn providers_to_query(configured: &Vec<String>) -> (r: Vec<Provider>)
    ensures
        r@ == provider_order().filter(|p: Provider| views(configured@).contains(provider_name(p))),
{
    let order: Vec<Provider> = vec![Provider::IpApi, Provider::IpInfo, Provider::IpWhoIs, Provider::IpSb, Provider::IpApiCo, Provider::GeoIp];
    assert(order@ =~= provider_order());
    let ghost f = |p: Provider| views(configured@).contains(provider_name(p));
    let mut r: Vec<Provider> = Vec::new();
    let mut i: usize = 0;
    while i < order.len()
        invariant
            i <= order@.len(),
            order@ == provider_order(),
            f == (|p: Provider| views(configured@).contains(provider_name(p))),
            r@ == order@.take(i as int).filter(f),
        decreases order@.len() - i,
    {
        let p = order[i];
        let name = provider_label(p);
        let mut found = false;
        let mut k: usize = 0;
        while k < configured.len()
            invariant
                k <= configured@.len(),
                name@ == provider_name(p),
                found == exists|j: int| 0 <= j < k && configured@[j]@ == name@,
            decreases configured@.len() - k,
        {
            if str_eq(configured[k].as_str(), name) {
                found = true;
            }
            k = k + 1;
        }
        proof {
            if found {
                let j = choose|j: int| 0 <= j < configured@.len() && configured@[j]@ == name@;
                assert(views(configured@)[j] == name@);
            }
            if views(configured@).contains(name@) {
                let j = views(configured@).index_of(name@);
                assert(configured@[j]@ == name@);
            }
            assert(found == f(p));
            assert(order@.take(i + 1) =~= order@.take(i as int).push(p));
            order@.take(i as int).lemma_filter_push(p, f);
        }
        if found {
            r.push(p);
        }
        i = i + 1;
    }
    assert(order@.take(6) =~= order@);
    r
}

// ---------------------------------------------------------------------------
// Rows
// ---------------------------------------------------------------------------

/// One row of the table.
#[derive(Clone, Debug)]
pub struct GeoInfo {
    pub provider: String,
    pub country_code: String,
    pub city: String,
    pub as_number: String,
    pub as_name: String,
    pub reverse: String,
}

/// The six cells of a row.
pub open spec fn cells(g: GeoInfo) -> Seq<Seq<char>> {
    seq![g.provider@, g.country_code@, g.city@, g.as_number@, g.as_name@, g.reverse@]
}

/// The text of an optional answer field, empty where it is missing.
pub open spec fn or_empty(v: Option<String>) -> Seq<char> {
    match v {
        Some(s) => s@,
        None => Seq::empty(),
    }
}

fn text_or_empty(v: Option<String>) -> (r: String)
    ensures
        r@ == or_empty(v),
{
    match v {
        Some(s) => s,
        None => String::new(),
    }
}

fn label(s: &str) -> (r: String)
    ensures
        r@ == s@,
{
    let mut r = String::new();
    push_str(&mut r, s);
    r
}

/// The header row.
pub fn header_row() -> (g: GeoInfo)
    ensures
        cells(g) == seq!["PROVIDER"@, "CC"@, "CITY"@, "ASN"@, "AS NAME"@, "PTR, DOMAIN, SUBNET"@],
{
    let g = GeoInfo {
        provider: label("PROVIDER"),
        country_code: label("CC"),
        city: label("CITY"),
        as_number: label("ASN"),
        as_name: label("AS NAME"),
        reverse: label("PTR, DOMAIN, SUBNET"),
    };
    assert(cells(g) =~= seq!["PROVIDER"@, "CC"@, "CITY"@, "ASN"@, "AS NAME"@, "PTR, DOMAIN, SUBNET"@]);
    g
}

/// The row of an ip-api.com answer.
pub fn ip_api_row(
    country_code: Option<String>,
    city: Option<String>,
    as_number: Option<String>,
    as_name: Option<String>,
    reverse: Option<String>,
) -> (g: GeoInfo)
    ensures
        cells(g) == seq![provider_name(Provider::IpApi), or_empty(country_code), or_empty(city), or_empty(as_number), or_empty(as_name), or_empty(reverse)],
{
    let g = GeoInfo {
        provider: label(provider_label(Provider::IpApi)),
        country_code: text_or_empty(country_code),
        city: text_or_empty(city),
        as_number: text_or_empty(as_number),
        as_name: text_or_empty(as_name),
        reverse: text_or_empty(reverse),
    };
    assert(cells(g) =~= seq![provider_name(Provider::IpApi), or_empty(country_code), or_empty(city), or_empty(as_number), or_empty(as_name), or_empty(reverse)]);
    g
}

/// The row of an ipinfo.com answer: the organization stands as AS number,
/// the host name as reverse name.
pub fn ipinfo_row(country: Option<String>, city: Option<String>, org: Option<String>, hostname: Option<String>) -> (g: GeoInfo)
    ensures
        cells(g) == seq![provider_name(Provider::IpInfo), or_empty(country), or_empty(city), or_empty(org), Seq::<char>::empty(), or_empty(hostname)],
{
    let g = GeoInfo {
        provider: label(provider_label(Provider::IpInfo)),
        country_code: text_or_empty(country),
        city: text_or_empty(city),
        as_number: text_or_empty(org),
        as_name: String::new(),
        reverse: text_or_empty(hostname),
    };
    assert(cells(g) =~= seq![provider_name(Provider::IpInfo), or_empty(country), or_empty(city), or_empty(org), Seq::<char>::empty(), or_empty(hostname)]);
    g
}

/// `AS<number> <name>`, 0 and empty where missing.
pub open spec fn as_text(asn: Option<u32>, name: Option<String>) -> Seq<char> {
    seq!['A', 'S'] + dec(match asn {
        Some(n) => n as nat,
        None => 0,
    }) + seq![' '] + or_empty(name)
}

fn as_string(asn: Option<u32>, name: Option<String>) -> (r: String)
    ensures
        r@ == as_text(asn, name),
{
    let mut s = String::new();
    push_char(&mut s, 'A');
    push_char(&mut s, 'S');
    push_dec(&mut s, match asn {
        Some(n) => n as u64,
        None => 0,
    });
    push_char(&mut s, ' ');
    let n = text_or_empty(name);
    push_str(&mut s, n.as_str());
    assert(s@ =~= as_text(asn, name));
    s
}

/// The row of an ipwho.is answer: `AS<asn> <isp>`, the domain as reverse name.
pub fn ipwhois_row(
    country_code: Option<String>,
    city: Option<String>,
    asn: Option<u32>,
    isp: Option<String>,
    domain: Option<String>,
) -> (g: GeoInfo)
    ensures
        cells(g) == seq![provider_name(Provider::IpWhoIs), or_empty(country_code), or_empty(city), as_text(asn, isp), Seq::<char>::empty(), or_empty(domain)],
{
    let g = GeoInfo {
        provider: label(provider_label(Provider::IpWhoIs)),
        country_code: text_or_empty(country_code),
        city: text_or_empty(city),
        as_number: as_string(asn, isp),
        as_name: String::new(),
        reverse: text_or_empty(domain),
    };
    assert(cells(g) =~= seq![provider_name(Provider::IpWhoIs), or_empty(country_code), or_empty(city), as_text(asn, isp), Seq::<char>::empty(), or_empty(domain)]);
    g
}

/// The row of an ip.sb answer: `AS<asn> <organization>`, no reverse name.
pub fn ipsb_row(country_code: Option<String>, city: Option<String>, asn: Option<u32>, asn_organization: Option<String>) -> (g: GeoInfo)
    ensures
        cells(g) == seq![provider_name(Provider::IpSb), or_empty(country_code), or_empty(city), as_text(asn, asn_organization), Seq::<char>::empty(), Seq::<char>::empty()],
{
    let g = GeoInfo {
        provider: label(provider_label(Provider::IpSb)),
        country_code: text_or_empty(country_code),
        city: text_or_empty(city),
        as_number: as_string(asn, asn_organization),
        as_name: String::new(),
        reverse: String::new(),
    };
    assert(cells(g) =~= seq![provider_name(Provider::IpSb), or_empty(country_code), or_empty(city), as_text(asn, asn_organization), Seq::<char>::empty(), Seq::<char>::empty()]);
    g
}

/// The row of an ipapi.co answer: `<asn> <org>`, the network as reverse name.
pub fn ipapi_co_row(
    country_code: Option<String>,
    city: Option<String>,
    asn: Option<String>,
    org: Option<String>,
    network: Option<String>,
) -> (g: GeoInfo)
    ensures
        cells(g) == seq![provider_name(Provider::IpApiCo), or_empty(country_code), or_empty(city), or_empty(asn) + seq![' '] + or_empty(org), Seq::<char>::empty(), or_empty(network)],
{
    let mut a = text_or_empty(asn);
    push_char(&mut a, ' ');
    let o = text_or_empty(org);
    push_str(&mut a, o.as_str());
    assert(a@ =~= or_empty(asn) + seq![' '] + or_empty(org));
    let g = GeoInfo {
        provider: label(provider_label(Provider::IpApiCo)),
        country_code: text_or_empty(country_code),
        city: text_or_empty(city),
        as_number: a,
        as_name: String::new(),
        reverse: text_or_empty(network),
    };
    assert(cells(g) =~= seq![provider_name(Provider::IpApiCo), or_empty(country_code), or_empty(city), or_empty(asn) + seq![' '] + or_empty(org), Seq::<char>::empty(), or_empty(network)]);
    g
}

/// The row of the local GeoIP databases: `AS<asn> <name>`, no reverse name.
pub fn geoip_row(info: &SubnetInfo) -> (g: GeoInfo)
    ensures
        cells(g) == seq![provider_name(Provider::GeoIp), info.country@, info.city@,
            seq!['A', 'S'] + dec(info.asn as nat) + seq![' '] + info.as_name@, Seq::<char>::empty(), Seq::<char>::empty()],
{
    let mut a = String::new();
    push_char(&mut a, 'A');
    push_char(&mut a, 'S');
    push_dec(&mut a, info.asn as u64);
    push_char(&mut a, ' ');
    push_str(&mut a, info.as_name.as_str());
    assert(a@ =~= seq!['A', 'S'] + dec(info.asn as nat) + seq![' '] + info.as_name@);
    let g = GeoInfo {
        provider: label(provider_label(Provider::GeoIp)),
        country_code: info.country.clone(),
        city: info.city.clone(),
        as_number: a,
        as_name: String::new(),
        reverse: String::new(),
    };
    assert(cells(g) =~= seq![provider_name(Provider::GeoIp), info.country@, info.city@,
        seq!['A', 'S'] + dec(info.asn as nat) + seq![' '] + info.as_name@, Seq::<char>::empty(), Seq::<char>::empty()]);
    g
}

/// An ip-api.com answer counts only with status `success`.
pub fn ip_api_status_ok(status: &str) -> (r: bool)
    ensures
        r == (status@ == "success"@),
{
    str_eq(status, "success")
}

/// An ipwho.is answer counts only when it says `success: true`.
pub fn ipwhois_success(success: Option<bool>) -> (r: bool)
    ensures
        r == (success == Some(true)),
{
    match success {
        Some(b) => b,
        None => false,
    }
}

// ---------------------------------------------------------------------------
// The table
// ---------------------------------------------------------------------------

/// The length of a text in bytes, as `str::len` gives it.
pub open spec fn byte_len(s: Seq<char>) -> usize {
    encode_utf8(s).len() as usize
}

/// The width of column `c`: the longest cell in bytes.
pub open spec fn col_width(rows: Seq<GeoInfo>, c: int) -> nat
    decreases rows.len(),
{
    if rows.len() == 0 {
        0
    } else {
        let w = col_width(rows.drop_last(), c);
        let b = byte_len(cells(rows.last())[c]) as nat;
        if b > w {
            b
        } else {
            w
        }
    }
}

/// The width of the rules: the column widths and 15 for the separators.
pub open spec fn rule_width(rows: Seq<GeoInfo>) -> nat {
    col_width(rows, 0) + col_width(rows, 1) + col_width(rows, 2) + col_width(rows, 3) + col_width(rows, 4)
        + col_width(rows, 5) + 15
}

/// `s` padded with spaces to `w` characters (`{:<w$}`).
pub open spec fn padded(s: Seq<char>, w: nat) -> Seq<char> {
    if s.len() < w {
        s + Seq::new((w - s.len()) as nat, |i: int| ' ')
    } else {
        s
    }
}

/// The text of a row: each cell padded to its column's width, ` | ` between.
pub open spec fn row_text(rows: Seq<GeoInfo>, g: GeoInfo) -> Seq<char> {
    join(Seq::new(6, |c: int| padded(cells(g)[c], col_width(rows, c))), " | "@)
}

/// A rule of `w` box-drawing characters.
pub open spec fn rule_text(w: nat) -> Seq<char> {
    Seq::new(w, |i: int| '─')
}

/// The lines of the table for its first `n` rows: a rule before each of the
/// first two rows, then each row.
pub open spec fn table_lines(rows: Seq<GeoInfo>, n: nat) -> Seq<Seq<char>>
    decreases n,
{
    if n == 0 {
        Seq::empty()
    } else {
        let before = table_lines(rows, (n - 1) as nat);
        let row = row_text(rows, rows[n - 1]);
        if n - 1 < 2 {
            before + seq![rule_text(rule_width(rows)), row]
        } else {
            before.push(row)
        }
    }
}

fn cell_of(g: &GeoInfo, c: usize) -> (r: &String)
    requires
        c < 6,
    ensures
        r@ == cells(*g)[c as int],
{
    if c == 0 {
        &g.provider
    } else if c == 1 {
        &g.country_code
    } else if c == 2 {
        &g.city
    } else if c == 3 {
        &g.as_number
    } else if c == 4 {
        &g.as_name
    } else {
        &g.reverse
    }
}

fn column_width(rows: &Vec<GeoInfo>, c: usize) -> (w: usize)
    requires
        c < 6,
    ensures
        w as nat == col_width(rows@, c as int),
{
    let mut w: usize = 0;
    let mut i: usize = 0;
    while i < rows.len()
        invariant
            i <= rows@.len(),
            c < 6,
            w as nat == col_width(rows@.take(i as int), c as int),
        decreases rows@.len() - i,
    {
        let b = cell_of(&rows[i], c).as_str().len();
        proof {
            assert(rows@.take(i + 1).drop_last() =~= rows@.take(i as int));
            assert(rows@.take(i + 1).last() == rows@[i as int]);
        }
        if b > w {
            w = b;
        }
        i = i + 1;
    }
    assert(rows@.take(rows@.len() as int) =~= rows@);
    w
}

fn push_padded(s: &mut String, t: &str, w: usize)
    ensures
        final(s)@ == old(s)@ + padded(t@, w as nat),
{
    push_str(s, t);
    let n = chars_of(t).len();
    let mut k = n;
    assert(s@ =~= old(s)@ + t@ + Seq::new((k - n) as nat, |i: int| ' '));
    while k < w
        invariant
            n == t@.len(),
            n <= k,
            k <= w || n >= w,
            n >= w ==> k == n,
            s@ == old(s)@ + t@ + Seq::new((k - n) as nat, |i: int| ' '),
        decreases w - k,
    {
        push_char(s, ' ');
        assert(Seq::new((k + 1 - n) as nat, |i: int| ' ') =~= Seq::new((k - n) as nat, |i: int| ' ').push(' '));
        assert(s@ =~= old(s)@ + t@ + Seq::new((k + 1 - n) as nat, |i: int| ' '));
        k = k + 1;
    }
    proof {
        if n < w {
            assert(k == w);
        } else {
            assert(Seq::new((k - n) as nat, |i: int| ' ') =~= Seq::<char>::empty());
        }
        assert(final(s)@ =~= old(s)@ + padded(t@, w as nat));
    }
}

/// The lines of the IP information table: the header row and the answers,
/// each column as wide as its longest cell in bytes, a rule as wide as the
/// table before each of the first two rows.
pub fn info_table_lines(rows: &Vec<GeoInfo>) -> (lines: Vec<String>)
    requires
        rule_width(rows@) <= usize::MAX,
    ensures
        views(lines@) == table_lines(rows@, rows@.len()),
{
    let mut widths: Vec<usize> = Vec::new();
    let mut c: usize = 0;
    while c < 6
        invariant
            c <= 6,
            widths@.len() == c,
            forall|j: int| 0 <= j < c ==> widths@[j] as nat == col_width(rows@, j),
        decreases 6 - c,
    {
        widths.push(column_width(rows, c));
        c = c + 1;
    }
    let total = widths[0] + widths[1] + widths[2] + widths[3] + widths[4] + widths[5] + 15;
    let mut rule = String::new();
    let mut k: usize = 0;
    while k < total
        invariant
            k <= total,
            rule@ == Seq::new(k as nat, |i: int| '─'),
        decreases total - k,
    {
        push_char(&mut rule, '─');
        assert(rule@ =~= Seq::new((k + 1) as nat, |i: int| '─'));
        k = k + 1;
    }
    let mut lines: Vec<String> = Vec::new();
    let mut i: usize = 0;
    while i < rows.len()
        invariant
            i <= rows@.len(),
            widths@.len() == 6,
            forall|j: int| 0 <= j < 6 ==> widths@[j] as nat == col_width(rows@, j),
            rule@ == rule_text(rule_width(rows@)),
            views(lines@) == table_lines(rows@, i as nat),
        decreases rows@.len() - i,
    {
        let g = &rows[i];
        let mut line = String::new();
        let ghost padded_cells = Seq::new(6, |c: int| padded(cells(*g)[c], col_width(rows@, c)));
        let mut c: usize = 0;
        while c < 6
            invariant
                c <= 6,
                widths@.len() == 6,
                forall|j: int| 0 <= j < 6 ==> widths@[j] as nat == col_width(rows@, j),
                padded_cells == Seq::new(6, |c: int| padded(cells(*g)[c], col_width(rows@, c))),
                line@ == join(padded_cells.take(c as int), " | "@),
            decreases 6 - c,
        {
            if c > 0 {
                push_str(&mut line, " | ");
            }
            push_padded(&mut line, cell_of(g, c).as_str(), widths[c]);
            proof {
                let t = padded_cells.take(c + 1);
                assert(t.drop_last() =~= padded_cells.take(c as int));
                assert(t.last() == padded_cells[c as int]);
                assert(line@ =~= join(t, " | "@));
            }
            c = c + 1;
        }
        assert(padded_cells.take(6) =~= padded_cells);
        let ghost before = views(lines@);
        if i < 2 {
            let mut r = String::new();
            push_str(&mut r, rule.as_str());
            lines.push(r);
            lines.push(line);
            assert(views(lines@) =~= before + seq![rule_text(rule_width(rows@)), row_text(rows@, *g)]);
        } else {
            lines.push(line);
            assert(views(lines@) =~= before.push(row_text(rows@, *g)));
        }
        i = i + 1;
    }
    lines
}

// ---------------------------------------------------------------------------
// The current public address
// ---------------------------------------------------------------------------

/// What the first capture group of the first match of `pattern` in `text`
/// holds (`regex::Regex::captures`), or `None` where the pattern does not
/// compile or does not match.
pub uninterp spec fn spec_first_capture(pattern: Seq<char>, text: Seq<char>) -> Option<Seq<char>>;

/// Calls `regex::Regex::new` and `Regex::captures`, and gives the text of the
/// first capture group of the first match. The result is named by
/// `spec_first_capture`, a function of the pattern and the text alone.
#[verifier::external_body]
fn first_capture(pattern: &str, text: &str) -> (r: Option<String>)
    ensures
        match spec_first_capture(pattern@, text@) {
            Some(t) => r matches Some(s) && s@ == t,
            None => r is None,
        },
{
    let re = regex::Regex::new(pattern).ok()?;
    let caps = re.captures(text)?;
    caps.get(1).map(|m| m.as_str().to_string())
}

/// The pattern the public address is found by in the answer of the address
/// service: the text between the quotes after `"v4":`.
pub open spec fn v4_pattern() -> Seq<char> {
    "\"v4\":\"([^\"]*)\""@
}

/// The public IPv4 address in the answer of the address service, as text.
pub fn current_ip_text(body: &str) -> (r: Option<String>)
    ensures
        match spec_first_capture(v4_pattern(), body@) {
            Some(t) => r matches Some(s) && s@ == t,
            None => r is None,
        },
{
    first_capture("\"v4\":\"([^\"]*)\"", body)
}

} // verus!

//! Geographic information attached to a scanned subnet.
use vstd::prelude::*;
use crate::text::str_eq;

verus! {

/// Placeholder text used for every geographic field that is unknown.
pub open spec fn na() -> Seq<char> {
    seq!['N', '/', 'A']
}

/// Geographic description of a subnet.
#[derive(Clone, Debug)]
pub struct SubnetInfo {
    pub source: String,
    pub country: String,
    pub city: String,
    pub asn: u32,
    pub as_name: String,
}

/// The text of an optional field, `N/A` where it is missing.
pub open spec fn or_na(v: Option<String>) -> Seq<char> {
    match v {
        Some(s) => s@,
        None => na(),
    }
}

fn na_string() -> (s: String)
    ensures
        s@ == na(),
{
    proof {
        reveal_strlit("N/A");
    }
    String::from_str("N/A")
}

fn text_or_na(v: Option<String>) -> (s: String)
    ensures
        s@ == or_na(v),
{
    match v {
        Some(s) => s,
        None => na_string(),
    }
}

impl SubnetInfo {
    /// All text fields `N/A`, AS number 0.
    pub fn new() -> (info: Self)
        ensures
            info.source@ == na(),
            info.country@ == na(),
            info.city@ == na(),
            info.asn == 0,
            info.as_name@ == na(),
    {
        SubnetInfo {
            source: na_string(),
            country: na_string(),
            city: na_string(),
            asn: 0,
            as_name: na_string(),
        }
    }

    /// Unknown geography, with the given source label.
    pub fn with_source(source: &str) -> (info: Self)
        ensures
            info.source@ == source@,
            info.country@ == na(),
            info.city@ == na(),
            info.asn == 0,
            info.as_name@ == na(),
    {
        let mut info = Self::new();
        info.source = String::from_str(source);
        info
    }

    /// The description built from what the City and ASN databases give for an
    /// address: the English city name, the ISO country code, the AS number and the
    /// AS organisation, each `N/A` (or AS number 0) where the database has none.
    pub fn from_geo_fields(
        city: Option<String>,
        country: Option<String>,
        asn: Option<u32>,
        as_name: Option<String>,
    ) -> (info: Self)
        ensures
            info.source@ == na(),
            info.city@ == or_na(city),
            info.country@ == or_na(country),
            info.asn == (match asn {
                Some(n) => n,
                None => 0,
            }),
            info.as_name@ == or_na(as_name),
    {
        SubnetInfo {
            source: na_string(),
            country: text_or_na(country),
            city: text_or_na(city),
            asn: match asn {
                Some(n) => n,
                None => 0,
            },
            as_name: text_or_na(as_name),
        }
    }
}

/// The description recorded for a scanned subnet: what the database gave (or
/// nothing known), labelled with the scan source, and with the source's country
/// where the database knows no country.
pub fn subnet_geo_info(looked_up: Option<SubnetInfo>, source: &str, fallback_country: Option<&str>) -> (info: SubnetInfo)
    ensures
        info.source@ == source@,
        info.city@ == (match looked_up {
            Some(l) => l.city@,
            None => na(),
        }),
        info.asn == (match looked_up {
            Some(l) => l.asn,
            None => 0,
        }),
        info.as_name@ == (match looked_up {
            Some(l) => l.as_name@,
            None => na(),
        }),
        ({
            let country = match looked_up {
                Some(l) => l.country@,
                None => na(),
            };
            info.country@ == (if country == na() && fallback_country is Some {
                fallback_country->0@
            } else {
                country
            })
        }),
{
    let mut info = match looked_up {
        Some(l) => l,
        None => SubnetInfo::with_source(source),
    };
    info.source = String::from_str(source);
    let na = na_string();
    if str_eq(info.country.as_str(), na.as_str()) {
        if let Some(country) = fallback_country {
            info.country = String::from_str(country);
        }
    }
    info
}

// ---------------------------------------------------------------------------
// Downloading a database from its sources
// ---------------------------------------------------------------------------

/// What a download asks for next.
#[derive(Clone, Copy, Debug, PartialEq, Eq, Structural)]
pub enum DownloadAction {
    /// Fetch from the source at this position.
    Fetch(usize),
    /// A fetch succeeded: the download is done.
    Done,
    /// Every source failed (or none was given).
    GiveUp,
}

/// A download over `url_count` sources, `tried` of them tried so far.
#[derive(Clone, Copy, Debug, PartialEq, Eq, Structural)]
pub struct DownloadPlan {
    pub url_count: usize,
    pub tried: usize,
}

/// The sources are tried in list order, each once, until one succeeds.
pub open spec fn download_next(p: DownloadPlan, ok: bool) -> (DownloadPlan, DownloadAction) {
    if ok {
        (p, DownloadAction::Done)
    } else if p.tried < p.url_count {
        (DownloadPlan { url_count: p.url_count, tried: (p.tried + 1) as usize }, DownloadAction::Fetch(p.tried))
    } else {
        (p, DownloadAction::GiveUp)
    }
}

impl DownloadPlan {
    /// A download over `url_count` sources, none tried yet.
    pub fn new(url_count: usize) -> (r: DownloadPlan)
        ensures
            r == (DownloadPlan { url_count, tried: 0 }),
    {
        DownloadPlan { url_count, tried: 0 }
    }

    /// Takes whether the last fetch succeeded (false before the first) and
    /// gives the next action.
    pub fn step(&mut self, ok: bool) -> (a: DownloadAction)
        requires
            old(self).tried <= old(self).url_count,
        ensures
            (*final(self), a) == download_next(*old(self), ok),
            final(self).tried <= final(self).url_count,
    {
        if ok {
            DownloadAction::Done
        } else if self.tried < self.url_count {
            let i = self.tried;
            self.tried = self.tried + 1;
            DownloadAction::Fetch(i)
        } else {
            DownloadAction::GiveUp
        }
    }
}

} // verus!

//! The scanner's configuration: its values, their defaults and their checks.
use vstd::prelude::*;

verus! {

/// How hosts are probed.
#[derive(Clone, Copy, Debug, PartialEq, Eq, Structural)]
pub enum ConfigPingType {
    TCP,
    ICMP,
}

/// The kind of socket ICMP echo uses.
#[derive(Clone, Copy, Debug, PartialEq, Eq, Structural)]
pub enum ConfigSocketType {
    DGRAM,
    RAW,
}

/// A GeoLite2 database.
#[derive(Clone, Copy, Debug, PartialEq, Eq, Structural)]
pub enum ConfigDBType {
    GeoLite2City,
    GeoLite2ASN,
}

/// Where a GeoLite2 database is downloaded from, in order of preference.
#[derive(Clone, Debug)]
pub struct ConfigDBUpdate {
    pub db_type: ConfigDBType,
    pub update_urls: Vec<String>,
}

/// A file format of the final results.
#[derive(Clone, Copy, Debug, PartialEq, Eq, Structural)]
pub enum ConfigSaveResultFileType {
    Csv,
    Json,
}

/// What to do every `stop_every_times` subnets.
#[derive(Clone, Copy, Debug, PartialEq, Eq, Structural)]
pub enum ConfigStopAction {
    Prompt,
    ChangeIp,
    Delay,
}

/// A periodic pause of the scan.
#[derive(Clone, Debug)]
pub struct SubnetsScan {
    pub stop_every_times: u32,
    pub stop_action: ConfigStopAction,
    pub change_ip_url: Option<String>,
    pub delay_seconds: Option<u64>,
}

/// The scanner's configuration.
#[derive(Clone, Debug)]
pub struct Config {
    pub geoip_city_db: Option<String>,
    pub geoip_asn_db: Option<String>,
    pub geoip_dat_path: Option<String>,
    pub geoip_codes: Option<Vec<String>>,
    pub subnets: Vec<String>,
    pub operator: Option<String>,
    pub endpoint: String,
    pub results_dir: Option<String>,
    pub resume_state_dir: Option<String>,
    pub resume: Option<bool>,
    pub tcp_ports: Option<Vec<u16>>,
    pub tcp_sni_host: Option<String>,
    pub socket_type: Option<ConfigSocketType>,
    pub ping_type: Vec<ConfigPingType>,
    pub logger_filetype: Vec<ConfigSaveResultFileType>,
    pub ipinfo_providers: Vec<String>,
    pub task: Option<SubnetsScan>,
    pub db_update: Option<Vec<ConfigDBUpdate>>,
}

/// Why a configuration was refused.
#[derive(Clone, Copy, Debug, PartialEq, Eq, Structural)]
pub enum ConfigError {
    /// `stop_action = ChangeIp` without a `change_ip_url`.
    ChangeIpUrlRequired,
    /// `stop_action = Delay` without `delay_seconds`.
    DelaySecondsRequired,
}

impl ConfigError {
    /// The text of the error.
    pub fn message(&self) -> (r: &'static str)
        ensures
            r@ == match *self {
                ConfigError::ChangeIpUrlRequired => "change_ip_url is required for stop_action = ChangeIp"@,
                ConfigError::DelaySecondsRequired => "delay_seconds is required for stop_action = Delay"@,
            },
    {
        match self {
            ConfigError::ChangeIpUrlRequired => "change_ip_url is required for stop_action = ChangeIp",
            ConfigError::DelaySecondsRequired => "delay_seconds is required for stop_action = Delay",
        }
    }
}

/// The text of an optional setting, or the default where it is unset.
pub open spec fn or_default(v: Option<String>, default: Seq<char>) -> Seq<char> {
    match v {
        Some(s) => s@,
        None => default,
    }
}

/// The views of a vector of strings.
pub open spec fn texts(v: Seq<String>) -> Seq<Seq<char>> {
    v.map_values(|s: String| s@)
}

/// A copy of a vector of ports.
pub fn copy_ports(v: &Vec<u16>) -> (r: Vec<u16>)
    ensures
        r@ == v@,
{
    let mut r: Vec<u16> = Vec::new();
    let mut i: usize = 0;
    while i < v.len()
        invariant
            i <= v@.len(),
            r@ == v@.take(i as int),
        decreases v@.len() - i,
    {
        r.push(v[i]);
        assert(v@.take(i + 1) =~= v@.take(i as int).push(v@[i as int]));
        i = i + 1;
    }
    assert(v@.take(v@.len() as int) =~= v@);
    r
}

/// A copy of a vector of strings.
pub fn copy_strings(v: &Vec<String>) -> (r: Vec<String>)
    ensures
        texts(r@) == texts(v@),
{
    let mut r: Vec<String> = Vec::new();
    let mut i: usize = 0;
    while i < v.len()
        invariant
            i <= v@.len(),
            texts(r@) == texts(v@).take(i as int),
        decreases v@.len() - i,
    {
        let s = v[i].clone();
        let ghost before = r@;
        r.push(s);
        assert(texts(r@) =~= texts(before).push(s@));
        assert(texts(v@).take(i + 1) =~= texts(v@).take(i as int).push(texts(v@)[i as int]));
        i = i + 1;
    }
    assert(texts(v@).take(v@.len() as int) =~= texts(v@));
    r
}

impl Config {
    /// Directory of the result files: `results` unless set.
    pub fn results_dir(&self) -> (r: &str)
        ensures
            r@ == or_default(self.results_dir, "results"@),
    {
        match &self.results_dir {
            Some(s) => s.as_str(),
            None => "results",
        }
    }

    /// TCP ports to probe: `[443]` unless set.
    pub fn tcp_ports(&self) -> (r: Vec<u16>)
        ensures
            r@ == match self.tcp_ports {
                Some(v) => v@,
                None => seq![443u16],
            },
    {
        match &self.tcp_ports {
            Some(v) => copy_ports(v),
            None => {
                let r = vec![443u16];
                assert(r@ =~= seq![443u16]);
                r
            },
        }
    }

    /// Path of the `geoip.dat` file: `geoip.dat` unless set.
    pub fn geoip_dat_path(&self) -> (r: &str)
        ensures
            r@ == or_default(self.geoip_dat_path, "geoip.dat"@),
    {
        match &self.geoip_dat_path {
            Some(s) => s.as_str(),
            None => "geoip.dat",
        }
    }

    /// The geoip codes to scan: none unless set.
    pub fn geoip_codes(&self) -> (r: Vec<String>)
        ensures
            texts(r@) == match self.geoip_codes {
                Some(v) => texts(v@),
                None => Seq::empty(),
            },
    {
        match &self.geoip_codes {
            Some(v) => copy_strings(v),
            None => {
                let r: Vec<String> = Vec::new();
                assert(texts(r@) =~= Seq::<Seq<char>>::empty());
                r
            },
        }
    }

    /// Directory of the resume state files: `results/state` unless set.
    pub fn resume_state_dir(&self) -> (r: &str)
        ensures
            r@ == or_default(self.resume_state_dir, "results/state"@),
    {
        match &self.resume_state_dir {
            Some(s) => s.as_str(),
            None => "results/state",
        }
    }

    /// Whether an unfinished scan is resumed: yes unless set.
    pub fn resume_enabled(&self) -> (r: bool)
        ensures
            r == match self.resume {
                Some(b) => b,
                None => true,
            },
    {
        match self.resume {
            Some(b) => b,
            None => true,
        }
    }
}

// ---------------------------------------------------------------------------
// Defaults and checks applied after reading the file
// ---------------------------------------------------------------------------

/// The URLs a database is downloaded from by default.
pub open spec fn default_urls(db: ConfigDBType) -> Seq<Seq<char>> {
    match db {
        ConfigDBType::GeoLite2City => seq![
            "https://git.io/GeoLite2-City.mmdb"@,
            "https://github.com/P3TERX/GeoLite.mmdb/raw/download/GeoLite2-City.mmdb"@,
        ],
        ConfigDBType::GeoLite2ASN => seq![
            "https://git.io/GeoLite2-ASN.mmdb"@,
            "https://github.com/P3TERX/GeoLite.mmdb/raw/download/GeoLite2-ASN.mmdb"@,
        ],
    }
}

/// The error a periodic pause setting is refused with, if any.
pub open spec fn task_error(task: Option<SubnetsScan>) -> Option<ConfigError> {
    match task {
        Some(t) => match t.stop_action {
            ConfigStopAction::ChangeIp => if t.change_ip_url is None {
                Some(ConfigError::ChangeIpUrlRequired)
            } else {
                None
            },
            ConfigStopAction::Delay => if t.delay_seconds is None {
                Some(ConfigError::DelaySecondsRequired)
            } else {
                None
            },
            ConfigStopAction::Prompt => None,
        },
        None => None,
    }
}

/// The default download sources are the City database, then the ASN database,
/// each from its default URLs.
pub open spec fn default_db_update(v: Seq<ConfigDBUpdate>) -> bool {
    &&& v.len() == 2
    &&& v[0].db_type == ConfigDBType::GeoLite2City
    &&& v[1].db_type == ConfigDBType::GeoLite2ASN
    &&& texts(v[0].update_urls@) == default_urls(ConfigDBType::GeoLite2City)
    &&& texts(v[1].update_urls@) == default_urls(ConfigDBType::GeoLite2ASN)
}

fn db_update_for(db_type: ConfigDBType) -> (r: ConfigDBUpdate)
    ensures
        r.db_type == db_type,
        texts(r.update_urls@) == default_urls(db_type),
{
    let urls = match db_type {
        ConfigDBType::GeoLite2City => vec![
            "https://git.io/GeoLite2-City.mmdb".to_string(),
            "https://github.com/P3TERX/GeoLite.mmdb/raw/download/GeoLite2-City.mmdb".to_string(),
        ],
        ConfigDBType::GeoLite2ASN => vec![
            "https://git.io/GeoLite2-ASN.mmdb".to_string(),
            "https://github.com/P3TERX/GeoLite.mmdb/raw/download/GeoLite2-ASN.mmdb".to_string(),
        ],
    };
    assert(texts(urls@) =~= default_urls(db_type));
    ConfigDBUpdate { db_type, update_urls: urls }
}

impl Config {
    /// Completes a configuration as read from the file: database paths under
    /// `db/`, the socket type of the platform (`DGRAM` on Linux, else `RAW`),
    /// the default download sources, each only where unset; and refuses a
    /// periodic `ChangeIp` without a URL or a periodic `Delay` without seconds.
    pub fn with_defaults(self, on_linux: bool) -> (r: Result<Config, ConfigError>)
        ensures
            match task_error(self.task) {
                Some(e) => r == Err::<Config, ConfigError>(e),
                None => r matches Ok(c) && {
                    &&& c.geoip_city_db matches Some(s) && s@ == or_default(self.geoip_city_db, "db/GeoLite2-City.mmdb"@)
                    &&& c.geoip_asn_db matches Some(s) && s@ == or_default(self.geoip_asn_db, "db/GeoLite2-ASN.mmdb"@)
                    &&& c.socket_type == Some(match self.socket_type {
                        Some(t) => t,
                        None => if on_linux { ConfigSocketType::DGRAM } else { ConfigSocketType::RAW },
                    })
                    &&& match self.db_update {
                        Some(v) => c.db_update == Some(v),
                        None => c.db_update matches Some(v) && default_db_update(v@),
                    }
                    &&& c.geoip_dat_path == self.geoip_dat_path
                    &&& c.geoip_codes == self.geoip_codes
                    &&& c.subnets == self.subnets
                    &&& c.operator == self.operator
                    &&& c.endpoint == self.endpoint
                    &&& c.results_dir == self.results_dir
                    &&& c.resume_state_dir == self.resume_state_dir
                    &&& c.resume == self.resume
                    &&& c.tcp_ports == self.tcp_ports
                    &&& c.tcp_sni_host == self.tcp_sni_host
                    &&& c.ping_type == self.ping_type
                    &&& c.logger_filetype == self.logger_filetype
                    &&& c.ipinfo_providers == self.ipinfo_providers
                    &&& c.task == self.task
                },
            },
    {
        let mut config = self;
        if config.geoip_city_db.is_none() {
            config.geoip_city_db = Some("db/GeoLite2-City.mmdb".to_string());
        }
        if config.geoip_asn_db.is_none() {
            config.geoip_asn_db = Some("db/GeoLite2-ASN.mmdb".to_string());
        }
        if config.socket_type.is_none() {
            if on_linux {
                config.socket_type = Some(ConfigSocketType::DGRAM);
            } else {
                config.socket_type = Some(ConfigSocketType::RAW);
            }
        }
        if config.db_update.is_none() {
            let db_city = db_update_for(ConfigDBType::GeoLite2City);
            let db_asn = db_update_for(ConfigDBType::GeoLite2ASN);
            let v = vec![db_city, db_asn];
            config.db_update = Some(v);
        }
        match &config.task {
            Some(task) => match task.stop_action {
                ConfigStopAction::ChangeIp => {
                    if task.change_ip_url.is_none() {
                        return Err(ConfigError::ChangeIpUrlRequired);
                    }
                },
                ConfigStopAction::Delay => {
                    if task.delay_seconds.is_none() {
                        return Err(ConfigError::DelaySecondsRequired);
                    }
                },
                ConfigStopAction::Prompt => {},
            },
            None => {},
        }
        Ok(config)
    }
}

// ---------------------------------------------------------------------------
// Front-end settings
// ---------------------------------------------------------------------------

/// The number of subnets scanned at once: the setting, 1 when unset, and at
/// least 1.
pub fn subnet_parallelism_or_default(v: Option<usize>) -> (r: usize)
    ensures
        r == match v {
            Some(n) => if n == 0 { 1 } else { n },
            None => 1,
        },
{
    match v {
        Some(n) => if n == 0 { 1 } else { n },
        None => 1,
    }
}

/// The number of hosts probed at once: the setting, 256 when unset, and at
/// least 1.
pub fn host_probe_parallelism_or_default(v: Option<usize>) -> (r: usize)
    ensures
        r == match v {
            Some(n) => if n == 0 { 1 } else { n },
            None => 256,
        },
{
    match v {
        Some(n) => if n == 0 { 1 } else { n },
        None => 256,
    }
}

/// The network interface to bind to: the setting, unless it is unset or empty.
pub fn interface_name(v: &Option<String>) -> (r: Option<&str>)
    ensures
        match v {
            Some(s) => if s@.len() > 0 { r matches Some(t) && t@ == s@ } else { r is None },
            None => r is None,
        },
{
    match v {
        Some(s) => {
            let t = s.as_str();
            if t.is_empty() {
                None
            } else {
                Some(t)
            }
        },
        None => None,
    }
}

} // verus!

//! The identity of a scan job, the names of its result files, and the resume
//! state kept for it.
use vstd::prelude::*;
use vstd::utf8::encode_utf8;
use crate::init::{Config, ConfigPingType, or_default};
use crate::text::{dec, hex16, hex16_string, join, push_char, push_str, push_dec, views};

verus! {

// ---------------------------------------------------------------------------
// Job identity
// ---------------------------------------------------------------------------

/// One FNV-1a step: xor the byte in, multiply by the 64-bit FNV prime.
pub open spec fn fnv_step(h: u64, b: u8) -> u64 {
    (h ^ (b as u64)).wrapping_mul(0x100000001b3u64)
}

/// FNV-1a of a byte sequence from the hash `h`.
pub open spec fn fnv(h: u64, bytes: Seq<u8>) -> u64
    decreases bytes.len(),
{
    if bytes.len() == 0 {
        h
    } else {
        fnv_step(fnv(h, bytes.drop_last()), bytes.last())
    }
}

/// FNV-1a over the UTF-8 bytes of the texts, one after another.
pub open spec fn fnv_texts(h: u64, texts: Seq<Seq<char>>) -> u64
    decreases texts.len(),
{
    if texts.len() == 0 {
        h
    } else {
        fnv(fnv_texts(h, texts.drop_last()), encode_utf8(texts.last()))
    }
}

/// Feeds the UTF-8 bytes of `value` into the FNV-1a hash.
pub fn update_hash(hash: &mut u64, value: &str)
    ensures
        *final(hash) == fnv(*old(hash), encode_utf8(value@)),
{
    let bytes = value.as_bytes();
    let mut i: usize = 0;
    while i < bytes.len()
        invariant
            i <= bytes@.len(),
            bytes@ == encode_utf8(value@),
            *hash == fnv(*old(hash), bytes@.take(i as int)),
        decreases bytes@.len() - i,
    {
        assert(bytes@.take(i + 1).drop_last() =~= bytes@.take(i as int));
        *hash = (*hash ^ (bytes[i] as u64)).wrapping_mul(0x100000001b3u64);
        i = i + 1;
    }
    assert(bytes@.take(bytes@.len() as int) =~= bytes@);
}

/// `Debug` text of a probe type.
pub open spec fn ping_type_text(t: ConfigPingType) -> Seq<char> {
    match t {
        ConfigPingType::TCP => seq!['T', 'C', 'P'],
        ConfigPingType::ICMP => seq!['I', 'C', 'M', 'P'],
    }
}

/// `Debug` text of a list: the items' texts between brackets, separated by `, `.
pub open spec fn debug_list(items: Seq<Seq<char>>) -> Seq<char> {
    seq!['['] + join(items, seq![',', ' ']) + seq![']']
}

/// `Debug` text of a list of probe types, such as `[ICMP, TCP]`.
pub open spec fn ping_types_debug(v: Seq<ConfigPingType>) -> Seq<char> {
    debug_list(v.map_values(|t: ConfigPingType| ping_type_text(t)))
}

/// `Debug` text of a list of ports, such as `[80, 443]`.
pub open spec fn ports_debug(v: Seq<u16>) -> Seq<char> {
    debug_list(v.map_values(|p: u16| dec(p as nat)))
}

/// The ports a configuration probes by its `tcp_ports` setting.
pub open spec fn config_ports(c: Config) -> Seq<u16> {
    match c.tcp_ports {
        Some(v) => v@,
        None => seq![443u16],
    }
}

/// The texts a job is identified by, in the order they are hashed.
pub open spec fn job_texts(config: Config, scan_name: Seq<char>, networks: Seq<Seq<char>>) -> Seq<Seq<char>> {
    seq![
        "result_schema_tcp_txt_lists_v1"@,
        scan_name,
        ping_types_debug(config.ping_type@),
        ports_debug(config_ports(config)),
        or_default(config.tcp_sni_host, ""@),
        or_default(config.operator, ""@),
    ] + networks
}

/// The FNV-1a offset basis.
pub open spec fn fnv_offset() -> u64 {
    0xcbf29ce484222325u64
}

/// The id of a job: the 16 hex digits of the FNV-1a hash of its texts.
pub open spec fn job_id_text(config: Config, scan_name: Seq<char>, networks: Seq<Seq<char>>) -> Seq<char> {
    hex16(fnv_texts(fnv_offset(), job_texts(config, scan_name, networks)))
}

fn push_chars(s: &mut String, v: &Vec<char>)
    ensures
        final(s)@ == old(s)@ + v@,
{
    let mut i: usize = 0;
    while i < v.len()
        invariant
            i <= v@.len(),
            s@ == old(s)@ + v@.take(i as int),
        decreases v@.len() - i,
    {
        push_char(s, v[i]);
        assert(v@.take(i + 1) =~= v@.take(i as int).push(v@[i as int]));
        assert(s@ =~= old(s)@ + v@.take(i + 1));
        i = i + 1;
    }
    assert(v@.take(v@.len() as int) =~= v@);
}

fn ping_type_chars(t: ConfigPingType) -> (r: Vec<char>)
    ensures
        r@ == ping_type_text(t),
{
    let r = match t {
        ConfigPingType::TCP => vec!['T', 'C', 'P'],
        ConfigPingType::ICMP => vec!['I', 'C', 'M', 'P'],
    };
    assert(r@ =~= ping_type_text(t));
    r
}

proof fn lemma_join_push(items: Seq<Seq<char>>, x: Seq<char>, sep: Seq<char>)
    ensures
        join(items.push(x), sep) == if items.len() == 0 { x } else { join(items, sep) + sep + x },
{
    assert(items.push(x).drop_last() =~= items);
    if items.len() == 0 {
        assert(items.push(x).len() == 1);
    }
}

/// `Debug` text of a list of probe types.
pub fn ping_types_string(v: &Vec<ConfigPingType>) -> (s: String)
    ensures
        s@ == ping_types_debug(v@),
{
    let mut s = String::new();
    push_char(&mut s, '[');
    let ghost items = v@.map_values(|t: ConfigPingType| ping_type_text(t));
    let mut i: usize = 0;
    while i < v.len()
        invariant
            i <= v@.len(),
            items == v@.map_values(|t: ConfigPingType| ping_type_text(t)),
            s@ == seq!['['] + join(items.take(i as int), seq![',', ' ']),
        decreases v@.len() - i,
    {
        if i > 0 {
            push_char(&mut s, ',');
            push_char(&mut s, ' ');
        }
        let t = ping_type_chars(v[i]);
        push_chars(&mut s, &t);
        proof {
            assert(items.take(i + 1) =~= items.take(i as int).push(items[i as int]));
            lemma_join_push(items.take(i as int), items[i as int], seq![',', ' ']);
            assert(s@ =~= seq!['['] + join(items.take(i + 1), seq![',', ' ']));
        }
        i = i + 1;
    }
    push_char(&mut s, ']');
    assert(items.take(v@.len() as int) =~= items);
    assert(s@ =~= ping_types_debug(v@));
    s
}

/// `Debug` text of a list of ports.
pub fn ports_string(v: &Vec<u16>) -> (s: String)
    ensures
        s@ == ports_debug(v@),
{
    let mut s = String::new();
    push_char(&mut s, '[');
    let ghost items = v@.map_values(|p: u16| dec(p as nat));
    let mut i: usize = 0;
    while i < v.len()
        invariant
            i <= v@.len(),
            items == v@.map_values(|p: u16| dec(p as nat)),
            s@ == seq!['['] + join(items.take(i as int), seq![',', ' ']),
        decreases v@.len() - i,
    {
        if i > 0 {
            push_char(&mut s, ',');
            push_char(&mut s, ' ');
        }
        push_dec(&mut s, v[i] as u64);
        proof {
            assert(items.take(i + 1) =~= items.take(i as int).push(items[i as int]));
            lemma_join_push(items.take(i as int), items[i as int], seq![',', ' ']);
            assert(s@ =~= seq!['['] + join(items.take(i + 1), seq![',', ' ']));
        }
        i = i + 1;
    }
    push_char(&mut s, ']');
    assert(items.take(v@.len() as int) =~= items);
    assert(s@ =~= ports_debug(v@));
    s
}

fn opt_text(v: &Option<String>) -> (r: &str)
    ensures
        r@ == or_default(*v, ""@),
{
    match v {
        Some(s) => s.as_str(),
        None => "",
    }
}

/// The id of a scan job: a hash of the result schema, the scan name, the probe
/// types, the TCP ports, the SNI host, the operator and the network list, as 16
/// hex digits. The same job always gets the same id, so that it can resume.
pub fn build_job_id(config: &Config, scan_name: &str, networks: &Vec<String>) -> (r: String)
    ensures
        r@ == job_id_text(*config, scan_name@, views(networks@)),
{
    let ghost texts = job_texts(*config, scan_name@, views(networks@));
    let mut hash: u64 = 0xcbf29ce484222325u64;
    update_hash(&mut hash, "result_schema_tcp_txt_lists_v1");
    update_hash(&mut hash, scan_name);
    let pt = ping_types_string(&config.ping_type);
    update_hash(&mut hash, pt.as_str());
    let ports = config.tcp_ports();
    let ps = ports_string(&ports);
    update_hash(&mut hash, ps.as_str());
    update_hash(&mut hash, opt_text(&config.tcp_sni_host));
    update_hash(&mut hash, opt_text(&config.operator));
    proof {
        reveal_with_fuel(fnv_texts, 7);
        assert(texts.take(6) =~= seq![
            "result_schema_tcp_txt_lists_v1"@,
            scan_name@,
            ping_types_debug(config.ping_type@),
            ports_debug(config_ports(*config)),
            or_default(config.tcp_sni_host, ""@),
            or_default(config.operator, ""@),
        ]);
        assert(texts.take(6).drop_last() =~= texts.take(5));
        assert(texts.take(5).drop_last() =~= texts.take(4));
        assert(texts.take(4).drop_last() =~= texts.take(3));
        assert(texts.take(3).drop_last() =~= texts.take(2));
        assert(texts.take(2).drop_last() =~= texts.take(1));
        assert(texts.take(1).drop_last() =~= texts.take(0));
        assert(hash == fnv_texts(fnv_offset(), texts.take(6)));
    }
    let mut i: usize = 0;
    while i < networks.len()
        invariant
            i <= networks@.len(),
            texts == job_texts(*config, scan_name@, views(networks@)),
            texts.len() == 6 + networks@.len(),
            hash == fnv_texts(fnv_offset(), texts.take(6 + i)),
        decreases networks@.len() - i,
    {
        update_hash(&mut hash, networks[i].as_str());
        proof {
            assert(texts.take(6 + i + 1).drop_last() =~= texts.take(6 + i));
            assert(texts[6 + i] == networks@[i as int]@);
        }
        i = i + 1;
    }
    assert(texts.take(6 + networks@.len() as int) =~= texts);
    hex16_string(hash)
}

// ---------------------------------------------------------------------------
// Paths and file names
// ---------------------------------------------------------------------------

/// `dir` joined with `name` as `Path::join` does on Unix: an absolute `name`
/// replaces `dir`; otherwise a `/` separates them unless `dir` is empty or
/// already ends with one.
pub open spec fn path_join(dir: Seq<char>, name: Seq<char>) -> Seq<char> {
    if name.len() > 0 && name[0] == '/' {
        name
    } else if dir.len() == 0 {
        name
    } else if dir.last() == '/' {
        dir + name
    } else {
        dir + seq!['/'] + name
    }
}

/// Joins a directory and a file name (see [`path_join`]).
pub fn join_path(dir: &str, name: &str) -> (r: String)
    ensures
        r@ == path_join(dir@, name@),
{
    let n = crate::text::chars_of(name);
    let d = crate::text::chars_of(dir);
    let mut s = String::new();
    if n.len() > 0 && n[0] == '/' {
        push_str(&mut s, name);
    } else if d.len() == 0 {
        push_str(&mut s, name);
    } else if d[d.len() - 1] == '/' {
        push_str(&mut s, dir);
        push_str(&mut s, name);
    } else {
        push_str(&mut s, dir);
        push_char(&mut s, '/');
        push_str(&mut s, name);
    }
    assert(s@ =~= path_join(dir@, name@));
    s
}

/// The resume state file of a job: `<job_id>.json` in the state directory.
pub open spec fn state_file(config: Config, job_id: Seq<char>) -> Seq<char> {
    path_join(or_default(config.resume_state_dir, "results/state"@), job_id + ".json"@)
}

/// The path of the resume state file of a job.
pub fn state_path(config: &Config, job_id: &str) -> (r: String)
    ensures
        r@ == state_file(*config, job_id@),
{
    let mut name = String::new();
    push_str(&mut name, job_id);
    push_str(&mut name, ".json");
    join_path(config.resume_state_dir(), name.as_str())
}

/// The part of a result file name between the scan name and the date:
/// `_<operator>_`, or `_` without an operator.
pub open spec fn operator_text(operator: Option<String>) -> Seq<char> {
    match operator {
        Some(o) => if o@.len() > 0 {
            seq!['_'] + o@ + seq!['_']
        } else {
            seq!['_']
        },
        None => seq!['_'],
    }
}

/// `_<operator>_`, or `_` without an operator.
pub fn operator_part(config: &Config) -> (r: String)
    ensures
        r@ == operator_text(config.operator),
{
    let mut s = String::new();
    push_char(&mut s, '_');
    match &config.operator {
        Some(o) => {
            if !o.as_str().is_empty() {
                push_str(&mut s, o.as_str());
                push_char(&mut s, '_');
            }
        },
        None => {},
    }
    assert(s@ =~= operator_text(config.operator));
    s
}

/// The resume state of a scan job.
#[derive(Clone, Debug)]
pub struct ScanState {
    pub version: u8,
    pub job_id: String,
    pub scan_name: String,
    pub result_csv: String,
    pub result_jsonl: String,
    pub result_alive_txt: String,
    pub result_rejected_txt: String,
    pub completed_subnets: Vec<String>,
    pub failed_subnets: Vec<String>,
    pub subnet24_count: u32,
    pub created_at: String,
    pub updated_at: String,
    pub finished: bool,
    pub stopped_reason: Option<String>,
}

/// The base name of a job's result files: scan name, operator part, date.
pub open spec fn result_base(config: Config, scan_name: Seq<char>, date: Seq<char>) -> Seq<char> {
    scan_name + operator_text(config.operator) + date
}

/// A result file of a job: the base name with `suffix`, in the results directory.
pub open spec fn result_file(config: Config, scan_name: Seq<char>, date: Seq<char>, suffix: Seq<char>) -> Seq<char> {
    path_join(or_default(config.results_dir, "results"@), result_base(config, scan_name, date) + suffix)
}

fn result_path(config: &Config, base: &str, suffix: &str) -> (r: String)
    ensures
        r@ == path_join(or_default(config.results_dir, "results"@), base@ + suffix@),
{
    let mut name = String::new();
    push_str(&mut name, base);
    push_str(&mut name, suffix);
    join_path(config.results_dir(), name.as_str())
}

/// A fresh state for a job: version 1, the result files named after the scan,
/// the operator and `date`, nothing completed or failed, the snapshot counter
/// at 1, created and updated `now`, not finished and never stopped.
pub fn create_state(config: &Config, scan_name: &str, job_id: String, date: &str, now: &str) -> (r: ScanState)
    ensures
        r.version == 1,
        r.job_id == job_id,
        r.scan_name@ == scan_name@,
        r.result_csv@ == result_file(*config, scan_name@, date@, ".csv"@),
        r.result_jsonl@ == result_file(*config, scan_name@, date@, ".jsonl"@),
        r.result_alive_txt@ == result_file(*config, scan_name@, date@, "_alive.txt"@),
        r.result_rejected_txt@ == result_file(*config, scan_name@, date@, "_rejected.txt"@),
        r.completed_subnets@.len() == 0,
        r.failed_subnets@.len() == 0,
        r.subnet24_count == 1,
        r.created_at@ == now@,
        r.updated_at@ == now@,
        !r.finished,
        r.stopped_reason is None,
{
    let mut base = String::new();
    push_str(&mut base, scan_name);
    let op = operator_part(config);
    push_str(&mut base, op.as_str());
    push_str(&mut base, date);
    let result_csv = result_path(config, base.as_str(), ".csv");
    let result_jsonl = result_path(config, base.as_str(), ".jsonl");
    let result_alive_txt = result_path(config, base.as_str(), "_alive.txt");
    let result_rejected_txt = result_path(config, base.as_str(), "_rejected.txt");
    let mut name = String::new();
    push_str(&mut name, scan_name);
    let mut created = String::new();
    push_str(&mut created, now);
    let mut updated = String::new();
    push_str(&mut updated, now);
    ScanState {
        version: 1,
        job_id,
        scan_name: name,
        result_csv,
        result_jsonl,
        result_alive_txt,
        result_rejected_txt,
        completed_subnets: Vec::new(),
        failed_subnets: Vec::new(),
        subnet24_count: 1,
        created_at: created,
        updated_at: updated,
        finished: false,
        stopped_reason: None,
    }
}

/// The job ran through every subnet: it is finished and carries no stop
/// reason; everything else stays as it was.
pub fn mark_finished(state: &mut ScanState)
    ensures
        final(state).finished,
        final(state).stopped_reason is None,
        final(state).version == old(state).version,
        final(state).job_id == old(state).job_id,
        final(state).scan_name == old(state).scan_name,
        final(state).result_csv == old(state).result_csv,
        final(state).result_jsonl == old(state).result_jsonl,
        final(state).result_alive_txt == old(state).result_alive_txt,
        final(state).result_rejected_txt == old(state).result_rejected_txt,
        final(state).completed_subnets == old(state).completed_subnets,
        final(state).failed_subnets == old(state).failed_subnets,
        final(state).subnet24_count == old(state).subnet24_count,
        final(state).created_at == old(state).created_at,
        final(state).updated_at == old(state).updated_at,
{
    state.finished = true;
    state.stopped_reason = None;
}

/// Law: every network of a job enters its id. The hashed texts are the six
/// settings texts followed by exactly the networks, in order; a job with one
/// more network hashes the same texts and then that network.
pub proof fn lemma_job_texts_cover_networks(config: Config, scan_name: Seq<char>, networks: Seq<Seq<char>>, extra: Seq<char>)
    ensures
        job_texts(config, scan_name, networks).len() == 6 + networks.len(),
        job_texts(config, scan_name, networks).skip(6) == networks,
        job_texts(config, scan_name, networks.push(extra)) == job_texts(config, scan_name, networks).push(extra),
        fnv_texts(fnv_offset(), job_texts(config, scan_name, networks.push(extra)))
            == fnv(fnv_texts(fnv_offset(), job_texts(config, scan_name, networks)), encode_utf8(extra)),
        job_texts(config, scan_name, networks).take(6) == job_texts(config, scan_name, Seq::empty()),
{
    let t = job_texts(config, scan_name, networks);
    let t2 = job_texts(config, scan_name, networks.push(extra));
    assert(t.skip(6) =~= networks);
    assert(t2 =~= t.push(extra));
    assert(t2.drop_last() =~= t);
    assert(t.take(6) =~= job_texts(config, scan_name, Seq::empty()));
}

} // verus!

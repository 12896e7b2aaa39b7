use pizdos_scanner::geoip_dat::{decode_delimited, decode_geoip_list, decode_key, decode_varint, CidrEntry, GeoIpEntry};
use pizdos_scanner::xray_geoip::{cidr_to_ipv4, entry_code, list_codes, load_ipv4_cidrs, GeoIpError};

fn varint(mut v: u64, out: &mut Vec<u8>) {
    loop {
        let b = (v & 0x7f) as u8;
        v >>= 7;
        if v == 0 {
            out.push(b);
            break;
        }
        out.push(b | 0x80);
    }
}

fn field_bytes(tag: u32, data: &[u8], out: &mut Vec<u8>) {
    varint(((tag << 3) | 2) as u64, out);
    varint(data.len() as u64, out);
    out.extend_from_slice(data);
}

fn cidr(ip: &[u8], prefix: u32) -> Vec<u8> {
    let mut b = Vec::new();
    field_bytes(1, ip, &mut b);
    varint((2 << 3) as u64, &mut b);
    varint(prefix as u64, &mut b);
    b
}

fn geoip(country: &str, cidrs: &[Vec<u8>], code: &str) -> Vec<u8> {
    let mut b = Vec::new();
    field_bytes(1, country.as_bytes(), &mut b);
    for c in cidrs {
        field_bytes(2, c, &mut b);
    }
    if !code.is_empty() {
        field_bytes(5, code.as_bytes(), &mut b);
    }
    b
}

fn list(entries: &[Vec<u8>]) -> Vec<u8> {
    let mut b = Vec::new();
    for e in entries {
        field_bytes(1, e, &mut b);
    }
    b
}

fn sample_file() -> Vec<u8> {
    list(&[
        geoip(
            "RU",
            &[
                cidr(&[10, 0, 0, 5], 23),
                cidr(&[0x20, 0x01, 0x0d, 0xb8, 0, 0, 0, 0, 0, 0, 0, 0, 0, 0, 0, 0], 32),
                cidr(&[10, 0, 0, 0], 23),
                cidr(&[1, 2, 3, 4], 32),
            ],
            "",
        ),
        geoip("cn", &[cidr(&[8, 8, 8, 0], 24)], ""),
        geoip("", &[cidr(&[9, 9, 0, 0], 16)], "Private"),
        geoip("CN", &[], ""),
    ])
}

#[test]
fn varints_and_keys() {
    let data = [0xac, 0x02, 0x08];
    assert_eq!(decode_varint(&data, 0, 3), Some((300, 2)));
    assert_eq!(decode_varint(&data, 2, 3), Some((8, 3)));
    assert_eq!(decode_varint(&[0x80], 0, 1), None);
    assert_eq!(decode_key(&[0x12], 0, 1), Some((2, 2, 1)));
    assert_eq!(decode_delimited(&[0x02, 0xaa, 0xbb, 0xcc], 0, 4), Some((1, 3)));
    assert_eq!(decode_delimited(&[0x05, 0xaa], 0, 2), None);
}

#[test]
fn decoding_a_geoip_list() {
    let entries = decode_geoip_list(&sample_file()).unwrap();
    assert_eq!(entries.len(), 4);
    assert_eq!(entries[0].country_code, "RU");
    assert_eq!(entries[0].cidr.len(), 4);
    assert_eq!(entries[0].cidr[0].ip, vec![10, 0, 0, 5]);
    assert_eq!(entries[0].cidr[0].prefix, 23);
    assert_eq!(entries[2].code, "Private");
    assert_eq!(entries[3].cidr.len(), 0);
}

#[test]
fn decoding_refuses_truncated_data() {
    let mut f = sample_file();
    f.pop();
    assert!(decode_geoip_list(&f).is_none());
    assert!(decode_geoip_list(&[0x0a, 0x05, 0x01]).is_none());
    assert_eq!(decode_geoip_list(&[]).map(|v| v.len()), Some(0));
}

#[test]
fn decoding_skips_unknown_fields() {
    let mut e = geoip("RU", &[cidr(&[1, 1, 1, 0], 24)], "");
    // field 3 (inverse_match, varint) and field 4 (resource_hash, bytes)
    e.extend_from_slice(&[0x18, 0x01]);
    field_bytes(4, &[1, 2, 3], &mut e);
    let mut f = list(&[e]);
    // an unknown varint field of the list itself
    f.extend_from_slice(&[0x10, 0x07]);
    let entries = decode_geoip_list(&f).unwrap();
    assert_eq!(entries.len(), 1);
    assert_eq!(entries[0].cidr[0].ip, vec![1, 1, 1, 0]);
}

#[test]
fn decoding_refuses_invalid_utf8_codes() {
    let mut e = Vec::new();
    field_bytes(1, &[0xff, 0xfe], &mut e);
    assert!(decode_geoip_list(&list(&[e])).is_none());
}

#[test]
fn codes_of_entries() {
    let e = GeoIpEntry { country_code: "RU".to_string(), cidr: vec![], code: "".to_string() };
    assert_eq!(entry_code(&e), "RU");
    let e = GeoIpEntry { country_code: "RU".to_string(), cidr: vec![], code: "ru-special".to_string() };
    assert_eq!(entry_code(&e), "ru-special");
}

#[test]
fn cidr_entries_to_networks() {
    let c = CidrEntry { ip: vec![10, 0, 0, 5], prefix: 23 };
    let n = cidr_to_ipv4(&c).unwrap().unwrap();
    assert_eq!(n.to_string(), "10.0.0.0/23");
    let v6 = CidrEntry { ip: vec![0; 16], prefix: 64 };
    assert!(cidr_to_ipv4(&v6).unwrap().is_none());
    let odd = CidrEntry { ip: vec![1, 2, 3], prefix: 8 };
    assert!(cidr_to_ipv4(&odd).unwrap().is_none());
    let bad = CidrEntry { ip: vec![1, 2, 3, 4], prefix: 40 };
    assert_eq!(cidr_to_ipv4(&bad).err(), Some(GeoIpError::InvalidPrefix(40)));
}

#[test]
fn listing_codes_sorted_by_lowercase() {
    let codes = list_codes(&sample_file()).unwrap();
    let names: Vec<&str> = codes.iter().map(|c| c.code.as_str()).collect();
    // "cn" and "CN" have the same key and keep their file order
    assert_eq!(names, vec!["cn", "CN", "Private", "RU"]);
    let ru = &codes[3];
    assert_eq!((ru.cidr_count, ru.ipv4_count, ru.ipv6_count), (4, 3, 1));
    assert_eq!((codes[0].cidr_count, codes[0].ipv4_count, codes[0].ipv6_count), (1, 1, 0));
}

#[test]
fn listing_codes_of_a_broken_file() {
    assert_eq!(list_codes(&[0x0a, 0x09]).err(), Some(GeoIpError::Decode));
}

#[test]
fn loading_networks_of_chosen_codes() {
    let wanted = vec!["ru".to_string(), "PRIVATE".to_string()];
    let r = load_ipv4_cidrs(&sample_file(), &wanted).unwrap();
    let nets: Vec<String> = r.networks.iter().map(|n| n.to_string()).collect();
    assert_eq!(nets, vec!["1.2.3.4/32", "9.9.0.0/16", "10.0.0.0/23"]);
    assert_eq!(r.matched_codes, vec!["Private", "RU"]);
    assert_eq!(r.skipped_ipv6, 1);
}

#[test]
fn loading_matches_codes_case_insensitively() {
    let wanted = vec!["Cn".to_string()];
    let r = load_ipv4_cidrs(&sample_file(), &wanted).unwrap();
    assert_eq!(r.matched_codes, vec!["cn", "CN"]);
    let nets: Vec<String> = r.networks.iter().map(|n| n.to_string()).collect();
    assert_eq!(nets, vec!["8.8.8.0/24"]);
    assert_eq!(r.skipped_ipv6, 0);
}

#[test]
fn loading_nothing_when_no_code_matches() {
    let r = load_ipv4_cidrs(&sample_file(), &vec!["us".to_string()]).unwrap();
    assert!(r.networks.is_empty());
    assert!(r.matched_codes.is_empty());
}

#[test]
fn loading_refuses_an_invalid_prefix() {
    let f = list(&[geoip("RU", &[cidr(&[1, 2, 3, 4], 24), cidr(&[5, 6, 7, 8], 33)], "")]);
    assert_eq!(load_ipv4_cidrs(&f, &vec!["ru".to_string()]).err(), Some(GeoIpError::InvalidPrefix(33)));
    // the prefix of a code that is not chosen does not matter
    assert!(load_ipv4_cidrs(&f, &vec!["cn".to_string()]).is_ok());
}

#[test]
fn loading_a_broken_file() {
    assert_eq!(load_ipv4_cidrs(&[0xff], &vec!["ru".to_string()]).err(), Some(GeoIpError::Decode));
}

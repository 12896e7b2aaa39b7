use pizdos_scanner::geoip_dat::decode_geoip_list;
use pizdos_scanner::xray_geoip::{list_codes, load_ipv4_cidrs};
use prost::encoding::{bytes, encode_key, encode_varint, string, uint32, WireType};

fn nested(tag: u32, msg: &[u8], buf: &mut Vec<u8>) {
    encode_key(tag, WireType::LengthDelimited, buf);
    encode_varint(msg.len() as u64, buf);
    buf.extend_from_slice(msg);
}

fn cidr(ip: &[u8], prefix: u32) -> Vec<u8> {
    let mut b = Vec::new();
    bytes::encode(1, &ip.to_vec(), &mut b);
    uint32::encode(2, &prefix, &mut b);
    b
}

fn geoip(country: &str, cidrs: &[Vec<u8>], code: &str) -> Vec<u8> {
    let mut b = Vec::new();
    string::encode(1, &country.to_string(), &mut b);
    for c in cidrs {
        nested(2, c, &mut b);
    }
    prost::encoding::bool::encode(3, &true, &mut b);
    bytes::encode(4, &vec![7u8, 7, 7], &mut b);
    string::encode(5, &code.to_string(), &mut b);
    b
}

fn file(entries: &[Vec<u8>]) -> Vec<u8> {
    let mut b = Vec::new();
    for e in entries {
        nested(1, e, &mut b);
    }
    b
}

fn sample() -> Vec<u8> {
    file(&[
        geoip("RU", &[cidr(&[10, 0, 0, 0], 23), cidr(&[0x20, 1, 0x0d, 0xb8, 0, 0, 0, 0, 0, 0, 0, 0, 0, 0, 0, 0], 32)], ""),
        geoip("", &[cidr(&[9, 9, 0, 0], 16), cidr(&[8, 8, 8, 0], 24)], "Private"),
    ])
}

#[test]
fn encoder_output_decodes() {
    let entries = decode_geoip_list(&sample()).unwrap();
    assert_eq!(entries.len(), 2);
    assert_eq!(entries[0].country_code, "RU");
    assert_eq!(entries[0].code, "");
    assert_eq!(entries[0].cidr.len(), 2);
    assert_eq!(entries[0].cidr[0].ip, vec![10, 0, 0, 0]);
    assert_eq!(entries[0].cidr[0].prefix, 23);
    assert_eq!(entries[0].cidr[1].ip.len(), 16);
    assert_eq!(entries[1].code, "Private");
    assert_eq!(entries[1].cidr[1].ip, vec![8, 8, 8, 0]);
}

#[test]
fn encoder_output_lists_codes() {
    let codes = list_codes(&sample()).unwrap();
    assert_eq!(codes.len(), 2);
    assert_eq!(codes[0].code, "Private");
    assert_eq!((codes[0].cidr_count, codes[0].ipv4_count, codes[0].ipv6_count), (2, 2, 0));
    assert_eq!(codes[1].code, "RU");
    assert_eq!((codes[1].cidr_count, codes[1].ipv4_count, codes[1].ipv6_count), (2, 1, 1));
}

#[test]
fn encoder_output_loads_networks() {
    let loaded = load_ipv4_cidrs(&sample(), &["ru".to_string()]).unwrap();
    assert_eq!(loaded.matched_codes, vec!["RU".to_string()]);
    assert_eq!(loaded.networks.len(), 1);
    assert_eq!(loaded.networks[0].to_string(), "10.0.0.0/23");
    assert_eq!(loaded.skipped_ipv6, 1);
}

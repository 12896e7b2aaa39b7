use pizdos_scanner::commands::{geoip_scan_codes, geoip_scan_name};
use pizdos_scanner::finalize::subnet_echo_list;
use pizdos_scanner::geoip_dat::decode_geoip_list;
use pizdos_scanner::ipv4::{expand_to_24, ip_string, is_cidr_line, mask, split_ipv4_to_24, Ipv4Net};
use pizdos_scanner::scanner::scan_source;
use pizdos_scanner::text::{chars_of, dec_string, hex16_string, join_strings, str_eq, string_of, trim_chars};

fn net(a: u8, b: u8, c: u8, d: u8, prefix: u8) -> Ipv4Net {
    Ipv4Net { addr: u32::from_be_bytes([a, b, c, d]), prefix }
}

#[test]
fn decimal_text() {
    assert_eq!(dec_string(0), "0");
    assert_eq!(dec_string(7), "7");
    assert_eq!(dec_string(1234567890), "1234567890");
    assert_eq!(dec_string(u64::MAX), "18446744073709551615");
}

#[test]
fn hex_text_is_zero_padded() {
    assert_eq!(hex16_string(255), "00000000000000ff");
    assert_eq!(hex16_string(0xcbf29ce484222325), "cbf29ce484222325");
    assert_eq!(hex16_string(0), "0000000000000000");
}

#[test]
fn joining_strings() {
    let v = vec!["a".to_string(), "b".to_string(), "c".to_string()];
    assert_eq!(join_strings(&v, ", "), "a, b, c");
    assert_eq!(join_strings(&vec![], ","), "");
    assert_eq!(join_strings(&vec!["x".to_string()], ","), "x");
}

#[test]
fn trimming_unicode_white_space() {
    let t = trim_chars(&chars_of("  x y \t\n"));
    assert_eq!(string_of(&t), "x y");
    let t = trim_chars(&chars_of("\u{3000}ab\u{a0}"));
    assert_eq!(string_of(&t), "ab");
    assert_eq!(string_of(&trim_chars(&chars_of("   "))), "");
}

#[test]
fn case_conversions_change_the_text() {
    assert_eq!(geoip_scan_name("geoip_", &vec!["RU".to_string()]), "geoip_ru");
    assert_eq!(scan_source("ru_by"), "RU,BY");
    assert_eq!(geoip_scan_name("x_", &vec!["ПРИВЕТ".to_string()]), "x_привет");
}

fn string_field(tag: u8, bytes: &[u8]) -> Vec<u8> {
    let mut out = vec![(tag << 3) | 2, bytes.len() as u8];
    out.extend_from_slice(bytes);
    out
}

#[test]
fn utf8_decoding() {
    let entry = string_field(1, b"abc");
    let list = string_field(1, &entry);
    let decoded = decode_geoip_list(&list).unwrap();
    assert_eq!(decoded[0].country_code, "abc");
    let entry = string_field(1, "ж".as_bytes());
    let decoded = decode_geoip_list(&string_field(1, &entry)).unwrap();
    assert_eq!(decoded[0].country_code, "ж");
    let entry = string_field(1, &[0xff, 0x00]);
    assert!(decode_geoip_list(&string_field(1, &entry)).is_none());
}

#[test]
fn text_equality() {
    assert!(str_eq("abc", "abc"));
    assert!(!str_eq("abc", "abd"));
    assert!(!str_eq("abc", "ab"));
}

#[test]
fn network_and_broadcast_addresses() {
    let n = net(10, 1, 2, 3, 8);
    assert_eq!(n.network(), u32::from_be_bytes([10, 0, 0, 0]));
    assert_eq!(n.broadcast(), u32::from_be_bytes([10, 255, 255, 255]));
    assert_eq!(n.to_string(), "10.1.2.3/8");
    assert_eq!(n.key(), (u32::from_be_bytes([10, 0, 0, 0]) as u64) * 256 + 8);
    let all = net(1, 2, 3, 4, 0);
    assert_eq!(all.network(), 0);
    assert_eq!(all.broadcast(), u32::MAX);
}

#[test]
fn prefix_masks() {
    assert_eq!(mask(0), 0);
    assert_eq!(mask(24), 0xffff_ff00);
    assert_eq!(mask(32), 0xffff_ffff);
    assert_eq!(mask(1), 0x8000_0000);
}

#[test]
fn dotted_quad_text() {
    assert_eq!(ip_string(0x01020304), "1.2.3.4");
    assert_eq!(ip_string(0), "0.0.0.0");
    assert_eq!(ip_string(u32::MAX), "255.255.255.255");
}

#[test]
fn splitting_into_24_blocks() {
    let blocks = split_ipv4_to_24(net(10, 0, 0, 0, 22));
    let texts: Vec<String> = blocks.iter().map(|b| b.to_string()).collect();
    assert_eq!(texts, vec!["10.0.0.0/24", "10.0.1.0/24", "10.0.2.0/24", "10.0.3.0/24"]);
    // a network of at least /24 stays as it is
    let small = split_ipv4_to_24(net(1, 2, 3, 4, 30));
    assert_eq!(small.len(), 1);
    assert_eq!(small[0], net(1, 2, 3, 4, 30));
    // the blocks of an unaligned address start at its network
    let blocks = split_ipv4_to_24(net(192, 168, 5, 77, 23));
    let texts: Vec<String> = blocks.iter().map(|b| b.to_string()).collect();
    assert_eq!(texts, vec!["192.168.4.0/24", "192.168.5.0/24"]);
}

#[test]
fn split24_partition_blocks_cover_network() {
    let n = net(172, 16, 0, 0, 20);
    let blocks = split_ipv4_to_24(n);
    assert_eq!(blocks.len(), 16);
    for (i, b) in blocks.iter().enumerate() {
        assert_eq!(b.prefix, 24);
        assert_eq!(b.addr, n.network() + (i as u32) * 256);
    }
}

#[test]
fn parsing_network_text() {
    let one = vec!["1".to_string()];
    assert_eq!(subnet_echo_list("192.168.1.0/24", &one), Some(vec!["192.168.1.1".to_string()]));
    assert_eq!(subnet_echo_list("1.2.3.4", &one), Some(vec!["1.2.3.1".to_string()]));
    assert_eq!(subnet_echo_list("300.1.1.1/24", &one), None);
    assert_eq!(subnet_echo_list("1.2.3.4/33", &one), None);
    assert_eq!(subnet_echo_list("nonsense", &one), None);
    assert_eq!(expand_to_24(&vec!["192.168.1.7/24".to_string()]), Ok(vec![net(192, 168, 1, 7, 24)]));
}

#[test]
fn network_lines() {
    assert!(is_cidr_line(" 1.2.3.0/24 "));
    assert!(!is_cidr_line("  # comment"));
    assert!(!is_cidr_line(""));
    assert!(!is_cidr_line(" \t "));
}

#[test]
fn expanding_a_network_list() {
    let lines = vec![
        "10.0.1.0/24".to_string(),
        "# comment".to_string(),
        "".to_string(),
        " 10.0.0.0/23 ".to_string(),
        "9.9.9.9/32".to_string(),
    ];
    let blocks = expand_to_24(&lines).unwrap();
    let texts: Vec<String> = blocks.iter().map(|b| b.to_string()).collect();
    assert_eq!(texts, vec!["9.9.9.9/32", "10.0.0.0/24", "10.0.1.0/24"]);
}

#[test]
fn expanding_fails_on_a_bad_line() {
    let lines = vec!["10.0.0.0/24".to_string(), "not a network".to_string(), "bad again".to_string()];
    assert_eq!(expand_to_24(&lines), Err("not a network".to_string()));
}

#[test]
fn expanding_keeps_first_of_equal_blocks() {
    let lines = vec!["10.0.0.7/24".to_string(), "10.0.0.0/24".to_string()];
    let blocks = expand_to_24(&lines).unwrap();
    assert_eq!(blocks.len(), 1);
    assert_eq!(blocks[0], net(10, 0, 0, 7, 24));
}

#[test]
fn geoip_scan_code_choice() {
    let args = vec!["RU".to_string()];
    let config = vec!["BY".to_string(), "KZ".to_string()];
    assert_eq!(geoip_scan_codes(args.clone(), config.clone()), Some(args));
    assert_eq!(geoip_scan_codes(vec![], config.clone()), Some(config));
    assert_eq!(geoip_scan_codes(vec![], vec![]), None);
}

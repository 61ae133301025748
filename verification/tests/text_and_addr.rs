use maxwell_master::addr::{detect_addr_type, ip_is_private_v4, ip_to_text, AddrType, IpAddr};
use maxwell_master::text::{dec_u32, dec_u64, endpoint, hex_u16, sort_strings, str_lt, u32_list};
use maxwell_master::topic_hash::topic_hash_of;

#[test]
fn decimal_rendering() {
    assert_eq!(dec_u64(0).as_str(), "0");
    assert_eq!(dec_u64(7).as_str(), "7");
    assert_eq!(dec_u64(1234567890123).as_str(), "1234567890123");
    assert_eq!(dec_u32(4294967295).as_str(), "4294967295");
}

#[test]
fn hex_rendering() {
    assert_eq!(hex_u16(0).as_str(), "0");
    assert_eq!(hex_u16(10).as_str(), "a");
    assert_eq!(hex_u16(0x2f).as_str(), "2f");
    assert_eq!(hex_u16(0xffff).as_str(), "ffff");
}

#[test]
fn list_rendering() {
    assert_eq!(u32_list(&vec![]).as_str(), "[]");
    assert_eq!(u32_list(&vec![5]).as_str(), "[5]");
    assert_eq!(u32_list(&vec![1, 22, 333]).as_str(), "[1, 22, 333]");
}

#[test]
fn endpoint_rendering() {
    assert_eq!(endpoint("10.0.0.1", 80).as_str(), "10.0.0.1:80");
    assert_eq!(endpoint("f1.example", 443).as_str(), "f1.example:443");
}

#[test]
fn lexicographic_compare_and_sort() {
    assert!(str_lt("a", "b"));
    assert!(str_lt("a", "ab"));
    assert!(!str_lt("ab", "a"));
    assert!(!str_lt("a", "a"));
    let sorted = sort_strings(vec![
        String::from("10.0.1.2:8080"),
        String::from("10.0.1.1:8080"),
    ]);
    assert_eq!(sorted[0].as_str(), "10.0.1.1:8080");
    assert_eq!(sorted[1].as_str(), "10.0.1.2:8080");
}

#[test]
fn ip_text_forms() {
    assert_eq!(ip_to_text(&IpAddr::V4(10, 0, 0, 1)).as_str(), "10.0.0.1");
    assert_eq!(ip_to_text(&IpAddr::V4(255, 255, 255, 255)).as_str(), "255.255.255.255");
    assert_eq!(
        ip_to_text(&IpAddr::V6(0x2001, 0xdb8, 0, 0, 0, 0, 0, 1)).as_str(),
        "2001:db8:0:0:0:0:0:1"
    );
}

#[test]
fn locality_classification() {
    assert_eq!(detect_addr_type(&IpAddr::V4(127, 0, 0, 1)), AddrType::Loopback);
    assert_eq!(detect_addr_type(&IpAddr::V4(10, 0, 0, 99)), AddrType::Private);
    assert_eq!(detect_addr_type(&IpAddr::V4(172, 16, 0, 1)), AddrType::Private);
    assert_eq!(detect_addr_type(&IpAddr::V4(172, 31, 255, 1)), AddrType::Private);
    assert_eq!(detect_addr_type(&IpAddr::V4(172, 32, 0, 1)), AddrType::Public);
    assert_eq!(detect_addr_type(&IpAddr::V4(192, 168, 1, 1)), AddrType::Private);
    assert_eq!(detect_addr_type(&IpAddr::V4(8, 8, 8, 8)), AddrType::Public);
    // An IPv6 peer always classifies as public.
    assert_eq!(detect_addr_type(&IpAddr::V6(0, 0, 0, 0, 0, 0, 0, 1)), AddrType::Public);
    assert!(!ip_is_private_v4(&IpAddr::V6(0xfd00, 0, 0, 0, 0, 0, 0, 1)));
}

#[test]
fn topic_hash_is_fixed() {
    assert_eq!(topic_hash_of(""), 14695981039346656037);
    assert_eq!(topic_hash_of("a"), 0xaf63dc4c8601ec8c);
    assert_eq!(topic_hash_of("t1"), topic_hash_of("t1"));
    assert_ne!(topic_hash_of("t1"), topic_hash_of("t2"));
}

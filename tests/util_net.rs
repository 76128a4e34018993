use rust_util::util_net::{
    get_ipv4_mask, ipv4_mask, ipv4_to_u32, parse_ip_and_port, parse_ipv4_addr, IpAddress,
    IpAddressAndPort, IpAddressMask, IpAddressMaskGroup, IpAndIpMaskMatcher, SocketAddress,
};

#[test]
fn test_ip_address_is_matches() {
    let addr = SocketAddress::V4([127, 0, 0, 1], 123);
    let addr2 = SocketAddress::V4([127, 0, 0, 2], 123);
    assert_eq!(true, IpAddressMask::parse_ipv4("127.0.0.1").unwrap().is_matches(&addr));
    assert_eq!(true, IpAddressMask::parse_ipv4("127.0.0.1/32").unwrap().is_matches(&addr));
    assert_eq!(true, IpAddressMask::parse_ipv4("127.0.0.1/31").unwrap().is_matches(&addr));
    assert_eq!(true, IpAddressMask::parse_ipv4("127.0.0.1/30").unwrap().is_matches(&addr));
    assert_eq!(false, IpAddressMask::parse_ipv4("127.0.0.1").unwrap().is_matches(&addr2));
    assert_eq!(false, IpAddressMask::parse_ipv4("127.0.0.1/32").unwrap().is_matches(&addr2));
    assert_eq!(false, IpAddressMask::parse_ipv4("127.0.0.1/31").unwrap().is_matches(&addr2));
    assert_eq!(true, IpAddressMask::parse_ipv4("127.0.0.1/30").unwrap().is_matches(&addr2));
}

#[test]
fn test_ip_address_port() {
    let ip_address_and_port = IpAddressAndPort::parse(":80");
    assert_eq!("127.0.0.1:80", ip_address_and_port.unwrap().to_address());
    let ip_address_and_port = IpAddressAndPort::parse("0.0.0.0:80");
    assert_eq!("0.0.0.0:80", ip_address_and_port.unwrap().to_address());
    let ip_address_and_port = IpAddressAndPort::parse("1.1.1.1:80");
    assert_eq!("1.1.1.1:80", ip_address_and_port.unwrap().to_address());
}

#[test]
fn test_ip_address_mask_group_is_matches() {
    let group = IpAddressMaskGroup::parse(&vec!["127.0.0.1".to_owned(), "10.0.0.0/24".to_owned()]);
    let addr = SocketAddress::V4([127, 0, 0, 1], 123);
    assert_eq!(true, group.is_matches(&addr));
    let addr = SocketAddress::V4([127, 0, 0, 2], 123);
    assert_eq!(false, group.is_matches(&addr));
    let addr = SocketAddress::V4([10, 0, 0, 2], 123);
    assert_eq!(true, group.is_matches(&addr));
    let addr = SocketAddress::V4([10, 0, 1, 2], 123);
    assert_eq!(false, group.is_matches(&addr));
}

#[test]
fn test_get_ipv4_mask() {
    assert_eq!([0, 0, 0, 0], get_ipv4_mask(0).to_be_bytes());
    assert_eq!([128, 0, 0, 0], get_ipv4_mask(1).to_be_bytes());
    assert_eq!([192, 0, 0, 0], get_ipv4_mask(2).to_be_bytes());
    assert_eq!([224, 0, 0, 0], get_ipv4_mask(3).to_be_bytes());
    assert_eq!([240, 0, 0, 0], get_ipv4_mask(4).to_be_bytes());
    assert_eq!([248, 0, 0, 0], get_ipv4_mask(5).to_be_bytes());
    assert_eq!([252, 0, 0, 0], get_ipv4_mask(6).to_be_bytes());
    assert_eq!([254, 0, 0, 0], get_ipv4_mask(7).to_be_bytes());
    assert_eq!([255, 0, 0, 0], get_ipv4_mask(8).to_be_bytes());
    assert_eq!([255, 128, 0, 0], get_ipv4_mask(9).to_be_bytes());
    assert_eq!([255, 192, 0, 0], get_ipv4_mask(10).to_be_bytes());
    assert_eq!([255, 224, 0, 0], get_ipv4_mask(11).to_be_bytes());
    assert_eq!([255, 240, 0, 0], get_ipv4_mask(12).to_be_bytes());
    assert_eq!([255, 248, 0, 0], get_ipv4_mask(13).to_be_bytes());
    assert_eq!([255, 252, 0, 0], get_ipv4_mask(14).to_be_bytes());
    assert_eq!([255, 254, 0, 0], get_ipv4_mask(15).to_be_bytes());
    assert_eq!([255, 255, 255, 254], get_ipv4_mask(31).to_be_bytes());
    assert_eq!([255, 255, 255, 255], get_ipv4_mask(32).to_be_bytes());
}

#[test]
fn test_ip_and_ip_mask_matcher() {
    {
        let mut matcher = IpAndIpMaskMatcher::new();
        matcher.add_ip_address(&IpAddress::Ipv4([127, 0, 0, 1]));
        assert!(matcher.contains_ip_address(&IpAddress::Ipv4([127, 0, 0, 1])));
        assert!(!matcher.contains_ip_address_mask(&IpAddress::Ipv4([127, 0, 0, 0]), 31));
    }
    {
        let mut matcher = IpAndIpMaskMatcher::new();
        matcher.add_ip_address_mask(&IpAddress::Ipv4([127, 0, 0, 0]), 24);
        assert!(matcher.contains_ip_address(&IpAddress::Ipv4([127, 0, 0, 1])));
        assert!(matcher.contains_ip_address_mask(&IpAddress::Ipv4([127, 0, 0, 0]), 31));
        assert!(matcher.contains_ip_address_mask(&IpAddress::Ipv4([127, 0, 0, 0]), 30));
        assert!(matcher.contains_ip_address_mask(&IpAddress::Ipv4([127, 0, 0, 0]), 24));
        assert!(!matcher.contains_ip_address_mask(&IpAddress::Ipv4([127, 0, 0, 0]), 23));
    }
    {
        let mut matcher = IpAndIpMaskMatcher::new();
        matcher.add_ip_address_mask(&IpAddress::Ipv4([0, 0, 0, 0]), 0);
        assert!(matcher.contains_ip_address(&IpAddress::Ipv4([127, 0, 0, 1])));
        assert!(matcher.contains_ip_address_mask(&IpAddress::Ipv4([127, 0, 0, 0]), 31));
        assert!(matcher.contains_ip_address_mask(&IpAddress::Ipv4([127, 0, 0, 0]), 30));
        assert!(matcher.contains_ip_address_mask(&IpAddress::Ipv4([127, 0, 0, 0]), 24));
        assert!(matcher.contains_ip_address_mask(&IpAddress::Ipv4([127, 0, 0, 0]), 23));
    }
    {
        let mut matcher = IpAndIpMaskMatcher::new();
        matcher.add_ip_address_mask(&IpAddress::Ipv4([192, 168, 1, 2]), 32);
        assert!(matcher.contains_ip_address(&IpAddress::Ipv4([192, 168, 1, 2])));
        assert!(!matcher.contains_ip_address_mask(&IpAddress::Ipv4([192, 168, 1, 2]), 31));
    }
    {
        let mut matcher = IpAndIpMaskMatcher::new();
        matcher.add_ip_address_mask(&IpAddress::Ipv4([192, 168, 1, 2]), 16);
        assert!(matcher.contains_ip_address(&IpAddress::Ipv4([192, 168, 1, 2])));
        assert!(matcher.contains_ip_address_mask(&IpAddress::Ipv4([192, 168, 1, 2]), 31));
    }
}

#[test]
fn address_text_round_trips() {
    for text in ["0.0.0.0", "255.255.255.255", "127.0.0.1", "10.20.30.40", "1.2.3.4"] {
        let addr = IpAddress::parse_ipv4(text).unwrap();
        assert_eq!(text, addr.to_address());
    }
    assert_eq!(Some([10, 0, 0, 1]), parse_ipv4_addr("10.0.0.1"));
}

#[test]
fn address_parse_rejects_malformed_text() {
    assert_eq!(None, parse_ipv4_addr("1.2.3.256"));
    assert_eq!(None, parse_ipv4_addr("1.2.3"));
    assert_eq!(None, parse_ipv4_addr("1.2.3.4.5"));
    assert_eq!(None, parse_ipv4_addr("1.2..4"));
    assert_eq!(None, parse_ipv4_addr(" 1.2.3.4"));
    assert_eq!(None, parse_ipv4_addr("1.2.3.x"));
    assert_eq!(None, parse_ipv4_addr(""));
    assert!(IpAddress::parse_ipv4("1.2.3.256").is_none());
}

#[test]
fn address_parse_reads_numbers_as_rust_does() {
    assert_eq!(Some([1, 2, 3, 4]), parse_ipv4_addr("001.2.3.+4"));
    assert_eq!(None, parse_ipv4_addr("1.2.3.+"));
    assert_eq!(None, parse_ipv4_addr("1.2.3.-4"));
}

#[test]
fn rule_parse_checks_prefix_length() {
    assert!(IpAddressMask::parse_ipv4("1.2.3.4/33").is_none());
    assert!(IpAddressMask::parse_ipv4("1.2.3.4/").is_none());
    assert!(IpAddressMask::parse_ipv4("1.2.3.4/1/2").is_none());
    assert!(IpAddressMask::parse_ipv4("1.2.3/8").is_none());
    assert_eq!("1.2.3.4/32", IpAddressMask::parse_ipv4("1.2.3.4").unwrap().to_address());
    assert_eq!("1.2.3.4/0", IpAddressMask::parse_ipv4("1.2.3.4/0").unwrap().to_address());
    assert_eq!("10.0.0.0/24", IpAddressMask::parse_ipv4("10.0.0.0/24").unwrap().to_address());
}

#[test]
fn mask_values_are_exact() {
    assert_eq!(0, ipv4_mask(0));
    assert_eq!(0xFFFF_FFFF, ipv4_mask(32));
    assert_eq!(0xFFFF_FFFF, ipv4_mask(40));
    assert_eq!(0b1111_1111_1000_0000_0000_0000_0000_0000, get_ipv4_mask(9));
    for k in 0..=32u8 {
        assert_eq!(k as u32, get_ipv4_mask(k).leading_ones());
        assert_eq!(32 - k as u32, get_ipv4_mask(k).count_zeros());
    }
}

#[test]
fn octets_read_big_endian() {
    assert_eq!(0x7F00_0001, ipv4_to_u32(&[127, 0, 0, 1]));
    assert_eq!(0x0102_0304, IpAddress::Ipv4([1, 2, 3, 4]).to_u32());
    assert!(IpAddress::Ipv4([1, 2, 3, 4]) < IpAddress::Ipv4([1, 2, 4, 0]));
    assert!(IpAddress::Ipv4([2, 0, 0, 0]) > IpAddress::Ipv4([1, 255, 255, 255]));
}

#[test]
fn rule_extremes() {
    let exact = IpAddressMask::Ipv4([192, 168, 1, 2], 32);
    assert!(exact.is_matches(&SocketAddress::V4([192, 168, 1, 2], 1)));
    assert!(!exact.is_matches(&SocketAddress::V4([192, 168, 1, 3], 1)));
    let all = IpAddressMask::Ipv4([192, 168, 1, 2], 0);
    assert!(all.is_matches(&SocketAddress::V4([8, 8, 8, 8], 53)));
    assert!(all.is_matches(&SocketAddress::V4([0, 0, 0, 0], 0)));
    assert!(IpAddress::Ipv4([10, 0, 0, 1]).is_matches(&SocketAddress::V4([10, 0, 0, 1], 80)));
    assert!(!IpAddress::Ipv4([10, 0, 0, 1]).is_matches(&SocketAddress::V4([10, 0, 0, 2], 80)));
}

#[test]
fn ipv6_endpoints_never_match() {
    let v6 = SocketAddress::V6([0, 0, 0, 0, 0, 0, 0, 1], 80);
    assert!(!IpAddressMask::Ipv4([0, 0, 0, 0], 0).is_matches(&v6));
    assert!(!IpAddress::Ipv4([127, 0, 0, 1]).is_matches(&v6));
    let group = IpAddressMaskGroup::parse(&vec!["0.0.0.0/0".to_owned()]);
    assert!(!group.is_matches(&v6));
    assert!(!group.is_empty_or_matches(&v6));
}

#[test]
fn empty_group_policies_differ() {
    let group = IpAddressMaskGroup::parse(&vec!["bad".to_owned(), "1.2.3.4/40".to_owned()]);
    assert!(group.is_empty());
    let addr = SocketAddress::V4([1, 2, 3, 4], 1);
    assert!(!group.is_matches(&addr));
    assert!(group.is_empty_or_matches(&addr));
    let group = IpAddressMaskGroup::parse(&vec![]);
    assert!(group.is_empty_or_matches(&SocketAddress::V6([0; 8], 1)));
}

#[test]
fn group_keeps_good_rules_in_order() {
    let group = IpAddressMaskGroup::parse(&vec![
        "127.0.0.1".to_owned(),
        "nope".to_owned(),
        "10.0.0.0/24".to_owned(),
    ]);
    assert_eq!(2, group.ip_address_mask_group.len());
    assert_eq!("127.0.0.1/32", group.ip_address_mask_group[0].to_address());
    assert_eq!("10.0.0.0/24", group.ip_address_mask_group[1].to_address());
    let addr = SocketAddress::V4([10, 0, 0, 5], 9);
    assert!(group.is_matches(&addr));
    assert!(group.is_empty_or_matches(&addr));
    assert!(!group.is_matches(&SocketAddress::V4([10, 0, 1, 5], 9)));
    assert_eq!("[127.0.0.1/32, 10.0.0.0/24]", group.to_text());
    assert_eq!("[]", IpAddressMaskGroup::parse(&[]).to_text());
}

#[test]
fn end_to_end_scenarios() {
    let group = IpAddressMaskGroup::parse(&["127.0.0.1".to_owned(), "10.0.0.0/24".to_owned()]);
    assert!(group.is_matches(&SocketAddress::V4([127, 0, 0, 1], 1)));
    assert!(!group.is_matches(&SocketAddress::V4([127, 0, 0, 2], 1)));
    assert!(group.is_matches(&SocketAddress::V4([10, 0, 0, 5], 1)));
    assert!(!group.is_matches(&SocketAddress::V4([10, 0, 1, 5], 1)));

    let mut matcher = IpAndIpMaskMatcher::new();
    matcher.add_ip_address_mask(&IpAddress::parse_ipv4("127.0.0.0").unwrap(), 24);
    assert!(matcher.contains_ip_address(&IpAddress::parse_ipv4("127.0.0.1").unwrap()));
    assert!(!matcher.contains_ip_address_mask(&IpAddress::parse_ipv4("127.0.0.0").unwrap(), 23));

    let mut wildcard = IpAndIpMaskMatcher::default();
    wildcard.add_ip_address_mask(&IpAddress::parse_ipv4("0.0.0.0").unwrap(), 0);
    assert!(wildcard.contains_ip_address(&IpAddress::parse_ipv4("8.8.8.8").unwrap()));

    assert!(IpAddressMask::parse_ipv4("1.2.3.4/33").is_none());
    assert!(IpAddress::parse_ipv4("1.2.3.256").is_none());
}

#[test]
fn matcher_scenarios() {
    let mut matcher = IpAndIpMaskMatcher::new();
    assert!(matcher.add_ip_address_mask(&IpAddress::parse_ipv4("127.0.0.0").unwrap(), 24));
    assert!(matcher.contains_ip_address(&IpAddress::parse_ipv4("127.0.0.1").unwrap()));
    assert!(!matcher.contains_ip_address_mask(&IpAddress::parse_ipv4("127.0.0.0").unwrap(), 23));
    for last in 0..=255u8 {
        for len in 24..=32u8 {
            assert!(matcher.contains_ip_address_mask(&IpAddress::Ipv4([127, 0, 0, last]), len));
        }
        assert!(!matcher.contains_ip_address_mask(&IpAddress::Ipv4([127, 0, 0, last]), 23));
    }
    assert!(!matcher.contains_ip_address(&IpAddress::Ipv4([127, 0, 1, 0])));

    let mut wildcard = IpAndIpMaskMatcher::new();
    assert!(wildcard.add_ip_address_mask(&IpAddress::parse_ipv4("0.0.0.0").unwrap(), 0));
    assert!(wildcard.contains_ip_address(&IpAddress::parse_ipv4("8.8.8.8").unwrap()));
    for len in 0..=32u8 {
        assert!(wildcard.contains_ip_address_mask(&IpAddress::Ipv4([203, 0, 113, 9]), len));
    }
    assert!(!wildcard.contains_ip_address_mask(&IpAddress::Ipv4([203, 0, 113, 9]), 33));
}

#[test]
fn matcher_refuses_long_prefix() {
    let mut matcher = IpAndIpMaskMatcher::new();
    assert!(!matcher.add_ip_address_mask(&IpAddress::Ipv4([1, 2, 3, 4]), 33));
    assert!(!matcher.contains_ip_address(&IpAddress::Ipv4([1, 2, 3, 4])));
    assert!(matcher.add_ip_address(&IpAddress::Ipv4([1, 2, 3, 4])));
    assert!(matcher.contains_ip_address(&IpAddress::Ipv4([1, 2, 3, 4])));
    assert!(matcher.contains_ip_address_mask(&IpAddress::Ipv4([1, 2, 3, 4]), 32));
    assert!(!matcher.contains_ip_address_mask(&IpAddress::Ipv4([1, 2, 3, 4]), 31));
    assert!(!matcher.contains_ip_address_mask(&IpAddress::Ipv4([1, 2, 3, 4]), 33));
}

#[test]
fn empty_matcher_covers_nothing() {
    let matcher = IpAndIpMaskMatcher::new();
    assert!(!matcher.contains_ip_address(&IpAddress::Ipv4([0, 0, 0, 0])));
    assert!(!matcher.contains_ip_address_mask(&IpAddress::Ipv4([0, 0, 0, 0]), 0));
}

#[test]
fn listen_text_parses() {
    assert_eq!(Some(([127, 0, 0, 1], 8080)), parse_ip_and_port(":8080"));
    assert_eq!(Some(([1, 2, 3, 4], 65535)), parse_ip_and_port("1.2.3.4:65535:9"));
    assert_eq!(None, parse_ip_and_port("1.2.3.4"));
    assert_eq!(None, parse_ip_and_port("1.2.3.4:65536"));
    assert_eq!(None, parse_ip_and_port("1.2.3:80"));
    assert_eq!(None, parse_ip_and_port(":"));
    let p = IpAddressAndPort::parse("10.1.2.3:443").unwrap();
    assert_eq!(([10, 1, 2, 3], 443), p.to_ipv4_and_port());
    assert_eq!(443, p.port);
    assert!(IpAddressAndPort::parse("x:1").is_none());
}

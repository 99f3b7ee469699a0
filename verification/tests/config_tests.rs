use dnsrelay::config::ConfigBuilder;
use dnsrelay::config::ConfigError;
use dnsrelay::config::NetworkType;
use dnsrelay::config::RequestRuleConfig;
use dnsrelay::config::UpstreamConfig;
use dnsrelay::config::Upstream;
use dnsrelay::domain::Domains;
use dnsrelay::ip::Cidr;
use dnsrelay::ip::IpAddress;
use dnsrelay::ip::IpRange;

fn upstream(address: &str, network: NetworkType, default: bool) -> UpstreamConfig {
    UpstreamConfig {
        address: address.to_string(),
        network,
        proxy: None,
        tls_host: None,
        default,
    }
}

fn builder_with(upstreams: Vec<(String, UpstreamConfig)>) -> ConfigBuilder {
    ConfigBuilder {
        bind: "127.0.0.1:5300".to_string(),
        upstreams,
        domains: vec![],
        ranges: vec![],
        requests: vec![],
        responses: vec![],
    }
}

fn v4(a: u8, b: u8, c: u8, d: u8) -> IpAddress {
    IpAddress::V4(u32::from_be_bytes([a, b, c, d]))
}

#[test]
fn suffix_matches_whole_labels_only() {
    let d = Domains::build(&vec!["example.com".to_string()]);
    assert!(d.matches("a.b.example.com"));
    assert!(d.matches("example.com"));
    assert!(!d.matches("badexample.com"));
}

#[test]
fn suffix_match_folds_case() {
    let d = Domains::build(&vec!["example.com".to_string()]);
    assert!(d.matches("WWW.Example.COM"));
}

#[test]
fn domain_line_markers() {
    let lines = vec![
        "# a comment".to_string(),
        "".to_string(),
        "full:exact.example".to_string(),
        ".dotted.example".to_string(),
        "regexp:^foo.*bar$".to_string(),
    ];
    let d = Domains::build(&lines);
    assert_eq!(d.suffix_set, vec!["exact.example".to_string(), "dotted.example".to_string()]);
    assert_eq!(d.regex_set, vec!["^foo.*bar$".to_string()]);
    assert!(d.matches("foozzzbar"));
    assert!(!d.matches("bar"));
    assert!(d.matches("exact.example"));
}

#[test]
fn range_canonicalization_merges_adjacent_blocks() {
    let mut r = IpRange::new();
    // 10.0.0.0/9 and 10.128.0.0/9 coalesce to 10.0.0.0/8.
    r.add(Cidr { is_v6: false, addr: u32::from_be_bytes([10, 0, 0, 0]) as u128, prefix: 9 });
    r.add(Cidr { is_v6: false, addr: u32::from_be_bytes([10, 128, 0, 0]) as u128, prefix: 9 });
    r.simplify();
    assert_eq!(r.v4.items.len(), 1);
    let lo = u32::from_be_bytes([10, 0, 0, 0]) as u128;
    let hi = u32::from_be_bytes([10, 255, 255, 255]) as u128;
    assert_eq!(r.v4.items[0], (lo, hi));
    assert!(r.contains(v4(10, 5, 0, 1)));
    assert!(r.contains(v4(10, 0, 0, 0)));
    assert!(r.contains(v4(10, 255, 255, 255)));
    assert!(!r.contains(v4(9, 255, 255, 255)));
    assert!(!r.contains(v4(11, 0, 0, 0)));
}

#[test]
fn range_lines_parse_through_config() {
    let mut b = builder_with(vec![(
        "u1".to_string(),
        upstream("1.1.1.1:53", NetworkType::Udp, true),
    )]);
    b.ranges = vec![(
        "cn".to_string(),
        vec![
            "# header".to_string(),
            " 10.0.0.0/9 ".to_string(),
            "10.128.0.0/9".to_string(),
            "2001:db8::/32".to_string(),
        ],
    )];
    let config = b.build().unwrap();
    let range = &config.ranges[0].1;
    assert_eq!(range.v4.items.len(), 1);
    assert!(range.contains(v4(10, 200, 0, 1)));
    assert!(!range.contains(v4(192, 0, 2, 1)));
    assert!(range.contains(IpAddress::V6(0x2001_0db8_0000_0000_0000_0000_0000_0001)));
    assert!(!range.contains(IpAddress::V6(0x2001_0db9_0000_0000_0000_0000_0000_0001)));
}

#[test]
fn bad_cidr_line_is_rejected() {
    let mut b = builder_with(vec![(
        "u1".to_string(),
        upstream("1.1.1.1:53", NetworkType::Udp, true),
    )]);
    b.ranges = vec![("cn".to_string(), vec!["10.0.0.0/33".to_string()])];
    match b.build() {
        Err(ConfigError::InvalidAddress(l)) => assert_eq!(l, "10.0.0.0/33"),
        other => panic!("expected InvalidAddress, got {:?}", other),
    }
}

#[test]
fn no_default_upstream_is_rejected() {
    let b = builder_with(vec![(
        "u1".to_string(),
        upstream("1.1.1.1:53", NetworkType::Udp, false),
    )]);
    assert!(matches!(b.build(), Err(ConfigError::NoUpstream)));
}

#[test]
fn bad_upstream_address_is_rejected() {
    let b = builder_with(vec![(
        "u1".to_string(),
        upstream("not an address", NetworkType::Udp, true),
    )]);
    match b.build() {
        Err(ConfigError::InvalidAddress(a)) => assert_eq!(a, "not an address"),
        other => panic!("expected InvalidAddress, got {:?}", other),
    }
}

#[test]
fn tls_upstream_needs_tls_host() {
    let b = builder_with(vec![(
        "u1".to_string(),
        upstream("1.1.1.1:853", NetworkType::Tls, true),
    )]);
    assert!(matches!(b.build(), Err(ConfigError::NoTlsHost)));
}

#[test]
fn bare_address_takes_default_port() {
    for (network, port) in [
        (NetworkType::Udp, 53u16),
        (NetworkType::Tcp, 53),
        (NetworkType::Tls, 853),
        (NetworkType::Https, 443),
    ] {
        assert_eq!(network.default_port(), port);
    }
    let mut conf = upstream("9.9.9.9", NetworkType::Udp, true);
    conf.default = UpstreamConfig::default_default();
    match conf.build().unwrap() {
        Upstream::UdpUpstream { address } => {
            assert_eq!(address.len(), 1);
            assert_eq!(address[0].port, 53);
            assert_eq!(address[0].ip, v4(9, 9, 9, 9));
        }
        other => panic!("expected UDP upstream, got {:?}", other),
    }
}

#[test]
fn explicit_port_and_bracketed_v6() {
    match upstream("9.9.9.9:5353", NetworkType::Udp, true).build().unwrap() {
        Upstream::UdpUpstream { address } => {
            assert_eq!(address[0].port, 5353);
            assert_eq!(address[0].ip, v4(9, 9, 9, 9));
        }
        other => panic!("unexpected {:?}", other),
    }
    match upstream("[2001:db8::1]:5353", NetworkType::Udp, true).build().unwrap() {
        Upstream::UdpUpstream { address } => {
            assert_eq!(address[0].port, 5353);
            assert_eq!(
                address[0].ip,
                IpAddress::V6(0x2001_0db8_0000_0000_0000_0000_0000_0001)
            );
        }
        other => panic!("unexpected {:?}", other),
    }
    match upstream("2001:db8::1", NetworkType::Udp, true).build().unwrap() {
        Upstream::UdpUpstream { address } => {
            assert_eq!(address[0].port, 53);
        }
        other => panic!("unexpected {:?}", other),
    }
}

#[test]
fn record_types_resolve_to_wire_codes() {
    let rule = RequestRuleConfig {
        domains: None,
        types: Some(vec!["A".to_string(), "AAAA".to_string(), "MX".to_string()]),
        upstreams: vec!["u1".to_string()],
    };
    let built = rule.build().unwrap();
    assert_eq!(built.types, Some(vec![1u16, 28, 15]));
}

#[test]
fn unknown_record_type_is_rejected() {
    let rule = RequestRuleConfig {
        domains: None,
        types: Some(vec!["NOT_A_TYPE".to_string()]),
        upstreams: vec!["u1".to_string()],
    };
    match rule.build() {
        Err(ConfigError::InvalidAddress(t)) => assert_eq!(t, "NOT_A_TYPE"),
        other => panic!("expected InvalidAddress, got {:?}", other),
    }
}

#[test]
fn bind_address_requires_port() {
    let mut b = builder_with(vec![(
        "u1".to_string(),
        upstream("1.1.1.1:53", NetworkType::Udp, true),
    )]);
    b.bind = "127.0.0.1".to_string();
    assert!(matches!(b.build(), Err(ConfigError::InvalidAddress(_))));
}

#[test]
fn domain_lines_are_trimmed_in_config() {
    let mut b = builder_with(vec![(
        "u1".to_string(),
        upstream("1.1.1.1:53", NetworkType::Udp, true),
    )]);
    b.domains = vec![("cn-list".to_string(), vec!["  cn  ".to_string(), "\t# note".to_string()])];
    let config = b.build().unwrap();
    let d = &config.domains[0].1;
    assert_eq!(d.suffix_set, vec!["cn".to_string()]);
    assert!(d.matches("www.example.cn"));
    assert!(!d.matches("www.example.com"));
}

#[test]
fn lowercase_record_type_is_rejected() {
    // The record-type parser admits only names without ASCII lowercase;
    // a lowercase name is a configuration error, not a panic.
    let rule = RequestRuleConfig {
        domains: None,
        types: Some(vec!["a".to_string()]),
        upstreams: vec!["u1".to_string()],
    };
    match rule.build() {
        Err(ConfigError::InvalidAddress(t)) => assert_eq!(t, "a"),
        other => panic!("expected InvalidAddress, got {:?}", other),
    }
}

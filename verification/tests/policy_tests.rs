use dnsrelay::config::ConfigBuilder;
use dnsrelay::config::Config;
use dnsrelay::config::NetworkType;
use dnsrelay::config::RequestRuleConfig;
use dnsrelay::config::ResponseRule;
use dnsrelay::config::RuleAction;
use dnsrelay::config::UpstreamConfig;
use dnsrelay::dispatch::UpstreamEvent;
use dnsrelay::handler::Handler;
use dnsrelay::handler::MessageType;
use dnsrelay::handler::OpCode;
use dnsrelay::handler::ResponseCode;
use dnsrelay::ip::IpAddress;

fn upstream(address: &str, network: NetworkType, default: bool) -> UpstreamConfig {
    UpstreamConfig {
        address: address.to_string(),
        network,
        proxy: None,
        tls_host: None,
        default,
    }
}

fn base_builder() -> ConfigBuilder {
    ConfigBuilder {
        bind: "127.0.0.1:5300".to_string(),
        upstreams: vec![("u1".to_string(), upstream("1.1.1.1:53", NetworkType::Udp, true))],
        domains: vec![],
        ranges: vec![],
        requests: vec![],
        responses: vec![],
    }
}

fn names(v: &[String]) -> Vec<&str> {
    v.iter().map(|s| s.as_str()).collect()
}

#[test]
fn single_default_upstream_answers_noerror() {
    let config = base_builder().build().unwrap();
    let handler = Handler::new(config);
    let plan = handler.lookup_plan("example.com", 1);
    assert_eq!(names(&plan), ["u1"]);
    let events = vec![UpstreamEvent::Answered {
        name: "u1".to_string(),
        ips: vec![IpAddress::V4(u32::from_be_bytes([93, 184, 216, 34]))],
    }];
    let (code, winner) = handler.decide("example.com", &events);
    assert_eq!(code, ResponseCode::NoError);
    assert_eq!(winner, Some(0));
}

fn two_upstream_drop_config() -> Config {
    let mut b = base_builder();
    b.upstreams = vec![
        ("u1".to_string(), upstream("1.1.1.1:53", NetworkType::Udp, true)),
        ("u2".to_string(), upstream("9.9.9.9:53", NetworkType::Udp, true)),
    ];
    b.ranges = vec![("cn".to_string(), vec!["1.0.0.0/8".to_string()])];
    b.responses = vec![ResponseRule {
        upstreams: Some(vec!["u1".to_string()]),
        ranges: Some(vec!["cn".to_string()]),
        domains: None,
        action: RuleAction::Drop,
    }];
    b.build().unwrap()
}

fn answered(name: &str, octets: [u8; 4]) -> UpstreamEvent {
    UpstreamEvent::Answered {
        name: name.to_string(),
        ips: vec![IpAddress::V4(u32::from_be_bytes(octets))],
    }
}

#[test]
fn dropped_answer_yields_sibling() {
    let handler = Handler::new(two_upstream_drop_config());
    // u1's answer lies in the dropped range; u2's clean answer wins even
    // though it arrives second.
    let events = vec![answered("u1", [1, 2, 3, 4]), answered("u2", [8, 8, 8, 8])];
    let (code, winner) = handler.decide("foo.test", &events);
    assert_eq!(code, ResponseCode::NoError);
    assert_eq!(winner, Some(1));
    // The other arrival order: u2 wins at once.
    let events = vec![answered("u2", [8, 8, 8, 8]), answered("u1", [1, 2, 3, 4])];
    let (_, winner) = handler.decide("foo.test", &events);
    assert_eq!(winner, Some(0));
}

#[test]
fn first_arrival_wins_when_both_acceptable() {
    let handler = Handler::new(two_upstream_drop_config());
    let events = vec![answered("u1", [8, 8, 4, 4]), answered("u2", [8, 8, 8, 8])];
    assert_eq!(handler.decide("foo.test", &events).1, Some(0));
    let events = vec![answered("u2", [8, 8, 8, 8]), answered("u1", [8, 8, 4, 4])];
    assert_eq!(handler.decide("foo.test", &events).1, Some(0));
}

#[test]
fn request_rule_routes_by_domain() {
    let mut b = base_builder();
    b.upstreams = vec![
        ("u_other".to_string(), upstream("1.1.1.1:53", NetworkType::Udp, true)),
        ("u_cn".to_string(), upstream("114.114.114.114:53", NetworkType::Udp, false)),
    ];
    b.domains = vec![("cn-list".to_string(), vec!["cn".to_string()])];
    b.requests = vec![RequestRuleConfig {
        domains: Some(vec!["cn-list".to_string()]),
        types: None,
        upstreams: vec!["u_cn".to_string()],
    }];
    let handler = Handler::new(b.build().unwrap());
    // The rule matches: only u_cn is contacted.
    assert_eq!(names(&handler.lookup_plan("www.example.cn", 1)), ["u_cn"]);
    // No rule matches: the default upstreams are used.
    assert_eq!(names(&handler.lookup_plan("www.example.com", 1)), ["u_other"]);
}

#[test]
fn request_rule_routes_by_type() {
    let mut b = base_builder();
    b.upstreams = vec![
        ("u1".to_string(), upstream("1.1.1.1:53", NetworkType::Udp, true)),
        ("u6".to_string(), upstream("8.8.8.8:53", NetworkType::Udp, false)),
    ];
    b.requests = vec![RequestRuleConfig {
        domains: None,
        types: Some(vec!["AAAA".to_string()]),
        upstreams: vec!["u6".to_string()],
    }];
    let handler = Handler::new(b.build().unwrap());
    // AAAA has wire code 28, A has 1.
    assert_eq!(names(&handler.lookup_plan("example.com", 28)), ["u6"]);
    assert_eq!(names(&handler.lookup_plan("example.com", 1)), ["u1"]);
}

#[test]
fn selection_deduplicates_preserving_order() {
    let mut b = base_builder();
    b.upstreams = vec![
        ("u1".to_string(), upstream("1.1.1.1:53", NetworkType::Udp, true)),
        ("u2".to_string(), upstream("9.9.9.9:53", NetworkType::Udp, true)),
    ];
    b.requests = vec![RequestRuleConfig {
        domains: None,
        types: None,
        upstreams: vec!["u2".to_string(), "u1".to_string(), "u2".to_string()],
    }];
    let handler = Handler::new(b.build().unwrap());
    assert_eq!(names(&handler.lookup_plan("example.com", 1)), ["u2", "u1"]);
}

#[test]
fn all_failures_yield_nxdomain() {
    let handler = Handler::new(base_builder().build().unwrap());
    let events = vec![UpstreamEvent::Failed];
    let (code, winner) = handler.decide("x.test", &events);
    assert_eq!(code, ResponseCode::NXDomain);
    assert_eq!(winner, None);
}

#[test]
fn empty_response_rules_accept_any_answer() {
    let handler = Handler::new(base_builder().build().unwrap());
    let events = vec![UpstreamEvent::Failed, answered("u1", [203, 0, 113, 9])];
    assert_eq!(handler.decide("anything.example", &events).1, Some(1));
}

#[test]
fn non_query_is_refused() {
    assert!(Handler::should_refuse(OpCode::Update, MessageType::Query));
    assert!(Handler::should_refuse(OpCode::Query, MessageType::Response));
    assert!(!Handler::should_refuse(OpCode::Query, MessageType::Query));
}

#[test]
fn response_rule_domain_predicate() {
    let mut b = base_builder();
    b.domains = vec![("blocked".to_string(), vec!["ads.example".to_string()])];
    b.responses = vec![ResponseRule {
        upstreams: None,
        ranges: None,
        domains: Some(vec!["blocked".to_string()]),
        action: RuleAction::Drop,
    }];
    let handler = Handler::new(b.build().unwrap());
    let events = vec![answered("u1", [198, 51, 100, 7])];
    assert_eq!(handler.decide("sub.ads.example", &events).1, None);
    assert_eq!(handler.decide("ok.example", &events).1, Some(0));
}

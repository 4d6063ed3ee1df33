use tunnel_core::error::Kind;
use tunnel_core::multiaddr::{MultiAddr, Protocol};
use tunnel_core::text::{contains_char, contains_text, decimal_text, replace};

#[test]
fn address_reads_and_writes_its_text() {
    let text = "/dnsaddr/example.com/tcp/4000/project/p1/service/forward_to_n1/secure/api";
    let address = MultiAddr::from_str(text).unwrap();
    assert_eq!(address.len(), 5);
    assert_eq!(address.protocol_at(0), Protocol::DnsAddr);
    assert_eq!(address.value_at(0), "example.com");
    assert_eq!(address.protocol_at(1), Protocol::Tcp);
    assert_eq!(address.value_at(1), "4000");
    assert_eq!(address.protocol_at(4), Protocol::Secure);
    assert_eq!(address.value_at(4), "api");
    assert_eq!(address.to_string(), text);
}

#[test]
fn every_protocol_is_known_by_its_name() {
    let all = [
        Protocol::DnsAddr,
        Protocol::Ip4,
        Protocol::Ip6,
        Protocol::Node,
        Protocol::Project,
        Protocol::Secure,
        Protocol::Service,
        Protocol::Space,
        Protocol::Tcp,
        Protocol::Worker,
    ];
    let names =
        ["dnsaddr", "ip4", "ip6", "node", "project", "secure", "service", "space", "tcp", "worker"];
    for (protocol, name) in all.iter().zip(names.iter()) {
        assert_eq!(protocol.prefix(), *name);
        assert_eq!(Protocol::from_prefix(name), Some(*protocol));
    }
    assert_eq!(Protocol::from_prefix("alice"), None);
    assert_eq!(Protocol::from_prefix(""), None);
    assert_eq!(Protocol::from_prefix("Tcp"), None);
}

#[test]
fn empty_text_is_the_empty_address() {
    let address = MultiAddr::from_str("").unwrap();
    assert_eq!(address.len(), 0);
    assert_eq!(address, MultiAddr::new());
    assert_eq!(MultiAddr::new().to_string(), "");
}

#[test]
fn payloads_may_be_empty_but_must_be_there() {
    let address = MultiAddr::from_str("/service/").unwrap();
    assert_eq!(address.len(), 1);
    assert_eq!(address.value_at(0), "");
    let address = MultiAddr::from_str("/service//node/n1").unwrap();
    assert_eq!(address.len(), 2);
    assert_eq!(address.to_string(), "/service//node/n1");
}

#[test]
fn texts_that_are_no_address_are_refused() {
    for text in [
        "/",
        "alice",
        "service/outlet",
        "/alice/service",
        "/service",
        "/service/outlet/",
        "/service/a/b",
        "//service/a",
        "/service/a/node",
        " /service/a",
    ] {
        let err = MultiAddr::from_str(text).unwrap_err();
        assert_eq!(err.kind(), Kind::BadRequest, "text {:?}", text);
        assert_eq!(
            err.message(),
            "invalid address: expected a sequence of /protocol/value pairs with known protocols"
        );
    }
}

#[test]
fn push_back_refuses_a_slash() {
    let mut address = MultiAddr::new();
    address.push_back(Protocol::Project, "p1").unwrap();
    let err = address.push_back(Protocol::Service, "a/b").unwrap_err();
    assert_eq!(err.kind(), Kind::BadRequest);
    assert_eq!(address.to_string(), "/project/p1");
    address.push_back(Protocol::Service, "héllo").unwrap();
    assert_eq!(address.to_string(), "/project/p1/service/héllo");
    assert_eq!(MultiAddr::from_str("/project/p1/service/héllo").unwrap(), address);
}

#[test]
fn matches_looks_at_the_protocols_from_a_start() {
    let address = MultiAddr::from_str("/project/p1/service/s/secure/api").unwrap();
    assert!(address.matches(0, &[Protocol::Project]));
    assert!(address.matches(0, &[Protocol::Project, Protocol::Service]));
    assert!(address.matches(1, &[Protocol::Service, Protocol::Secure]));
    assert!(address.matches(3, &[]));
    assert!(!address.matches(0, &[Protocol::Service]));
    assert!(!address.matches(2, &[Protocol::Secure, Protocol::Service]));
    assert!(!address.matches(4, &[]));
    assert!(address.contains_protocol(Protocol::Secure));
    assert!(!address.contains_protocol(Protocol::Node));
}

#[test]
fn replace_replaces_every_occurrence_from_the_left() {
    assert_eq!(replace("a-b-c", "-", "+"), "a+b+c");
    assert_eq!(replace("aaa", "aa", "b"), "ba");
    assert_eq!(replace("abc", "abcd", "x"), "abc");
    assert_eq!(replace("abc", "", "x"), "abc");
    assert_eq!(replace("", "a", "x"), "");
    assert_eq!(replace("$A$A", "$A", "$A$A"), "$A$A$A$A");
    assert_eq!(replace("héllo wörld", "ö", "o"), "héllo world");
    assert_eq!(replace("xab", "ab", ""), "x");
}

#[test]
fn decimal_text_has_no_leading_zeros() {
    assert_eq!(decimal_text(0), "0");
    assert_eq!(decimal_text(7), "7");
    assert_eq!(decimal_text(10), "10");
    assert_eq!(decimal_text(255), "255");
    assert_eq!(decimal_text(u64::MAX), "18446744073709551615");
    assert!(contains_char("a/b", '/'));
    assert!(!contains_char("ab", '/'));
}

#[test]
fn contains_text_finds_a_text_anywhere() {
    assert!(contains_text("a$RELAY_NAMEb", "$RELAY_NAME"));
    assert!(contains_text("$RELAY_NAME", "$RELAY_NAME"));
    assert!(contains_text("xx$RELAY_NAME", "$RELAY_NAME"));
    assert!(!contains_text("$RELAY_NAM", "$RELAY_NAME"));
    assert!(!contains_text("", "a"));
    assert!(contains_text("", ""));
    assert!(contains_text("abc", ""));
    assert!(contains_text("héllo", "llo"));
}

#[test]
fn addresses_are_extended_by_segments_and_by_addresses() {
    let mut address = MultiAddr::from_str("/project/p1").unwrap();
    let other = MultiAddr::from_str("/service/a/secure/api").unwrap();
    address.push_back_value(&other, 1);
    assert_eq!(address.to_string(), "/project/p1/secure/api");
    address.try_extend(&other);
    assert_eq!(address.to_string(), "/project/p1/secure/api/service/a/secure/api");
    address.try_extend(&MultiAddr::new());
    assert_eq!(address.len(), 4);
}

use rdns::forwardcfg::{parse_forwarding, ForwardingError, TransportKind};

#[test]
fn parses_a_multi_upstream_https_rule() {
    let spec = b".:https:1.1.1.2:443/security.cloudflare-dns.com,https:1.0.0.2:443/security.cloudflare-dns.com"
        .to_vec();
    let rule = parse_forwarding(&spec).unwrap();
    assert_eq!(rule.zone, b".".to_vec());
    assert_eq!(rule.upstreams.len(), 2);
    assert_eq!(rule.upstreams[0].kind, TransportKind::Https);
    assert_eq!(rule.upstreams[0].addr, b"1.1.1.2:443".to_vec());
    assert_eq!(
        rule.upstreams[0].tls_name,
        b"security.cloudflare-dns.com".to_vec()
    );
    assert_eq!(rule.upstreams[1].addr, b"1.0.0.2:443".to_vec());
}

#[test]
fn parses_plain_transports() {
    let rule = parse_forwarding(&b"example.com:udp:10.0.0.1:53,tcp:10.0.0.2:53".to_vec()).unwrap();
    assert_eq!(rule.zone, b"example.com.".to_vec());
    assert_eq!(rule.upstreams.len(), 2);
    assert_eq!(rule.upstreams[0].kind, TransportKind::Udp);
    assert_eq!(rule.upstreams[0].addr, b"10.0.0.1:53".to_vec());
    assert_eq!(rule.upstreams[0].tls_name, Vec::<u8>::new());
    assert_eq!(rule.upstreams[1].kind, TransportKind::Tcp);
}

#[test]
fn parses_tls_with_expected_hostname() {
    let rule = parse_forwarding(&b"Example.Com.:tls:9.9.9.9:853/dns.quad9.net".to_vec()).unwrap();
    // the zone is stored normalized
    assert_eq!(rule.zone, b"example.com.".to_vec());
    assert_eq!(rule.upstreams[0].kind, TransportKind::Tls);
    assert_eq!(rule.upstreams[0].addr, b"9.9.9.9:853".to_vec());
    assert_eq!(rule.upstreams[0].tls_name, b"dns.quad9.net".to_vec());
}

#[test]
fn missing_zone_delimiter() {
    assert_eq!(
        parse_forwarding(&b"no delimiter here".to_vec()),
        Err(ForwardingError::MissingZoneDelimiter)
    );
}

#[test]
fn missing_protocol_delimiter() {
    assert_eq!(
        parse_forwarding(&b"example.com:udp".to_vec()),
        Err(ForwardingError::MissingProtocolDelimiter)
    );
}

#[test]
fn unknown_protocol() {
    assert_eq!(
        parse_forwarding(&b"example.com:quic:1.2.3.4:784".to_vec()),
        Err(ForwardingError::UnknownProtocol)
    );
}

#[test]
fn missing_tls_hostname() {
    assert_eq!(
        parse_forwarding(&b"example.com:tls:9.9.9.9:853".to_vec()),
        Err(ForwardingError::MissingTlsHostname)
    );
    assert_eq!(
        parse_forwarding(&b"example.com:https:1.1.1.1:443".to_vec()),
        Err(ForwardingError::MissingTlsHostname)
    );
}

#[test]
fn invalid_zone_is_reported_after_upstreams() {
    assert_eq!(
        parse_forwarding(&b"bad..zone:udp:1.2.3.4:53".to_vec()),
        Err(ForwardingError::InvalidZone)
    );
    // an upstream error wins over the zone error
    assert_eq!(
        parse_forwarding(&b"bad..zone:quic:1.2.3.4:53".to_vec()),
        Err(ForwardingError::UnknownProtocol)
    );
}

#[test]
fn empty_upstream_list_is_rejected() {
    assert_eq!(
        parse_forwarding(&b"example.com:".to_vec()),
        Err(ForwardingError::MissingProtocolDelimiter)
    );
}

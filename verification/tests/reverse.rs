use rdns::reverse::{
    build_ptr_records, choose_display_name, format_addr, ipam_query_path, parse_ptr_name,
    plan_reverse_query, Ipv4, ReverseDecision, PTR_TTL_SECONDS,
};

#[test]
fn ptr_name_octet_order_is_inverted() {
    let ip = parse_ptr_name(&b"4.3.2.1.in-addr.arpa.".to_vec());
    assert_eq!(ip, Some(Ipv4 { a: 1, b: 2, c: 3, d: 4 }));
}

#[test]
fn ptr_name_round_trips_through_text() {
    let ip = parse_ptr_name(&b"200.113.168.192.in-addr.arpa.".to_vec()).unwrap();
    assert_eq!(format_addr(ip), b"192.168.113.200".to_vec());
}

#[test]
fn malformed_ptr_names_are_rejected() {
    assert_eq!(parse_ptr_name(&b"3.2.1.in-addr.arpa.".to_vec()), None);
    assert_eq!(parse_ptr_name(&b"5.4.3.2.1.in-addr.arpa.".to_vec()), None);
    assert_eq!(parse_ptr_name(&b"256.3.2.1.in-addr.arpa.".to_vec()), None);
    assert_eq!(parse_ptr_name(&b"04.3.2.1.in-addr.arpa.".to_vec()), None);
    assert_eq!(parse_ptr_name(&b"a.3.2.1.in-addr.arpa.".to_vec()), None);
    assert_eq!(parse_ptr_name(&b"4.3.2.1.ip6.arpa.".to_vec()), None);
    assert_eq!(parse_ptr_name(&b"example.com.".to_vec()), None);
}

#[test]
fn only_ptr_queries_are_looked_up() {
    let qname = b"4.3.2.1.in-addr.arpa.".to_vec();
    assert_eq!(
        plan_reverse_query(true, &qname),
        ReverseDecision::Lookup(Ipv4 { a: 1, b: 2, c: 3, d: 4 })
    );
    assert_eq!(plan_reverse_query(false, &qname), ReverseDecision::NotPtrQuery);
    assert_eq!(
        plan_reverse_query(true, &b"not.a.reverse.name.".to_vec()),
        ReverseDecision::BadName
    );
}

#[test]
fn inventory_query_carries_the_forward_address() {
    let ip = Ipv4 { a: 10, b: 0, c: 7, d: 43 };
    assert_eq!(
        ipam_query_path(ip),
        b"api/ipam/ip-addresses/?q=10.0.7.43".to_vec()
    );
}

#[test]
fn device_name_is_preferred_over_virtual_machine_name() {
    assert_eq!(
        choose_display_name(Some(b"router".to_vec()), Some(b"vm-7".to_vec())),
        Some(b"router".to_vec())
    );
    assert_eq!(
        choose_display_name(None, Some(b"vm-7".to_vec())),
        Some(b"vm-7".to_vec())
    );
    assert_eq!(
        choose_display_name(Some(b"router".to_vec()), None),
        Some(b"router".to_vec())
    );
    assert_eq!(choose_display_name(None, None), None);
}

#[test]
fn ptr_records_carry_the_query_name_and_a_short_ttl() {
    let qname = b"4.3.2.1.in-addr.arpa.".to_vec();
    let names = vec![b"gateway.".to_vec(), b"router.".to_vec()];
    let records = build_ptr_records(&qname, names);
    assert_eq!(records.len(), 2);
    assert_eq!(PTR_TTL_SECONDS, 600);
    for (i, expected) in [b"gateway.".to_vec(), b"router.".to_vec()].iter().enumerate() {
        assert_eq!(records[i].name, qname);
        assert_eq!(records[i].ttl, 600);
        assert_eq!(&records[i].target, expected);
    }
}

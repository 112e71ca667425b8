use rdns::zone::{matches_zone, Catalog};

#[test]
fn suffix_matching_is_on_label_boundaries() {
    assert!(matches_zone(&b"example.com.".to_vec(), &b"example.com.".to_vec()));
    assert!(matches_zone(&b"example.com.".to_vec(), &b"host.example.com.".to_vec()));
    assert!(!matches_zone(&b"example.com.".to_vec(), &b"xexample.com.".to_vec()));
    assert!(!matches_zone(&b"example.com.".to_vec(), &b"example.org.".to_vec()));
    assert!(matches_zone(&b".".to_vec(), &b"anything.at.all.".to_vec()));
    assert!(matches_zone(&b".".to_vec(), &b".".to_vec()));
}

#[test]
fn most_specific_zone_wins() {
    let mut catalog: Catalog<u32> = Catalog::new();
    catalog.upsert(b".".to_vec(), 1);
    catalog.upsert(b"example.com.".to_vec(), 2);
    assert_eq!(catalog.route(&b"host.example.com.".to_vec()), Some(&2));
    assert_eq!(catalog.route(&b"example.com.".to_vec()), Some(&2));
    assert_eq!(catalog.route(&b"elsewhere.org.".to_vec()), Some(&1));
}

#[test]
fn no_default_route_without_a_covering_zone() {
    let mut catalog: Catalog<u32> = Catalog::new();
    catalog.upsert(b"example.com.".to_vec(), 2);
    assert_eq!(catalog.route(&b"elsewhere.org.".to_vec()), None);
}

#[test]
fn upsert_replaces_a_configured_zone() {
    let mut catalog: Catalog<u32> = Catalog::new();
    catalog.upsert(b"example.com.".to_vec(), 2);
    catalog.upsert(b"example.com.".to_vec(), 9);
    assert_eq!(catalog.len(), 1);
    assert_eq!(catalog.route(&b"host.example.com.".to_vec()), Some(&9));
}

#[test]
fn deeper_zones_beat_shallower_ones() {
    let mut catalog: Catalog<u32> = Catalog::new();
    catalog.upsert(b"com.".to_vec(), 1);
    catalog.upsert(b"example.com.".to_vec(), 2);
    catalog.upsert(b"deep.example.com.".to_vec(), 3);
    assert_eq!(catalog.route(&b"a.deep.example.com.".to_vec()), Some(&3));
    assert_eq!(catalog.route(&b"b.example.com.".to_vec()), Some(&2));
    assert_eq!(catalog.route(&b"c.com.".to_vec()), Some(&1));
}

use porkbun_ddns::addr::{AddressFamily, IpAddress, Ipv4Address};
use porkbun_ddns::config::Target;
use porkbun_ddns::matcher::{
    decide, decide_action, ConflictKind, Decision, ReconcileAction, TargetError,
};
use porkbun_ddns::record::{DNSRecord, IpParseError};

fn rec(id: &str, name: &str, typ: &str, content: &str) -> DNSRecord {
    DNSRecord {
        id: id.to_string(),
        name: name.to_string(),
        typ: typ.to_string(),
        content: content.to_string(),
        ttl: Some(600),
        prio: None,
        notes: None,
    }
}

fn tgt(domain: &str, subdomain: Option<&str>) -> Target {
    Target::new(domain.to_string(), subdomain.map(|s| s.to_string()), 600)
}

fn addr(o0: u8, o1: u8, o2: u8, o3: u8) -> IpAddress {
    IpAddress::V4(Ipv4Address { o0, o1, o2, o3 })
}

#[test]
fn no_matching_record_means_none_exists() {
    let t = tgt("example.com", None);
    let records = vec![
        rec("1", "www.example.com", "A", "198.51.100.1"),
        rec("2", "example.com", "TXT", "hello"),
    ];
    assert_eq!(decide(&t, &records, AddressFamily::IPv4), Decision::NoExistingRecord);
}

#[test]
fn single_match_is_found_by_index() {
    let t = tgt("example.com", Some("www"));
    let records = vec![
        rec("1", "example.com", "A", "198.51.100.1"),
        rec("2", "www.example.com", "A", "198.51.100.2"),
        rec("3", "www.example.com", "AAAA", "2001:db8::1"),
    ];
    assert_eq!(decide(&t, &records, AddressFamily::IPv4), Decision::ExistingMatch(1));
    assert_eq!(decide(&t, &records, AddressFamily::IPv6), Decision::ExistingMatch(2));
}

#[test]
fn two_matching_records_are_a_conflict() {
    // the matcher must never silently pick one of two matches
    let t = tgt("example.com", None);
    let records = vec![
        rec("1", "example.com", "A", "198.51.100.1"),
        rec("2", "example.com", "A", "198.51.100.2"),
    ];
    assert_eq!(
        decide(&t, &records, AddressFamily::IPv4),
        Decision::Conflict(ConflictKind::MultipleRecords)
    );
}

#[test]
fn cname_collision_is_a_conflict_even_without_address_records() {
    let t = tgt("example.com", Some("www"));
    let records = vec![rec("1", "www.example.com", "CNAME", "example.com")];
    assert_eq!(
        decide(&t, &records, AddressFamily::IPv4),
        Decision::Conflict(ConflictKind::CnameCollision)
    );
    let alias = vec![rec("1", "www.example.com", "ALIAS", "example.com")];
    assert_eq!(
        decide(&t, &alias, AddressFamily::IPv4),
        Decision::Conflict(ConflictKind::CnameCollision)
    );
}

#[test]
fn cname_on_other_names_does_not_collide() {
    let t = tgt("example.com", Some("www"));
    let records = vec![rec("1", "blog.example.com", "CNAME", "example.com")];
    assert_eq!(decide(&t, &records, AddressFamily::IPv4), Decision::NoExistingRecord);
}

#[test]
fn scan_order_decides_which_conflict_is_reported() {
    let t = tgt("example.com", None);
    let two_then_cname = vec![
        rec("1", "example.com", "A", "198.51.100.1"),
        rec("2", "example.com", "A", "198.51.100.2"),
        rec("3", "example.com", "CNAME", "other.com"),
    ];
    assert_eq!(
        decide(&t, &two_then_cname, AddressFamily::IPv4),
        Decision::Conflict(ConflictKind::MultipleRecords)
    );
    let cname_first = vec![
        rec("3", "example.com", "CNAME", "other.com"),
        rec("1", "example.com", "A", "198.51.100.1"),
        rec("2", "example.com", "A", "198.51.100.2"),
    ];
    assert_eq!(
        decide(&t, &cname_first, AddressFamily::IPv4),
        Decision::Conflict(ConflictKind::CnameCollision)
    );
}

#[test]
fn decide_is_deterministic() {
    let t = tgt("example.com", None);
    let records = vec![
        rec("1", "example.com", "A", "198.51.100.1"),
        rec("2", "www.example.com", "A", "198.51.100.2"),
    ];
    let first = decide(&t, &records, AddressFamily::IPv4);
    for _ in 0..10 {
        assert_eq!(decide(&t, &records, AddressFamily::IPv4), first);
    }
}

#[test]
fn matching_address_needs_no_change() {
    let t = tgt("example.com", None);
    let records = vec![rec("7", "example.com", "A", "198.51.100.7")];
    assert_eq!(
        decide_action(&t, &records, addr(198, 51, 100, 7)),
        Ok(ReconcileAction::NoChange { record_index: 0 })
    );
}

#[test]
fn stale_address_needs_an_edit() {
    let t = tgt("example.com", None);
    let records = vec![rec("7", "example.com", "A", "198.51.100.1")];
    assert_eq!(
        decide_action(&t, &records, addr(198, 51, 100, 7)),
        Ok(ReconcileAction::Edit {
            record_index: 0,
            old_addr: addr(198, 51, 100, 1),
            new_addr: addr(198, 51, 100, 7),
        })
    );
}

#[test]
fn absent_record_needs_a_create() {
    let t = tgt("example.com", Some("www"));
    let records = vec![rec("7", "example.com", "A", "198.51.100.1")];
    assert_eq!(
        decide_action(&t, &records, addr(198, 51, 100, 7)),
        Ok(ReconcileAction::Create { new: addr(198, 51, 100, 7) })
    );
}

#[test]
fn malformed_existing_content_is_its_own_error() {
    let t = tgt("example.com", None);
    let garbled = vec![rec("7", "example.com", "A", "not-an-address")];
    assert_eq!(
        decide_action(&t, &garbled, addr(198, 51, 100, 7)),
        Err(TargetError::MalformedRecord(IpParseError::Malformed))
    );
    let wrong_family = vec![rec("7", "example.com", "A", "2001:db8::1")];
    assert_eq!(
        decide_action(&t, &wrong_family, addr(198, 51, 100, 7)),
        Err(TargetError::MalformedRecord(IpParseError::WrongFamily))
    );
}

#[test]
fn conflicts_carry_through_to_actions() {
    let t = tgt("example.com", None);
    let two = vec![
        rec("1", "example.com", "A", "198.51.100.1"),
        rec("2", "example.com", "A", "198.51.100.2"),
    ];
    assert_eq!(
        decide_action(&t, &two, addr(198, 51, 100, 7)),
        Err(TargetError::MultipleRecords)
    );
    let cname = vec![rec("1", "example.com", "CNAME", "other.com")];
    assert_eq!(
        decide_action(&t, &cname, addr(198, 51, 100, 7)),
        Err(TargetError::CnameCollision)
    );
}

#[test]
fn reconciliation_is_idempotent_once_writes_land() {
    let t = tgt("example.com", None);
    let current = addr(198, 51, 100, 7);

    // an edit, applied, yields no change on the next run
    let mut records = vec![rec("7", "example.com", "A", "198.51.100.1")];
    match decide_action(&t, &records, current) {
        Ok(ReconcileAction::Edit { record_index, new_addr, .. }) => {
            assert_eq!(new_addr, current);
            records[record_index].content = "198.51.100.7".to_string();
        }
        other => panic!("expected an edit, got {other:?}"),
    }
    assert_eq!(
        decide_action(&t, &records, current),
        Ok(ReconcileAction::NoChange { record_index: 0 })
    );

    // a create, applied, yields no change on the next run
    let mut records = vec![rec("1", "www.example.com", "A", "198.51.100.9")];
    match decide_action(&t, &records, current) {
        Ok(ReconcileAction::Create { new }) => {
            assert_eq!(new, current);
            records.push(rec("8", "example.com", "A", "198.51.100.7"));
        }
        other => panic!("expected a create, got {other:?}"),
    }
    assert_eq!(
        decide_action(&t, &records, current),
        Ok(ReconcileAction::NoChange { record_index: 1 })
    );
}

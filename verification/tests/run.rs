use porkbun_ddns::addr::{IpAddress, Ipv4Address, Ipv6Address};
use porkbun_ddns::config::{AddrMode, Target};
use porkbun_ddns::matcher::{ReconcileAction, TargetError};
use porkbun_ddns::reconciler::{
    count_failures, outcome_of, plan_run, unique_domains, ErrorAggregator, FailureKind,
    ReconciliationOutcome,
};
use porkbun_ddns::record::DNSRecord;
use porkbun_ddns::resolver::{
    after_first_probe, after_ipv4_probe, probe_needed, ResolveError, ResolveStep,
};
use porkbun_ddns::store::{ingest_fetches, FetchResult, RecordStore};

fn rec(id: &str, name: &str, typ: &str, content: &str) -> DNSRecord {
    DNSRecord {
        id: id.to_string(),
        name: name.to_string(),
        typ: typ.to_string(),
        content: content.to_string(),
        ttl: Some(600),
        prio: None,
        notes: None,
    }
}

fn tgt(domain: &str, subdomain: Option<&str>, ttl: u32) -> Target {
    Target::new(domain.to_string(), subdomain.map(|s| s.to_string()), ttl)
}

fn v4(o0: u8, o1: u8, o2: u8, o3: u8) -> Ipv4Address {
    Ipv4Address { o0, o1, o2, o3 }
}

const V6_LOOP: Ipv6Address = Ipv6Address {
    g0: 0,
    g1: 0,
    g2: 0,
    g3: 0,
    g4: 0,
    g5: 0,
    g6: 0,
    g7: 1,
};

#[test]
fn probe_is_skipped_when_both_families_are_off() {
    assert!(!probe_needed(AddrMode::Disabled, AddrMode::Disabled));
    assert!(probe_needed(AddrMode::Enabled, AddrMode::Disabled));
    assert!(probe_needed(AddrMode::Disabled, AddrMode::Try));
}

#[test]
fn ipv4_answer_with_ipv6_tried_resolves_quietly() {
    // probe answered IPv4; IPv6 was only tried: no error, IPv6 absent
    let r = after_first_probe(
        AddrMode::Enabled,
        AddrMode::Try,
        IpAddress::V4(v4(198, 51, 100, 7)),
    );
    assert_eq!(
        r,
        Ok(ResolveStep::Done { ipv4: Some(v4(198, 51, 100, 7)), ipv6: None })
    );
}

#[test]
fn ipv4_answer_with_ipv6_required_is_fatal() {
    let r = after_first_probe(
        AddrMode::Enabled,
        AddrMode::Enabled,
        IpAddress::V4(v4(198, 51, 100, 7)),
    );
    assert_eq!(r, Err(ResolveError::OnlyIpv4Available));
    let r = after_first_probe(
        AddrMode::Disabled,
        AddrMode::Enabled,
        IpAddress::V4(v4(198, 51, 100, 7)),
    );
    assert_eq!(r, Err(ResolveError::OnlyIpv4Available));
}

#[test]
fn ipv4_answer_with_only_ipv6_tried_is_quietly_empty() {
    // only IPv6 is wanted, and only in try mode: the missing family
    // resolves to absent without error, and the run has nothing to do
    let r = after_first_probe(
        AddrMode::Disabled,
        AddrMode::Try,
        IpAddress::V4(v4(198, 51, 100, 7)),
    );
    assert_eq!(r, Ok(ResolveStep::Done { ipv4: None, ipv6: None }));
}

#[test]
fn ipv6_answer_asks_for_second_probe_when_ipv4_wanted() {
    let r = after_first_probe(AddrMode::Enabled, AddrMode::Enabled, IpAddress::V6(V6_LOOP));
    assert_eq!(r, Ok(ResolveStep::NeedIpv4Probe { ipv6: Some(V6_LOOP) }));
    let r = after_first_probe(AddrMode::Disabled, AddrMode::Enabled, IpAddress::V6(V6_LOOP));
    assert_eq!(r, Ok(ResolveStep::Done { ipv4: None, ipv6: Some(V6_LOOP) }));
}

#[test]
fn second_probe_failure_is_fatal_only_when_ipv4_must_succeed() {
    let ipv6 = Some(V6_LOOP);
    assert_eq!(
        after_ipv4_probe(AddrMode::Enabled, AddrMode::Enabled, ipv6, None),
        Err(ResolveError::OnlyIpv6Available)
    );
    assert_eq!(
        after_ipv4_probe(AddrMode::Try, AddrMode::Disabled, None, None),
        Err(ResolveError::OnlyIpv6Available)
    );
    assert_eq!(
        after_ipv4_probe(AddrMode::Try, AddrMode::Enabled, ipv6, None),
        Ok((None, ipv6))
    );
    assert_eq!(
        after_ipv4_probe(AddrMode::Enabled, AddrMode::Enabled, ipv6, Some(v4(1, 2, 3, 4))),
        Ok((Some(v4(1, 2, 3, 4)), ipv6))
    );
}

#[test]
fn domains_are_deduplicated() {
    let targets = vec![
        tgt("example.com", Some("a"), 300),
        tgt("example.com", None, 600),
        tgt("example.org", None, 600),
    ];
    let ds = unique_domains(&targets);
    assert_eq!(ds, vec!["example.com".to_string(), "example.org".to_string()]);
}

#[test]
fn store_distinguishes_missing_from_empty() {
    let mut store = RecordStore::new();
    store.record_fetched("example.com".to_string(), vec![]);
    assert!(store.has_domain("example.com"));
    assert_eq!(store.get("example.com").map(Vec::len), Some(0));
    assert!(!store.has_domain("example.org"));
    assert!(store.get("example.org").is_none());
}

#[test]
fn store_returns_what_was_fetched() {
    let mut store = RecordStore::new();
    store.record_fetched(
        "example.com".to_string(),
        vec![rec("1", "example.com", "A", "198.51.100.7")],
    );
    store.record_fetched(
        "example.org".to_string(),
        vec![rec("2", "example.org", "A", "198.51.100.8")],
    );
    let records = store.get("example.com").unwrap();
    assert_eq!(records.len(), 1);
    assert_eq!(records[0].id, "1");
    assert_eq!(store.get("example.org").unwrap()[0].id, "2");
}

#[test]
fn full_run_edits_stale_and_keeps_current() {
    // two targets on one domain, IPv4 only; one record stale, one current
    let targets = vec![
        tgt("example.com", Some("a"), 300),
        tgt("example.com", None, 600),
    ];
    let ds = unique_domains(&targets);
    assert_eq!(ds, vec!["example.com".to_string()]);

    let mut store = RecordStore::new();
    store.record_fetched(
        "example.com".to_string(),
        vec![
            rec("11", "a.example.com", "A", "198.51.100.1"),
            rec("12", "example.com", "A", "198.51.100.7"),
        ],
    );

    let current = Some(v4(198, 51, 100, 7));
    let plan = plan_run(&targets, current, None, &store);
    assert!(plan.skipped.is_empty());
    assert_eq!(plan.tasks.len(), 2);

    assert_eq!(plan.tasks[0].target_index, 0);
    assert_eq!(
        plan.tasks[0].action,
        Ok(ReconcileAction::Edit {
            record_index: 0,
            old_addr: IpAddress::V4(v4(198, 51, 100, 1)),
            new_addr: IpAddress::V4(v4(198, 51, 100, 7)),
        })
    );
    assert_eq!(plan.tasks[1].target_index, 1);
    assert_eq!(plan.tasks[1].action, Ok(ReconcileAction::NoChange { record_index: 1 }));

    // all provider calls land: the aggregate failure count is zero
    let outcomes: Vec<ReconciliationOutcome> =
        plan.tasks.iter().map(|t| outcome_of(t.action, true)).collect();
    assert_eq!(
        outcomes[0],
        ReconciliationOutcome::Edited {
            old_addr: IpAddress::V4(v4(198, 51, 100, 1)),
            new_addr: IpAddress::V4(v4(198, 51, 100, 7)),
        }
    );
    assert_eq!(outcomes[1], ReconciliationOutcome::NoChange);
    assert_eq!(count_failures(&outcomes), 0);
}

#[test]
fn failed_fetch_skips_all_its_targets_and_counts_once() {
    // same run, but the one domain's fetch failed: no store entry
    let targets = vec![
        tgt("example.com", Some("a"), 300),
        tgt("example.com", None, 600),
    ];
    let (store, fetch_failures) = ingest_fetches(vec![FetchResult {
        domain: "example.com".to_string(),
        records: None,
    }]);
    assert_eq!(fetch_failures, 1);

    let mut aggregator = ErrorAggregator::new();
    // the fetch phase records the single domain's failure
    aggregator.record_failures(fetch_failures);

    let plan = plan_run(&targets, Some(v4(198, 51, 100, 7)), None, &store);
    assert!(plan.tasks.is_empty());
    assert_eq!(plan.skipped, vec![0, 1]);

    let outcomes: Vec<ReconciliationOutcome> =
        plan.tasks.iter().map(|t| outcome_of(t.action, true)).collect();
    aggregator.record_failures(count_failures(&outcomes));
    assert_eq!(aggregator.count(), 1);
    assert!(!aggregator.is_success());
}

#[test]
fn both_families_make_two_tasks_per_target() {
    let targets = vec![tgt("example.com", None, 600)];
    let mut store = RecordStore::new();
    store.record_fetched(
        "example.com".to_string(),
        vec![
            rec("1", "example.com", "A", "198.51.100.7"),
            rec("2", "example.com", "AAAA", "::1"),
        ],
    );
    let plan = plan_run(&targets, Some(v4(198, 51, 100, 7)), Some(V6_LOOP), &store);
    assert_eq!(plan.tasks.len(), 2);
    assert_eq!(plan.tasks[0].action, Ok(ReconcileAction::NoChange { record_index: 0 }));
    assert_eq!(plan.tasks[1].action, Ok(ReconcileAction::NoChange { record_index: 1 }));
}

#[test]
fn create_is_planned_for_empty_domains() {
    let targets = vec![tgt("example.com", Some("www"), 600)];
    let mut store = RecordStore::new();
    store.record_fetched("example.com".to_string(), vec![]);
    let plan = plan_run(&targets, Some(v4(198, 51, 100, 7)), None, &store);
    assert_eq!(plan.tasks.len(), 1);
    assert_eq!(
        plan.tasks[0].action,
        Ok(ReconcileAction::Create { new: IpAddress::V4(v4(198, 51, 100, 7)) })
    );
}

#[test]
fn failed_calls_become_failed_outcomes() {
    let edit = Ok(ReconcileAction::Edit {
        record_index: 0,
        old_addr: IpAddress::V4(v4(1, 2, 3, 4)),
        new_addr: IpAddress::V4(v4(5, 6, 7, 8)),
    });
    assert_eq!(
        outcome_of(edit, false),
        ReconciliationOutcome::Failed { reason: FailureKind::CallFailed }
    );
    let create = Ok(ReconcileAction::Create { new: IpAddress::V4(v4(5, 6, 7, 8)) });
    assert_eq!(
        outcome_of(create, true),
        ReconciliationOutcome::Created { new_addr: IpAddress::V4(v4(5, 6, 7, 8)) }
    );
    assert_eq!(
        outcome_of(Err(TargetError::CnameCollision), true),
        ReconciliationOutcome::Failed { reason: FailureKind::CnameCollision }
    );
    let outcomes = vec![
        ReconciliationOutcome::NoChange,
        ReconciliationOutcome::Failed { reason: FailureKind::CallFailed },
        ReconciliationOutcome::Failed { reason: FailureKind::MultipleRecords },
    ];
    assert_eq!(count_failures(&outcomes), 2);
}

#[test]
fn ingest_keeps_successes_and_counts_failures() {
    let results = vec![
        FetchResult {
            domain: "example.com".to_string(),
            records: Some(vec![rec("1", "example.com", "A", "198.51.100.7")]),
        },
        FetchResult { domain: "example.org".to_string(), records: None },
        FetchResult { domain: "example.net".to_string(), records: Some(vec![]) },
    ];
    let (store, failures) = ingest_fetches(results);
    assert_eq!(failures, 1);
    assert_eq!(store.get("example.com").map(Vec::len), Some(1));
    // fetched zero records is an entry; a failed fetch is none
    assert_eq!(store.get("example.net").map(Vec::len), Some(0));
    assert!(store.get("example.org").is_none());
}

#[test]
fn aggregator_counts_failures() {
    let mut a = ErrorAggregator::new();
    assert!(a.is_success());
    a.record_failure();
    a.record_failures(3);
    assert_eq!(a.count(), 4);
    assert!(!a.is_success());
}

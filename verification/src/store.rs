//! The per-domain record cache, populated once per run.
//!
//! Keyed by root domain; a domain whose fetch failed has no entry, which
//! is a different thing from a domain that fetched zero records. Entries
//! are written once and read-only afterwards.

use vstd::prelude::*;

use crate::record::{recs_views, DNSRecord, RecordView};
use crate::text::str_eq;

verus! {

/// One domain's fetched records.
#[derive(Debug)]
pub struct DomainRecords {
    pub domain: String,
    pub records: Vec<DNSRecord>,
}

/// The per-domain record cache.
#[derive(Debug)]
pub struct RecordStore {
    entries: Vec<DomainRecords>,
}

impl RecordStore {
    /// The stored entries, in insertion order.
    pub closed spec fn spec_entries(&self) -> Seq<DomainRecords> {
        self.entries@
    }

    /// Each domain has at most one entry.
    pub open spec fn wf(&self) -> bool {
        forall|i: int, j: int|
            0 <= i < j < self.spec_entries().len() ==> #[trigger] self.spec_entries()[i].domain@
                != #[trigger] self.spec_entries()[j].domain@
    }

    /// Whether the store holds an entry for `d`.
    pub open spec fn contains_domain(&self, d: Seq<char>) -> bool {
        exists|i: int|
            0 <= i < self.spec_entries().len() && #[trigger] self.spec_entries()[i].domain@ == d
    }

    /// The records stored for `d`.
    pub open spec fn spec_records_for(&self, d: Seq<char>) -> Seq<RecordView> {
        let i = choose|i: int|
            0 <= i < self.spec_entries().len() && #[trigger] self.spec_entries()[i].domain@ == d;
        recs_views(self.spec_entries()[i].records@)
    }

    /// An empty store.
    pub fn new() -> (s: RecordStore)
        ensures
            s.wf(),
            forall|d: Seq<char>| !s.contains_domain(d),
    {
        RecordStore { entries: Vec::new() }
    }

    /// Stores the outcome of one successful fetch. Each domain is fetched
    /// and stored once per run.
    pub fn record_fetched(&mut self, domain: String, records: Vec<DNSRecord>)
        requires
            old(self).wf(),
            !old(self).contains_domain(domain@),
        ensures
            final(self).wf(),
            forall|d: Seq<char>|
                final(self).contains_domain(d) == (old(self).contains_domain(d) || d == domain@),
            forall|d: Seq<char>|
                old(self).contains_domain(d) ==> final(self).spec_records_for(d) == old(
                    self,
                ).spec_records_for(d),
            final(self).spec_records_for(domain@) == recs_views(records@),
    {
        let ghost dom: Seq<char> = domain@;
        let ghost recs: Seq<DNSRecord> = records@;
        self.entries.push(DomainRecords { domain, records });
        proof {
            let pre = old(self).spec_entries();
            let post = self.spec_entries();
            let n = pre.len() as int;
            assert(post[n].domain@ == dom);
            assert(post[n].records@ == recs);
            assert forall|i: int| 0 <= i < n implies post[i] == pre[i] by {}
            assert forall|d: Seq<char>|
                self.contains_domain(d) == (old(self).contains_domain(d) || d == dom) by {
                if self.contains_domain(d) {
                    let i = choose|i: int|
                        0 <= i < post.len() && #[trigger] post[i].domain@ == d;
                    if i < n {
                        assert(pre[i].domain@ == d);
                        assert(old(self).contains_domain(d));
                    }
                } else {
                    assert(!old(self).contains_domain(d) && d != dom) by {
                        if old(self).contains_domain(d) {
                            let i = choose|i: int|
                                0 <= i < pre.len() && #[trigger] pre[i].domain@ == d;
                            assert(post[i].domain@ == d);
                        }
                        if d == dom {
                            assert(post[n].domain@ == d);
                        }
                    }
                }
            }
            assert forall|d: Seq<char>|
                old(self).contains_domain(d) implies self.spec_records_for(d) == old(
                self,
            ).spec_records_for(d) by {
                let i1 = choose|i: int| 0 <= i < pre.len() && #[trigger] pre[i].domain@ == d;
                assert(post[i1].domain@ == d);
                let i2 = choose|i: int| 0 <= i < post.len() && #[trigger] post[i].domain@ == d;
                assert(d != dom);
                assert(i2 < n);
                assert(pre[i2].domain@ == d);
                assert(i1 == i2);
            }
            assert(self.spec_records_for(dom) == recs_views(recs)) by {
                assert(post[n].domain@ == dom);
                let i = choose|i: int| 0 <= i < post.len() && #[trigger] post[i].domain@ == dom;
                assert(i == n);
            }
        }
    }

    /// The records for `domain`, when its fetch succeeded.
    pub fn get(&self, domain: &str) -> (r: Option<&Vec<DNSRecord>>)
        requires
            self.wf(),
        ensures
            match r {
                Some(v) => self.contains_domain(domain@) && recs_views(v@)
                    == self.spec_records_for(domain@),
                None => !self.contains_domain(domain@),
            },
    {
        let n = self.entries.len();
        let mut i: usize = 0;
        while i < n
            invariant
                i <= n,
                n == self.spec_entries().len(),
                self.wf(),
                forall|j: int| 0 <= j < i ==> #[trigger] self.spec_entries()[j].domain@ != domain@,
            decreases n - i,
        {
            if str_eq(self.entries[i].domain.as_str(), domain) {
                proof {
                    let k = choose|k: int|
                        0 <= k < self.spec_entries().len()
                            && #[trigger] self.spec_entries()[k].domain@ == domain@;
                    assert(k == i as int);
                }
                return Some(&self.entries[i].records);
            }
            i = i + 1;
        }
        None
    }

    /// Whether the store holds an entry for `domain`.
    pub fn has_domain(&self, domain: &str) -> (b: bool)
        requires
            self.wf(),
        ensures
            b == self.contains_domain(domain@),
    {
        match self.get(domain) {
            Some(_) => true,
            None => false,
        }
    }
}

/// What one domain's fetch brought back: its records, or nothing when
/// the fetch failed.
#[derive(Debug)]
pub struct FetchResult {
    pub domain: String,
    pub records: Option<Vec<DNSRecord>>,
}

/// How many of the fetches from `i` on failed.
pub open spec fn spec_fetch_failures(rs: Seq<FetchResult>, i: int) -> int
    decreases rs.len() - i when 0 <= i <= rs.len()
{
    if i >= rs.len() {
        0
    } else {
        (if rs[i].records is None {
            1int
        } else {
            0int
        }) + spec_fetch_failures(rs, i + 1)
    }
}

/// Fetch `i` succeeded and brought records for `d`.
pub open spec fn fetched_domain(rs: Seq<FetchResult>, i: int, d: Seq<char>) -> bool {
    &&& 0 <= i < rs.len()
    &&& rs[i].domain@ == d
    &&& rs[i].records is Some
}

/// Folds a finished fetch phase into the run's record store and its
/// failure count: every successful fetch becomes that domain's entry, and
/// every failed one is counted — a domain whose fetch failed gets no
/// entry at all.
pub fn ingest_fetches(results: Vec<FetchResult>) -> (r: (RecordStore, usize))
    requires
        forall|i: int, j: int|
            0 <= i < j < results@.len() ==> #[trigger] results@[i].domain@
                != #[trigger] results@[j].domain@,
    ensures
        r.0.wf(),
        forall|d: Seq<char>|
            r.0.contains_domain(d) == exists|i: int| #[trigger] fetched_domain(results@, i, d),
        forall|i: int|
            0 <= i < results@.len() && results@[i].records is Some
                ==> r.0.spec_records_for(#[trigger] results@[i].domain@) == recs_views(
                results@[i].records->0@,
            ),
        r.1 == spec_fetch_failures(results@, 0),
        r.1 <= results@.len(),
{
    let ghost original = results@;
    let mut rem = results;
    let total = rem.len();
    let mut store = RecordStore::new();
    let mut failures: usize = 0;
    while rem.len() > 0
        invariant
            total == original.len(),
            rem@ =~= original.subrange(0, rem@.len() as int),
            rem@.len() <= original.len(),
            forall|i: int, j: int|
                0 <= i < j < original.len() ==> #[trigger] original[i].domain@
                    != #[trigger] original[j].domain@,
            store.wf(),
            failures <= original.len() - rem@.len(),
            failures == spec_fetch_failures(original, rem@.len() as int),
            forall|d: Seq<char>|
                store.contains_domain(d) == exists|i: int|
                    rem@.len() <= i && #[trigger] fetched_domain(original, i, d),
            forall|i: int|
                rem@.len() <= i < original.len() && original[i].records is Some
                    ==> store.spec_records_for(#[trigger] original[i].domain@) == recs_views(
                    original[i].records->0@,
                ),
        decreases rem@.len(),
    {
        let fr = rem.pop().unwrap();
        let ghost k = rem@.len() as int;
        proof {
            assert(fr == original[k]);
            assert(rem@ =~= original.subrange(0, k));
        }
        match fr.records {
            Some(records) => {
                proof {
                    if store.contains_domain(fr.domain@) {
                        let i = choose|i: int|
                            k + 1 <= i && #[trigger] fetched_domain(original, i, fr.domain@);
                        assert(original[i].domain@ == original[k].domain@);
                    }
                }
                let ghost pre_store = store;
                store.record_fetched(fr.domain, records);
                proof {
                    assert forall|d: Seq<char>|
                        store.contains_domain(d) == exists|i: int|
                            k <= i && #[trigger] fetched_domain(original, i, d) by {
                        if store.contains_domain(d) {
                            if pre_store.contains_domain(d) {
                                let i = choose|i: int|
                                    k + 1 <= i && #[trigger] fetched_domain(original, i, d);
                                assert(fetched_domain(original, i, d));
                            } else {
                                assert(fetched_domain(original, k, d));
                            }
                        } else {
                            if exists|i: int| k <= i && #[trigger] fetched_domain(original, i, d) {
                                let i = choose|i: int|
                                    k <= i && #[trigger] fetched_domain(original, i, d);
                                if i == k {
                                    assert(store.contains_domain(d));
                                } else {
                                    assert(pre_store.contains_domain(d));
                                }
                            }
                        }
                    }
                    assert forall|i: int|
                        k <= i < original.len() && original[i].records is Some
                            implies store.spec_records_for(#[trigger] original[i].domain@)
                        == recs_views(original[i].records->0@) by {
                        if i > k {
                            assert(fetched_domain(original, i, original[i].domain@));
                            assert(pre_store.contains_domain(original[i].domain@));
                        }
                    }
                }
            },
            None => {
                failures = failures + 1;
                proof {
                    assert forall|d: Seq<char>|
                        store.contains_domain(d) == exists|i: int|
                            k <= i && #[trigger] fetched_domain(original, i, d) by {
                        if exists|i: int| k <= i && #[trigger] fetched_domain(original, i, d) {
                            let i = choose|i: int|
                                k <= i && #[trigger] fetched_domain(original, i, d);
                            assert(i != k);
                            assert(fetched_domain(original, i, d));
                        }
                        if store.contains_domain(d) {
                            let i = choose|i: int|
                                k + 1 <= i && #[trigger] fetched_domain(original, i, d);
                            assert(fetched_domain(original, i, d));
                        }
                    }
                }
            },
        }
    }
    proof {
        assert forall|d: Seq<char>|
            store.contains_domain(d) == exists|i: int| #[trigger] fetched_domain(
                original,
                i,
                d,
            ) by {
            if store.contains_domain(d) {
                let i = choose|i: int| 0 <= i && #[trigger] fetched_domain(original, i, d);
                assert(fetched_domain(original, i, d));
            }
            if exists|i: int| #[trigger] fetched_domain(original, i, d) {
                let i = choose|i: int| #[trigger] fetched_domain(original, i, d);
                assert(0 <= i && fetched_domain(original, i, d));
            }
        }
    }
    (store, failures)
}

} // verus!

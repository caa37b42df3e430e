//! The run: which tasks to dispatch, what each one did, and the failure
//! count that decides the exit status.
//!
//! A run resolves addresses first, fetches every unique domain's records
//! next, and only then reconciles each (target, family) pair. The
//! planning here is pure: the caller performs the fetches and the
//! create/edit calls, and feeds their outcomes back in.

use vstd::prelude::*;

use crate::addr::{AddressFamily, IpAddress, Ipv4Address, Ipv6Address};
use crate::config::Target;
use crate::matcher::{spec_decide_action, decide_action, ReconcileAction, TargetError};
use crate::record::IpParseError;
use crate::store::RecordStore;
use crate::text::str_eq;

verus! {

/// One dispatched unit of work: a target, one address family, and the
/// action the matcher decided on.
#[derive(Clone, Copy, Debug)]
pub struct TaskPlan {
    /// Index of the target in the run's target list.
    pub target_index: usize,
    /// The address family the unit reconciles.
    pub family: AddressFamily,
    /// What the task must do, or why it cannot proceed.
    pub action: Result<ReconcileAction, TargetError>,
}

/// Everything a run will do after the fetch phase: the tasks to dispatch
/// and the targets skipped because their domain's fetch failed.
#[derive(Debug)]
pub struct RunPlan {
    /// One task per (target, resolved family), in target order with IPv4
    /// before IPv6.
    pub tasks: Vec<TaskPlan>,
    /// Indices of targets whose domain has no record-store entry; their
    /// fetch failure was already counted, so they are skipped silently.
    pub skipped: Vec<usize>,
}

/// The tasks owed for one target: one per resolved address family, IPv4
/// first.
pub open spec fn spec_target_tasks(
    t: Target,
    idx: usize,
    ipv4: Option<Ipv4Address>,
    ipv6: Option<Ipv6Address>,
    recs: Seq<crate::record::RecordView>,
) -> Seq<TaskPlan> {
    let v4part = match ipv4 {
        Some(a) => seq![
            TaskPlan {
                target_index: idx,
                family: AddressFamily::IPv4,
                action: spec_decide_action(t, recs, IpAddress::V4(a)),
            },
        ],
        None => Seq::<TaskPlan>::empty(),
    };
    let v6part = match ipv6 {
        Some(a) => seq![
            TaskPlan {
                target_index: idx,
                family: AddressFamily::IPv6,
                action: spec_decide_action(t, recs, IpAddress::V6(a)),
            },
        ],
        None => Seq::<TaskPlan>::empty(),
    };
    v4part + v6part
}

/// The tasks of the whole run from target `i` on: targets in order, each
/// contributing its tasks when its domain was fetched and nothing when it
/// was not.
pub open spec fn spec_plan_tasks(
    targets: Seq<Target>,
    ipv4: Option<Ipv4Address>,
    ipv6: Option<Ipv6Address>,
    store: RecordStore,
    i: int,
) -> Seq<TaskPlan>
    decreases targets.len() - i when 0 <= i <= targets.len()
{
    if i >= targets.len() {
        Seq::<TaskPlan>::empty()
    } else {
        let t = targets[i];
        let here = if store.contains_domain(t.spec_domain()) {
            spec_target_tasks(t, i as usize, ipv4, ipv6, store.spec_records_for(t.spec_domain()))
        } else {
            Seq::<TaskPlan>::empty()
        };
        here + spec_plan_tasks(targets, ipv4, ipv6, store, i + 1)
    }
}

/// The skipped targets from `i` on: those whose domain has no store
/// entry.
pub open spec fn spec_skipped(targets: Seq<Target>, store: RecordStore, i: int) -> Seq<usize>
    decreases targets.len() - i when 0 <= i <= targets.len()
{
    if i >= targets.len() {
        Seq::<usize>::empty()
    } else if !store.contains_domain(targets[i].spec_domain()) {
        seq![i as usize] + spec_skipped(targets, store, i + 1)
    } else {
        spec_skipped(targets, store, i + 1)
    }
}

/// Plans the whole reconcile phase: walks the targets in order and, for
/// each one whose domain was fetched, decides one task per resolved
/// address family; targets whose domain is missing from the store are
/// listed as skipped instead.
pub fn plan_run(
    targets: &Vec<Target>,
    ipv4: Option<Ipv4Address>,
    ipv6: Option<Ipv6Address>,
    store: &RecordStore,
) -> (plan: RunPlan)
    requires
        store.wf(),
    ensures
        plan.tasks@ == spec_plan_tasks(targets@, ipv4, ipv6, *store, 0),
        plan.skipped@ == spec_skipped(targets@, *store, 0),
{
    let mut tasks: Vec<TaskPlan> = Vec::new();
    let mut skipped: Vec<usize> = Vec::new();
    let n = targets.len();
    let mut i: usize = 0;
    while i < n
        invariant
            i <= n,
            n == targets@.len(),
            store.wf(),
            tasks@ + spec_plan_tasks(targets@, ipv4, ipv6, *store, i as int) == spec_plan_tasks(
                targets@,
                ipv4,
                ipv6,
                *store,
                0,
            ),
            skipped@ + spec_skipped(targets@, *store, i as int) == spec_skipped(
                targets@,
                *store,
                0,
            ),
        decreases n - i,
    {
        let ghost pre_tasks = tasks@;
        let ghost pre_skipped = skipped@;
        let t = &targets[i];
        match store.get(t.domain()) {
            Some(records) => {
                if let Some(a) = ipv4 {
                    let action = decide_action(t, records, IpAddress::V4(a));
                    tasks.push(
                        TaskPlan { target_index: i, family: AddressFamily::IPv4, action },
                    );
                }
                if let Some(a) = ipv6 {
                    let action = decide_action(t, records, IpAddress::V6(a));
                    tasks.push(
                        TaskPlan { target_index: i, family: AddressFamily::IPv6, action },
                    );
                }
                proof {
                    let here = spec_target_tasks(
                        targets@[i as int],
                        i,
                        ipv4,
                        ipv6,
                        store.spec_records_for(targets@[i as int].spec_domain()),
                    );
                    assert(tasks@ =~= pre_tasks + here);
                    assert(pre_tasks + here + spec_plan_tasks(
                        targets@,
                        ipv4,
                        ipv6,
                        *store,
                        i + 1,
                    ) =~= pre_tasks + (here + spec_plan_tasks(targets@, ipv4, ipv6, *store, i + 1)));
                    assert(skipped@ + spec_skipped(targets@, *store, i + 1) == spec_skipped(
                        targets@,
                        *store,
                        0,
                    ));
                }
            },
            None => {
                skipped.push(i);
                proof {
                    assert(skipped@ =~= pre_skipped + seq![i]);
                    assert(pre_skipped + seq![i] + spec_skipped(targets@, *store, i + 1)
                        =~= pre_skipped + (seq![i] + spec_skipped(targets@, *store, i + 1)));
                }
            },
        }
        i = i + 1;
    }
    proof {
        assert(spec_plan_tasks(targets@, ipv4, ipv6, *store, n as int) =~= Seq::<
            TaskPlan,
        >::empty());
        assert(tasks@ + Seq::<TaskPlan>::empty() =~= tasks@);
        assert(spec_skipped(targets@, *store, n as int) =~= Seq::<usize>::empty());
        assert(skipped@ + Seq::<usize>::empty() =~= skipped@);
    }
    RunPlan { tasks, skipped }
}

/// Element `i` of `ds` is some target's domain.
pub open spec fn is_target_domain(targets: Seq<Target>, ds: Seq<String>, i: int) -> bool {
    exists|k: int| 0 <= k < targets.len() && #[trigger] targets[k].spec_domain() == ds[i]@
}

/// Target `k`'s domain appears in `ds`.
pub open spec fn domain_listed(targets: Seq<Target>, ds: Seq<String>, k: int) -> bool {
    exists|i: int| 0 <= i < ds.len() && #[trigger] ds[i]@ == targets[k].spec_domain()
}

/// The unique root domains the targets refer to, each once, in first
/// appearance order.
pub fn unique_domains(targets: &Vec<Target>) -> (ds: Vec<String>)
    ensures
        forall|i: int, j: int| 0 <= i < j < ds@.len() ==> #[trigger] ds@[i]@ != #[trigger] ds@[j]@,
        forall|i: int| 0 <= i < ds@.len() ==> #[trigger] is_target_domain(targets@, ds@, i),
        forall|k: int| 0 <= k < targets@.len() ==> #[trigger] domain_listed(targets@, ds@, k),
{
    let mut ds: Vec<String> = Vec::new();
    let n = targets.len();
    let mut k: usize = 0;
    while k < n
        invariant
            k <= n,
            n == targets@.len(),
            forall|i: int, j: int|
                0 <= i < j < ds@.len() ==> #[trigger] ds@[i]@ != #[trigger] ds@[j]@,
            forall|i: int| 0 <= i < ds@.len() ==> #[trigger] is_target_domain(targets@, ds@, i),
            forall|k2: int| 0 <= k2 < k ==> #[trigger] domain_listed(targets@, ds@, k2),
        decreases n - k,
    {
        let d = targets[k].domain();
        if !contains_string(&ds, d) {
            let ghost pre = ds@;
            ds.push(String::from_str(d));
            proof {
                let last = pre.len() as int;
                assert(ds@[last]@ == targets@[k as int].spec_domain());
                assert forall|i: int, j: int|
                    0 <= i < j < ds@.len() implies #[trigger] ds@[i]@ != #[trigger] ds@[j]@ by {
                    if j == last {
                        assert(ds@[i]@ == pre[i]@);
                    }
                }
                assert forall|i: int|
                    0 <= i < ds@.len() implies #[trigger] is_target_domain(targets@, ds@, i) by {
                    if i < last {
                        assert(is_target_domain(targets@, pre, i));
                        let k2 = choose|k2: int|
                            0 <= k2 < targets@.len() && #[trigger] targets@[k2].spec_domain()
                                == pre[i]@;
                        assert(targets@[k2].spec_domain() == ds@[i]@);
                    } else {
                        assert(targets@[k as int].spec_domain() == ds@[i]@);
                    }
                }
                assert forall|k2: int|
                    0 <= k2 <= k implies #[trigger] domain_listed(targets@, ds@, k2) by {
                    if k2 < k {
                        assert(domain_listed(targets@, pre, k2));
                        let i = choose|i: int|
                            0 <= i < pre.len() && #[trigger] pre[i]@
                                == targets@[k2].spec_domain();
                        assert(ds@[i]@ == targets@[k2].spec_domain());
                    } else {
                        assert(ds@[last]@ == targets@[k2].spec_domain());
                    }
                }
            }
        } else {
            proof {
                let i = choose|i: int|
                    0 <= i < ds@.len() && #[trigger] ds@[i]@ == targets@[k as int].spec_domain();
                assert forall|k2: int|
                    0 <= k2 <= k implies #[trigger] domain_listed(targets@, ds@, k2) by {
                    if k2 == k {
                        assert(ds@[i]@ == targets@[k2].spec_domain());
                    }
                }
            }
        }
        k = k + 1;
    }
    ds
}

/// Whether some element of `ds` reads `s`.
fn contains_string(ds: &Vec<String>, s: &str) -> (b: bool)
    ensures
        b == exists|i: int| 0 <= i < ds@.len() && #[trigger] ds@[i]@ == s@,
{
    let n = ds.len();
    let mut i: usize = 0;
    while i < n
        invariant
            i <= n,
            n == ds@.len(),
            forall|j: int| 0 <= j < i ==> #[trigger] ds@[j]@ != s@,
        decreases n - i,
    {
        if str_eq(ds[i].as_str(), s) {
            return true;
        }
        i = i + 1;
    }
    false
}

/// Why one (target, family) task ended in failure.
#[derive(Clone, Copy, PartialEq, Eq, Structural, Debug)]
pub enum FailureKind {
    /// More than one matching record of the wanted type.
    MultipleRecords,
    /// A matching CNAME or ALIAS record stands in the way.
    CnameCollision,
    /// The matching record's content is not the address it should be.
    MalformedRecord(IpParseError),
    /// The provider rejected, or transport lost, the create/edit call.
    CallFailed,
}

/// What one task amounted to, for reporting and counting only.
#[derive(Clone, Copy, PartialEq, Eq, Structural, Debug)]
pub enum ReconciliationOutcome {
    /// The record already carried the current address; nothing was sent.
    NoChange,
    /// The record was edited from `old_addr` to `new_addr`.
    Edited { old_addr: IpAddress, new_addr: IpAddress },
    /// A record with `new_addr` was created.
    Created { new_addr: IpAddress },
    /// The task failed; the batch went on regardless.
    Failed { reason: FailureKind },
}

/// The failure a decision error amounts to.
pub open spec fn spec_failure_of(e: TargetError) -> FailureKind {
    match e {
        TargetError::MultipleRecords => FailureKind::MultipleRecords,
        TargetError::CnameCollision => FailureKind::CnameCollision,
        TargetError::MalformedRecord(p) => FailureKind::MalformedRecord(p),
    }
}

/// The outcome one task reports, given its decided action and whether
/// the provider call it required (if any) went through.
pub open spec fn spec_outcome_of(
    action: Result<ReconcileAction, TargetError>,
    call_ok: bool,
) -> ReconciliationOutcome {
    match action {
        Err(e) => ReconciliationOutcome::Failed { reason: spec_failure_of(e) },
        Ok(ReconcileAction::NoChange { .. }) => ReconciliationOutcome::NoChange,
        Ok(ReconcileAction::Edit { record_index, old_addr, new_addr }) => if call_ok {
            ReconciliationOutcome::Edited { old_addr, new_addr }
        } else {
            ReconciliationOutcome::Failed { reason: FailureKind::CallFailed }
        },
        Ok(ReconcileAction::Create { new }) => if call_ok {
            ReconciliationOutcome::Created { new_addr: new }
        } else {
            ReconciliationOutcome::Failed { reason: FailureKind::CallFailed }
        },
    }
}

/// The outcome one task reports. `call_ok` says whether the provider
/// call the action required went through; it is ignored when no call was
/// owed. In dry-run mode the caller passes `true` without calling.
pub fn outcome_of(action: Result<ReconcileAction, TargetError>, call_ok: bool) -> (o:
    ReconciliationOutcome)
    ensures
        o == spec_outcome_of(action, call_ok),
{
    match action {
        Err(TargetError::MultipleRecords) => ReconciliationOutcome::Failed {
            reason: FailureKind::MultipleRecords,
        },
        Err(TargetError::CnameCollision) => ReconciliationOutcome::Failed {
            reason: FailureKind::CnameCollision,
        },
        Err(TargetError::MalformedRecord(p)) => ReconciliationOutcome::Failed {
            reason: FailureKind::MalformedRecord(p),
        },
        Ok(ReconcileAction::NoChange { record_index: _ }) => ReconciliationOutcome::NoChange,
        Ok(ReconcileAction::Edit { record_index: _, old_addr, new_addr }) => if call_ok {
            ReconciliationOutcome::Edited { old_addr, new_addr }
        } else {
            ReconciliationOutcome::Failed { reason: FailureKind::CallFailed }
        },
        Ok(ReconcileAction::Create { new }) => if call_ok {
            ReconciliationOutcome::Created { new_addr: new }
        } else {
            ReconciliationOutcome::Failed { reason: FailureKind::CallFailed }
        },
    }
}

/// How many of the outcomes from `i` on are failures.
pub open spec fn spec_failure_count(os: Seq<ReconciliationOutcome>, i: int) -> int
    decreases os.len() - i when 0 <= i <= os.len()
{
    if i >= os.len() {
        0
    } else {
        (if os[i] is Failed {
            1int
        } else {
            0int
        }) + spec_failure_count(os, i + 1)
    }
}

/// Counts the failed outcomes of a batch.
pub fn count_failures(outcomes: &Vec<ReconciliationOutcome>) -> (n: usize)
    ensures
        n == spec_failure_count(outcomes@, 0),
        n <= outcomes@.len(),
{
    let len = outcomes.len();
    let mut n: usize = 0;
    let mut i: usize = 0;
    while i < len
        invariant
            i <= len,
            len == outcomes@.len(),
            n <= i,
            n + spec_failure_count(outcomes@, i as int) == spec_failure_count(outcomes@, 0),
        decreases len - i,
    {
        match outcomes[i] {
            ReconciliationOutcome::Failed { .. } => {
                n = n + 1;
            },
            _ => {},
        }
        i = i + 1;
    }
    proof {
        lemma_failure_count_nonneg(outcomes@, len as int);
    }
    n
}

/// The failure count of an empty remainder is zero, and counts are never
/// negative.
proof fn lemma_failure_count_nonneg(os: Seq<ReconciliationOutcome>, i: int)
    requires
        0 <= i <= os.len(),
    ensures
        0 <= spec_failure_count(os, i) <= os.len() - i,
    decreases os.len() - i,
{
    if i < os.len() {
        lemma_failure_count_nonneg(os, i + 1);
    }
}

/// Counts the run's failures without aborting the batch: fetch failures
/// and task failures alike end up here, and the final count is the run's
/// exit signal.
#[derive(Debug)]
pub struct ErrorAggregator {
    failures: usize,
}

impl ErrorAggregator {
    /// How many failures have been recorded.
    pub closed spec fn spec_count(&self) -> usize {
        self.failures
    }

    /// An aggregator with nothing recorded.
    pub fn new() -> (a: ErrorAggregator)
        ensures
            a.spec_count() == 0,
    {
        ErrorAggregator { failures: 0 }
    }

    /// Records one failure. The count pegs at its maximum rather than
    /// wrapping.
    pub fn record_failure(&mut self)
        ensures
            final(self).spec_count() == if old(self).spec_count() < usize::MAX {
                old(self).spec_count() + 1
            } else {
                old(self).spec_count() as int
            },
    {
        if self.failures < usize::MAX {
            self.failures = self.failures + 1;
        }
    }

    /// Records `n` failures at once. The count pegs at its maximum rather
    /// than wrapping.
    pub fn record_failures(&mut self, n: usize)
        ensures
            final(self).spec_count() == if old(self).spec_count() + n <= usize::MAX {
                old(self).spec_count() + n
            } else {
                usize::MAX as int
            },
    {
        if n <= usize::MAX - self.failures {
            self.failures = self.failures + n;
        } else {
            self.failures = usize::MAX;
        }
    }

    /// How many failures have been recorded.
    pub fn count(&self) -> (n: usize)
        ensures
            n == self.spec_count(),
    {
        self.failures
    }

    /// The run succeeded only when nothing failed.
    pub fn is_success(&self) -> (b: bool)
        ensures
            b == (self.spec_count() == 0),
    {
        self.failures == 0
    }
}

} // verus!

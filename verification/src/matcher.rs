//! The per-target decision: whether a matching record exists, is one of
//! several, collides with a CNAME/ALIAS, or is absent.

use vstd::prelude::*;

use crate::addr::{AddressFamily, IpAddrExt, IpAddress};
use crate::config::Target;
use crate::record::{recs_views, spec_try_parse_ip, DNSRecord, IpParseError, RecordView};
use crate::text::str_eq;

verus! {

/// Why reconciling one target and family cannot proceed.
#[derive(Clone, Copy, PartialEq, Eq, Structural, Debug)]
pub enum ConflictKind {
    /// More than one existing record of the wanted type matches the
    /// target, and there is no way to tell which one to update.
    MultipleRecords,
    /// A CNAME or ALIAS record answers for the target's name, so no
    /// address record can be created beside it.
    CnameCollision,
}

/// The matcher's verdict for one target and one address family.
#[derive(Clone, Copy, PartialEq, Eq, Structural, Debug)]
pub enum Decision {
    /// No record of the wanted type matches the target.
    NoExistingRecord,
    /// Exactly one record matches; its index in the scanned list.
    ExistingMatch(usize),
    /// The existing records rule reconciliation out.
    Conflict(ConflictKind),
}

/// Whether a record type tag names a pass-through record: CNAME or ALIAS.
pub open spec fn is_cname_like(typ: Seq<char>) -> bool {
    ||| typ == seq!['C', 'N', 'A', 'M', 'E']
    ||| typ == seq!['A', 'L', 'I', 'A', 'S']
}

/// The record belongs to the target and already carries the family's
/// record type.
pub open spec fn is_family_match(t: Target, r: RecordView, fam: AddressFamily) -> bool {
    &&& t.spec_matches(r.name)
    &&& r.typ == fam.spec_dns_type()
}

/// One step short of [`spec_decide`]: the verdict of the scan from index
/// `i` on, with `existing` the lone family match seen so far. The scan
/// walks the records in order; a second family match or a matching
/// CNAME/ALIAS ends it with a conflict on the spot.
pub open spec fn spec_scan(
    t: Target,
    recs: Seq<RecordView>,
    fam: AddressFamily,
    i: int,
    existing: Option<usize>,
) -> Decision
    decreases recs.len() - i when 0 <= i <= recs.len()
{
    if i >= recs.len() {
        match existing {
            Some(j) => Decision::ExistingMatch(j),
            None => Decision::NoExistingRecord,
        }
    } else {
        let r = recs[i];
        if !t.spec_matches(r.name) {
            spec_scan(t, recs, fam, i + 1, existing)
        } else if r.typ == fam.spec_dns_type() {
            if existing is None {
                spec_scan(t, recs, fam, i + 1, Some(i as usize))
            } else {
                Decision::Conflict(ConflictKind::MultipleRecords)
            }
        } else if is_cname_like(r.typ) {
            Decision::Conflict(ConflictKind::CnameCollision)
        } else {
            spec_scan(t, recs, fam, i + 1, existing)
        }
    }
}

/// The verdict for `t` and `fam` over the whole record list.
pub open spec fn spec_decide(t: Target, recs: Seq<RecordView>, fam: AddressFamily) -> Decision {
    spec_scan(t, recs, fam, 0, None)
}

/// Decides whether a record of `family`'s type already exists for
/// `target` among `records`.
///
/// The verdict is a function of the arguments alone: no lookups, no
/// side effects, and the same inputs always yield the same decision.
pub fn decide(target: &Target, records: &Vec<DNSRecord>, family: AddressFamily) -> (d: Decision)
    ensures
        d == spec_decide(*target, recs_views(records@), family),
        d matches Decision::ExistingMatch(j) ==> j < records@.len(),
{
    let ghost views = recs_views(records@);
    let mut existing: Option<usize> = None;
    let mut i: usize = 0;
    while i < records.len()
        invariant
            i <= records@.len(),
            views == recs_views(records@),
            spec_decide(*target, views, family) == spec_scan(
                *target,
                views,
                family,
                i as int,
                existing,
            ),
            existing matches Some(j) ==> j < i,
        decreases records@.len() - i,
    {
        let r = &records[i];
        if target.matches_record(r) {
            if str_eq(r.typ.as_str(), family.dns_type()) {
                if existing.is_none() {
                    existing = Some(i);
                } else {
                    return Decision::Conflict(ConflictKind::MultipleRecords);
                }
            } else {
                let cname_like = str_eq(r.typ.as_str(), "CNAME") || str_eq(
                    r.typ.as_str(),
                    "ALIAS",
                );
                proof {
                    reveal_strlit("CNAME");
                    reveal_strlit("ALIAS");
                    assert("CNAME"@ =~= seq!['C', 'N', 'A', 'M', 'E']);
                    assert("ALIAS"@ =~= seq!['A', 'L', 'I', 'A', 'S']);
                }
                if cname_like {
                    return Decision::Conflict(ConflictKind::CnameCollision);
                }
            }
        }
        i = i + 1;
    }
    match existing {
        Some(j) => Decision::ExistingMatch(j),
        None => Decision::NoExistingRecord,
    }
}

/// Some record at or after `i` matches the target and is CNAME or ALIAS.
pub open spec fn cname_match_from(t: Target, recs: Seq<RecordView>, i: int) -> bool {
    exists|k: int|
        i <= k < recs.len() && t.spec_matches(#[trigger] recs[k].name) && is_cname_like(recs[k].typ)
}

/// Some record at or after `i` is a family match for the target.
pub open spec fn family_match_from(
    t: Target,
    recs: Seq<RecordView>,
    fam: AddressFamily,
    i: int,
) -> bool {
    exists|k: int| i <= k < recs.len() && is_family_match(t, #[trigger] recs[k], fam)
}

/// Two distinct records at or after `i` are family matches for the target.
pub open spec fn two_family_matches_from(
    t: Target,
    recs: Seq<RecordView>,
    fam: AddressFamily,
    i: int,
) -> bool {
    exists|k1: int, k2: int|
        i <= k1 < k2 < recs.len() && is_family_match(t, #[trigger] recs[k1], fam)
            && is_family_match(t, #[trigger] recs[k2], fam)
}

/// Peels the record at `i` off [`cname_match_from`].
proof fn lemma_cname_from_unfold(t: Target, recs: Seq<RecordView>, i: int)
    requires
        0 <= i < recs.len(),
    ensures
        cname_match_from(t, recs, i) == (cname_match_from(t, recs, i + 1) || (t.spec_matches(
            recs[i].name,
        ) && is_cname_like(recs[i].typ))),
{
    if cname_match_from(t, recs, i) {
        let k = choose|k: int|
            i <= k < recs.len() && t.spec_matches(#[trigger] recs[k].name) && is_cname_like(
                recs[k].typ,
            );
        if k > i {
            assert(cname_match_from(t, recs, i + 1));
        }
    }
    if cname_match_from(t, recs, i + 1) {
        let k = choose|k: int|
            i + 1 <= k < recs.len() && t.spec_matches(#[trigger] recs[k].name) && is_cname_like(
                recs[k].typ,
            );
        assert(i <= k < recs.len() && t.spec_matches(recs[k].name) && is_cname_like(recs[k].typ));
    }
    if t.spec_matches(recs[i].name) && is_cname_like(recs[i].typ) {
        assert(cname_match_from(t, recs, i));
    }
}

/// Peels the record at `i` off [`family_match_from`].
proof fn lemma_fm_from_unfold(t: Target, recs: Seq<RecordView>, fam: AddressFamily, i: int)
    requires
        0 <= i < recs.len(),
    ensures
        family_match_from(t, recs, fam, i) == (family_match_from(t, recs, fam, i + 1)
            || is_family_match(t, recs[i], fam)),
{
    if family_match_from(t, recs, fam, i) {
        let k = choose|k: int| i <= k < recs.len() && is_family_match(t, #[trigger] recs[k], fam);
        if k > i {
            assert(family_match_from(t, recs, fam, i + 1));
        }
    }
    if family_match_from(t, recs, fam, i + 1) {
        let k = choose|k: int|
            i + 1 <= k < recs.len() && is_family_match(t, #[trigger] recs[k], fam);
        assert(i <= k < recs.len() && is_family_match(t, recs[k], fam));
    }
    if is_family_match(t, recs[i], fam) {
        assert(family_match_from(t, recs, fam, i));
    }
}

/// Peels the record at `i` off [`two_family_matches_from`].
proof fn lemma_two_fm_from_unfold(t: Target, recs: Seq<RecordView>, fam: AddressFamily, i: int)
    requires
        0 <= i < recs.len(),
    ensures
        two_family_matches_from(t, recs, fam, i) == (two_family_matches_from(t, recs, fam, i + 1)
            || (is_family_match(t, recs[i], fam) && family_match_from(t, recs, fam, i + 1))),
{
    if two_family_matches_from(t, recs, fam, i) {
        let (k1, k2) = choose|k1: int, k2: int|
            i <= k1 < k2 < recs.len() && is_family_match(t, #[trigger] recs[k1], fam)
                && is_family_match(t, #[trigger] recs[k2], fam);
        if k1 > i {
            assert(two_family_matches_from(t, recs, fam, i + 1));
        } else {
            assert(is_family_match(t, recs[k2], fam) && i + 1 <= k2 < recs.len());
            assert(family_match_from(t, recs, fam, i + 1));
        }
    }
    if two_family_matches_from(t, recs, fam, i + 1) {
        let (k1, k2) = choose|k1: int, k2: int|
            i + 1 <= k1 < k2 < recs.len() && is_family_match(t, #[trigger] recs[k1], fam)
                && is_family_match(t, #[trigger] recs[k2], fam);
        assert(i <= k1 < k2 < recs.len() && is_family_match(t, recs[k1], fam) && is_family_match(
            t,
            recs[k2],
            fam,
        ));
    }
    if is_family_match(t, recs[i], fam) && family_match_from(t, recs, fam, i + 1) {
        let k = choose|k: int|
            i + 1 <= k < recs.len() && is_family_match(t, #[trigger] recs[k], fam);
        assert(i <= i < k < recs.len());
        assert(two_family_matches_from(t, recs, fam, i));
    }
}

/// A record type tag of one or four letters is never CNAME or ALIAS.
proof fn lemma_family_type_not_cname(fam: AddressFamily, typ: Seq<char>)
    requires
        typ == fam.spec_dns_type(),
    ensures
        !is_cname_like(typ),
{
    assert(fam.spec_dns_type().len() <= 4);
}

/// What the scan yields, characterized without reference to its order:
/// with a lone match `j0` already in hand, any further family match or
/// any matching CNAME/ALIAS is a conflict, and nothing further keeps the
/// match; starting empty, a matching CNAME/ALIAS or a second family match
/// is a conflict, no family match at all is `NoExistingRecord`, and a
/// sole family match is returned as the match.
proof fn lemma_scan_characterize(
    t: Target,
    recs: Seq<RecordView>,
    fam: AddressFamily,
    i: int,
    existing: Option<usize>,
)
    requires
        0 <= i <= recs.len() <= usize::MAX,
        existing matches Some(j0) ==> is_family_match(t, recs[j0 as int], fam),
    ensures
        existing matches Some(j0) ==> {
            &&& ((cname_match_from(t, recs, i) || family_match_from(t, recs, fam, i)) ==> spec_scan(
                t,
                recs,
                fam,
                i,
                existing,
            ) is Conflict)
            &&& ((!cname_match_from(t, recs, i) && !family_match_from(t, recs, fam, i))
                ==> spec_scan(t, recs, fam, i, existing) == Decision::ExistingMatch(j0))
        },
        existing is None ==> {
            &&& ((cname_match_from(t, recs, i) || two_family_matches_from(t, recs, fam, i))
                ==> spec_scan(t, recs, fam, i, existing) is Conflict)
            &&& ((!cname_match_from(t, recs, i) && !family_match_from(t, recs, fam, i))
                ==> spec_scan(t, recs, fam, i, existing) == Decision::NoExistingRecord)
            &&& (forall|j: int|
                (!cname_match_from(t, recs, i) && !two_family_matches_from(t, recs, fam, i) && i
                    <= j < recs.len() && is_family_match(t, #[trigger] recs[j], fam)) ==> spec_scan(
                    t,
                    recs,
                    fam,
                    i,
                    existing,
                ) == Decision::ExistingMatch(j as usize))
        },
    decreases recs.len() - i,
{
    if i >= recs.len() {
        // empty remainder: all three predicates are false
    } else {
        let r = recs[i];
        lemma_cname_from_unfold(t, recs, i);
        lemma_fm_from_unfold(t, recs, fam, i);
        lemma_two_fm_from_unfold(t, recs, fam, i);
        if !t.spec_matches(r.name) {
            lemma_scan_characterize(t, recs, fam, i + 1, existing);
        } else if r.typ == fam.spec_dns_type() {
            lemma_family_type_not_cname(fam, r.typ);
            if existing is None {
                lemma_scan_characterize(t, recs, fam, i + 1, Some(i as usize));
            } else {
                // second family match in hand: conflict, as promised
            }
        } else if is_cname_like(r.typ) {
            // matching CNAME/ALIAS: conflict, as promised
        } else {
            assert(!is_family_match(t, recs[i], fam));
            lemma_scan_characterize(t, recs, fam, i + 1, existing);
        }
    }
}

/// The verdict, characterized without reference to the scan's order: a
/// conflict exactly when a matching CNAME/ALIAS or a second family match
/// exists; no existing record exactly when nothing matches at all; and a
/// lone match exactly when there is precisely one family match and no
/// matching CNAME/ALIAS, in which case the match is that record.
pub proof fn lemma_decide_characterized(t: Target, recs: Seq<RecordView>, fam: AddressFamily)
    requires
        recs.len() <= usize::MAX,
    ensures
        (spec_decide(t, recs, fam) is Conflict) == (cname_match_from(t, recs, 0)
            || two_family_matches_from(t, recs, fam, 0)),
        (spec_decide(t, recs, fam) == Decision::NoExistingRecord) == (!cname_match_from(t, recs, 0)
            && !family_match_from(t, recs, fam, 0)),
        forall|j: int|
            (!cname_match_from(t, recs, 0) && !two_family_matches_from(t, recs, fam, 0) && 0 <= j
                < recs.len() && is_family_match(t, #[trigger] recs[j], fam)) ==> spec_decide(
                t,
                recs,
                fam,
            ) == Decision::ExistingMatch(j as usize),
        spec_decide(t, recs, fam) matches Decision::ExistingMatch(j) ==> {
            &&& !cname_match_from(t, recs, 0)
            &&& !two_family_matches_from(t, recs, fam, 0)
            &&& j < recs.len()
            &&& is_family_match(t, recs[j as int], fam)
            &&& forall|k: int|
                0 <= k < recs.len() && is_family_match(t, #[trigger] recs[k], fam) ==> k == j as int
        },
{
    lemma_scan_characterize(t, recs, fam, 0, None);
    let d = spec_decide(t, recs, fam);
    if !cname_match_from(t, recs, 0) && !two_family_matches_from(t, recs, fam, 0) {
        if family_match_from(t, recs, fam, 0) {
            let j0 = choose|k: int|
                0 <= k < recs.len() && is_family_match(t, #[trigger] recs[k], fam);
            assert(d == Decision::ExistingMatch(j0 as usize));
        }
    }
    match d {
        Decision::ExistingMatch(j) => {
            assert(family_match_from(t, recs, fam, 0)) by {
                if !family_match_from(t, recs, fam, 0) {
                    assert(d == Decision::NoExistingRecord);
                }
            }
            let j0 = choose|k: int|
                0 <= k < recs.len() && is_family_match(t, #[trigger] recs[k], fam);
            assert(d == Decision::ExistingMatch(j0 as usize));
            assert(j0 == j as int);
            assert forall|k: int|
                0 <= k < recs.len() && is_family_match(t, #[trigger] recs[k], fam) implies k
                == j as int by {
                if k != j0 {
                    if k < j0 {
                        assert(two_family_matches_from(t, recs, fam, 0));
                    } else {
                        assert(two_family_matches_from(t, recs, fam, 0));
                    }
                }
            }
        },
        _ => {},
    }
}

/// Two matching records of the wanted type always yield a conflict: the
/// matcher never silently picks one of them.
pub proof fn lemma_duplicate_records_conflict(
    t: Target,
    recs: Seq<RecordView>,
    fam: AddressFamily,
    k1: int,
    k2: int,
)
    requires
        recs.len() <= usize::MAX,
        0 <= k1 < k2 < recs.len(),
        is_family_match(t, recs[k1], fam),
        is_family_match(t, recs[k2], fam),
    ensures
        spec_decide(t, recs, fam) is Conflict,
{
    assert(two_family_matches_from(t, recs, fam, 0));
    lemma_scan_characterize(t, recs, fam, 0, None);
}

/// A matching CNAME or ALIAS record always yields a conflict, even when
/// no record of the wanted type exists at all.
pub proof fn lemma_cname_collision_conflicts(
    t: Target,
    recs: Seq<RecordView>,
    fam: AddressFamily,
    k: int,
)
    requires
        recs.len() <= usize::MAX,
        0 <= k < recs.len(),
        t.spec_matches(recs[k].name),
        is_cname_like(recs[k].typ),
    ensures
        spec_decide(t, recs, fam) is Conflict,
{
    assert(cname_match_from(t, recs, 0));
    lemma_scan_characterize(t, recs, fam, 0, None);
}

/// What one reconciliation task should do to the provider, decided
/// before any call is made.
#[derive(Clone, Copy, PartialEq, Eq, Structural, Debug)]
pub enum ReconcileAction {
    /// The matching record already carries the current address.
    NoChange { record_index: usize },
    /// The matching record carries `old_addr` and must be edited to
    /// `new_addr`.
    Edit { record_index: usize, old_addr: IpAddress, new_addr: IpAddress },
    /// No record exists; one must be created with `new`.
    Create { new: IpAddress },
}

/// Why one reconciliation task fails before any provider call.
#[derive(Clone, Copy, PartialEq, Eq, Structural, Debug)]
pub enum TargetError {
    /// More than one matching record of the wanted type.
    MultipleRecords,
    /// A matching CNAME or ALIAS record stands in the way.
    CnameCollision,
    /// The matching record's content is not the address it should be.
    MalformedRecord(IpParseError),
}

/// The action owed for one target and the current address of one family:
/// a conflict verdict fails, a lone match is kept or edited by address
/// equality, and no match means a create.
pub open spec fn spec_decide_action(t: Target, recs: Seq<RecordView>, addr: IpAddress) -> Result<
    ReconcileAction,
    TargetError,
> {
    match spec_decide(t, recs, addr.spec_family()) {
        Decision::Conflict(ConflictKind::MultipleRecords) => Err(TargetError::MultipleRecords),
        Decision::Conflict(ConflictKind::CnameCollision) => Err(TargetError::CnameCollision),
        Decision::NoExistingRecord => Ok(ReconcileAction::Create { new: addr }),
        Decision::ExistingMatch(j) => match spec_try_parse_ip(recs[j as int]) {
            Err(e) => Err(TargetError::MalformedRecord(e)),
            Ok(existing_addr) => if existing_addr == addr {
                Ok(ReconcileAction::NoChange { record_index: j })
            } else {
                Ok(
                    ReconcileAction::Edit {
                        record_index: j,
                        old_addr: existing_addr,
                        new_addr: addr,
                    },
                )
            },
        },
    }
}

/// Decides what one reconciliation task must do: nothing, an edit of the
/// matching record, or a create — or why it cannot proceed.
///
/// Like [`decide`], a pure function of its arguments.
pub fn decide_action(target: &Target, records: &Vec<DNSRecord>, addr: IpAddress) -> (r: Result<
    ReconcileAction,
    TargetError,
>)
    ensures
        r == spec_decide_action(*target, recs_views(records@), addr),
{
    match decide(target, records, addr.family()) {
        Decision::Conflict(ConflictKind::MultipleRecords) => Err(TargetError::MultipleRecords),
        Decision::Conflict(ConflictKind::CnameCollision) => Err(TargetError::CnameCollision),
        Decision::NoExistingRecord => Ok(ReconcileAction::Create { new: addr }),
        Decision::ExistingMatch(j) => {
            match records[j].try_parse_ip() {
                Err(e) => Err(TargetError::MalformedRecord(e)),
                Ok(existing_addr) => if existing_addr == addr {
                    Ok(ReconcileAction::NoChange { record_index: j })
                } else {
                    Ok(
                        ReconcileAction::Edit {
                            record_index: j,
                            old_addr: existing_addr,
                            new_addr: addr,
                        },
                    )
                },
            }
        },
    }
}

/// The record list after the provider has applied an edit: the record at
/// `j` carries new content, everything else stands.
pub open spec fn with_edited_content(recs: Seq<RecordView>, j: int, c: Seq<char>) -> Seq<
    RecordView,
> {
    recs.update(j, RecordView { content: c, ..recs[j] })
}

/// The two record lists agree on every name and type, index for index.
proof fn lemma_same_shape_same_decision(
    t: Target,
    recs1: Seq<RecordView>,
    recs2: Seq<RecordView>,
    fam: AddressFamily,
)
    requires
        recs1.len() == recs2.len() <= usize::MAX,
        forall|k: int|
            0 <= k < recs1.len() ==> #[trigger] recs2[k].name == recs1[k].name && recs2[k].typ
                == recs1[k].typ,
    ensures
        forall|i: int, existing: Option<usize>|
            0 <= i <= recs1.len() ==> #[trigger] spec_scan(t, recs1, fam, i, existing) == spec_scan(
                t,
                recs2,
                fam,
                i,
                existing,
            ),
{
    assert forall|i: int, existing: Option<usize>| 0 <= i <= recs1.len() implies #[trigger] spec_scan(
        t,
        recs1,
        fam,
        i,
        existing,
    ) == spec_scan(t, recs2, fam, i, existing) by {
        lemma_scan_agree(t, recs1, recs2, fam, i, existing);
    }
}

/// Induction behind [`lemma_same_shape_same_decision`].
proof fn lemma_scan_agree(
    t: Target,
    recs1: Seq<RecordView>,
    recs2: Seq<RecordView>,
    fam: AddressFamily,
    i: int,
    existing: Option<usize>,
)
    requires
        recs1.len() == recs2.len() <= usize::MAX,
        0 <= i <= recs1.len(),
        forall|k: int|
            0 <= k < recs1.len() ==> #[trigger] recs2[k].name == recs1[k].name && recs2[k].typ
                == recs1[k].typ,
    ensures
        spec_scan(t, recs1, fam, i, existing) == spec_scan(t, recs2, fam, i, existing),
    decreases recs1.len() - i,
{
    if i < recs1.len() {
        if !t.spec_matches(recs1[i].name) {
            lemma_scan_agree(t, recs1, recs2, fam, i + 1, existing);
        } else if recs1[i].typ == fam.spec_dns_type() {
            if existing is None {
                lemma_scan_agree(t, recs1, recs2, fam, i + 1, Some(i as usize));
            }
        } else if !is_cname_like(recs1[i].typ) {
            lemma_scan_agree(t, recs1, recs2, fam, i + 1, existing);
        }
    }
}

/// Reconciliation reaches a fixed point after an edit: once the provider
/// has applied the edit the task asked for — new content that reads back
/// as the current address — the same decision on the refreshed records
/// asks for no change.
#[verifier::rlimit(50)]
pub proof fn lemma_edit_idempotent(
    t: Target,
    recs: Seq<RecordView>,
    addr: IpAddress,
    j: usize,
    c: Seq<char>,
)
    requires
        recs.len() <= usize::MAX,
        match spec_decide_action(t, recs, addr) {
            Ok(ReconcileAction::Edit { record_index, old_addr, new_addr }) => record_index == j,
            _ => false,
        },
        crate::parse::spec_parse_ip(c) == Some(addr),
    ensures
        spec_decide_action(t, with_edited_content(recs, j as int, c), addr) == Ok::<
            ReconcileAction,
            TargetError,
        >(ReconcileAction::NoChange { record_index: j }),
{
    let fam = addr.spec_family();
    let recs2 = with_edited_content(recs, j as int, c);
    assert(spec_decide(t, recs, fam) == Decision::ExistingMatch(j));
    lemma_scan_characterize(t, recs, fam, 0, None);
    assert(!cname_match_from(t, recs, 0));
    assert(!two_family_matches_from(t, recs, fam, 0));
    assert(family_match_from(t, recs, fam, 0));
    assert(is_family_match(t, recs[j as int], fam)) by {
        let k = choose|k: int| 0 <= k < recs.len() && is_family_match(t, #[trigger] recs[k], fam);
        assert(spec_scan(t, recs, fam, 0, None) == Decision::ExistingMatch(k as usize));
        assert(k == j as int);
    }
    assert(recs2.len() == recs.len());
    assert forall|k: int|
        0 <= k < recs.len() implies #[trigger] recs2[k].name == recs[k].name && recs2[k].typ
        == recs[k].typ by {
        if k != j as int {
            assert(recs2[k] == recs[k]);
        }
    }
    lemma_same_shape_same_decision(t, recs, recs2, fam);
    assert(spec_decide(t, recs2, fam) == Decision::ExistingMatch(j));
    // the record keeps the family's type; the new content reads back as
    // the current address of that same family
    assert(recs2[j as int].typ == fam.spec_dns_type());
    assert(recs2[j as int].content == c);
    assert(addr.spec_dns_type() == fam.spec_dns_type());
    assert(spec_try_parse_ip(recs2[j as int]) == Ok::<IpAddress, IpParseError>(addr));
}

/// Reconciliation reaches a fixed point after a create: once the provider
/// has added the record the task asked for — the target's name, the
/// family's type, content that reads back as the current address — the
/// same decision on the refreshed records asks for no change.
#[verifier::rlimit(50)]
pub proof fn lemma_create_idempotent(
    t: Target,
    recs: Seq<RecordView>,
    addr: IpAddress,
    r_new: RecordView,
)
    requires
        recs.len() + 1 <= usize::MAX,
        spec_decide_action(t, recs, addr) == Ok::<ReconcileAction, TargetError>(
            ReconcileAction::Create { new: addr },
        ),
        r_new.name == t.spec_record_name(),
        r_new.typ == addr.spec_dns_type(),
        crate::parse::spec_parse_ip(r_new.content) == Some(addr),
    ensures
        spec_decide_action(t, recs.push(r_new), addr) == Ok::<ReconcileAction, TargetError>(
            ReconcileAction::NoChange { record_index: recs.len() as usize },
        ),
{
    let fam = addr.spec_family();
    let recs2 = recs.push(r_new);
    assert(spec_decide(t, recs, fam) == Decision::NoExistingRecord);
    lemma_scan_characterize(t, recs, fam, 0, None);
    // nothing in the old list matched; the new record is the lone match
    assert(!cname_match_from(t, recs, 0));
    assert(!family_match_from(t, recs, fam, 0)) by {
        if family_match_from(t, recs, fam, 0) {
            let k = choose|k: int|
                0 <= k < recs.len() && is_family_match(t, #[trigger] recs[k], fam);
            assert(spec_scan(t, recs, fam, 0, None) == Decision::ExistingMatch(k as usize));
        }
    }
    assert(is_family_match(t, recs2[recs.len() as int], fam));
    assert(!cname_match_from(t, recs2, 0)) by {
        if cname_match_from(t, recs2, 0) {
            let k = choose|k: int|
                0 <= k < recs2.len() && t.spec_matches(#[trigger] recs2[k].name) && is_cname_like(
                    recs2[k].typ,
                );
            if k < recs.len() {
                assert(recs2[k] == recs[k]);
                assert(cname_match_from(t, recs, 0));
            } else {
                lemma_family_type_not_cname(fam, r_new.typ);
            }
        }
    }
    assert(!two_family_matches_from(t, recs2, fam, 0)) by {
        if two_family_matches_from(t, recs2, fam, 0) {
            let (k1, k2) = choose|k1: int, k2: int|
                0 <= k1 < k2 < recs2.len() && is_family_match(t, #[trigger] recs2[k1], fam)
                    && is_family_match(t, #[trigger] recs2[k2], fam);
            assert(recs2[k1] == recs[k1]);
            assert(family_match_from(t, recs, fam, 0));
        }
    }
    lemma_scan_characterize(t, recs2, fam, 0, None);
    assert(spec_decide(t, recs2, fam) == Decision::ExistingMatch(recs.len() as usize));
    assert(recs2[recs.len() as int].typ == fam.spec_dns_type());
    assert(addr.spec_dns_type() == fam.spec_dns_type());
    assert(spec_try_parse_ip(recs2[recs.len() as int]) == Ok::<IpAddress, IpParseError>(addr));
}

} // verus!

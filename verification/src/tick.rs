//! One reconciliation tick, as a pure decision.
//!
//! A tick takes what the surrounding process observed — the runtime's
//! listing, if the runtime could be reached, and the snapshot document, if
//! it could be read — and decides everything the process must now do:
//! which container survives each category, which containers to remove,
//! which audit events to record, and what the snapshot ingestion reported.
//! The two halves fail independently: an unreachable runtime skips the
//! reconciliation half only, a missing or malformed snapshot skips the
//! metrics half only, and neither ends the scheduler.

use vstd::prelude::*;

use crate::audit::{events_of_removals, RemovalEvent};
use crate::category::Category;
use crate::inventory::{
    group_records, records_from_listing, records_of, CategoryGroups, ContainerRecord,
    RawContainer, RecordModel, RuntimeUnavailable,
};
use crate::inventory::group_of;
use crate::retention::{plan_decides, plan_group, GroupPlan};
use crate::snapshot::{ingest, spec_parse_snapshot, SnapshotError, SystemSnapshot};

verus! {

/// The per-category reconciliation decisions of one tick.
pub struct CategoryPlans {
    pub ram: GroupPlan,
    pub cpu: GroupPlan,
    pub io: GroupPlan,
    pub disk: GroupPlan,
}

impl CategoryPlans {
    /// The plan a category maps to.
    pub open spec fn spec_plan(&self, c: Category) -> GroupPlan {
        match c {
            Category::Ram => self.ram,
            Category::Cpu => self.cpu,
            Category::Io => self.io,
            Category::Disk => self.disk,
        }
    }
}

/// The reconciliation half of one tick's report.
pub struct ReconcileReport {
    /// The inventory, grouped by category.
    pub groups: CategoryGroups,
    /// The survivor and removal decision of each category.
    pub plans: CategoryPlans,
    /// One event per decided removal, in category order ram, cpu, io, disk.
    pub audit_events: Vec<RemovalEvent>,
}

/// Everything one tick decided.
pub struct TickReport {
    /// The reconciliation decisions, or the report that the runtime could
    /// not be reached and the pass is retried at the next interval.
    pub reconciliation: Result<ReconcileReport, RuntimeUnavailable>,
    /// What snapshot ingestion yielded this tick.
    pub snapshot: Result<SystemSnapshot, SnapshotError>,
}

/// The reconciliation half is fully decided by the records and the
/// protected list: groups are the classified records, each category's plan
/// decides its group, and the audit events are exactly the decided
/// removals, in category order.
pub open spec fn reconciliation_valid(
    rep: ReconcileReport,
    recs: Seq<RecordModel>,
    prot: Seq<Seq<char>>,
    timestamp: int,
) -> bool {
    &&& rep.groups.groups_records(recs)
    &&& forall|c: Category| plan_decides(#[trigger] rep.plans.spec_plan(c), group_of(recs, c), prot)
    &&& rep.audit_events.deep_view() == events_of_removals(
        rep.plans.ram.removals.deep_view(),
        Category::Ram,
        timestamp,
    ) + events_of_removals(rep.plans.cpu.removals.deep_view(), Category::Cpu, timestamp)
        + events_of_removals(rep.plans.io.removals.deep_view(), Category::Io, timestamp)
        + events_of_removals(rep.plans.disk.removals.deep_view(), Category::Disk, timestamp)
}

/// Two plans agree in everything observable: survivor, removal indices,
/// and removal records.
pub open spec fn plans_agree(p1: GroupPlan, p2: GroupPlan) -> bool {
    &&& p1.survivor_index == p2.survivor_index
    &&& crate::retention::as_ints(p1.removal_indices@) == crate::retention::as_ints(
        p2.removal_indices@,
    )
    &&& p1.removals.deep_view() == p2.removals.deep_view()
}

/// The reconciliation half of a tick is decided by the inventory and the
/// protected list alone: two valid reports over the same records agree on
/// every plan and on the audit events — whatever else their ticks saw, in
/// particular whatever snapshot ingestion reported.
pub proof fn lemma_reconciliation_deterministic(
    rep1: ReconcileReport,
    rep2: ReconcileReport,
    recs: Seq<RecordModel>,
    prot: Seq<Seq<char>>,
    timestamp: int,
)
    requires
        reconciliation_valid(rep1, recs, prot, timestamp),
        reconciliation_valid(rep2, recs, prot, timestamp),
    ensures
        forall|c: Category| plans_agree(
            #[trigger] rep1.plans.spec_plan(c),
            rep2.plans.spec_plan(c),
        ),
        rep1.audit_events.deep_view() == rep2.audit_events.deep_view(),
{
    assert forall|c: Category| plans_agree(
        #[trigger] rep1.plans.spec_plan(c),
        rep2.plans.spec_plan(c),
    ) by {
        let p1 = rep1.plans.spec_plan(c);
        let p2 = rep2.plans.spec_plan(c);
        let g = group_of(recs, c);
        assert(plan_decides(p1, g, prot));
        assert(plan_decides(p2, g, prot));
        if g.len() > 0 {
            let s1 = p1.survivor_index->Some_0;
            let s2 = p2.survivor_index->Some_0;
            crate::retention::lemma_plan_unique(
                g,
                prot,
                s1 as int,
                crate::retention::as_ints(p1.removal_indices@),
                s2 as int,
                crate::retention::as_ints(p2.removal_indices@),
            );
        } else {
            assert(crate::retention::as_ints(p1.removal_indices@) =~= crate::retention::as_ints(
                p2.removal_indices@,
            ));
            assert(p1.removals.deep_view() =~= p2.removals.deep_view());
        }
    }
    assert(plans_agree(rep1.plans.spec_plan(Category::Ram), rep2.plans.spec_plan(Category::Ram)));
    assert(plans_agree(rep1.plans.spec_plan(Category::Cpu), rep2.plans.spec_plan(Category::Cpu)));
    assert(plans_agree(rep1.plans.spec_plan(Category::Io), rep2.plans.spec_plan(Category::Io)));
    assert(plans_agree(
        rep1.plans.spec_plan(Category::Disk),
        rep2.plans.spec_plan(Category::Disk),
    ));
}

/// The audit events the removals of one category give rise to.
fn events_for(removals: &Vec<ContainerRecord>, category: Category, timestamp: u64) -> (r: Vec<
    RemovalEvent,
>)
    ensures
        r.deep_view() == events_of_removals(removals.deep_view(), category, timestamp as int),
{
    let mut r: Vec<RemovalEvent> = Vec::new();
    let ghost ms = removals.deep_view();
    proof {
        assert(r.deep_view() =~= events_of_removals(ms, category, timestamp as int).take(0));
    }
    let mut i: usize = 0;
    while i < removals.len()
        invariant
            i <= removals.len(),
            ms == removals.deep_view(),
            ms.len() == removals.len(),
            r.deep_view() == events_of_removals(ms, category, timestamp as int).take(i as int),
        decreases removals.len() - i,
    {
        let ghost before = r.deep_view();
        let event = RemovalEvent::removed(timestamp, category, removals[i].name.clone());
        r.push(event);
        proof {
            let evs = events_of_removals(ms, category, timestamp as int);
            assert(evs[i as int] == event@);
            assert(evs.take(i + 1) =~= evs.take(i as int).push(event@));
            assert(r.deep_view() =~= before.push(event@));
        }
        i += 1;
    }
    proof {
        assert(events_of_removals(ms, category, timestamp as int).take(removals.len() as int)
            =~= events_of_removals(ms, category, timestamp as int));
    }
    r
}

/// Decide one tick. The runtime listing and the snapshot document are what
/// the process observed; an `Err` listing stands for a runtime that could
/// not be reached, a `None` document for one that could not be read. The
/// two halves are decided independently of one another.
pub fn run_tick(
    inventory: Result<Vec<RawContainer>, RuntimeUnavailable>,
    snapshot_text: Option<&str>,
    protected: &Vec<String>,
    timestamp: u64,
) -> (r: TickReport)
    ensures
        r.reconciliation is Ok <==> inventory is Ok,
        inventory matches Ok(entries) ==> r.reconciliation matches Ok(rep)
            && reconciliation_valid(
            rep,
            records_of(entries.deep_view()),
            protected.deep_view(),
            timestamp as int,
        ),
        snapshot_text is None <==> (r.snapshot matches Err(e) && e
            == SnapshotError::Unavailable),
        snapshot_text matches Some(t) ==> match spec_parse_snapshot(t@) {
            Some(m) => r.snapshot matches Ok(s) && s@ == m,
            None => r.snapshot matches Err(e) && e == SnapshotError::Malformed,
        },
{
    let snapshot = ingest(snapshot_text);
    let reconciliation = match inventory {
        Err(e) => Err(e),
        Ok(entries) => {
            let records = records_from_listing(&entries);
            let groups = group_records(&records);
            let ram = plan_group(&groups.ram, protected);
            let cpu = plan_group(&groups.cpu, protected);
            let io = plan_group(&groups.io, protected);
            let disk = plan_group(&groups.disk, protected);
            let mut audit_events = events_for(&ram.removals, Category::Ram, timestamp);
            let mut cpu_events = events_for(&cpu.removals, Category::Cpu, timestamp);
            let mut io_events = events_for(&io.removals, Category::Io, timestamp);
            let mut disk_events = events_for(&disk.removals, Category::Disk, timestamp);
            let ghost e1 = audit_events.deep_view();
            let ghost e2 = cpu_events.deep_view();
            let ghost e3 = io_events.deep_view();
            let ghost e4 = disk_events.deep_view();
            audit_events.append(&mut cpu_events);
            proof {
                assert(audit_events.deep_view() =~= e1 + e2);
            }
            audit_events.append(&mut io_events);
            proof {
                assert(audit_events.deep_view() =~= (e1 + e2) + e3);
            }
            audit_events.append(&mut disk_events);
            proof {
                assert(audit_events.deep_view() =~= ((e1 + e2) + e3) + e4);
            }
            let plans = CategoryPlans { ram, cpu, io, disk };
            let rep = ReconcileReport { groups, plans, audit_events };
            proof {
                let recs = records_of(entries.deep_view());
                assert(records.deep_view() == recs);
                assert forall|c: Category| plan_decides(
                    #[trigger] rep.plans.spec_plan(c),
                    group_of(recs, c),
                    protected.deep_view(),
                ) by {
                    assert(rep.groups.spec_group(c) == group_of(recs, c));
                }
            }
            Ok(rep)
        },
    };
    TickReport { reconciliation, snapshot }
}

} // verus!

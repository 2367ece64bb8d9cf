//! The scheduler's decision half. The drivers themselves — the
//! continuous processing loop, the maintenance ticker and the liveness
//! ticker — run outside the library and merely perform what the
//! orchestrator's operations decide; what belongs to the core is the
//! status report the liveness tick assembles: one verdict per external
//! dependency, decided independently so that an outage of one can never
//! mask the health of the other, plus the uptime and the descriptions of
//! the still-pending tasks.

use vstd::prelude::*;
use crate::task::{TaskStatus, TaskView, views_of};
use crate::task_manager::TaskManager;

verus! {

/// The descriptions of the pending records of `q`, in queue order.
pub open spec fn spec_pending_descriptions(q: Seq<TaskView>) -> Seq<Seq<char>>
    decreases q.len(),
{
    if q.len() == 0 {
        Seq::empty()
    } else {
        let rest = spec_pending_descriptions(q.drop_first());
        if q.first().status == TaskStatus::Pending {
            seq![q.first().description] + rest
        } else {
            rest
        }
    }
}

/// One liveness tick's findings.
pub struct StatusReport {
    pub store_ok: bool,
    pub capability_ok: bool,
    pub uptime_secs: u64,
    pub pending_tasks: Vec<String>,
}

/// Mathematical image of a report.
pub ghost struct StatusReportView {
    pub store_ok: bool,
    pub capability_ok: bool,
    pub uptime_secs: u64,
    pub pending_tasks: Seq<Seq<char>>,
}

impl View for StatusReport {
    type V = StatusReportView;

    open spec fn view(&self) -> StatusReportView {
        StatusReportView {
            store_ok: self.store_ok,
            capability_ok: self.capability_ok,
            uptime_secs: self.uptime_secs,
            pending_tasks: self.pending_tasks@.map_values(|s: String| s@),
        }
    }
}

/// What one liveness tick must report: each dependency's own verdict,
/// untouched by the other's, the uptime as handed in, and the pending
/// descriptions of the listed queue — an empty listing when the store is
/// down, matching the best-effort read path.
pub open spec fn spec_status_report(
    store_ok: bool,
    capability_ok: bool,
    uptime_secs: u64,
    q: Seq<TaskView>,
) -> StatusReportView {
    StatusReportView {
        store_ok,
        capability_ok,
        uptime_secs,
        pending_tasks: if store_ok {
            spec_pending_descriptions(q)
        } else {
            Seq::empty()
        },
    }
}

/// Liveness independence law: the store's verdict in a report is decided
/// by the store alone and the capability's by the capability alone, so
/// an outage of either dependency never disturbs how the other is
/// reported.
pub proof fn lemma_liveness_independence(
    store_ok: bool,
    capability_a: bool,
    capability_b: bool,
    store_a: bool,
    store_b: bool,
    capability_ok: bool,
    uptime_secs: u64,
    q: Seq<TaskView>,
)
    ensures
        spec_status_report(store_ok, capability_a, uptime_secs, q).store_ok == store_ok,
        spec_status_report(store_ok, capability_b, uptime_secs, q).store_ok == store_ok,
        spec_status_report(store_a, capability_ok, uptime_secs, q).capability_ok == capability_ok,
        spec_status_report(store_b, capability_ok, uptime_secs, q).capability_ok == capability_ok,
{
}

/// Assembles the liveness tick's report. The store's verdict comes from
/// the manager's own liveness probe; the capability's verdict is handed
/// in by the driver that performed the probe call.
pub fn status_check(task_manager: &TaskManager, capability_ok: bool, uptime_secs: u64) -> (r:
    StatusReport)
    ensures
        r@ == spec_status_report(
            task_manager.store_ok(),
            capability_ok,
            uptime_secs,
            task_manager.queue(),
        ),
{
    let store_ok = task_manager.check_redis_connection().is_ok();
    let tasks = task_manager.get_tasks();
    let ghost tv = views_of(tasks@);
    let mut pending: Vec<String> = Vec::new();
    let mut i: usize = 0;
    proof {
        assert(tv.skip(0) =~= tv);
        assert(pending@.map_values(|s: String| s@) =~= Seq::<Seq<char>>::empty());
    }
    while i < tasks.len()
        invariant
            i <= tasks@.len(),
            tv == views_of(tasks@),
            pending@.map_values(|s: String| s@) + spec_pending_descriptions(tv.skip(i as int))
                =~= spec_pending_descriptions(tv),
        decreases tasks@.len() - i,
    {
        let ghost before = pending@;
        proof {
            assert(tv.skip(i as int).first() == tv[i as int]);
            assert(tv.skip(i as int).drop_first() =~= tv.skip(i + 1));
        }
        if tasks[i].status == TaskStatus::Pending {
            pending.push(tasks[i].description.clone());
            proof {
                assert(pending@.map_values(|s: String| s@) =~= before.map_values(
                    |s: String| s@,
                ).push(tv[i as int].description));
                assert(before.map_values(|s: String| s@).push(tv[i as int].description)
                    + spec_pending_descriptions(tv.skip(i + 1)) =~= before.map_values(
                    |s: String| s@,
                ) + (seq![tv[i as int].description] + spec_pending_descriptions(tv.skip(i + 1))));
            }
        }
        i += 1;
    }
    proof {
        assert(tv.skip(i as int) =~= Seq::<TaskView>::empty());
        assert(pending@.map_values(|s: String| s@) =~= spec_pending_descriptions(tv));
    }
    let r = StatusReport { store_ok, capability_ok, uptime_secs, pending_tasks: pending };
    proof {
        if task_manager.store_ok() {
            assert(tv == task_manager.queue());
        } else {
            assert(tv =~= Seq::<TaskView>::empty());
            assert(spec_pending_descriptions(tv) =~= Seq::<Seq<char>>::empty());
        }
    }
    r
}

} // verus!

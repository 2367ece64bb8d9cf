//! The task manager: owner of the ordered work queue and its two archival
//! collections, as the backing store holds them.
//!
//! The manager's state models the contents of the durable store: the live
//! FIFO queue (`tasks`), the append-only list of records that were enqueued
//! as permanent (`persistent_tasks`, replayed by the bootstrap layer), and
//! the append-only archive of permanent tasks that reached `Completed`
//! (`completed_tasks`). A separate flag models whether the backing
//! connection answers at all: every write fails with `StoreUnavailable`
//! while it is down, and the read paths fall back to an empty listing, so
//! monitoring callers never see a failure. The transport that carries this
//! state to the actual store lives outside the library and hands outcomes
//! back in as plain values.

use vstd::prelude::*;
use vstd::pervasive::VecAdditionalExecFns;
use crate::task::{CoreError, Task, TaskStatus, TaskView, views_of};

verus! {

/// The records a drain pass completes: walking the queue head first and
/// pairing position `i` with `outcomes[i]`, every entry that is `Pending`
/// and whose capability call succeeds, with its status rewritten to
/// `Completed`, in queue order. Entries that are not pending, and pending
/// entries whose call fails, contribute nothing: the pop that removed
/// them is destructive, so they are simply gone.
pub open spec fn drain_completed(q: Seq<TaskView>, outcomes: Seq<bool>) -> Seq<TaskView>
    decreases q.len(),
{
    if q.len() == 0 {
        Seq::empty()
    } else {
        let rest = drain_completed(q.drop_first(), outcomes.drop_first());
        if q.first().status == TaskStatus::Pending && outcomes.first() {
            seq![q.first().with_status(TaskStatus::Completed)] + rest
        } else {
            rest
        }
    }
}

/// The subsequence of `drain_completed` that a drain pass appends to the
/// completed-task archive: only the permanent records.
pub open spec fn drain_archived(q: Seq<TaskView>, outcomes: Seq<bool>) -> Seq<TaskView>
    decreases q.len(),
{
    if q.len() == 0 {
        Seq::empty()
    } else {
        let rest = drain_archived(q.drop_first(), outcomes.drop_first());
        if q.first().status == TaskStatus::Pending && outcomes.first() && q.first().is_permanent {
            seq![q.first().with_status(TaskStatus::Completed)] + rest
        } else {
            rest
        }
    }
}

/// How many records of `q` name the same work as `key`.
pub open spec fn count_key(q: Seq<TaskView>, key: TaskView) -> nat
    decreases q.len(),
{
    if q.len() == 0 {
        0
    } else {
        (if q.first().key_eq(key) {
            1nat
        } else {
            0nat
        }) + count_key(q.drop_first(), key)
    }
}

/// Counting distributes over concatenation.
pub proof fn lemma_count_key_add(a: Seq<TaskView>, b: Seq<TaskView>, key: TaskView)
    ensures
        count_key(a + b, key) == count_key(a, key) + count_key(b, key),
    decreases a.len(),
{
    if a.len() == 0 {
        assert(a + b =~= b);
    } else {
        assert((a + b).drop_first() =~= a.drop_first() + b);
        lemma_count_key_add(a.drop_first(), b, key);
    }
}

/// Counting a sequence that starts with one known record.
proof fn lemma_count_key_cons(x: TaskView, rest: Seq<TaskView>, key: TaskView)
    ensures
        count_key(seq![x] + rest, key) == (if x.key_eq(key) {
            1nat
        } else {
            0nat
        }) + count_key(rest, key),
{
    assert((seq![x] + rest).first() == x);
    assert((seq![x] + rest).drop_first() =~= rest);
}

/// FIFO law: when every queued task is pending and the capability call
/// succeeds for each, a drain pass completes exactly the queued tasks,
/// in enqueue order.
pub proof fn lemma_drain_fifo(q: Seq<TaskView>, outcomes: Seq<bool>)
    requires
        outcomes.len() >= q.len(),
        forall|i: int| 0 <= i < q.len() ==> q[i].status == TaskStatus::Pending,
        forall|i: int| 0 <= i < q.len() ==> outcomes[i],
    ensures
        drain_completed(q, outcomes) == q.map_values(
            |t: TaskView| t.with_status(TaskStatus::Completed),
        ),
    decreases q.len(),
{
    let f = |t: TaskView| t.with_status(TaskStatus::Completed);
    if q.len() == 0 {
        assert(drain_completed(q, outcomes) =~= q.map_values(f));
    } else {
        let qr = q.drop_first();
        let or = outcomes.drop_first();
        assert(forall|i: int| 0 <= i < qr.len() ==> qr[i] == q[i + 1]);
        assert(forall|i: int| 0 <= i < qr.len() ==> or[i] == outcomes[i + 1]);
        lemma_drain_fifo(qr, or);
        assert(drain_completed(q, outcomes) =~= q.map_values(f));
    }
}

/// Archive shape law: everything a drain pass appends to the archive is a
/// permanent record carrying status `Completed`.
pub proof fn lemma_drain_archived_shape(q: Seq<TaskView>, outcomes: Seq<bool>)
    ensures
        forall|i: int|
            0 <= i < drain_archived(q, outcomes).len() ==> {
                &&& (#[trigger] drain_archived(q, outcomes)[i]).is_permanent
                &&& drain_archived(q, outcomes)[i].status == TaskStatus::Completed
            },
    decreases q.len(),
{
    if q.len() > 0 {
        lemma_drain_archived_shape(q.drop_first(), outcomes.drop_first());
    }
}

/// Archive law, the positive half: when exactly one queued record names
/// the given work, and that record is pending and permanent and its
/// capability call succeeds, the drain pass archives it exactly once.
pub proof fn lemma_drain_archives_exactly_once(q: Seq<TaskView>, outcomes: Seq<bool>, key: TaskView)
    requires
        outcomes.len() >= q.len(),
        exists|i: int|
            {
                &&& 0 <= i < q.len()
                &&& #[trigger] q[i].key_eq(key)
                &&& q[i].status == TaskStatus::Pending
                &&& q[i].is_permanent
                &&& outcomes[i]
                &&& forall|j: int| 0 <= j < q.len() && j != i ==> !(#[trigger] q[j].key_eq(key))
            },
    ensures
        count_key(drain_archived(q, outcomes), key) == 1,
    decreases q.len(),
{
    let i = choose|i: int|
        {
            &&& 0 <= i < q.len()
            &&& #[trigger] q[i].key_eq(key)
            &&& q[i].status == TaskStatus::Pending
            &&& q[i].is_permanent
            &&& outcomes[i]
            &&& forall|j: int| 0 <= j < q.len() && j != i ==> !(#[trigger] q[j].key_eq(key))
        };
    let qr = q.drop_first();
    let or = outcomes.drop_first();
    let c = q.first().with_status(TaskStatus::Completed);
    if i == 0 {
        assert(forall|j: int| 0 <= j < qr.len() ==> qr[j] == q[j + 1] && or[j] == outcomes[j + 1]);
        lemma_drain_archives_never(qr, or, key);
        assert(drain_archived(q, outcomes) == seq![c] + drain_archived(qr, or));
        lemma_count_key_cons(c, drain_archived(qr, or), key);
        assert(c.key_eq(key));
    } else {
        assert(qr[i - 1].key_eq(key) && qr[i - 1].status == TaskStatus::Pending && qr[i
            - 1].is_permanent && or[i - 1]);
        assert(forall|j: int| 0 <= j < qr.len() && j != i - 1 ==> !(#[trigger] qr[j].key_eq(key)));
        lemma_drain_archives_exactly_once(qr, or, key);
        if q.first().status == TaskStatus::Pending && outcomes.first() && q.first().is_permanent {
            assert(drain_archived(q, outcomes) == seq![c] + drain_archived(qr, or));
            lemma_count_key_cons(c, drain_archived(qr, or), key);
            assert(!q[0].key_eq(key));
            assert(!c.key_eq(key));
        }
    }
}

/// Archive law, the negative half: work that no queued permanent record
/// with a successful pending run names is never archived by a drain pass.
/// In particular a non-permanent task, and a task whose capability call
/// failed, never reach the archive.
pub proof fn lemma_drain_archives_never(q: Seq<TaskView>, outcomes: Seq<bool>, key: TaskView)
    requires
        outcomes.len() >= q.len(),
        forall|i: int|
            0 <= i < q.len() && #[trigger] q[i].key_eq(key) ==> !(q[i].status == TaskStatus::Pending
                && q[i].is_permanent && outcomes[i]),
    ensures
        count_key(drain_archived(q, outcomes), key) == 0,
    decreases q.len(),
{
    if q.len() > 0 {
        let qr = q.drop_first();
        let or = outcomes.drop_first();
        assert(forall|i: int| 0 <= i < qr.len() ==> qr[i] == q[i + 1] && or[i] == outcomes[i + 1]);
        lemma_drain_archives_never(qr, or, key);
        if q.first().status == TaskStatus::Pending && outcomes.first() && q.first().is_permanent {
            let c = q.first().with_status(TaskStatus::Completed);
            assert(drain_archived(q, outcomes) == seq![c] + drain_archived(qr, or));
            lemma_count_key_cons(c, drain_archived(qr, or), key);
            assert(q[0].key_eq(key) ==> !(q[0].status == TaskStatus::Pending && q[0].is_permanent
                && outcomes[0]));
            assert(!c.key_eq(key));
        }
    }
}

/// Archive law over a whole drain pass: when the archive holds no record
/// of the given work yet, and exactly one queued record names it —
/// pending, permanent, and with a successful capability call — then the
/// archive a drain pass leaves behind holds that work exactly once.
pub proof fn lemma_archive_after_drain(
    archive: Seq<TaskView>,
    q: Seq<TaskView>,
    outcomes: Seq<bool>,
    key: TaskView,
)
    requires
        count_key(archive, key) == 0,
        outcomes.len() >= q.len(),
        exists|i: int|
            {
                &&& 0 <= i < q.len()
                &&& #[trigger] q[i].key_eq(key)
                &&& q[i].status == TaskStatus::Pending
                &&& q[i].is_permanent
                &&& outcomes[i]
                &&& forall|j: int| 0 <= j < q.len() && j != i ==> !(#[trigger] q[j].key_eq(key))
            },
    ensures
        count_key(archive + drain_archived(q, outcomes), key) == 1,
{
    lemma_drain_archives_exactly_once(q, outcomes, key);
    lemma_count_key_add(archive, drain_archived(q, outcomes), key);
}

/// Loss-on-failure law: a pending task whose capability call fails is
/// completed by no drain pass and archived by none — together with the
/// drain contract (the queue ends empty) the record is simply lost.
pub proof fn lemma_drain_loses_failed_task(q: Seq<TaskView>, outcomes: Seq<bool>, key: TaskView)
    requires
        outcomes.len() >= q.len(),
        forall|i: int| 0 <= i < q.len() && #[trigger] q[i].key_eq(key) ==> !outcomes[i],
    ensures
        count_key(drain_completed(q, outcomes), key) == 0,
        count_key(drain_archived(q, outcomes), key) == 0,
    decreases q.len(),
{
    if q.len() > 0 {
        let qr = q.drop_first();
        let or = outcomes.drop_first();
        assert(forall|i: int| 0 <= i < qr.len() ==> qr[i] == q[i + 1] && or[i] == outcomes[i + 1]);
        lemma_drain_loses_failed_task(qr, or, key);
        let c = q.first().with_status(TaskStatus::Completed);
        if q.first().status == TaskStatus::Pending && outcomes.first() {
            assert(drain_completed(q, outcomes) == seq![c] + drain_completed(qr, or));
            lemma_count_key_cons(c, drain_completed(qr, or), key);
            assert(q[0].key_eq(key) ==> !outcomes[0]);
            assert(!c.key_eq(key));
            if q.first().is_permanent {
                assert(drain_archived(q, outcomes) == seq![c] + drain_archived(qr, or));
                lemma_count_key_cons(c, drain_archived(qr, or), key);
            }
        }
    }
}

/// Loss law over a whole drain pass: work that the archive does not hold
/// and whose every queued record fails its capability call is still
/// absent from the archive after the pass — and by the drain contract
/// the queue ends empty, so the work is gone entirely.
pub proof fn lemma_lost_after_drain(
    archive: Seq<TaskView>,
    q: Seq<TaskView>,
    outcomes: Seq<bool>,
    key: TaskView,
)
    requires
        count_key(archive, key) == 0,
        outcomes.len() >= q.len(),
        forall|i: int| 0 <= i < q.len() && #[trigger] q[i].key_eq(key) ==> !outcomes[i],
    ensures
        count_key(archive + drain_archived(q, outcomes), key) == 0,
        count_key(drain_completed(q, outcomes), key) == 0,
{
    lemma_drain_loses_failed_task(q, outcomes, key);
    lemma_count_key_add(archive, drain_archived(q, outcomes), key);
}

/// Ordered task storage plus the availability of its backing connection.
pub struct TaskManager {
    store_available: bool,
    tasks: Vec<Task>,
    persistent_tasks: Vec<Task>,
    completed_tasks: Vec<Task>,
}

impl TaskManager {
    /// Whether the backing store connection currently answers.
    pub closed spec fn store_ok(&self) -> bool {
        self.store_available
    }

    /// The live queue, head first.
    pub closed spec fn queue(&self) -> Seq<TaskView> {
        views_of(self.tasks@)
    }

    /// The records enqueued as permanent, in enqueue order.
    pub closed spec fn permanent(&self) -> Seq<TaskView> {
        views_of(self.persistent_tasks@)
    }

    /// The completed-task archive, in completion order.
    pub closed spec fn archive(&self) -> Seq<TaskView> {
        views_of(self.completed_tasks@)
    }

    /// A fresh manager: an empty store with a live connection.
    pub fn new() -> (m: TaskManager)
        ensures
            m.store_ok(),
            m.queue() =~= Seq::<TaskView>::empty(),
            m.permanent() =~= Seq::<TaskView>::empty(),
            m.archive() =~= Seq::<TaskView>::empty(),
    {
        TaskManager {
            store_available: true,
            tasks: Vec::new(),
            persistent_tasks: Vec::new(),
            completed_tasks: Vec::new(),
        }
    }

    /// A manager whose state was restored from the durable store's three
    /// lists, as read back at process start — so the append-only archive
    /// and the permanent-task replay list survive a restart.
    pub fn from_store(
        tasks: Vec<Task>,
        persistent_tasks: Vec<Task>,
        completed_tasks: Vec<Task>,
    ) -> (m: TaskManager)
        ensures
            m.store_ok(),
            m.queue() == views_of(tasks@),
            m.permanent() == views_of(persistent_tasks@),
            m.archive() == views_of(completed_tasks@),
    {
        TaskManager { store_available: true, tasks, persistent_tasks, completed_tasks }
    }

    /// Bootstrap replay: re-enqueues every record on the permanent replay
    /// list, in order, as a fresh pending task at the tail of the queue.
    /// The replay list itself is left as it is — this replays earlier
    /// enqueues rather than making new ones. Fails, writing nothing,
    /// exactly when the store is unavailable.
    pub fn reseed_permanent_tasks(&mut self) -> (r: Result<(), CoreError>)
        ensures
            final(self).store_ok() == old(self).store_ok(),
            final(self).permanent() == old(self).permanent(),
            final(self).archive() == old(self).archive(),
            match r {
                Ok(()) => {
                    &&& old(self).store_ok()
                    &&& final(self).queue() == old(self).queue() + old(
                        self,
                    ).permanent().map_values(|t: TaskView| t.with_status(TaskStatus::Pending))
                },
                Err(e) => {
                    &&& e == CoreError::StoreUnavailable
                    &&& !old(self).store_ok()
                    &&& final(self).queue() == old(self).queue()
                },
            },
    {
        if !self.store_available {
            return Err(CoreError::StoreUnavailable);
        }
        let n = self.persistent_tasks.len();
        let mut i: usize = 0;
        proof {
            assert(self.queue() =~= old(self).queue() + old(self).permanent().take(0).map_values(
                |t: TaskView| t.with_status(TaskStatus::Pending),
            ));
        }
        while i < n
            invariant
                i <= n,
                n == self.persistent_tasks.len(),
                self.store_available,
                self.persistent_tasks == old(self).persistent_tasks,
                self.completed_tasks == old(self).completed_tasks,
                self.queue() == old(self).queue() + old(self).permanent().take(
                    i as int,
                ).map_values(|t: TaskView| t.with_status(TaskStatus::Pending)),
            decreases n - i,
        {
            let ghost queue_pre = self.queue();
            let source = &self.persistent_tasks[i];
            let copy = Task {
                description: source.description.clone(),
                action: source.action.clone(),
                status: TaskStatus::Pending,
                is_permanent: source.is_permanent,
            };
            proof {
                assert(copy@ == old(self).permanent()[i as int].with_status(TaskStatus::Pending));
            }
            self.tasks.push(copy);
            proof {
                let g = |t: TaskView| t.with_status(TaskStatus::Pending);
                assert(self.queue() =~= queue_pre.push(
                    old(self).permanent()[i as int].with_status(TaskStatus::Pending),
                ));
                assert(old(self).permanent().take(i + 1) =~= old(self).permanent().take(
                    i as int,
                ).push(old(self).permanent()[i as int]));
                assert(old(self).permanent().take(i + 1).map_values(g) =~= old(
                    self,
                ).permanent().take(i as int).map_values(g).push(
                    old(self).permanent()[i as int].with_status(TaskStatus::Pending),
                ));
                assert(self.queue() =~= old(self).queue() + old(self).permanent().take(
                    i + 1,
                ).map_values(g));
            }
            i += 1;
        }
        proof {
            assert(old(self).permanent().take(i as int) =~= old(self).permanent());
        }
        Ok(())
    }

    /// Records whether the backing store connection answers. The condition
    /// is decided outside the library (the transport reports it); tests use
    /// this to simulate an outage.
    pub fn set_store_available(&mut self, available: bool)
        ensures
            final(self).store_ok() == available,
            final(self).queue() == old(self).queue(),
            final(self).permanent() == old(self).permanent(),
            final(self).archive() == old(self).archive(),
    {
        self.store_available = available;
    }

    /// Appends a task at the tail of the queue; a permanent task is also
    /// recorded on the replay list. Fails, writing nothing, exactly when
    /// the store is unavailable.
    pub fn add_task(&mut self, task: Task) -> (r: Result<(), CoreError>)
        ensures
            final(self).store_ok() == old(self).store_ok(),
            final(self).archive() == old(self).archive(),
            match r {
                Ok(()) => old(self).store_ok()
                    && final(self).queue() == old(self).queue().push(task@)
                    && final(self).permanent() == if task@.is_permanent {
                        old(self).permanent().push(task@)
                    } else {
                        old(self).permanent()
                    },
                Err(e) => e == CoreError::StoreUnavailable
                    && !old(self).store_ok()
                    && final(self).queue() == old(self).queue()
                    && final(self).permanent() == old(self).permanent(),
            },
    {
        if !self.store_available {
            return Err(CoreError::StoreUnavailable);
        }
        if task.is_permanent {
            let copy = task.clone();
            self.persistent_tasks.push(copy);
            proof {
                assert(views_of(self.persistent_tasks@) =~= views_of(
                    old(self).persistent_tasks@,
                ).push(task@));
            }
        }
        self.tasks.push(task);
        proof {
            assert(views_of(self.tasks@) =~= views_of(old(self).tasks@).push(
                self.tasks@.last()@,
            ));
        }
        Ok(())
    }

    /// Rewrites the status of the first queued entry whose
    /// `(description, action)` pair equals `task`'s; entries after the
    /// first match are left untouched. When the rewrite moves a permanent
    /// entry into `Completed`, the updated snapshot is also appended to
    /// the completed-task archive. Fails with `TaskNotFound` when no entry
    /// matches, and with `StoreUnavailable` (touching nothing) while the
    /// store is down.
    pub fn update_task_status(&mut self, task: &Task, new_status: TaskStatus) -> (r: Result<
        (),
        CoreError,
    >)
        ensures
            final(self).store_ok() == old(self).store_ok(),
            final(self).permanent() == old(self).permanent(),
            match r {
                Ok(()) => old(self).store_ok() && exists|i: int|
                    {
                        &&& 0 <= i < old(self).queue().len()
                        &&& #[trigger] old(self).queue()[i].key_eq(task@)
                        &&& forall|j: int|
                            0 <= j < i ==> !(#[trigger] old(self).queue()[j].key_eq(task@))
                        &&& final(self).queue() == old(self).queue().update(
                            i,
                            old(self).queue()[i].with_status(new_status),
                        )
                        &&& final(self).archive() == if new_status == TaskStatus::Completed
                            && old(self).queue()[i].is_permanent {
                            old(self).archive().push(old(self).queue()[i].with_status(new_status))
                        } else {
                            old(self).archive()
                        }
                    },
                Err(e) => {
                    &&& final(self).queue() == old(self).queue()
                    &&& final(self).archive() == old(self).archive()
                    &&& (e == CoreError::StoreUnavailable || e == CoreError::TaskNotFound)
                    &&& (e == CoreError::StoreUnavailable <==> !old(self).store_ok())
                    &&& (e == CoreError::TaskNotFound ==> forall|i: int|
                        0 <= i < old(self).queue().len() ==> !(#[trigger] old(self).queue()[i].key_eq(
                            task@,
                        )))
                },
            },
    {
        if !self.store_available {
            return Err(CoreError::StoreUnavailable);
        }
        let n = self.tasks.len();
        let mut i: usize = 0;
        while i < n
            invariant
                self == old(self),
                n == self.tasks.len(),
                i <= n,
                self.store_available,
                forall|j: int| 0 <= j < i ==> !(#[trigger] self.queue()[j].key_eq(task@)),
            decreases n - i,
        {
            let matched = self.tasks[i].key_matches(task);
            if matched {
                let existing = &self.tasks[i];
                let updated = Task {
                    description: existing.description.clone(),
                    action: existing.action.clone(),
                    status: new_status,
                    is_permanent: existing.is_permanent,
                };
                let archive_it = updated.is_permanent && new_status == TaskStatus::Completed;
                proof {
                    assert(updated@ == old(self).queue()[i as int].with_status(new_status));
                }
                if archive_it {
                    let snapshot = updated.clone();
                    self.completed_tasks.push(snapshot);
                    proof {
                        assert(views_of(self.completed_tasks@) =~= views_of(
                            old(self).completed_tasks@,
                        ).push(old(self).queue()[i as int].with_status(new_status)));
                    }
                }
                self.tasks.set(i, updated);
                proof {
                    assert(views_of(self.tasks@) =~= old(self).queue().update(
                        i as int,
                        old(self).queue()[i as int].with_status(new_status),
                    ));
                }
                return Ok(());
            }
            i += 1;
        }
        Err(CoreError::TaskNotFound)
    }

    /// Removes and returns the head of the queue, for a driver that
    /// interleaves the pops of a drain pass with the capability calls.
    /// The pop is destructive: once a task is returned here, only
    /// `commit_task_outcome` can preserve a trace of it.
    pub fn pop_next_task(&mut self) -> (r: Result<Option<Task>, CoreError>)
        ensures
            final(self).store_ok() == old(self).store_ok(),
            final(self).permanent() == old(self).permanent(),
            final(self).archive() == old(self).archive(),
            match r {
                Ok(Some(t)) => {
                    &&& old(self).store_ok()
                    &&& old(self).queue().len() > 0
                    &&& t@ == old(self).queue().first()
                    &&& final(self).queue() == old(self).queue().drop_first()
                },
                Ok(None) => {
                    &&& old(self).store_ok()
                    &&& old(self).queue().len() == 0
                    &&& final(self).queue() == old(self).queue()
                },
                Err(e) => {
                    &&& e == CoreError::StoreUnavailable
                    &&& !old(self).store_ok()
                    &&& final(self).queue() == old(self).queue()
                },
            },
    {
        if !self.store_available {
            return Err(CoreError::StoreUnavailable);
        }
        if self.tasks.len() == 0 {
            return Ok(None);
        }
        let t = self.tasks.remove(0);
        proof {
            assert(views_of(self.tasks@) =~= old(self).queue().drop_first());
        }
        Ok(Some(t))
    }

    /// Folds the capability's verdict on one popped task back into the
    /// store: a successful call on a pending task yields its `Completed`
    /// snapshot, archived when the task is permanent. Any other verdict
    /// leaves no trace — the popped record is lost, which is the known
    /// failure mode of the destructive pop.
    pub fn commit_task_outcome(&mut self, task: Task, success: bool) -> (r: Result<
        Option<Task>,
        CoreError,
    >)
        ensures
            final(self).store_ok() == old(self).store_ok(),
            final(self).permanent() == old(self).permanent(),
            final(self).queue() == old(self).queue(),
            match r {
                Ok(Some(done)) => {
                    &&& old(self).store_ok()
                    &&& task@.status == TaskStatus::Pending && success
                    &&& done@ == task@.with_status(TaskStatus::Completed)
                    &&& final(self).archive() == if task@.is_permanent {
                        old(self).archive().push(done@)
                    } else {
                        old(self).archive()
                    }
                },
                Ok(None) => {
                    &&& old(self).store_ok()
                    &&& !(task@.status == TaskStatus::Pending && success)
                    &&& final(self).archive() == old(self).archive()
                },
                Err(e) => {
                    &&& e == CoreError::StoreUnavailable
                    &&& !old(self).store_ok()
                    &&& final(self).archive() == old(self).archive()
                },
            },
    {
        if !self.store_available {
            return Err(CoreError::StoreUnavailable);
        }
        let is_pending = task.status == TaskStatus::Pending;
        if is_pending && success {
            let completed = Task {
                description: task.description,
                action: task.action,
                status: TaskStatus::Completed,
                is_permanent: task.is_permanent,
            };
            if completed.is_permanent {
                let snapshot = completed.clone();
                self.completed_tasks.push(snapshot);
                proof {
                    assert(views_of(self.completed_tasks@) =~= views_of(
                        old(self).completed_tasks@,
                    ).push(completed@));
                }
            }
            Ok(Some(completed))
        } else {
            Ok(None)
        }
    }

    /// The drain pass: pops the queue head first until it is empty,
    /// invoking the capability on each pending task — `outcomes[i]` stands
    /// for the verdict of the call made for queue position `i` — and
    /// committing each verdict as `commit_task_outcome` does. Returns the
    /// records completed this pass, in queue order; the queue always ends
    /// empty, so a pending task whose call failed is lost. Fails, popping
    /// nothing, exactly when the store is unavailable.
    pub fn execute_tasks(&mut self, outcomes: &Vec<bool>) -> (r: Result<Vec<Task>, CoreError>)
        requires
            outcomes@.len() >= old(self).queue().len(),
        ensures
            final(self).store_ok() == old(self).store_ok(),
            final(self).permanent() == old(self).permanent(),
            match r {
                Ok(done) => {
                    &&& old(self).store_ok()
                    &&& final(self).queue().len() == 0
                    &&& views_of(done@) == drain_completed(old(self).queue(), outcomes@)
                    &&& final(self).archive() == old(self).archive() + drain_archived(
                        old(self).queue(),
                        outcomes@,
                    )
                },
                Err(e) => {
                    &&& e == CoreError::StoreUnavailable
                    &&& !old(self).store_ok()
                    &&& final(self).queue() == old(self).queue()
                    &&& final(self).archive() == old(self).archive()
                },
            },
    {
        if !self.store_available {
            return Err(CoreError::StoreUnavailable);
        }
        let ghost q0 = self.queue();
        let ghost outs = outcomes@;
        let ghost a0 = self.archive();
        let mut done: Vec<Task> = Vec::new();
        let mut i: usize = 0;
        let n0 = self.tasks.len();
        proof {
            assert(q0.len() == n0);
            assert(q0.skip(0) =~= q0);
            assert(outs.skip(0) =~= outs);
        }
        while self.tasks.len() > 0
            invariant
                self.store_available,
                outs == outcomes@,
                outs.len() >= q0.len(),
                q0.len() == n0,
                i <= q0.len(),
                self.queue() == q0.skip(i as int),
                self.permanent() == old(self).permanent(),
                views_of(done@) + drain_completed(q0.skip(i as int), outs.skip(i as int))
                    =~= drain_completed(q0, outs),
                self.archive() + drain_archived(q0.skip(i as int), outs.skip(i as int)) =~= a0
                    + drain_archived(q0, outs),
            decreases self.tasks.len(),
        {
            let ghost pre = *self;
            let ghost done_pre = done@;
            let task = self.tasks.remove(0);
            proof {
                assert(pre.queue().len() > 0);
                assert(views_of(self.tasks@) =~= pre.queue().drop_first());
                assert(q0.skip(i as int).drop_first() =~= q0.skip(i + 1));
                assert(outs.skip(i as int).drop_first() =~= outs.skip(i + 1));
                assert(task@ == q0.skip(i as int).first());
                assert(outs.skip(i as int).first() == outs[i as int]);
            }
            let is_pending = task.status == TaskStatus::Pending;
            if is_pending {
                let success = outcomes[i];
                if success {
                    let completed = Task {
                        description: task.description,
                        action: task.action,
                        status: TaskStatus::Completed,
                        is_permanent: task.is_permanent,
                    };
                    if completed.is_permanent {
                        let snapshot = completed.clone();
                        self.completed_tasks.push(snapshot);
                        proof {
                            assert(views_of(self.completed_tasks@) =~= views_of(
                                pre.completed_tasks@,
                            ).push(completed@));
                        }
                    }
                    done.push(completed);
                    proof {
                        assert(views_of(done@) =~= views_of(done_pre).push(completed@));
                        assert(views_of(done_pre).push(completed@) + drain_completed(
                            q0.skip(i + 1),
                            outs.skip(i + 1),
                        ) =~= views_of(done_pre) + (seq![completed@] + drain_completed(
                            q0.skip(i + 1),
                            outs.skip(i + 1),
                        )));
                        assert(self.archive() =~= if completed@.is_permanent {
                            pre.archive().push(completed@)
                        } else {
                            pre.archive()
                        });
                        if completed@.is_permanent {
                            assert(pre.archive().push(completed@) + drain_archived(
                                q0.skip(i + 1),
                                outs.skip(i + 1),
                            ) =~= pre.archive() + (seq![completed@] + drain_archived(
                                q0.skip(i + 1),
                                outs.skip(i + 1),
                            )));
                        }
                    }
                }
            }
            i = i + 1;
        }
        proof {
            assert(q0.skip(i as int) =~= Seq::<TaskView>::empty());
            assert(views_of(done@) =~= drain_completed(q0, outs));
            assert(self.archive() =~= a0 + drain_archived(q0, outs));
        }
        Ok(done)
    }

    /// Writes the short-lived liveness marker; success means the store
    /// answered. (The marker itself carries no information and is never
    /// read back, so only the verdict is modelled.)
    pub fn check_redis_connection(&self) -> (r: Result<(), CoreError>)
        ensures
            r is Ok <==> self.store_ok(),
            r is Err ==> r->Err_0 == CoreError::StoreUnavailable,
    {
        if self.store_available {
            Ok(())
        } else {
            Err(CoreError::StoreUnavailable)
        }
    }

    /// Best-effort listing of the live queue: the tasks in store order, or
    /// an empty listing while the store is unavailable, never a failure.
    pub fn get_tasks(&self) -> (r: Vec<Task>)
        ensures
            self.store_ok() ==> views_of(r@) == self.queue(),
            !self.store_ok() ==> r@.len() == 0,
    {
        if self.store_available {
            let r = self.tasks.clone();
            proof {
                assert(views_of(r@) =~= self.queue());
            }
            r
        } else {
            Vec::new()
        }
    }

    /// Best-effort listing of the completed-task archive, with the same
    /// fallback as `get_tasks`.
    pub fn get_completed_tasks(&self) -> (r: Vec<Task>)
        ensures
            self.store_ok() ==> views_of(r@) == self.archive(),
            !self.store_ok() ==> r@.len() == 0,
    {
        if self.store_available {
            let r = self.completed_tasks.clone();
            proof {
                assert(views_of(r@) =~= self.archive());
            }
            r
        } else {
            Vec::new()
        }
    }

    /// Best-effort listing of the permanent-task replay list, read by the
    /// bootstrap layer to re-seed the queue at process start.
    pub fn get_persistent_tasks(&self) -> (r: Vec<Task>)
        ensures
            self.store_ok() ==> views_of(r@) == self.permanent(),
            !self.store_ok() ==> r@.len() == 0,
    {
        if self.store_available {
            let r = self.persistent_tasks.clone();
            proof {
                assert(views_of(r@) =~= self.permanent());
            }
            r
        } else {
            Vec::new()
        }
    }
}

} // verus!

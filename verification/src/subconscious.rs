//! The orchestrator: one task manager, one capability client, and the
//! bounded memory journal. A processing pass drains the queue and then
//! harvests whatever completed tasks the queue still lists into
//! short-term memory; a maintenance operation injects the fixed routine
//! task.
//!
//! The journal keeps a short-term ring of at most `SHORT_TERM_CAPACITY`
//! free-text entries; inserting into a full ring first migrates the
//! oldest entry to the unbounded long-term archive, so nothing is ever
//! lost or duplicated between the two.

use vstd::prelude::*;
use vstd::string::StringExecFns;
use std::collections::VecDeque;
use crate::llm_client::LLMClient;
use crate::task::{CoreError, Task, TaskStatus, TaskView};
use crate::task_manager::{drain_archived, TaskManager};

verus! {

/// How many entries the short-term memory ring holds at most.
pub const SHORT_TERM_CAPACITY: usize = 10;

/// One insertion into the journal: a full short-term ring first evicts
/// its oldest entry to long-term memory, then the new entry joins the
/// ring at its young end.
pub open spec fn journal_step(
    short_term: Seq<Seq<char>>,
    long_term: Seq<Seq<char>>,
    entry: Seq<char>,
) -> (Seq<Seq<char>>, Seq<Seq<char>>) {
    if short_term.len() >= SHORT_TERM_CAPACITY {
        (short_term.drop_first().push(entry), long_term.push(short_term.first()))
    } else {
        (short_term.push(entry), long_term)
    }
}

/// The journal after inserting `entries` in order.
pub open spec fn journal_fold(
    short_term: Seq<Seq<char>>,
    long_term: Seq<Seq<char>>,
    entries: Seq<Seq<char>>,
) -> (Seq<Seq<char>>, Seq<Seq<char>>)
    decreases entries.len(),
{
    if entries.len() == 0 {
        (short_term, long_term)
    } else {
        let next = journal_step(short_term, long_term, entries.first());
        journal_fold(next.0, next.1, entries.drop_first())
    }
}

/// Folding one more entry is one step after the fold.
proof fn lemma_journal_fold_snoc(
    short_term: Seq<Seq<char>>,
    long_term: Seq<Seq<char>>,
    entries: Seq<Seq<char>>,
    entry: Seq<char>,
)
    ensures
        journal_fold(short_term, long_term, entries.push(entry)) == journal_step(
            journal_fold(short_term, long_term, entries).0,
            journal_fold(short_term, long_term, entries).1,
            entry,
        ),
    decreases entries.len(),
{
    let e = entries.push(entry);
    if entries.len() == 0 {
        assert(e.first() == entry);
        assert(e.drop_first() =~= Seq::<Seq<char>>::empty());
        assert(entries =~= Seq::<Seq<char>>::empty());
        let next = journal_step(short_term, long_term, entry);
        assert(journal_fold(short_term, long_term, e) == journal_fold(
            next.0,
            next.1,
            Seq::<Seq<char>>::empty(),
        ));
    } else {
        assert(e.first() == entries.first());
        assert(e.drop_first() =~= entries.drop_first().push(entry));
        let next = journal_step(short_term, long_term, entries.first());
        lemma_journal_fold_snoc(next.0, next.1, entries.drop_first(), entry);
    }
}

/// Eviction law: filling an empty journal with any `n` distinct or equal
/// entries leaves the oldest `n - SHORT_TERM_CAPACITY` entries (none when
/// `n` fits) in long-term memory in insertion order, the remaining most
/// recent ones in the short-term ring in insertion order — so between the
/// two every entry is kept exactly once.
pub proof fn lemma_journal_eviction(entries: Seq<Seq<char>>)
    ensures
        ({
            let overflow = if entries.len() > SHORT_TERM_CAPACITY {
                entries.len() - SHORT_TERM_CAPACITY
            } else {
                0
            };
            let folded = journal_fold(
                Seq::<Seq<char>>::empty(),
                Seq::<Seq<char>>::empty(),
                entries,
            );
            &&& folded.0 == entries.skip(overflow as int)
            &&& folded.1 == entries.take(overflow as int)
            &&& folded.1 + folded.0 == entries
        }),
    decreases entries.len(),
{
    if entries.len() == 0 {
        assert(journal_fold(Seq::<Seq<char>>::empty(), Seq::<Seq<char>>::empty(), entries).0
            =~= entries.skip(0));
        assert(journal_fold(Seq::<Seq<char>>::empty(), Seq::<Seq<char>>::empty(), entries).1
            =~= entries.take(0));
        assert(entries.take(0) + entries.skip(0) =~= entries);
    } else {
        let es = entries.drop_last();
        let e = entries.last();
        lemma_journal_eviction(es);
        assert(es.push(e) =~= entries);
        lemma_journal_fold_snoc(Seq::<Seq<char>>::empty(), Seq::<Seq<char>>::empty(), es, e);
        let overflow = if entries.len() > SHORT_TERM_CAPACITY {
            entries.len() - SHORT_TERM_CAPACITY
        } else {
            0
        };
        let prev_overflow = if es.len() > SHORT_TERM_CAPACITY {
            es.len() - SHORT_TERM_CAPACITY
        } else {
            0
        };
        let prev = journal_fold(Seq::<Seq<char>>::empty(), Seq::<Seq<char>>::empty(), es);
        if es.len() >= SHORT_TERM_CAPACITY {
            assert(prev.0.first() == es[prev_overflow as int]);
            assert(prev.0.drop_first().push(e) =~= entries.skip(overflow as int));
            assert(prev.1.push(es[prev_overflow as int]) =~= entries.take(overflow as int));
        } else {
            assert(prev.0.push(e) =~= entries.skip(0));
            assert(prev.1 =~= entries.take(0));
        }
        assert(entries.take(overflow as int) + entries.skip(overflow as int) =~= entries);
    }
}

/// The text learned from a completed task.
pub open spec fn spec_learned_entry(description: Seq<char>) -> Seq<char> {
    "Learned from task: "@ + description
}

/// The fixed, non-permanent routine task the maintenance tick injects.
pub open spec fn routine_task() -> TaskView {
    TaskView {
        description: "Routine check"@,
        action: "Perform routine check"@,
        status: TaskStatus::Pending,
        is_permanent: false,
    }
}

/// The orchestrator's state.
pub struct Subconscious {
    pub task_manager: TaskManager,
    pub llm_client: LLMClient,
    short_term_memory: VecDeque<String>,
    long_term_memory: Vec<String>,
}

impl Subconscious {
    /// The task manager the orchestrator owns.
    pub closed spec fn manager(&self) -> TaskManager {
        self.task_manager
    }

    /// The capability client the orchestrator owns.
    pub closed spec fn client(&self) -> LLMClient {
        self.llm_client
    }

    /// The short-term ring, oldest entry first.
    pub closed spec fn short_term(&self) -> Seq<Seq<char>> {
        self.short_term_memory@.map_values(|s: String| s@)
    }

    /// The long-term archive, in eviction order.
    pub closed spec fn long_term(&self) -> Seq<Seq<char>> {
        self.long_term_memory@.map_values(|s: String| s@)
    }

    /// The short-term ring never exceeds its capacity.
    pub open spec fn wf(&self) -> bool {
        self.short_term().len() <= SHORT_TERM_CAPACITY
    }

    /// An orchestrator over the given manager and client, with an empty
    /// journal.
    pub fn new(task_manager: TaskManager, llm_client: LLMClient) -> (s: Subconscious)
        ensures
            s.wf(),
            s.manager() == task_manager,
            s.client() == llm_client,
            s.short_term() =~= Seq::<Seq<char>>::empty(),
            s.long_term() =~= Seq::<Seq<char>>::empty(),
    {
        let s = Subconscious {
            task_manager,
            llm_client,
            short_term_memory: VecDeque::with_capacity(SHORT_TERM_CAPACITY),
            long_term_memory: Vec::new(),
        };
        proof {
            assert(s.short_term() =~= Seq::<Seq<char>>::empty());
            assert(s.long_term() =~= Seq::<Seq<char>>::empty());
        }
        s
    }

    /// Appends an entry to the long-term archive.
    pub fn add_to_long_term_memory(&mut self, entry: String)
        ensures
            final(self).wf() == old(self).wf(),
            final(self).short_term() == old(self).short_term(),
            final(self).long_term() == old(self).long_term().push(entry@),
            final(self).manager() == old(self).manager(),
            final(self).client() == old(self).client(),
    {
        self.long_term_memory.push(entry);
        proof {
            assert(final(self).long_term() =~= old(self).long_term().push(
                self.long_term_memory@.last()@,
            ));
        }
    }

    /// Inserts an entry into the short-term ring, migrating the oldest
    /// entry to long-term memory when the ring is full.
    pub fn add_to_short_term_memory(&mut self, entry: String)
        requires
            old(self).wf(),
        ensures
            final(self).wf(),
            final(self).short_term() == journal_step(
                old(self).short_term(),
                old(self).long_term(),
                entry@,
            ).0,
            final(self).long_term() == journal_step(
                old(self).short_term(),
                old(self).long_term(),
                entry@,
            ).1,
            final(self).manager() == old(self).manager(),
            final(self).client() == old(self).client(),
    {
        if self.short_term_memory.len() == SHORT_TERM_CAPACITY {
            if let Some(removed) = self.short_term_memory.pop_front() {
                proof {
                    assert(self.short_term() =~= old(self).short_term().drop_first());
                }
                self.add_to_long_term_memory(removed);
            }
        }
        self.short_term_memory.push_back(entry);
        proof {
            assert(self.short_term() =~= self.short_term_memory@.drop_last().map_values(
                |s: String| s@,
            ).push(self.short_term_memory@.last()@));
        }
    }

    /// Records what was learned from one completed task.
    pub fn learn_from_task(&mut self, task: &Task)
        requires
            old(self).wf(),
        ensures
            final(self).wf(),
            final(self).short_term() == journal_step(
                old(self).short_term(),
                old(self).long_term(),
                spec_learned_entry(task@.description),
            ).0,
            final(self).long_term() == journal_step(
                old(self).short_term(),
                old(self).long_term(),
                spec_learned_entry(task@.description),
            ).1,
            final(self).manager() == old(self).manager(),
            final(self).client() == old(self).client(),
    {
        let mut entry = String::from_str("Learned from task: ");
        entry.append(task.description.as_str());
        self.add_to_short_term_memory(entry);
    }

    /// The short-term ring as a plain listing, oldest entry first.
    pub fn recall_short_term_memory(&self) -> (r: Vec<String>)
        ensures
            r@.map_values(|s: String| s@) == self.short_term(),
    {
        let mut r: Vec<String> = Vec::new();
        let mut i: usize = 0;
        while i < self.short_term_memory.len()
            invariant
                i <= self.short_term_memory@.len(),
                r@.map_values(|s: String| s@) =~= self.short_term().take(i as int),
            decreases self.short_term_memory@.len() - i,
        {
            let entry = self.short_term_memory[i].clone();
            r.push(entry);
            proof {
                assert(self.short_term()[i as int] == self.short_term_memory@[i as int]@);
                assert(self.short_term().take(i + 1) =~= self.short_term().take(i as int).push(
                    self.short_term()[i as int],
                ));
                assert(r@.map_values(|s: String| s@) =~= r@.drop_last().map_values(
                    |s: String| s@,
                ).push(r@.last()@));
                assert(r@.map_values(|s: String| s@) =~= self.short_term().take(i + 1));
            }
            i += 1;
        }
        proof {
            assert(self.short_term().take(i as int) =~= self.short_term());
        }
        r
    }

    /// The long-term archive as a plain listing, in eviction order.
    pub fn recall_long_term_memory(&self) -> (r: Vec<String>)
        ensures
            r@.map_values(|s: String| s@) == self.long_term(),
    {
        let r = self.long_term_memory.clone();
        proof {
            assert(r@ =~= self.long_term_memory@);
            assert(r@.map_values(|s: String| s@) =~= self.long_term());
        }
        r
    }

    /// Enqueues the fixed routine-check task; the failure of the
    /// underlying enqueue is reported to the caller, never swallowed.
    pub fn add_routine_task(&mut self) -> (r: Result<(), CoreError>)
        ensures
            final(self).wf() == old(self).wf(),
            final(self).short_term() == old(self).short_term(),
            final(self).long_term() == old(self).long_term(),
            final(self).client() == old(self).client(),
            final(self).manager().store_ok() == old(self).manager().store_ok(),
            final(self).manager().permanent() == old(self).manager().permanent(),
            final(self).manager().archive() == old(self).manager().archive(),
            match r {
                Ok(()) => old(self).manager().store_ok() && final(self).manager().queue()
                    == old(self).manager().queue().push(routine_task()),
                Err(e) => e == CoreError::StoreUnavailable && !old(self).manager().store_ok()
                    && final(self).manager().queue() == old(self).manager().queue(),
            },
    {
        let task = Task::new(
            String::from_str("Routine check"),
            String::from_str("Perform routine check"),
            false,
        );
        proof {
            assert(task@ == routine_task());
        }
        self.task_manager.add_task(task)
    }

    /// One processing pass: drains the queue as `execute_tasks` does,
    /// then walks the tasks the queue still lists and learns from every
    /// completed one. A drained queue lists nothing, so the harvest is
    /// best-effort enrichment only: after a successful pass the journal
    /// is unchanged, and the completions of the pass are reflected in the
    /// archive alone.
    pub fn process_tasks(&mut self, outcomes: &Vec<bool>) -> (r: Result<(), CoreError>)
        requires
            old(self).wf(),
            outcomes@.len() >= old(self).manager().queue().len(),
        ensures
            final(self).wf(),
            final(self).client() == old(self).client(),
            final(self).manager().store_ok() == old(self).manager().store_ok(),
            final(self).manager().permanent() == old(self).manager().permanent(),
            final(self).short_term() == old(self).short_term(),
            final(self).long_term() == old(self).long_term(),
            match r {
                Ok(()) => {
                    &&& old(self).manager().store_ok()
                    &&& final(self).manager().queue().len() == 0
                    &&& final(self).manager().archive() == old(self).manager().archive()
                        + drain_archived(old(self).manager().queue(), outcomes@)
                },
                Err(e) => {
                    &&& e == CoreError::StoreUnavailable
                    &&& !old(self).manager().store_ok()
                    &&& final(self).manager().queue() == old(self).manager().queue()
                    &&& final(self).manager().archive() == old(self).manager().archive()
                },
            },
    {
        match self.task_manager.execute_tasks(outcomes) {
            Err(e) => Err(e),
            Ok(_completed) => {
                let ghost mid = *self;
                let tasks = self.task_manager.get_tasks();
                let mut i: usize = 0;
                while i < tasks.len()
                    invariant
                        *self == mid,
                        tasks@.len() == 0,
                        i == 0,
                    decreases tasks@.len() - i,
                {
                    if tasks[i].status == TaskStatus::Completed {
                        self.learn_from_task(&tasks[i]);
                    }
                    i += 1;
                }
                Ok(())
            },
        }
    }
}

} // verus!

//! Schedulers that run alerted propagators to fixpoint.
//!
//! A scheduler keeps a queue of alerted propagators (each at most once) and
//! runs them until none is left.

use std::collections::VecDeque;
use vstd::prelude::*;

use crate::generic_cell_chirho::usize_deque_contains_chirho;
use crate::propagator_chirho::{PriorityRunnerChirho, PropagatorChirho, PropagatorRunnerChirho};
use crate::text_chirho::{decimal_chirho, push_decimal_chirho, push_str_chirho};

verus! {

/// Statistics about scheduler execution.
pub struct SchedulerStatsChirho {
    /// Total number of propagator runs.
    pub runs_chirho: usize,
    /// Number of times `run_chirho` was called.
    pub iterations_chirho: usize,
    /// Maximum queue size observed.
    pub max_queue_size_chirho: usize,
}

impl Clone for SchedulerStatsChirho {
    fn clone(&self) -> (r: Self)
        ensures
            r == *self,
    {
        SchedulerStatsChirho {
            runs_chirho: self.runs_chirho,
            iterations_chirho: self.iterations_chirho,
            max_queue_size_chirho: self.max_queue_size_chirho,
        }
    }
}

impl Default for SchedulerStatsChirho {
    fn default() -> (r: Self)
        ensures
            r == (SchedulerStatsChirho { runs_chirho: 0, iterations_chirho: 0, max_queue_size_chirho: 0 }),
    {
        SchedulerStatsChirho { runs_chirho: 0, iterations_chirho: 0, max_queue_size_chirho: 0 }
    }
}

/// A scheduler that runs propagators to fixpoint.
///
/// The scheduler maintains a queue of "alerted" propagators: those whose
/// input cells have changed and may have new information to contribute.
pub struct SchedulerChirho {
    /// Identifiers of the propagators waiting to run, in order; each at most once.
    queue_chirho: VecDeque<usize>,
    /// Execution statistics.
    stats_chirho: SchedulerStatsChirho,
    /// The identifiers taken off the queue to be run, in the order taken.
    run_log_chirho: Ghost<Seq<usize>>,
}

/// `name: n`, as a field of a printed struct.
pub open spec fn field_text_chirho(name: Seq<char>, n: nat) -> Seq<char> {
    name + ": "@ + decimal_chirho(n)
}

/// How scheduler statistics print, field by field.
pub open spec fn stats_text_chirho(s: SchedulerStatsChirho) -> Seq<char> {
    "SchedulerStatsChirho { "@ + field_text_chirho("runs_chirho"@, s.runs_chirho as nat) + ", "@
        + field_text_chirho("iterations_chirho"@, s.iterations_chirho as nat) + ", "@
        + field_text_chirho("max_queue_size_chirho"@, s.max_queue_size_chirho as nat) + " }"@
}

/// How a scheduler prints: its queue size and its statistics.
pub open spec fn scheduler_text_chirho(queue_size: nat, s: SchedulerStatsChirho) -> Seq<char> {
    "Scheduler { "@ + field_text_chirho("queue_size"@, queue_size) + ", stats: "@ + stats_text_chirho(s) + " }"@
}

/// Appends `name: n`.
fn push_field_chirho(s: &mut String, name: &str, n: u64)
    ensures
        final(s)@ == old(s)@ + field_text_chirho(name@, n as nat),
{
    push_str_chirho(s, name);
    push_str_chirho(s, ": ");
    push_decimal_chirho(s, n);
    assert(s@ =~= old(s)@ + field_text_chirho(name@, n as nat));
}

/// Appends the text of scheduler statistics.
fn push_stats_chirho(s: &mut String, st: &SchedulerStatsChirho)
    ensures
        final(s)@ == old(s)@ + stats_text_chirho(*st),
{
    push_str_chirho(s, "SchedulerStatsChirho { ");
    push_field_chirho(s, "runs_chirho", st.runs_chirho as u64);
    push_str_chirho(s, ", ");
    push_field_chirho(s, "iterations_chirho", st.iterations_chirho as u64);
    push_str_chirho(s, ", ");
    push_field_chirho(s, "max_queue_size_chirho", st.max_queue_size_chirho as u64);
    push_str_chirho(s, " }");
    assert(s@ =~= old(s)@ + stats_text_chirho(*st));
}

impl SchedulerChirho {
    /// The identifiers of the queued propagators, in order.
    pub closed spec fn queue_spec_chirho(&self) -> Seq<usize> {
        self.queue_chirho@
    }

    /// The execution statistics.
    pub closed spec fn stats_spec_chirho(&self) -> SchedulerStatsChirho {
        self.stats_chirho
    }

    /// The identifiers of the propagators taken off the queue to be run, in
    /// the order they were taken, since the scheduler was made.
    pub closed spec fn run_log_spec_chirho(&self) -> Seq<usize> {
        self.run_log_chirho@
    }

    /// What a call that ran propagators did, from `(q0, log0, runs0)` to
    /// `(q1, log1, runs1)`: the identifiers it took off the queue were logged
    /// and counted one run each, and they were taken first in, first out:
    /// the queue it started with, followed by the propagators alerted while
    /// it ran, is what it took followed by what is left.
    pub open spec fn fifo_runs_chirho(
        q0: Seq<usize>,
        log0: Seq<usize>,
        runs0: int,
        q1: Seq<usize>,
        log1: Seq<usize>,
        runs1: int,
    ) -> bool {
        &&& log0.len() <= log1.len()
        &&& log1.take(log0.len() as int) == log0
        &&& runs1 == runs0 + (log1.len() - log0.len())
        &&& exists|alerted: Seq<usize>| q0 + alerted == #[trigger] log1.skip(log0.len() as int) + q1
    }

    /// Creates a new scheduler with an empty queue.
    pub fn new_chirho() -> (r: Self)
        ensures
            r.queue_spec_chirho().len() == 0,
            r.stats_spec_chirho() == (SchedulerStatsChirho { runs_chirho: 0, iterations_chirho: 0, max_queue_size_chirho: 0 }),
            r.run_log_spec_chirho().len() == 0,
    {
        SchedulerChirho {
            queue_chirho: VecDeque::new(),
            stats_chirho: SchedulerStatsChirho::default(),
            run_log_chirho: Ghost(Seq::empty()),
        }
    }

    /// The state after `id` is alerted: queued unless already queued, with
    /// the largest queue size seen updated.
    pub open spec fn alerted_spec_chirho(
        q: Seq<usize>,
        stats: SchedulerStatsChirho,
        id: usize,
    ) -> (Seq<usize>, SchedulerStatsChirho) {
        if q.contains(id) {
            (q, stats)
        } else {
            let q2 = q.push(id);
            (q2, SchedulerStatsChirho {
                max_queue_size_chirho: if q2.len() > stats.max_queue_size_chirho {
                    q2.len() as usize
                } else {
                    stats.max_queue_size_chirho
                },
                ..stats
            })
        }
    }

    /// Queues the propagator with identifier `id` unless it already is.
    pub fn alert_id_chirho(&mut self, id_chirho: usize)
        ensures
            (final(self).queue_spec_chirho(), final(self).stats_spec_chirho())
                == Self::alerted_spec_chirho(old(self).queue_spec_chirho(), old(self).stats_spec_chirho(), id_chirho),
            final(self).run_log_spec_chirho() == old(self).run_log_spec_chirho(),
    {
        let already_alerted_chirho = usize_deque_contains_chirho(&self.queue_chirho, id_chirho);
        if !already_alerted_chirho {
            self.queue_chirho.push_back(id_chirho);
            let queue_size_chirho = self.queue_chirho.len();
            if queue_size_chirho > self.stats_chirho.max_queue_size_chirho {
                self.stats_chirho.max_queue_size_chirho = queue_size_chirho;
            }
        }
    }

    /// Alerts a propagator that one of its inputs has changed: it is queued,
    /// by its identifier, unless it already is.
    pub fn alert_propagator_chirho(&mut self, propagator_chirho: &dyn PropagatorChirho)
        ensures
            (final(self).queue_spec_chirho(), final(self).stats_spec_chirho())
                == Self::alerted_spec_chirho(old(self).queue_spec_chirho(), old(self).stats_spec_chirho(), propagator_chirho.spec_id_chirho()),
            final(self).run_log_spec_chirho() == old(self).run_log_spec_chirho(),
    {
        let id_chirho = propagator_chirho.id_chirho();
        self.alert_id_chirho(id_chirho);
    }

    /// Takes the first queued identifier off the queue.
    fn pop_chirho(&mut self) -> (r: Option<usize>)
        ensures
            match r {
                Some(id) => old(self).queue_spec_chirho().len() > 0
                    && id == old(self).queue_spec_chirho()[0]
                    && final(self).queue_spec_chirho() == old(self).queue_spec_chirho().subrange(1, old(self).queue_spec_chirho().len() as int),
                None => old(self).queue_spec_chirho().len() == 0 && final(self).queue_spec_chirho() == old(self).queue_spec_chirho(),
            },
            final(self).stats_spec_chirho() == old(self).stats_spec_chirho(),
            final(self).run_log_spec_chirho() == old(self).run_log_spec_chirho(),
    {
        self.queue_chirho.pop_front()
    }

    /// Picks the next propagator to run: takes the first queued identifier
    /// off the queue, logs it and counts the run.
    ///
    /// Returns `None` when the queue is empty, or when the run count would
    /// overflow (the scheduler is then left as it is).
    pub fn next_propagator_chirho(&mut self) -> (r: Option<usize>)
        ensures
            old(self).queue_spec_chirho().len() == 0 ==> r is None && final(self).queue_spec_chirho() == old(self).queue_spec_chirho()
                && final(self).stats_spec_chirho() == old(self).stats_spec_chirho()
                && final(self).run_log_spec_chirho() == old(self).run_log_spec_chirho(),
            old(self).queue_spec_chirho().len() > 0 && old(self).stats_spec_chirho().runs_chirho == usize::MAX ==> r is None
                && final(self).queue_spec_chirho() == old(self).queue_spec_chirho()
                && final(self).stats_spec_chirho() == old(self).stats_spec_chirho()
                && final(self).run_log_spec_chirho() == old(self).run_log_spec_chirho(),
            old(self).queue_spec_chirho().len() > 0 && old(self).stats_spec_chirho().runs_chirho < usize::MAX ==> r == Some(old(self).queue_spec_chirho()[0])
                && final(self).queue_spec_chirho() == old(self).queue_spec_chirho().subrange(1, old(self).queue_spec_chirho().len() as int)
                && final(self).stats_spec_chirho() == (SchedulerStatsChirho {
                    runs_chirho: (old(self).stats_spec_chirho().runs_chirho + 1) as usize,
                    ..old(self).stats_spec_chirho()
                })
                && final(self).run_log_spec_chirho() == old(self).run_log_spec_chirho().push(old(self).queue_spec_chirho()[0]),
    {
        if self.queue_chirho.len() == 0 || self.stats_chirho.runs_chirho == usize::MAX {
            return None;
        }
        let r = self.pop_chirho();
        self.stats_chirho.runs_chirho = self.stats_chirho.runs_chirho + 1;
        proof {
            self.run_log_chirho@ = self.run_log_chirho@.push(old(self).queue_spec_chirho()[0]);
        }
        r
    }

    /// Runs queued propagators, through `runner`, until the queue is empty:
    /// the propagators they alert are run in turn, first in, first out.
    ///
    /// It stops with propagators still queued only when the run count has
    /// reached its maximum, after as many logged runs.
    pub fn run_chirho<R: PropagatorRunnerChirho>(&mut self, runner_chirho: &mut R)
        requires
            old(self).stats_spec_chirho().iterations_chirho < usize::MAX,
        ensures
            final(self).queue_spec_chirho().len() == 0 || final(self).stats_spec_chirho().runs_chirho == usize::MAX,
            Self::fifo_runs_chirho(
                old(self).queue_spec_chirho(),
                old(self).run_log_spec_chirho(),
                old(self).stats_spec_chirho().runs_chirho as int,
                final(self).queue_spec_chirho(),
                final(self).run_log_spec_chirho(),
                final(self).stats_spec_chirho().runs_chirho as int,
            ),
            final(self).stats_spec_chirho().iterations_chirho == old(self).stats_spec_chirho().iterations_chirho + 1,
            final(self).stats_spec_chirho().max_queue_size_chirho >= old(self).stats_spec_chirho().max_queue_size_chirho,
            old(self).queue_spec_chirho().len() == 0 ==> final(self).queue_spec_chirho().len() == 0
                && final(self).run_log_spec_chirho() == old(self).run_log_spec_chirho()
                && final(self).stats_spec_chirho() == (SchedulerStatsChirho {
                    iterations_chirho: (old(self).stats_spec_chirho().iterations_chirho + 1) as usize,
                    ..old(self).stats_spec_chirho()
                }),
    {
        self.stats_chirho.iterations_chirho = self.stats_chirho.iterations_chirho + 1;
        if self.queue_chirho.len() == 0 {
            proof {
                let l = self.run_log_spec_chirho();
                assert(l.take(l.len() as int) =~= l);
                assert(old(self).queue_spec_chirho() + Seq::<usize>::empty() =~= l.skip(l.len() as int) + self.queue_spec_chirho());
            }
            return;
        }
        let ghost q0 = old(self).queue_spec_chirho();
        let ghost log0 = old(self).run_log_spec_chirho();
        let ghost runs0 = old(self).stats_spec_chirho().runs_chirho as int;
        let ghost mut alerted: Seq<usize> = Seq::empty();
        proof {
            assert(self.run_log_spec_chirho().skip(log0.len() as int) =~= Seq::<usize>::empty());
            assert(q0 + alerted =~= self.run_log_spec_chirho().skip(log0.len() as int) + self.queue_spec_chirho());
            assert(self.run_log_spec_chirho().take(log0.len() as int) =~= log0);
        }
        loop
            invariant_except_break
                self.stats_spec_chirho().iterations_chirho == old(self).stats_spec_chirho().iterations_chirho + 1,
                self.stats_spec_chirho().max_queue_size_chirho >= old(self).stats_spec_chirho().max_queue_size_chirho,
                log0 == old(self).run_log_spec_chirho(),
                q0 == old(self).queue_spec_chirho(),
                runs0 == old(self).stats_spec_chirho().runs_chirho,
                log0.len() <= self.run_log_spec_chirho().len(),
                self.run_log_spec_chirho().take(log0.len() as int) == log0,
                self.stats_spec_chirho().runs_chirho == runs0 + (self.run_log_spec_chirho().len() - log0.len()),
                q0 + alerted == self.run_log_spec_chirho().skip(log0.len() as int) + self.queue_spec_chirho(),
            ensures
                self.queue_spec_chirho().len() == 0 || self.stats_spec_chirho().runs_chirho == usize::MAX,
                self.stats_spec_chirho().iterations_chirho == old(self).stats_spec_chirho().iterations_chirho + 1,
                self.stats_spec_chirho().max_queue_size_chirho >= old(self).stats_spec_chirho().max_queue_size_chirho,
                log0.len() <= self.run_log_spec_chirho().len(),
                self.run_log_spec_chirho().take(log0.len() as int) == log0,
                self.stats_spec_chirho().runs_chirho == runs0 + (self.run_log_spec_chirho().len() - log0.len()),
                q0 + alerted == self.run_log_spec_chirho().skip(log0.len() as int) + self.queue_spec_chirho(),
            decreases usize::MAX - self.stats_spec_chirho().runs_chirho,
        {
            let ghost qb = self.queue_spec_chirho();
            let ghost lb = self.run_log_spec_chirho();
            match self.next_propagator_chirho() {
                Some(id_chirho) => {
                    let ghost q1 = self.queue_spec_chirho();
                    runner_chirho.run_propagator_chirho(id_chirho, self);
                    let ghost q2 = self.queue_spec_chirho();
                    proof {
                        let extra = q2.skip(q1.len() as int);
                        assert(q2 =~= q1 + extra);
                        assert(qb =~= seq![id_chirho] + q1);
                        let l2 = self.run_log_spec_chirho();
                        assert(l2 == lb.push(id_chirho));
                        assert(l2.take(log0.len() as int) =~= lb.take(log0.len() as int));
                        assert(l2.skip(log0.len() as int) =~= lb.skip(log0.len() as int).push(id_chirho));
                        let al0 = alerted;
                        assert(q0 + al0 == lb.skip(log0.len() as int) + qb);
                        assert((q0 + al0) + extra =~= q0 + (al0 + extra));
                        assert((lb.skip(log0.len() as int) + qb) + extra =~= l2.skip(log0.len() as int) + q2);
                        alerted = al0 + extra;
                    }
                },
                None => {
                    break;
                },
            }
        }
        proof {
            let lf = self.run_log_spec_chirho();
            assert(q0 + alerted == lf.skip(log0.len() as int) + self.queue_spec_chirho());
        }
    }

    /// Runs at most `max_steps` queued propagators, through `runner`, first
    /// in, first out.
    ///
    /// Returns `true` exactly when the queue is then empty (fixpoint), and
    /// `false` when the limit was hit first or the run count reached its
    /// maximum.
    pub fn run_bounded_chirho<R: PropagatorRunnerChirho>(&mut self, max_steps_chirho: usize, runner_chirho: &mut R) -> (r: bool)
        requires
            old(self).stats_spec_chirho().iterations_chirho < usize::MAX,
        ensures
            r == (final(self).queue_spec_chirho().len() == 0),
            Self::fifo_runs_chirho(
                old(self).queue_spec_chirho(),
                old(self).run_log_spec_chirho(),
                old(self).stats_spec_chirho().runs_chirho as int,
                final(self).queue_spec_chirho(),
                final(self).run_log_spec_chirho(),
                final(self).stats_spec_chirho().runs_chirho as int,
            ),
            final(self).stats_spec_chirho().iterations_chirho == old(self).stats_spec_chirho().iterations_chirho + 1,
            final(self).run_log_spec_chirho().len() <= old(self).run_log_spec_chirho().len() + max_steps_chirho,
            !r ==> final(self).run_log_spec_chirho().len() == old(self).run_log_spec_chirho().len() + max_steps_chirho
                || final(self).stats_spec_chirho().runs_chirho == usize::MAX,
            old(self).queue_spec_chirho().len() == 0 ==> r
                && final(self).run_log_spec_chirho() == old(self).run_log_spec_chirho()
                && final(self).stats_spec_chirho() == (SchedulerStatsChirho {
                    iterations_chirho: (old(self).stats_spec_chirho().iterations_chirho + 1) as usize,
                    ..old(self).stats_spec_chirho()
                }),
    {
        self.stats_chirho.iterations_chirho = self.stats_chirho.iterations_chirho + 1;
        let ghost q0 = old(self).queue_spec_chirho();
        let ghost log0 = old(self).run_log_spec_chirho();
        let ghost runs0 = old(self).stats_spec_chirho().runs_chirho as int;
        let ghost mut alerted: Seq<usize> = Seq::empty();
        proof {
            assert(self.run_log_spec_chirho().skip(log0.len() as int) =~= Seq::<usize>::empty());
            assert(q0 + alerted =~= self.run_log_spec_chirho().skip(log0.len() as int) + self.queue_spec_chirho());
            assert(self.run_log_spec_chirho().take(log0.len() as int) =~= log0);
        }
        let mut step_chirho: usize = 0;
        while step_chirho < max_steps_chirho
            invariant
                step_chirho <= max_steps_chirho,
                log0 == old(self).run_log_spec_chirho(),
                q0 == old(self).queue_spec_chirho(),
                runs0 == old(self).stats_spec_chirho().runs_chirho,
                self.run_log_spec_chirho().len() == log0.len() + step_chirho,
                self.run_log_spec_chirho().take(log0.len() as int) == log0,
                self.stats_spec_chirho().runs_chirho == runs0 + step_chirho,
                q0 + alerted == self.run_log_spec_chirho().skip(log0.len() as int) + self.queue_spec_chirho(),
                self.stats_spec_chirho().iterations_chirho == old(self).stats_spec_chirho().iterations_chirho + 1,
                old(self).queue_spec_chirho().len() == 0 ==> step_chirho == 0,
                step_chirho == 0 ==> self.queue_spec_chirho() == old(self).queue_spec_chirho()
                    && self.run_log_spec_chirho() == old(self).run_log_spec_chirho()
                    && self.stats_spec_chirho() == (SchedulerStatsChirho {
                        iterations_chirho: (old(self).stats_spec_chirho().iterations_chirho + 1) as usize,
                        ..old(self).stats_spec_chirho()
                    }),
            decreases max_steps_chirho - step_chirho,
        {
            if self.queue_chirho.len() == 0 {
                return true;
            }
            let ghost qb = self.queue_spec_chirho();
            let ghost lb = self.run_log_spec_chirho();
            match self.next_propagator_chirho() {
                Some(id_chirho) => {
                    let ghost q1 = self.queue_spec_chirho();
                    runner_chirho.run_propagator_chirho(id_chirho, self);
                    let ghost q2 = self.queue_spec_chirho();
                    proof {
                        let extra = q2.skip(q1.len() as int);
                        assert(q2 =~= q1 + extra);
                        assert(qb =~= seq![id_chirho] + q1);
                        let l2 = self.run_log_spec_chirho();
                        assert(l2.take(log0.len() as int) =~= lb.take(log0.len() as int));
                        assert(l2.skip(log0.len() as int) =~= lb.skip(log0.len() as int).push(id_chirho));
                        let al0 = alerted;
                        assert(q0 + al0 == lb.skip(log0.len() as int) + qb);
                        assert((q0 + al0) + extra =~= q0 + (al0 + extra));
                        assert((lb.skip(log0.len() as int) + qb) + extra =~= l2.skip(log0.len() as int) + q2);
                        alerted = al0 + extra;
                    }
                },
                None => {
                    return false;
                },
            }
            step_chirho = step_chirho + 1;
        }
        self.queue_chirho.len() == 0
    }

    /// Returns the current queue size.
    pub fn queue_size_chirho(&self) -> (r: usize)
        ensures
            r == self.queue_spec_chirho().len(),
    {
        self.queue_chirho.len()
    }

    /// The text of the scheduler: its queue size and statistics.
    pub fn to_text_chirho(&self) -> (r: String)
        ensures
            r@ == scheduler_text_chirho(self.queue_spec_chirho().len(), self.stats_spec_chirho()),
    {
        let mut r = String::new();
        push_str_chirho(&mut r, "Scheduler { ");
        push_field_chirho(&mut r, "queue_size", self.queue_chirho.len() as u64);
        push_str_chirho(&mut r, ", stats: ");
        push_stats_chirho(&mut r, &self.stats_chirho);
        push_str_chirho(&mut r, " }");
        assert(r@ =~= scheduler_text_chirho(self.queue_spec_chirho().len(), self.stats_spec_chirho()));
        r
    }

    /// Returns `true` if the queue is empty (fixpoint reached).
    pub fn is_quiescent_chirho(&self) -> (r: bool)
        ensures
            r == (self.queue_spec_chirho().len() == 0),
    {
        self.queue_chirho.len() == 0
    }

    /// Returns execution statistics.
    pub fn stats_chirho(&self) -> (r: SchedulerStatsChirho)
        ensures
            r == self.stats_spec_chirho(),
    {
        self.stats_chirho.clone()
    }

    /// Resets execution statistics.
    pub fn reset_stats_chirho(&mut self)
        ensures
            final(self).stats_spec_chirho() == (SchedulerStatsChirho { runs_chirho: 0, iterations_chirho: 0, max_queue_size_chirho: 0 }),
            final(self).queue_spec_chirho() == old(self).queue_spec_chirho(),
            final(self).run_log_spec_chirho() == old(self).run_log_spec_chirho(),
    {
        self.stats_chirho = SchedulerStatsChirho::default();
    }

    /// Clears the queue without running propagators.
    pub fn clear_chirho(&mut self)
        ensures
            final(self).queue_spec_chirho().len() == 0,
            final(self).stats_spec_chirho() == old(self).stats_spec_chirho(),
            final(self).run_log_spec_chirho() == old(self).run_log_spec_chirho(),
    {
        self.queue_chirho.clear();
    }
}

impl Default for SchedulerChirho {
    fn default() -> (r: Self)
        ensures
            r.queue_spec_chirho().len() == 0,
            r.stats_spec_chirho() == (SchedulerStatsChirho { runs_chirho: 0, iterations_chirho: 0, max_queue_size_chirho: 0 }),
            r.run_log_spec_chirho().len() == 0,
    {
        Self::new_chirho()
    }
}

// ============================================================================
// Incremental scheduler
// ============================================================================

/// A cell delta representing a change in cell content.
pub struct CellDeltaChirho {
    /// The name of the cell that changed.
    pub cell_name_chirho: String,
    /// The generation (run number) when the change occurred.
    pub generation_chirho: u64,
    /// Whether the change caused propagation.
    pub caused_propagation_chirho: bool,
}

impl Clone for CellDeltaChirho {
    fn clone(&self) -> (r: Self)
        ensures
            r == *self,
    {
        CellDeltaChirho {
            cell_name_chirho: self.cell_name_chirho.clone(),
            generation_chirho: self.generation_chirho,
            caused_propagation_chirho: self.caused_propagation_chirho,
        }
    }
}

/// A delta as plain values: cell name, generation, whether it propagated.
pub open spec fn delta_view_chirho(d: CellDeltaChirho) -> (Seq<char>, u64, bool) {
    (d.cell_name_chirho@, d.generation_chirho, d.caused_propagation_chirho)
}

/// The plain values of a sequence of deltas.
pub open spec fn deltas_view_chirho(s: Seq<CellDeltaChirho>) -> Seq<(Seq<char>, u64, bool)> {
    s.map_values(|d: CellDeltaChirho| delta_view_chirho(d))
}

/// Statistics about incremental execution.
pub struct IncrementalStatsChirho {
    /// Base scheduler stats.
    pub base_stats_chirho: SchedulerStatsChirho,
    /// Number of incremental runs.
    pub incremental_runs_chirho: usize,
    /// Number of cell changes tracked.
    pub changes_tracked_chirho: usize,
    /// Number of propagators skipped due to no changes.
    pub propagators_skipped_chirho: usize,
}

impl Clone for IncrementalStatsChirho {
    fn clone(&self) -> (r: Self)
        ensures
            r == *self,
    {
        IncrementalStatsChirho {
            base_stats_chirho: self.base_stats_chirho.clone(),
            incremental_runs_chirho: self.incremental_runs_chirho,
            changes_tracked_chirho: self.changes_tracked_chirho,
            propagators_skipped_chirho: self.propagators_skipped_chirho,
        }
    }
}

/// All-zero incremental statistics.
pub open spec fn zero_incremental_stats_chirho() -> IncrementalStatsChirho {
    IncrementalStatsChirho {
        base_stats_chirho: SchedulerStatsChirho { runs_chirho: 0, iterations_chirho: 0, max_queue_size_chirho: 0 },
        incremental_runs_chirho: 0,
        changes_tracked_chirho: 0,
        propagators_skipped_chirho: 0,
    }
}

impl Default for IncrementalStatsChirho {
    fn default() -> (r: Self)
        ensures
            r == zero_incremental_stats_chirho(),
    {
        IncrementalStatsChirho {
            base_stats_chirho: SchedulerStatsChirho::default(),
            incremental_runs_chirho: 0,
            changes_tracked_chirho: 0,
            propagators_skipped_chirho: 0,
        }
    }
}

/// The history kept: the last `max` entries of `s`.
pub open spec fn pruned_chirho<A>(s: Seq<A>, max: usize) -> Seq<A> {
    if s.len() > max { s.subrange(s.len() - max, s.len() as int) } else { s }
}

/// The history after committing the pending changes at generation `gen`.
pub open spec fn committed_history_chirho(
    history: Seq<(Seq<char>, u64, bool)>,
    pending: Seq<Seq<char>>,
    gen: u64,
    max: usize,
) -> Seq<(Seq<char>, u64, bool)> {
    pruned_chirho(history + pending.map_values(|n: Seq<char>| (n, gen, true)), max)
}

/// How an incremental scheduler prints: its generation, queue size, number
/// of pending changes and history size.
pub open spec fn incremental_text_chirho(generation: nat, queue_size: nat, pending: nat, history: nat) -> Seq<char> {
    "IncrementalScheduler { "@ + field_text_chirho("generation"@, generation) + ", "@
        + field_text_chirho("queue_size"@, queue_size) + ", "@
        + field_text_chirho("pending_changes"@, pending) + ", "@
        + field_text_chirho("history_size"@, history) + " }"@
}

/// An incremental scheduler that tracks cell changes across runs.
///
/// Each run commits the cells recorded as changed since the last run to a
/// history, tagged with the current generation, and moves to the next
/// generation. The history keeps the most recent entries only.
pub struct IncrementalSchedulerChirho {
    /// The base scheduler for running propagators.
    base_scheduler_chirho: SchedulerChirho,
    /// Current generation (incremented on each run).
    generation_chirho: u64,
    /// History of cell changes, oldest first.
    change_history_chirho: Vec<CellDeltaChirho>,
    /// Names of the cells changed in the current run, each once, in the
    /// order first recorded.
    current_changes_chirho: Vec<String>,
    /// Maximum history size before pruning.
    max_history_size_chirho: usize,
    /// Incremental execution statistics.
    incremental_stats_chirho: IncrementalStatsChirho,
}

/// Copies of the deltas from index `start` on.
fn deltas_from_chirho(v: &Vec<CellDeltaChirho>, start: usize) -> (r: Vec<CellDeltaChirho>)
    requires
        start <= v@.len(),
    ensures
        r@ == v@.subrange(start as int, v@.len() as int),
{
    let mut r: Vec<CellDeltaChirho> = Vec::new();
    let mut i: usize = start;
    while i < v.len()
        invariant
            start <= i <= v@.len(),
            r@ == v@.subrange(start as int, i as int),
        decreases v@.len() - i,
    {
        r.push(v[i].clone());
        i = i + 1;
        assert(r@ =~= v@.subrange(start as int, i as int));
    }
    r
}

impl IncrementalSchedulerChirho {
    /// The base scheduler.
    pub closed spec fn base_spec_chirho(&self) -> SchedulerChirho {
        self.base_scheduler_chirho
    }

    /// The current generation.
    pub closed spec fn generation_spec_chirho(&self) -> u64 {
        self.generation_chirho
    }

    /// The history of changes, oldest first.
    pub closed spec fn history_spec_chirho(&self) -> Seq<(Seq<char>, u64, bool)> {
        deltas_view_chirho(self.change_history_chirho@)
    }

    /// The names of the cells changed since the last run.
    pub closed spec fn pending_spec_chirho(&self) -> Seq<Seq<char>> {
        self.current_changes_chirho@.map_values(|n: String| n@)
    }

    /// The largest history kept.
    pub closed spec fn max_history_spec_chirho(&self) -> usize {
        self.max_history_size_chirho
    }

    /// The incremental statistics, without the base scheduler's.
    pub closed spec fn incremental_stats_spec_chirho(&self) -> IncrementalStatsChirho {
        self.incremental_stats_chirho
    }

    /// Creates a new incremental scheduler that keeps 1000 history entries.
    pub fn new_chirho() -> (r: Self)
        ensures
            r.generation_spec_chirho() == 0,
            r.history_spec_chirho().len() == 0,
            r.pending_spec_chirho().len() == 0,
            r.max_history_spec_chirho() == 1000,
            r.incremental_stats_spec_chirho() == zero_incremental_stats_chirho(),
            r.base_spec_chirho().queue_spec_chirho().len() == 0,
            r.base_spec_chirho().stats_spec_chirho() == (SchedulerStatsChirho { runs_chirho: 0, iterations_chirho: 0, max_queue_size_chirho: 0 }),
    {
        Self::with_history_size_chirho(1000)
    }

    /// Creates a new incremental scheduler that keeps `max_history_size` history entries.
    pub fn with_history_size_chirho(max_history_size_chirho: usize) -> (r: Self)
        ensures
            r.generation_spec_chirho() == 0,
            r.history_spec_chirho().len() == 0,
            r.pending_spec_chirho().len() == 0,
            r.max_history_spec_chirho() == max_history_size_chirho,
            r.incremental_stats_spec_chirho() == zero_incremental_stats_chirho(),
            r.base_spec_chirho().queue_spec_chirho().len() == 0,
            r.base_spec_chirho().stats_spec_chirho() == (SchedulerStatsChirho { runs_chirho: 0, iterations_chirho: 0, max_queue_size_chirho: 0 }),
    {
        let r = IncrementalSchedulerChirho {
            base_scheduler_chirho: SchedulerChirho::new_chirho(),
            generation_chirho: 0,
            change_history_chirho: Vec::new(),
            current_changes_chirho: Vec::new(),
            max_history_size_chirho,
            incremental_stats_chirho: IncrementalStatsChirho::default(),
        };
        assert(r.history_spec_chirho() =~= Seq::empty());
        assert(r.pending_spec_chirho() =~= Seq::empty());
        r
    }

    /// Records that a cell has changed; a cell already recorded since the
    /// last run is kept once. Every call counts as a tracked change.
    pub fn record_change_chirho(&mut self, cell_name_chirho: &str)
        requires
            old(self).incremental_stats_spec_chirho().changes_tracked_chirho < usize::MAX,
        ensures
            final(self).pending_spec_chirho() == if old(self).pending_spec_chirho().contains(cell_name_chirho@) {
                old(self).pending_spec_chirho()
            } else {
                old(self).pending_spec_chirho().push(cell_name_chirho@)
            },
            final(self).incremental_stats_spec_chirho() == (IncrementalStatsChirho {
                changes_tracked_chirho: (old(self).incremental_stats_spec_chirho().changes_tracked_chirho + 1) as usize,
                ..old(self).incremental_stats_spec_chirho()
            }),
            final(self).generation_spec_chirho() == old(self).generation_spec_chirho(),
            final(self).history_spec_chirho() == old(self).history_spec_chirho(),
            final(self).max_history_spec_chirho() == old(self).max_history_spec_chirho(),
            final(self).base_spec_chirho() == old(self).base_spec_chirho(),
    {
        let name = <String as vstd::string::StringExecFns>::from_str(cell_name_chirho);
        let mut found = false;
        let mut i: usize = 0;
        while i < self.current_changes_chirho.len()
            invariant
                0 <= i <= self.current_changes_chirho@.len(),
                name@ == cell_name_chirho@,
                found == exists|j: int| 0 <= j < i && self.current_changes_chirho@[j]@ == name@,
            decreases self.current_changes_chirho@.len() - i,
        {
            if self.current_changes_chirho[i] == name {
                found = true;
            }
            i = i + 1;
        }
        proof {
            let pend = self.pending_spec_chirho();
            if found {
                let j = choose|j: int| 0 <= j < i && self.current_changes_chirho@[j]@ == name@;
                assert(pend[j] == cell_name_chirho@);
            } else {
                assert forall|j: int| 0 <= j < pend.len() implies pend[j] != cell_name_chirho@ by {
                    assert(pend[j] == self.current_changes_chirho@[j]@);
                }
            }
        }
        if !found {
            self.current_changes_chirho.push(name);
            assert(self.pending_spec_chirho() =~= old(self).pending_spec_chirho().push(cell_name_chirho@));
        }
        self.incremental_stats_chirho.changes_tracked_chirho = self.incremental_stats_chirho.changes_tracked_chirho + 1;
    }

    /// Returns the current generation number.
    pub fn generation_chirho(&self) -> (r: u64)
        ensures
            r == self.generation_spec_chirho(),
    {
        self.generation_chirho
    }

    /// Returns all changes recorded after a given generation (exclusive).
    pub fn changes_since_generation_chirho(&self, since_generation_chirho: u64) -> (r: Vec<CellDeltaChirho>)
        ensures
            deltas_view_chirho(r@) == self.history_spec_chirho().filter(|d: (Seq<char>, u64, bool)| d.1 > since_generation_chirho),
    {
        let mut r: Vec<CellDeltaChirho> = Vec::new();
        let mut i: usize = 0;
        while i < self.change_history_chirho.len()
            invariant
                0 <= i <= self.change_history_chirho@.len(),
                deltas_view_chirho(r@) == deltas_view_chirho(self.change_history_chirho@).subrange(0, i as int).filter(
                    |d: (Seq<char>, u64, bool)| d.1 > since_generation_chirho,
                ),
            decreases self.change_history_chirho@.len() - i,
        {
            let ghost h = deltas_view_chirho(self.change_history_chirho@);
            proof {
                assert(h.subrange(0, i + 1) =~= h.subrange(0, i as int).push(h[i as int]));
                h.subrange(0, i as int).lemma_filter_push(h[i as int], |d: (Seq<char>, u64, bool)| d.1 > since_generation_chirho);
            }
            if self.change_history_chirho[i].generation_chirho > since_generation_chirho {
                let d = self.change_history_chirho[i].clone();
                r.push(d);
                assert(deltas_view_chirho(r@) =~= deltas_view_chirho(r@.drop_last()).push(h[i as int]));
            }
            i = i + 1;
        }
        proof {
            assert(deltas_view_chirho(self.change_history_chirho@).subrange(0, i as int) =~= deltas_view_chirho(self.change_history_chirho@));
        }
        r
    }

    /// Returns the change history, oldest first.
    pub fn change_history_chirho(&self) -> (r: &[CellDeltaChirho])
        ensures
            deltas_view_chirho(r@) == self.history_spec_chirho(),
    {
        self.change_history_chirho.as_slice()
    }

    /// Returns the cells that changed in the current (not yet committed) run.
    pub fn pending_changes_chirho(&self) -> (r: Vec<String>)
        ensures
            r@.map_values(|n: String| n@) == self.pending_spec_chirho(),
    {
        let mut r: Vec<String> = Vec::new();
        let mut i: usize = 0;
        while i < self.current_changes_chirho.len()
            invariant
                0 <= i <= self.current_changes_chirho@.len(),
                r@ == self.current_changes_chirho@.subrange(0, i as int),
            decreases self.current_changes_chirho@.len() - i,
        {
            r.push(self.current_changes_chirho[i].clone());
            i = i + 1;
            assert(r@ =~= self.current_changes_chirho@.subrange(0, i as int));
        }
        assert(r@ =~= self.current_changes_chirho@);
        r
    }

    /// Returns `true` if any cells have pending changes.
    pub fn has_pending_changes_chirho(&self) -> (r: bool)
        ensures
            r == (self.pending_spec_chirho().len() > 0),
    {
        self.current_changes_chirho.len() > 0
    }

    /// Alerts a propagator (delegates to the base scheduler).
    pub fn alert_propagator_chirho(&mut self, propagator_chirho: &dyn PropagatorChirho)
        ensures
            (final(self).base_spec_chirho().queue_spec_chirho(), final(self).base_spec_chirho().stats_spec_chirho())
                == SchedulerChirho::alerted_spec_chirho(
                    old(self).base_spec_chirho().queue_spec_chirho(),
                    old(self).base_spec_chirho().stats_spec_chirho(),
                    propagator_chirho.spec_id_chirho(),
                ),
            final(self).generation_spec_chirho() == old(self).generation_spec_chirho(),
            final(self).history_spec_chirho() == old(self).history_spec_chirho(),
            final(self).pending_spec_chirho() == old(self).pending_spec_chirho(),
            final(self).incremental_stats_spec_chirho() == old(self).incremental_stats_spec_chirho(),
    {
        let id_chirho = propagator_chirho.id_chirho();
        self.base_scheduler_chirho.alert_id_chirho(id_chirho);
    }

    /// Commits the pending changes to history at the current generation,
    /// prunes the history, and moves to the next generation.
    fn commit_changes_chirho(&mut self)
        requires
            old(self).generation_spec_chirho() < u64::MAX,
            old(self).incremental_stats_spec_chirho().incremental_runs_chirho < usize::MAX,
        ensures
            final(self).history_spec_chirho() == committed_history_chirho(
                old(self).history_spec_chirho(),
                old(self).pending_spec_chirho(),
                old(self).generation_spec_chirho(),
                old(self).max_history_spec_chirho(),
            ),
            final(self).pending_spec_chirho().len() == 0,
            final(self).generation_spec_chirho() == old(self).generation_spec_chirho() + 1,
            final(self).incremental_stats_spec_chirho() == (IncrementalStatsChirho {
                incremental_runs_chirho: (old(self).incremental_stats_spec_chirho().incremental_runs_chirho + 1) as usize,
                ..old(self).incremental_stats_spec_chirho()
            }),
            final(self).max_history_spec_chirho() == old(self).max_history_spec_chirho(),
            final(self).base_spec_chirho() == old(self).base_spec_chirho(),
    {
        let current_gen_chirho = self.generation_chirho;
        let ghost h0 = self.history_spec_chirho();
        let ghost p0 = self.pending_spec_chirho();
        let mut i: usize = 0;
        while i < self.current_changes_chirho.len()
            invariant
                0 <= i <= self.current_changes_chirho@.len(),
                self.current_changes_chirho@.map_values(|n: String| n@) == p0,
                self.history_spec_chirho() == h0 + p0.subrange(0, i as int).map_values(|n: Seq<char>| (n, current_gen_chirho, true)),
                self.incremental_stats_chirho == old(self).incremental_stats_chirho,
                self.generation_chirho == old(self).generation_chirho,
                current_gen_chirho == old(self).generation_chirho,
                self.max_history_size_chirho == old(self).max_history_size_chirho,
                self.base_scheduler_chirho == old(self).base_scheduler_chirho,
            decreases self.current_changes_chirho@.len() - i,
        {
            let ghost hb = self.history_spec_chirho();
            let delta_chirho = CellDeltaChirho {
                cell_name_chirho: self.current_changes_chirho[i].clone(),
                generation_chirho: current_gen_chirho,
                caused_propagation_chirho: true,
            };
            self.change_history_chirho.push(delta_chirho);
            i = i + 1;
            proof {
                assert(p0[i - 1] == self.current_changes_chirho@[i - 1]@);
                assert(self.history_spec_chirho() =~= hb.push((p0[i - 1], current_gen_chirho, true)));
                assert(p0.subrange(0, i as int).map_values(|n: Seq<char>| (n, current_gen_chirho, true))
                    =~= p0.subrange(0, i - 1).map_values(|n: Seq<char>| (n, current_gen_chirho, true)).push((p0[i - 1], current_gen_chirho, true)));
                assert(self.history_spec_chirho() =~= h0 + p0.subrange(0, i as int).map_values(|n: Seq<char>| (n, current_gen_chirho, true)));
            }
        }
        proof {
            assert(p0.subrange(0, i as int) =~= p0);
        }
        self.current_changes_chirho = Vec::new();
        let len_chirho = self.change_history_chirho.len();
        if len_chirho > self.max_history_size_chirho {
            let ghost full = self.history_spec_chirho();
            let kept_chirho = deltas_from_chirho(&self.change_history_chirho, len_chirho - self.max_history_size_chirho);
            self.change_history_chirho = kept_chirho;
            proof {
                assert(self.history_spec_chirho() =~= full.subrange(full.len() - self.max_history_size_chirho, full.len() as int));
            }
        }
        proof {
            assert(self.pending_spec_chirho() =~= Seq::empty());
        }
        self.generation_chirho = current_gen_chirho + 1;
        self.incremental_stats_chirho.incremental_runs_chirho = self.incremental_stats_chirho.incremental_runs_chirho + 1;
    }

    /// Runs all queued propagators to fixpoint, as the base scheduler does
    /// (first in, first out, each run logged), then commits the pending
    /// changes to history and moves to the next generation.
    pub fn run_chirho<R: PropagatorRunnerChirho>(&mut self, runner_chirho: &mut R)
        requires
            old(self).base_spec_chirho().stats_spec_chirho().iterations_chirho < usize::MAX,
            old(self).generation_spec_chirho() < u64::MAX,
            old(self).incremental_stats_spec_chirho().incremental_runs_chirho < usize::MAX,
        ensures
            final(self).history_spec_chirho() == committed_history_chirho(
                old(self).history_spec_chirho(),
                old(self).pending_spec_chirho(),
                old(self).generation_spec_chirho(),
                old(self).max_history_spec_chirho(),
            ),
            final(self).pending_spec_chirho().len() == 0,
            final(self).generation_spec_chirho() == old(self).generation_spec_chirho() + 1,
            final(self).incremental_stats_spec_chirho() == (IncrementalStatsChirho {
                incremental_runs_chirho: (old(self).incremental_stats_spec_chirho().incremental_runs_chirho + 1) as usize,
                ..old(self).incremental_stats_spec_chirho()
            }),
            final(self).max_history_spec_chirho() == old(self).max_history_spec_chirho(),
            final(self).base_spec_chirho().queue_spec_chirho().len() == 0
                || final(self).base_spec_chirho().stats_spec_chirho().runs_chirho == usize::MAX,
            SchedulerChirho::fifo_runs_chirho(
                old(self).base_spec_chirho().queue_spec_chirho(),
                old(self).base_spec_chirho().run_log_spec_chirho(),
                old(self).base_spec_chirho().stats_spec_chirho().runs_chirho as int,
                final(self).base_spec_chirho().queue_spec_chirho(),
                final(self).base_spec_chirho().run_log_spec_chirho(),
                final(self).base_spec_chirho().stats_spec_chirho().runs_chirho as int,
            ),
            final(self).base_spec_chirho().stats_spec_chirho().iterations_chirho
                == old(self).base_spec_chirho().stats_spec_chirho().iterations_chirho + 1,
            old(self).base_spec_chirho().queue_spec_chirho().len() == 0 ==> final(self).base_spec_chirho().queue_spec_chirho().len() == 0
                && final(self).base_spec_chirho().run_log_spec_chirho() == old(self).base_spec_chirho().run_log_spec_chirho()
                && final(self).base_spec_chirho().stats_spec_chirho() == (SchedulerStatsChirho {
                    iterations_chirho: (old(self).base_spec_chirho().stats_spec_chirho().iterations_chirho + 1) as usize,
                    ..old(self).base_spec_chirho().stats_spec_chirho()
                }),
    {
        self.base_scheduler_chirho.run_chirho(runner_chirho);
        self.commit_changes_chirho();
    }

    /// Runs at most `max_steps` propagators, then commits the pending
    /// changes. Returns `true` exactly when the queue is then empty.
    pub fn run_bounded_chirho<R: PropagatorRunnerChirho>(&mut self, max_steps_chirho: usize, runner_chirho: &mut R) -> (r: bool)
        requires
            old(self).base_spec_chirho().stats_spec_chirho().iterations_chirho < usize::MAX,
            old(self).generation_spec_chirho() < u64::MAX,
            old(self).incremental_stats_spec_chirho().incremental_runs_chirho < usize::MAX,
        ensures
            r == (final(self).base_spec_chirho().queue_spec_chirho().len() == 0),
            old(self).base_spec_chirho().queue_spec_chirho().len() == 0 ==> r,
            final(self).base_spec_chirho().stats_spec_chirho().iterations_chirho
                == old(self).base_spec_chirho().stats_spec_chirho().iterations_chirho + 1,
            SchedulerChirho::fifo_runs_chirho(
                old(self).base_spec_chirho().queue_spec_chirho(),
                old(self).base_spec_chirho().run_log_spec_chirho(),
                old(self).base_spec_chirho().stats_spec_chirho().runs_chirho as int,
                final(self).base_spec_chirho().queue_spec_chirho(),
                final(self).base_spec_chirho().run_log_spec_chirho(),
                final(self).base_spec_chirho().stats_spec_chirho().runs_chirho as int,
            ),
            final(self).base_spec_chirho().run_log_spec_chirho().len()
                <= old(self).base_spec_chirho().run_log_spec_chirho().len() + max_steps_chirho,
            !r ==> final(self).base_spec_chirho().run_log_spec_chirho().len()
                == old(self).base_spec_chirho().run_log_spec_chirho().len() + max_steps_chirho
                || final(self).base_spec_chirho().stats_spec_chirho().runs_chirho == usize::MAX,
            final(self).history_spec_chirho() == committed_history_chirho(
                old(self).history_spec_chirho(),
                old(self).pending_spec_chirho(),
                old(self).generation_spec_chirho(),
                old(self).max_history_spec_chirho(),
            ),
            final(self).pending_spec_chirho().len() == 0,
            final(self).generation_spec_chirho() == old(self).generation_spec_chirho() + 1,
            final(self).incremental_stats_spec_chirho() == (IncrementalStatsChirho {
                incremental_runs_chirho: (old(self).incremental_stats_spec_chirho().incremental_runs_chirho + 1) as usize,
                ..old(self).incremental_stats_spec_chirho()
            }),
            final(self).max_history_spec_chirho() == old(self).max_history_spec_chirho(),
    {
        let result_chirho = self.base_scheduler_chirho.run_bounded_chirho(max_steps_chirho, runner_chirho);
        self.commit_changes_chirho();
        result_chirho
    }

    /// Returns the base scheduler.
    pub fn base_scheduler_chirho(&self) -> (r: &SchedulerChirho)
        ensures
            *r == self.base_spec_chirho(),
    {
        &self.base_scheduler_chirho
    }

    /// Returns the current queue size.
    pub fn queue_size_chirho(&self) -> (r: usize)
        ensures
            r == self.base_spec_chirho().queue_spec_chirho().len(),
    {
        self.base_scheduler_chirho.queue_size_chirho()
    }

    /// The text of the scheduler: its generation, queue size, number of
    /// pending changes and history size.
    pub fn to_text_chirho(&self) -> (r: String)
        ensures
            r@ == incremental_text_chirho(
                self.generation_spec_chirho() as nat,
                self.base_spec_chirho().queue_spec_chirho().len(),
                self.pending_spec_chirho().len(),
                self.history_spec_chirho().len(),
            ),
    {
        let mut r = String::new();
        push_str_chirho(&mut r, "IncrementalScheduler { ");
        push_field_chirho(&mut r, "generation", self.generation_chirho);
        push_str_chirho(&mut r, ", ");
        push_field_chirho(&mut r, "queue_size", self.base_scheduler_chirho.queue_size_chirho() as u64);
        push_str_chirho(&mut r, ", ");
        push_field_chirho(&mut r, "pending_changes", self.current_changes_chirho.len() as u64);
        push_str_chirho(&mut r, ", ");
        push_field_chirho(&mut r, "history_size", self.change_history_chirho.len() as u64);
        push_str_chirho(&mut r, " }");
        proof {
            assert(self.pending_spec_chirho().len() == self.current_changes_chirho@.len());
            assert(self.history_spec_chirho().len() == self.change_history_chirho@.len());
        }
        assert(r@ =~= incremental_text_chirho(
            self.generation_spec_chirho() as nat,
            self.base_spec_chirho().queue_spec_chirho().len(),
            self.pending_spec_chirho().len(),
            self.history_spec_chirho().len(),
        ));
        r
    }

    /// Returns `true` if the queue is empty.
    pub fn is_quiescent_chirho(&self) -> (r: bool)
        ensures
            r == (self.base_spec_chirho().queue_spec_chirho().len() == 0),
    {
        self.base_scheduler_chirho.is_quiescent_chirho()
    }

    /// Returns the incremental statistics, with the base scheduler's.
    pub fn stats_chirho(&self) -> (r: IncrementalStatsChirho)
        ensures
            r == (IncrementalStatsChirho {
                base_stats_chirho: self.base_spec_chirho().stats_spec_chirho(),
                ..self.incremental_stats_spec_chirho()
            }),
    {
        let mut stats_chirho = self.incremental_stats_chirho.clone();
        stats_chirho.base_stats_chirho = self.base_scheduler_chirho.stats_chirho();
        stats_chirho
    }

    /// Resets all statistics.
    pub fn reset_stats_chirho(&mut self)
        ensures
            final(self).incremental_stats_spec_chirho() == zero_incremental_stats_chirho(),
            final(self).base_spec_chirho().stats_spec_chirho() == (SchedulerStatsChirho { runs_chirho: 0, iterations_chirho: 0, max_queue_size_chirho: 0 }),
            final(self).base_spec_chirho().queue_spec_chirho() == old(self).base_spec_chirho().queue_spec_chirho(),
            final(self).generation_spec_chirho() == old(self).generation_spec_chirho(),
            final(self).history_spec_chirho() == old(self).history_spec_chirho(),
            final(self).pending_spec_chirho() == old(self).pending_spec_chirho(),
    {
        self.base_scheduler_chirho.reset_stats_chirho();
        self.incremental_stats_chirho = IncrementalStatsChirho::default();
    }

    /// Clears the change history.
    pub fn clear_history_chirho(&mut self)
        ensures
            final(self).history_spec_chirho().len() == 0,
            final(self).generation_spec_chirho() == old(self).generation_spec_chirho(),
            final(self).pending_spec_chirho() == old(self).pending_spec_chirho(),
            final(self).incremental_stats_spec_chirho() == old(self).incremental_stats_spec_chirho(),
            final(self).base_spec_chirho() == old(self).base_spec_chirho(),
    {
        self.change_history_chirho = Vec::new();
    }

    /// Clears the queue and the pending changes.
    pub fn clear_chirho(&mut self)
        ensures
            final(self).base_spec_chirho().queue_spec_chirho().len() == 0,
            final(self).pending_spec_chirho().len() == 0,
            final(self).generation_spec_chirho() == old(self).generation_spec_chirho(),
            final(self).history_spec_chirho() == old(self).history_spec_chirho(),
            final(self).incremental_stats_spec_chirho() == old(self).incremental_stats_spec_chirho(),
    {
        self.base_scheduler_chirho.clear_chirho();
        self.current_changes_chirho = Vec::new();
        assert(self.pending_spec_chirho() =~= Seq::empty());
    }
}

impl Default for IncrementalSchedulerChirho {
    fn default() -> (r: Self)
        ensures
            r.generation_spec_chirho() == 0,
            r.history_spec_chirho().len() == 0,
            r.pending_spec_chirho().len() == 0,
            r.max_history_spec_chirho() == 1000,
            r.incremental_stats_spec_chirho() == zero_incremental_stats_chirho(),
            r.base_spec_chirho().queue_spec_chirho().len() == 0,
    {
        Self::new_chirho()
    }
}

// ============================================================================
// Priority scheduler
// ============================================================================

/// Statistics for priority scheduler execution.
pub struct PrioritySchedulerStatsChirho {
    /// Total number of propagator runs.
    pub runs_chirho: usize,
    /// Number of high-priority runs (priority at least 50).
    pub high_priority_runs_chirho: usize,
    /// Number of normal-priority runs.
    pub normal_priority_runs_chirho: usize,
    /// Number of low-priority runs (priority at most -50).
    pub low_priority_runs_chirho: usize,
    /// Number of times `run_chirho` was called.
    pub iterations_chirho: usize,
    /// Maximum queue size observed.
    pub max_queue_size_chirho: usize,
}

impl Clone for PrioritySchedulerStatsChirho {
    fn clone(&self) -> (r: Self)
        ensures
            r == *self,
    {
        PrioritySchedulerStatsChirho {
            runs_chirho: self.runs_chirho,
            high_priority_runs_chirho: self.high_priority_runs_chirho,
            normal_priority_runs_chirho: self.normal_priority_runs_chirho,
            low_priority_runs_chirho: self.low_priority_runs_chirho,
            iterations_chirho: self.iterations_chirho,
            max_queue_size_chirho: self.max_queue_size_chirho,
        }
    }
}

/// All-zero priority statistics.
pub open spec fn zero_priority_stats_chirho() -> PrioritySchedulerStatsChirho {
    PrioritySchedulerStatsChirho {
        runs_chirho: 0,
        high_priority_runs_chirho: 0,
        normal_priority_runs_chirho: 0,
        low_priority_runs_chirho: 0,
        iterations_chirho: 0,
        max_queue_size_chirho: 0,
    }
}

impl Default for PrioritySchedulerStatsChirho {
    fn default() -> (r: Self)
        ensures
            r == zero_priority_stats_chirho(),
    {
        PrioritySchedulerStatsChirho {
            runs_chirho: 0,
            high_priority_runs_chirho: 0,
            normal_priority_runs_chirho: 0,
            low_priority_runs_chirho: 0,
            iterations_chirho: 0,
            max_queue_size_chirho: 0,
        }
    }
}

/// Whether a priority counts as high.
pub open spec fn is_high_priority_chirho(p: i32) -> bool {
    p >= 50
}

/// Whether a priority counts as low.
pub open spec fn is_low_priority_chirho(p: i32) -> bool {
    p <= -50
}

/// The number of queued entries whose priority is high, low, or normal
/// (`kind` 2, 0 or 1).
pub open spec fn count_kind_chirho(q: Seq<(usize, i32)>, kind: int) -> nat
    decreases q.len(),
{
    if q.len() == 0 {
        0
    } else {
        count_kind_chirho(q.drop_last(), kind) + if priority_kind_chirho(q.last().1) == kind { 1nat } else { 0nat }
    }
}

/// 2 for a high priority, 0 for a low one, 1 otherwise.
pub open spec fn priority_kind_chirho(p: i32) -> int {
    if is_high_priority_chirho(p) { 2 } else if is_low_priority_chirho(p) { 0 } else { 1 }
}

/// Taking one entry out removes its kind from the count.
pub proof fn lemma_count_kind_remove_chirho(q: Seq<(usize, i32)>, i: int, kind: int)
    requires
        0 <= i < q.len(),
    ensures
        count_kind_chirho(q, kind) == count_kind_chirho(q.remove(i), kind)
            + if priority_kind_chirho(q[i].1) == kind { 1nat } else { 0nat },
    decreases q.len(),
{
    if i == q.len() - 1 {
        assert(q.remove(i) =~= q.drop_last());
    } else {
        lemma_count_kind_remove_chirho(q.drop_last(), i, kind);
        assert(q.remove(i).drop_last() =~= q.drop_last().remove(i));
        assert(q.remove(i).last() == q.last());
    }
}

/// Counts are bounded by the length.
pub proof fn lemma_count_kind_len_chirho(q: Seq<(usize, i32)>, kind: int)
    ensures
        count_kind_chirho(q, kind) <= q.len(),
        count_kind_chirho(q, 0) + count_kind_chirho(q, 1) + count_kind_chirho(q, 2) == q.len(),
    decreases q.len(),
{
    if q.len() > 0 {
        lemma_count_kind_len_chirho(q.drop_last(), kind);
    }
}

/// The stats after counting one more run of priority `p`.
pub open spec fn stats_after_run_chirho(s: PrioritySchedulerStatsChirho, p: i32) -> PrioritySchedulerStatsChirho {
    PrioritySchedulerStatsChirho {
        runs_chirho: (s.runs_chirho + 1) as usize,
        high_priority_runs_chirho: if is_high_priority_chirho(p) { (s.high_priority_runs_chirho + 1) as usize } else { s.high_priority_runs_chirho },
        low_priority_runs_chirho: if !is_high_priority_chirho(p) && is_low_priority_chirho(p) { (s.low_priority_runs_chirho + 1) as usize } else { s.low_priority_runs_chirho },
        normal_priority_runs_chirho: if !is_high_priority_chirho(p) && !is_low_priority_chirho(p) { (s.normal_priority_runs_chirho + 1) as usize } else { s.normal_priority_runs_chirho },
        ..s
    }
}

/// Whether the stats can count `n` more runs, `h` high and `l` low, without overflow.
pub open spec fn room_for_runs_chirho(s: PrioritySchedulerStatsChirho, q: Seq<(usize, i32)>) -> bool {
    &&& s.runs_chirho + q.len() <= usize::MAX
    &&& s.high_priority_runs_chirho + count_kind_chirho(q, 2) <= usize::MAX
    &&& s.normal_priority_runs_chirho + count_kind_chirho(q, 1) <= usize::MAX
    &&& s.low_priority_runs_chirho + count_kind_chirho(q, 0) <= usize::MAX
}

/// How priority scheduler statistics print, field by field.
pub open spec fn priority_stats_text_chirho(s: PrioritySchedulerStatsChirho) -> Seq<char> {
    "PrioritySchedulerStatsChirho { "@ + field_text_chirho("runs_chirho"@, s.runs_chirho as nat) + ", "@
        + field_text_chirho("high_priority_runs_chirho"@, s.high_priority_runs_chirho as nat) + ", "@
        + field_text_chirho("normal_priority_runs_chirho"@, s.normal_priority_runs_chirho as nat) + ", "@
        + field_text_chirho("low_priority_runs_chirho"@, s.low_priority_runs_chirho as nat) + ", "@
        + field_text_chirho("iterations_chirho"@, s.iterations_chirho as nat) + ", "@
        + field_text_chirho("max_queue_size_chirho"@, s.max_queue_size_chirho as nat) + " }"@
}

/// How a priority scheduler prints: its queue size and its statistics.
pub open spec fn priority_text_chirho(queue_size: nat, s: PrioritySchedulerStatsChirho) -> Seq<char> {
    "PriorityScheduler { "@ + field_text_chirho("queue_size"@, queue_size) + ", stats: "@
        + priority_stats_text_chirho(s) + " }"@
}

/// Appends the text of priority scheduler statistics.
fn push_priority_stats_chirho(s: &mut String, st: &PrioritySchedulerStatsChirho)
    ensures
        final(s)@ == old(s)@ + priority_stats_text_chirho(*st),
{
    push_str_chirho(s, "PrioritySchedulerStatsChirho { ");
    push_field_chirho(s, "runs_chirho", st.runs_chirho as u64);
    push_str_chirho(s, ", ");
    push_field_chirho(s, "high_priority_runs_chirho", st.high_priority_runs_chirho as u64);
    push_str_chirho(s, ", ");
    push_field_chirho(s, "normal_priority_runs_chirho", st.normal_priority_runs_chirho as u64);
    push_str_chirho(s, ", ");
    push_field_chirho(s, "low_priority_runs_chirho", st.low_priority_runs_chirho as u64);
    push_str_chirho(s, ", ");
    push_field_chirho(s, "iterations_chirho", st.iterations_chirho as u64);
    push_str_chirho(s, ", ");
    push_field_chirho(s, "max_queue_size_chirho", st.max_queue_size_chirho as u64);
    push_str_chirho(s, " }");
    assert(s@ =~= old(s)@ + priority_stats_text_chirho(*st));
}

/// A priority queue and its statistics after alerting `id` with priority
/// `p`: unchanged if a propagator with that identifier is queued, else the
/// entry is added at the end and the largest queue size updated.
pub open spec fn priority_alerted_chirho(
    q: Seq<(usize, i32)>,
    stats: PrioritySchedulerStatsChirho,
    id: usize,
    p: i32,
) -> (Seq<(usize, i32)>, PrioritySchedulerStatsChirho) {
    if exists|i: int| 0 <= i < q.len() && q[i].0 == id {
        (q, stats)
    } else {
        let q2 = q.push((id, p));
        (q2, PrioritySchedulerStatsChirho {
            max_queue_size_chirho: if q2.len() > stats.max_queue_size_chirho {
                q2.len() as usize
            } else {
                stats.max_queue_size_chirho
            },
            ..stats
        })
    }
}

/// A priority-aware scheduler that runs higher-priority propagators first.
///
/// Propagators with higher priority values run before lower-priority ones;
/// among equal priorities the one alerted first runs first.
pub struct PrioritySchedulerChirho {
    /// Queued propagators: identifier and priority, in the order alerted.
    queue_chirho: Vec<(usize, i32)>,
    /// Execution statistics.
    stats_chirho: PrioritySchedulerStatsChirho,
    /// Each pick, in order: the queue it was made from and the position taken.
    run_log_chirho: Ghost<Seq<(Seq<(usize, i32)>, int)>>,
}

/// Position `i` holds the first of the entries of `q` with the highest priority.
pub open spec fn first_highest_chirho(q: Seq<(usize, i32)>, i: int) -> bool {
    &&& 0 <= i < q.len()
    &&& forall|j: int| 0 <= j < q.len() ==> #[trigger] q[j].1 <= q[i].1
    &&& forall|j: int| 0 <= j < i ==> #[trigger] q[j].1 < q[i].1
}

/// `after` is `before` with entries added at the end.
pub open spec fn grew_from_chirho(before: Seq<(usize, i32)>, after: Seq<(usize, i32)>) -> bool {
    before.len() <= after.len() && after.take(before.len() as int) == before
}

/// The entry taken by a pick.
pub open spec fn picked_chirho(e: (Seq<(usize, i32)>, int)) -> (usize, i32) {
    e.0[e.1]
}

/// The picks `picks` lead from queue `q0` to queue `q1`: the first is made
/// from `q0`, each takes the first entry of highest priority, and what is
/// queued next is what it left with alerts added at the end.
pub open spec fn priority_trace_chirho(
    q0: Seq<(usize, i32)>,
    picks: Seq<(Seq<(usize, i32)>, int)>,
    q1: Seq<(usize, i32)>,
) -> bool {
    &&& picks.len() == 0 ==> q1 == q0
    &&& picks.len() > 0 ==> picks[0].0 == q0
    &&& forall|k: int| 0 <= k < picks.len() ==> first_highest_chirho(#[trigger] picks[k].0, picks[k].1)
    &&& forall|k: int| 0 <= k < picks.len() ==> grew_from_chirho(
        (#[trigger] picks[k]).0.remove(picks[k].1),
        if k + 1 < picks.len() { picks[k + 1].0 } else { q1 },
    )
}

/// The statistics after counting the runs of `picks`, from `s`.
pub open spec fn counted_runs_chirho(
    s: PrioritySchedulerStatsChirho,
    picks: Seq<(Seq<(usize, i32)>, int)>,
    t: PrioritySchedulerStatsChirho,
) -> bool {
    let taken = picks.map_values(|e: (Seq<(usize, i32)>, int)| picked_chirho(e));
    &&& t.runs_chirho == s.runs_chirho + picks.len()
    &&& t.high_priority_runs_chirho == s.high_priority_runs_chirho + count_kind_chirho(taken, 2)
    &&& t.normal_priority_runs_chirho == s.normal_priority_runs_chirho + count_kind_chirho(taken, 1)
    &&& t.low_priority_runs_chirho == s.low_priority_runs_chirho + count_kind_chirho(taken, 0)
}

/// No picks yet: the trace is empty and nothing is counted.
proof fn lemma_trace_start_chirho(
    log: Seq<(Seq<(usize, i32)>, int)>,
    q0: Seq<(usize, i32)>,
    s0: PrioritySchedulerStatsChirho,
    s: PrioritySchedulerStatsChirho,
)
    requires
        s.runs_chirho == s0.runs_chirho,
        s.high_priority_runs_chirho == s0.high_priority_runs_chirho,
        s.normal_priority_runs_chirho == s0.normal_priority_runs_chirho,
        s.low_priority_runs_chirho == s0.low_priority_runs_chirho,
    ensures
        log.take(log.len() as int) == log,
        priority_trace_chirho(q0, log.skip(log.len() as int), q0),
        counted_runs_chirho(s0, log.skip(log.len() as int), s),
{
    assert(log.take(log.len() as int) =~= log);
    let e = log.skip(log.len() as int);
    assert(e =~= Seq::<(Seq<(usize, i32)>, int)>::empty());
    assert(e.map_values(|x: (Seq<(usize, i32)>, int)| picked_chirho(x)) =~= Seq::<(usize, i32)>::empty());
}

/// One more pick, of the first highest entry at `i` of the queue `qb`, after
/// which the queue grew to `q2`, extends a trace that ended at `qb`.
proof fn lemma_trace_step_chirho(
    q0: Seq<(usize, i32)>,
    picks: Seq<(Seq<(usize, i32)>, int)>,
    qb: Seq<(usize, i32)>,
    i: int,
    q2: Seq<(usize, i32)>,
)
    requires
        priority_trace_chirho(q0, picks, qb),
        first_highest_chirho(qb, i),
        grew_from_chirho(qb.remove(i), q2),
    ensures
        priority_trace_chirho(q0, picks.push((qb, i)), q2),
{
    let p2 = picks.push((qb, i));
    assert forall|k: int| 0 <= k < p2.len() implies first_highest_chirho(#[trigger] p2[k].0, p2[k].1) by {
        if k < picks.len() {
            assert(p2[k] == picks[k]);
            assert(first_highest_chirho(picks[k].0, picks[k].1));
        }
    }
    assert forall|k: int| 0 <= k < p2.len() implies grew_from_chirho(
        (#[trigger] p2[k]).0.remove(p2[k].1),
        if k + 1 < p2.len() { p2[k + 1].0 } else { q2 },
    ) by {
        if k < picks.len() {
            assert(p2[k] == picks[k]);
            assert(grew_from_chirho(picks[k].0.remove(picks[k].1), if k + 1 < picks.len() { picks[k + 1].0 } else { qb }));
            if k + 1 < picks.len() {
                assert(p2[k + 1] == picks[k + 1]);
            }
        }
    }
    if picks.len() > 0 {
        assert(p2[0] == picks[0]);
    }
}

/// Counting the run of one more pick.
proof fn lemma_counted_step_chirho(
    s0: PrioritySchedulerStatsChirho,
    picks: Seq<(Seq<(usize, i32)>, int)>,
    sb: PrioritySchedulerStatsChirho,
    qb: Seq<(usize, i32)>,
    i: int,
    t: PrioritySchedulerStatsChirho,
)
    requires
        counted_runs_chirho(s0, picks, sb),
        0 <= i < qb.len(),
        t.runs_chirho == stats_after_run_chirho(sb, qb[i].1).runs_chirho,
        t.high_priority_runs_chirho == stats_after_run_chirho(sb, qb[i].1).high_priority_runs_chirho,
        t.normal_priority_runs_chirho == stats_after_run_chirho(sb, qb[i].1).normal_priority_runs_chirho,
        t.low_priority_runs_chirho == stats_after_run_chirho(sb, qb[i].1).low_priority_runs_chirho,
        sb.runs_chirho < usize::MAX,
        sb.high_priority_runs_chirho < usize::MAX,
        sb.normal_priority_runs_chirho < usize::MAX,
        sb.low_priority_runs_chirho < usize::MAX,
    ensures
        counted_runs_chirho(s0, picks.push((qb, i)), t),
{
    let f = |e: (Seq<(usize, i32)>, int)| picked_chirho(e);
    let taken = picks.map_values(f);
    let taken2 = picks.push((qb, i)).map_values(f);
    assert(taken2 =~= taken.push(qb[i]));
    assert(taken2.drop_last() =~= taken);
}

impl PrioritySchedulerChirho {
    /// The queued propagators: identifier and priority, in the order alerted.
    pub closed spec fn queue_spec_chirho(&self) -> Seq<(usize, i32)> {
        self.queue_chirho@
    }

    /// The execution statistics.
    pub closed spec fn stats_spec_chirho(&self) -> PrioritySchedulerStatsChirho {
        self.stats_chirho
    }

    /// Each propagator taken off the queue to be run since the scheduler was
    /// made, in order: the queue it was taken from and its position there.
    pub closed spec fn run_log_spec_chirho(&self) -> Seq<(Seq<(usize, i32)>, int)> {
        self.run_log_chirho@
    }

    /// Creates a new priority scheduler.
    pub fn new_chirho() -> (r: Self)
        ensures
            r.queue_spec_chirho().len() == 0,
            r.stats_spec_chirho() == zero_priority_stats_chirho(),
            r.run_log_spec_chirho().len() == 0,
    {
        PrioritySchedulerChirho {
            queue_chirho: Vec::new(),
            stats_chirho: PrioritySchedulerStatsChirho::default(),
            run_log_chirho: Ghost(Seq::empty()),
        }
    }

    /// Queues the propagator `id` with the given priority unless a propagator
    /// with that identifier is queued; the largest queue size is updated.
    pub fn alert_entry_chirho(&mut self, id_chirho: usize, priority_chirho: i32)
        ensures
            (exists|i: int| 0 <= i < old(self).queue_spec_chirho().len() && old(self).queue_spec_chirho()[i].0 == id_chirho)
                ==> final(self).queue_spec_chirho() == old(self).queue_spec_chirho()
                && final(self).stats_spec_chirho() == old(self).stats_spec_chirho(),
            !(exists|i: int| 0 <= i < old(self).queue_spec_chirho().len() && old(self).queue_spec_chirho()[i].0 == id_chirho)
                ==> final(self).queue_spec_chirho() == old(self).queue_spec_chirho().push((id_chirho, priority_chirho))
                && final(self).stats_spec_chirho() == (PrioritySchedulerStatsChirho {
                    max_queue_size_chirho: if final(self).queue_spec_chirho().len() > old(self).stats_spec_chirho().max_queue_size_chirho {
                        final(self).queue_spec_chirho().len() as usize
                    } else {
                        old(self).stats_spec_chirho().max_queue_size_chirho
                    },
                    ..old(self).stats_spec_chirho()
                }),
            final(self).run_log_spec_chirho() == old(self).run_log_spec_chirho(),
    {
        let mut i: usize = 0;
        while i < self.queue_chirho.len()
            invariant
                0 <= i <= self.queue_chirho@.len(),
                self.queue_chirho@ == old(self).queue_chirho@,
                self.stats_chirho == old(self).stats_chirho,
                forall|j: int| 0 <= j < i ==> self.queue_chirho@[j].0 != id_chirho,
            decreases self.queue_chirho@.len() - i,
        {
            if self.queue_chirho[i].0 == id_chirho {
                return;
            }
            i = i + 1;
        }
        self.queue_chirho.push((id_chirho, priority_chirho));
        let queue_size_chirho = self.queue_chirho.len();
        if queue_size_chirho > self.stats_chirho.max_queue_size_chirho {
            self.stats_chirho.max_queue_size_chirho = queue_size_chirho;
        }
    }

    /// Alerts a propagator that one of its inputs has changed: it is queued,
    /// with its priority, unless it already is.
    pub fn alert_propagator_chirho(&mut self, propagator_chirho: &dyn PropagatorChirho)
        ensures
            exists|p: i32| (final(self).queue_spec_chirho(), final(self).stats_spec_chirho())
                == #[trigger] priority_alerted_chirho(
                    old(self).queue_spec_chirho(),
                    old(self).stats_spec_chirho(),
                    propagator_chirho.spec_id_chirho(),
                    p,
                ),
            final(self).run_log_spec_chirho() == old(self).run_log_spec_chirho(),
    {
        let id_chirho = propagator_chirho.id_chirho();
        let priority_chirho = propagator_chirho.priority_chirho();
        self.alert_entry_chirho(id_chirho, priority_chirho);
        assert((self.queue_spec_chirho(), self.stats_spec_chirho()) == priority_alerted_chirho(
            old(self).queue_spec_chirho(),
            old(self).stats_spec_chirho(),
            id_chirho,
            priority_chirho,
        ));
    }

    /// Takes the next propagator to run off the queue: the first of those
    /// with the highest priority. The run is counted by its priority.
    pub fn next_propagator_chirho(&mut self) -> (r: Option<usize>)
        requires
            room_for_runs_chirho(old(self).stats_spec_chirho(), old(self).queue_spec_chirho()),
        ensures
            old(self).queue_spec_chirho().len() == 0 ==> r is None && *final(self) == *old(self),
            old(self).queue_spec_chirho().len() > 0 ==> exists|i: int| {
                &&& 0 <= i < old(self).queue_spec_chirho().len()
                &&& r == Some(old(self).queue_spec_chirho()[i].0)
                &&& forall|j: int| 0 <= j < old(self).queue_spec_chirho().len() ==> #[trigger] old(self).queue_spec_chirho()[j].1 <= old(self).queue_spec_chirho()[i].1
                &&& forall|j: int| 0 <= j < i ==> #[trigger] old(self).queue_spec_chirho()[j].1 < old(self).queue_spec_chirho()[i].1
                &&& final(self).queue_spec_chirho() == old(self).queue_spec_chirho().remove(i)
                &&& final(self).stats_spec_chirho() == stats_after_run_chirho(old(self).stats_spec_chirho(), old(self).queue_spec_chirho()[i].1)
                &&& final(self).run_log_spec_chirho() == old(self).run_log_spec_chirho().push((old(self).queue_spec_chirho(), i))
            },
    {
        if self.queue_chirho.len() == 0 {
            return None;
        }
        let mut best: usize = 0;
        let mut i: usize = 1;
        while i < self.queue_chirho.len()
            invariant
                1 <= i <= self.queue_chirho@.len(),
                best < i,
                self.queue_chirho@ == old(self).queue_chirho@,
                forall|j: int| 0 <= j < i ==> #[trigger] self.queue_chirho@[j].1 <= self.queue_chirho@[best as int].1,
                forall|j: int| 0 <= j < best ==> #[trigger] self.queue_chirho@[j].1 < self.queue_chirho@[best as int].1,
            decreases self.queue_chirho@.len() - i,
        {
            if self.queue_chirho[i].1 > self.queue_chirho[best].1 {
                best = i;
            }
            i = i + 1;
        }
        let ghost q0 = self.queue_chirho@;
        proof {
            lemma_count_kind_remove_chirho(q0, best as int, priority_kind_chirho(q0[best as int].1));
        }
        let (id_chirho, priority_chirho) = self.queue_chirho.remove(best);
        self.stats_chirho.runs_chirho = self.stats_chirho.runs_chirho + 1;
        if priority_chirho >= 50 {
            self.stats_chirho.high_priority_runs_chirho = self.stats_chirho.high_priority_runs_chirho + 1;
        } else if priority_chirho <= -50 {
            self.stats_chirho.low_priority_runs_chirho = self.stats_chirho.low_priority_runs_chirho + 1;
        } else {
            self.stats_chirho.normal_priority_runs_chirho = self.stats_chirho.normal_priority_runs_chirho + 1;
        }
        proof {
            self.run_log_chirho@ = self.run_log_chirho@.push((q0, best as int));
        }
        Some(id_chirho)
    }

    /// Whether the run counters can count `n` more runs of any kinds.
    pub open spec fn counters_have_room_chirho(s: PrioritySchedulerStatsChirho, n: int) -> bool {
        &&& s.runs_chirho + n <= usize::MAX
        &&& s.high_priority_runs_chirho + n <= usize::MAX
        &&& s.normal_priority_runs_chirho + n <= usize::MAX
        &&& s.low_priority_runs_chirho + n <= usize::MAX
    }

    /// Whether the counters have room for the whole queue.
    fn has_room_chirho(&self) -> (r: bool)
        ensures
            r == Self::counters_have_room_chirho(self.stats_spec_chirho(), self.queue_spec_chirho().len() as int),
            r ==> room_for_runs_chirho(self.stats_spec_chirho(), self.queue_spec_chirho()),
    {
        let n = self.queue_chirho.len();
        proof {
            lemma_count_kind_len_chirho(self.queue_chirho@, 0);
            lemma_count_kind_len_chirho(self.queue_chirho@, 1);
            lemma_count_kind_len_chirho(self.queue_chirho@, 2);
        }
        n <= usize::MAX - self.stats_chirho.runs_chirho
            && n <= usize::MAX - self.stats_chirho.high_priority_runs_chirho
            && n <= usize::MAX - self.stats_chirho.normal_priority_runs_chirho
            && n <= usize::MAX - self.stats_chirho.low_priority_runs_chirho
    }

    /// Runs all queued propagators, highest priority first, through
    /// `runner`, until the queue is empty: the propagators they alert (with
    /// their priorities) are run in turn.
    ///
    /// It stops with propagators still queued only when the run counters
    /// have no room for them, after as many logged runs.
    pub fn run_chirho<R: PriorityRunnerChirho>(&mut self, runner_chirho: &mut R)
        requires
            old(self).stats_spec_chirho().iterations_chirho < usize::MAX,
        ensures
            final(self).queue_spec_chirho().len() == 0
                || !Self::counters_have_room_chirho(final(self).stats_spec_chirho(), final(self).queue_spec_chirho().len() as int),
            old(self).run_log_spec_chirho().len() <= final(self).run_log_spec_chirho().len(),
            final(self).run_log_spec_chirho().take(old(self).run_log_spec_chirho().len() as int) == old(self).run_log_spec_chirho(),
            priority_trace_chirho(
                old(self).queue_spec_chirho(),
                final(self).run_log_spec_chirho().skip(old(self).run_log_spec_chirho().len() as int),
                final(self).queue_spec_chirho(),
            ),
            counted_runs_chirho(
                old(self).stats_spec_chirho(),
                final(self).run_log_spec_chirho().skip(old(self).run_log_spec_chirho().len() as int),
                final(self).stats_spec_chirho(),
            ),
            final(self).stats_spec_chirho().iterations_chirho == old(self).stats_spec_chirho().iterations_chirho + 1,
            final(self).stats_spec_chirho().max_queue_size_chirho >= old(self).stats_spec_chirho().max_queue_size_chirho,
            old(self).queue_spec_chirho().len() == 0 ==> final(self).queue_spec_chirho().len() == 0
                && final(self).run_log_spec_chirho() == old(self).run_log_spec_chirho()
                && final(self).stats_spec_chirho() == (PrioritySchedulerStatsChirho {
                    iterations_chirho: (old(self).stats_spec_chirho().iterations_chirho + 1) as usize,
                    ..old(self).stats_spec_chirho()
                }),
    {
        self.stats_chirho.iterations_chirho = self.stats_chirho.iterations_chirho + 1;
        let ghost q0 = old(self).queue_spec_chirho();
        let ghost log0 = old(self).run_log_spec_chirho();
        let ghost s0 = old(self).stats_spec_chirho();
        proof {
            lemma_trace_start_chirho(self.run_log_spec_chirho(), q0, s0, self.stats_spec_chirho());
        }
        loop
            invariant_except_break
                self.stats_spec_chirho().iterations_chirho == s0.iterations_chirho + 1,
                self.stats_spec_chirho().max_queue_size_chirho >= s0.max_queue_size_chirho,
                q0 == old(self).queue_spec_chirho(),
                log0 == old(self).run_log_spec_chirho(),
                s0 == old(self).stats_spec_chirho(),
                log0.len() <= self.run_log_spec_chirho().len(),
                self.run_log_spec_chirho().take(log0.len() as int) == log0,
                priority_trace_chirho(q0, self.run_log_spec_chirho().skip(log0.len() as int), self.queue_spec_chirho()),
                counted_runs_chirho(s0, self.run_log_spec_chirho().skip(log0.len() as int), self.stats_spec_chirho()),
                q0.len() == 0 ==> self.queue_spec_chirho().len() == 0 && self.run_log_spec_chirho() == log0
                    && self.stats_spec_chirho() == (PrioritySchedulerStatsChirho {
                        iterations_chirho: (s0.iterations_chirho + 1) as usize,
                        ..s0
                    }),
            ensures
                self.queue_spec_chirho().len() == 0
                    || !Self::counters_have_room_chirho(self.stats_spec_chirho(), self.queue_spec_chirho().len() as int),
                self.stats_spec_chirho().iterations_chirho == s0.iterations_chirho + 1,
                self.stats_spec_chirho().max_queue_size_chirho >= s0.max_queue_size_chirho,
                log0.len() <= self.run_log_spec_chirho().len(),
                self.run_log_spec_chirho().take(log0.len() as int) == log0,
                priority_trace_chirho(q0, self.run_log_spec_chirho().skip(log0.len() as int), self.queue_spec_chirho()),
                counted_runs_chirho(s0, self.run_log_spec_chirho().skip(log0.len() as int), self.stats_spec_chirho()),
                q0.len() == 0 ==> self.queue_spec_chirho().len() == 0 && self.run_log_spec_chirho() == log0
                    && self.stats_spec_chirho() == (PrioritySchedulerStatsChirho {
                        iterations_chirho: (s0.iterations_chirho + 1) as usize,
                        ..s0
                    }),
            decreases usize::MAX - self.stats_spec_chirho().runs_chirho,
        {
            if self.queue_chirho.len() == 0 || !self.has_room_chirho() {
                break;
            }
            self.step_chirho(runner_chirho, Ghost(q0), Ghost(log0), Ghost(s0));
        }
    }

    /// Takes the next propagator off the queue and runs it through `runner`,
    /// keeping the trace of the current run: picks from `log0` on lead from
    /// `q0`, and their runs are counted from `s0`.
    fn step_chirho<R: PriorityRunnerChirho>(
        &mut self,
        runner_chirho: &mut R,
        Ghost(q0): Ghost<Seq<(usize, i32)>>,
        Ghost(log0): Ghost<Seq<(Seq<(usize, i32)>, int)>>,
        Ghost(s0): Ghost<PrioritySchedulerStatsChirho>,
    )
        requires
            old(self).queue_spec_chirho().len() > 0,
            Self::counters_have_room_chirho(old(self).stats_spec_chirho(), old(self).queue_spec_chirho().len() as int),
            log0.len() <= old(self).run_log_spec_chirho().len(),
            old(self).run_log_spec_chirho().take(log0.len() as int) == log0,
            priority_trace_chirho(q0, old(self).run_log_spec_chirho().skip(log0.len() as int), old(self).queue_spec_chirho()),
            counted_runs_chirho(s0, old(self).run_log_spec_chirho().skip(log0.len() as int), old(self).stats_spec_chirho()),
        ensures
            log0.len() <= final(self).run_log_spec_chirho().len(),
            final(self).run_log_spec_chirho().len() == old(self).run_log_spec_chirho().len() + 1,
            final(self).run_log_spec_chirho().take(log0.len() as int) == log0,
            priority_trace_chirho(q0, final(self).run_log_spec_chirho().skip(log0.len() as int), final(self).queue_spec_chirho()),
            counted_runs_chirho(s0, final(self).run_log_spec_chirho().skip(log0.len() as int), final(self).stats_spec_chirho()),
            final(self).stats_spec_chirho().runs_chirho == old(self).stats_spec_chirho().runs_chirho + 1,
            final(self).stats_spec_chirho().iterations_chirho == old(self).stats_spec_chirho().iterations_chirho,
            final(self).stats_spec_chirho().max_queue_size_chirho >= old(self).stats_spec_chirho().max_queue_size_chirho,
    {
        let ghost qb = self.queue_spec_chirho();
        let ghost lb = self.run_log_spec_chirho();
        let ghost sb = self.stats_spec_chirho();
        proof {
            lemma_count_kind_len_chirho(self.queue_chirho@, 0);
            lemma_count_kind_len_chirho(self.queue_chirho@, 1);
            lemma_count_kind_len_chirho(self.queue_chirho@, 2);
        }
        let next = self.next_propagator_chirho();
        let ghost i = choose|i: int| {
            &&& 0 <= i < qb.len()
            &&& next == Some(qb[i].0)
            &&& forall|j: int| 0 <= j < qb.len() ==> #[trigger] qb[j].1 <= qb[i].1
            &&& forall|j: int| 0 <= j < i ==> #[trigger] qb[j].1 < qb[i].1
            &&& self.queue_spec_chirho() == qb.remove(i)
            &&& self.stats_spec_chirho() == stats_after_run_chirho(sb, qb[i].1)
            &&& self.run_log_spec_chirho() == lb.push((qb, i))
        };
        let id_chirho = next.unwrap();
        let ghost q1 = self.queue_spec_chirho();
        runner_chirho.run_prioritized_chirho(id_chirho, self);
        proof {
            let q2 = self.queue_spec_chirho();
            assert(grew_from_chirho(q1, q2));
            lemma_trace_step_chirho(q0, lb.skip(log0.len() as int), qb, i, q2);
            assert(self.run_log_spec_chirho().skip(log0.len() as int) =~= lb.skip(log0.len() as int).push((qb, i)));
            assert(self.run_log_spec_chirho().take(log0.len() as int) =~= lb.take(log0.len() as int));
            lemma_counted_step_chirho(s0, lb.skip(log0.len() as int), sb, qb, i, self.stats_spec_chirho());
        }
    }

    /// Runs at most `max_steps` queued propagators, highest priority first,
    /// through `runner`. Returns `true` exactly when the queue is then empty,
    /// and `false` when the limit was hit first or the run counters had no
    /// room for the queued propagators.
    pub fn run_bounded_chirho<R: PriorityRunnerChirho>(&mut self, max_steps_chirho: usize, runner_chirho: &mut R) -> (r: bool)
        requires
            old(self).stats_spec_chirho().iterations_chirho < usize::MAX,
        ensures
            r == (final(self).queue_spec_chirho().len() == 0),
            old(self).run_log_spec_chirho().len() <= final(self).run_log_spec_chirho().len()
                <= old(self).run_log_spec_chirho().len() + max_steps_chirho,
            final(self).run_log_spec_chirho().take(old(self).run_log_spec_chirho().len() as int) == old(self).run_log_spec_chirho(),
            priority_trace_chirho(
                old(self).queue_spec_chirho(),
                final(self).run_log_spec_chirho().skip(old(self).run_log_spec_chirho().len() as int),
                final(self).queue_spec_chirho(),
            ),
            counted_runs_chirho(
                old(self).stats_spec_chirho(),
                final(self).run_log_spec_chirho().skip(old(self).run_log_spec_chirho().len() as int),
                final(self).stats_spec_chirho(),
            ),
            final(self).stats_spec_chirho().iterations_chirho == old(self).stats_spec_chirho().iterations_chirho + 1,
            !r ==> final(self).run_log_spec_chirho().len() == old(self).run_log_spec_chirho().len() + max_steps_chirho
                || !Self::counters_have_room_chirho(final(self).stats_spec_chirho(), final(self).queue_spec_chirho().len() as int),
            old(self).queue_spec_chirho().len() == 0 ==> r
                && final(self).run_log_spec_chirho() == old(self).run_log_spec_chirho()
                && final(self).stats_spec_chirho() == (PrioritySchedulerStatsChirho {
                    iterations_chirho: (old(self).stats_spec_chirho().iterations_chirho + 1) as usize,
                    ..old(self).stats_spec_chirho()
                }),
    {
        self.stats_chirho.iterations_chirho = self.stats_chirho.iterations_chirho + 1;
        let ghost q0 = old(self).queue_spec_chirho();
        let ghost log0 = old(self).run_log_spec_chirho();
        let ghost s0 = old(self).stats_spec_chirho();
        proof {
            lemma_trace_start_chirho(self.run_log_spec_chirho(), q0, s0, self.stats_spec_chirho());
        }
        let mut step_chirho: usize = 0;
        while step_chirho < max_steps_chirho
            invariant
                step_chirho <= max_steps_chirho,
                q0 == old(self).queue_spec_chirho(),
                log0 == old(self).run_log_spec_chirho(),
                s0 == old(self).stats_spec_chirho(),
                self.run_log_spec_chirho().len() == log0.len() + step_chirho,
                self.run_log_spec_chirho().take(log0.len() as int) == log0,
                priority_trace_chirho(q0, self.run_log_spec_chirho().skip(log0.len() as int), self.queue_spec_chirho()),
                counted_runs_chirho(s0, self.run_log_spec_chirho().skip(log0.len() as int), self.stats_spec_chirho()),
                self.stats_spec_chirho().iterations_chirho == s0.iterations_chirho + 1,
                q0.len() == 0 ==> step_chirho == 0,
                step_chirho == 0 ==> self.queue_spec_chirho() == q0 && self.run_log_spec_chirho() == log0
                    && self.stats_spec_chirho() == (PrioritySchedulerStatsChirho {
                        iterations_chirho: (s0.iterations_chirho + 1) as usize,
                        ..s0
                    }),
            decreases max_steps_chirho - step_chirho,
        {
            if self.queue_chirho.len() == 0 {
                return true;
            }
            if !self.has_room_chirho() {
                return false;
            }
            self.step_chirho(runner_chirho, Ghost(q0), Ghost(log0), Ghost(s0));
            step_chirho = step_chirho + 1;
        }
        self.queue_chirho.len() == 0
    }

    /// Returns the current queue size.
    pub fn queue_size_chirho(&self) -> (r: usize)
        ensures
            r == self.queue_spec_chirho().len(),
    {
        self.queue_chirho.len()
    }

    /// The text of the scheduler: its queue size and statistics.
    pub fn to_text_chirho(&self) -> (r: String)
        ensures
            r@ == priority_text_chirho(self.queue_spec_chirho().len(), self.stats_spec_chirho()),
    {
        let mut r = String::new();
        push_str_chirho(&mut r, "PriorityScheduler { ");
        push_field_chirho(&mut r, "queue_size", self.queue_chirho.len() as u64);
        push_str_chirho(&mut r, ", stats: ");
        push_priority_stats_chirho(&mut r, &self.stats_chirho);
        push_str_chirho(&mut r, " }");
        assert(r@ =~= priority_text_chirho(self.queue_spec_chirho().len(), self.stats_spec_chirho()));
        r
    }

    /// Returns `true` if the queue is empty.
    pub fn is_quiescent_chirho(&self) -> (r: bool)
        ensures
            r == (self.queue_spec_chirho().len() == 0),
    {
        self.queue_chirho.len() == 0
    }

    /// Returns execution statistics.
    pub fn stats_chirho(&self) -> (r: PrioritySchedulerStatsChirho)
        ensures
            r == self.stats_spec_chirho(),
    {
        self.stats_chirho.clone()
    }

    /// Resets execution statistics.
    pub fn reset_stats_chirho(&mut self)
        ensures
            final(self).stats_spec_chirho() == zero_priority_stats_chirho(),
            final(self).queue_spec_chirho() == old(self).queue_spec_chirho(),
            final(self).run_log_spec_chirho() == old(self).run_log_spec_chirho(),
    {
        self.stats_chirho = PrioritySchedulerStatsChirho::default();
    }

    /// Clears the queue without running propagators.
    pub fn clear_chirho(&mut self)
        ensures
            final(self).queue_spec_chirho().len() == 0,
            final(self).stats_spec_chirho() == old(self).stats_spec_chirho(),
            final(self).run_log_spec_chirho() == old(self).run_log_spec_chirho(),
    {
        self.queue_chirho = Vec::new();
    }
}

impl Default for PrioritySchedulerChirho {
    fn default() -> (r: Self)
        ensures
            r.queue_spec_chirho().len() == 0,
            r.stats_spec_chirho() == zero_priority_stats_chirho(),
            r.run_log_spec_chirho().len() == 0,
    {
        Self::new_chirho()
    }
}

} // verus!

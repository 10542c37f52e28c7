//! Propagators as schedulers see them.

use vstd::prelude::*;

use crate::scheduler_chirho::{PrioritySchedulerChirho, SchedulerChirho};

verus! {

/// A propagator that can be alerted and run.
///
/// Running a propagator reads its input cells and adds information to its
/// output cells, alerting the scheduler of the propagators that read them.
pub trait PropagatorChirho {
    /// The number that identifies this propagator.
    spec fn spec_id_chirho(&self) -> usize;

    /// A number that identifies this propagator.
    fn id_chirho(&self) -> (r: usize)
        ensures
            r == self.spec_id_chirho(),
    ;

    /// The priority of this propagator: higher runs first.
    fn priority_chirho(&self) -> (r: i32)
        default_ensures
            r == 0,
    {
        0
    }

    /// Runs the propagator once.
    fn run_chirho(&self, scheduler_chirho: &mut SchedulerChirho);
}

/// Runs the propagator with a given identifier when a scheduler picks it.
///
/// A scheduler keeps identifiers; whoever holds the propagators themselves
/// runs them through this trait.
///
/// A propagator only alerts others: what is queued stays queued, in order,
/// with alerts added at the end, and the run counters and the log of runs
/// are left alone.
pub trait PropagatorRunnerChirho {
    /// Runs the propagator `id_chirho`, which may alert others on `scheduler_chirho`.
    fn run_propagator_chirho(&mut self, id_chirho: usize, scheduler_chirho: &mut SchedulerChirho)
        ensures
            old(scheduler_chirho).queue_spec_chirho().len() <= final(scheduler_chirho).queue_spec_chirho().len(),
            final(scheduler_chirho).queue_spec_chirho().take(old(scheduler_chirho).queue_spec_chirho().len() as int)
                == old(scheduler_chirho).queue_spec_chirho(),
            final(scheduler_chirho).stats_spec_chirho().runs_chirho == old(scheduler_chirho).stats_spec_chirho().runs_chirho,
            final(scheduler_chirho).stats_spec_chirho().iterations_chirho
                == old(scheduler_chirho).stats_spec_chirho().iterations_chirho,
            final(scheduler_chirho).stats_spec_chirho().max_queue_size_chirho
                >= old(scheduler_chirho).stats_spec_chirho().max_queue_size_chirho,
            final(scheduler_chirho).run_log_spec_chirho() == old(scheduler_chirho).run_log_spec_chirho(),
    ;
}

/// Runs the propagator with a given identifier when a priority scheduler
/// picks it; the propagator alerts others on that scheduler, with their
/// priorities.
///
/// A propagator only alerts others: what is queued stays queued, in order,
/// with alerts added at the end, and the run counters and the log of runs
/// are left alone.
pub trait PriorityRunnerChirho {
    /// Runs the propagator `id_chirho`, which may alert others on `scheduler_chirho`.
    fn run_prioritized_chirho(&mut self, id_chirho: usize, scheduler_chirho: &mut PrioritySchedulerChirho)
        ensures
            old(scheduler_chirho).queue_spec_chirho().len() <= final(scheduler_chirho).queue_spec_chirho().len(),
            final(scheduler_chirho).queue_spec_chirho().take(old(scheduler_chirho).queue_spec_chirho().len() as int)
                == old(scheduler_chirho).queue_spec_chirho(),
            final(scheduler_chirho).stats_spec_chirho().runs_chirho == old(scheduler_chirho).stats_spec_chirho().runs_chirho,
            final(scheduler_chirho).stats_spec_chirho().high_priority_runs_chirho
                == old(scheduler_chirho).stats_spec_chirho().high_priority_runs_chirho,
            final(scheduler_chirho).stats_spec_chirho().normal_priority_runs_chirho
                == old(scheduler_chirho).stats_spec_chirho().normal_priority_runs_chirho,
            final(scheduler_chirho).stats_spec_chirho().low_priority_runs_chirho
                == old(scheduler_chirho).stats_spec_chirho().low_priority_runs_chirho,
            final(scheduler_chirho).stats_spec_chirho().iterations_chirho
                == old(scheduler_chirho).stats_spec_chirho().iterations_chirho,
            final(scheduler_chirho).stats_spec_chirho().max_queue_size_chirho
                >= old(scheduler_chirho).stats_spec_chirho().max_queue_size_chirho,
            final(scheduler_chirho).run_log_spec_chirho() == old(scheduler_chirho).run_log_spec_chirho(),
    ;
}

/// A runner that knows no propagators: running one does nothing.
pub struct NoPropagatorsChirho;

impl PropagatorRunnerChirho for NoPropagatorsChirho {
    fn run_propagator_chirho(&mut self, id_chirho: usize, scheduler_chirho: &mut SchedulerChirho) {
        assert(scheduler_chirho.queue_spec_chirho().take(scheduler_chirho.queue_spec_chirho().len() as int)
            =~= scheduler_chirho.queue_spec_chirho());
    }
}

impl PriorityRunnerChirho for NoPropagatorsChirho {
    fn run_prioritized_chirho(&mut self, id_chirho: usize, scheduler_chirho: &mut PrioritySchedulerChirho) {
        assert(scheduler_chirho.queue_spec_chirho().take(scheduler_chirho.queue_spec_chirho().len() as int)
            =~= scheduler_chirho.queue_spec_chirho());
    }
}

} // verus!

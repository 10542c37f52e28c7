//! Tracing propagation, cell histories and network snapshots, with JSON
//! and DOT renderings.

use core::time::Duration;
use std::time::Instant;
use vstd::prelude::*;

pub use crate::text_chirho::escape_json_chirho;

use crate::text_chirho::{
    decimal_chirho, escape_json_spec_chirho, join_chirho, push_char_chirho, push_decimal_chirho,
    push_escaped_chirho, push_str_chirho,
};

verus! {

#[verifier::external_type_specification]
#[verifier::external_body]
pub struct ExInstantChirho(Instant);

/// The current time, from `Instant::now`. Nothing is promised of it.
#[verifier::external_body]
fn now_chirho() -> Instant {
    Instant::now()
}

/// The time passed since `start`, from `Instant::elapsed`. It depends on the
/// clock: nothing is promised of it.
#[verifier::external_body]
fn elapsed_chirho(start: &Instant) -> Duration {
    start.elapsed()
}

/// The whole microseconds of a duration, from `Duration::as_micros`.
/// Nothing is stated of the value.
#[verifier::external_body]
fn as_micros_chirho(d: Duration) -> u128 {
    d.as_micros()
}

/// The microseconds since `start`, cut to 64 bits.
fn elapsed_micros_chirho(start: &Instant) -> u64 {
    let micros = as_micros_chirho(elapsed_chirho(start));
    #[verifier::truncate]
    (micros as u64)
}

/// A propagation event.
#[derive(Debug)]
pub enum TraceEventChirho {
    /// A cell's value changed.
    CellUpdateChirho {
        cell_name_chirho: String,
        new_value_chirho: String,
        source_propagator_chirho: Option<String>,
        timestamp_micros_chirho: u64,
    },
    /// A propagator ran.
    PropagatorRunChirho {
        propagator_name_chirho: String,
        inputs_chirho: Vec<String>,
        outputs_chirho: Vec<String>,
        timestamp_micros_chirho: u64,
    },
    /// A contradiction was found.
    ContradictionChirho {
        cell_name_chirho: String,
        description_chirho: String,
        timestamp_micros_chirho: u64,
    },
    /// Propagation reached a fixpoint.
    FixpointChirho {
        total_runs_chirho: usize,
        timestamp_micros_chirho: u64,
    },
}

/// `s` between double quotes.
pub open spec fn quoted_chirho(s: Seq<char>) -> Seq<char> {
    seq!['"'] + s + seq!['"']
}

/// The views of a sequence of strings.
pub open spec fn string_views_chirho(v: Seq<String>) -> Seq<Seq<char>> {
    v.map_values(|x: String| x@)
}

/// A JSON list of strings, each escaped and quoted, joined by ", ".
pub open spec fn quoted_list_chirho(v: Seq<Seq<char>>) -> Seq<char> {
    join_chirho(v.map_values(|x: Seq<char>| quoted_chirho(escape_json_spec_chirho(x))), ", "@)
}

/// The JSON object of one event.
pub open spec fn event_json_chirho(e: TraceEventChirho) -> Seq<char> {
    match e {
        TraceEventChirho::CellUpdateChirho { cell_name_chirho, new_value_chirho, source_propagator_chirho, timestamp_micros_chirho } => {
            "{\"type\": \"cell_update\", \"cell\": \""@ + escape_json_spec_chirho(cell_name_chirho@)
                + "\", \"value\": \""@ + escape_json_spec_chirho(new_value_chirho@) + "\", \"source\": "@
                + match source_propagator_chirho {
                    Some(s) => quoted_chirho(escape_json_spec_chirho(s@)),
                    None => "null"@,
                } + ", \"time_us\": "@ + decimal_chirho(timestamp_micros_chirho as nat) + seq!['}']
        },
        TraceEventChirho::PropagatorRunChirho { propagator_name_chirho, inputs_chirho, outputs_chirho, timestamp_micros_chirho } => {
            "{\"type\": \"propagator_run\", \"name\": \""@ + escape_json_spec_chirho(propagator_name_chirho@)
                + "\", \"inputs\": ["@ + quoted_list_chirho(string_views_chirho(inputs_chirho@))
                + "], \"outputs\": ["@ + quoted_list_chirho(string_views_chirho(outputs_chirho@))
                + "], \"time_us\": "@ + decimal_chirho(timestamp_micros_chirho as nat) + seq!['}']
        },
        TraceEventChirho::ContradictionChirho { cell_name_chirho, description_chirho, timestamp_micros_chirho } => {
            "{\"type\": \"contradiction\", \"cell\": \""@ + escape_json_spec_chirho(cell_name_chirho@)
                + "\", \"description\": \""@ + escape_json_spec_chirho(description_chirho@)
                + "\", \"time_us\": "@ + decimal_chirho(timestamp_micros_chirho as nat) + seq!['}']
        },
        TraceEventChirho::FixpointChirho { total_runs_chirho, timestamp_micros_chirho } => {
            "{\"type\": \"fixpoint\", \"total_runs\": "@ + decimal_chirho(total_runs_chirho as nat)
                + ", \"time_us\": "@ + decimal_chirho(timestamp_micros_chirho as nat) + seq!['}']
        },
    }
}

/// Joining one more part onto a join.
pub proof fn lemma_join_step_chirho(parts: Seq<Seq<char>>, sep: Seq<char>, i: int)
    requires
        0 <= i < parts.len(),
    ensures
        join_chirho(parts.take(i + 1), sep) == join_chirho(parts.take(i), sep) + (if i > 0 { sep } else { Seq::empty() }) + parts[i],
{
    assert(parts.take(i + 1).drop_last() =~= parts.take(i));
    if i == 0 {
        assert(join_chirho(parts.take(0), sep) =~= Seq::empty());
        assert(join_chirho(parts.take(1), sep) == parts[0]);
        assert(Seq::<char>::empty() + Seq::<char>::empty() + parts[0] =~= parts[0]);
    }
}

/// Appends the JSON list of the strings, each escaped and quoted.
fn push_quoted_list_chirho(s: &mut String, v: &Vec<String>)
    ensures
        final(s)@ == old(s)@ + quoted_list_chirho(string_views_chirho(v@)),
{
    let ghost start = s@;
    let ghost parts = string_views_chirho(v@).map_values(|x: Seq<char>| quoted_chirho(escape_json_spec_chirho(x)));
    let mut i: usize = 0;
    while i < v.len()
        invariant
            0 <= i <= v@.len(),
            parts == string_views_chirho(v@).map_values(|x: Seq<char>| quoted_chirho(escape_json_spec_chirho(x))),
            s@ == start + join_chirho(parts.take(i as int), ", "@),
        decreases v@.len() - i,
    {
        proof {
            lemma_join_step_chirho(parts, ", "@, i as int);
        }
        let ghost before = s@;
        if i > 0 {
            push_str_chirho(s, ", ");
        }
        push_char_chirho(s, '"');
        push_escaped_chirho(s, v[i].as_str());
        push_char_chirho(s, '"');
        proof {
            assert(parts[i as int] == quoted_chirho(escape_json_spec_chirho(v@[i as int]@)));
            if i > 0 {
                assert(s@ =~= before + ", "@ + parts[i as int]);
            } else {
                assert(s@ =~= before + Seq::<char>::empty() + parts[i as int]);
            }
        }
        i = i + 1;
    }
    assert(parts.take(v@.len() as int) =~= parts);
}

/// The JSON object of one event.
fn event_to_json_chirho(event_chirho: &TraceEventChirho) -> (r: String)
    ensures
        r@ == event_json_chirho(*event_chirho),
{
    let mut json_chirho = String::new();
    push_event_json_chirho(&mut json_chirho, event_chirho);
    assert(json_chirho@ =~= event_json_chirho(*event_chirho));
    json_chirho
}

/// Appends the JSON object of one event.
fn push_event_json_chirho(s: &mut String, e: &TraceEventChirho)
    ensures
        final(s)@ == old(s)@ + event_json_chirho(*e),
{
    let ghost start = s@;
    match e {
        TraceEventChirho::CellUpdateChirho { cell_name_chirho, new_value_chirho, source_propagator_chirho, timestamp_micros_chirho } => {
            push_str_chirho(s, "{\"type\": \"cell_update\", \"cell\": \"");
            push_escaped_chirho(s, cell_name_chirho.as_str());
            push_str_chirho(s, "\", \"value\": \"");
            push_escaped_chirho(s, new_value_chirho.as_str());
            push_str_chirho(s, "\", \"source\": ");
            match source_propagator_chirho {
                Some(src) => {
                    push_char_chirho(s, '"');
                    push_escaped_chirho(s, src.as_str());
                    push_char_chirho(s, '"');
                },
                None => {
                    push_str_chirho(s, "null");
                },
            }
            push_str_chirho(s, ", \"time_us\": ");
            push_decimal_chirho(s, *timestamp_micros_chirho);
            push_char_chirho(s, '}');
        },
        TraceEventChirho::PropagatorRunChirho { propagator_name_chirho, inputs_chirho, outputs_chirho, timestamp_micros_chirho } => {
            push_str_chirho(s, "{\"type\": \"propagator_run\", \"name\": \"");
            push_escaped_chirho(s, propagator_name_chirho.as_str());
            push_str_chirho(s, "\", \"inputs\": [");
            push_quoted_list_chirho(s, inputs_chirho);
            push_str_chirho(s, "], \"outputs\": [");
            push_quoted_list_chirho(s, outputs_chirho);
            push_str_chirho(s, "], \"time_us\": ");
            push_decimal_chirho(s, *timestamp_micros_chirho);
            push_char_chirho(s, '}');
        },
        TraceEventChirho::ContradictionChirho { cell_name_chirho, description_chirho, timestamp_micros_chirho } => {
            push_str_chirho(s, "{\"type\": \"contradiction\", \"cell\": \"");
            push_escaped_chirho(s, cell_name_chirho.as_str());
            push_str_chirho(s, "\", \"description\": \"");
            push_escaped_chirho(s, description_chirho.as_str());
            push_str_chirho(s, "\", \"time_us\": ");
            push_decimal_chirho(s, *timestamp_micros_chirho);
            push_char_chirho(s, '}');
        },
        TraceEventChirho::FixpointChirho { total_runs_chirho, timestamp_micros_chirho } => {
            push_str_chirho(s, "{\"type\": \"fixpoint\", \"total_runs\": ");
            push_decimal_chirho(s, *total_runs_chirho as u64);
            push_str_chirho(s, ", \"time_us\": ");
            push_decimal_chirho(s, *timestamp_micros_chirho);
            push_char_chirho(s, '}');
        },
    }
    assert(s@ =~= start + event_json_chirho(*e));
}

/// Whether `e` records a cell update with the given cell, value and source
/// (no source when it is empty).
pub open spec fn is_cell_update_chirho(e: TraceEventChirho, cell: Seq<char>, value: Seq<char>, source: Seq<char>) -> bool {
    match e {
        TraceEventChirho::CellUpdateChirho { cell_name_chirho, new_value_chirho, source_propagator_chirho, .. } => {
            &&& cell_name_chirho@ == cell
            &&& new_value_chirho@ == value
            &&& if source.len() == 0 {
                source_propagator_chirho is None
            } else {
                source_propagator_chirho matches Some(s) && s@ == source
            }
        },
        _ => false,
    }
}

/// Whether `e` records a run of the named propagator with the given inputs and outputs.
pub open spec fn is_propagator_run_chirho(e: TraceEventChirho, name: Seq<char>, inputs: Seq<Seq<char>>, outputs: Seq<Seq<char>>) -> bool {
    match e {
        TraceEventChirho::PropagatorRunChirho { propagator_name_chirho, inputs_chirho, outputs_chirho, .. } => {
            &&& propagator_name_chirho@ == name
            &&& string_views_chirho(inputs_chirho@) == inputs
            &&& string_views_chirho(outputs_chirho@) == outputs
        },
        _ => false,
    }
}

/// Whether `e` records a contradiction in the given cell with the given description.
pub open spec fn is_contradiction_chirho(e: TraceEventChirho, cell: Seq<char>, description: Seq<char>) -> bool {
    match e {
        TraceEventChirho::ContradictionChirho { cell_name_chirho, description_chirho, .. } => {
            cell_name_chirho@ == cell && description_chirho@ == description
        },
        _ => false,
    }
}

/// Whether `e` records a fixpoint after the given number of runs.
pub open spec fn is_fixpoint_chirho(e: TraceEventChirho, total_runs: usize) -> bool {
    match e {
        TraceEventChirho::FixpointChirho { total_runs_chirho, .. } => total_runs_chirho == total_runs,
        _ => false,
    }
}

/// `old` with one more event that satisfies `p`, unless `old` already holds
/// `max` events (then unchanged).
pub open spec fn recorded_chirho(old: Seq<TraceEventChirho>, new: Seq<TraceEventChirho>, max: usize, p: spec_fn(TraceEventChirho) -> bool) -> bool {
    if old.len() >= max {
        new == old
    } else {
        new.len() == old.len() + 1 && new.take(old.len() as int) == old && p(new.last())
    }
}

/// The views of a sequence of string slices.
pub open spec fn str_views_chirho(v: Seq<&str>) -> Seq<Seq<char>> {
    v.map_values(|x: &str| x@)
}

/// Owned copies of string slices.
fn to_strings_chirho(v: &Vec<&str>) -> (r: Vec<String>)
    ensures
        string_views_chirho(r@) == str_views_chirho(v@),
{
    let mut r: Vec<String> = Vec::new();
    let mut i: usize = 0;
    while i < v.len()
        invariant
            0 <= i <= v@.len(),
            r@.len() == i,
            string_views_chirho(r@) == str_views_chirho(v@).take(i as int),
        decreases v@.len() - i,
    {
        let x: &str = v[i];
        let ghost prev = r@;
        r.push(<String as vstd::string::StringExecFns>::from_str(x));
        proof {
            assert(r@[i as int]@ == v@[i as int]@);
            assert forall|j: int| 0 <= j < i implies r@[j]@ == v@[j]@ by {
                assert(r@[j] == prev[j]);
                assert(string_views_chirho(prev)[j] == str_views_chirho(v@).take(i as int)[j]);
            }
        }
        i = i + 1;
        assert(string_views_chirho(r@) =~= str_views_chirho(v@).take(i as int));
    }
    assert(str_views_chirho(v@).take(v@.len() as int) =~= str_views_chirho(v@));
    r
}

/// How many events of a kind are among the first `k`: cell updates (0),
/// propagator runs (1), contradictions (2) or fixpoints (3).
pub open spec fn count_events_chirho(events: Seq<TraceEventChirho>, kind: int, k: nat) -> nat
    decreases k,
{
    if k == 0 {
        0
    } else {
        count_events_chirho(events, kind, (k - 1) as nat) + if event_kind_chirho(events[k - 1]) == kind { 1nat } else { 0nat }
    }
}

/// The kind of an event: cell update 0, propagator run 1, contradiction 2, fixpoint 3.
pub open spec fn event_kind_chirho(e: TraceEventChirho) -> int {
    match e {
        TraceEventChirho::CellUpdateChirho { .. } => 0,
        TraceEventChirho::PropagatorRunChirho { .. } => 1,
        TraceEventChirho::ContradictionChirho { .. } => 2,
        TraceEventChirho::FixpointChirho { .. } => 3,
    }
}

/// The JSON rendering of a trace whose duration is `duration` microseconds.
pub open spec fn trace_json_chirho(events: Seq<TraceEventChirho>, duration: u64) -> Seq<char> {
    "{\n  \"events\": [\n"@
        + join_chirho(events.map_values(|e: TraceEventChirho| "    "@ + event_json_chirho(e)), ",\n"@)
        + "\n  ],\n"@ + "  \"total_events\": "@ + decimal_chirho(events.len()) + ",\n"@
        + "  \"duration_us\": "@ + decimal_chirho(duration as nat) + "\n"@ + seq!['}']
}

/// A record of propagation events, up to a limit.
pub struct PropagationTraceChirho {
    events_chirho: Vec<TraceEventChirho>,
    start_time_chirho: Instant,
    max_events_chirho: usize,
}

/// Statistics about a trace.
pub struct TraceStatsChirho {
    /// Number of cell updates.
    pub cell_updates_chirho: usize,
    /// Number of propagator runs.
    pub propagator_runs_chirho: usize,
    /// Number of contradictions.
    pub contradictions_chirho: usize,
    /// Total number of events.
    pub total_events_chirho: usize,
    /// Time since the trace started.
    pub duration_chirho: Duration,
}

impl PropagationTraceChirho {
    /// The recorded events, oldest first.
    pub closed spec fn events_spec_chirho(&self) -> Seq<TraceEventChirho> {
        self.events_chirho@
    }

    /// The most events kept.
    pub closed spec fn max_events_spec_chirho(&self) -> usize {
        self.max_events_chirho
    }

    /// Creates a trace that keeps up to 100000 events.
    pub fn new_chirho() -> (r: Self)
        ensures
            r.events_spec_chirho().len() == 0,
            r.max_events_spec_chirho() == 100_000,
    {
        Self::with_limit_chirho(100_000)
    }

    /// Creates a trace that keeps up to `max_events` events.
    pub fn with_limit_chirho(max_events_chirho: usize) -> (r: Self)
        ensures
            r.events_spec_chirho().len() == 0,
            r.max_events_spec_chirho() == max_events_chirho,
    {
        PropagationTraceChirho { events_chirho: Vec::new(), start_time_chirho: now_chirho(), max_events_chirho }
    }

    /// Records a cell update (an empty source means none), unless the trace is full.
    pub fn record_cell_update_chirho(&mut self, cell_name_chirho: &str, new_value_chirho: &str, source_propagator_chirho: &str)
        ensures
            recorded_chirho(
                old(self).events_spec_chirho(),
                final(self).events_spec_chirho(),
                old(self).max_events_spec_chirho(),
                |e: TraceEventChirho| is_cell_update_chirho(e, cell_name_chirho@, new_value_chirho@, source_propagator_chirho@),
            ),
            final(self).max_events_spec_chirho() == old(self).max_events_spec_chirho(),
    {
        if self.events_chirho.len() >= self.max_events_chirho {
            return;
        }
        let source = if source_propagator_chirho.is_empty() {
            None
        } else {
            Some(<String as vstd::string::StringExecFns>::from_str(source_propagator_chirho))
        };
        let timestamp_micros_chirho = elapsed_micros_chirho(&self.start_time_chirho);
        self.events_chirho.push(TraceEventChirho::CellUpdateChirho {
            cell_name_chirho: <String as vstd::string::StringExecFns>::from_str(cell_name_chirho),
            new_value_chirho: <String as vstd::string::StringExecFns>::from_str(new_value_chirho),
            source_propagator_chirho: source,
            timestamp_micros_chirho,
        });
        assert(self.events_chirho@.take(old(self).events_chirho@.len() as int) =~= old(self).events_chirho@);
    }

    /// Records a propagator run, unless the trace is full.
    pub fn record_propagator_run_chirho(&mut self, propagator_name_chirho: &str, inputs_chirho: Vec<&str>, outputs_chirho: Vec<&str>)
        ensures
            recorded_chirho(
                old(self).events_spec_chirho(),
                final(self).events_spec_chirho(),
                old(self).max_events_spec_chirho(),
                |e: TraceEventChirho| is_propagator_run_chirho(e, propagator_name_chirho@, str_views_chirho(inputs_chirho@), str_views_chirho(outputs_chirho@)),
            ),
            final(self).max_events_spec_chirho() == old(self).max_events_spec_chirho(),
    {
        if self.events_chirho.len() >= self.max_events_chirho {
            return;
        }
        let inputs = to_strings_chirho(&inputs_chirho);
        let outputs = to_strings_chirho(&outputs_chirho);
        let timestamp_micros_chirho = elapsed_micros_chirho(&self.start_time_chirho);
        self.events_chirho.push(TraceEventChirho::PropagatorRunChirho {
            propagator_name_chirho: <String as vstd::string::StringExecFns>::from_str(propagator_name_chirho),
            inputs_chirho: inputs,
            outputs_chirho: outputs,
            timestamp_micros_chirho,
        });
        assert(self.events_chirho@.take(old(self).events_chirho@.len() as int) =~= old(self).events_chirho@);
    }

    /// Records a contradiction, unless the trace is full.
    pub fn record_contradiction_chirho(&mut self, cell_name_chirho: &str, description_chirho: &str)
        ensures
            recorded_chirho(
                old(self).events_spec_chirho(),
                final(self).events_spec_chirho(),
                old(self).max_events_spec_chirho(),
                |e: TraceEventChirho| is_contradiction_chirho(e, cell_name_chirho@, description_chirho@),
            ),
            final(self).max_events_spec_chirho() == old(self).max_events_spec_chirho(),
    {
        if self.events_chirho.len() >= self.max_events_chirho {
            return;
        }
        let timestamp_micros_chirho = elapsed_micros_chirho(&self.start_time_chirho);
        self.events_chirho.push(TraceEventChirho::ContradictionChirho {
            cell_name_chirho: <String as vstd::string::StringExecFns>::from_str(cell_name_chirho),
            description_chirho: <String as vstd::string::StringExecFns>::from_str(description_chirho),
            timestamp_micros_chirho,
        });
        assert(self.events_chirho@.take(old(self).events_chirho@.len() as int) =~= old(self).events_chirho@);
    }

    /// Records that a fixpoint was reached, unless the trace is full.
    pub fn record_fixpoint_chirho(&mut self, total_runs_chirho: usize)
        ensures
            recorded_chirho(
                old(self).events_spec_chirho(),
                final(self).events_spec_chirho(),
                old(self).max_events_spec_chirho(),
                |e: TraceEventChirho| is_fixpoint_chirho(e, total_runs_chirho),
            ),
            final(self).max_events_spec_chirho() == old(self).max_events_spec_chirho(),
    {
        if self.events_chirho.len() >= self.max_events_chirho {
            return;
        }
        let timestamp_micros_chirho = elapsed_micros_chirho(&self.start_time_chirho);
        self.events_chirho.push(TraceEventChirho::FixpointChirho { total_runs_chirho, timestamp_micros_chirho });
        assert(self.events_chirho@.take(old(self).events_chirho@.len() as int) =~= old(self).events_chirho@);
    }

    /// Returns the recorded events.
    pub fn events_chirho(&self) -> (r: &[TraceEventChirho])
        ensures
            r@ == self.events_spec_chirho(),
    {
        self.events_chirho.as_slice()
    }

    /// Returns the number of recorded events.
    pub fn event_count_chirho(&self) -> (r: usize)
        ensures
            r == self.events_spec_chirho().len(),
    {
        self.events_chirho.len()
    }

    /// Forgets all events and restarts the clock.
    pub fn clear_chirho(&mut self)
        ensures
            final(self).events_spec_chirho().len() == 0,
            final(self).max_events_spec_chirho() == old(self).max_events_spec_chirho(),
    {
        self.events_chirho = Vec::new();
        self.start_time_chirho = now_chirho();
    }

    /// Renders the trace as JSON.
    pub fn to_json_chirho(&self) -> (r: String)
        ensures
            exists|duration: u64| r@ == #[trigger] trace_json_chirho(self.events_spec_chirho(), duration),
    {
        let mut json_chirho = String::new();
        push_str_chirho(&mut json_chirho, "{\n  \"events\": [\n");
        let ghost start = json_chirho@;
        let ghost parts = self.events_chirho@.map_values(|e: TraceEventChirho| "    "@ + event_json_chirho(e));
        let mut i: usize = 0;
        while i < self.events_chirho.len()
            invariant
                0 <= i <= self.events_chirho@.len(),
                parts == self.events_chirho@.map_values(|e: TraceEventChirho| "    "@ + event_json_chirho(e)),
                json_chirho@ == start + join_chirho(parts.take(i as int), ",\n"@),
            decreases self.events_chirho@.len() - i,
        {
            proof {
                lemma_join_step_chirho(parts, ",\n"@, i as int);
            }
            let ghost before = json_chirho@;
            if i > 0 {
                push_str_chirho(&mut json_chirho, ",\n");
            }
            push_str_chirho(&mut json_chirho, "    ");
            let event_json = event_to_json_chirho(&self.events_chirho[i]);
            push_str_chirho(&mut json_chirho, event_json.as_str());
            proof {
                if i > 0 {
                    assert(json_chirho@ =~= before + ",\n"@ + parts[i as int]);
                } else {
                    assert(json_chirho@ =~= before + Seq::<char>::empty() + parts[i as int]);
                }
            }
            i = i + 1;
        }
        assert(parts.take(self.events_chirho@.len() as int) =~= parts);
        push_str_chirho(&mut json_chirho, "\n  ],\n");
        push_str_chirho(&mut json_chirho, "  \"total_events\": ");
        push_decimal_chirho(&mut json_chirho, self.events_chirho.len() as u64);
        push_str_chirho(&mut json_chirho, ",\n");
        let duration = elapsed_micros_chirho(&self.start_time_chirho);
        push_str_chirho(&mut json_chirho, "  \"duration_us\": ");
        push_decimal_chirho(&mut json_chirho, duration);
        push_str_chirho(&mut json_chirho, "\n");
        push_char_chirho(&mut json_chirho, '}');
        assert(json_chirho@ =~= trace_json_chirho(self.events_spec_chirho(), duration));
        json_chirho
    }

    /// Counts the events by kind.
    pub fn stats_chirho(&self) -> (r: TraceStatsChirho)
        ensures
            r.cell_updates_chirho == count_events_chirho(self.events_spec_chirho(), 0, self.events_spec_chirho().len()),
            r.propagator_runs_chirho == count_events_chirho(self.events_spec_chirho(), 1, self.events_spec_chirho().len()),
            r.contradictions_chirho == count_events_chirho(self.events_spec_chirho(), 2, self.events_spec_chirho().len()),
            r.total_events_chirho == self.events_spec_chirho().len(),
    {
        let ghost ev = self.events_chirho@;
        let mut cell_updates_chirho: usize = 0;
        let mut propagator_runs_chirho: usize = 0;
        let mut contradictions_chirho: usize = 0;
        let mut i: usize = 0;
        while i < self.events_chirho.len()
            invariant
                0 <= i <= ev.len(),
                ev == self.events_chirho@,
                cell_updates_chirho == count_events_chirho(ev, 0, i as nat),
                propagator_runs_chirho == count_events_chirho(ev, 1, i as nat),
                contradictions_chirho == count_events_chirho(ev, 2, i as nat),
                cell_updates_chirho + propagator_runs_chirho + contradictions_chirho <= i,
            decreases ev.len() - i,
        {
            match &self.events_chirho[i] {
                TraceEventChirho::CellUpdateChirho { .. } => {
                    cell_updates_chirho = cell_updates_chirho + 1;
                },
                TraceEventChirho::PropagatorRunChirho { .. } => {
                    propagator_runs_chirho = propagator_runs_chirho + 1;
                },
                TraceEventChirho::ContradictionChirho { .. } => {
                    contradictions_chirho = contradictions_chirho + 1;
                },
                TraceEventChirho::FixpointChirho { .. } => {},
            }
            i = i + 1;
        }
        TraceStatsChirho {
            cell_updates_chirho,
            propagator_runs_chirho,
            contradictions_chirho,
            total_events_chirho: self.events_chirho.len(),
            duration_chirho: elapsed_chirho(&self.start_time_chirho),
        }
    }
}

impl Default for PropagationTraceChirho {
    fn default() -> (r: Self)
        ensures
            r.events_spec_chirho().len() == 0,
            r.max_events_spec_chirho() == 100_000,
    {
        Self::new_chirho()
    }
}

/// The JSON object of one history entry.
pub open spec fn history_entry_json_chirho(e: (u64, Seq<char>)) -> Seq<char> {
    "{\"time_us\": "@ + decimal_chirho(e.0 as nat) + ", \"value\": \""@ + escape_json_spec_chirho(e.1) + "\"}"@
}

/// The JSON rendering of a cell's history.
pub open spec fn history_json_chirho(name: Seq<char>, history: Seq<(u64, Seq<char>)>) -> Seq<char> {
    "{\"cell\": \""@ + escape_json_spec_chirho(name) + "\", \"history\": ["@
        + join_chirho(history.map_values(|e: (u64, Seq<char>)| history_entry_json_chirho(e)), ", "@) + "]}"@
}

/// The history after recording value `v` at time `t`: the oldest entry
/// goes first when `max` entries are kept already.
pub open spec fn history_after_chirho(h: Seq<(u64, Seq<char>)>, max: usize, t: u64, v: Seq<char>) -> Seq<(u64, Seq<char>)> {
    (if h.len() >= max && h.len() > 0 { h.remove(0) } else { h }).push((t, v))
}

/// The values a cell took over time.
pub struct CellHistoryChirho {
    cell_name_chirho: String,
    history_chirho: Vec<(u64, String)>,
    max_entries_chirho: usize,
    start_time_chirho: Instant,
}

impl CellHistoryChirho {
    /// The cell's name.
    pub closed spec fn name_spec_chirho(&self) -> Seq<char> {
        self.cell_name_chirho@
    }

    /// The recorded values with their times, oldest first.
    pub closed spec fn history_spec_chirho(&self) -> Seq<(u64, Seq<char>)> {
        self.history_chirho@.map_values(|e: (u64, String)| (e.0, e.1@))
    }

    /// The most entries kept.
    pub closed spec fn max_entries_spec_chirho(&self) -> usize {
        self.max_entries_chirho
    }

    /// Creates an empty history for a cell that keeps up to 1000 entries.
    pub fn new_chirho(cell_name_chirho: &str) -> (r: Self)
        ensures
            r.name_spec_chirho() == cell_name_chirho@,
            r.history_spec_chirho().len() == 0,
            r.max_entries_spec_chirho() == 1000,
    {
        let r = CellHistoryChirho {
            cell_name_chirho: <String as vstd::string::StringExecFns>::from_str(cell_name_chirho),
            history_chirho: Vec::new(),
            max_entries_chirho: 1000,
            start_time_chirho: now_chirho(),
        };
        assert(r.history_spec_chirho() =~= Seq::empty());
        r
    }

    /// Records a new value, dropping the oldest when the history is full.
    pub fn record_value_chirho(&mut self, value_chirho: &str)
        ensures
            exists|t: u64| final(self).history_spec_chirho() == #[trigger] history_after_chirho(
                old(self).history_spec_chirho(),
                old(self).max_entries_spec_chirho(),
                t,
                value_chirho@,
            ),
            final(self).name_spec_chirho() == old(self).name_spec_chirho(),
            final(self).max_entries_spec_chirho() == old(self).max_entries_spec_chirho(),
    {
        if self.history_chirho.len() >= self.max_entries_chirho && self.history_chirho.len() > 0 {
            self.history_chirho.remove(0);
        }
        let ghost mid = self.history_chirho@;
        let timestamp_chirho = elapsed_micros_chirho(&self.start_time_chirho);
        self.history_chirho.push((timestamp_chirho, <String as vstd::string::StringExecFns>::from_str(value_chirho)));
        proof {
            let h = old(self).history_spec_chirho();
            let base = if h.len() >= old(self).max_entries_chirho && h.len() > 0 { h.remove(0) } else { h };
            assert(mid.map_values(|e: (u64, String)| (e.0, e.1@)) =~= base);
            assert(self.history_spec_chirho() =~= history_after_chirho(h, old(self).max_entries_spec_chirho(), timestamp_chirho, value_chirho@));
        }
    }

    /// Returns the cell's name.
    pub fn cell_name_chirho(&self) -> (r: &str)
        ensures
            r@ == self.name_spec_chirho(),
    {
        self.cell_name_chirho.as_str()
    }

    /// Returns the history: time in microseconds and value, oldest first.
    pub fn history_chirho(&self) -> (r: &[(u64, String)])
        ensures
            r@.map_values(|e: (u64, String)| (e.0, e.1@)) == self.history_spec_chirho(),
    {
        self.history_chirho.as_slice()
    }

    /// Returns the most recent value, if any.
    pub fn current_value_chirho(&self) -> (r: Option<&str>)
        ensures
            self.history_spec_chirho().len() == 0 ==> r is None,
            self.history_spec_chirho().len() > 0 ==> (r matches Some(v) && v@ == self.history_spec_chirho().last().1),
    {
        let n = self.history_chirho.len();
        if n == 0 {
            None
        } else {
            Some(self.history_chirho[n - 1].1.as_str())
        }
    }

    /// Returns the number of recorded values.
    pub fn change_count_chirho(&self) -> (r: usize)
        ensures
            r == self.history_spec_chirho().len(),
    {
        self.history_chirho.len()
    }

    /// Renders the history as JSON.
    pub fn to_json_chirho(&self) -> (r: String)
        ensures
            r@ == history_json_chirho(self.name_spec_chirho(), self.history_spec_chirho()),
    {
        let mut json_chirho = String::new();
        push_str_chirho(&mut json_chirho, "{\"cell\": \"");
        push_escaped_chirho(&mut json_chirho, self.cell_name_chirho.as_str());
        push_str_chirho(&mut json_chirho, "\", \"history\": [");
        let ghost start = json_chirho@;
        let ghost hs = self.history_spec_chirho();
        let ghost parts = hs.map_values(|e: (u64, Seq<char>)| history_entry_json_chirho(e));
        let mut i: usize = 0;
        while i < self.history_chirho.len()
            invariant
                0 <= i <= self.history_chirho@.len(),
                hs == self.history_spec_chirho(),
                parts == hs.map_values(|e: (u64, Seq<char>)| history_entry_json_chirho(e)),
                json_chirho@ == start + join_chirho(parts.take(i as int), ", "@),
            decreases self.history_chirho@.len() - i,
        {
            proof {
                lemma_join_step_chirho(parts, ", "@, i as int);
            }
            let ghost before = json_chirho@;
            if i > 0 {
                push_str_chirho(&mut json_chirho, ", ");
            }
            push_str_chirho(&mut json_chirho, "{\"time_us\": ");
            push_decimal_chirho(&mut json_chirho, self.history_chirho[i].0);
            push_str_chirho(&mut json_chirho, ", \"value\": \"");
            push_escaped_chirho(&mut json_chirho, self.history_chirho[i].1.as_str());
            push_str_chirho(&mut json_chirho, "\"}");
            proof {
                assert(parts[i as int] == history_entry_json_chirho(hs[i as int]));
                if i > 0 {
                    assert(json_chirho@ =~= before + ", "@ + parts[i as int]);
                } else {
                    assert(json_chirho@ =~= before + Seq::<char>::empty() + parts[i as int]);
                }
            }
            i = i + 1;
        }
        assert(parts.take(self.history_chirho@.len() as int) =~= parts);
        push_str_chirho(&mut json_chirho, "]}");
        assert(json_chirho@ =~= history_json_chirho(self.name_spec_chirho(), self.history_spec_chirho()));
        json_chirho
    }
}

/// A map from names to text, listed in the order the names were first
/// inserted; inserting a name again replaces its text.
pub struct StringMapChirho {
    entries_chirho: Vec<(String, String)>,
}

/// The entries with the text of `key` replaced by `value`, or `(key, value)`
/// appended when `key` is not there.
pub open spec fn map_inserted_chirho(entries: Seq<(Seq<char>, Seq<char>)>, key: Seq<char>, value: Seq<char>) -> Seq<(Seq<char>, Seq<char>)> {
    if exists|i: int| 0 <= i < entries.len() && entries[i].0 == key {
        let i = choose|i: int| 0 <= i < entries.len() && entries[i].0 == key && forall|j: int| 0 <= j < i ==> entries[j].0 != key;
        entries.update(i, (key, value))
    } else {
        entries.push((key, value))
    }
}

impl StringMapChirho {
    /// The entries, in order.
    pub closed spec fn entries_spec_chirho(&self) -> Seq<(Seq<char>, Seq<char>)> {
        self.entries_chirho@.map_values(|e: (String, String)| (e.0@, e.1@))
    }

    /// Creates an empty map.
    pub fn new_chirho() -> (r: Self)
        ensures
            r.entries_spec_chirho().len() == 0,
    {
        let r = StringMapChirho { entries_chirho: Vec::new() };
        assert(r.entries_spec_chirho() =~= Seq::empty());
        r
    }

    /// Sets the text of `key`; returns its previous text, if it had one.
    pub fn insert(&mut self, key: String, value: String) -> (r: Option<String>)
        ensures
            final(self).entries_spec_chirho() == map_inserted_chirho(old(self).entries_spec_chirho(), key@, value@),
            r is Some <==> exists|i: int| 0 <= i < old(self).entries_spec_chirho().len() && old(self).entries_spec_chirho()[i].0 == key@,
    {
        let ghost es = self.entries_spec_chirho();
        let mut i: usize = 0;
        while i < self.entries_chirho.len()
            invariant
                0 <= i <= self.entries_chirho@.len(),
                es == self.entries_spec_chirho(),
                self.entries_chirho@ == old(self).entries_chirho@,
                forall|j: int| 0 <= j < i ==> es[j].0 != key@,
            decreases self.entries_chirho@.len() - i,
        {
            if self.entries_chirho[i].0 == key {
                let ghost first = i as int;
                let old_value = self.entries_chirho[i].1.clone();
                let k = self.entries_chirho[i].0.clone();
                self.entries_chirho.set(i, (k, value));
                proof {
                    assert(es[first].0 == key@);
                    let c = choose|c: int| 0 <= c < es.len() && es[c].0 == key@ && forall|j: int| 0 <= j < c ==> es[j].0 != key@;
                    assert(c == first) by {
                        if c < first {
                            assert(es[c].0 != key@);
                        }
                        if c > first {
                            assert(es[first].0 != key@);
                        }
                    }
                    assert(self.entries_spec_chirho() =~= es.update(first, (key@, value@)));
                }
                return Some(old_value);
            }
            i = i + 1;
        }
        self.entries_chirho.push((key, value));
        assert(self.entries_spec_chirho() =~= es.push((key@, value@)));
        None
    }

    /// Returns the number of entries.
    pub fn len(&self) -> (r: usize)
        ensures
            r == self.entries_spec_chirho().len(),
    {
        self.entries_chirho.len()
    }

    /// Returns the entries, in order.
    pub fn entries_chirho(&self) -> (r: &[(String, String)])
        ensures
            r@.map_values(|e: (String, String)| (e.0@, e.1@)) == self.entries_spec_chirho(),
    {
        self.entries_chirho.as_slice()
    }
}

/// The JSON object of a cell of a snapshot.
pub open spec fn cell_json_chirho(e: (Seq<char>, Seq<char>)) -> Seq<char> {
    "{\"name\": \""@ + escape_json_spec_chirho(e.0) + "\", \"value\": \""@ + escape_json_spec_chirho(e.1) + "\"}"@
}

/// The JSON object of a constraint of a snapshot.
pub open spec fn constraint_json_chirho(e: (Seq<char>, Seq<char>)) -> Seq<char> {
    "{\"id\": \""@ + escape_json_spec_chirho(e.0) + "\", \"description\": \""@ + escape_json_spec_chirho(e.1) + "\"}"@
}

/// The JSON object of an edge of a snapshot.
pub open spec fn edge_json_chirho(e: (Seq<char>, Seq<char>, Seq<char>)) -> Seq<char> {
    "{\"from\": \""@ + escape_json_spec_chirho(e.0) + "\", \"to\": \""@ + escape_json_spec_chirho(e.1)
        + "\", \"constraint\": \""@ + escape_json_spec_chirho(e.2) + "\"}"@
}

/// The JSON rendering of a snapshot.
pub open spec fn snapshot_json_chirho(
    cells: Seq<(Seq<char>, Seq<char>)>,
    constraints: Seq<(Seq<char>, Seq<char>)>,
    edges: Seq<(Seq<char>, Seq<char>, Seq<char>)>,
    timestamp: u64,
) -> Seq<char> {
    "{\n  \"cells\": ["@ + join_chirho(cells.map_values(|e: (Seq<char>, Seq<char>)| cell_json_chirho(e)), ", "@)
        + "],\n  \"constraints\": ["@ + join_chirho(constraints.map_values(|e: (Seq<char>, Seq<char>)| constraint_json_chirho(e)), ", "@)
        + "],\n  \"edges\": ["@ + join_chirho(edges.map_values(|e: (Seq<char>, Seq<char>, Seq<char>)| edge_json_chirho(e)), ", "@)
        + "],\n  \"timestamp_us\": "@ + decimal_chirho(timestamp as nat) + "\n}"@
}

/// The DOT line of a cell: a node labelled with its name and value.
pub open spec fn cell_dot_chirho(e: (Seq<char>, Seq<char>)) -> Seq<char> {
    "  \""@ + e.0 + "\" [label=\""@ + e.0 + "\\n"@ + e.1 + "\"];\n"@
}

/// The DOT line of an edge, labelled with its constraint.
pub open spec fn edge_dot_chirho(e: (Seq<char>, Seq<char>, Seq<char>)) -> Seq<char> {
    "  \""@ + e.0 + "\" -> \""@ + e.1 + "\" [label=\""@ + e.2 + "\"];\n"@
}

/// The DOT rendering of a snapshot.
pub open spec fn snapshot_dot_chirho(cells: Seq<(Seq<char>, Seq<char>)>, edges: Seq<(Seq<char>, Seq<char>, Seq<char>)>) -> Seq<char> {
    "digraph PropagatorNetwork {\n"@ + "  rankdir=LR;\n"@ + "  node [shape=ellipse];\n\n"@
        + join_chirho(cells.map_values(|e: (Seq<char>, Seq<char>)| cell_dot_chirho(e)), Seq::empty()) + "\n"@
        + join_chirho(edges.map_values(|e: (Seq<char>, Seq<char>, Seq<char>)| edge_dot_chirho(e)), Seq::empty()) + "}\n"@
}

/// The plain values of edges.
pub open spec fn edges_view_chirho(edges: Seq<(String, String, String)>) -> Seq<(Seq<char>, Seq<char>, Seq<char>)> {
    edges.map_values(|e: (String, String, String)| (e.0@, e.1@, e.2@))
}

/// A snapshot of a network's cells, constraints and edges.
pub struct NetworkSnapshotChirho {
    /// Cell name to value.
    pub cells_chirho: StringMapChirho,
    /// Constraint identifier to description.
    pub constraints_chirho: StringMapChirho,
    /// Edges: from cell, to cell, constraint.
    pub edges_chirho: Vec<(String, String, String)>,
    /// When the snapshot was taken, in microseconds.
    pub timestamp_chirho: u64,
}

/// Appends the JSON objects of a map's entries, joined by ", ": as cells
/// (`as_cells`) or as constraints.
fn push_pairs_json_chirho(s: &mut String, m: &StringMapChirho, as_cells: bool)
    ensures
        as_cells ==> final(s)@ == old(s)@ + join_chirho(m.entries_spec_chirho().map_values(|e: (Seq<char>, Seq<char>)| cell_json_chirho(e)), ", "@),
        !as_cells ==> final(s)@ == old(s)@ + join_chirho(m.entries_spec_chirho().map_values(|e: (Seq<char>, Seq<char>)| constraint_json_chirho(e)), ", "@),
{
    let ghost start = s@;
    let ghost es = m.entries_spec_chirho();
    let ghost parts = es.map_values(|e: (Seq<char>, Seq<char>)| if as_cells { cell_json_chirho(e) } else { constraint_json_chirho(e) });
    let mut i: usize = 0;
    while i < m.entries_chirho.len()
        invariant
            0 <= i <= m.entries_chirho@.len(),
            es == m.entries_spec_chirho(),
            parts == es.map_values(|e: (Seq<char>, Seq<char>)| if as_cells { cell_json_chirho(e) } else { constraint_json_chirho(e) }),
            s@ == start + join_chirho(parts.take(i as int), ", "@),
        decreases m.entries_chirho@.len() - i,
    {
        proof {
            lemma_join_step_chirho(parts, ", "@, i as int);
        }
        let ghost before = s@;
        if i > 0 {
            push_str_chirho(s, ", ");
        }
        if as_cells {
            push_str_chirho(s, "{\"name\": \"");
        } else {
            push_str_chirho(s, "{\"id\": \"");
        }
        push_escaped_chirho(s, m.entries_chirho[i].0.as_str());
        if as_cells {
            push_str_chirho(s, "\", \"value\": \"");
        } else {
            push_str_chirho(s, "\", \"description\": \"");
        }
        push_escaped_chirho(s, m.entries_chirho[i].1.as_str());
        push_str_chirho(s, "\"}");
        proof {
            assert(parts[i as int] == (if as_cells { cell_json_chirho(es[i as int]) } else { constraint_json_chirho(es[i as int]) }));
            if i > 0 {
                assert(s@ =~= before + ", "@ + parts[i as int]);
            } else {
                assert(s@ =~= before + Seq::<char>::empty() + parts[i as int]);
            }
        }
        i = i + 1;
    }
    assert(parts.take(m.entries_chirho@.len() as int) =~= parts);
    if as_cells {
        assert(parts =~= es.map_values(|e: (Seq<char>, Seq<char>)| cell_json_chirho(e)));
    } else {
        assert(parts =~= es.map_values(|e: (Seq<char>, Seq<char>)| constraint_json_chirho(e)));
    }
}

impl NetworkSnapshotChirho {
    /// Creates an empty snapshot at time 0.
    pub fn new_chirho() -> (r: Self)
        ensures
            r.cells_chirho.entries_spec_chirho().len() == 0,
            r.constraints_chirho.entries_spec_chirho().len() == 0,
            r.edges_chirho@.len() == 0,
            r.timestamp_chirho == 0,
    {
        NetworkSnapshotChirho {
            cells_chirho: StringMapChirho::new_chirho(),
            constraints_chirho: StringMapChirho::new_chirho(),
            edges_chirho: Vec::new(),
            timestamp_chirho: 0,
        }
    }

    /// Renders the snapshot as JSON.
    pub fn to_json_chirho(&self) -> (r: String)
        ensures
            r@ == snapshot_json_chirho(
                self.cells_chirho.entries_spec_chirho(),
                self.constraints_chirho.entries_spec_chirho(),
                edges_view_chirho(self.edges_chirho@),
                self.timestamp_chirho,
            ),
    {
        let mut json_chirho = String::new();
        push_str_chirho(&mut json_chirho, "{\n  \"cells\": [");
        push_pairs_json_chirho(&mut json_chirho, &self.cells_chirho, true);
        push_str_chirho(&mut json_chirho, "],\n  \"constraints\": [");
        push_pairs_json_chirho(&mut json_chirho, &self.constraints_chirho, false);
        push_str_chirho(&mut json_chirho, "],\n  \"edges\": [");
        let ghost start = json_chirho@;
        let ghost es = edges_view_chirho(self.edges_chirho@);
        let ghost parts = es.map_values(|e: (Seq<char>, Seq<char>, Seq<char>)| edge_json_chirho(e));
        let mut i: usize = 0;
        while i < self.edges_chirho.len()
            invariant
                0 <= i <= self.edges_chirho@.len(),
                es == edges_view_chirho(self.edges_chirho@),
                parts == es.map_values(|e: (Seq<char>, Seq<char>, Seq<char>)| edge_json_chirho(e)),
                json_chirho@ == start + join_chirho(parts.take(i as int), ", "@),
            decreases self.edges_chirho@.len() - i,
        {
            proof {
                lemma_join_step_chirho(parts, ", "@, i as int);
            }
            let ghost before = json_chirho@;
            if i > 0 {
                push_str_chirho(&mut json_chirho, ", ");
            }
            push_str_chirho(&mut json_chirho, "{\"from\": \"");
            push_escaped_chirho(&mut json_chirho, self.edges_chirho[i].0.as_str());
            push_str_chirho(&mut json_chirho, "\", \"to\": \"");
            push_escaped_chirho(&mut json_chirho, self.edges_chirho[i].1.as_str());
            push_str_chirho(&mut json_chirho, "\", \"constraint\": \"");
            push_escaped_chirho(&mut json_chirho, self.edges_chirho[i].2.as_str());
            push_str_chirho(&mut json_chirho, "\"}");
            proof {
                assert(parts[i as int] == edge_json_chirho(es[i as int]));
                if i > 0 {
                    assert(json_chirho@ =~= before + ", "@ + parts[i as int]);
                } else {
                    assert(json_chirho@ =~= before + Seq::<char>::empty() + parts[i as int]);
                }
            }
            i = i + 1;
        }
        assert(parts.take(self.edges_chirho@.len() as int) =~= parts);
        push_str_chirho(&mut json_chirho, "],\n  \"timestamp_us\": ");
        push_decimal_chirho(&mut json_chirho, self.timestamp_chirho);
        push_str_chirho(&mut json_chirho, "\n}");
        assert(json_chirho@ =~= snapshot_json_chirho(
            self.cells_chirho.entries_spec_chirho(),
            self.constraints_chirho.entries_spec_chirho(),
            edges_view_chirho(self.edges_chirho@),
            self.timestamp_chirho,
        ));
        json_chirho
    }

    /// Renders the snapshot as a Graphviz DOT digraph: a node per cell,
    /// labelled with its name and value, and an edge per edge, labelled
    /// with its constraint.
    pub fn to_dot_chirho(&self) -> (r: String)
        ensures
            r@ == snapshot_dot_chirho(self.cells_chirho.entries_spec_chirho(), edges_view_chirho(self.edges_chirho@)),
    {
        let mut dot_chirho = String::new();
        push_str_chirho(&mut dot_chirho, "digraph PropagatorNetwork {\n");
        push_str_chirho(&mut dot_chirho, "  rankdir=LR;\n");
        push_str_chirho(&mut dot_chirho, "  node [shape=ellipse];\n\n");
        let ghost start = dot_chirho@;
        let ghost cs = self.cells_chirho.entries_spec_chirho();
        let ghost cparts = cs.map_values(|e: (Seq<char>, Seq<char>)| cell_dot_chirho(e));
        let mut i: usize = 0;
        while i < self.cells_chirho.entries_chirho.len()
            invariant
                0 <= i <= self.cells_chirho.entries_chirho@.len(),
                cs == self.cells_chirho.entries_spec_chirho(),
                cparts == cs.map_values(|e: (Seq<char>, Seq<char>)| cell_dot_chirho(e)),
                dot_chirho@ == start + join_chirho(cparts.take(i as int), Seq::empty()),
            decreases self.cells_chirho.entries_chirho@.len() - i,
        {
            proof {
                lemma_join_step_chirho(cparts, Seq::empty(), i as int);
            }
            let ghost before = dot_chirho@;
            let name = self.cells_chirho.entries_chirho[i].0.as_str();
            push_str_chirho(&mut dot_chirho, "  \"");
            push_str_chirho(&mut dot_chirho, name);
            push_str_chirho(&mut dot_chirho, "\" [label=\"");
            push_str_chirho(&mut dot_chirho, name);
            push_str_chirho(&mut dot_chirho, "\\n");
            push_str_chirho(&mut dot_chirho, self.cells_chirho.entries_chirho[i].1.as_str());
            push_str_chirho(&mut dot_chirho, "\"];\n");
            proof {
                assert(cparts[i as int] == cell_dot_chirho(cs[i as int]));
                assert(dot_chirho@ =~= before + (if i > 0 { Seq::<char>::empty() } else { Seq::<char>::empty() }) + cparts[i as int]);
            }
            i = i + 1;
        }
        assert(cparts.take(self.cells_chirho.entries_chirho@.len() as int) =~= cparts);
        push_str_chirho(&mut dot_chirho, "\n");
        let ghost mid = dot_chirho@;
        let ghost es = edges_view_chirho(self.edges_chirho@);
        let ghost eparts = es.map_values(|e: (Seq<char>, Seq<char>, Seq<char>)| edge_dot_chirho(e));
        let mut k: usize = 0;
        while k < self.edges_chirho.len()
            invariant
                0 <= k <= self.edges_chirho@.len(),
                es == edges_view_chirho(self.edges_chirho@),
                eparts == es.map_values(|e: (Seq<char>, Seq<char>, Seq<char>)| edge_dot_chirho(e)),
                dot_chirho@ == mid + join_chirho(eparts.take(k as int), Seq::empty()),
            decreases self.edges_chirho@.len() - k,
        {
            proof {
                lemma_join_step_chirho(eparts, Seq::empty(), k as int);
            }
            let ghost before = dot_chirho@;
            push_str_chirho(&mut dot_chirho, "  \"");
            push_str_chirho(&mut dot_chirho, self.edges_chirho[k].0.as_str());
            push_str_chirho(&mut dot_chirho, "\" -> \"");
            push_str_chirho(&mut dot_chirho, self.edges_chirho[k].1.as_str());
            push_str_chirho(&mut dot_chirho, "\" [label=\"");
            push_str_chirho(&mut dot_chirho, self.edges_chirho[k].2.as_str());
            push_str_chirho(&mut dot_chirho, "\"];\n");
            proof {
                assert(eparts[k as int] == edge_dot_chirho(es[k as int]));
                assert(dot_chirho@ =~= before + (if k > 0 { Seq::<char>::empty() } else { Seq::<char>::empty() }) + eparts[k as int]);
            }
            k = k + 1;
        }
        assert(eparts.take(self.edges_chirho@.len() as int) =~= eparts);
        push_str_chirho(&mut dot_chirho, "}\n");
        assert(dot_chirho@ =~= snapshot_dot_chirho(self.cells_chirho.entries_spec_chirho(), edges_view_chirho(self.edges_chirho@)));
        dot_chirho
    }
}

impl Default for NetworkSnapshotChirho {
    fn default() -> (r: Self)
        ensures
            r.cells_chirho.entries_spec_chirho().len() == 0,
            r.constraints_chirho.entries_spec_chirho().len() == 0,
            r.edges_chirho@.len() == 0,
            r.timestamp_chirho == 0,
    {
        Self::new_chirho()
    }
}

} // verus!

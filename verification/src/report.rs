//! Assembly of a run's final report: one aggregate/CDF pair per metric
//! kind, derived from the frozen sample sets.
//!
//! Aggregation failures are isolated per metric kind: a kind with no
//! samples gets no aggregate, but its section still appears and the other
//! kinds are unaffected. Persisting the report (files, plots) is left to
//! unverified code.

use vstd::prelude::*;

use crate::orchestrator::ExecutionPlan;
use crate::stats::{aggregate_matches, cdf_matches, AggregateStats, CdfPoint, Stats};

verus! {

/// One metric kind's section of the report.
#[derive(Debug)]
pub struct StatsReport {
    /// The metric kind's name.
    pub name: String,
    /// The aggregate statistics; absent exactly when the kind's sample set
    /// was empty.
    pub aggregate: Option<AggregateStats>,
    /// The empirical CDF of the kind's samples.
    pub cdf: Vec<CdfPoint>,
}

/// The section faithfully summarizes the sample set `st`.
pub open spec fn section_matches(sr: StatsReport, st: Stats) -> bool {
    &&& sr.name@ == st.name@
    &&& match sr.aggregate {
        Option::Some(a) => st.samples@.len() > 0 && aggregate_matches(a, st.samples@),
        Option::None => st.samples@.len() == 0,
    }
    &&& cdf_matches(sr.cdf@, st.samples@)
}

/// The write-once final output of a run: its plan, how many trials failed,
/// and one section per metric kind.
#[derive(Debug)]
pub struct Report {
    /// The plan the run executed.
    pub plan: ExecutionPlan,
    /// How many trials failed to launch or lacked an expected metric.
    pub failed_trials: u16,
    /// One section per metric kind, in the order the kinds were given.
    pub stat_report: Vec<StatsReport>,
}

impl Report {
    /// Builds the report over the given sample sets: each kind's aggregate
    /// statistics where its set is non-empty, and its empirical CDF always.
    /// One empty kind does not block the others.
    pub fn new(plan: ExecutionPlan, failed_trials: u16, stats: Vec<Stats>) -> (r: Report)
        ensures
            r.plan == plan,
            r.failed_trials == failed_trials,
            r.stat_report@.len() == stats@.len(),
            forall|i: int|
                0 <= i < stats@.len() ==> section_matches(#[trigger] r.stat_report@[i], stats@[i]),
    {
        let mut sections: Vec<StatsReport> = Vec::new();
        let mut i: usize = 0;
        while i < stats.len()
            invariant
                i <= stats@.len(),
                sections@.len() == i,
                forall|k: int|
                    0 <= k < i ==> section_matches(#[trigger] sections@[k], stats@[k]),
            decreases stats@.len() - i,
        {
            let st = &stats[i];
            let aggregate = match st.aggregate() {
                Ok(a) => Option::Some(a),
                Err(_) => Option::None,
            };
            let cdf = st.cdf();
            sections.push(StatsReport { name: st.name.clone(), aggregate, cdf });
            i += 1;
        }
        Report { plan, failed_trials, stat_report: sections }
    }
}

} // verus!

//! The trial orchestrator: a verified state machine that sequences one
//! benchmark run.
//!
//! The run walks `AwaitApply -> AwaitServer -> AwaitTrial (repeated) ->
//! AwaitStop -> AwaitClear -> Finished`. The machine decides; an unverified
//! shell performs each requested `Action` (run an external command, spawn a
//! process, collect logs) and hands the outcome back as an `Event`. Applying
//! the network profile is one step that clears first, so a crashed prior run
//! cannot poison a new one.
//!
//! Teardown is guaranteed: every failure path leads through `AwaitClear`, so
//! the clear command runs exactly once on every run. A trial whose client
//! fails to launch, or whose logs lack an expected metric, is recorded as a
//! failed trial and the loop continues; only environment and server-spawn
//! failures are fatal, and even those still clear the network profile.

use vstd::prelude::*;

use crate::endpoint::EndpointSetup;
use crate::error::BoarError;
use crate::network::NetworkSetup;
use crate::stats::delivery_rate::{delivery_rate_sample, DeliveryRate};
use crate::stats::download_duration::{duration_sample, DownloadDuration};
use crate::stats::startup_exit::{startup_samples, StartupExit};

verus! {

/// Everything one run needs, fixed before any trial executes: a unique run
/// identity, the network profile, the endpoints, the payload size in bytes,
/// and the trial count.
#[derive(Clone, Debug)]
pub struct ExecutionPlan {
    /// The unique identifier of this run.
    pub uuid: String,
    /// The simulated network condition of this run.
    pub network: NetworkSetup,
    /// The client and server executables and the server's address.
    pub endpoint: EndpointSetup,
    /// The payload size each client trial downloads, in bytes.
    pub download_bytes: u64,
    /// How many client trials to run.
    pub run_count: u16,
}

/// Where the run stands; each phase names the action whose outcome the
/// machine is waiting for.
#[derive(Clone, Copy, Debug, PartialEq, Eq, Structural)]
pub enum Phase {
    /// Waiting for the network profile to be cleared and applied.
    AwaitApply,
    /// Waiting for the server process to spawn.
    AwaitServer,
    /// Waiting for the next client trial to finish.
    AwaitTrial,
    /// Waiting for the server to be terminated and its log flushed.
    AwaitStop,
    /// Waiting for the network profile to be cleared.
    AwaitClear,
    /// The run is over.
    Finished,
}

/// What the unverified shell must do next.
#[derive(Clone, Copy, Debug, PartialEq, Eq, Structural)]
pub enum Action {
    /// Clear any stale profile, then apply this run's network profile.
    ApplyNetwork,
    /// Spawn the server and begin capturing its error stream.
    SpawnServer,
    /// Spawn one client, wait for it to exit, and capture its error stream.
    RunTrial,
    /// Terminate the server and join the log-capture task.
    StopServer,
    /// Clear the network profile.
    ClearNetwork,
    /// Nothing is left to do.
    Finish,
}

/// The outcome of one performed action.
#[derive(Debug)]
pub enum Event {
    /// The apply command finished, successfully or not.
    ApplyFinished(bool),
    /// The server spawn succeeded or failed.
    ServerSpawned(bool),
    /// One client trial finished: its captured log, or nothing when the
    /// client could not be launched.
    TrialFinished(Option<String>),
    /// The server was terminated; its whole captured log, line by line.
    ServerStopped(Vec<String>),
    /// The clear command finished, successfully or not.
    ClearFinished(bool),
}

/// The mathematical value of an `Event`.
pub enum EventModel {
    ApplyFinished(bool),
    ServerSpawned(bool),
    TrialFinished(Option<Seq<char>>),
    ServerStopped(Seq<Seq<char>>),
    ClearFinished(bool),
}

impl View for Event {
    type V = EventModel;

    open spec fn view(&self) -> EventModel {
        match self {
            Event::ApplyFinished(b) => EventModel::ApplyFinished(*b),
            Event::ServerSpawned(b) => EventModel::ServerSpawned(*b),
            Event::TrialFinished(o) => match o {
                Option::Some(s) => EventModel::TrialFinished(Option::Some(s@)),
                Option::None => EventModel::TrialFinished(Option::None),
            },
            Event::ServerStopped(v) => EventModel::ServerStopped(
                v@.map_values(|s: String| s@),
            ),
            Event::ClearFinished(b) => EventModel::ClearFinished(*b),
        }
    }
}

/// The mathematical state of the orchestrator.
pub struct OrchModel {
    pub run_count: int,
    pub trials_done: int,
    pub phase: Phase,
    pub durations: Seq<u64>,
    pub rates: Seq<u64>,
    pub startup_exits: Seq<u64>,
    pub failed_trials: int,
    pub fatal: Option<BoarError>,
}

/// The state a run starts in.
pub open spec fn init_model(run_count: int) -> OrchModel {
    OrchModel {
        run_count,
        trials_done: 0,
        phase: Phase::AwaitApply,
        durations: Seq::empty(),
        rates: Seq::empty(),
        startup_exits: Seq::empty(),
        failed_trials: 0,
        fatal: Option::None,
    }
}

/// The action the machine requests in state `m`.
pub open spec fn next_action_spec(m: OrchModel) -> Action {
    match m.phase {
        Phase::AwaitApply => Action::ApplyNetwork,
        Phase::AwaitServer => Action::SpawnServer,
        Phase::AwaitTrial => Action::RunTrial,
        Phase::AwaitStop => Action::StopServer,
        Phase::AwaitClear => Action::ClearNetwork,
        Phase::Finished => Action::Finish,
    }
}

/// The event answers the action outstanding in state `m`.
pub open spec fn event_matches(m: OrchModel, e: EventModel) -> bool {
    match m.phase {
        Phase::AwaitApply => e is ApplyFinished,
        Phase::AwaitServer => e is ServerSpawned,
        Phase::AwaitTrial => e is TrialFinished,
        Phase::AwaitStop => e is ServerStopped,
        Phase::AwaitClear => e is ClearFinished,
        Phase::Finished => false,
    }
}

/// Both metrics a trial must report were extracted from its log.
pub open spec fn trial_success(logs: Seq<char>) -> bool {
    duration_sample(logs) is Some && delivery_rate_sample(logs) is Some
}

/// One trial's outcome folded into the state: each extracted sample is
/// appended to its kind's collection, a trial that launched but lacked a
/// metric (or never launched) counts as failed, and the loop continues
/// until every trial is accounted for.
pub open spec fn process_trial(m: OrchModel, lo: Option<Seq<char>>) -> OrchModel {
    let durations = match lo {
        Option::Some(l) => match duration_sample(l) {
            Option::Some(v) => m.durations.push(v),
            Option::None => m.durations,
        },
        Option::None => m.durations,
    };
    let rates = match lo {
        Option::Some(l) => match delivery_rate_sample(l) {
            Option::Some(v) => m.rates.push(v),
            Option::None => m.rates,
        },
        Option::None => m.rates,
    };
    let ok = match lo {
        Option::Some(l) => trial_success(l),
        Option::None => false,
    };
    OrchModel {
        run_count: m.run_count,
        trials_done: m.trials_done + 1,
        phase: if m.trials_done + 1 < m.run_count {
            Phase::AwaitTrial
        } else {
            Phase::AwaitStop
        },
        durations,
        rates,
        startup_exits: m.startup_exits,
        failed_trials: if ok {
            m.failed_trials
        } else {
            m.failed_trials + 1
        },
        fatal: m.fatal,
    }
}

/// The transition relation of the run. A mismatched event changes nothing.
pub open spec fn spec_step(m: OrchModel, e: EventModel) -> OrchModel {
    if !event_matches(m, e) {
        m
    } else {
        match e {
            EventModel::ApplyFinished(ok) => if ok {
                OrchModel { phase: Phase::AwaitServer, ..m }
            } else {
                OrchModel {
                    phase: Phase::AwaitClear,
                    fatal: Option::Some(BoarError::EnvironmentError),
                    ..m
                }
            },
            EventModel::ServerSpawned(ok) => if ok {
                OrchModel {
                    phase: if m.run_count > 0 {
                        Phase::AwaitTrial
                    } else {
                        Phase::AwaitStop
                    },
                    ..m
                }
            } else {
                OrchModel {
                    phase: Phase::AwaitClear,
                    fatal: Option::Some(BoarError::ProcessSpawnError),
                    ..m
                }
            },
            EventModel::TrialFinished(lo) => process_trial(m, lo),
            EventModel::ServerStopped(lines) => OrchModel {
                phase: Phase::AwaitClear,
                startup_exits: startup_samples(lines),
                ..m
            },
            EventModel::ClearFinished(ok) => OrchModel {
                phase: Phase::Finished,
                fatal: if !ok && m.fatal is None {
                    Option::Some(BoarError::EnvironmentError)
                } else {
                    m.fatal
                },
                ..m
            },
        }
    }
}

/// Sequences one benchmark run. Owns the plan for the run's duration and
/// accumulates the samples each trial contributes.
#[derive(Debug)]
pub struct Orchestrator {
    /// The immutable plan of this run.
    pub plan: ExecutionPlan,
    /// Where the run stands.
    pub phase: Phase,
    /// How many trials have been accounted for, success or failure.
    pub trials_done: u16,
    /// Transfer-duration samples, in milliseconds, in trial order.
    pub durations: Vec<u64>,
    /// Delivery-rate samples, in trial order.
    pub rates: Vec<u64>,
    /// Startup-exit bandwidth samples from the server's whole lifetime.
    pub startup_exits: Vec<u64>,
    /// How many trials failed to launch or lacked an expected metric.
    pub failed_trials: u16,
    /// The fatal error that ended the run early, if any.
    pub fatal: Option<BoarError>,
}

impl View for Orchestrator {
    type V = OrchModel;

    open spec fn view(&self) -> OrchModel {
        OrchModel {
            run_count: self.plan.run_count as int,
            trials_done: self.trials_done as int,
            phase: self.phase,
            durations: self.durations@,
            rates: self.rates@,
            startup_exits: self.startup_exits@,
            failed_trials: self.failed_trials as int,
            fatal: self.fatal,
        }
    }
}

impl Orchestrator {
    /// The counters stay within the trial count.
    pub open spec fn wf(self) -> bool {
        &&& self.trials_done <= self.plan.run_count
        &&& (self.phase is AwaitTrial ==> self.trials_done < self.plan.run_count)
        &&& ((self.phase is AwaitApply || self.phase is AwaitServer) ==> self.trials_done == 0)
        &&& self.failed_trials <= self.trials_done
    }

    /// A fresh run over the given plan, waiting to apply its network
    /// profile.
    pub fn new(plan: ExecutionPlan) -> (r: Orchestrator)
        ensures
            r@ == init_model(plan.run_count as int),
            r.plan == plan,
            r.wf(),
    {
        let r = Orchestrator {
            plan,
            phase: Phase::AwaitApply,
            trials_done: 0,
            durations: Vec::new(),
            rates: Vec::new(),
            startup_exits: Vec::new(),
            failed_trials: 0,
            fatal: Option::None,
        };
        proof {
            assert(r@ == init_model(r.plan.run_count as int));
        }
        r
    }

    /// What the shell must do next.
    pub fn next_action(&self) -> (a: Action)
        ensures
            a == next_action_spec(self@),
    {
        match self.phase {
            Phase::AwaitApply => Action::ApplyNetwork,
            Phase::AwaitServer => Action::SpawnServer,
            Phase::AwaitTrial => Action::RunTrial,
            Phase::AwaitStop => Action::StopServer,
            Phase::AwaitClear => Action::ClearNetwork,
            Phase::Finished => Action::Finish,
        }
    }

    /// Folds one performed action's outcome into the run. An event that
    /// does not answer the outstanding action changes nothing.
    pub fn step(&mut self, ev: Event)
        requires
            old(self).wf(),
        ensures
            final(self)@ == spec_step(old(self)@, ev@),
            final(self).plan == old(self).plan,
            final(self).wf(),
    {
        match ev {
            Event::ApplyFinished(ok) => {
                if self.phase == Phase::AwaitApply {
                    if ok {
                        self.phase = Phase::AwaitServer;
                    } else {
                        self.phase = Phase::AwaitClear;
                        self.fatal = Option::Some(BoarError::EnvironmentError);
                    }
                }
            },
            Event::ServerSpawned(ok) => {
                if self.phase == Phase::AwaitServer {
                    if ok {
                        if self.plan.run_count > 0 {
                            self.phase = Phase::AwaitTrial;
                        } else {
                            self.phase = Phase::AwaitStop;
                        }
                    } else {
                        self.phase = Phase::AwaitClear;
                        self.fatal = Option::Some(BoarError::ProcessSpawnError);
                    }
                }
            },
            Event::TrialFinished(lo) => {
                if self.phase == Phase::AwaitTrial {
                    let mut ok = false;
                    match &lo {
                        Option::Some(logs) => {
                            let mut dok = false;
                            let mut rok = false;
                            match DownloadDuration::new_from_logs(logs.as_str()) {
                                Ok(m) => {
                                    self.durations.push(m.duration_ms);
                                    dok = true;
                                },
                                Err(_) => {},
                            }
                            match DeliveryRate::new_from_logs(logs.as_str()) {
                                Ok(m) => {
                                    self.rates.push(m.rate);
                                    rok = true;
                                },
                                Err(_) => {},
                            }
                            ok = dok && rok;
                        },
                        Option::None => {},
                    }
                    self.trials_done = self.trials_done + 1;
                    if !ok {
                        self.failed_trials = self.failed_trials + 1;
                    }
                    if self.trials_done < self.plan.run_count {
                        self.phase = Phase::AwaitTrial;
                    } else {
                        self.phase = Phase::AwaitStop;
                    }
                }
            },
            Event::ServerStopped(lines) => {
                if self.phase == Phase::AwaitStop {
                    let found = StartupExit::new_from_logs(&lines);
                    let mut v: Vec<u64> = Vec::new();
                    let mut i: usize = 0;
                    while i < found.len()
                        invariant
                            i <= found@.len(),
                            v@.len() == i,
                            forall|k: int| 0 <= k < i ==> v@[k] == found@[k].bandwidth,
                        decreases found@.len() - i,
                    {
                        v.push(found[i].bandwidth);
                        i += 1;
                    }
                    proof {
                        assert(v@ =~= found@.map_values(|m: StartupExit| m.bandwidth));
                    }
                    self.startup_exits = v;
                    self.phase = Phase::AwaitClear;
                }
            },
            Event::ClearFinished(ok) => {
                if self.phase == Phase::AwaitClear {
                    if !ok && self.fatal.is_none() {
                        self.fatal = Option::Some(BoarError::EnvironmentError);
                    }
                    self.phase = Phase::Finished;
                }
            },
        }
    }
}

/// Every event of the sequence answers the action outstanding when it
/// arrives.
pub open spec fn valid_run(m: OrchModel, evs: Seq<EventModel>) -> bool
    decreases evs.len(),
{
    evs.len() == 0 || (event_matches(m, evs[0]) && valid_run(spec_step(m, evs[0]), evs.drop_first()))
}

/// The state after the whole event sequence.
pub open spec fn last_state(m: OrchModel, evs: Seq<EventModel>) -> OrchModel
    decreases evs.len(),
{
    if evs.len() == 0 {
        m
    } else {
        last_state(spec_step(m, evs[0]), evs.drop_first())
    }
}

/// The actions the shell performed over the run: one per event, the action
/// outstanding when that event was produced.
pub open spec fn actions_of(m: OrchModel, evs: Seq<EventModel>) -> Seq<Action>
    decreases evs.len(),
{
    if evs.len() == 0 {
        Seq::empty()
    } else {
        seq![next_action_spec(m)] + actions_of(spec_step(m, evs[0]), evs.drop_first())
    }
}

/// How often `a` occurs in `acts`.
pub open spec fn action_count(acts: Seq<Action>, a: Action) -> int
    decreases acts.len(),
{
    if acts.len() == 0 {
        0
    } else {
        (if acts[0] == a {
            1int
        } else {
            0int
        }) + action_count(acts.drop_first(), a)
    }
}

/// The trial payloads of the run, in order: one entry per finished trial,
/// holding its captured log, or nothing when the client failed to launch.
pub open spec fn trial_logs(evs: Seq<EventModel>) -> Seq<Option<Seq<char>>>
    decreases evs.len(),
{
    if evs.len() == 0 {
        Seq::empty()
    } else {
        let rest = trial_logs(evs.drop_first());
        match evs[0] {
            EventModel::TrialFinished(lo) => seq![lo] + rest,
            _ => rest,
        }
    }
}

/// The transfer-duration samples the trial payloads contribute, in order.
pub open spec fn durations_gained(ls: Seq<Option<Seq<char>>>) -> Seq<u64>
    decreases ls.len(),
{
    if ls.len() == 0 {
        Seq::empty()
    } else {
        let rest = durations_gained(ls.drop_first());
        match ls[0] {
            Option::Some(l) => match duration_sample(l) {
                Option::Some(v) => seq![v] + rest,
                Option::None => rest,
            },
            Option::None => rest,
        }
    }
}

/// The delivery-rate samples the trial payloads contribute, in order.
pub open spec fn rates_gained(ls: Seq<Option<Seq<char>>>) -> Seq<u64>
    decreases ls.len(),
{
    if ls.len() == 0 {
        Seq::empty()
    } else {
        let rest = rates_gained(ls.drop_first());
        match ls[0] {
            Option::Some(l) => match delivery_rate_sample(l) {
                Option::Some(v) => seq![v] + rest,
                Option::None => rest,
            },
            Option::None => rest,
        }
    }
}

/// How many trial payloads are failures: the client never launched, or a
/// required metric could not be extracted.
pub open spec fn failures_gained(ls: Seq<Option<Seq<char>>>) -> int
    decreases ls.len(),
{
    if ls.len() == 0 {
        0
    } else {
        (match ls[0] {
            Option::Some(l) => if trial_success(l) {
                0int
            } else {
                1int
            },
            Option::None => 1int,
        }) + failures_gained(ls.drop_first())
    }
}

/// A finished run accepts no further event.
proof fn lemma_finished_stops(m: OrchModel, evs: Seq<EventModel>)
    requires
        valid_run(m, evs),
        m.phase is Finished,
    ensures
        evs.len() == 0,
{
}

/// Teardown on apply failure: in every completed run whose first event
/// reports that applying the network profile failed, the clear command is
/// still performed exactly once, and no server and no client is ever
/// spawned.
pub proof fn lemma_teardown_on_apply_failure(n: int, evs: Seq<EventModel>)
    requires
        valid_run(init_model(n), evs),
        evs.len() > 0,
        evs[0] == EventModel::ApplyFinished(false),
        last_state(init_model(n), evs).phase is Finished,
    ensures
        action_count(actions_of(init_model(n), evs), Action::ClearNetwork) == 1,
        action_count(actions_of(init_model(n), evs), Action::SpawnServer) == 0,
        action_count(actions_of(init_model(n), evs), Action::RunTrial) == 0,
        last_state(init_model(n), evs).fatal == Option::Some(BoarError::EnvironmentError),
{
    let m0 = init_model(n);
    let m1 = spec_step(m0, evs[0]);
    let evs1 = evs.drop_first();
    assert(m1.phase is AwaitClear);
    assert(valid_run(m1, evs1));
    assert(last_state(m1, evs1) == last_state(m0, evs));
    if evs1.len() == 0 {
        assert(last_state(m1, evs1) == m1);
        assert(false);
    }
    let e1 = evs1[0];
    assert(event_matches(m1, e1));
    let m2 = spec_step(m1, e1);
    assert(m2.phase is Finished);
    let evs2 = evs1.drop_first();
    lemma_finished_stops(m2, evs2);
    assert(last_state(m2, evs2) == m2);
    assert(m2.fatal == Option::Some(BoarError::EnvironmentError));
    assert(actions_of(m2, evs2) == Seq::<Action>::empty());
    assert(actions_of(m1, evs1) == seq![Action::ClearNetwork] + actions_of(m2, evs2));
    assert(actions_of(m0, evs) == seq![Action::ApplyNetwork] + actions_of(m1, evs1));
    let acts = actions_of(m0, evs);
    assert(acts =~= seq![Action::ApplyNetwork, Action::ClearNetwork]);
    assert(acts.drop_first() =~= seq![Action::ClearNetwork]);
    assert(acts.drop_first().drop_first() =~= Seq::<Action>::empty());
    assert(action_count(acts.drop_first().drop_first(), Action::ClearNetwork) == 0);
    assert(action_count(acts.drop_first(), Action::ClearNetwork) == 1);
    assert(action_count(acts, Action::ClearNetwork) == 1);
    assert(action_count(acts.drop_first().drop_first(), Action::SpawnServer) == 0);
    assert(action_count(acts.drop_first(), Action::SpawnServer) == 0);
    assert(action_count(acts, Action::SpawnServer) == 0);
    assert(action_count(acts.drop_first().drop_first(), Action::RunTrial) == 0);
    assert(action_count(acts.drop_first(), Action::RunTrial) == 0);
    assert(action_count(acts, Action::RunTrial) == 0);
}

/// From the trial loop (or later) every completed run accounts for every
/// remaining trial: one `RunTrial` action per remaining trial, each sample
/// a trial contributes appended in order, and each unsuccessful trial
/// counted, while the other trials go on undisturbed.
proof fn lemma_trial_loop(m: OrchModel, evs: Seq<EventModel>)
    requires
        valid_run(m, evs),
        last_state(m, evs).phase is Finished,
        m.phase is AwaitTrial || m.phase is AwaitStop || m.phase is AwaitClear || m.phase
            is Finished,
        m.phase is AwaitTrial ==> m.trials_done < m.run_count,
    ensures
        ({
            let f = last_state(m, evs);
            let ls = trial_logs(evs);
            let k = if m.phase is AwaitTrial {
                m.run_count - m.trials_done
            } else {
                0int
            };
            &&& ls.len() == k
            &&& action_count(actions_of(m, evs), Action::RunTrial) == k
            &&& f.trials_done == m.trials_done + k
            &&& f.durations == m.durations + durations_gained(ls)
            &&& f.rates == m.rates + rates_gained(ls)
            &&& f.failed_trials == m.failed_trials + failures_gained(ls)
            &&& f.run_count == m.run_count
        }),
    decreases evs.len(),
{
    let f = last_state(m, evs);
    let ls = trial_logs(evs);
    if m.phase is Finished {
        lemma_finished_stops(m, evs);
        assert(f == m);
        assert(m.durations + durations_gained(ls) =~= m.durations);
        assert(m.rates + rates_gained(ls) =~= m.rates);
    } else {
        if evs.len() == 0 {
            assert(f == m);
            assert(false);
        }
        let e = evs[0];
        let m1 = spec_step(m, e);
        let evs1 = evs.drop_first();
        assert(event_matches(m, e));
        if m.phase is AwaitTrial {
            let lo = e->TrialFinished_0;
            assert(m1 == process_trial(m, lo));
            lemma_trial_loop(m1, evs1);
            let ls1 = trial_logs(evs1);
            assert(ls =~= seq![lo] + ls1);
            assert(ls[0] == lo);
            assert(ls.drop_first() =~= ls1);
            let k = m.run_count - m.trials_done;
            assert(ls.len() == k);
            match lo {
                Option::Some(l) => {
                    match duration_sample(l) {
                        Option::Some(v) => {
                            assert(durations_gained(ls) =~= seq![v] + durations_gained(ls1));
                            assert(m.durations + durations_gained(ls) =~= m.durations.push(v)
                                + durations_gained(ls1));
                        },
                        Option::None => {
                            assert(durations_gained(ls) =~= durations_gained(ls1));
                        },
                    }
                    match delivery_rate_sample(l) {
                        Option::Some(v) => {
                            assert(rates_gained(ls) =~= seq![v] + rates_gained(ls1));
                            assert(m.rates + rates_gained(ls) =~= m.rates.push(v) + rates_gained(
                                ls1,
                            ));
                        },
                        Option::None => {
                            assert(rates_gained(ls) =~= rates_gained(ls1));
                        },
                    }
                },
                Option::None => {
                    assert(durations_gained(ls) =~= durations_gained(ls1));
                    assert(rates_gained(ls) =~= rates_gained(ls1));
                },
            }
            assert(actions_of(m, evs) == seq![Action::RunTrial] + actions_of(m1, evs1));
            assert(actions_of(m, evs).drop_first() =~= actions_of(m1, evs1));
            assert(actions_of(m, evs)[0] == Action::RunTrial);
        } else {
            assert(!(e is TrialFinished));
            assert(trial_logs(evs) =~= trial_logs(evs1));
            assert(m1.phase is AwaitClear || m1.phase is Finished);
            lemma_trial_loop(m1, evs1);
            assert(m1.durations == m.durations && m1.rates == m.rates && m1.failed_trials
                == m.failed_trials && m1.trials_done == m.trials_done);
            assert(actions_of(m, evs) == seq![next_action_spec(m)] + actions_of(m1, evs1));
            assert(actions_of(m, evs).drop_first() =~= actions_of(m1, evs1));
            assert(actions_of(m, evs)[0] != Action::RunTrial);
        }
    }
}

/// Trial independence: in every completed run that applies its profile and
/// spawns its server, all `n` trials execute — one `RunTrial` action per
/// trial — and the final sample collections are exactly what the trial
/// logs contribute, in order: a failing trial is counted and skipped while
/// every other trial still contributes its samples.
pub proof fn lemma_trial_independence(n: int, evs: Seq<EventModel>)
    requires
        n > 0,
        valid_run(init_model(n), evs),
        evs.len() >= 2,
        evs[0] == EventModel::ApplyFinished(true),
        evs[1] == EventModel::ServerSpawned(true),
        last_state(init_model(n), evs).phase is Finished,
    ensures
        ({
            let f = last_state(init_model(n), evs);
            let ls = trial_logs(evs);
            &&& ls.len() == n
            &&& action_count(actions_of(init_model(n), evs), Action::RunTrial) == n
            &&& f.trials_done == n
            &&& f.durations == durations_gained(ls)
            &&& f.rates == rates_gained(ls)
            &&& f.failed_trials == failures_gained(ls)
        }),
{
    let m0 = init_model(n);
    let m1 = spec_step(m0, evs[0]);
    let evs1 = evs.drop_first();
    assert(m1.phase is AwaitServer);
    assert(valid_run(m1, evs1));
    assert(evs1[0] == evs[1]);
    let m2 = spec_step(m1, evs1[0]);
    let evs2 = evs1.drop_first();
    assert(m2.phase is AwaitTrial);
    assert(m2.trials_done == 0 && m2.run_count == n);
    assert(valid_run(m2, evs2));
    assert(last_state(m0, evs) == last_state(m1, evs1));
    assert(last_state(m1, evs1) == last_state(m2, evs2));
    lemma_trial_loop(m2, evs2);
    let ls2 = trial_logs(evs2);
    assert(trial_logs(evs1) =~= ls2);
    assert(trial_logs(evs) =~= ls2);
    let f = last_state(m0, evs);
    assert(f.durations == m2.durations + durations_gained(ls2));
    assert(f.durations =~= durations_gained(ls2));
    assert(f.rates =~= rates_gained(ls2));
    let a0 = actions_of(m0, evs);
    let a1 = actions_of(m1, evs1);
    let a2 = actions_of(m2, evs2);
    assert(a1 == seq![Action::SpawnServer] + a2);
    assert(a0 == seq![Action::ApplyNetwork] + a1);
    assert(a0[0] == Action::ApplyNetwork && a0.len() > 0);
    assert(a0.drop_first() =~= a1);
    assert(action_count(a0, Action::RunTrial) == action_count(a1, Action::RunTrial));
    assert(a1[0] == Action::SpawnServer && a1.len() > 0);
    assert(a1.drop_first() =~= a2);
    assert(action_count(a1, Action::RunTrial) == action_count(a2, Action::RunTrial));
    assert(trial_logs(evs).len() == n);
    assert(f.failed_trials == failures_gained(trial_logs(evs)));
}

} // verus!

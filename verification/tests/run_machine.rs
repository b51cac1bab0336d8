use boar::endpoint::EndpointSetup;
use boar::error::BoarError;
use boar::network::NetworkSetup;
use boar::orchestrator::{Action, Event, ExecutionPlan, Orchestrator, Phase};
use boar::report::Report;
use boar::stats::Stats;

fn plan_with_trials(run_count: u16) -> ExecutionPlan {
    ExecutionPlan {
        uuid: "test-run-0001".to_string(),
        network: NetworkSetup::new("./scripts/virt_config_tc.sh".to_string()),
        endpoint: EndpointSetup::new(
            "../quiche/target/debug/quiche-client".to_string(),
            "RUST_LOG=info".to_string(),
            "../quiche/target/debug/examples/async_http3_server".to_string(),
            "127.0.0.1".to_string(),
            "9999".to_string(),
            "bbr".to_string(),
        ),
        download_bytes: 1_000_000,
        run_count,
    }
}

fn good_client_log(ms: u64, rate: u64) -> String {
    format!(
        "INFO quiche_apps::common] 1/1 response(s) received in {}ms, closing... \
         connection closed cwnd=13500 delivery_rate={}",
        ms, rate
    )
}

#[test]
fn network_setup_records_script_defaults() {
    let n = NetworkSetup::new("./scripts/test.sh".to_string());
    assert_eq!(n.cmd, "./scripts/test.sh");
    assert_eq!(n.delay_ms, 50);
    assert_eq!(n.loss_pct, 0);
    assert_eq!(n.rate_mbit, 20);
}

#[test]
fn apply_failure_still_clears_and_spawns_nothing() {
    // If applying the network profile fails, the machine asks for exactly
    // one clear and never asks for a server or a client.
    let mut orch = Orchestrator::new(plan_with_trials(5));
    assert_eq!(orch.next_action(), Action::ApplyNetwork);
    orch.step(Event::ApplyFinished(false));
    assert_eq!(orch.next_action(), Action::ClearNetwork);
    orch.step(Event::ClearFinished(true));
    assert_eq!(orch.next_action(), Action::Finish);
    assert_eq!(orch.phase, Phase::Finished);
    assert_eq!(orch.fatal, Some(BoarError::EnvironmentError));
    assert_eq!(orch.trials_done, 0);
    assert!(orch.durations.is_empty());
    assert!(orch.rates.is_empty());
}

#[test]
fn server_spawn_failure_is_fatal_but_clears() {
    let mut orch = Orchestrator::new(plan_with_trials(3));
    orch.step(Event::ApplyFinished(true));
    assert_eq!(orch.next_action(), Action::SpawnServer);
    orch.step(Event::ServerSpawned(false));
    assert_eq!(orch.next_action(), Action::ClearNetwork);
    orch.step(Event::ClearFinished(true));
    assert_eq!(orch.fatal, Some(BoarError::ProcessSpawnError));
    assert_eq!(orch.trials_done, 0);
}

#[test]
fn failing_trial_does_not_abort_the_rest() {
    // Trial 2 of 5 yields no extractable metric; trials 3-5 still execute
    // and the run completes with 4 valid samples of each client metric.
    let mut orch = Orchestrator::new(plan_with_trials(5));
    orch.step(Event::ApplyFinished(true));
    orch.step(Event::ServerSpawned(true));
    let mut run_trial_actions = 0;
    for i in 1..=5u64 {
        assert_eq!(orch.next_action(), Action::RunTrial);
        run_trial_actions += 1;
        let logs = if i == 2 {
            "garbled output with no metric report".to_string()
        } else {
            good_client_log(10 * i, 1000 * i)
        };
        orch.step(Event::TrialFinished(Some(logs)));
    }
    assert_eq!(run_trial_actions, 5);
    assert_eq!(orch.trials_done, 5);
    assert_eq!(orch.failed_trials, 1);
    assert_eq!(orch.durations, vec![10, 30, 40, 50]);
    assert_eq!(orch.rates, vec![1000, 3000, 4000, 5000]);
    assert_eq!(orch.next_action(), Action::StopServer);
    orch.step(Event::ServerStopped(vec![
        "stream closed: startup_exit=Some(StartupExit { cwnd: 28079, bandwidth: Some(54321), reason: BandwidthPlateau })".to_string(),
    ]));
    assert_eq!(orch.next_action(), Action::ClearNetwork);
    orch.step(Event::ClearFinished(true));
    assert_eq!(orch.next_action(), Action::Finish);
    assert_eq!(orch.fatal, None);
    assert_eq!(orch.startup_exits, vec![54321]);
}

#[test]
fn client_launch_failure_counts_as_failed_trial() {
    let mut orch = Orchestrator::new(plan_with_trials(2));
    orch.step(Event::ApplyFinished(true));
    orch.step(Event::ServerSpawned(true));
    orch.step(Event::TrialFinished(None));
    orch.step(Event::TrialFinished(Some(good_client_log(18, 1997003))));
    assert_eq!(orch.trials_done, 2);
    assert_eq!(orch.failed_trials, 1);
    assert_eq!(orch.durations, vec![18]);
    assert_eq!(orch.rates, vec![1997003]);
}

#[test]
fn clear_failure_surfaces_environment_error() {
    let mut orch = Orchestrator::new(plan_with_trials(0));
    orch.step(Event::ApplyFinished(true));
    orch.step(Event::ServerSpawned(true));
    assert_eq!(orch.next_action(), Action::StopServer);
    orch.step(Event::ServerStopped(Vec::new()));
    orch.step(Event::ClearFinished(false));
    assert_eq!(orch.fatal, Some(BoarError::EnvironmentError));
    assert_eq!(orch.phase, Phase::Finished);
}

#[test]
fn report_isolates_empty_kinds() {
    let plan = plan_with_trials(2);
    let full = Stats::new("DownloadDuration".to_string(), vec![18, 25]);
    let empty = Stats::new("StartupExit".to_string(), Vec::new());
    let report = Report::new(plan, 0, vec![full, empty]);
    assert_eq!(report.stat_report.len(), 2);
    assert_eq!(report.stat_report[0].name, "DownloadDuration");
    assert!(report.stat_report[0].aggregate.is_some());
    assert_eq!(report.stat_report[0].cdf.len(), 2);
    assert_eq!(report.stat_report[1].name, "StartupExit");
    assert!(report.stat_report[1].aggregate.is_none());
    assert!(report.stat_report[1].cdf.is_empty());
}

#[test]
fn error_descriptions_are_stable() {
    assert_eq!(BoarError::EnvironmentError.describe(), "environment error");
    assert_eq!(BoarError::ProcessSpawnError.describe(), "process spawn error");
    assert_eq!(BoarError::ExtractionError.describe(), "extraction error");
    assert_eq!(BoarError::EmptyDataset.describe(), "empty dataset");
    assert_eq!(BoarError::ReportWriteError.describe(), "report write error");
}

use llama_tray::config::{AppConfig, BinaryLocation};
use llama_tray::server::{health_wait_expired, plan_start, HealthOutcome, PollStep, ProcessCheck, ServerManager, ServerPhase, ServerStatus};

fn config_with_model() -> AppConfig {
    let mut c = AppConfig::default();
    c.profiles[0].args = "-ngl 99 \"--x=a b\" --host 0.0.0.0 --port 8081".to_string();
    c.active_model_path = Some("/models/qwen.gguf".to_string());
    c
}

fn stopped() -> ServerStatus {
    ServerStatus::default()
}

#[test]
fn plan_start_builds_launch() {
    let c = config_with_model();
    let plan = plan_start(&stopped(), &c, Ok(BinaryLocation::Given), true, true).unwrap();
    assert!(plan.binary == BinaryLocation::Given);
    assert_eq!(plan.args, vec!["-ngl", "99", "\"--x=a b\"", "--host", "0.0.0.0", "--port", "8081"]);
    assert_eq!(plan.bare_args, vec!["-ngl", "99", "--x=a b", "--host", "0.0.0.0", "--port", "8081"]);
    assert_eq!(plan.model.as_deref(), Some("/models/qwen.gguf"));
    assert_eq!(plan.alias.as_deref(), Some("qwen"));
    assert_eq!(plan.url, "http://127.0.0.1:8081");
    let plan = plan_start(&stopped(), &c, Ok(BinaryLocation::DirServer), false, false).unwrap();
    assert!(plan.model.is_none() && plan.alias.is_none());
}

#[test]
fn command_line_of_a_plan() {
    let c = config_with_model();
    let plan = plan_start(&stopped(), &c, Ok(BinaryLocation::Given), true, true).unwrap();
    assert_eq!(
        plan.command_args(false),
        vec!["-ngl", "99", "--x=a b", "--host", "0.0.0.0", "--port", "8081", "-m", "/models/qwen.gguf", "--alias", "qwen"]
    );
    assert_eq!(
        plan.command_args(true),
        vec!["-ngl", "99", "\"--x=a b\"", "--host", "0.0.0.0", "--port", "8081", "-m", "/models/qwen.gguf", "--alias", "qwen"]
    );
    let plan = plan_start(&stopped(), &c, Ok(BinaryLocation::Given), false, false).unwrap();
    assert_eq!(plan.command_args(false), vec!["-ngl", "99", "--x=a b", "--host", "0.0.0.0", "--port", "8081"]);
}

#[test]
fn health_wait_is_over_after_two_minutes() {
    assert!(!health_wait_expired(0, 0));
    assert!(!health_wait_expired(119, 999_999_999));
    assert!(!health_wait_expired(120, 0));
    assert!(health_wait_expired(120, 1));
    assert!(health_wait_expired(121, 0));
}

#[test]
fn plan_start_errors_in_order() {
    let c = config_with_model();
    let mut running = stopped();
    running.phase = ServerPhase::RunningEmpty;
    assert_eq!(
        plan_start(&running, &c, Err("bin".to_string()), true, true).unwrap_err(),
        "Server is already running or starting"
    );
    assert_eq!(plan_start(&stopped(), &c, Err("bin".to_string()), true, true).unwrap_err(), "bin");
    let mut empty = c.clone_for_test();
    empty.profiles.clear();
    assert_eq!(
        plan_start(&stopped(), &empty, Ok(BinaryLocation::Given), true, true).unwrap_err(),
        "No active profile"
    );
    let mut bad = config_with_model();
    bad.profiles[0].args = "--model x".to_string();
    assert_eq!(
        plan_start(&stopped(), &bad, Ok(BinaryLocation::Given), false, true).unwrap_err(),
        "Профиль не должен содержать -m / --model / --alias — модель выбирается отдельно"
    );
    let mut none = config_with_model();
    none.active_model_path = None;
    assert_eq!(
        plan_start(&stopped(), &none, Ok(BinaryLocation::Given), true, true).unwrap_err(),
        "No model selected"
    );
    assert_eq!(
        plan_start(&stopped(), &c, Ok(BinaryLocation::Given), true, false).unwrap_err(),
        "Model file not found: /models/qwen.gguf"
    );
}

trait CloneForTest {
    fn clone_for_test(&self) -> AppConfig;
}

impl CloneForTest for AppConfig {
    fn clone_for_test(&self) -> AppConfig {
        let mut c = AppConfig::default();
        c.version = self.version;
        c.llama_cpp_path = self.llama_cpp_path.clone();
        c.models_dir = self.models_dir.clone();
        c.autostart = self.autostart;
        c.active_profile_id = self.active_profile_id.clone();
        c.active_model_path = self.active_model_path.clone();
        c
    }
}

fn started(with_model: bool) -> ServerManager<u32, u64> {
    let c = config_with_model();
    let mut m: ServerManager<u32, u64> = ServerManager::new();
    let plan = plan_start(&m.status(), &c, Ok(BinaryLocation::Given), with_model, true).unwrap();
    m.start(plan, 77, 1000, 4242);
    m
}

#[test]
fn start_sets_starting_status() {
    let m = started(true);
    let s = m.status();
    assert!(s.phase == ServerPhase::Starting);
    assert_eq!(s.pid, Some(4242));
    assert_eq!(s.url.as_deref(), Some("http://127.0.0.1:8081"));
    assert!(s.wants_model);
    assert!(s.loaded_model.is_none() && s.last_error.is_none());
    assert_eq!(m.started_at(), Some(&1000));
}

#[test]
fn poll_asks_for_health_then_runs_loaded() {
    let mut m = started(true);
    match m.poll_process(ProcessCheck::Running) {
        PollStep::CheckHealth(u) => assert_eq!(u, "http://127.0.0.1:8081/health"),
        PollStep::Done => panic!("expected a health check"),
    }
    assert!(m.poll_health(HealthOutcome::Healthy, false).is_none());
    let s = m.status();
    assert!(s.phase == ServerPhase::RunningLoaded);
    assert_eq!(s.loaded_model.as_deref(), Some("/models/qwen.gguf"));
}

#[test]
fn healthy_without_model_runs_empty() {
    let mut m = started(false);
    assert!(matches!(m.poll_process(ProcessCheck::Running), PollStep::CheckHealth(_)));
    m.poll_health(HealthOutcome::Healthy, false);
    assert!(m.status().phase == ServerPhase::RunningEmpty);
    assert!(m.status().loaded_model.is_none());
}

#[test]
fn exit_is_an_error() {
    let mut m = started(true);
    assert!(matches!(m.poll_process(ProcessCheck::Exited(Some(-3))), PollStep::Done));
    let s = m.status();
    assert!(s.phase == ServerPhase::Error);
    assert_eq!(s.pid, None);
    assert_eq!(s.last_error.as_deref(), Some("llama-server process exited (code -3)"));
    let mut m = started(true);
    m.poll_process(ProcessCheck::Exited(None));
    assert_eq!(m.status().last_error.as_deref(), Some("llama-server process exited (code -1)"));
    assert!(m.child_mut().is_none());
}

#[test]
fn check_failure_is_recorded() {
    let mut m = started(true);
    assert!(matches!(m.poll_process(ProcessCheck::Failed("boom".to_string())), PollStep::CheckHealth(_)));
    assert_eq!(m.status().last_error.as_deref(), Some("Process check error: boom"));
    assert!(m.status().phase == ServerPhase::Starting);
}

#[test]
fn startup_timeout_stops_with_error() {
    let mut m = started(true);
    m.poll_process(ProcessCheck::Running);
    assert_eq!(m.poll_health(HealthOutcome::Unhealthy, true), Some(77));
    let s = m.status();
    assert!(s.phase == ServerPhase::Error);
    assert_eq!(s.last_error.as_deref(), Some("/health wait timeout (120s)"));
    assert!(s.url.is_none() && s.pid.is_none() && s.loaded_model.is_none());
    assert!(!s.wants_model);
    assert!(m.child_mut().is_none());
    assert!(m.started_at().is_none());

    let mut m = started(true);
    m.poll_process(ProcessCheck::Running);
    assert_eq!(m.poll_health(HealthOutcome::Failed("refused".to_string()), true), Some(77));
    let s = m.status();
    assert_eq!(s.last_error.as_deref(), Some("Health check: refused"));
    assert!(s.phase == ServerPhase::Error && s.url.is_none() && !s.wants_model);
}

#[test]
fn waiting_start_stays_starting() {
    let mut m = started(true);
    m.poll_process(ProcessCheck::Running);
    assert!(m.poll_health(HealthOutcome::Unhealthy, false).is_none());
    assert!(m.status().phase == ServerPhase::Starting);
    assert!(m.poll_health(HealthOutcome::Failed("x".to_string()), false).is_none());
    assert!(m.status().last_error.is_none());
}

#[test]
fn running_health_failure_is_transient() {
    let mut m = started(true);
    m.poll_process(ProcessCheck::Running);
    m.poll_health(HealthOutcome::Healthy, false);
    assert!(m.poll_health(HealthOutcome::Failed("slow".to_string()), true).is_none());
    assert!(m.status().phase == ServerPhase::RunningLoaded);
    assert_eq!(m.status().last_error.as_deref(), Some("Health: slow"));
}

#[test]
fn stop_returns_child_and_clears_status() {
    let mut m = started(true);
    assert_eq!(m.stop(), Some(77));
    let s = m.status();
    assert!(s.phase == ServerPhase::Stopped);
    assert!(s.pid.is_none() && s.url.is_none() && s.last_error.is_none() && !s.wants_model);
    assert_eq!(m.stop(), None);
    assert!(matches!(m.poll_process(ProcessCheck::Running), PollStep::Done));
}

#[test]
fn set_last_error_keeps_phase() {
    let mut m = started(false);
    m.set_last_error("oops".to_string());
    assert_eq!(m.status().last_error.as_deref(), Some("oops"));
    assert!(m.status().phase == ServerPhase::Starting);
}

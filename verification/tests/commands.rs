use llama_tray::commands::{check_load, check_unload, has_models_dir, initial_models, start_with_model, status_changed};
use llama_tray::config::AppConfig;
use llama_tray::models::ModelEntry;
use llama_tray::server::{ServerPhase, ServerStatus};

#[test]
fn load_needs_model_and_server() {
    let mut c = AppConfig::default();
    assert!(!start_with_model(&c));
    assert_eq!(check_load(&c, ServerPhase::RunningEmpty).unwrap_err(), "No model selected");
    c.active_model_path = Some("/m/a.gguf".to_string());
    assert!(start_with_model(&c));
    assert_eq!(check_load(&c, ServerPhase::Stopped).unwrap_err(), "Start the server first");
    assert_eq!(check_load(&c, ServerPhase::Error).unwrap_err(), "Start the server first");
    assert!(check_load(&c, ServerPhase::Starting).is_ok());
    assert!(check_load(&c, ServerPhase::RunningLoaded).is_ok());
}

#[test]
fn unload_needs_loaded_model() {
    assert!(check_unload(ServerPhase::RunningLoaded).is_ok());
    assert_eq!(check_unload(ServerPhase::RunningEmpty).unwrap_err(), "Model is not loaded");
}

#[test]
fn change_detection() {
    let mut s = ServerStatus::default();
    assert!(!status_changed(ServerPhase::Stopped, &None, &s));
    assert!(status_changed(ServerPhase::Starting, &None, &s));
    s.last_error = Some("x".to_string());
    assert!(status_changed(ServerPhase::Stopped, &None, &s));
    assert!(!status_changed(ServerPhase::Stopped, &Some("x".to_string()), &s));
    assert!(status_changed(ServerPhase::Stopped, &Some("y".to_string()), &s));
}

#[test]
fn startup_models() {
    let mut c = AppConfig::default();
    let found = || Ok(vec![ModelEntry { path: "/m/a".to_string(), relative_path: "a".to_string(), name: "a".to_string(), group: "(root)".to_string() }]);
    assert!(!has_models_dir(&c));
    assert!(initial_models(&c, found()).is_empty());
    c.models_dir = "  ".to_string();
    assert!(initial_models(&c, found()).is_empty());
    c.models_dir = "/m".to_string();
    assert!(has_models_dir(&c));
    assert_eq!(initial_models(&c, found()).len(), 1);
    assert!(initial_models(&c, Err("gone".to_string())).is_empty());
}

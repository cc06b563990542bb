//! The checks and decisions behind the user's commands: loading and
//! unloading a model, noticing status changes, and the initial model list.

use vstd::prelude::*;
use crate::config::AppConfig;
use crate::models::ModelEntry;
use crate::server::{ServerPhase, ServerStatus};
use crate::text::{trim_str, trim_ws};

verus! {

broadcast use vstd::string::group_string_axioms;

/// Whether a start should load the selected model: it does when one is
/// selected.
pub fn start_with_model(config: &AppConfig) -> (r: bool)
    ensures
        r == config.active_model_path is Some,
{
    config.active_model_path.is_some()
}

/// Checks that the selected model can be loaded: one must be selected and
/// the server must be starting or running.
pub fn check_load(config: &AppConfig, phase: ServerPhase) -> (r: Result<(), String>)
    ensures
        r is Ok <==> (config.active_model_path is Some && (phase == ServerPhase::RunningEmpty
            || phase == ServerPhase::RunningLoaded || phase == ServerPhase::Starting)),
        r matches Err(e) ==> e@ == if config.active_model_path is None {
            "No model selected"@
        } else {
            "Start the server first"@
        },
{
    if config.active_model_path.is_none() {
        return Err("No model selected".to_string());
    }
    if !(phase == ServerPhase::RunningEmpty || phase == ServerPhase::RunningLoaded || phase
        == ServerPhase::Starting) {
        return Err("Start the server first".to_string());
    }
    Ok(())
}

/// Checks that a model can be unloaded: one must be loaded.
pub fn check_unload(phase: ServerPhase) -> (r: Result<(), String>)
    ensures
        r is Ok <==> phase == ServerPhase::RunningLoaded,
        r matches Err(e) ==> e@ == "Model is not loaded"@,
{
    if phase != ServerPhase::RunningLoaded {
        return Err("Model is not loaded".to_string());
    }
    Ok(())
}

/// Whether a poll changed what the user sees: the phase or the error.
pub fn status_changed(before_phase: ServerPhase, before_error: &Option<String>, after: &ServerStatus) -> (r: bool)
    ensures
        r == (before_phase != after.phase || match (before_error, after.last_error) {
            (Some(a), Some(b)) => a@ != b@,
            (None, None) => false,
            _ => true,
        }),
{
    if before_phase != after.phase {
        return true;
    }
    match (before_error, &after.last_error) {
        (Some(a), Some(b)) => !(*a == *b),
        (None, None) => false,
        _ => true,
    }
}

/// Whether a models directory is configured (not blank).
pub fn has_models_dir(config: &AppConfig) -> (r: bool)
    ensures
        r == (trim_ws(config.models_dir@).len() > 0),
{
    let t = trim_str(config.models_dir.as_str());
    !t.as_str().is_empty()
}

/// The model list shown at startup: none without a models directory, and
/// otherwise what scanning it found (none when scanning failed).
pub fn initial_models(config: &AppConfig, scanned: Result<Vec<ModelEntry>, String>) -> (r: Vec<ModelEntry>)
    ensures
        trim_ws(config.models_dir@).len() == 0 ==> r@.len() == 0,
        trim_ws(config.models_dir@).len() > 0 ==> r@ == match scanned {
            Ok(v) => v@,
            Err(_) => Seq::<ModelEntry>::empty(),
        },
{
    if !has_models_dir(config) {
        return Vec::new();
    }
    match scanned {
        Ok(v) => v,
        Err(_) => Vec::new(),
    }
}

} // verus!

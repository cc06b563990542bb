use llama_tray::config::{new_profile_id, AppConfig, BinaryLocation, BinaryProbe, Profile, ProfileInput, CONFIG_VERSION, DEFAULT_PROFILE_ARGS};

fn prof(id: &str, name: &str) -> Profile {
    Profile { id: id.to_string(), name: name.to_string(), args: "-ngl 1".to_string() }
}

fn cfg(profiles: Vec<Profile>, active: &str) -> AppConfig {
    AppConfig {
        version: 1,
        llama_cpp_path: String::new(),
        models_dir: String::new(),
        autostart: false,
        active_profile_id: active.to_string(),
        active_model_path: None,
        profiles,
    }
}

fn ids(c: &AppConfig) -> Vec<String> {
    c.profiles.iter().map(|p| p.id.clone()).collect()
}

#[test]
fn default_config() {
    let c = AppConfig::default();
    assert_eq!(c.version, CONFIG_VERSION);
    assert_eq!(c.active_profile_id, "default");
    assert_eq!(c.profiles.len(), 1);
    assert_eq!(c.profiles[0].id, "default");
    assert_eq!(c.profiles[0].name, "Qwen 27B");
    assert_eq!(c.profiles[0].args, DEFAULT_PROFILE_ARGS);
    assert!(c.active_model_path.is_none());
    assert!(llama_tray::args::validate_profile_args(DEFAULT_PROFILE_ARGS).is_ok());
}

#[test]
fn migrate_fills_empty_profiles() {
    let mut c = cfg(vec![], "x");
    c.version = 0;
    let m = c.migrate();
    assert_eq!(m.version, CONFIG_VERSION);
    assert_eq!(ids(&m), vec!["default"]);
    assert_eq!(m.active_profile_id, "default");
}

#[test]
fn migrate_repairs_active_id() {
    let m = cfg(vec![prof("a", "A"), prof("b", "B")], "zzz").migrate();
    assert_eq!(m.active_profile_id, "a");
    let m = cfg(vec![prof("a", "A"), prof("b", "B")], "b").migrate();
    assert_eq!(m.active_profile_id, "b");
}

#[test]
fn migrate_is_idempotent() {
    let m1 = cfg(vec![prof("a", "A")], "q").migrate();
    let m2 = cfg(vec![prof("a", "A")], "q").migrate().migrate();
    assert_eq!(m1.active_profile_id, m2.active_profile_id);
    assert_eq!(ids(&m1), ids(&m2));
    assert_eq!(m1.version, m2.version);
}

#[test]
fn active_profile_prefers_active_id() {
    let c = cfg(vec![prof("a", "A"), prof("b", "B"), prof("b", "B2")], "b");
    assert_eq!(c.active_profile().unwrap().name, "B");
    let c = cfg(vec![prof("a", "A"), prof("b", "B")], "nope");
    assert_eq!(c.active_profile().unwrap().name, "A");
    let c = cfg(vec![], "nope");
    assert!(c.active_profile().is_none());
}

#[test]
fn set_active_profile_checks_id() {
    let mut c = cfg(vec![prof("a", "A"), prof("b", "B")], "a");
    assert!(c.set_active_profile("b".to_string()).is_ok());
    assert_eq!(c.active_profile_id, "b");
    assert_eq!(c.active_profile().unwrap().id, "b");
    assert_eq!(c.set_active_profile("c".to_string()).unwrap_err(), "Profile not found");
    assert_eq!(c.active_profile_id, "b");
}

#[test]
fn delete_keeps_last_profile() {
    let mut c = cfg(vec![prof("a", "A")], "a");
    assert_eq!(c.delete_profile(&"a".to_string()).unwrap_err(), "Cannot delete the last profile");
    assert_eq!(ids(&c), vec!["a"]);
}

#[test]
fn delete_moves_active_to_first() {
    let mut c = cfg(vec![prof("a", "A"), prof("b", "B"), prof("a", "A2"), prof("c", "C")], "a");
    assert!(c.delete_profile(&"a".to_string()).is_ok());
    assert_eq!(ids(&c), vec!["b", "c"]);
    assert_eq!(c.active_profile_id, "b");
    let mut c = cfg(vec![prof("a", "A"), prof("b", "B")], "a");
    assert!(c.delete_profile(&"b".to_string()).is_ok());
    assert_eq!(ids(&c), vec!["a"]);
    assert_eq!(c.active_profile_id, "a");
    let mut c = cfg(vec![prof("a", "A"), prof("b", "B")], "a");
    assert!(c.delete_profile(&"zz".to_string()).is_ok());
    assert_eq!(ids(&c), vec!["a", "b"]);
}

#[test]
fn delete_every_profile_when_another_is_active() {
    let mut c = cfg(vec![prof("a", "A"), prof("a", "A2")], "x");
    assert!(c.delete_profile(&"a".to_string()).is_ok());
    assert!(c.profiles.is_empty());
    assert_eq!(c.active_profile_id, "x");
}

#[test]
fn upsert_adds_profile() {
    let mut c = cfg(vec![prof("a", "A")], "a");
    let input = ProfileInput { id: None, name: "New".to_string(), args: "-ngl 5".to_string() };
    assert!(c.upsert_profile_with_id(input, "fresh".to_string()).is_ok());
    assert_eq!(ids(&c), vec!["a", "fresh"]);
    assert_eq!(c.active_profile_id, "fresh");
    assert_eq!(c.profiles[1].name, "New");
    assert_eq!(c.profiles[1].args, "-ngl 5");
    assert_eq!(c.active_profile().unwrap().name, "New");
}

#[test]
fn upsert_with_random_id() {
    let mut c = cfg(vec![prof("a", "A")], "a");
    let input = ProfileInput { id: Some(String::new()), name: "N".to_string(), args: String::new() };
    assert!(c.upsert_profile(input).is_ok());
    assert_eq!(c.profiles.len(), 2);
    assert_eq!(c.active_profile_id, c.profiles[1].id);
    assert_eq!(c.active_profile_id.len(), 36);
    assert_ne!(c.active_profile_id, "a");
    for (k, ch) in c.active_profile_id.chars().enumerate() {
        if k == 8 || k == 13 || k == 18 || k == 23 {
            assert_eq!(ch, '-');
        } else {
            assert!(ch.is_ascii_digit() || ('a'..='f').contains(&ch));
        }
    }
    assert_eq!(c.active_profile_id.chars().nth(14), Some('4'));
}

#[test]
fn upsert_edits_first_match() {
    let mut c = cfg(vec![prof("a", "A"), prof("b", "B"), prof("b", "B2")], "a");
    let input = ProfileInput { id: Some("b".to_string()), name: "Bee".to_string(), args: "-t 2".to_string() };
    assert!(c.upsert_profile(input).is_ok());
    assert_eq!(c.profiles[1].name, "Bee");
    assert_eq!(c.profiles[1].args, "-t 2");
    assert_eq!(c.profiles[2].name, "B2");
    assert_eq!(c.active_profile_id, "a");
}

#[test]
fn upsert_errors() {
    let mut c = cfg(vec![prof("a", "A")], "a");
    let bad = ProfileInput { id: None, name: "X".to_string(), args: "-m x".to_string() };
    assert_eq!(
        c.upsert_profile(bad).unwrap_err(),
        "Профиль не должен содержать -m / --model / --alias — модель выбирается отдельно"
    );
    let blank = ProfileInput { id: None, name: " \t".to_string(), args: String::new() };
    assert_eq!(c.upsert_profile(blank).unwrap_err(), "Profile name cannot be empty");
    let missing = ProfileInput { id: Some("zz".to_string()), name: "X".to_string(), args: String::new() };
    assert_eq!(c.upsert_profile(missing).unwrap_err(), "Profile not found");
    assert_eq!(ids(&c), vec!["a"]);
}

#[test]
fn new_profile_id_shape() {
    let id = new_profile_id();
    assert_eq!(id.len(), 36);
    for (k, ch) in id.chars().enumerate() {
        if [8, 13, 18, 23].contains(&k) {
            assert_eq!(ch, '-');
        } else {
            assert!(ch.is_ascii_hexdigit() && !ch.is_ascii_uppercase());
        }
    }
    assert_eq!(id.chars().nth(14), Some('4'));
    assert_ne!(new_profile_id(), id);
}

fn probe(is_file: bool, is_dir: bool, exe: bool, server: bool) -> BinaryProbe {
    BinaryProbe { is_file, is_dir, exe_in_dir: exe, server_in_dir: server }
}

#[test]
fn resolve_binary_cases() {
    let mut c = AppConfig::default();
    assert_eq!(c.resolve_llama_binary(&probe(true, false, false, false)).unwrap_err(), "Путь к llama.cpp не задан");
    c.llama_cpp_path = "  /opt/llama  ".to_string();
    assert_eq!(c.llama_binary_path(), "/opt/llama");
    assert!(c.resolve_llama_binary(&probe(true, false, false, false)).unwrap() == BinaryLocation::Given);
    assert!(c.resolve_llama_binary(&probe(false, true, true, true)).unwrap() == BinaryLocation::DirExe);
    assert!(c.resolve_llama_binary(&probe(false, true, false, true)).unwrap() == BinaryLocation::DirServer);
    assert_eq!(
        c.resolve_llama_binary(&probe(false, true, false, false)).unwrap_err(),
        "В папке /opt/llama не найден llama-server.exe"
    );
    assert_eq!(
        c.resolve_llama_binary(&probe(false, false, false, false)).unwrap_err(),
        "Путь к llama.cpp не существует: /opt/llama"
    );
}

#[test]
fn settings_and_model_choice() {
    let mut c = AppConfig::default();
    c.apply_settings("/bin".to_string(), "/m".to_string(), true);
    assert_eq!(c.llama_cpp_path, "/bin");
    assert_eq!(c.models_dir, "/m");
    assert!(c.autostart);
    c.set_active_model(Some("/m/a.gguf".to_string()));
    assert_eq!(c.active_model_path.as_deref(), Some("/m/a.gguf"));
}

use llama_tray::config::AppConfig;
use llama_tray::models::ModelEntry;
use llama_tray::server::{ServerPhase, ServerStatus};
use llama_tray::tray::{build_menu, menu_command, phase_label, status_icon_rgba, tooltip, tooltip_with, MenuCommand, ModelMenu};

fn entry(path: &str, rel: &str, name: &str, group: &str) -> ModelEntry {
    ModelEntry { path: path.to_string(), relative_path: rel.to_string(), name: name.to_string(), group: group.to_string() }
}

fn status(phase: ServerPhase) -> ServerStatus {
    let mut s = ServerStatus::default();
    s.phase = phase;
    s
}

#[test]
fn labels_per_phase() {
    assert_eq!(phase_label(ServerPhase::Stopped), "Server: stopped");
    assert_eq!(phase_label(ServerPhase::Starting), "Server: starting…");
    assert_eq!(phase_label(ServerPhase::RunningEmpty), "Server: running (no model)");
    assert_eq!(phase_label(ServerPhase::RunningLoaded), "Server: running");
    assert_eq!(phase_label(ServerPhase::Error), "Server: error");
}

#[test]
fn tooltip_lines() {
    let mut s = status(ServerPhase::RunningLoaded);
    assert_eq!(tooltip(&s), "Server: running");
    s.url = Some("http://127.0.0.1:8080".to_string());
    assert_eq!(tooltip(&s), "Server: running\nhttp://127.0.0.1:8080");
    s.loaded_model = Some("/m/qwen.q4.gguf".to_string());
    assert_eq!(tooltip(&s), "Server: running\nqwen.q4\nhttp://127.0.0.1:8080");
    assert_eq!(tooltip_with(&s, None), "Server: running\n/m/qwen.q4.gguf\nhttp://127.0.0.1:8080");
    s.loaded_model = Some("/".to_string());
    assert_eq!(tooltip(&s), "Server: running\n/\nhttp://127.0.0.1:8080");
}

#[test]
fn icon_colours_and_shape() {
    let px = |v: &Vec<u8>, x: usize, y: usize| v[(y * 16 + x) * 4..(y * 16 + x) * 4 + 4].to_vec();
    let grey = status_icon_rgba(ServerPhase::Stopped);
    assert_eq!(grey.len(), 1024);
    assert_eq!(px(&grey, 7, 7), vec![120, 120, 120, 255]);
    assert_eq!(px(&grey, 0, 0), vec![0, 0, 0, 0]);
    assert_eq!(px(&status_icon_rgba(ServerPhase::Starting), 8, 8), vec![220, 180, 40, 255]);
    assert_eq!(px(&status_icon_rgba(ServerPhase::RunningEmpty), 8, 7), vec![40, 180, 80, 255]);
    assert_eq!(px(&status_icon_rgba(ServerPhase::RunningLoaded), 7, 8), vec![40, 180, 80, 255]);
    assert_eq!(px(&status_icon_rgba(ServerPhase::Error), 7, 7), vec![200, 50, 50, 255]);
    // (1, 7): distance 6.5 from the centre, in the half-transparent rim.
    assert_eq!(px(&grey, 1, 7), vec![120, 120, 120, 120]);
    // (0, 7): distance 7.5, outside.
    assert_eq!(px(&grey, 0, 7), vec![0, 0, 0, 0]);
}

#[test]
fn icon_matches_float_disc() {
    let v = status_icon_rgba(ServerPhase::Error);
    for y in 0..16u32 {
        for x in 0..16u32 {
            let dx = x as f32 - 7.5;
            let dy = y as f32 - 7.5;
            let dist = (dx * dx + dy * dy).sqrt();
            let a = v[((y * 16 + x) * 4 + 3) as usize];
            let expected = if dist <= 6.0 { 255 } else if dist <= 7.0 { 120 } else { 0 };
            assert_eq!(a, expected);
        }
    }
}

#[test]
fn menu_ids_to_commands() {
    assert!(matches!(menu_command("start"), MenuCommand::Start));
    assert!(matches!(menu_command("stop"), MenuCommand::Stop));
    assert!(matches!(menu_command("load"), MenuCommand::Load));
    assert!(matches!(menu_command("unload"), MenuCommand::Unload));
    assert!(matches!(menu_command("settings"), MenuCommand::Settings));
    assert!(matches!(menu_command("quit"), MenuCommand::Quit));
    match menu_command("model:/m/a b.gguf") {
        MenuCommand::SelectModel(p) => assert_eq!(p, "/m/a b.gguf"),
        _ => panic!("model"),
    }
    match menu_command("profile:xyz") {
        MenuCommand::SelectProfile(p) => assert_eq!(p, "xyz"),
        _ => panic!("profile"),
    }
    assert!(matches!(menu_command("status"), MenuCommand::Ignore));
    assert!(matches!(menu_command("Start"), MenuCommand::Ignore));
}

#[test]
fn menu_flags_follow_phase() {
    let mut c = AppConfig::default();
    let m = build_menu(&c, &vec![], &status(ServerPhase::Stopped));
    assert!(m.can_start && !m.can_stop && !m.can_load && !m.can_unload);
    assert_eq!(m.status_label, "Server: stopped");
    assert!(matches!(m.models, ModelMenu::Empty));
    c.active_model_path = Some("/m/a.gguf".to_string());
    let m = build_menu(&c, &vec![], &status(ServerPhase::Starting));
    assert!(!m.can_start && m.can_stop && !m.can_load && !m.can_unload);
    let m = build_menu(&c, &vec![], &status(ServerPhase::RunningEmpty));
    assert!(m.can_stop && m.can_load && !m.can_unload);
    let m = build_menu(&c, &vec![], &status(ServerPhase::RunningLoaded));
    assert!(m.can_load && m.can_unload);
    let m = build_menu(&c, &vec![], &status(ServerPhase::Error));
    assert!(m.can_start && !m.can_stop);
}

#[test]
fn menu_flat_when_all_at_root() {
    let mut c = AppConfig::default();
    c.active_model_path = Some("/m/b.gguf".to_string());
    let models = vec![entry("/m/b.gguf", "b.gguf", "b", "(root)"), entry("/m/a.gguf", "a.gguf", "a", "(root)")];
    let m = build_menu(&c, &models, &status(ServerPhase::Stopped));
    match m.models {
        ModelMenu::Flat(items) => {
            assert_eq!(items.len(), 2);
            assert_eq!(items[0].id, "model:/m/b.gguf");
            assert_eq!(items[0].label, "b");
            assert!(items[0].checked);
            assert_eq!(items[1].label, "a");
            assert!(!items[1].checked);
        }
        _ => panic!("flat"),
    }
    assert_eq!(m.profiles.len(), 1);
    assert_eq!(m.profiles[0].id, "profile:default");
    match menu_command(&m.profiles[0].id) {
        MenuCommand::SelectProfile(p) => assert_eq!(p, "default"),
        _ => panic!("profile item"),
    }
    assert_eq!(m.profiles[0].label, "Qwen 27B");
    assert!(m.profiles[0].checked);
}

#[test]
fn menu_grouped_sorted_by_group() {
    let c = AppConfig::default();
    let models = vec![
        entry("/m/z/x.gguf", "z/x.gguf", "x", "z"),
        entry("/m/r.gguf", "r.gguf", "r", "(root)"),
        entry("/m/a/q/y.gguf", "a/q/y.gguf", "y", "a"),
        entry("/m/z/w.gguf", "z/w.gguf", "w", "z"),
    ];
    let m = build_menu(&c, &models, &status(ServerPhase::Stopped));
    match m.models {
        ModelMenu::Grouped(groups) => {
            let names: Vec<&str> = groups.iter().map(|g| g.name.as_str()).collect();
            assert_eq!(names, vec!["(root)", "a", "z"]);
            assert_eq!(groups[0].items[0].label, "r");
            assert_eq!(groups[1].items[0].label, "q/y.gguf");
            let z: Vec<&str> = groups[2].items.iter().map(|i| i.label.as_str()).collect();
            assert_eq!(z, vec!["x.gguf", "w.gguf"]);
            assert_eq!(groups[2].items[1].id, "model:/m/z/w.gguf");
            match menu_command(&groups[2].items[1].id) {
                MenuCommand::SelectModel(p) => assert_eq!(p, "/m/z/w.gguf"),
                _ => panic!("model item"),
            }
        }
        _ => panic!("grouped"),
    }
}

use llama_tray::models::{entries_from_walk, is_model_extension, model_entry, model_entries, sort_models, ModelEntry, WalkedFile};

#[test]
fn gguf_extension_any_case() {
    assert!(is_model_extension(Some("gguf")));
    assert!(is_model_extension(Some("GGUF")));
    assert!(is_model_extension(Some("GgUf")));
    assert!(!is_model_extension(Some("ggml")));
    assert!(!is_model_extension(Some("gguf2")));
    assert!(!is_model_extension(Some("")));
    assert!(!is_model_extension(None));
}

#[test]
fn entry_fields() {
    let e = model_entry("C:\\m\\Qwen\\q.Q4.gguf".to_string(), "Qwen\\q.Q4.gguf", Some("q.Q4.gguf".to_string()));
    assert_eq!(e.relative_path, "Qwen/q.Q4.gguf");
    assert_eq!(e.group, "Qwen");
    assert_eq!(e.name, "q.Q4");
    assert_eq!(e.path, "C:\\m\\Qwen\\q.Q4.gguf");
    let e = model_entry("/m/a.gguf".to_string(), "a.gguf", Some("a.gguf".to_string()));
    assert_eq!(e.group, "(root)");
    let e = model_entry("/m/x".to_string(), "/lead/x", None);
    assert_eq!(e.group, "(root)");
    assert_eq!(e.name, "model");
}

fn entry(rel: &str, group: &str) -> ModelEntry {
    ModelEntry { path: format!("/m/{}", rel), relative_path: rel.to_string(), name: rel.to_string(), group: group.to_string() }
}

#[test]
fn sort_by_group_then_path() {
    let mut v = vec![entry("z/b", "z"), entry("c", "(root)"), entry("a/x", "a"), entry("z/a", "z"), entry("b", "(root)")];
    sort_models(&mut v);
    let rels: Vec<&str> = v.iter().map(|e| e.relative_path.as_str()).collect();
    assert_eq!(rels, vec!["b", "c", "a/x", "z/a", "z/b"]);
    let mut empty: Vec<ModelEntry> = vec![];
    sort_models(&mut empty);
    assert!(empty.is_empty());
}

#[test]
fn sort_keeps_equal_keys_in_order() {
    let mut first = entry("a/x", "a");
    first.name = "first".to_string();
    let mut second = entry("a/x", "a");
    second.name = "second".to_string();
    let mut v = vec![entry("z/q", "z"), first, entry("b", "(root)"), second];
    sort_models(&mut v);
    let names: Vec<&str> = v.iter().map(|e| e.name.as_str()).collect();
    assert_eq!(names, vec!["b", "first", "second", "z/q"]);
}

fn walked(rel: &str, is_file: bool) -> WalkedFile {
    let name = rel.rsplit('/').next().unwrap().to_string();
    let ext = name.rsplit_once('.').map(|(_, e)| e.to_string());
    WalkedFile {
        path: format!("/models/{}", rel),
        relative: rel.to_string(),
        is_file,
        extension: ext,
        file_name: Some(name),
    }
}

#[test]
fn walk_keeps_model_files_only() {
    let w = vec![
        walked("Qwen", false),
        walked("Qwen/b.Q4.gguf", true),
        walked("notes.txt", true),
        walked("dir.gguf", false),
        walked("A.GGUF", true),
        walked("Qwen/a.gguf", true),
    ];
    let unsorted = model_entries(&w);
    let rels: Vec<&str> = unsorted.iter().map(|e| e.relative_path.as_str()).collect();
    assert_eq!(rels, vec!["Qwen/b.Q4.gguf", "A.GGUF", "Qwen/a.gguf"]);
    let list = entries_from_walk(&w);
    let rels: Vec<&str> = list.iter().map(|e| e.relative_path.as_str()).collect();
    assert_eq!(rels, vec!["A.GGUF", "Qwen/a.gguf", "Qwen/b.Q4.gguf"]);
    assert_eq!(list[0].group, "(root)");
    assert_eq!(list[0].name, "A");
    assert_eq!(list[2].name, "b.Q4");
    assert_eq!(list[2].group, "Qwen");
    assert_eq!(list[2].path, "/models/Qwen/b.Q4.gguf");
    assert!(entries_from_walk(&Vec::new()).is_empty());
}

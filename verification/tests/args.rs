use llama_tray::args::{extract_host_port, model_alias, split_args, validate_profile_args};
use llama_tray::config::Profile;

fn profile(args: &str) -> Profile {
    Profile { id: "p".to_string(), name: "P".to_string(), args: args.to_string() }
}

#[test]
fn splits_quoted_json() {
    let args = r#"--host 0.0.0.0 --port 8080 --chat-template-kwargs "{\"reasoning_effort\":\"low\"}""#;
    let tokens = split_args(args).unwrap();
    assert!(tokens.iter().any(|t| t.contains("reasoning_effort")));
    assert_eq!(
        tokens.iter().position(|t| t == "--port").map(|i| &tokens[i + 1]),
        Some(&"8080".to_string())
    );
}

#[test]
fn rejects_model_flag() {
    assert!(validate_profile_args("-ngl 99 -m foo.gguf").is_err());
    assert!(validate_profile_args("-ngl 99 --alias x").is_err());
    assert!(validate_profile_args("-ngl 99 --port 8080").is_ok());
}

#[test]
fn split_keeps_quotes_and_escapes() {
    let tokens = split_args(r#"a "b c" "d\"e" f"#).unwrap();
    assert_eq!(tokens, vec!["a", "\"b c\"", "\"d\\\"e\"", "f"]);
}

#[test]
fn split_empty_and_blank_inputs() {
    assert_eq!(split_args("").unwrap(), Vec::<String>::new());
    assert_eq!(split_args(" \t\n ").unwrap(), Vec::<String>::new());
    assert_eq!(split_args("  a   b  ").unwrap(), vec!["a", "b"]);
}

#[test]
fn split_unicode_whitespace_separates() {
    assert_eq!(split_args("a\u{3000}b\u{a0}c").unwrap(), vec!["a", "b", "c"]);
}

#[test]
fn split_backslash_outside_quotes_is_plain() {
    assert_eq!(split_args(r#"a\ b"#).unwrap(), vec!["a\\", "b"]);
}

#[test]
fn split_trailing_backslash_in_quotes_is_unclosed() {
    let e = split_args("\"abc\\").unwrap_err();
    assert_eq!(e, "Незакрытая кавычка в аргументах профиля");
}

#[test]
fn split_unclosed_quote_is_error() {
    assert_eq!(
        split_args("--a \"x y").unwrap_err(),
        "Незакрытая кавычка в аргументах профиля"
    );
    assert!(split_args("\"a\" \"b\"").is_ok());
}

#[test]
fn split_tokens_are_never_empty() {
    for input in ["", "\"\"", " \"\" x ", "a  b", "\u{2000}a\u{2000}"] {
        for t in split_args(input).unwrap() {
            assert!(!t.is_empty());
        }
    }
}

#[test]
fn split_join_roundtrip_example() {
    let words = vec!["-ngl", "99", "--flag=a,b", "x\\y"];
    let joined = words.join(" ");
    assert_eq!(split_args(&joined).unwrap(), words);
}

#[test]
fn validate_rejects_each_model_form() {
    for args in ["-m x", "--model x", "--alias x", "-m=x", "--model=x", "--alias=x", "\"-m\" x", "\"--model=a b\""] {
        assert_eq!(
            validate_profile_args(args).unwrap_err(),
            "Профиль не должен содержать -m / --model / --alias — модель выбирается отдельно"
        );
    }
    assert!(validate_profile_args("-mm x --models y --aliases").is_ok());
}

#[test]
fn validate_reports_unclosed_quote() {
    assert_eq!(
        validate_profile_args("-m \"x").unwrap_err(),
        "Незакрытая кавычка в аргументах профиля"
    );
}

#[test]
fn host_port_defaults() {
    assert_eq!(extract_host_port(None), ("127.0.0.1".to_string(), 8080));
    assert_eq!(extract_host_port(Some(&profile("-ngl 99"))), ("127.0.0.1".to_string(), 8080));
    assert_eq!(extract_host_port(Some(&profile("--port \"9"))), ("127.0.0.1".to_string(), 8080));
}

#[test]
fn host_port_reads_flags() {
    assert_eq!(
        extract_host_port(Some(&profile("--host 10.0.0.2 --port 9000"))),
        ("10.0.0.2".to_string(), 9000)
    );
    assert_eq!(
        extract_host_port(Some(&profile("-h \"box\" -p \"+81\""))),
        ("box".to_string(), 81)
    );
    assert_eq!(
        extract_host_port(Some(&profile("--host=\"h\" --port=1234"))),
        ("h".to_string(), 1234)
    );
}

#[test]
fn host_port_ignores_bad_port_and_dangling_flag() {
    assert_eq!(
        extract_host_port(Some(&profile("--port 70000 --port=-1 --port x -p"))),
        ("127.0.0.1".to_string(), 8080)
    );
    assert_eq!(extract_host_port(Some(&profile("--host"))), ("127.0.0.1".to_string(), 8080));
}

#[test]
fn host_port_wildcards_become_localhost() {
    for h in ["0.0.0.0", "::", "[::]"] {
        let args = format!("--host {} --port 8081", h);
        assert_eq!(extract_host_port(Some(&profile(&args))), ("127.0.0.1".to_string(), 8081));
    }
    assert_eq!(
        extract_host_port(Some(&profile(llama_tray::config::DEFAULT_PROFILE_ARGS))),
        ("127.0.0.1".to_string(), 8080)
    );
}

#[test]
fn alias_is_file_stem() {
    assert_eq!(model_alias("/models/qwen.q4.gguf"), "qwen.q4");
    assert_eq!(model_alias("models/Qwen/model-27B.gguf"), "model-27B");
    assert_eq!(model_alias("/models/.hidden"), ".hidden");
    assert_eq!(model_alias("plain"), "plain");
    assert_eq!(model_alias("dir/name."), "name");
}

#[test]
fn alias_without_file_name_is_model() {
    assert_eq!(model_alias("/"), "model");
    assert_eq!(model_alias("///"), "model");
    assert_eq!(model_alias(""), "model");
    assert_eq!(model_alias("a/.."), "model");
}

#[test]
fn alias_of_bare_name_and_nested_path() {
    assert_eq!(model_alias("qwen2.5-7b.Q4_K_M.gguf"), "qwen2.5-7b.Q4_K_M");
    assert_eq!(model_alias("/srv/models/llama-3/model.gguf"), "model");
    assert_eq!(model_alias("/srv/models/llama-3/"), "llama-3");
    assert_eq!(model_alias("/models/qwen/Qwen3-27B.Q4_K_M.gguf"), "Qwen3-27B.Q4_K_M");
}

#[test]
fn split_without_quotes_is_whitespace_split() {
    for input in ["", "   ", "\\", "a\\ b\\", "-x=1 -y 2", "\u{2028}\\\\", "  -c 4096\t--port\n8080  ", "a\u{3000}b\u{a0}\u{85}c"] {
        let expected: Vec<String> = input.split_whitespace().map(|t| t.to_string()).collect();
        assert_eq!(split_args(input), Ok(expected));
    }
}

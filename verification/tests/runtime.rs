use workspace_config::runtime::{
    config_dir, expand_env, join_path_str, resolve_wrapper, wrapper_file_format, MockResolver,
    ResolveError, ResolvedWrapper, WrapperEntry, WrapperFormat, WrapperResolver,
};

fn env(pairs: &[(&str, &str)]) -> Vec<(String, String)> {
    pairs.iter().map(|(k, v)| (k.to_string(), v.to_string())).collect()
}

#[test]
fn expand_env_home() {
    let vars = env(&[("_WC_TEST_HOME", "/Users/testuser")]);
    assert_eq!(
        expand_env("$_WC_TEST_HOME/.config/ghostty/config-pleme", &vars),
        "/Users/testuser/.config/ghostty/config-pleme"
    );
}

#[test]
fn expand_env_no_vars() {
    assert_eq!(expand_env("/nix/store/abc/bin/ghostty", &vec![]), "/nix/store/abc/bin/ghostty");
}

#[test]
fn expand_env_missing_var() {
    assert_eq!(expand_env("$_WC_NONEXISTENT_12345/path", &vec![]), "$_WC_NONEXISTENT_12345/path");
}

#[test]
fn expand_env_dollar_at_end() {
    assert_eq!(expand_env("path$", &vec![]), "path$");
}

#[test]
fn expand_env_multiple_vars() {
    let vars = env(&[("_WC_A", "hello"), ("_WC_B", "world")]);
    assert_eq!(expand_env("$_WC_A/$_WC_B", &vars), "hello/world");
}

#[test]
fn expand_env_edge_cases() {
    let vars = env(&[("A", "1"), ("A", "2"), ("EMPTY", ""), ("A_B", "x")]);
    // The first binding wins; names are greedy.
    assert_eq!(expand_env("$A", &vars), "1");
    assert_eq!(expand_env("$A_B-$A", &vars), "x-1");
    assert_eq!(expand_env("[$EMPTY]", &vars), "[]");
    assert_eq!(expand_env("$$A", &vars), "$1");
    assert_eq!(expand_env("$-$", &vars), "$-$");
    assert_eq!(expand_env("é$A€", &vars), "é1€");
    assert_eq!(expand_env("", &vars), "");
}

#[test]
fn expand_env_without_bindings_is_identity() {
    for s in ["$HOME/x", "a$", "$$", "$_1 $-", "plain", ""] {
        assert_eq!(expand_env(s, &vec![]), s);
    }
}

#[test]
fn mock_resolver_finds_entry() {
    let resolver = MockResolver {
        entries: vec![WrapperEntry {
            binary_name: "ghostty-pleme".into(),
            workspace: "pleme".into(),
            target_bin: "/nix/store/abc/bin/ghostty".into(),
            args: vec!["--config-file=/config".into()],
        }],
    };
    let resolved = resolver.resolve("ghostty-pleme", &vec![]).unwrap();
    assert_eq!(resolved.workspace, "pleme");
    assert_eq!(resolved.target, "/nix/store/abc/bin/ghostty");
    assert_eq!(resolved.args, vec!["--config-file=/config"]);
}

#[test]
fn mock_resolver_unknown_wrapper() {
    let resolver = MockResolver { entries: vec![] };
    assert!(resolver.resolve("nonexistent", &vec![]).is_err());
}

#[test]
fn mock_resolver_expands_env_in_args() {
    let vars = env(&[("_WC_TEST_HOME2", "/Users/test")]);
    let resolver = MockResolver {
        entries: vec![WrapperEntry {
            binary_name: "ghostty-pleme".into(),
            workspace: "pleme".into(),
            target_bin: "/bin/ghostty".into(),
            args: vec!["--config-file=$_WC_TEST_HOME2/.config/ghostty/config-pleme".into()],
        }],
    };
    let resolved = resolver.resolve("ghostty-pleme", &vars).unwrap();
    assert_eq!(
        resolved.args,
        vec!["--config-file=/Users/test/.config/ghostty/config-pleme"]
    );
}

#[test]
fn resolved_wrapper_equality() {
    let a = ResolvedWrapper {
        workspace: "pleme".into(),
        target: "/bin/ghostty".into(),
        args: vec!["--flag".into()],
    };
    let b = a.clone();
    assert_eq!(a, b);
}

#[test]
fn resolve_picks_first_entry_and_expands_target() {
    let entries = vec![
        WrapperEntry {
            binary_name: "w".into(),
            workspace: "first".into(),
            target_bin: "$BIN/ghostty".into(),
            args: vec![],
        },
        WrapperEntry {
            binary_name: "w".into(),
            workspace: "second".into(),
            target_bin: "/other".into(),
            args: vec![],
        },
    ];
    let r = resolve_wrapper(&entries, "w", &env(&[("BIN", "/opt/bin")])).unwrap();
    assert_eq!(r.workspace, "first");
    assert_eq!(r.target, "/opt/bin/ghostty");
    assert!(r.args.is_empty());
    match resolve_wrapper(&entries, "missing", &vec![]) {
        Err(e) => {
            assert_eq!(e.message(), "unknown wrapper 'missing'");
            assert!(matches!(e, ResolveError::UnknownWrapper(ref n) if n == "missing"));
        }
        Ok(_) => panic!("resolved an unknown wrapper"),
    }
}

#[test]
fn join_path_like_pathbuf() {
    assert_eq!(join_path_str("/home/u", ".config"), "/home/u/.config");
    assert_eq!(join_path_str("/home/u/", ".config"), "/home/u/.config");
    assert_eq!(join_path_str("", ".config"), ".config");
    assert_eq!(join_path_str("/home/u", "/etc"), "/etc");
}

#[test]
fn config_dir_prefers_xdg() {
    assert_eq!(
        config_dir(Some("/xdg"), Some("/home/u")),
        "/xdg/workspace-config/wrappers.d"
    );
    assert_eq!(
        config_dir(None, Some("/home/u")),
        "/home/u/.config/workspace-config/wrappers.d"
    );
    assert_eq!(config_dir(None, None), ".config/workspace-config/wrappers.d");
    assert_eq!(config_dir(Some(""), None), "workspace-config/wrappers.d");
}

#[test]
fn wrapper_file_formats_by_extension() {
    assert_eq!(wrapper_file_format("ghostty.yaml"), Some(WrapperFormat::Yaml));
    assert_eq!(wrapper_file_format("a.b.yml"), Some(WrapperFormat::Yaml));
    assert_eq!(wrapper_file_format("wrappers.json"), Some(WrapperFormat::Json));
    assert_eq!(wrapper_file_format(".json"), None);
    assert_eq!(wrapper_file_format("json"), None);
    assert_eq!(wrapper_file_format("x.JSON"), None);
    assert_eq!(wrapper_file_format("x.json.bak"), None);
    assert_eq!(wrapper_file_format(".."), None);
    assert_eq!(wrapper_file_format("..json"), Some(WrapperFormat::Json));
}

use workspace_config::runtime::{lex_less, wrapper_file_order};

#[test]
fn lex_less_orders_by_characters() {
    assert!(lex_less("a", "b"));
    assert!(lex_less("a", "ab"));
    assert!(!lex_less("ab", "a"));
    assert!(!lex_less("a", "a"));
    assert!(lex_less("", "a"));
    assert!(lex_less("Z", "a"));
    assert!(lex_less("z", "é"));
}

#[test]
fn wrapper_files_sorted_by_name() {
    let names: Vec<String> = ["zeta.yaml", "notes.txt", "alpha.json", "mid.yml", ".json", "alpha.yaml"]
        .iter()
        .map(|s| s.to_string())
        .collect();
    assert_eq!(
        wrapper_file_order(&names),
        vec![
            (2, WrapperFormat::Json),
            (5, WrapperFormat::Yaml),
            (3, WrapperFormat::Yaml),
            (0, WrapperFormat::Yaml),
        ]
    );
    assert!(wrapper_file_order(&vec![]).is_empty());
    let ties: Vec<String> = vec!["b.json".into(), "a.json".into(), "b.json".into()];
    assert_eq!(
        wrapper_file_order(&ties),
        vec![(1, WrapperFormat::Json), (0, WrapperFormat::Json), (2, WrapperFormat::Json)]
    );
}

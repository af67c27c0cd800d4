use workspace_config::config::{HexColor, ThemeConfig, Workspace, WorkspaceSet};
use workspace_config::error::ConfigError;

fn workspace(name: &str, display_name: &str) -> Workspace {
    Workspace {
        name: name.into(),
        display_name: display_name.into(),
        theme: ThemeConfig::default(),
        extra_config: String::new(),
    }
}

fn set_of(workspaces: Vec<Workspace>) -> WorkspaceSet {
    WorkspaceSet {
        base_config_path: String::new(),
        ghostty_bin: String::new(),
        bundle_id_prefix: String::new(),
        workspaces,
    }
}

#[test]
fn validate_duplicate_names() {
    let ws = WorkspaceSet {
        base_config_path: String::new(),
        ghostty_bin: String::new(),
        bundle_id_prefix: String::new(),
        workspaces: vec![
            Workspace {
                name: "dev".into(),
                display_name: "Dev".into(),
                theme: ThemeConfig::default(),
                extra_config: String::new(),
            },
            Workspace {
                name: "dev".into(),
                display_name: "Dev 2".into(),
                theme: ThemeConfig::default(),
                extra_config: String::new(),
            },
        ],
    };
    assert!(ws.validate().is_err());
}

#[test]
fn validate_accepts_distinct_valid_names() {
    assert!(set_of(vec![workspace("pleme", "pleme"), workspace("akeyless", "akeyless")])
        .validate()
        .is_ok());
    assert!(set_of(vec![]).validate().is_ok());
}

#[test]
fn validate_reports_first_problem() {
    match set_of(vec![workspace("dev", "a"), workspace("dev", "b"), workspace("Bad", "c")]).validate() {
        Err(ConfigError::DuplicateWorkspace(n)) => assert_eq!(n, "dev"),
        other => panic!("unexpected {:?}", other),
    }
    match set_of(vec![workspace("ok", "a"), workspace("Bad", "b"), workspace("ok", "c")]).validate() {
        Err(ConfigError::InvalidWorkspaceName(n)) => assert_eq!(n, "Bad"),
        other => panic!("unexpected {:?}", other),
    }
}

#[test]
fn hex_color_new_and_as_str() {
    let c = HexColor::new("#A3BE8C").unwrap();
    assert_eq!(c.as_str(), "#A3BE8C");
    assert_eq!(c.clone().as_str(), "#A3BE8C");
    match HexColor::new("red") {
        Err(ConfigError::InvalidHexColor(s)) => assert_eq!(s, "red"),
        other => panic!("unexpected {:?}", other),
    }
}

#[test]
fn theme_defaults_to_no_colors() {
    let t = ThemeConfig::default();
    assert!(t.cursor_color.is_none());
    assert!(t.selection_background.is_none());
    assert!(t.background.is_none());
}

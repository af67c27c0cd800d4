use workspace_config::error::ConfigError;
use workspace_config::validate::{hex_color, workspace_name};

#[test]
fn valid_hex_colors() {
    assert!(hex_color("#A3BE8C").is_ok());
    assert!(hex_color("#000000").is_ok());
    assert!(hex_color("#ffffff").is_ok());
    assert!(hex_color("#2E3842").is_ok());
}

#[test]
fn invalid_hex_colors() {
    assert!(hex_color("red").is_err());
    assert!(hex_color("#FFF").is_err());
    assert!(hex_color("#GGGGGG").is_err());
    assert!(hex_color("A3BE8C").is_err());
    assert!(hex_color("").is_err());
    assert!(hex_color("#A3BE8C0").is_err());
}

#[test]
fn valid_workspace_names() {
    assert!(workspace_name("pleme").is_ok());
    assert!(workspace_name("akeyless").is_ok());
    assert!(workspace_name("my-workspace").is_ok());
    assert!(workspace_name("dev1").is_ok());
    assert!(workspace_name("1test").is_ok());
}

#[test]
fn invalid_workspace_names() {
    assert!(workspace_name("").is_err());
    assert!(workspace_name("-bad").is_err());
    assert!(workspace_name("Has Spaces").is_err());
    assert!(workspace_name("UPPER").is_err());
    assert!(workspace_name("under_score").is_err());
}

#[test]
fn hex_color_error_carries_input() {
    match hex_color("#12345g") {
        Err(ConfigError::InvalidHexColor(s)) => assert_eq!(s, "#12345g"),
        other => panic!("unexpected {:?}", other),
    }
}

#[test]
fn hex_color_rejects_non_ascii_of_seven_bytes() {
    // Seven bytes but only six characters.
    assert!(hex_color("#ABCDé").is_err());
    assert!(hex_color("#abcdeF").is_ok());
}

#[test]
fn workspace_name_error_carries_input() {
    match workspace_name("Bad") {
        Err(ConfigError::InvalidWorkspaceName(s)) => assert_eq!(s, "Bad"),
        other => panic!("unexpected {:?}", other),
    }
    assert!(workspace_name("a-").is_ok());
    assert!(workspace_name("0").is_ok());
    assert!(workspace_name("é").is_err());
}

#[test]
fn config_error_messages() {
    assert_eq!(
        ConfigError::InvalidHexColor("red".into()).message(),
        "invalid hex color 'red': must be #RRGGBB format"
    );
    assert_eq!(
        ConfigError::InvalidWorkspaceName("A".into()).message(),
        "invalid workspace name 'A': must be [a-z0-9][a-z0-9-]*"
    );
    assert_eq!(
        ConfigError::DuplicateWorkspace("dev".into()).message(),
        "duplicate workspace name 'dev'"
    );
}

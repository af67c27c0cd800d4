use workspace_config::config::{HexColor, ThemeConfig, Workspace};
use workspace_config::ghostty::generate_config;

#[test]
fn full_config_output() {
    let ws = Workspace {
        name: "pleme".into(),
        display_name: "pleme".into(),
        theme: ThemeConfig {
            cursor_color: Some(HexColor::new("#A3BE8C").unwrap()),
            selection_background: Some(HexColor::new("#4C566A").unwrap()),
            background: Some(HexColor::new("#2E3842").unwrap()),
        },
        extra_config: String::new(),
    };
    let output = generate_config("/home/user/.config/ghostty/config", &ws);
    assert_eq!(
        output,
        "# Ghostty Workspace: pleme\n\
         # Managed by Nix (blackmatter.components.ghostty.workspaces)\n\
         config-file = /home/user/.config/ghostty/config\n\
         title = pleme\n\
         cursor-color = #A3BE8C\n\
         selection-background = #4C566A\n\
         background = #2E3842\n"
    );
}

#[test]
fn minimal_config_output() {
    let ws = Workspace {
        name: "dev".into(),
        display_name: "Development".into(),
        theme: ThemeConfig::default(),
        extra_config: String::new(),
    };
    let output = generate_config("/config", &ws);
    assert_eq!(
        output,
        "# Ghostty Workspace: dev\n\
         # Managed by Nix (blackmatter.components.ghostty.workspaces)\n\
         config-file = /config\n\
         title = Development\n"
    );
}

#[test]
fn config_with_extra_lines() {
    let ws = Workspace {
        name: "test".into(),
        display_name: "Test".into(),
        theme: ThemeConfig::default(),
        extra_config: "font-size = 14\nwindow-padding-x = 8".into(),
    };
    let output = generate_config("/config", &ws);
    assert!(output.contains("font-size = 14\n"));
    assert!(output.contains("window-padding-x = 8\n"));
}

fn with_extra(extra: &str) -> String {
    let ws = Workspace {
        name: "x".into(),
        display_name: "X".into(),
        theme: ThemeConfig {
            cursor_color: None,
            selection_background: None,
            background: Some(HexColor::new("#000000").unwrap()),
        },
        extra_config: extra.into(),
    };
    generate_config("/c", &ws)
}

const HEADER: &str = "# Ghostty Workspace: x\n\
    # Managed by Nix (blackmatter.components.ghostty.workspaces)\n\
    config-file = /c\n\
    title = X\n\
    background = #000000\n";

#[test]
fn extra_config_lines_follow_str_lines() {
    // A final newline adds no empty line; CRLF endings lose their CR.
    assert_eq!(with_extra("a\nb\n"), format!("{HEADER}a\nb\n"));
    assert_eq!(with_extra("a\r\nb"), format!("{HEADER}a\nb\n"));
    assert_eq!(with_extra("a\n\nb"), format!("{HEADER}a\n\nb\n"));
    assert_eq!(with_extra("\n"), format!("{HEADER}\n"));
    assert_eq!(with_extra("a\r"), format!("{HEADER}a\r\n"));
}

#[test]
fn extra_config_appended_verbatim() {
    let extra = "one = 1\ntwo = 2\n";
    let output = with_extra(extra);
    assert!(output.ends_with('\n'));
    assert_eq!(&output[HEADER.len()..], extra);
}

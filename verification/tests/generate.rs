use workspace_config::config::{ThemeConfig, Workspace, WorkspaceSet};
use workspace_config::generate::{artifact_names, binary_names_listing, wrapper_entries};
use workspace_config::runtime::resolve_wrapper;

fn workspace(name: &str, display_name: &str) -> Workspace {
    Workspace {
        name: name.into(),
        display_name: display_name.into(),
        theme: ThemeConfig::default(),
        extra_config: String::new(),
    }
}

fn sample_set() -> WorkspaceSet {
    WorkspaceSet {
        base_config_path: "/home/user/.config/ghostty/config".into(),
        ghostty_bin: "/nix/store/abc123/bin/ghostty".into(),
        bundle_id_prefix: "io.pleme".into(),
        workspaces: vec![workspace("pleme", "pleme"), workspace("akeyless", "akeyless")],
    }
}

#[test]
fn artifact_names_of_workspace() {
    let names = artifact_names(&workspace("pleme", "Pleme WS"));
    assert_eq!(names.config_file, "config-pleme");
    assert_eq!(names.app_bundle, "Ghostty Pleme WS.app");
    assert_eq!(names.macos_dir, "Ghostty Pleme WS.app/Contents/MacOS");
    assert_eq!(names.info_plist, "Ghostty Pleme WS.app/Contents/Info.plist");
    assert_eq!(names.bundle_executable, "Ghostty Pleme WS.app/Contents/MacOS/ghostty-pleme");
    assert_eq!(names.marker_file, "Ghostty Pleme WS.app/Contents/MacOS/.wrapper-name-pleme");
    assert_eq!(names.marker_content, "ghostty-pleme");
}

#[test]
fn binary_names_one_per_line() {
    let entries = wrapper_entries(&sample_set());
    assert_eq!(binary_names_listing(&entries), "ghostty-pleme\nghostty-akeyless\n");
    assert_eq!(binary_names_listing(&vec![]), "\n");
}

#[test]
fn generated_wrappers_resolve_to_their_workspace() {
    let set = sample_set();
    assert!(set.validate().is_ok());
    let entries = wrapper_entries(&set);
    assert_eq!(entries.len(), 2);
    for ws in &set.workspaces {
        let name = format!("ghostty-{}", ws.name);
        let r = resolve_wrapper(&entries, &name, &vec![("HOME".into(), "/h".into())]).unwrap();
        assert_eq!(r.workspace, ws.name);
        assert_eq!(r.target, "/nix/store/abc123/bin/ghostty");
        assert_eq!(r.args, vec![format!("--config-file=/h/.config/ghostty/config-{}", ws.name)]);
    }
}

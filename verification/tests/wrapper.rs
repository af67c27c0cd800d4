use workspace_config::config::{ThemeConfig, Workspace};
use workspace_config::wrapper::ghostty_wrapper_entry;

#[test]
fn wrapper_entry_fields() {
    let ws = Workspace {
        name: "pleme".into(),
        display_name: "pleme".into(),
        theme: ThemeConfig::default(),
        extra_config: String::new(),
    };
    let entry = ghostty_wrapper_entry("/nix/store/abc/bin/ghostty", &ws);

    assert_eq!(entry.binary_name, "ghostty-pleme");
    assert_eq!(entry.workspace, "pleme");
    assert_eq!(entry.target_bin, "/nix/store/abc/bin/ghostty");
    assert_eq!(entry.args, vec!["--config-file=$HOME/.config/ghostty/config-pleme"]);
}

use workspace_config::runtime::WrapperEntry;
use workspace_config::wrapper::wrapper_script;

#[test]
fn wrapper_script_exports_workspace_and_execs_target() {
    let ws = Workspace {
        name: "pleme".into(),
        display_name: "pleme".into(),
        theme: ThemeConfig::default(),
        extra_config: String::new(),
    };
    let entry = ghostty_wrapper_entry("/nix/store/abc123/bin/ghostty", &ws);
    let script = wrapper_script(&entry);
    assert_eq!(
        script,
        "#!/bin/bash\n\
         export WORKSPACE=\"pleme\"\n\
         exec \"/nix/store/abc123/bin/ghostty\" \"--config-file=$HOME/.config/ghostty/config-pleme\" \"$@\"\n"
    );
    assert!(script.contains("#!/bin/bash"));
    assert!(script.contains("export WORKSPACE=\"pleme\""));
    assert!(script.contains("/nix/store/abc123/bin/ghostty"));
}

#[test]
fn wrapper_script_escapes_double_quoted_words() {
    let entry = WrapperEntry {
        binary_name: "x".into(),
        workspace: "w".into(),
        target_bin: "/a \"b\"/c\\d".into(),
        args: vec![],
    };
    assert_eq!(
        wrapper_script(&entry),
        "#!/bin/bash\nexport WORKSPACE=\"w\"\nexec \"/a \\\"b\\\"/c\\\\d\" \"$@\"\n"
    );
    let entry = WrapperEntry {
        binary_name: "x".into(),
        workspace: "w".into(),
        target_bin: "t".into(),
        args: vec!["`id`".into(), "".into()],
    };
    assert_eq!(
        wrapper_script(&entry),
        "#!/bin/bash\nexport WORKSPACE=\"w\"\nexec \"t\" \"\\`id\\`\" \"\" \"$@\"\n"
    );
}

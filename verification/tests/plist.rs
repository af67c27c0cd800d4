use workspace_config::config::{ThemeConfig, Workspace};
use workspace_config::plist::{generate_info_plist, info_plist_entries, with_trailing_newline};

#[test]
fn plist_contains_required_keys() {
    let ws = Workspace {
        name: "pleme".into(),
        display_name: "pleme".into(),
        theme: ThemeConfig::default(),
        extra_config: String::new(),
    };
    let bytes = generate_info_plist("io.pleme", &ws).unwrap();
    let xml = String::from_utf8(bytes).unwrap();

    assert!(xml.contains("<key>CFBundleName</key>"));
    assert!(xml.contains("<string>Ghostty pleme</string>"));
    assert!(xml.contains("<key>CFBundleExecutable</key>"));
    assert!(xml.contains("<string>ghostty-pleme</string>"));
    assert!(xml.contains("<key>CFBundleIdentifier</key>"));
    assert!(xml.contains("<string>io.pleme.ghostty-pleme</string>"));
    assert!(xml.contains("<key>CFBundleVersion</key>"));
    assert!(xml.contains("<string>1.0</string>"));
    assert!(xml.contains("<key>CFBundlePackageType</key>"));
    assert!(xml.contains("<string>APPL</string>"));
}

#[test]
fn plist_is_valid_xml() {
    let ws = Workspace {
        name: "test".into(),
        display_name: "Test WS".into(),
        theme: ThemeConfig::default(),
        extra_config: String::new(),
    };
    let bytes = generate_info_plist("com.example", &ws).unwrap();
    let xml = String::from_utf8(bytes).unwrap();

    assert!(xml.starts_with("<?xml version=\"1.0\""));
    assert!(xml.contains("<!DOCTYPE plist"));
    assert!(xml.contains("<plist version=\"1.0\">"));
    assert!(xml.contains("</plist>"));
}

#[test]
fn plist_ends_with_single_newline_and_sorted_keys() {
    let ws = Workspace {
        name: "a".into(),
        display_name: "A".into(),
        theme: ThemeConfig::default(),
        extra_config: String::new(),
    };
    let xml = String::from_utf8(generate_info_plist("p", &ws).unwrap()).unwrap();
    assert!(xml.ends_with("</plist>\n"));
    assert!(!xml.ends_with("\n\n"));
    let keys = [
        "CFBundleExecutable",
        "CFBundleIdentifier",
        "CFBundleName",
        "CFBundlePackageType",
        "CFBundleVersion",
    ];
    let positions: Vec<usize> = keys.iter().map(|k| xml.find(k).unwrap()).collect();
    assert!(positions.windows(2).all(|w| w[0] < w[1]));
}

#[test]
fn info_plist_entries_in_key_order() {
    let ws = Workspace {
        name: "pleme".into(),
        display_name: "Pleme WS".into(),
        theme: ThemeConfig::default(),
        extra_config: String::new(),
    };
    let entries = info_plist_entries("io.pleme", &ws);
    let expected: Vec<(String, String)> = vec![
        ("CFBundleExecutable".into(), "ghostty-pleme".into()),
        ("CFBundleIdentifier".into(), "io.pleme.ghostty-pleme".into()),
        ("CFBundleName".into(), "Ghostty Pleme WS".into()),
        ("CFBundlePackageType".into(), "APPL".into()),
        ("CFBundleVersion".into(), "1.0".into()),
    ];
    assert_eq!(entries, expected);
}

#[test]
fn trailing_newline_added_once() {
    assert_eq!(with_trailing_newline(b"abc".to_vec()), b"abc\n".to_vec());
    assert_eq!(with_trailing_newline(b"abc\n".to_vec()), b"abc\n".to_vec());
    assert_eq!(with_trailing_newline(Vec::new()), b"\n".to_vec());
    let once = with_trailing_newline(b"x".to_vec());
    assert_eq!(with_trailing_newline(once.clone()), once);
}

#[test]
fn plist_prologue_epilogue_and_elements() {
    let ws = Workspace {
        name: "dev-1".into(),
        display_name: "Dév  Team".into(),
        theme: ThemeConfig::default(),
        extra_config: String::new(),
    };
    let xml = String::from_utf8(generate_info_plist("com.example", &ws).unwrap()).unwrap();
    assert!(xml.starts_with(
        "<?xml version=\"1.0\" encoding=\"UTF-8\"?>\n<!DOCTYPE plist PUBLIC \"-//Apple//DTD PLIST 1.0//EN\" \"http://www.apple.com/DTDs/PropertyList-1.0.dtd\">\n<plist version=\"1.0\">\n"
    ));
    assert!(xml.ends_with("\n</plist>\n"));
    assert!(xml.contains("<key>CFBundleName</key>"));
    assert!(xml.contains("<string>Ghostty Dév  Team</string>"));
    assert!(xml.contains("<string>com.example.ghostty-dev-1</string>"));
}

#[test]
fn plist_escapes_special_characters() {
    let ws = Workspace {
        name: "a".into(),
        display_name: "R&D <1>".into(),
        theme: ThemeConfig::default(),
        extra_config: String::new(),
    };
    let xml = String::from_utf8(generate_info_plist("p", &ws).unwrap()).unwrap();
    assert!(xml.contains("<string>Ghostty R&amp;D &lt;1&gt;</string>"));
}

#[test]
fn plist_exact_document() {
    let ws = Workspace {
        name: "a".into(),
        display_name: "<R&D> 'x' \"y\"\r".into(),
        theme: ThemeConfig::default(),
        extra_config: String::new(),
    };
    let xml = String::from_utf8(generate_info_plist("p&q", &ws).unwrap()).unwrap();
    let expected = "<?xml version=\"1.0\" encoding=\"UTF-8\"?>\n\
<!DOCTYPE plist PUBLIC \"-//Apple//DTD PLIST 1.0//EN\" \"http://www.apple.com/DTDs/PropertyList-1.0.dtd\">\n\
<plist version=\"1.0\">\n\
<dict>\n\
\t<key>CFBundleExecutable</key>\n\
\t<string>ghostty-a</string>\n\
\t<key>CFBundleIdentifier</key>\n\
\t<string>p&amp;q.ghostty-a</string>\n\
\t<key>CFBundleName</key>\n\
\t<string>Ghostty &lt;R&amp;D&gt; &apos;x&apos; &quot;y&quot;&#13;</string>\n\
\t<key>CFBundlePackageType</key>\n\
\t<string>APPL</string>\n\
\t<key>CFBundleVersion</key>\n\
\t<string>1.0</string>\n\
</dict>\n\
</plist>\n";
    assert_eq!(xml, expected);
}

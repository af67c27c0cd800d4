use vstd::prelude::*;

use crate::config::{names_valid, workspace_names, Workspace, WorkspaceSet};
use crate::ghostty::terminated;
use crate::runtime::{is_first_entry, WrapperEntry};
use crate::wrapper::{ghostty_wrapper_entry, wrapper_binary_name, wrapper_config_arg};

verus! {

/// Where the artifacts of one workspace go: paths relative to the config
/// directory (`config_file`) and to the app directory (the others).
pub struct ArtifactNames {
    /// The Ghostty config file: `config-<name>`.
    pub config_file: String,
    /// The `.app` bundle: `Ghostty <display name>.app`.
    pub app_bundle: String,
    /// The bundle's executables directory: `<app_bundle>/Contents/MacOS`.
    pub macos_dir: String,
    /// The bundle's property list: `<app_bundle>/Contents/Info.plist`.
    pub info_plist: String,
    /// The bundle's executable, the wrapper script:
    /// `<macos_dir>/ghostty-<name>`.
    pub bundle_executable: String,
    /// The marker naming the bundle's wrapper: `<macos_dir>/.wrapper-name-<name>`.
    pub marker_file: String,
    /// The marker's content: the wrapper's binary name, `ghostty-<name>`.
    pub marker_content: String,
}

/// The `.app` bundle of the workspace `ws`.
pub open spec fn app_bundle_name(ws: Workspace) -> Seq<char> {
    "Ghostty "@ + ws.display_name@ + ".app"@
}

/// `names` gives the places of the artifacts of `ws`.
pub open spec fn names_artifacts_of(names: ArtifactNames, ws: Workspace) -> bool {
    &&& names.config_file@ == "config-"@ + ws.name@
    &&& names.app_bundle@ == app_bundle_name(ws)
    &&& names.macos_dir@ == app_bundle_name(ws) + "/Contents/MacOS"@
    &&& names.info_plist@ == app_bundle_name(ws) + "/Contents/Info.plist"@
    &&& names.bundle_executable@ == app_bundle_name(ws) + "/Contents/MacOS"@ + "/"@
        + wrapper_binary_name(ws.name@)
    &&& names.marker_file@ == app_bundle_name(ws) + "/Contents/MacOS"@ + "/.wrapper-name-"@
        + ws.name@
    &&& names.marker_content@ == wrapper_binary_name(ws.name@)
}

fn concat(a: &str, b: &str) -> (r: String)
    ensures
        r@ == a@ + b@,
{
    let mut r = String::from_str(a);
    r.append(b);
    r
}

/// The places of the generated artifacts of the workspace `ws`.
pub fn artifact_names(ws: &Workspace) -> (names: ArtifactNames)
    ensures
        names_artifacts_of(names, *ws),
{
    let config_file = concat("config-", ws.name.as_str());
    let mut app_bundle = concat("Ghostty ", ws.display_name.as_str());
    app_bundle.append(".app");
    let macos_dir = concat(app_bundle.as_str(), "/Contents/MacOS");
    let info_plist = concat(app_bundle.as_str(), "/Contents/Info.plist");
    let mut bundle_executable = concat(macos_dir.as_str(), "/ghostty-");
    bundle_executable.append(ws.name.as_str());
    let mut marker_file = concat(macos_dir.as_str(), "/.wrapper-name-");
    marker_file.append(ws.name.as_str());
    let marker_content = concat("ghostty-", ws.name.as_str());
    proof {
        reveal_strlit("/ghostty-");
        reveal_strlit("/");
        reveal_strlit("ghostty-");
        assert("/ghostty-"@ =~= "/"@ + "ghostty-"@);
        assert(bundle_executable@ =~= app_bundle_name(*ws) + "/Contents/MacOS"@ + "/"@
            + wrapper_binary_name(ws.name@));
    }
    ArtifactNames {
        config_file,
        app_bundle,
        macos_dir,
        info_plist,
        bundle_executable,
        marker_file,
        marker_content,
    }
}

/// The binary names of `entries`, in order.
pub open spec fn entry_binary_names(entries: Seq<WrapperEntry>) -> Seq<Seq<char>> {
    entries.map_values(|e: WrapperEntry| e.binary_name@)
}

/// The list of binary names: one per line, each followed by a newline; a
/// single newline where there are none.
pub open spec fn binary_names_text(names: Seq<Seq<char>>) -> Seq<char> {
    if names.len() == 0 {
        seq!['\n']
    } else {
        terminated(names)
    }
}

/// Lists the binary names of `entries`, one per line.
pub fn binary_names_listing(entries: &Vec<WrapperEntry>) -> (r: String)
    ensures
        r@ == binary_names_text(entry_binary_names(entries@)),
{
    let ghost names = entry_binary_names(entries@);
    proof {
        reveal_strlit("\n");
    }
    if entries.len() == 0 {
        return String::from_str("\n");
    }
    let mut out = String::new();
    let mut i: usize = 0;
    while i < entries.len()
        invariant
            i <= entries@.len(),
            names == entry_binary_names(entries@),
            "\n"@ == seq!['\n'],
            out@ == terminated(names.take(i as int)),
        decreases entries@.len() - i,
    {
        out.append(entries[i].binary_name.as_str());
        out.append("\n");
        assert(names.take(i + 1).drop_last() =~= names.take(i as int));
        i += 1;
    }
    assert(names.take(entries@.len() as int) =~= names);
    out
}

/// `e` is the Ghostty wrapper entry of `ws`, running `ghostty_bin`.
pub open spec fn is_wrapper_entry_of(e: WrapperEntry, ghostty_bin: Seq<char>, ws: Workspace) -> bool {
    &&& e.binary_name@ == wrapper_binary_name(ws.name@)
    &&& e.workspace@ == ws.name@
    &&& e.target_bin@ == ghostty_bin
    &&& e.args@.len() == 1
    &&& e.args@[0]@ == wrapper_config_arg(ws.name@)
}

/// The wrapper entries of all workspaces of `ws_set`, in order.
pub fn wrapper_entries(ws_set: &WorkspaceSet) -> (r: Vec<WrapperEntry>)
    ensures
        r@.len() == ws_set.workspaces@.len(),
        forall|i: int|
            0 <= i < r@.len() ==> #[trigger] is_wrapper_entry_of(
                r@[i],
                ws_set.ghostty_bin@,
                ws_set.workspaces@[i],
            ),
{
    let mut r: Vec<WrapperEntry> = Vec::new();
    let mut i: usize = 0;
    while i < ws_set.workspaces.len()
        invariant
            i <= ws_set.workspaces@.len(),
            r@.len() == i,
            forall|k: int|
                0 <= k < i ==> #[trigger] is_wrapper_entry_of(
                    r@[k],
                    ws_set.ghostty_bin@,
                    ws_set.workspaces@[k],
                ),
        decreases ws_set.workspaces@.len() - i,
    {
        r.push(ghostty_wrapper_entry(ws_set.ghostty_bin.as_str(), &ws_set.workspaces[i]));
        i += 1;
    }
    r
}

/// In a set whose names pass validation, the wrapper entry generated for each
/// workspace is the first entry of its binary name: resolving that name finds
/// the workspace's own wrapper.
pub proof fn lemma_generated_wrappers_resolve(
    ws_set: WorkspaceSet,
    entries: Seq<WrapperEntry>,
    i: int,
)
    requires
        names_valid(workspace_names(ws_set.workspaces@)),
        entries.len() == ws_set.workspaces@.len(),
        forall|k: int|
            0 <= k < entries.len() ==> #[trigger] is_wrapper_entry_of(
                entries[k],
                ws_set.ghostty_bin@,
                ws_set.workspaces@[k],
            ),
        0 <= i < entries.len(),
    ensures
        is_first_entry(entries, wrapper_binary_name(ws_set.workspaces@[i].name@), i),
        entries[i].workspace@ == ws_set.workspaces@[i].name@,
{
    let names = workspace_names(ws_set.workspaces@);
    let target = wrapper_binary_name(ws_set.workspaces@[i].name@);
    assert(is_wrapper_entry_of(entries[i], ws_set.ghostty_bin@, ws_set.workspaces@[i]));
    assert(crate::config::name_accepted(names, i));
    assert forall|j: int| 0 <= j < i implies entries[j].binary_name@ != target by {
        assert(is_wrapper_entry_of(entries[j], ws_set.ghostty_bin@, ws_set.workspaces@[j]));
        assert(names[j] == ws_set.workspaces@[j].name@);
        assert(names[i] == ws_set.workspaces@[i].name@);
        if entries[j].binary_name@ == target {
            let p = "ghostty-"@;
            assert((p + names[j]).skip(p.len() as int) =~= names[j]);
            assert((p + names[i]).skip(p.len() as int) =~= names[i]);
        }
    }
}

} // verus!

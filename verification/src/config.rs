use vstd::prelude::*;

use crate::error::ConfigError;
use crate::validate::{hex_color, is_hex_color, is_workspace_name, workspace_name};

verus! {

/// Top-level input: all workspaces plus shared settings.
#[derive(Debug)]
pub struct WorkspaceSet {
    /// Path to the base Ghostty config (e.g. `~/.config/ghostty/config`).
    pub base_config_path: String,
    /// Absolute path to the Ghostty binary.
    pub ghostty_bin: String,
    /// Bundle ID prefix for macOS .app bundles (e.g. `io.pleme`).
    pub bundle_id_prefix: String,
    /// Workspace definitions, in input order.
    pub workspaces: Vec<Workspace>,
}

/// A single workspace definition.
#[derive(Debug)]
pub struct Workspace {
    /// Internal name (used for file names, env var value, wrapper binary name).
    pub name: String,
    /// Human-readable name (title bar, Spotlight).
    pub display_name: String,
    /// Optional theme color overrides.
    pub theme: ThemeConfig,
    /// Extra Ghostty config lines appended verbatim.
    pub extra_config: String,
}

/// Optional color overrides; each one is absent unless given.
#[derive(Debug)]
pub struct ThemeConfig {
    pub cursor_color: Option<HexColor>,
    pub selection_background: Option<HexColor>,
    pub background: Option<HexColor>,
}

impl Default for ThemeConfig {
    fn default() -> (t: Self)
        ensures
            t.cursor_color is None,
            t.selection_background is None,
            t.background is None,
    {
        ThemeConfig { cursor_color: None, selection_background: None, background: None }
    }
}

/// A validated `#RRGGBB` hex color.
#[derive(Debug)]
pub struct HexColor(String);

impl View for HexColor {
    type V = Seq<char>;

    closed spec fn view(&self) -> Seq<char> {
        self.0@
    }
}

impl HexColor {
    /// Every color holds a valid `#RRGGBB` string.
    #[verifier::type_invariant]
    closed spec fn well_formed(self) -> bool {
        is_hex_color(self.0@)
    }

    /// Creates a color from `s`, which must be of the form `#RRGGBB`.
    ///
    /// Fails with `InvalidHexColor` holding `s` exactly when it is not.
    pub fn new(s: &str) -> (r: Result<Self, ConfigError>)
        ensures
            r is Ok <==> is_hex_color(s@),
            r matches Ok(c) ==> c@ == s@,
            r matches Err(e) ==> (e matches ConfigError::InvalidHexColor(t) && t@ == s@),
    {
        match hex_color(s) {
            Ok(()) => Ok(HexColor(s.to_owned())),
            Err(e) => Err(e),
        }
    }

    /// The color's text, always of the form `#RRGGBB`.
    pub fn as_str(&self) -> (r: &str)
        ensures
            r@ == self@,
            is_hex_color(r@),
    {
        proof {
            use_type_invariant(self);
        }
        self.0.as_str()
    }
}

impl Clone for HexColor {
    fn clone(&self) -> (c: Self)
        ensures
            c@ == self@,
    {
        proof {
            use_type_invariant(self);
        }
        HexColor(self.0.clone())
    }
}

/// The names of `workspaces`, in order.
pub open spec fn workspace_names(workspaces: Seq<Workspace>) -> Seq<Seq<char>> {
    workspaces.map_values(|w: Workspace| w.name@)
}

/// The `i`-th name is a valid workspace name that no earlier name repeats.
pub open spec fn name_accepted(names: Seq<Seq<char>>, i: int) -> bool {
    &&& is_workspace_name(names[i])
    &&& forall|j: int| 0 <= j < i ==> names[j] != names[i]
}

/// All names are valid workspace names, and no two are equal.
pub open spec fn names_valid(names: Seq<Seq<char>>) -> bool {
    forall|i: int| 0 <= i < names.len() ==> #[trigger] name_accepted(names, i)
}

/// `e` is the error reported for the rejected name `name`: an invalid name
/// takes precedence over a repeated one.
pub open spec fn reports_rejected_name(e: ConfigError, name: Seq<char>) -> bool {
    if !is_workspace_name(name) {
        e matches ConfigError::InvalidWorkspaceName(t) && t@ == name
    } else {
        e matches ConfigError::DuplicateWorkspace(t) && t@ == name
    }
}

impl WorkspaceSet {
    /// Validates all workspaces in the set, in order.
    ///
    /// Succeeds exactly when every name is valid and no name repeats; otherwise
    /// reports the first workspace whose name is invalid or repeats an earlier one.
    pub fn validate(&self) -> (r: Result<(), ConfigError>)
        ensures
            r is Ok <==> names_valid(workspace_names(self.workspaces@)),
            r matches Err(e) ==> exists|i: int|
                #![trigger name_accepted(workspace_names(self.workspaces@), i)]
                0 <= i < self.workspaces@.len() && (forall|j: int|
                    0 <= j < i ==> name_accepted(workspace_names(self.workspaces@), j))
                    && !name_accepted(workspace_names(self.workspaces@), i)
                    && reports_rejected_name(e, workspace_names(self.workspaces@)[i]),
    {
        let ghost names = workspace_names(self.workspaces@);
        let n = self.workspaces.len();
        for i in 0..n
            invariant
                n == self.workspaces@.len(),
                names == workspace_names(self.workspaces@),
                forall|j: int| 0 <= j < i ==> #[trigger] name_accepted(names, j),
        {
            let ws = &self.workspaces[i];
            assert(names[i as int] == ws.name@);
            match workspace_name(ws.name.as_str()) {
                Err(e) => {
                    assert(!name_accepted(names, i as int));
                    return Err(e);
                },
                Ok(()) => {},
            }
            for j in 0..i
                invariant
                    i < n,
                    n == self.workspaces@.len(),
                    names == workspace_names(self.workspaces@),
                    names[i as int] == self.workspaces@[i as int].name@,
                    forall|k: int| 0 <= k < j ==> names[k] != names[i as int],
                    forall|k: int| 0 <= k < i ==> #[trigger] name_accepted(names, k),
                    is_workspace_name(names[i as int]),
            {
                assert(names[j as int] == self.workspaces@[j as int].name@);
                if self.workspaces[j].name == self.workspaces[i].name {
                    assert(!name_accepted(names, i as int));
                    return Err(ConfigError::DuplicateWorkspace(self.workspaces[i].name.clone()));
                }
            }
            assert(name_accepted(names, i as int));
        }
        Ok(())
    }
}

} // verus!

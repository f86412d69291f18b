//! Per-project settings the engine's host consults: git gutter and inline
//! blame display, and per-language-server configuration. Settings-file
//! parsing and merging belong to the host; these are the plain values it
//! hands over.

use vstd::prelude::*;

verus! {

/// Opaque JSON value carried through for language servers.
///
/// Relies on serde_json::Value only as a carrier: the engine never reads
/// inside it, it only stores and hands back whatever configuration the host
/// supplied.
#[verifier::external_type_specification]
#[verifier::external_body]
pub struct ExValue(serde_json::Value);

/// Whether and where to show the git gutter.
#[derive(Clone, Copy, PartialEq, Eq, Structural, Debug)]
pub enum GitGutterSetting {
    /// Show git gutter in tracked files.
    TrackedFiles,
    /// Hide git gutter
    Hide,
}

impl Default for GitGutterSetting {
    fn default() -> (r: Self)
        ensures
            r == GitGutterSetting::TrackedFiles,
    {
        GitGutterSetting::TrackedFiles
    }
}

/// Whether to show git blame data inline in the currently focused line.
#[derive(Clone, Copy, PartialEq, Eq, Structural, Debug)]
pub enum InlineBlameSetting {
    /// Show git blame information inline.
    On,
    /// Do not show git blame information inline.
    Off,
}

impl Default for InlineBlameSetting {
    fn default() -> (r: Self)
        ensures
            r == InlineBlameSetting::Off,
    {
        InlineBlameSetting::Off
    }
}

/// Configuration for git-related features.
#[derive(Clone, Copy, PartialEq, Eq, Structural, Debug)]
pub struct GitSettings {
    /// Whether or not to show the git gutter. Unset means tracked files.
    pub git_gutter: Option<GitGutterSetting>,
    pub gutter_debounce: Option<u64>,
    /// Whether or not to show git blame data inline. Unset means off.
    pub inline_blame: Option<InlineBlameSetting>,
}

impl Default for GitSettings {
    fn default() -> (r: Self)
        ensures
            r.git_gutter is None,
            r.gutter_debounce is None,
            r.inline_blame is None,
    {
        GitSettings { git_gutter: None, gutter_debounce: None, inline_blame: None }
    }
}

impl GitSettings {
    /// Inline blame is shown exactly when it is explicitly set to `On`.
    pub fn inline_blame_enabled(&self) -> (r: bool)
        ensures
            r == (self.inline_blame == Some(InlineBlameSetting::On)),
    {
        matches!(self.inline_blame, Some(InlineBlameSetting::On))
    }
}

/// Where to find a language server binary and how to invoke it.
pub struct BinarySettings {
    pub path: Option<String>,
    pub arguments: Option<Vec<String>>,
}

/// Configuration for one language server, carried through to it verbatim.
pub struct LspSettings {
    pub binary: Option<BinarySettings>,
    pub initialization_options: Option<serde_json::Value>,
    pub settings: Option<serde_json::Value>,
}

/// Project-wide settings: per-language-server configuration keyed by the
/// server's name, and git feature configuration.
pub struct ProjectSettings {
    /// Configuration for language servers, keyed by language server name.
    /// Each name appears at most once.
    pub lsp: Vec<(String, LspSettings)>,
    /// Configuration for git-related features.
    pub git: GitSettings,
}

impl Default for ProjectSettings {
    fn default() -> (r: Self)
        ensures
            r.lsp@.len() == 0,
            r.git.git_gutter is None,
            r.git.gutter_debounce is None,
            r.git.inline_blame is None,
    {
        ProjectSettings { lsp: Vec::new(), git: GitSettings::default() }
    }
}

} // verus!

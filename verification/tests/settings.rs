use headless::project_settings::{
    BinarySettings, GitGutterSetting, GitSettings, InlineBlameSetting, LspSettings,
    ProjectSettings,
};
use headless::workspace::{ShareState, Workspace};

#[test]
fn inline_blame_enabled_only_when_on() {
    let mut git = GitSettings::default();
    assert!(!git.inline_blame_enabled());

    git.inline_blame = Some(InlineBlameSetting::On);
    assert!(git.inline_blame_enabled());

    git.inline_blame = Some(InlineBlameSetting::Off);
    assert!(!git.inline_blame_enabled());
}

#[test]
fn settings_defaults() {
    assert_eq!(GitGutterSetting::default(), GitGutterSetting::TrackedFiles);
    assert_eq!(InlineBlameSetting::default(), InlineBlameSetting::Off);
    let git = GitSettings::default();
    assert!(git.git_gutter.is_none());
    assert!(git.gutter_debounce.is_none());
    assert!(git.inline_blame.is_none());
    let project = ProjectSettings::default();
    assert!(project.lsp.is_empty());
    assert!(!project.git.inline_blame_enabled());
}

#[test]
fn lsp_settings_carry_opaque_configuration() {
    let lsp = LspSettings {
        binary: Some(BinarySettings {
            path: Some("/usr/bin/ls-server".to_string()),
            arguments: Some(vec!["--stdio".to_string()]),
        }),
        initialization_options: Some(serde_json::Value::Bool(true)),
        settings: Some(serde_json::Value::Null),
    };
    let project = ProjectSettings { lsp: vec![("rust".to_string(), lsp)], git: GitSettings::default() };
    assert_eq!(project.lsp.len(), 1);
    assert_eq!(project.lsp[0].0, "rust");
    assert_eq!(project.lsp[0].1.initialization_options, Some(serde_json::Value::Bool(true)));
    assert_eq!(project.lsp[0].1.settings, Some(serde_json::Value::Null));
    assert_eq!(
        project.lsp[0].1.binary.as_ref().unwrap().path.as_deref(),
        Some("/usr/bin/ls-server")
    );
}

#[test]
fn workspace_lifecycle() {
    let mut w = Workspace::create_local("/w".to_string());
    assert_eq!(w.state, ShareState::Local);
    assert_eq!(w.remote_id(), None);

    w.mark_shared(9);
    assert_eq!(w.state, ShareState::Shared { project_id: 9 });
    assert_eq!(w.remote_id(), Some(9));

    w.mark_unshared();
    assert_eq!(w.state, ShareState::Unshared);
    assert_eq!(w.remote_id(), None);
}

//! Decisions of an authority on random calls.

use ipc_authority::acl::{ExecutionContext, ResolvedCommand};
use ipc_authority::authority::{Origin, build_authority};
use ipc_authority::label::LabelPattern;
use ipc_authority::remote::{RemoteUrlPattern, Url};
use ipc_authority::strategies::{
    Draws, any_label, any_origin, command_name, main_dash_label, non_main_label, remote_origin,
};
use proptest::strategy::{Strategy, ValueTree};
use proptest::test_runner::TestRunner;

const CASES: usize = 256;

fn pattern(text: &str) -> LabelPattern {
    LabelPattern::parse(text).unwrap()
}

fn remote(text: &str) -> ExecutionContext {
    ExecutionContext::Remote { url: RemoteUrlPattern::parse(text).unwrap() }
}

fn draws(runner: &mut TestRunner) -> Draws {
    let bytes = proptest::array::uniform32(proptest::num::u8::ANY);
    Draws::seeded(bytes.new_tree(runner).unwrap().current())
}

fn matching(runner: &mut TestRunner, regex: &str) -> String {
    proptest::string::string_regex(regex).unwrap().new_tree(runner).unwrap().current()
}

/// A command allowed only for the local context is not accessible from a
/// remote origin.
#[test]
fn local_only_command_blocked_from_remote_origin() {
    let mut draws = draws(&mut TestRunner::default());
    for _ in 0..CASES {
        let command = command_name().draw(&mut draws).unwrap();
        let window = main_dash_label().draw(&mut draws).unwrap();
        let webview = any_label().draw(&mut draws).unwrap();
        let origin = remote_origin().draw(&mut draws).unwrap();
        let resolved = ResolvedCommand {
            context: ExecutionContext::Local,
            windows: vec![pattern("*")],
            ..Default::default()
        };
        let auth = build_authority(vec![(command.clone(), vec![resolved])], vec![]);
        let result = auth.resolve_access(&command, &window, &webview, &origin);
        assert!(
            result.is_none(),
            "Local-only command '{command}' must not be accessible from remote origin"
        );
    }
}

/// A command allowed only for a remote URL pattern is not accessible from the
/// local origin.
#[test]
fn remote_only_command_blocked_from_local_origin() {
    let mut draws = draws(&mut TestRunner::default());
    for _ in 0..CASES {
        let command = command_name().draw(&mut draws).unwrap();
        let window = any_label().draw(&mut draws).unwrap();
        let webview = any_label().draw(&mut draws).unwrap();
        let resolved = ResolvedCommand {
            context: remote("https://tauri.app"),
            windows: vec![pattern("*")],
            ..Default::default()
        };
        let auth = build_authority(vec![(command.clone(), vec![resolved])], vec![]);
        let result = auth.resolve_access(&command, &window, &webview, &Origin::Local);
        assert!(
            result.is_none(),
            "Remote-only command '{command}' must not be accessible from local origin"
        );
    }
}

/// A command allowed for `https://*` is accessible from any HTTPS URL, and not
/// from the local origin.
#[test]
fn remote_wildcard_https_matches_any_https_url() {
    let mut runner = TestRunner::default();
    let mut draws = draws(&mut runner);
    for _ in 0..CASES {
        let command = command_name().draw(&mut draws).unwrap();
        let window = any_label().draw(&mut draws).unwrap();
        let webview = any_label().draw(&mut draws).unwrap();
        let url = matching(&mut runner, "https://[a-z][a-z0-9-]{0,10}\\.[a-z]{2,5}");
        let resolved = ResolvedCommand {
            context: remote("https://*"),
            windows: vec![pattern("*")],
            ..Default::default()
        };
        let auth = build_authority(vec![(command.clone(), vec![resolved])], vec![]);
        let origin = Origin::Remote { url: Url::parse(&url).unwrap() };
        let result = auth.resolve_access(&command, &window, &webview, &origin);
        assert!(result.is_some(), "'https://*' should match {url} for command '{command}'");
        assert!(auth.resolve_access(&command, &window, &webview, &Origin::Local).is_none());
    }
}

/// A command allowed only for `https://tauri.app` is not accessible from
/// another host.
#[test]
fn remote_exact_url_does_not_match_other_hosts() {
    let mut runner = TestRunner::default();
    let mut draws = draws(&mut runner);
    for _ in 0..CASES {
        let command = command_name().draw(&mut draws).unwrap();
        let window = any_label().draw(&mut draws).unwrap();
        let webview = any_label().draw(&mut draws).unwrap();
        let other_host = matching(&mut runner, "[a-z][a-z0-9-]{0,10}\\.[a-z]{2,5}");
        if other_host.contains("tauri.app") {
            continue;
        }
        let resolved = ResolvedCommand {
            context: remote("https://tauri.app"),
            windows: vec![pattern("*")],
            ..Default::default()
        };
        let auth = build_authority(vec![(command.clone(), vec![resolved])], vec![]);
        let url = Url::parse(&format!("https://{other_host}")).unwrap();
        let origin = Origin::Remote { url };
        let result = auth.resolve_access(&command, &window, &webview, &origin);
        assert!(result.is_none(), "'https://tauri.app' must not match https://{other_host}");
    }
}

/// A denied command is refused to every origin, though the entry that denies it
/// is for another context.
#[test]
fn deny_takes_precedence_over_allow_for_any_origin() {
    let mut draws = draws(&mut TestRunner::default());
    for _ in 0..CASES {
        let command = command_name().draw(&mut draws).unwrap();
        let window = main_dash_label().draw(&mut draws).unwrap();
        let webview = any_label().draw(&mut draws).unwrap();
        let origin = any_origin().draw(&mut draws).unwrap();
        let allowed = ResolvedCommand {
            context: ExecutionContext::Local,
            windows: vec![pattern("*")],
            ..Default::default()
        };
        let denied = ResolvedCommand {
            context: remote("https://*"),
            windows: vec![pattern("*")],
            ..Default::default()
        };
        let auth = build_authority(
            vec![(command.clone(), vec![allowed])],
            vec![(command.clone(), vec![denied])],
        );
        let result = auth.resolve_access(&command, &window, &webview, &origin);
        assert!(
            result.is_none(),
            "command '{command}' is in denied_commands, must be None for any origin"
        );
    }
}

/// A command that is not allowed at all is refused.
#[test]
fn unknown_command_returns_none() {
    let mut draws = draws(&mut TestRunner::default());
    for _ in 0..CASES {
        let requested = command_name().draw(&mut draws).unwrap();
        let known = command_name().draw(&mut draws).unwrap();
        let window = any_label().draw(&mut draws).unwrap();
        let webview = any_label().draw(&mut draws).unwrap();
        let origin = any_origin().draw(&mut draws).unwrap();
        if requested == known {
            continue;
        }
        let auth = build_authority(
            vec![(
                known,
                vec![ResolvedCommand {
                    context: ExecutionContext::Local,
                    windows: vec![pattern("*")],
                    ..Default::default()
                }],
            )],
            vec![],
        );
        let result = auth.resolve_access(&requested, &window, &webview, &origin);
        assert!(result.is_none(), "unknown command '{requested}' must return None");
    }
}

/// The window pattern `main-*` matches any label that starts with `main-`.
#[test]
fn window_glob_prefix_matches_matching_label() {
    let mut runner = TestRunner::default();
    let mut draws = draws(&mut runner);
    for _ in 0..CASES {
        let command = command_name().draw(&mut draws).unwrap();
        let suffix = matching(&mut runner, "[a-z0-9-]{0,5}");
        let webview = any_label().draw(&mut draws).unwrap();
        let label = format!("main-{suffix}");
        let resolved = ResolvedCommand {
            context: ExecutionContext::Local,
            windows: vec![pattern("main-*")],
            ..Default::default()
        };
        let auth = build_authority(vec![(command.clone(), vec![resolved])], vec![]);
        let result = auth.resolve_access(&command, &label, &webview, &Origin::Local);
        assert!(result.is_some(), "window pattern 'main-*' must match label '{label}'");
    }
}

/// The window pattern `main-*` does not match a label that does not start with
/// `main-`.
#[test]
fn window_glob_prefix_rejects_non_matching_label() {
    let mut draws = draws(&mut TestRunner::default());
    for _ in 0..CASES {
        let command = command_name().draw(&mut draws).unwrap();
        let label = non_main_label().draw(&mut draws).unwrap();
        let webview = any_label().draw(&mut draws).unwrap();
        let resolved = ResolvedCommand {
            context: ExecutionContext::Local,
            windows: vec![pattern("main-*")],
            ..Default::default()
        };
        let auth = build_authority(vec![(command.clone(), vec![resolved])], vec![]);
        let result = auth.resolve_access(&command, &label, &webview, &Origin::Local);
        assert!(result.is_none(), "window pattern 'main-*' must NOT match label '{label}'");
    }
}

/// The window pattern `*` matches any label.
#[test]
fn window_glob_wildcard_matches_any_label() {
    let mut draws = draws(&mut TestRunner::default());
    for _ in 0..CASES {
        let command = command_name().draw(&mut draws).unwrap();
        let label = any_label().draw(&mut draws).unwrap();
        let webview = any_label().draw(&mut draws).unwrap();
        let resolved = ResolvedCommand {
            context: ExecutionContext::Local,
            windows: vec![pattern("*")],
            ..Default::default()
        };
        let auth = build_authority(vec![(command.clone(), vec![resolved])], vec![]);
        let result = auth.resolve_access(&command, &label, &webview, &Origin::Local);
        assert!(
            result.is_some(),
            "window pattern '*' must match any label, got rejection for '{label}'"
        );
    }
}

/// A webview pattern that matches is enough where there is no window pattern.
#[test]
fn webview_match_suffices_when_no_window_patterns() {
    let mut runner = TestRunner::default();
    let mut draws = draws(&mut runner);
    for _ in 0..CASES {
        let command = command_name().draw(&mut draws).unwrap();
        let window = any_label().draw(&mut draws).unwrap();
        let webview_suffix = matching(&mut runner, "[a-z0-9-]{0,5}");
        let wv_label = format!("webview-{webview_suffix}");
        let resolved = ResolvedCommand {
            context: ExecutionContext::Local,
            windows: vec![],
            webviews: vec![pattern("webview-*")],
            ..Default::default()
        };
        let auth = build_authority(vec![(command.clone(), vec![resolved])], vec![]);
        let result = auth.resolve_access(&command, &window, &wv_label, &Origin::Local);
        assert!(result.is_some(), "matching webview with empty windows must still be accessible");
    }
}

/// A window pattern that matches is enough where there is no webview pattern.
#[test]
fn window_match_suffices_when_no_webview_patterns() {
    let mut runner = TestRunner::default();
    let mut draws = draws(&mut runner);
    for _ in 0..CASES {
        let command = command_name().draw(&mut draws).unwrap();
        let suffix = matching(&mut runner, "[a-z0-9-]{0,5}");
        let webview = any_label().draw(&mut draws).unwrap();
        let label = format!("main-{suffix}");
        let resolved = ResolvedCommand {
            context: ExecutionContext::Local,
            windows: vec![pattern("main-*")],
            webviews: vec![],
            ..Default::default()
        };
        let auth = build_authority(vec![(command.clone(), vec![resolved])], vec![]);
        let result = auth.resolve_access(&command, &label, &webview, &Origin::Local);
        assert!(result.is_some(), "matching window with empty webviews must still be accessible");
    }
}

/// An entry with no window pattern and no webview pattern is never accessible.
#[test]
fn empty_windows_and_webviews_is_never_accessible() {
    let mut draws = draws(&mut TestRunner::default());
    for _ in 0..CASES {
        let command = command_name().draw(&mut draws).unwrap();
        let window = any_label().draw(&mut draws).unwrap();
        let webview = any_label().draw(&mut draws).unwrap();
        let resolved = ResolvedCommand {
            context: ExecutionContext::Local,
            windows: vec![],
            webviews: vec![],
            ..Default::default()
        };
        let auth = build_authority(vec![(command.clone(), vec![resolved])], vec![]);
        let result = auth.resolve_access(&command, &window, &webview, &Origin::Local);
        assert!(
            result.is_none(),
            "empty windows AND empty webviews must never match (deny-all by construction)"
        );
    }
}

/// Only the entries that match are returned.
#[test]
fn only_matching_entries_returned() {
    let mut runner = TestRunner::default();
    let mut draws = draws(&mut runner);
    for _ in 0..CASES {
        let command = command_name().draw(&mut draws).unwrap();
        let suffix = matching(&mut runner, "[a-z0-9-]{0,5}");
        let webview = any_label().draw(&mut draws).unwrap();
        let label = format!("main-{suffix}");
        let matching = ResolvedCommand {
            context: ExecutionContext::Local,
            windows: vec![pattern("main-*")],
            ..Default::default()
        };
        let wrong_context = ResolvedCommand {
            context: remote("https://tauri.app"),
            windows: vec![pattern("main-*")],
            ..Default::default()
        };
        let wrong_window = ResolvedCommand {
            context: ExecutionContext::Local,
            windows: vec![pattern("other-*")],
            ..Default::default()
        };
        let auth = build_authority(
            vec![(command.clone(), vec![matching.clone(), wrong_context, wrong_window])],
            vec![],
        );
        let result = auth.resolve_access(&command, &label, &webview, &Origin::Local);
        let returned = result.expect("matching entry must be returned");
        assert_eq!(
            returned.len(),
            1,
            "only the matching entry should be returned for label '{label}'"
        );
        assert_eq!(returned[0], matching, "the returned entry must be the matching one");
    }
}

#[test]
fn origin_local_displays_as_local() {
    assert_eq!(Origin::Local.to_string(), "local");
}

/// A remote origin displays as `remote: ` and its URL.
#[test]
fn origin_remote_displays_with_url_prefix() {
    let mut runner = TestRunner::default();
    for _ in 0..CASES {
        let url = matching(&mut runner, "https?://[a-z]+\\.[a-z]{2,5}");
        let origin = Origin::Remote { url: Url::parse(&url).unwrap() };
        let display = origin.to_string();
        assert!(
            display.starts_with("remote: "),
            "Display should start with 'remote: ', got: {display}"
        );
        assert!(
            display.contains(&url),
            "Display should contain the URL '{url}', got: {display}"
        );
    }
}

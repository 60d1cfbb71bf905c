//! Patterns, URLs, tables and draws on concrete values.

use ipc_authority::acl::{CommandTable, ExecutionContext, Resolved, ResolvedCommand};
use ipc_authority::authority::{Origin, RuntimeAuthority, admitting_entries, build_authority};
use ipc_authority::label::{LabelPattern, any_matches};
use ipc_authority::remote::{RemoteUrlPattern, Url, parser_safe};
use ipc_authority::strategies::{
    Draws, OriginKind, Texts, any_label, any_origin, command_name, local_origin, main_dash_label,
    non_main_label, remote_origin, remote_origin_at, remote_regex,
};
use ipc_authority::text::{ParseError, chars_of, starts_with, string_of};
use proptest::strategy::{Strategy, ValueTree};
use proptest::test_runner::TestRunner;

fn pattern(text: &str) -> LabelPattern {
    LabelPattern::parse(text).unwrap()
}

fn entry(windows: &[&str], webviews: &[&str], scope_id: Option<u64>) -> ResolvedCommand {
    ResolvedCommand {
        context: ExecutionContext::Local,
        windows: windows.iter().map(|text| pattern(text)).collect(),
        webviews: webviews.iter().map(|text| pattern(text)).collect(),
        scope_id,
    }
}

fn at(text: &str) -> Origin {
    Origin::Remote { url: Url::parse(text).unwrap() }
}

fn is_ldh(c: char) -> bool {
    c.is_ascii_lowercase() || c.is_ascii_digit() || c == '-'
}

fn is_drawn_url(text: &str) -> bool {
    let host = match text.strip_prefix("https://").or(text.strip_prefix("http://")) {
        Some(host) => host,
        None => return false,
    };
    let labels: Vec<&str> = host.split('.').collect();
    labels.len() == 2
        && (1..=11).contains(&labels[0].len())
        && labels[0].starts_with(|c: char| c.is_ascii_lowercase())
        && labels[0].chars().all(is_ldh)
        && (2..=5).contains(&labels[1].len())
        && labels[1].chars().all(|c| c.is_ascii_lowercase())
}

#[test]
fn label_patterns_parse_or_are_refused() {
    for text in ["", "*", "main-*", "m?in", "[ab]*", "[!a]", "**", "**/x", "a]"] {
        assert_eq!(LabelPattern::parse(text).unwrap().as_str(), text);
    }
    for text in ["a**b", "***", "[", "a[", "[]"] {
        assert_eq!(LabelPattern::parse(text), Err(ParseError::LabelPattern));
    }
}

#[test]
fn label_patterns_match() {
    assert!(pattern("m?in").matches("main"));
    assert!(!pattern("m?in").matches("min"));
    assert!(pattern("[ab]*").matches("b-1"));
    assert!(!pattern("[ab]*").matches("c-1"));
    assert!(pattern("[!a]").matches("b"));
    assert!(!pattern("[!a]").matches("a"));
    assert!(pattern("main").matches("main"));
    assert!(!pattern("main").matches("Main"));
    assert!(pattern("*").matches(""));
    assert!(pattern("*").matches("a/b.c"));
    assert!(!pattern("").matches("a"));
    assert!(pattern("a*b*c").matches("a-b-b-c"));
}

fn simple_match(pattern: &[char], label: &[char]) -> bool {
    match pattern.split_first() {
        None => label.is_empty(),
        Some(('*', rest)) => (0..=label.len()).any(|k| simple_match(rest, &label[k..])),
        Some((c, rest)) => {
            !label.is_empty()
                && (*c == '?' || *c == label[0])
                && simple_match(rest, &label[1..])
        }
    }
}

fn words(alphabet: &[char], max: usize) -> Vec<Vec<char>> {
    let mut all: Vec<Vec<char>> = vec![vec![]];
    let mut last: Vec<Vec<char>> = vec![vec![]];
    for _ in 0..max {
        let mut next = vec![];
        for word in &last {
            for c in alphabet {
                let mut longer = word.clone();
                longer.push(*c);
                next.push(longer);
            }
        }
        all.extend(next.iter().cloned());
        last = next;
    }
    all
}

#[test]
fn simple_patterns_match_as_described() {
    let labels = words(&['a', '.', '/'], 3);
    for text in words(&['a', '.', '/', '?', '*', ']'], 4) {
        if text.windows(2).any(|pair| pair == ['*', '*']) {
            continue;
        }
        let compiled = pattern(&text.iter().collect::<String>());
        for label in &labels {
            let found = compiled.matches(&label.iter().collect::<String>());
            assert_eq!(found, simple_match(&text, label), "{text:?} on {label:?}");
        }
    }
}

#[test]
fn any_of_several_patterns_matches() {
    let patterns = vec![pattern("main-*"), pattern("side")];
    assert!(any_matches(&patterns, "main-1"));
    assert!(any_matches(&patterns, "side"));
    assert!(!any_matches(&patterns, "other"));
    assert!(!any_matches(&vec![], "main-1"));
}

#[test]
fn urls_parse_or_are_refused() {
    assert_eq!(Url::parse("https://tauri.app").unwrap().as_str(), "https://tauri.app/");
    assert_eq!(Url::parse("HTTPS://Tauri.App:443/a?b#c").unwrap().as_str(), "https://tauri.app/a?b#c");
    assert_eq!(Url::parse("http://xn--bcher-kva.de").unwrap().as_str(), "http://xn--bcher-kva.de/");
    for text in ["", "tauri.app", "/a", "https://", "http://xn--0.aa", "http://xn--.aa"] {
        assert_eq!(Url::parse(text).err(), Some(ParseError::Url), "{text}");
    }
}

#[test]
fn plain_urls_are_written_out_with_the_root_path() {
    let mut runner = TestRunner::deterministic();
    let regex = "https?://[a-z][a-z0-9-]{0,40}\\.[a-z]{1,40}";
    let strategy = proptest::string::string_regex(regex).unwrap();
    for _ in 0..512 {
        let text = strategy.new_tree(&mut runner).unwrap().current();
        assert_eq!(Url::parse(&text).unwrap().as_str(), format!("{text}/"));
    }
    for host in ["a-.bc", "ab--c.de", "a1-.b", "a.b", "x.ox", "xn-.de", "x0x.com"] {
        let text = format!("http://{host}");
        assert_eq!(Url::parse(&text).unwrap().as_str(), format!("{text}/"));
    }
}

#[test]
fn url_patterns_parse_or_are_refused() {
    for text in ["https://*", "http://*", "https://tauri.app", "https://*.tauri.app", "*://localhost"] {
        assert_eq!(RemoteUrlPattern::parse(text).unwrap().as_str(), text);
    }
    for text in ["", "/a", "tauri.app", "https://a:99999"] {
        assert_eq!(RemoteUrlPattern::parse(text), Err(ParseError::UrlPattern), "{text}");
    }
}

#[test]
fn texts_that_the_pattern_parser_may_stumble_over_are_told() {
    for text in [
        "", "https://*", "https://tauri.app/a.b?c=%20#d", "%2", "%2f", ".", "https://[::1]",
        "https://[2001:db8::*]:8080/a", "https://[", "a{b}?", "a\\b", "..", "a/b..c", "a%2eb",
        "https://([a-z]+)", "{a.}b.", "%2e.", "/.a.", "https://a/x/../y", "https://a/..",
        "https://a:80/../{b}?", "https://*.a/../b", "https://a/*/../b", "https://a/:id/..",
        "https://[::1]/{a}?", "http://a/\tb", "\u{1}", ".\\.",
    ] {
        assert!(parser_safe(text), "{text}");
        RemoteUrlPattern::parse_if_safe(text).ok();
    }
    for text in [
        "https://]", "https://[@]", "https://[a]]", "[a/]", "{[a]}", "\\[a]", "a\tb", "a/../b",
        "/%2e.", "/.%2E", "/{.}.", "/..", "\\..", "a\\..", "\t", "https://a/*b/..",
        "https://a/:id-b/..", "https://a/(x)/..", "https://a/{b}/..", "https://a/*b/\t..",
        "{http:/a?}[x:]",
    ] {
        assert!(!parser_safe(text), "{text}");
        assert_eq!(RemoteUrlPattern::parse_if_safe(text), Err(ParseError::UnsafeUrlPattern));
    }
    let parsed = RemoteUrlPattern::parse_if_safe("https://*").unwrap();
    assert_eq!(parsed.as_str(), "https://*");
    assert_eq!(RemoteUrlPattern::parse_if_safe("tauri.app"), Err(ParseError::UrlPattern));
}

/// Texts of up to two of these pieces behind three beginnings, where the parser either is sure to
/// return or is not asked.
#[test]
fn pattern_parser_returns_on_safe_texts() {
    let pieces = [
        "http:", "//", "/", "a", ".", "..", "*", ":id", "[", "]", "{", "}", "\\", "%2e", "?", "#",
        "@", "(x)", "[::1]", "+",
    ];
    let url = Url::parse("http://a/b").unwrap();
    let mut texts: Vec<String> = vec![String::new(), "http://a/".to_string(), "http://".to_string()];
    let mut asked: usize = 0;
    for _ in 0..2 {
        texts = texts
            .iter()
            .flat_map(|text| pieces.iter().map(move |piece| format!("{text}{piece}")))
            .collect();
        for text in &texts {
            if let Ok(pattern) = RemoteUrlPattern::parse_if_safe(text) {
                pattern.test(&url);
                asked += 1;
            }
        }
    }
    assert!(asked > 100);
}

#[test]
fn url_patterns_are_equal_by_their_parts() {
    let parse = |text: &str| RemoteUrlPattern::parse(text).unwrap();
    assert!(parse("https://tauri.app") == parse("https://tauri.app"));
    assert!(parse("https://tauri.app") == parse("https://tauri.app/"));
    assert!(parse("https://tauri.app") == parse("https://tauri.app:443"));
    assert!(parse("https://tauri.app") == parse("https://Tauri.App"));
    assert!(parse("https://tauri.app") != parse("http://tauri.app"));
    assert!(parse("https://tauri.app") != parse("https://tauri.app/a"));
}

#[test]
fn url_patterns_test_urls() {
    let admits = |pattern: &str, url: &str| {
        RemoteUrlPattern::parse(pattern).unwrap().test(&Url::parse(url).unwrap())
    };
    assert!(admits("http://*", "http://tauri.app/path?q=1"));
    assert!(!admits("http://*", "https://tauri.app"));
    assert!(!admits("https://*", "https://tauri.app:8080"));
    assert!(admits("https://*", "https://tauri.app:443"));
    assert!(!admits("http://*.tauri.app", "http://tauri.app/path"));
    assert!(admits("http://*.tauri.app", "http://api.tauri.app/path"));
    assert!(admits("http://localhost/*", "http://localhost/path?q=1"));
    assert!(admits("*://localhost", "custom://localhost/path"));
    assert!(admits("https://tauri.app", "https://tauri.app/path#x"));
    assert!(!admits("https://tauri.app/a", "https://tauri.app/b"));
}

#[test]
fn plain_urls_as_patterns_admit_themselves_only() {
    let mut runner = TestRunner::deterministic();
    let regex = "https?://[a-b][a-b0-1-]{0,2}\\.[a-b]{1,2}";
    let strategy = proptest::string::string_regex(regex).unwrap();
    for _ in 0..256 {
        let first = strategy.new_tree(&mut runner).unwrap().current();
        let second = strategy.new_tree(&mut runner).unwrap().current();
        let pattern = RemoteUrlPattern::parse(&first).unwrap();
        assert!(pattern.test(&Url::parse(&first).unwrap()), "{first}");
        assert_eq!(pattern.test(&Url::parse(&second).unwrap()), first == second);
        for scheme in ["http", "https"] {
            let any = RemoteUrlPattern::parse(&format!("{scheme}://*")).unwrap();
            let expected = first.starts_with(&format!("{scheme}://"));
            assert_eq!(any.test(&Url::parse(&first).unwrap()), expected, "{scheme} {first}");
        }
    }
    let pattern = RemoteUrlPattern::parse("https://xn--bcher-kva.de").unwrap();
    assert!(pattern.test(&Url::parse("https://xn--bcher-kva.de").unwrap()));
    assert!(!pattern.test(&Url::parse("https://bucher.de").unwrap()));
}

#[test]
fn later_pair_of_a_command_counts() {
    let pairs = vec![
        ("open".to_string(), vec![entry(&["a"], &[], Some(1))]),
        ("close".to_string(), vec![entry(&["b"], &[], Some(2))]),
        ("open".to_string(), vec![entry(&["c"], &[], Some(3)), entry(&["d"], &[], None)]),
    ];
    let table = CommandTable::from_pairs(pairs);
    assert_eq!(
        table.get("open"),
        Some(&vec![entry(&["c"], &[], Some(3)), entry(&["d"], &[], None)])
    );
    assert_eq!(table.get("close"), Some(&vec![entry(&["b"], &[], Some(2))]));
    assert_eq!(table.get("other"), None);
    assert_eq!(CommandTable::from_pairs(vec![]).get("open"), None);
}

#[test]
fn deny_without_entries_still_denies() {
    let allowed = vec![("open".to_string(), vec![entry(&["*"], &["*"], None)])];
    let authority = build_authority(allowed, vec![("open".to_string(), vec![])]);
    assert!(authority.resolve_access("open", "main", "main", &Origin::Local).is_none());
}

#[test]
fn allow_without_entries_is_refused() {
    let authority = build_authority(vec![("open".to_string(), vec![])], vec![]);
    assert!(authority.resolve_access("open", "main", "main", &Origin::Local).is_none());
}

#[test]
fn other_denied_commands_do_not_matter() {
    let resolved = Resolved {
        allowed_commands: CommandTable::from_pairs(vec![(
            "open".to_string(),
            vec![entry(&["*"], &[], None)],
        )]),
        denied_commands: CommandTable::from_pairs(vec![(
            "close".to_string(),
            vec![entry(&["*"], &[], None)],
        )]),
    };
    let authority = RuntimeAuthority::new(resolved);
    assert!(authority.resolve_access("open", "main", "main", &Origin::Local).is_some());
    assert!(authority.resolve_access("close", "main", "main", &Origin::Local).is_none());
}

#[test]
fn matching_entries_keep_order_and_number() {
    let entries = vec![
        entry(&["main"], &[], Some(1)),
        entry(&["other"], &[], Some(2)),
        entry(&[], &["view"], Some(3)),
        entry(&["main"], &[], Some(1)),
    ];
    let kept = admitting_entries(&entries, "main", "view", &Origin::Local);
    let expected = vec![entries[0].clone(), entries[2].clone(), entries[3].clone()];
    assert_eq!(kept, expected);
    let authority = build_authority(vec![("open".to_string(), entries)], vec![]);
    assert_eq!(authority.resolve_access("open", "main", "view", &Origin::Local), Some(expected));
}

#[test]
fn more_entries_are_returned_behind_the_others() {
    let first = entry(&["main"], &[], Some(1));
    let second = entry(&["m*"], &[], Some(2));
    let narrow = build_authority(vec![("open".to_string(), vec![first.clone()])], vec![]);
    let wide = build_authority(
        vec![("open".to_string(), vec![first.clone(), second.clone()])],
        vec![("close".to_string(), vec![])],
    );
    assert_eq!(
        narrow.resolve_access("open", "main", "v", &Origin::Local),
        Some(vec![first.clone()])
    );
    assert_eq!(
        wide.resolve_access("open", "main", "v", &Origin::Local),
        Some(vec![first, second])
    );
}

#[test]
fn remote_entries_are_for_remote_origins() {
    let resolved = ResolvedCommand {
        context: ExecutionContext::Remote { url: RemoteUrlPattern::parse("https://tauri.app").unwrap() },
        webviews: vec![pattern("*")],
        ..Default::default()
    };
    let authority = build_authority(vec![("open".to_string(), vec![resolved.clone()])], vec![]);
    let granted = authority.resolve_access("open", "w", "v", &at("https://tauri.app"));
    assert_eq!(granted, Some(vec![resolved]));
    assert!(authority.resolve_access("open", "w", "v", &at("http://tauri.app")).is_none());
    assert!(authority.resolve_access("open", "w", "v", &at("https://tauri.dev")).is_none());
    assert!(authority.resolve_access("open", "w", "v", &Origin::Local).is_none());
}

#[test]
fn decisions_agree_with_compiled_patterns() {
    let mut entries: Vec<ResolvedCommand> = vec![];
    let mut compiled: Vec<(Option<tauri_utils::acl::RemoteUrlPattern>, glob::Pattern)> = vec![];
    for context in [None, Some("https://*"), Some("https://tauri.app"), Some("*://a.b/c*")] {
        for window in ["main-*", "[mo]*", "x"] {
            entries.push(ResolvedCommand {
                context: match context {
                    None => ExecutionContext::Local,
                    Some(text) => {
                        ExecutionContext::Remote { url: RemoteUrlPattern::parse(text).unwrap() }
                    }
                },
                windows: vec![pattern(window)],
                webviews: vec![pattern("view-?")],
                scope_id: Some(entries.len() as u64),
            });
            let url = context.map(|text| text.parse().unwrap());
            compiled.push((url, glob::Pattern::new(window).unwrap()));
        }
    }
    let webviews = glob::Pattern::new("view-?").unwrap();
    let authority = build_authority(vec![("open".to_string(), entries)], vec![]);
    let urls = [None, Some("https://tauri.app"), Some("http://a.b/cd"), Some("https://a.b:1/c")];
    for window in ["main-1", "other", "x", "y"] {
        for webview in ["view-1", "view"] {
            for url in urls {
                let origin = url.map_or(Origin::Local, at);
                let url = url.map(|text| url::Url::parse(text).unwrap());
                let expected: Vec<u64> = (0..compiled.len())
                    .filter(|i| {
                        let context = match (&compiled[*i].0, &url) {
                            (None, None) => true,
                            (Some(pattern), Some(url)) => pattern.test(url),
                            _ => false,
                        };
                        context && (compiled[*i].1.matches(window) || webviews.matches(webview))
                    })
                    .map(|i| i as u64)
                    .collect();
                let decided = authority.resolve_access("open", window, webview, &origin);
                assert_eq!(decided.is_none(), expected.is_empty());
                let returned: Vec<u64> = decided
                    .unwrap_or_default()
                    .iter()
                    .map(|entry| entry.scope_id.unwrap())
                    .collect();
                assert_eq!(returned, expected);
            }
        }
    }
}

#[test]
fn origins_fall_under_contexts() {
    let context = ExecutionContext::Remote { url: RemoteUrlPattern::parse("https://*").unwrap() };
    assert!(Origin::Local.matches(&ExecutionContext::default()));
    assert!(!Origin::Local.matches(&context));
    assert!(!at("https://tauri.app").matches(&ExecutionContext::Local));
    assert!(at("https://tauri.app").matches(&context));
    assert!(!at("http://tauri.app").matches(&context));
}

#[test]
fn origins_are_written_out() {
    assert_eq!(at("https://tauri.app").to_string(), "remote: https://tauri.app/");
    assert_eq!(at("https://tauri.app/a b").to_string(), "remote: https://tauri.app/a%20b");
    assert_eq!(at("https://tauri.app").clone().to_string(), "remote: https://tauri.app/");
}

#[test]
fn default_entry_is_local_and_empty() {
    let entry = ResolvedCommand::default();
    assert_eq!(entry.context, ExecutionContext::Local);
    assert!(entry.windows.is_empty());
    assert!(entry.webviews.is_empty());
    assert_eq!(entry.scope_id, None);
}

#[test]
fn draws_have_their_shapes() {
    let mut draws = Draws::seeded([7; 32]);
    let mut local: usize = 0;
    let mut remote: usize = 0;
    let mut names: Vec<String> = vec![];
    for _ in 0..512 {
        let name = command_name().draw(&mut draws).unwrap();
        assert!((1..=8).contains(&name.len()));
        assert!(name.chars().all(|c| c.is_ascii_lowercase()));
        names.push(name);
        let label = any_label().draw(&mut draws).unwrap();
        assert!((1..=10).contains(&label.len()) && label.chars().all(is_ldh));
        let label = non_main_label().draw(&mut draws).unwrap();
        assert!((1..=10).contains(&label.len()) && label.chars().all(is_ldh));
        assert!(!label.starts_with("main-"));
        let label = main_dash_label().draw(&mut draws).unwrap();
        let suffix = label.strip_prefix("main-").unwrap();
        assert!(suffix.len() <= 5 && suffix.chars().all(is_ldh));
        let origin = remote_origin().draw(&mut draws).unwrap();
        let written = origin.to_string();
        let url = written.strip_prefix("remote: ").unwrap().strip_suffix('/').unwrap();
        assert!(is_drawn_url(url), "{url}");
        match any_origin().draw(&mut draws).unwrap() {
            Origin::Local => local += 1,
            Origin::Remote { url } => {
                assert!(is_drawn_url(url.as_str().strip_suffix('/').unwrap()));
                remote += 1;
            }
        }
    }
    assert!(local > 100 && remote > 100);
    names.sort();
    names.dedup();
    assert!(names.len() > 100);
}

#[test]
fn strategies_hold_what_is_drawn_from() {
    let labels = [('a', 'z'), ('0', '9'), ('-', '-')];
    assert_eq!(command_name().ranges(), &vec![('a', 'z')]);
    assert_eq!(command_name().bounds(), (1, 8));
    assert_eq!(command_name().reason(), None);
    for (texts, bounds) in [(any_label(), (1, 10)), (main_dash_label(), (0, 5)), (non_main_label(), (1, 10))] {
        assert_eq!(texts.ranges(), &labels);
        assert_eq!(texts.bounds(), bounds);
    }
    assert_eq!(any_label().reason(), None);
    assert_eq!(main_dash_label().reason(), None);
    assert_eq!(non_main_label().reason().unwrap(), "must not start with main-");
    assert_eq!(local_origin().kinds(), &vec![OriginKind::Local]);
    assert_eq!(remote_origin().kinds(), &vec![OriginKind::Remote]);
    assert_eq!(any_origin().kinds(), &vec![OriginKind::Local, OriginKind::Remote]);
    let kinds = remote_origin().or(any_origin());
    assert_eq!(kinds.kinds(), &vec![OriginKind::Remote, OriginKind::Local, OriginKind::Remote]);
    assert_eq!(remote_regex(), "https?://[a-z][a-z0-9-]{0,10}\\.[a-z]{2,5}");
}

fn lengths(texts: &Texts) -> Vec<usize> {
    let mut draws = Draws::seeded([7; 32]);
    let mut lengths: Vec<usize> =
        (0..1024).map(|_| texts.draw(&mut draws).unwrap().len()).collect();
    lengths.sort();
    lengths.dedup();
    lengths
}

#[test]
fn draws_reach_every_length() {
    assert_eq!(lengths(&command_name()), (1..=8).collect::<Vec<usize>>());
    assert_eq!(lengths(&any_label()), (1..=10).collect::<Vec<usize>>());
    assert_eq!(lengths(&main_dash_label()), (5..=10).collect::<Vec<usize>>());
    assert_eq!(lengths(&non_main_label()), (1..=10).collect::<Vec<usize>>());
}

#[test]
fn same_seed_gives_same_draws() {
    let drawn = |seed: u8| -> Vec<String> {
        let mut draws = Draws::seeded([seed; 32]);
        (0..16).map(|_| any_label().draw(&mut draws).unwrap()).collect()
    };
    assert_eq!(drawn(1), drawn(1));
    assert_ne!(drawn(1), drawn(2));
    assert_eq!(drawn(0).len(), 16);
}

#[test]
fn labels_split_by_prefix() {
    let mut draws = Draws::seeded([7; 32]);
    for _ in 0..256 {
        let label = main_dash_label().draw(&mut draws).unwrap();
        assert!(any_label().keeps(&chars_of(&label)) && !non_main_label().keeps(&chars_of(&label)));
        assert!(label.len() <= 10 && label.chars().all(is_ldh));
        let label = non_main_label().draw(&mut draws).unwrap();
        assert!(non_main_label().keeps(&chars_of(&label)));
    }
}

#[test]
fn draws_are_finished_from_given_values() {
    let mut draws = Draws::seeded([7; 32]);
    for _ in 0..16 {
        assert_eq!(local_origin().draw(&mut draws).unwrap().to_string(), "local");
    }
    assert_eq!(remote_origin_at("http://a.bc").unwrap().to_string(), "remote: http://a.bc/");
    assert!(remote_origin_at("a.bc").is_none());
    assert_eq!(main_dash_label().text_of(&vec![]), "main-");
    assert_eq!(main_dash_label().text_of(&vec!['a', '-', '1']), "main-a-1");
    assert_eq!(non_main_label().text_of(&vec!['a', '-', '1']), "a-1");
    let barred = |text: &str| !non_main_label().keeps(&chars_of(text));
    assert!(barred("main-"));
    assert!(barred("main-x"));
    assert!(!barred("main"));
    assert!(!barred("amain-"));
    assert!(main_dash_label().keeps(&chars_of("main-")));
}

#[test]
fn strings_and_characters() {
    assert_eq!(chars_of("a\u{e9}z"), vec!['a', '\u{e9}', 'z']);
    assert_eq!(string_of(&vec!['a', '\u{e9}', 'z']), "a\u{e9}z");
    assert!(starts_with(&chars_of("abc"), &chars_of("ab")));
    assert!(starts_with(&chars_of("abc"), &vec![]));
    assert!(!starts_with(&chars_of("abc"), &chars_of("b")));
    assert!(!starts_with(&chars_of("a"), &chars_of("ab")));
}

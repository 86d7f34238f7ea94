use flowstation::net_dashboard::update_check::{Action, UpdateCheck, PendingCheck};
use flowstation::text;

#[test]
fn no_source_tree_is_unknown() {
    let uc = match PendingCheck::begin("v0.2.5-2aad62c8", "2aad62c8", false).1 {
        Action::Finished(uc) => uc,
        other => panic!("expected an outcome, got {other:?}"),
    };
    assert!(uc.check_failed);
    assert!(!uc.update_available);
}

#[test]
fn json_output() {
    let uc = UpdateCheck {
        current: "v0.2.5-gabc".to_string(),
        latest: Some("v0.2.6".to_string()),
        update_available: true,
        release_url: Some("https://github.com/razvanzeces/flowstation/releases/tag/v0.2.6".to_string()),
        check_failed: false,
    };
    let j = uc.to_json();
    assert!(j.contains("\"update_available\":true"));
    assert!(j.contains("\"latest\":\"v0.2.6\""));
    assert!(j.contains("\"check_failed\":false"));
}

#[test]
fn json_escapes_quotes_and_backslashes() {
    let uc = UpdateCheck {
        current: "a\\b\"c".to_string(),
        latest: None,
        update_available: false,
        release_url: None,
        check_failed: true,
    };
    assert_eq!(
        uc.to_json(),
        "{\"current\":\"a\\\\b\\\"c\",\"latest\":null,\"update_available\":false,\"release_url\":null,\"check_failed\":true}"
    );
}

#[test]
fn json_escapes_control_characters() {
    let uc = UpdateCheck {
        current: "a\nb\u{0}\u{1f} \u{7f}é".to_string(),
        latest: Some("\t\"\r".to_string()),
        update_available: true,
        release_url: Some("\u{8}\u{c}\\".to_string()),
        check_failed: false,
    };
    let j = uc.to_json();
    assert_eq!(
        j,
        "{\"current\":\"a\\u000ab\\u0000\\u001f \u{7f}é\",\"latest\":\"\\u0009\\\"\\u000d\",\"update_available\":true,\"release_url\":\"\\u0008\\u000c\\\\\",\"check_failed\":false}"
    );
}

#[test]
fn json_holds_no_raw_control_character() {
    for code in 0..0x20u8 {
        let c = code as char;
        let uc = UpdateCheck {
            current: c.to_string(),
            latest: Some(c.to_string()),
            update_available: false,
            release_url: Some(c.to_string()),
            check_failed: false,
        };
        let j = uc.to_json();
        assert!(j.chars().all(|c| c >= ' '));
        assert_eq!(j.matches(&format!("\"\\u{:04x}\"", code)).count(), 3);
    }
}

/// Run a check in which each command prints what `git` says, and record the commands.
fn run(
    hash: &str,
    git: impl Fn(&str) -> Option<&'static str>,
) -> (Vec<String>, UpdateCheck) {
    let mut commands = Vec::new();
    let (mut check, mut action) = PendingCheck::begin("v1", hash, true);
    loop {
        match action {
            Action::Finished(check) => return (commands, check),
            Action::Git(args) => {
                let command = args.join(" ");
                let printed = git(&command).map(|s| s.to_string());
                commands.push(command);
                action = check.on_output(printed);
            }
        }
    }
}

fn healthy(command: &str) -> Option<&'static str> {
    if command == "rev-parse --abbrev-ref HEAD" {
        Some("miura\n")
    } else if command.starts_with("rev-list") {
        Some(" 3\n")
    } else if command.starts_with("rev-parse --short=8") {
        Some("b349882a\n")
    } else {
        Some("")
    }
}

#[test]
fn a_check_counts_from_the_commit_of_the_build() {
    let (commands, check) = run("2aad62c8-modified", healthy);
    assert_eq!(
        commands,
        vec![
            "rev-parse --abbrev-ref HEAD",
            "fetch --quiet origin miura",
            "rev-parse --short=8 origin/miura",
            "cat-file -e 2aad62c8^{commit}",
            "rev-list --count 2aad62c8..origin/miura",
        ]
    );
    assert_eq!(check.current, "v1");
    assert_eq!(check.latest.as_deref(), Some("miura b349882a (+3)"));
    assert!(check.update_available);
    assert!(!check.check_failed);
    assert_eq!(check.release_url, None);
}

#[test]
fn a_check_falls_back_to_head_and_main() {
    // A detached HEAD is `main`, and a build that names no commit is counted from HEAD.
    for hash in ["", "unknown", "-modified", "unknown-modified"] {
        let (commands, check) = run(hash, |command| {
            if command == "rev-parse --abbrev-ref HEAD" {
                Some("HEAD\n")
            } else if command.starts_with("rev-list") {
                Some("0")
            } else {
                healthy(command)
            }
        });
        assert_eq!(
            commands,
            vec![
                "rev-parse --abbrev-ref HEAD",
                "fetch --quiet origin main",
                "rev-parse --short=8 origin/main",
                "rev-list --count HEAD..origin/main",
            ]
        );
        assert_eq!(check.latest.as_deref(), Some("main b349882a (+0)"));
        assert!(!check.update_available);
        assert!(!check.check_failed);
    }
    // So is one whose commit is not in the clone.
    let (commands, check) = run("2aad62c8", |command| {
        if command.starts_with("cat-file") {
            None
        } else {
            healthy(command)
        }
    });
    assert_eq!(commands[4], "rev-list --count HEAD..origin/miura");
    assert_eq!(check.latest.as_deref(), Some("miura b349882a (+3)"));
    // No name at all is no branch either.
    let (commands, _) = run("2aad62c8", |command| {
        if command == "rev-parse --abbrev-ref HEAD" {
            Some(" \n")
        } else {
            healthy(command)
        }
    });
    assert_eq!(commands[1], "fetch --quiet origin main");
}

#[test]
fn any_failure_is_unknown() {
    for (n, failing) in [
        (1, "rev-parse --abbrev-ref HEAD"),
        (2, "fetch"),
        (3, "rev-parse --short=8"),
        (5, "rev-list"),
    ] {
        let (commands, check) = run("2aad62c8", |command| {
            if command.starts_with(failing) {
                None
            } else {
                healthy(command)
            }
        });
        assert_eq!(commands.len(), n, "nothing is run after {failing}");
        assert!(check.check_failed);
        assert!(!check.update_available);
        assert_eq!(check.latest, None);
        assert_eq!(check.current, "v1");
    }
    for count in ["", "three", "-1", "4294967296", "1 2"] {
        let (_, check) = run("2aad62c8", |command| {
            if command.starts_with("rev-list") {
                Some(count)
            } else {
                healthy(command)
            }
        });
        assert!(check.check_failed, "{count:?} is no count");
    }
}

#[test]
fn an_update_is_offered_where_the_count_is_above_zero() {
    for (count, offered) in [("0", false), ("1", true), ("+2\n", true), ("4294967295", true)] {
        let (_, check) = run("2aad62c8", |command| {
            if command.starts_with("rev-list") {
                Some(count)
            } else {
                healthy(command)
            }
        });
        assert!(!check.check_failed);
        assert_eq!(check.update_available, offered);
    }
}

#[test]
fn white_space_is_what_unicode_says() {
    for code in 0..=0x10FFFFu32 {
        if let Some(c) = char::from_u32(code) {
            assert_eq!(text::is_white_space(c), c.is_whitespace(), "{code:x}");
        }
    }
}

#[test]
fn text_is_trimmed_split_and_put_together() {
    let text_of = |s: &str| -> String { text::trim(s).into_iter().collect() };
    assert_eq!(text_of("  a b \n"), "a b");
    assert_eq!(text_of(" \t "), "");
    assert_eq!(text_of(""), "");
    assert_eq!(text_of("é\u{2003}"), "é");
    let mut out = String::new();
    text::push_decimal(&mut out, 0);
    text::push_decimal(&mut out, 1203);
    text::push_decimal(&mut out, u128::MAX);
    assert_eq!(out, format!("01203{}", u128::MAX));
    let mut out = String::new();
    text::push_padded(&mut out, 42, 5, '_');
    text::push_padded(&mut out, 123456, 5, '_');
    assert_eq!(out, "___42123456");
    assert!(text::same("abc", "abc"));
    assert!(!text::same("abc", "abd") && !text::same("abc", "ab"));
    for n in [0u32, 9, 10, 999, 4294967295] {
        let mut out = String::new();
        text::push_decimal(&mut out, n as u128);
        assert_eq!(text::parse_u32(&text::chars_of(&out)), Some(n));
    }
}

//! A desktop's files, put aside and brought back.

use bootc_migrate_core::de_migrate::{
    build_hook_env, compute_restore_plan, compute_stash_plan, discover_hooks,
    extract_portable_subset_gnome, hook_result, hook_result_lines, parse_desktop_environment,
    parse_user_homes, portable_subset_to_kde_kwriteconfig_args, restore, stash, stash_paths,
    DesktopEnvironment, HookEntry, Move, PortableSubset, UserHome,
};

#[test]
fn stash_plan_reports_existing_and_missing_paths() {
    let existing = ["/home/u/.config/dconf/user".to_string()];
    let plan = compute_stash_plan(DesktopEnvironment::Gnome, "/home/u", &existing);
    let dconf = plan
        .iter()
        .find(|e| e.relative_path == ".config/dconf/user")
        .unwrap();
    assert!(dconf.source_exists);
    let shell = plan
        .iter()
        .find(|e| e.relative_path == ".config/gnome-shell")
        .unwrap();
    assert!(!shell.source_exists);
}

#[test]
fn every_desktop_environment_has_stash_paths_and_a_round_tripping_name() {
    for de in [
        DesktopEnvironment::Gnome,
        DesktopEnvironment::Kde,
        DesktopEnvironment::Cosmic,
        DesktopEnvironment::Niri,
        DesktopEnvironment::Xfce,
    ] {
        let paths = stash_paths(de);
        assert!(!paths.is_empty(), "{} has no stash paths", de.name());
        assert!(
            paths
                .iter()
                .all(|p| p.starts_with('.') && !p.contains("..")),
            "{} stash paths must be dotfile paths relative to $HOME: {paths:?}",
            de.name()
        );
        assert_eq!(parse_desktop_environment(&de.name()), Some(de));
        assert_eq!(
            parse_desktop_environment(&de.name().to_uppercase()),
            Some(de)
        );
    }
    assert_eq!(parse_desktop_environment("mate"), None);
}

#[test]
fn parse_user_homes_selects_only_loginable_human_accounts() {
    let passwd = "\
root:x:0:0:root:/root:/bin/bash
bin:x:1:1:bin:/bin:/sbin/nologin
nobody:x:65534:65534:Kernel Overflow User:/:/sbin/nologin
systemd-oom:x:999:999:systemd Userspace OOM Killer:/:/usr/sbin/nologin
alice:x:1000:1000:Alice:/home/alice:/bin/bash
bob:x:1001:1001:Bob:/var/home/bob:/usr/bin/zsh
locked:x:1002:1002:Locked:/home/locked:/usr/sbin/nologin
rootless:x:1003:1003:No Home::/bin/bash
# comment:x:1004:1004::/home/nope:/bin/bash
malformed-line-without-fields
";
    let homes = parse_user_homes(passwd);
    assert_eq!(
        homes,
        vec![
            UserHome {
                name: "alice".to_string(),
                uid: 1000,
                home: "/home/alice".to_string(),
            },
            UserHome {
                name: "bob".to_string(),
                uid: 1001,
                home: "/var/home/bob".to_string(),
            },
        ]
    );
}

#[test]
fn extract_portable_subset_parses_known_gnome_keys() {
    let dump = r#"
[org/gnome/desktop/background]
picture-uri='file:///usr/share/backgrounds/foo.jpg'

[org/gnome/desktop/interface]
color-scheme='prefer-dark'
accent-color='blue'

[org/gnome/desktop/input-sources]
sources=[('xkb', 'us')]
"#;
    let subset = extract_portable_subset_gnome(dump);
    assert_eq!(
        subset.wallpaper_path.as_deref(),
        Some("file:///usr/share/backgrounds/foo.jpg")
    );
    assert_eq!(subset.dark_mode, Some(true));
    assert_eq!(subset.accent_color.as_deref(), Some("blue"));
    assert_eq!(subset.keyboard_layout.as_deref(), Some("[('xkb', 'us')]"));
}

#[test]
fn extract_portable_subset_missing_keys_are_none() {
    let subset = extract_portable_subset_gnome("[org/gnome/desktop/background]\n");
    assert_eq!(subset.wallpaper_path, None);
    assert_eq!(subset.dark_mode, None);
}

#[test]
fn portable_subset_kde_args_only_emitted_for_present_fields() {
    let subset = PortableSubset {
        wallpaper_path: Some("/tmp/wall.jpg".to_string()),
        ..Default::default()
    };
    let cmds = portable_subset_to_kde_kwriteconfig_args(&subset);
    assert_eq!(cmds.len(), 1);
    assert!(cmds[0].contains(&"plasma-org.kde.plasma.desktop-appletsrc".to_string()));
}

#[test]
fn build_hook_env_contains_contract_vars() {
    let env = build_hook_env(
        DesktopEnvironment::Gnome,
        DesktopEnvironment::Kde,
        "/stash",
        "/home/user",
    );
    assert!(env.contains(&("REBASE_FROM_DE".to_string(), "gnome".to_string())));
    assert!(env.contains(&("REBASE_TO_DE".to_string(), "kde".to_string())));
    assert!(env.contains(&("REBASE_STASH_DIR".to_string(), "/stash".to_string())));
}

fn relative(moves: &[Move]) -> Vec<String> {
    moves.iter().map(|m| m.relative_path.clone()).collect()
}

#[test]
fn stash_moves_existing_paths_and_skips_missing() {
    let existing = ["/home/u/.config/dconf/user".to_string()];
    let moved = stash(DesktopEnvironment::Gnome, "/home/u", "/stash", &existing);
    assert_eq!(
        moved,
        vec![Move {
            relative_path: ".config/dconf/user".to_string(),
            from: "/home/u/.config/dconf/user".to_string(),
            to: "/stash/gnome/.config/dconf/user".to_string(),
        }]
    );
}

#[test]
fn stash_dry_run_touches_nothing() {
    // Working out the moves is all that a dry run does.
    let existing = ["/home/u/.config/dconf/user".to_string()];
    let moved = stash(DesktopEnvironment::Gnome, "/home/u", "/stash", &existing);
    assert_eq!(relative(&moved), vec![".config/dconf/user".to_string()]);
}

#[test]
fn restore_moves_stashed_paths_back() {
    let existing = ["/home/u/.config/kdeglobals".to_string()];
    let moved = stash(DesktopEnvironment::Kde, "/home/u", "/stash", &existing);
    let stashed = [moved[0].to.clone()];
    let restored = restore(DesktopEnvironment::Kde, "/home/u", "/stash", &stashed);
    assert_eq!(relative(&restored), vec![".config/kdeglobals".to_string()]);
    assert_eq!(restored[0].from, moved[0].to);
    assert_eq!(restored[0].to, moved[0].from);
    let plan = compute_restore_plan(DesktopEnvironment::Kde, "/stash", &stashed);
    assert!(plan.iter().any(|e| e.source_exists && e.relative_path == ".config/kdeglobals"));
}

#[test]
fn stash_never_deletes_missing_source_is_noop() {
    assert!(stash(DesktopEnvironment::Kde, "/home/u", "/stash", &[]).is_empty());
}

#[test]
fn stash_and_restore_round_trip_for_every_desktop_environment() {
    for de in [
        DesktopEnvironment::Gnome,
        DesktopEnvironment::Kde,
        DesktopEnvironment::Cosmic,
        DesktopEnvironment::Niri,
        DesktopEnvironment::Xfce,
    ] {
        let name = de.name();
        let first = stash_paths(de)[0].clone();
        let moved = stash(de, "/home/u", "/stash", &[format!("/home/u/{first}")]);
        assert_eq!(relative(&moved), vec![first.clone()], "stash plan for {name}");
        assert_eq!(
            moved[0].to,
            format!("/stash/{name}/{first}"),
            "{name}: stash must land under its own directory"
        );
        let restored = restore(de, "/home/u", "/stash", &[moved[0].to.clone()]);
        assert_eq!(relative(&restored), vec![first.clone()], "restore plan for {name}");
        assert_eq!(
            restored[0].to,
            format!("/home/u/{first}"),
            "{name}: restore must put the content back"
        );
    }
}

#[test]
fn every_content_is_kept_by_a_stash_and_back_after_a_restore() {
    let mut files: std::collections::BTreeMap<String, &str> = std::collections::BTreeMap::new();
    files.insert("/home/u/.config/kdeglobals".to_string(), "globals");
    files.insert("/home/u/.config/kwinrc".to_string(), "windows");
    files.insert("/home/u/.bashrc".to_string(), "shell");
    let before = files.clone();
    let existing: Vec<String> = files.keys().cloned().collect();

    let moved = stash(DesktopEnvironment::Kde, "/home/u", "/stash", &existing);
    for m in &moved {
        let content = files.remove(&m.from).unwrap();
        assert_eq!(files.insert(m.to.clone(), content), None);
    }
    assert_eq!(files.len(), 3);
    assert_eq!(files["/stash/kde/.config/kdeglobals"], "globals");
    assert_eq!(files["/stash/kde/.config/kwinrc"], "windows");
    assert_eq!(files["/home/u/.bashrc"], "shell");

    let stashed: Vec<String> = moved.iter().map(|m| m.to.clone()).collect();
    for m in &restore(DesktopEnvironment::Kde, "/home/u", "/stash", &stashed) {
        let content = files.remove(&m.from).unwrap();
        assert_eq!(files.insert(m.to.clone(), content), None);
    }
    assert_eq!(files, before);
}

fn hook(name: &str, is_file: bool, mode: u32) -> HookEntry {
    HookEntry { name: name.to_string(), is_file, mode }
}

#[test]
fn discover_hooks_lists_only_executable_files_sorted() {
    let hooks = discover_hooks(
        "/hooks.d",
        &[
            hook("20-second.sh", true, 0o755),
            hook("10-first.sh", true, 0o755),
            hook("README", true, 0o644),
            hook("dir", false, 0o755),
        ],
    );
    assert_eq!(hooks, vec!["/hooks.d/10-first.sh", "/hooks.d/20-second.sh"]);
}

#[test]
fn discover_hooks_missing_dir_is_empty_not_error() {
    assert!(discover_hooks("/does-not-exist", &[]).is_empty());
}

#[test]
fn run_hooks_dry_run_executes_nothing() {
    // A script that would fail loudly if actually run.
    assert!(hook_result("/hook.sh", true, Some(1)).success);
}

#[test]
fn run_hooks_records_failure_but_continues() {
    let results =
        vec![hook_result("/10-fail.sh", false, Some(3)), hook_result("/20-pass.sh", false, Some(0))];
    assert_eq!(results.len(), 2);
    assert!(!results[0].success);
    assert_eq!(results[0].exit_code, Some(3));
    assert!(results[1].success);
    let lines = hook_result_lines(&results);
    assert_eq!(lines, vec!["  hook /10-fail.sh [FAILED]", "  hook /20-pass.sh [ok]"]);
    assert_eq!(hook_result_lines(&[]), vec!["No hooks found."]);
    assert!(!hook_result("/killed.sh", false, None).success);
}

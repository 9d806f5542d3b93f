//! Which desktop a system has.

use bootc_migrate_core::de_detect::{
    classify_binary_path, classify_session_name, collect_evidence_from_root, cross_desktop_pair,
    default_session_in, detect_desktop, display_manager_config_files, evidence_paths,
    parse_display_manager_default_session, DesktopDetection, DesktopEvidence,
};
use bootc_migrate_core::de_migrate::DesktopEnvironment;
use bootc_migrate_core::de_migrate::DesktopEnvironment::{Cosmic, Gnome, Kde, Niri, Xfce};

fn evidence(sessions: &[&str], binaries: &[&str], default: Option<&str>) -> DesktopEvidence {
    DesktopEvidence {
        session_files: sessions.iter().map(|s| s.to_string()).collect(),
        session_binaries: binaries.iter().map(|s| s.to_string()).collect(),
        default_session: default.map(str::to_string),
    }
}

#[test]
fn classify_session_name_table() {
    let cases: &[(&str, Option<DesktopEnvironment>)] = &[
        ("gnome.desktop", Some(Gnome)),
        ("gnome-xorg.desktop", Some(Gnome)),
        ("gnome-wayland.desktop", Some(Gnome)),
        ("plasma.desktop", Some(Kde)),
        ("plasmax11.desktop", Some(Kde)),
        ("plasmawayland.desktop", Some(Kde)),
        ("cosmic.desktop", Some(Cosmic)),
        ("niri.desktop", Some(Niri)),
        ("xfce.desktop", Some(Xfce)),
        ("Xfce Session.desktop", Some(Xfce)),
        // Not a desktop this module knows — must not be guessed at.
        ("sway.desktop", None),
        ("i3.desktop", None),
        ("", None),
        (".desktop", None),
    ];
    for (input, expected) in cases {
        assert_eq!(
            classify_session_name(input),
            *expected,
            "classifying session {input:?}"
        );
    }
}

#[test]
fn classify_binary_path_table() {
    let cases: &[(&str, Option<DesktopEnvironment>)] = &[
        ("usr/bin/gnome-shell", Some(Gnome)),
        ("/usr/bin/gnome-shell", Some(Gnome)),
        ("usr/bin/plasmashell", Some(Kde)),
        ("usr/bin/cosmic-comp", Some(Cosmic)),
        ("usr/bin/niri", Some(Niri)),
        ("usr/bin/xfce4-session", Some(Xfce)),
        // A prefix or suffix of a marker must not match.
        ("usr/bin/gnome-shell-extension-tool", None),
        ("usr/bin/nirid", None),
        ("usr/bin/bash", None),
    ];
    for (input, expected) in cases {
        assert_eq!(
            classify_binary_path(input),
            *expected,
            "classifying binary {input:?}"
        );
    }
}

#[test]
fn detect_desktop_table() {
    let cases: &[(&str, DesktopEvidence, DesktopDetection)] = &[
        (
            "session file alone",
            evidence(&["gnome.desktop", "gnome-xorg.desktop"], &[], None),
            DesktopDetection::Single(Gnome),
        ),
        (
            "binary alone (session files stripped from the image)",
            evidence(&[], &["usr/bin/plasmashell"], None),
            DesktopDetection::Single(Kde),
        ),
        (
            "session file and binary agree",
            evidence(&["cosmic.desktop"], &["usr/bin/cosmic-comp"], None),
            DesktopDetection::Single(Cosmic),
        ),
        (
            "two desktops shipped, no default session",
            evidence(
                &["gnome.desktop", "plasma.desktop"],
                &["usr/bin/gnome-shell", "usr/bin/plasmashell"],
                None,
            ),
            DesktopDetection::Multiple(vec![Gnome, Kde]),
        ),
        (
            "default session breaks the tie",
            evidence(
                &["gnome.desktop", "plasma.desktop"],
                &["usr/bin/gnome-shell", "usr/bin/plasmashell"],
                Some("plasma.desktop"),
            ),
            DesktopDetection::Single(Kde),
        ),
        (
            "default session overrides a lone contradicting session file",
            evidence(&["gnome.desktop"], &[], Some("plasmax11.desktop")),
            DesktopDetection::Single(Kde),
        ),
        (
            "unrecognized default session falls back to the evidence",
            evidence(&["gnome.desktop"], &[], Some("sway.desktop")),
            DesktopDetection::Single(Gnome),
        ),
        (
            "headless image",
            evidence(&[], &[], None),
            DesktopDetection::Unknown,
        ),
        (
            "only unknown desktops",
            evidence(&["sway.desktop", "i3.desktop"], &[], None),
            DesktopDetection::Unknown,
        ),
        (
            "three desktops are reported sorted and deduplicated",
            evidence(
                &["niri.desktop", "xfce.desktop", "niri.desktop"],
                &["usr/bin/gnome-shell"],
                None,
            ),
            DesktopDetection::Multiple(vec![Gnome, Niri, Xfce]),
        ),
    ];
    for (name, input, expected) in cases {
        assert_eq!(detect_desktop(input), *expected, "case: {name}");
    }
}

#[test]
fn parse_display_manager_default_session_table() {
    let cases: &[(&str, &str, Option<&str>)] = &[
        (
            "sddm autologin",
            "[Autologin]\nUser=alice\nSession=plasma.desktop\n",
            Some("plasma.desktop"),
        ),
        (
            "lightdm seat",
            "[Seat:*]\ngreeter-session=slick-greeter\nuser-session=xfce\n",
            Some("xfce"),
        ),
        (
            "gdm-style DefaultSession",
            "[daemon]\nWaylandEnable=true\nDefaultSession=gnome.desktop\n",
            Some("gnome.desktop"),
        ),
        (
            "no session key at all",
            "[General]\nDisplayServer=wayland\n",
            None,
        ),
        (
            "empty value is not a session",
            "[Autologin]\nSession=\n",
            None,
        ),
        ("empty file", "", None),
    ];
    for (name, content, expected) in cases {
        assert_eq!(
            parse_display_manager_default_session(content).unwrap(),
            expected.map(str::to_string),
            "case: {name}"
        );
    }
}

#[test]
fn parse_display_manager_default_session_rejects_malformed_ini() {
    // A stray section header with no closing bracket must surface as an
    // error, not silently become "no default session".
    let err = parse_display_manager_default_session("[Autologin\nSession=plasma.desktop\n")
        .unwrap_err();
    assert!(
        err.contains("not valid INI"),
        "unexpected error: {err}"
    );
}

#[test]
fn collect_evidence_from_root_reads_sessions_binaries_and_default() {
    let evidence = collect_evidence_from_root(
        &["plasmax11.desktop".to_string(), "plasmawayland.desktop".to_string()],
        &["usr/bin/plasmashell".to_string(), "usr/bin/gnome-shell".to_string()],
        &[(
            "etc/sddm.conf.d/10-autologin.conf".to_string(),
            "[Autologin]\nSession=plasmax11.desktop\n".to_string(),
        )],
    )
    .unwrap();

    assert_eq!(
        evidence.session_files,
        vec![
            "plasmawayland.desktop".to_string(),
            "plasmax11.desktop".to_string()
        ]
    );
    assert_eq!(
        evidence.session_binaries,
        vec![
            "usr/bin/gnome-shell".to_string(),
            "usr/bin/plasmashell".to_string()
        ]
    );
    assert_eq!(
        evidence.default_session.as_deref(),
        Some("plasmax11.desktop")
    );
    // Both shells present, but the display manager names Plasma.
    assert_eq!(detect_desktop(&evidence), DesktopDetection::Single(Kde));
}

#[test]
fn collect_evidence_from_empty_root_is_unknown_not_error() {
    let evidence = collect_evidence_from_root(&[], &[], &[]).unwrap();
    assert_eq!(evidence, DesktopEvidence::default());
    assert_eq!(detect_desktop(&evidence), DesktopDetection::Unknown);
}

#[test]
fn evidence_paths_cover_every_marker() {
    let paths = evidence_paths();
    for binary in [
        "usr/bin/gnome-shell",
        "usr/bin/plasmashell",
        "usr/bin/cosmic-comp",
        "usr/bin/niri",
        "usr/bin/xfce4-session",
    ] {
        assert!(
            paths.contains(&binary.to_string()),
            "{binary} must be streamed out of the image"
        );
    }
    for dir in ["usr/share/xsessions", "usr/share/wayland-sessions"] {
        assert!(paths.contains(&dir.to_string()), "{dir} must be streamed");
    }
    assert!(
        paths.iter().all(|p| !p.starts_with('/')),
        "registry paths are archive-relative: {paths:?}"
    );
}

/// (case name, host verdict, target verdict, expected stash pair)
type Case = (
    &'static str,
    DesktopDetection,
    DesktopDetection,
    Option<(DesktopEnvironment, DesktopEnvironment)>,
);

#[test]
fn cross_desktop_pair_table() {
    let cases: &[Case] = &[
        (
            "gnome to kde is cross-DE",
            DesktopDetection::Single(Gnome),
            DesktopDetection::Single(Kde),
            Some((Gnome, Kde)),
        ),
        (
            "same desktop is not",
            DesktopDetection::Single(Gnome),
            DesktopDetection::Single(Gnome),
            None,
        ),
        (
            "ambiguous target must not be guessed at",
            DesktopDetection::Single(Gnome),
            DesktopDetection::Multiple(vec![Gnome, Kde]),
            None,
        ),
        (
            "unknown host means no stash",
            DesktopDetection::Unknown,
            DesktopDetection::Single(Kde),
            None,
        ),
    ];
    for (name, from, to, expected) in cases {
        assert_eq!(cross_desktop_pair(from, to), *expected, "case: {name}");
    }
}

#[test]
fn detection_renders_for_humans() {
    assert_eq!(DesktopDetection::Single(Kde).describe(), "kde");
    assert_eq!(
        DesktopDetection::Multiple(vec![Gnome, Kde]).describe(),
        "multiple (gnome, kde)"
    );
    assert_eq!(DesktopDetection::Unknown.describe(), "unknown");
}

#[test]
fn the_first_session_key_counts() {
    let kv = |k: &str, v: &str| (k.to_string(), v.to_string());
    assert_eq!(
        default_session_in(&[
            ("General".to_string(), vec![kv("DisplayServer", "wayland")]),
            ("Autologin".to_string(), vec![kv("User", "alice"), kv("Session", "plasma")]),
            ("Seat:*".to_string(), vec![kv("user-session", "xfce")]),
        ]),
        Some("plasma".to_string())
    );
    assert_eq!(default_session_in(&[]), None);
}

#[test]
fn the_case_and_the_ending_of_a_session_do_not_matter() {
    for name in [
        "gnome-xorg.desktop",
        " plasmax11.desktop.desktop ",
        "startkde",
        "COSMIC.DESKTOP",
        "niri",
        "Xfce Session.desktop",
        "sway.desktop",
        ".desktop",
    ] {
        let lower = name.to_ascii_lowercase();
        let markers =
            [("gnome", Gnome), ("plasma", Kde), ("kde", Kde), ("cosmic", Cosmic), ("niri", Niri), ("xfce", Xfce)];
        let want = markers.iter().find(|(m, _)| lower.contains(m)).map(|(_, de)| *de);
        assert_eq!(classify_session_name(name), want, "{name}");
        assert_eq!(classify_session_name(&name.to_ascii_uppercase()), want, "{name}");
    }
}

#[test]
fn drop_ins_follow_the_files() {
    let files = display_manager_config_files(
        &["etc/sddm.conf".to_string()],
        &[(
            "etc/sddm.conf.d".to_string(),
            vec![
                "20-b.conf".to_string(),
                "README".to_string(),
                "10-a.conf".to_string(),
            ],
        )],
    );
    assert_eq!(
        files,
        vec!["etc/sddm.conf", "etc/sddm.conf.d/10-a.conf", "etc/sddm.conf.d/20-b.conf"]
    );
}

#[test]
fn a_broken_configuration_is_named() {
    let err = collect_evidence_from_root(
        &[],
        &[],
        &[("etc/sddm.conf".to_string(), "[Autologin\n".to_string())],
    )
    .unwrap_err();
    assert!(err.contains("etc/sddm.conf"), "{err}");
}

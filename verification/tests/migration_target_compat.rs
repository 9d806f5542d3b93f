//! What the target needs of the source's configuration.

use bootc_migrate_core::migration::target_compat::{
    apply_target_gbm_backend_compat, apply_target_networkmanager_backend_compat,
    configure_gbm_backend_compat, has_split_gbm_backend_layout, is_nvidia_target, iwd_settings,
    networkmanager_config_backend, networkmanager_config_files_in,
    networkmanager_drop_in_files_in, networkmanager_main_config_in,
    refresh_staged_nvidia_gbm_compat, remove_wpa_supplicant_mask, selects_iwd,
    strip_iwd_backend_settings, target_has_wpa_supplicant_service,
    target_networkmanager_config_files, target_selects_iwd_backend, ConfigDir, ConfigEdit,
    EntryKind, GbmLayout, NetworkManagerBackendCompat, UnitState,
};

const SPLIT: GbmLayout =
    GbmLayout { active_is_dir: true, active_has_mesa: false, default_has_mesa: true };

#[test]
fn split_gbm_compat_adds_mesa_fallback_idempotently() {
    let image = "ghcr.io/projectbluefin/dakota:testing";
    let environment =
        apply_target_gbm_backend_compat(image, SPLIT, "EXISTING=value", "x86_64").unwrap();
    assert!(apply_target_gbm_backend_compat(image, SPLIT, &environment, "x86_64").is_none());

    let expected = "GBM_BACKENDS_PATH=/usr/lib/x86_64-linux-gnu/GL/lib/gbm:/usr/lib/x86_64-linux-gnu/GL/default/lib/gbm";
    assert!(environment.contains("EXISTING=value\n"));
    assert_eq!(environment.matches(expected).count(), 1);
}

#[test]
fn gbm_compat_leaves_working_non_nvidia_and_user_configured_layouts_alone() {
    let working = GbmLayout { active_has_mesa: true, ..SPLIT };
    assert!(
        apply_target_gbm_backend_compat(
            "ghcr.io/projectbluefin/dakota:testing",
            working,
            "",
            "x86_64"
        )
        .is_none(),
        "a target whose active GBM path already exposes Mesa needs no override"
    );
    assert!(!has_split_gbm_backend_layout(working));
    assert!(has_split_gbm_backend_layout(SPLIT));

    let custom = "GBM_BACKENDS_PATH=/custom/gbm\n";
    assert!(apply_target_gbm_backend_compat(
        "ghcr.io/projectbluefin/dakota-nvidia:testing",
        SPLIT,
        custom,
        "x86_64"
    )
    .is_none());
    assert!(configure_gbm_backend_compat(custom, "x86_64").is_none());
}

#[test]
fn nvidia_gbm_compat_does_not_depend_on_the_inspection_mount_layout() {
    let incomplete =
        GbmLayout { active_is_dir: false, active_has_mesa: false, default_has_mesa: false };
    let environment = apply_target_gbm_backend_compat(
        "ghcr.io/projectbluefin/dakota-nvidia:testing",
        incomplete,
        "",
        "x86_64",
    )
    .unwrap();
    assert!(environment.contains("GBM_BACKENDS_PATH="));
}

#[test]
fn staged_nvidia_gbm_compat_refreshes_an_existing_deployment() {
    let image = "ghcr.io/projectbluefin/dakota-nvidia:testing";
    assert!(is_nvidia_target(image));
    let environment =
        refresh_staged_nvidia_gbm_compat(image, "EXISTING=value\n", "x86_64").unwrap();
    assert!(refresh_staged_nvidia_gbm_compat(image, &environment, "x86_64").is_none());
    assert!(
        refresh_staged_nvidia_gbm_compat("ghcr.io/projectbluefin/dakota:testing", "", "x86_64")
            .is_none()
    );
}

struct ParserCase {
    name: &'static str,
    config: &'static str,
    selects_iwd: bool,
}

struct StripCase {
    name: &'static str,
    config: &'static str,
    expected: Option<&'static str>,
    removed_settings: usize,
}

#[test]
fn networkmanager_iwd_backend_parser_is_precise() {
    let cases = [
        ParserCase {
            name: "iwd device backend",
            config: "[device]\nwifi.backend=iwd\n",
            selects_iwd: true,
        },
        ParserCase {
            name: "case insensitive iwd value",
            config: "[device]\nwifi.backend=IWD\n",
            selects_iwd: true,
        },
        ParserCase {
            name: "wpa backend",
            config: "[device]\nwifi.backend=wpa_supplicant\n",
            selects_iwd: false,
        },
        ParserCase {
            name: "iwd value in another section",
            config: "[main]\nwifi.backend=iwd\n",
            selects_iwd: false,
        },
    ];

    for case in cases {
        assert_eq!(
            networkmanager_config_backend(case.config)
                .unwrap()
                .is_some_and(|backend| backend.eq_ignore_ascii_case("iwd")),
            case.selects_iwd,
            "{}",
            case.name
        );
    }
}

#[test]
fn strip_iwd_backend_settings_removes_only_iwd_device_settings() {
    let cases = [
        StripCase {
            name: "iwd-only drop-in is empty after cleanup",
            config: "[device]\nwifi.backend=iwd\nwifi.iwd.autoconnect=yes\n",
            expected: None,
            removed_settings: 2,
        },
        StripCase {
            name: "mixed config preserves unrelated settings",
            config: "[main]\nplugins=keyfile\n\n[device]\nwifi.backend=iwd\nwifi.iwd.autoconnect=yes\nwifi.scan-rand-mac-address=no\n",
            expected: Some(
                "[main]\nplugins = keyfile\n\n[device]\nwifi.scan-rand-mac-address = no\n",
            ),
            removed_settings: 2,
        },
        StripCase {
            name: "another backend retains only its compatible settings",
            config: "[device]\nwifi.backend=wpa_supplicant\nwifi.iwd.autoconnect=yes\n",
            expected: Some("[device]\nwifi.backend = wpa_supplicant\n"),
            removed_settings: 1,
        },
        StripCase {
            name: "config without iwd settings is retained",
            config: "[device]\nwifi.backend=wpa_supplicant\n",
            expected: None,
            removed_settings: 0,
        },
    ];

    for case in cases {
        let (contents, removed_settings) = strip_iwd_backend_settings(case.config).unwrap();
        assert_eq!(contents.as_deref(), case.expected, "{}", case.name);
        assert_eq!(removed_settings, case.removed_settings, "{}", case.name);
    }
}

struct DefaultCase {
    name: &'static str,
    target_configs: &'static [(&'static str, &'static str)],
    expected_removed_iwd_settings: usize,
    iwd_configs_remain: bool,
    wpa_supplicant_mask_remains: bool,
}

/// The files of a target in the order in which NetworkManager reads them.
fn in_effect(configs: &[(&str, &str)]) -> Vec<(String, String)> {
    let dir = |root: &str| ConfigDir {
        path: format!("{root}/NetworkManager"),
        main: None,
        drop_ins: configs
            .iter()
            .filter_map(|(p, _)| p.strip_prefix(&format!("{root}/NetworkManager/conf.d/")))
            .map(|n| (n.to_string(), EntryKind::File))
            .collect(),
    };
    target_networkmanager_config_files(&dir("usr/lib"), &dir("run"), &dir("etc"))
        .unwrap()
        .into_iter()
        .map(|p| {
            let text = configs.iter().find(|(q, _)| *q == p).unwrap().1.to_string();
            (p, text)
        })
        .collect()
}

#[test]
fn networkmanager_backend_compat_uses_target_default() {
    let cases = [
        DefaultCase {
            name: "target default backend replaces source iwd backend",
            target_configs: &[(
                "etc/NetworkManager/conf.d/default.conf",
                "[device]\nwifi.backend=wpa_supplicant\n",
            )],
            expected_removed_iwd_settings: 2,
            iwd_configs_remain: false,
            wpa_supplicant_mask_remains: false,
        },
        DefaultCase {
            name: "target-provided iwd backend is retained",
            target_configs: &[(
                "usr/lib/NetworkManager/conf.d/iwd.conf",
                "[device]\nwifi.backend=iwd\n",
            )],
            expected_removed_iwd_settings: 0,
            iwd_configs_remain: true,
            wpa_supplicant_mask_remains: true,
        },
        DefaultCase {
            name: "later target drop-in overrides vendor iwd",
            target_configs: &[
                (
                    "usr/lib/NetworkManager/conf.d/10-backend.conf",
                    "[device]\nwifi.backend=iwd\n",
                ),
                (
                    "etc/NetworkManager/conf.d/20-backend.conf",
                    "[device]\nwifi.backend=wpa_supplicant\n",
                ),
            ],
            expected_removed_iwd_settings: 2,
            iwd_configs_remain: false,
            wpa_supplicant_mask_remains: false,
        },
        DefaultCase {
            name: "etc drop-in shadows same-named vendor drop-in",
            target_configs: &[
                (
                    "usr/lib/NetworkManager/conf.d/10-backend.conf",
                    "[device]\nwifi.backend=iwd\n",
                ),
                (
                    "etc/NetworkManager/conf.d/10-backend.conf",
                    "[device]\nwifi.backend=wpa_supplicant\n",
                ),
            ],
            expected_removed_iwd_settings: 2,
            iwd_configs_remain: false,
            wpa_supplicant_mask_remains: false,
        },
    ];

    let source = vec![
        (
            "NetworkManager/conf.d/10-iwd-backend.conf".to_string(),
            "[device]\nwifi.backend=iwd\n".to_string(),
        ),
        (
            "NetworkManager/conf.d/20-iwd-options.conf".to_string(),
            "[device]\nwifi.iwd.autoconnect=yes\n".to_string(),
        ),
    ];
    for case in cases {
        let target = in_effect(case.target_configs);
        let mask = UnitState::LinkTo("/dev/null".to_string());
        let (edits, compat) =
            apply_target_networkmanager_backend_compat(&target, &source, true, &mask).unwrap();
        assert_eq!(
            compat.removed_iwd_settings, case.expected_removed_iwd_settings,
            "{}",
            case.name
        );
        assert_eq!(
            compat.removed_wpa_supplicant_mask, !case.wpa_supplicant_mask_remains,
            "{}",
            case.name
        );
        if case.iwd_configs_remain {
            assert!(edits.is_empty(), "{}", case.name);
        } else {
            // Both files hold nothing else, so both go.
            assert_eq!(
                edits,
                source
                    .iter()
                    .map(|(p, _)| ConfigEdit { path: p.clone(), replacement: None })
                    .collect::<Vec<_>>(),
                "{}",
                case.name
            );
            // A second run has nothing left to do.
            assert_eq!(
                apply_target_networkmanager_backend_compat(&target, &[], true, &UnitState::Missing)
                    .unwrap()
                    .1,
                NetworkManagerBackendCompat::default(),
                "{}",
                case.name
            );
        }
    }
}

#[test]
fn wpa_supplicant_mask_removal_preserves_non_masks() {
    let cases = [
        ("missing unit", UnitState::Missing, false),
        ("dev null mask", UnitState::LinkTo("/dev/null".to_string()), true),
        (
            "unit alias",
            UnitState::LinkTo("/usr/lib/systemd/system/wpa_supplicant.service".to_string()),
            false,
        ),
        ("custom override file", UnitState::Present, false),
    ];
    for (name, unit, expected_removed) in cases {
        assert_eq!(remove_wpa_supplicant_mask(&unit), expected_removed, "{name}");
    }
}

#[test]
fn networkmanager_config_discovery_refuses_symlinks() {
    let main = ConfigDir {
        path: "/e/NetworkManager".to_string(),
        main: Some(EntryKind::Symlink),
        drop_ins: vec![],
    };
    let drop_in = ConfigDir {
        path: "/e/NetworkManager".to_string(),
        main: None,
        drop_ins: vec![("10-backend.conf".to_string(), EntryKind::Symlink)],
    };
    for (name, dir) in [("main config", &main), ("drop-in", &drop_in)] {
        let error = networkmanager_config_files_in(dir).unwrap_err();
        assert!(error.contains("refusing to follow symlinked"), "{name}");
    }
    assert!(networkmanager_main_config_in(&main).is_err());
    assert!(networkmanager_drop_in_files_in(&drop_in).is_err());
    assert_eq!(networkmanager_main_config_in(&drop_in).unwrap(), None);
}

#[test]
fn target_wpa_supplicant_service_uses_standard_systemd_paths() {
    let paths = [
        "etc/systemd/system/wpa_supplicant.service",
        "usr/local/lib/systemd/system/wpa_supplicant.service",
        "usr/lib/systemd/system/wpa_supplicant.service",
        "lib/systemd/system/wpa_supplicant.service",
    ];
    for path in paths {
        assert!(target_has_wpa_supplicant_service(&[path.to_string()]), "{path}");
    }
    assert!(!target_has_wpa_supplicant_service(&["opt/wpa_supplicant.service".to_string()]));
}

#[test]
fn missing_target_wpa_supplicant_preserves_source_mask() {
    let mask = UnitState::LinkTo("/dev/null".to_string());
    assert_eq!(
        apply_target_networkmanager_backend_compat(&[], &[], false, &mask).unwrap().1,
        NetworkManagerBackendCompat::default()
    );
}

/// Section and key order survive a rewrite as the parser keeps them.
#[test]
fn what_is_not_of_iwd_stays() {
    let (contents, removed) = strip_iwd_backend_settings(
        "[device]\na=1\nwifi.backend=iwd\nb=2\nc=3\n\n[main]\nplugins=keyfile\n",
    )
    .unwrap();
    assert_eq!(removed, 1);
    assert_eq!(
        contents.as_deref(),
        Some("[device]\na = 1\nc = 3\nb = 2\n\n[main]\nplugins = keyfile\n")
    );
    assert!(strip_iwd_backend_settings("[device\n").is_err());
    assert!(networkmanager_config_backend("[device\n").is_err());
}

#[test]
fn the_last_backend_counts() {
    let c = |t: &str| ("x".to_string(), t.to_string());
    assert!(target_selects_iwd_backend(&[
        c("[device]\nwifi.backend=wpa_supplicant\n"),
        c("[device]\nwifi.backend=iwd\n"),
        c("[main]\nx=y\n"),
    ])
    .unwrap());
    assert!(!target_selects_iwd_backend(&[]).unwrap());
    assert!(target_selects_iwd_backend(&[c("[device\n")]).is_err());
    assert!(selects_iwd(Some("IWD")));
    assert!(!selects_iwd(None));
    assert_eq!(
        iwd_settings(
            Some("iwd"),
            &[
                ("wifi.backend".to_string(), "iwd".to_string()),
                ("wifi.iwd.autoconnect".to_string(), "yes".to_string()),
                ("other".to_string(), "1".to_string()),
            ]
        ),
        vec!["wifi.backend", "wifi.iwd.autoconnect"]
    );
}

#[test]
fn a_file_that_cannot_be_read_stops_the_edits_behind_it() {
    let file = |path: &str, text: &str| (path.to_string(), text.to_string());
    let iwd = "[device]\nwifi.backend=iwd\n";
    let source = [file("a.conf", iwd), file("b.conf", "[device\n"), file("c.conf", iwd)];
    let failure =
        apply_target_networkmanager_backend_compat(&[], &source, true, &UnitState::Missing)
            .unwrap_err();
    let due: Vec<&str> = failure.due.iter().map(|e| e.path.as_str()).collect();
    assert_eq!(due, vec!["a.conf"]);
    assert!(failure.message.starts_with("failed to parse b.conf"), "{}", failure.message);
}

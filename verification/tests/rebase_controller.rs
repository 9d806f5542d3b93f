//! The routes of a re-base.

use bootc_migrate_core::preflight::readiness::MigrationGate;
use bootc_migrate_core::preflight::system_info::PendingTransactionStatus;
use bootc_migrate_core::preflight::PreflightReport;
use bootc_migrate_core::rebase_controller::{
    booted_composefs_verity, bootloader_note, check_staged, finalize_failure, finalize_staged_now,
    finalize_verdict, finalized_state, gate_decision, label_warning, pick_staged_verity,
    require_composefs_boot, require_ostree_boot, schedule_staged_composefs_relabel,
    stage_via_bootc_switch, staged_composefs_deployment, staged_image_from_status,
    staged_image_matches, staging_notice, strip_transport, switch_command, switch_failure,
    validate_target_image, CoreMigrationConfig, FinalizeAction, FinalizedState, ImageSwapConfig,
    OstreeDeployConfig, RebaseAction,
};
use bootc_migrate_core::rebase_plan::Backend;
use bootc_migrate_core::selinux::SelinuxConfig;

#[test]
fn booted_composefs_verity_table() {
    assert_eq!(
        booted_composefs_verity("root=UUID=1 composefs=abc12 rw").as_deref(),
        Some("abc12")
    );
    assert_eq!(
        booted_composefs_verity("composefs=?abc12 quiet").as_deref(),
        Some("abc12")
    );
    assert_eq!(booted_composefs_verity("rd.composefs=1 root=UUID=1"), None);
    assert_eq!(booted_composefs_verity("ostree=/ostree/boot.1/x/0"), None);
    assert_eq!(booted_composefs_verity("composefs= quiet"), None);
}

#[test]
fn pick_staged_verity_table() {
    let some = |s: &str| Some(s.to_string());
    let c = vec![("base".to_string(), 10), ("new".to_string(), 20)];
    // bootc's report wins.
    assert_eq!(
        pick_staged_verity(&some("x"), &some("base"), &c).as_deref(),
        Some("x")
    );
    // Otherwise the newest non-booted deployment.
    assert_eq!(
        pick_staged_verity(&None, &some("base"), &c).as_deref(),
        Some("new")
    );
    // The booted one is never picked, even when newest.
    let c2 = vec![("old".to_string(), 5), ("base".to_string(), 30)];
    assert_eq!(
        pick_staged_verity(&None, &some("base"), &c2).as_deref(),
        Some("old")
    );
    assert_eq!(pick_staged_verity(&some(""), &some("base"), &c[..1]), None);
}

#[test]
fn finalized_state_table() {
    let staged = "  default 594b.0 (staged)\n    origin: <unknown origin type>\n* default bef2.0\n    origin: <unknown origin type>\n";
    let pending = "  default 594b.0 (pending)\n    origin: <unknown origin type>\n* default bef2.0\n    origin: <unknown origin type>\n";
    let booted_only = "* default bef2.0\n    origin: <unknown origin type>\n";
    let rollback_only =
        "* default bef2.0\n    origin: <unknown origin type>\n  default 1234.0 (rollback)\n";
    for (input, want) in [
        (staged, FinalizedState::StillStaged),
        (pending, FinalizedState::Pending),
        (booted_only, FinalizedState::NoOtherDeployment),
        (rollback_only, FinalizedState::NoOtherDeployment),
        ("", FinalizedState::NoOtherDeployment),
    ] {
        assert_eq!(finalized_state(input), want, "input: {input:?}");
    }
}

#[test]
fn staged_image_extracted_from_status_json() {
    let json: serde_json::Value = serde_json::from_str(
        r#"{"status":{"staged":{"image":{"image":{"image":"ghcr.io/projectbluefin/bluefin:gts","transport":"registry"}}}}}"#,
    )
    .unwrap();
    assert_eq!(
        staged_image_from_status(&json).as_deref(),
        Some("ghcr.io/projectbluefin/bluefin:gts")
    );
}

#[test]
fn staged_match_exact() {
    assert!(staged_image_matches(
        "ghcr.io/projectbluefin/bluefin:gts",
        "ghcr.io/projectbluefin/bluefin:gts"
    ));
}

#[test]
fn staged_match_strips_requested_transport() {
    assert!(staged_image_matches(
        "docker://ghcr.io/projectbluefin/bluefin:gts",
        "ghcr.io/projectbluefin/bluefin:gts"
    ));
    assert!(staged_image_matches(
        "ostree-unverified-registry:ghcr.io/projectbluefin/bluefin:gts",
        "ghcr.io/projectbluefin/bluefin:gts"
    ));
}

#[test]
fn staged_match_rejects_tag_extension() {
    // The old substring check accepted this: gts-testing contains gts.
    assert!(!staged_image_matches(
        "ghcr.io/projectbluefin/bluefin:gts",
        "ghcr.io/projectbluefin/bluefin:gts-testing"
    ));
    assert!(!staged_image_matches(
        "ghcr.io/projectbluefin/bluefin:gts-testing",
        "ghcr.io/projectbluefin/bluefin:gts"
    ));
}

#[test]
fn staged_match_rejects_different_image() {
    assert!(!staged_image_matches(
        "ghcr.io/projectbluefin/bluefin:gts",
        "ghcr.io/projectbluefin/dakota:stable"
    ));
}

#[test]
fn staged_match_plain_tag_colon_survives_transport_strip() {
    // A bare registry/image:tag has a ':' but no transport — it must not
    // get mangled by the prefix stripping.
    assert!(staged_image_matches(
        "quay.io/fedora/fedora-bootc:42",
        "quay.io/fedora/fedora-bootc:42"
    ));
}

#[test]
fn staged_image_absent_when_nothing_staged() {
    let json: serde_json::Value =
        serde_json::from_str(r#"{"status":{"staged":null,"booted":{}}}"#).unwrap();
    assert_eq!(staged_image_from_status(&json), None);
}

/// The `.origin` file this reference is written into is INI, so a newline
/// or NUL in the image name could inject additional keys.
#[test]
fn target_image_validation_rejects_ini_injection() {
    for good in ["ghcr.io/org/img:tag", "quay.io/o/i@sha256:abc", ""] {
        assert!(
            validate_target_image(good).is_ok(),
            "should accept {good:?}"
        );
    }
    for bad in [
        "ghcr.io/o/i\ntag",
        "ghcr.io/o/i\r\ntag",
        "ghcr.io/o/i\0tag",
        "\n[boot]\nkey=value",
    ] {
        let err = validate_target_image(bad).unwrap_err();
        assert!(
            err.contains("invalid characters"),
            "should reject {bad:?}, got {err}"
        );
    }
}

/// bootc-rebase never prompts, so a gate that would ask the interactive
/// migrator a question must refuse here and name the flag that accepts it.
#[test]
fn gate_decisions_are_testable_without_a_live_system() {
    assert!(gate_decision(MigrationGate::Proceed).is_ok());

    let refused = gate_decision(MigrationGate::Refuse("no space".into()))
        .unwrap_err();
    assert_eq!(refused, "no space");

    let full_copy = gate_decision(MigrationGate::ConfirmFullCopy)
        .unwrap_err();
    assert!(full_copy.contains("Reflink support not detected"));
    assert!(
        full_copy.contains("--force"),
        "a non-interactive refusal must name the flag that accepts it"
    );
}

fn status(image: &str) -> String {
    format!(
        r#"{{"status":{{"staged":{{"image":{{"image":{{"image":"{image}"}}}},"composefs":{{"verity":"feed"}}}}}}}}"#
    )
}

#[test]
fn a_switch_counts_once_the_target_is_staged() {
    let good = status("ghcr.io/o/i:tag");
    assert_eq!(
        stage_via_bootc_switch("docker://ghcr.io/o/i:tag", true, good.as_bytes(), "").unwrap(),
        "Staged deployment verified: ghcr.io/o/i:tag"
    );
    assert_eq!(
        stage_via_bootc_switch("ghcr.io/o/other:tag", true, good.as_bytes(), "").unwrap_err(),
        "bootc switch staged 'ghcr.io/o/i:tag' but the requested target was 'ghcr.io/o/other:tag'"
    );
    assert_eq!(
        stage_via_bootc_switch("x", true, b"{}", "").unwrap_err(),
        "no staged deployment found after bootc switch"
    );
    assert_eq!(
        stage_via_bootc_switch("x", false, b"", " broken \n").unwrap_err(),
        "bootc status failed after switch: broken"
    );
    let unreadable = stage_via_bootc_switch("x", true, b"{not json", "").unwrap_err();
    let theirs = serde_json::from_slice::<serde_json::Value>(b"{not json").unwrap_err();
    assert_eq!(unreadable, format!("parsing bootc status json: {theirs}"));
    assert!(check_staged("a:b", Some("a:b")).is_ok());
    assert!(check_staged("a:b", None).is_err());
}

#[test]
fn commands_and_notices_name_the_target() {
    assert_eq!(switch_command("a:b"), vec!["bootc", "switch", "a:b"]);
    assert_eq!(staging_notice("a:b"), "Staging deployment of a:b via `bootc switch`...");
    assert_eq!(
        switch_failure("a:b", "exit status: 1"),
        "bootc switch a:b failed (exit exit status: 1)"
    );
    assert_eq!(
        label_warning("/x", "ctx", "EPERM"),
        "Warning: could not label /x as ctx: EPERM"
    );
    assert_eq!(strip_transport("ostree-image-signed:registry:a"), "registry:a");
    assert_eq!(strip_transport("docker://a://b"), "a://b");
}

#[test]
fn the_staged_deployment_is_found_on_a_composefs_host() {
    let c = vec![("base".to_string(), 10), ("new".to_string(), 20)];
    assert_eq!(
        staged_composefs_deployment(status("x").as_bytes(), "composefs=base", &c).unwrap(),
        "/sysroot/state/deploy/feed"
    );
    // A status that cannot be read reports nothing.
    assert_eq!(
        staged_composefs_deployment(b"", "composefs=base", &c).unwrap(),
        "/sysroot/state/deploy/new"
    );
    assert!(staged_composefs_deployment(b"{}", "composefs=base", &c[..1]).is_err());
    // Of two of one time the latter counts.
    let twins = vec![("a".to_string(), 10), ("b".to_string(), 10)];
    assert_eq!(pick_staged_verity(&None, &None, &twins).as_deref(), Some("b"));
}

#[test]
fn labels_are_set_on_the_first_boot_where_they_must() {
    let cfg = |mode: &str, ty: &str| SelinuxConfig {
        selinux: Some(mode.to_string()),
        selinux_type: Some(ty.to_string()),
    };
    let target = cfg("enforcing", "targeted");
    assert!(schedule_staged_composefs_relabel("/d", Some(&target), Some(&target)).is_none());
    let plan = schedule_staged_composefs_relabel("/d", None, Some(&target)).unwrap();
    assert_eq!(plan.etc, "/d/etc");
    assert!(plan.unit.contains("restorecon"));
    assert_eq!(plan.labels.len(), 5);
    assert_eq!(
        plan.labels[3],
        ("/d/etc/bootc-migrate".to_string(), "system_u:object_r:etc_t:s0".to_string())
    );
    assert!(plan.notice.contains("bootc-migrate-cross-family-firstboot.service"));
}

#[test]
fn finalization_stops_the_unit_or_runs_the_command() {
    assert!(finalize_staged_now(false, false, true).is_empty());
    let by_unit = finalize_staged_now(true, true, true);
    assert!(matches!(&by_unit[1], FinalizeAction::Run { argv, .. }
        if argv[..] == ["systemctl", "stop", "ostree-finalize-staged.service"]));
    let by_command = finalize_staged_now(true, false, false);
    assert!(matches!(&by_command[0], FinalizeAction::Warn(_)));
    assert!(matches!(&by_command[1], FinalizeAction::Either { otherwise, .. }
        if otherwise[..] == ["mount", "/boot"]));
    assert!(matches!(&by_command[3], FinalizeAction::Run { argv, .. }
        if argv[..] == ["ostree", "admin", "finalize-staged"]));
    assert_eq!(by_command[4], FinalizeAction::Verify);
    assert!(finalize_failure("exit status: 1").contains("(exit exit status: 1)"));
    assert!(finalize_verdict("  default 594b.0 (pending)\n").is_ok());
    assert!(finalize_verdict("  default 594b.0 (staged)\n").unwrap_err().contains("still staged"));
    assert_eq!(
        finalize_verdict("* default bef2.0\n").unwrap_err(),
        "no pending deployment after finalization:\n* default bef2.0"
    );
}

fn report() -> PreflightReport {
    PreflightReport {
        booted_backend: Some(Backend::Ostree),
        booted_image: None,
        pending_transaction: PendingTransactionStatus::Clean,
        is_uefi: true,
        nvram_writable: true,
        esp_path: Some("/boot/efi".into()),
        esp_free_space_bytes: 0,
        esp_fs_type: None,
        esp_detected: true,
        supports_reflink: true,
        is_btrfs: true,
        fs_type: None,
        ostree_repo_size_bytes: 0,
        composefs_free_bytes: 0,
        container_storage_free_bytes: 0,
        container_storage_path: "/var".into(),
        var_is_separate_mount: false,
        esp_ready_for_systemd_boot: true,
        systemd_boot_binaries_present: true,
        grub_tools_available: true,
        sysroot_was_ro: false,
    }
}

#[test]
fn each_route_asks_for_its_own_backend() {
    assert!(require_composefs_boot("root=UUID=1 composefs=abc", false).is_ok());
    assert!(require_composefs_boot("root=UUID=1", true).is_ok());
    assert!(require_composefs_boot("root=UUID=1", false).is_err());

    let mut r = report();
    assert!(require_ostree_boot(&r, false, false).is_ok());
    r.pending_transaction = PendingTransactionStatus::StagedDeployment;
    let refused = require_ostree_boot(&r, false, false).unwrap_err();
    assert!(refused.contains("staged deployment (next boot will apply)"), "{refused}");
    assert!(require_ostree_boot(&r, false, true).is_ok());
    r.booted_backend = Some(Backend::Composefs);
    assert!(require_ostree_boot(&r, false, true).is_err());
    assert!(require_ostree_boot(&r, true, false).is_ok());

    assert!(bootloader_note(&report()).is_some());
    r.nvram_writable = false;
    assert!(bootloader_note(&r).is_none());
}

fn place(moves: &[RebaseAction], a: &RebaseAction) -> usize {
    moves.iter().position(|m| m == a).unwrap()
}

#[test]
fn routes_keep_their_order() {
    let deploy = OstreeDeployConfig {
        target_image: "a:b",
        dry_run: false,
        force: false,
        skip_preflight: false,
        accept_cross_base: false,
        de_migrate: true,
    };
    let moves = deploy.run().unwrap();
    assert!(place(&moves, &RebaseAction::GateBase) < place(&moves, &RebaseAction::PreSwitch));
    assert!(place(&moves, &RebaseAction::PreSwitch) < place(&moves, &RebaseAction::Switch));
    assert!(place(&moves, &RebaseAction::Switch) < place(&moves, &RebaseAction::ApplyCrossBase));
    assert!(place(&moves, &RebaseAction::PostSwitch) < place(&moves, &RebaseAction::Finalize));
    let dry = OstreeDeployConfig { dry_run: true, ..deploy }.run().unwrap();
    assert!(!dry.contains(&RebaseAction::Switch));
    assert_eq!(
        dry.last(),
        Some(&RebaseAction::Say("[DRY RUN] Would run: bootc switch a:b".to_string()))
    );
    assert!(OstreeDeployConfig { target_image: "a\nb", ..deploy }.run().is_err());

    let swap = ImageSwapConfig {
        target_image: "a:b",
        dry_run: false,
        force: false,
        de_migrate: false,
        accept_cross_base: true,
    };
    let moves = swap.run().unwrap();
    assert!(moves.iter().any(|m| matches!(m, RebaseAction::Warn(_))));
    assert!(place(&moves, &RebaseAction::ScheduleRelabel) < place(&moves, &RebaseAction::Finalize));

    let core = CoreMigrationConfig {
        target_image: "a:b",
        bootloader: "auto",
        dry_run: true,
        skip_import: false,
        skip_preflight: false,
        force: false,
        de_migrate: false,
        accept_cross_base: false,
    };
    let moves = core.run().unwrap();
    assert!(moves.contains(&RebaseAction::Migrate { dry_run: true }));
    assert!(moves.contains(&RebaseAction::PreviewDesktop));
    assert!(!moves.contains(&RebaseAction::PostSwitch));
}

#[test]
fn another_family_must_be_accepted() {
    let core = CoreMigrationConfig {
        target_image: "a:b",
        bootloader: "auto",
        dry_run: false,
        skip_import: false,
        skip_preflight: false,
        force: true,
        de_migrate: false,
        accept_cross_base: false,
    };
    // On the conversion the acceptance takes a policy, which insisting does not.
    assert!(core.run().unwrap().contains(&RebaseAction::GateFamily { accepted: false }));
    let accepting = CoreMigrationConfig { force: false, accept_cross_base: true, ..core };
    assert!(accepting.run().unwrap().contains(&RebaseAction::GateFamily { accepted: true }));

    let swap = ImageSwapConfig {
        target_image: "a:b",
        dry_run: false,
        force: false,
        de_migrate: false,
        accept_cross_base: false,
    };
    assert!(swap.run().unwrap().contains(&RebaseAction::GateFamily { accepted: false }));
    let forced = ImageSwapConfig { force: true, ..swap };
    let moves = forced.run().unwrap();
    assert!(moves.contains(&RebaseAction::GateFamily { accepted: false }));
    assert!(!moves.iter().any(|m| matches!(m, RebaseAction::Warn(_))));
    let accepting = ImageSwapConfig { accept_cross_base: true, ..swap };
    let moves = accepting.run().unwrap();
    assert!(moves.contains(&RebaseAction::GateFamily { accepted: true }));
    assert!(moves.iter().any(|m| matches!(m, RebaseAction::Warn(note)
        if note.contains("is not applied on this route"))));
}

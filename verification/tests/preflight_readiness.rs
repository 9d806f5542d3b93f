//! Whether a system is ready for a migration.

use bootc_migrate_core::preflight::readiness::{
    container_storage_has_room, gate, readiness_issues, readiness_lines, report_lines,
    MigrationGate, MIN_CONTAINER_STORAGE_BYTES,
};
use bootc_migrate_core::preflight::system_info::PendingTransactionStatus;
use bootc_migrate_core::preflight::PreflightReport;
use bootc_migrate_core::rebase_plan::Backend;

/// A report with every gate green — the baseline each test perturbs.
fn healthy() -> PreflightReport {
    PreflightReport {
        booted_backend: Some(Backend::Ostree),
        booted_image: Some("ghcr.io/ublue-os/bluefin:gts".into()),
        pending_transaction: PendingTransactionStatus::Clean,
        is_uefi: true,
        nvram_writable: true,
        esp_path: Some("/boot/efi".into()),
        esp_free_space_bytes: 500 * 1024 * 1024,
        esp_fs_type: Some("vfat".into()),
        esp_detected: true,
        supports_reflink: true,
        is_btrfs: true,
        fs_type: Some("btrfs".into()),
        ostree_repo_size_bytes: 8_000_000_000,
        composefs_free_bytes: 33_000_000_000,
        container_storage_free_bytes: MIN_CONTAINER_STORAGE_BYTES,
        container_storage_path: "/var/lib/containers/storage".to_string(),
        var_is_separate_mount: false,
        esp_ready_for_systemd_boot: true,
        systemd_boot_binaries_present: true,
        grub_tools_available: true,
        sysroot_was_ro: false,
    }
}

#[test]
fn healthy_report_proceeds_with_no_issues() {
    let r = healthy();
    assert!(readiness_issues(&r).is_empty());
    assert_eq!(gate(&r, false, false), MigrationGate::Proceed);
}

/// A system that is not a bootc deployment at all: nothing to migrate.
#[test]
fn non_bootc_boot_is_refused_unless_forced() {
    let mut r = healthy();
    r.booted_backend = None;
    assert!(matches!(gate(&r, false, false), MigrationGate::Refuse(_)));
    // force overrides — the operator has taken responsibility.
    assert_eq!(gate(&r, true, false), MigrationGate::Proceed);
}

/// The behaviour this replaced: a composefs host was lumped in with a
/// non-bootc one and refused, which is what made "already migrated" look
/// like a hard blocker. It now routes to the image swap.
#[test]
fn composefs_host_routes_to_image_swap_instead_of_refusing() {
    let mut r = healthy();
    r.booted_backend = Some(Backend::Composefs);
    assert_eq!(gate(&r, false, false), MigrationGate::ImageSwap);
    // And it is not a readiness issue either — there is nothing wrong.
    assert!(
        !readiness_issues(&r)
            .iter()
            .any(|i| i.contains("bootc deployment")),
        "a composefs host is the finished state, not a warning: {:?}",
        readiness_issues(&r)
    );
}

/// The image swap does not touch the ostree repo, so neither the
/// pending-transaction gate nor the reflink gate applies to it. Both would
/// otherwise fire on a composefs host and block a swap for reasons that
/// cannot affect it.
#[test]
fn image_swap_is_not_blocked_by_ostree_only_gates() {
    let mut r = healthy();
    r.booted_backend = Some(Backend::Composefs);
    r.pending_transaction = PendingTransactionStatus::StagedDeployment;
    r.supports_reflink = false;
    assert_eq!(gate(&r, false, false), MigrationGate::ImageSwap);
}

#[test]
fn pending_transaction_is_refused_unless_waived() {
    for pending in [
        PendingTransactionStatus::StagedDeployment,
        PendingTransactionStatus::PendingDeployment,
        PendingTransactionStatus::StaleTransactionFiles,
    ] {
        let mut r = healthy();
        r.pending_transaction = pending.clone();
        assert!(
            matches!(gate(&r, false, false), MigrationGate::Refuse(_)),
            "{pending:?} must refuse"
        );
        // Either waiver flag lets it pass.
        assert_eq!(gate(&r, true, false), MigrationGate::Proceed);
        assert_eq!(gate(&r, false, true), MigrationGate::Proceed);
    }
}

#[test]
fn refusal_message_names_the_pending_state_and_a_fix() {
    let mut r = healthy();
    r.pending_transaction = PendingTransactionStatus::StagedDeployment;
    let MigrationGate::Refuse(msg) = gate(&r, false, false) else {
        panic!("expected refusal");
    };
    assert!(msg.contains("Pending OSTree transaction"));
    assert!(msg.contains("undeploy"), "must tell the user how to fix it");
}

#[test]
fn no_reflink_asks_for_confirmation_not_refusal() {
    let mut r = healthy();
    r.supports_reflink = false;
    assert_eq!(gate(&r, false, false), MigrationGate::ConfirmFullCopy);
    assert_eq!(gate(&r, true, false), MigrationGate::Proceed);
    // skip_preflight is NOT a full-copy consent — still asks.
    assert_eq!(gate(&r, false, true), MigrationGate::ConfirmFullCopy);
}

#[test]
fn gate_order_refusal_beats_full_copy_confirmation() {
    // A non-bootc system without reflink must refuse, not ask about disk.
    let mut r = healthy();
    r.booted_backend = None;
    r.supports_reflink = false;
    assert!(matches!(gate(&r, false, false), MigrationGate::Refuse(_)));
}

#[test]
fn issues_fire_per_condition() {
    let mut r = healthy();
    r.nvram_writable = false;
    r.supports_reflink = false;
    r.systemd_boot_binaries_present = false;
    let issues = readiness_issues(&r);
    assert!(issues.iter().any(|i| i.contains("NVRAM")));
    assert!(issues.iter().any(|i| i.contains("reflink")));
    assert!(issues.iter().any(|i| i.contains("systemd-boot binaries")));
    assert_eq!(issues.len(), 3, "no unexpected extra issues: {issues:?}");
}

#[test]
fn tight_disk_without_reflink_warns_about_space() {
    let mut r = healthy();
    r.supports_reflink = false;
    r.composefs_free_bytes = r.ostree_repo_size_bytes; // < 1.5×
    assert!(
        readiness_issues(&r)
            .iter()
            .any(|i| i.contains("Insufficient free space"))
    );
}

/// bootc-migrate#185: the Phase-2 pull lands in podman's storage under
/// /var, not on the composefs store's filesystem. A system with plenty of
/// room for the store and none for the pull must still be warned.
#[test]
fn low_container_storage_is_reported_even_when_composefs_space_is_fine() {
    let mut r = healthy();
    // Composefs side deliberately generous — this is the exact shape the
    // LVM E2E cell had: roomy root, tiny dedicated /var.
    r.composefs_free_bytes = 200 * 1024 * 1024 * 1024;
    r.ostree_repo_size_bytes = 1024 * 1024 * 1024;
    r.container_storage_free_bytes = 4 * 1024 * 1024 * 1024;
    r.container_storage_path = "/var".to_string();
    r.var_is_separate_mount = true;

    let issues = readiness_issues(&r);
    let hit = issues
        .iter()
        .find(|i| i.contains("Low free space"))
        .expect("expected a container-storage warning");
    // The message has to name the mount to enlarge; "insufficient space"
    // pointing at repo size is what made this failure hard to read.
    assert!(hit.contains("/var"), "message must name the mount: {hit}");
    assert!(
        hit.contains("4.0 GB"),
        "message must state what was found: {hit}"
    );
    assert!(
        hit.contains("separate volume"),
        "a dedicated /var is the case where free space on / misleads: {hit}"
    );
    // The repo-size check must NOT fire here — they are separate concerns.
    assert!(
        !issues.iter().any(|i| i.contains("1.5×")),
        "composefs space was ample; only the /var warning belongs: {issues:?}"
    );
}

#[test]
fn ample_container_storage_is_silent() {
    let mut r = healthy();
    r.container_storage_free_bytes = 50 * 1024 * 1024 * 1024;
    assert!(readiness_issues(&r).is_empty());
}

#[test]
fn container_storage_threshold_is_inclusive_at_the_boundary() {
    assert!(container_storage_has_room(MIN_CONTAINER_STORAGE_BYTES));
    assert!(!container_storage_has_room(MIN_CONTAINER_STORAGE_BYTES - 1));
    assert!(!container_storage_has_room(0));
}

/// Without a separate /var the message must not claim there is one.
#[test]
fn single_filesystem_omits_the_separate_volume_note() {
    let mut r = healthy();
    r.container_storage_free_bytes = 1024;
    r.container_storage_path = "/var/lib/containers/storage".to_string();
    r.var_is_separate_mount = false;
    let issues = readiness_issues(&r);
    let hit = issues
        .iter()
        .find(|i| i.contains("Low free space"))
        .unwrap();
    assert!(!hit.contains("separate volume"), "{hit}");
}

/// Sizes are given with one digit behind the point, rounded as the formatter of
/// the standard library rounds.
#[test]
fn sizes_are_rounded_like_floats() {
    for free in [
        0_u64,
        1,
        1024,
        53_687_091,
        53_687_092,
        161_061_273,
        161_061_274,
        1_073_741_824,
        1_610_612_736,
        4_294_967_296,
        5_000_000_000,
        10_000_000_000,
        10_737_418_239,
    ] {
        let mut r = healthy();
        r.container_storage_free_bytes = free;
        let want = format!("{:.1} GB", free as f64 / (1024.0 * 1024.0 * 1024.0));
        let issues = readiness_issues(&r);
        let hit = issues.iter().find(|i| i.contains("Low free space")).unwrap();
        assert!(hit.contains(&want), "{free}: {hit} lacks {want}");
    }
}

#[test]
fn the_report_shows_what_was_found() {
    let r = healthy();
    let lines = report_lines(&r, "500.00", "7.45", "30.73").join("\n");
    for part in ["500.00", "7.45", "30.73", "/boot/efi"] {
        assert!(lines.contains(part), "{part} in {lines}");
    }
    let ready = readiness_lines(&r).join("\n");
    assert!(ready.contains("Bootloader"), "{ready}");
}

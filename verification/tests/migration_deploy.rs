//! Where a staged deployment lives, and how it is staged.

use bootc_migrate_core::migration::deploy::{
    essential, etc_merge_lines, network_compat_lines, phase4_stage_deploy, refresh_staged_compat,
    DeployAction, GbmRefresh,
};
use bootc_migrate_core::migration::deploy_layout::{
    migrate_var_state, write_runtime_composefs_loopback_mount, DeploymentLayout, VarMove,
    TARGET_VAR, VAR_COMPLETE,
};
use bootc_migrate_core::migration::target_compat::NetworkManagerBackendCompat;
use bootc_migrate_core::migration::var_layout::VarMount;
use bootc_migrate_core::migration::{completion_lines, run_migration, MigrationAction};
use bootc_migrate_core::preflight::system_info::PendingTransactionStatus;
use bootc_migrate_core::preflight::PreflightReport;
use bootc_migrate_core::steps::Step;
use bootc_migrate_core::verity::VerityDigest;

fn written<'a>(steps: &'a [Step], wanted: &str) -> &'a str {
    steps
        .iter()
        .find_map(|s| match s {
            Step::Write { path, contents, .. } if path == wanted => Some(contents.as_str()),
            _ => None,
        })
        .unwrap()
}

fn linked(steps: &[Step], wanted: &str) -> bool {
    steps.iter().any(|s| matches!(s, Step::Link { path, .. } if path == wanted))
}

/// The composefs store must be mounted rw: day-2 updates write into it,
/// and a `ro` store makes `bootc upgrade` fail with "Repository is not
/// writable".
#[test]
fn runtime_composefs_loopback_mount_is_writable() {
    let steps = write_runtime_composefs_loopback_mount("/d/etc");

    let body = written(&steps, "/d/etc/systemd/system/sysroot-composefs.mount");
    let opts = body
        .lines()
        .find_map(|l| l.trim().strip_prefix("Options="))
        .expect("mount unit has no Options= line");
    assert!(
        opts.split(',').any(|o| o == "rw"),
        "runtime composefs loopback mount must be rw, got Options={opts}"
    );
    assert!(body.contains("Where=/sysroot/composefs"));
    assert!(body.contains("What=/sysroot/composefs-loopback.ext4"));

    // Writing the unit is not enough; it has to be enabled.
    assert!(
        linked(&steps, "/d/etc/systemd/system/local-fs.target.wants/sysroot-composefs.mount"),
        "mount unit was written but not enabled"
    );
}

/// bootc reads `<bare-hex>.origin`; a `sha512:`-prefixed name makes
/// `bootc status` fail with "Opening origin file: No such file or
/// directory" and breaks post-reboot validation.
#[test]
fn descriptor_filenames_use_bare_hex_verity() {
    let verity = VerityDigest::from_hex("abc123");
    let layout = DeploymentLayout::for_verity(&verity, false, false);

    assert_eq!(
        layout.origin_path.rsplit('/').next().unwrap(),
        "abc123.origin",
        "origin filename must be bare hex, not prefixed"
    );
    assert_eq!(
        layout.imginfo_path.rsplit('/').next().unwrap(),
        "abc123.imginfo",
        "imginfo filename must be bare hex, not prefixed"
    );
    assert!(layout.deploy_dir.ends_with("abc123"));
    assert!(layout.etc_dir.ends_with("abc123/etc"));
}

#[test]
fn a_deployment_counts_as_staged_with_its_origin() {
    let verity = VerityDigest::from_hex("abc123");
    assert!(DeploymentLayout::for_verity(&verity, true, true).already_staged);
    assert!(!DeploymentLayout::for_verity(&verity, true, false).already_staged);
    let layout = DeploymentLayout::for_verity(&verity, false, false);
    assert_eq!(layout.create_dirs().len(), 2);
    assert_eq!(layout.stage_var_symlink(false).len(), 1);
    assert_eq!(layout.stage_var_symlink(true).len(), 2);
    assert!(layout.install_runtime_composefs_mount(false).is_empty());
    assert!(!layout.install_runtime_composefs_mount(true).is_empty());
}

#[test]
fn a_volume_for_var_is_left_in_place() {
    let var = VarMount { uuid: "u".into(), fstype: "xfs".into(), options: "defaults".into() };
    assert_eq!(
        migrate_var_state(Some(&var), false),
        vec![VarMove::Do(Step::Say(
            "[phase4] preserving /var in place (xfs, UUID=u, options=defaults); Phase 5 will \
             mount it at the composefs stateroot"
                .to_string()
        ))]
    );
    assert_eq!(migrate_var_state(Some(&var), true), migrate_var_state(Some(&var), false));
    assert_eq!(
        migrate_var_state(None, true),
        vec![VarMove::Do(Step::Say(
            "/var migration already completed at /sysroot/state/os/default/var. Skipping."
                .to_string()
        ))]
    );
}

#[test]
fn the_marker_is_written_behind_the_copy() {
    let moves = migrate_var_state(None, false);
    assert_eq!(moves.len(), 5);
    assert!(matches!(&moves[0], VarMove::Do(Step::MakeDir { path, .. }) if path == TARGET_VAR));
    assert!(matches!(&moves[2], VarMove::CopyTree { from, to, context }
        if from == "/var" && to == TARGET_VAR
            && context == "failed to migrate /var data to ComposeFS state"));
    assert!(matches!(&moves[3], VarMove::Do(Step::Write { path, contents, context })
        if path == VAR_COMPLETE
            && contents == "The live /var tree was copied by bootc-migrate-composefs.\n"
            && context == "failed to write /var migration completion marker"));
    assert!(matches!(&moves[4], VarMove::Do(Step::Say(_))));
}

#[test]
fn staging_follows_the_state_of_the_deployment() {
    let verity = VerityDigest::from_hex("abc123");
    let fresh = DeploymentLayout::for_verity(&verity, false, false);
    let staged = DeploymentLayout::for_verity(&verity, true, true);
    let dry = phase4_stage_deploy(&fresh, true, false, None);
    assert_eq!(
        dry[1],
        DeployAction::Say(
            "[DRY RUN] Would stage deployment at: /sysroot/state/deploy/abc123".to_string()
        )
    );
    assert_eq!(dry.len(), 2);
    let skipped = phase4_stage_deploy(&staged, false, false, None);
    assert!(skipped.contains(&DeployAction::RefreshNetwork));
    assert!(!skipped.contains(&DeployAction::MergeEtc));
    let forced = phase4_stage_deploy(&staged, false, true, Some(3));
    assert!(forced.contains(&DeployAction::Say(
        "[phase4] applying 3 Config Drift Review decision(s) to the /etc merge".to_string()
    )));
    let merge = forced.iter().position(|a| *a == DeployAction::MergeEtc).unwrap();
    let origin = forced.iter().position(|a| *a == DeployAction::WriteOrigin).unwrap();
    assert!(merge < origin);
    assert!(essential(&DeployAction::WriteOrigin));
    assert!(!essential(&DeployAction::WriteImginfo));
}

#[test]
fn what_was_done_is_told() {
    assert!(etc_merge_lines(false, 0).is_empty());
    assert_eq!(
        etc_merge_lines(true, 2)[1],
        "[phase4] removed 2 host root or /var mount(s) from the target /etc/fstab"
    );
    let compat =
        NetworkManagerBackendCompat { removed_iwd_settings: 2, removed_wpa_supplicant_mask: true };
    assert_eq!(network_compat_lines(compat, false).len(), 2);
    assert!(network_compat_lines(compat, true)[0].contains("from the staged target"));
    assert!(network_compat_lines(NetworkManagerBackendCompat::default(), true).is_empty());
    assert!(refresh_staged_compat(&GbmRefresh::Unchanged).is_none());
    assert!(refresh_staged_compat(&GbmRefresh::Failed("why".into())).unwrap().ends_with(": why"));
}

#[test]
fn the_phases_follow_each_other() {
    let moves = run_migration(false, false);
    let place = |a: MigrationAction| moves.iter().position(|m| *m == a).unwrap();
    assert_eq!(place(MigrationAction::Acquire), 0);
    assert!(place(MigrationAction::ImportObjects) < place(MigrationAction::PullImage));
    assert!(place(MigrationAction::SealImage) < place(MigrationAction::StageDeployment));
    assert!(place(MigrationAction::StageDeployment) < place(MigrationAction::SetUpBootloader));
    assert_eq!(moves.last(), Some(&MigrationAction::LeaveReminder));
    let dry = run_migration(true, true);
    assert!(!dry.contains(&MigrationAction::PrepareStorage));
    assert!(!dry.contains(&MigrationAction::CreateStore));
    assert!(!dry.contains(&MigrationAction::ImportObjects));
    assert!(!dry.contains(&MigrationAction::CheckFreeSpace));
}

#[test]
fn the_end_names_the_bootloader() {
    let mut report = PreflightReport {
        booted_backend: None,
        booted_image: None,
        pending_transaction: PendingTransactionStatus::Clean,
        is_uefi: true,
        nvram_writable: true,
        esp_path: None,
        esp_free_space_bytes: 0,
        esp_fs_type: None,
        esp_detected: false,
        supports_reflink: false,
        is_btrfs: false,
        fs_type: None,
        ostree_repo_size_bytes: 0,
        composefs_free_bytes: 0,
        container_storage_free_bytes: 0,
        container_storage_path: String::new(),
        var_is_separate_mount: false,
        esp_ready_for_systemd_boot: false,
        systemd_boot_binaries_present: false,
        grub_tools_available: false,
        sysroot_was_ro: false,
    };
    let verity = VerityDigest::from_hex("abc123");
    let lines = completion_lines(&report, &verity, "auto");
    assert_eq!(lines[1], "Staged ComposeFS deployment: abc123");
    assert_eq!(lines[2], "Primary bootloader: systemd-boot");
    assert_eq!(
        completion_lines(&report, &verity, "grub2")[2],
        "Primary bootloader: GRUB2 (BLS Type 1)"
    );
    report.nvram_writable = false;
    assert_eq!(
        completion_lines(&report, &verity, "auto")[2],
        "Primary bootloader: GRUB2 (BLS Type 1)"
    );
}

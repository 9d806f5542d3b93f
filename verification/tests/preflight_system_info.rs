//! How a system stands before a migration.

use bootc_migrate_core::preflight::system_info::{
    check_pending_ostree_transaction, count_composefs_files, esp_partitions, free_bytes,
    locate_mounted_esp, parse_ostree_status_for_pending, parse_var_is_separate_mount,
    select_container_storage_path, size_from_du, sysroot_is_read_only, BootedStatus,
    PendingTransactionStatus, SystemFacts, SystemInfo,
};
use bootc_migrate_core::rebase_plan::Backend;

/// The pull follows podman's storage path, so the most specific existing
/// candidate wins — measuring "/" when /var is a small separate volume is
/// exactly the mistake bootc-migrate#185 describes.
#[test]
fn container_storage_path_prefers_the_most_specific_existing_candidate() {
    assert_eq!(
        select_container_storage_path(|_| true),
        "/var/lib/containers/storage"
    );
    assert_eq!(
        select_container_storage_path(|p| p != "/var/lib/containers/storage"),
        "/var"
    );
    assert_eq!(select_container_storage_path(|p| p == "/"), "/");
    // Nothing exists (shouldn't happen on a real host): fall back, no panic.
    assert_eq!(select_container_storage_path(|_| false), "/");
}

#[test]
fn separate_var_mount_is_detected_from_proc_mounts() {
    let with_var = "/dev/mapper/vg-root / xfs rw,relatime 0 0\n\
                    /dev/mapper/vg-var /var xfs rw,relatime 0 0\n\
                    proc /proc proc rw 0 0\n";
    assert!(parse_var_is_separate_mount(with_var));

    let without_var = "/dev/mapper/vg-root / xfs rw,relatime 0 0\n\
                       proc /proc proc rw 0 0\n";
    assert!(!parse_var_is_separate_mount(without_var));

    // A nested path under /var is not itself a /var mount.
    let nested_only = "/dev/sda1 /var/lib/containers xfs rw 0 0\n";
    assert!(!parse_var_is_separate_mount(nested_only));

    assert!(!parse_var_is_separate_mount(""));
}

#[test]
fn ostree_status_pending_detection_table() {
    let cases: &[(&str, PendingTransactionStatus, &str)] = &[
        ("", PendingTransactionStatus::Clean, "empty output"),
        (
            "* bluefin abc123.0\n    Version: 41.20250101\n",
            PendingTransactionStatus::Clean,
            "a booted deployment alone is clean",
        ),
        (
            "  bluefin abc123.0 (staged)\n",
            PendingTransactionStatus::StagedDeployment,
            "staged marker",
        ),
        (
            "  bluefin abc123.0 (pending)\n",
            PendingTransactionStatus::PendingDeployment,
            "pending marker",
        ),
        (
            "* bluefin abc.0\n  bluefin def.1 (staged)\n",
            PendingTransactionStatus::StagedDeployment,
            "marker found on a later line",
        ),
        (
            "      bluefin abc123.0 (staged)      \n",
            PendingTransactionStatus::StagedDeployment,
            "leading/trailing whitespace is trimmed",
        ),
        (
            "* bluefin abc123.0\n    Version: 41 (staged elsewhere)\n",
            PendingTransactionStatus::Clean,
            "substring must be the literal marker, not merely similar",
        ),
    ];
    for (input, want, why) in cases {
        let got = parse_ostree_status_for_pending(input);
        assert_eq!(got, *want, "{why}: got {got:?} for {input:?}");
    }
}

/// Precedence is by LINE ORDER, not by severity — the scan returns on the
/// first marker it meets. Pinned because it is a real behavioral choice
/// that the docstring does not state, and either ordering would look
/// plausible to someone editing this later.
#[test]
fn ostree_status_precedence_is_first_line_wins() {
    let pending_first = "  a (pending)\n  b (staged)\n";
    assert!(matches!(
        parse_ostree_status_for_pending(pending_first),
        PendingTransactionStatus::PendingDeployment
    ));

    let staged_first = "  a (staged)\n  b (pending)\n";
    assert!(matches!(
        parse_ostree_status_for_pending(staged_first),
        PendingTransactionStatus::StagedDeployment
    ));
}

/// These strings reach users in the preflight report and in the refusal
/// that blocks a migration, so they are API.
#[test]
fn pending_status_display_strings() {
    assert_eq!(
        PendingTransactionStatus::Clean.describe(),
        "no pending transaction"
    );
    assert_eq!(
        PendingTransactionStatus::StagedDeployment.describe(),
        "staged deployment (next boot will apply)"
    );
    assert_eq!(
        PendingTransactionStatus::PendingDeployment.describe(),
        "pending deployment (update in progress)"
    );
    assert_eq!(
        PendingTransactionStatus::StaleTransactionFiles.describe(),
        "stale transaction temp files in OSTree repo"
    );
}

/// The backend of a deployment, by the keys that it is reported with.
fn backend_of(booted: Option<(bool, bool)>) -> Option<Backend> {
    booted.and_then(|(ostree, composefs)| BootedStatus { ostree, composefs }.backend())
}

#[test]
fn ostree_deployment_reports_ostree() {
    assert_eq!(backend_of(Some((true, false))), Some(Backend::Ostree));
}

#[test]
fn composefs_deployment_reports_composefs_not_none() {
    assert_eq!(backend_of(Some((false, true))), Some(Backend::Composefs));
}

/// Such a host is not to be taken for a composefs host.
#[test]
fn deployment_with_neither_key_is_not_a_bootc_host() {
    assert_eq!(backend_of(Some((false, false))), None);
}

#[test]
fn nothing_booted_is_not_a_bootc_host() {
    assert_eq!(backend_of(None), None);
}

/// Both keys present: ostree wins, because a deployment that still has an
/// ostree checksum has an ostree repo to convert.
#[test]
fn ostree_wins_when_both_keys_are_present() {
    assert_eq!(backend_of(Some((true, true))), Some(Backend::Ostree));
}

#[test]
fn composefs_object_count_walks_the_two_level_layout() {
    let dirs = [vec![true; 3], vec![true; 2], vec![true; 1]];
    assert_eq!(count_composefs_files(&dirs), 6);
}

#[test]
fn composefs_object_count_ignores_loose_files_and_deeper_nesting() {
    // One directory with a file and a directory in it.
    assert_eq!(count_composefs_files(&[vec![true, false]]), 1);
}

#[test]
fn composefs_object_count_on_missing_root_is_zero_not_a_panic() {
    assert_eq!(count_composefs_files(&[]), 0);
}

#[test]
fn free_space_counts_fragments_or_blocks() {
    assert_eq!(free_bytes(4096, 512, 10), 40960);
    assert_eq!(free_bytes(0, 512, 10), 5120);
}

#[test]
fn a_staged_marker_outweighs_the_status() {
    let tmp = |n: &str, file: bool| (n.to_string(), file);
    assert_eq!(
        check_pending_ostree_transaction(true, None, &[]),
        PendingTransactionStatus::StagedDeployment
    );
    assert_eq!(
        check_pending_ostree_transaction(false, Some("  b (pending)\n"), &[]),
        PendingTransactionStatus::PendingDeployment
    );
    assert_eq!(
        check_pending_ostree_transaction(false, None, &[tmp("cache", true)]),
        PendingTransactionStatus::Clean
    );
    assert_eq!(
        check_pending_ostree_transaction(false, None, &[tmp("staging-1", true)]),
        PendingTransactionStatus::StaleTransactionFiles
    );
}

#[test]
fn the_mounted_esp_is_the_one_that_exists() {
    let mounts = "/dev/sda1 /boot/efi vfat rw 0 0\n/dev/sda2 / ext4 ro 0 0\n";
    assert_eq!(
        locate_mounted_esp(mounts, &["/boot/efi".to_string()]),
        Some(("/boot/efi".to_string(), "vfat".to_string()))
    );
    assert_eq!(locate_mounted_esp("", &["/boot/efi".to_string()]), None);
    assert!(!sysroot_is_read_only(mounts));
    assert!(sysroot_is_read_only("/dev/sda2 /sysroot ext4 ro,relatime 0 0\n"));
    assert_eq!(size_from_du("123\t/sysroot/ostree/repo\n"), 123);
    assert_eq!(size_from_du("nothing"), 0);
    assert_eq!(
        esp_partitions("sda1 C12A7328-F81F-11D2-BA4B-00A0C93EC93B
sda2 0fc63daf
"),
        vec!["/dev/sda1"]
    );
}

#[test]
fn the_facts_make_the_report() {
    let facts = SystemFacts {
        booted: Some(BootedStatus { ostree: true, composefs: false }),
        efi_dir: true,
        efivars_dir: true,
        proc_mounts: Some(
            "/dev/sda3 /sysroot btrfs ro 0 0\nefivarfs /sys/firmware/efi/efivars efivarfs rw 0 0\n/dev/sda1 /boot/efi vfat rw 0 0\n".to_string(),
        ),
        existing_esp_paths: vec!["/boot/efi".to_string()],
        mounted_esp_free: 500,
        trial_esp_free: None,
        reflink: true,
        grub_reboot: true,
        grub_editenv: true,
        grub_set_default: true,
        repo_du: Some("42\t/x\n".to_string()),
        staged_marker: false,
        ostree_status: Some("* a b.0\n".to_string()),
        repo_tmp: vec![],
        composefs_free: 7,
        container_storage_path: "/var".to_string(),
        container_storage_free: 8,
        systemd_boot_dir: true,
    };
    let info = SystemInfo::gather(&facts);
    assert_eq!(info.booted_backend, Some(Backend::Ostree));
    assert_eq!(info.pending_transaction, PendingTransactionStatus::Clean);
    assert!(info.is_uefi);
    assert_eq!(info.esp_path.as_deref(), Some("/boot/efi"));
    assert_eq!(info.esp_free_space_bytes, 500);
    assert_eq!(info.ostree_repo_size_bytes, 42);
    assert_eq!(info.composefs_free_bytes, 7);
    assert_eq!(info.container_storage_free_bytes, 8);
    assert!(info.sysroot_was_ro);
}

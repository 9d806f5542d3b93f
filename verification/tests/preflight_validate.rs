//! What a report says of a system.

use bootc_migrate_core::preflight::system_info::{PendingTransactionStatus, SystemInfo};
use bootc_migrate_core::preflight::validate::{
    booted_image, cross_base, ostree_to_composefs, with_booted_image, CrossBaseReadiness,
};
use bootc_migrate_core::rebase_plan::Backend;
use bootc_migrate_core::scan::BaseInfo;

fn sys_with_esp(detected: bool, free: u64) -> SystemInfo {
    SystemInfo {
        booted_backend: Some(Backend::Ostree),
        pending_transaction: PendingTransactionStatus::Clean,
        is_uefi: true,
        nvram_writable: true,
        esp_path: if detected { Some("/boot/efi".to_string()) } else { None },
        esp_free_space_bytes: free,
        esp_fs_type: Some("vfat".into()),
        esp_detected: detected,
        supports_reflink: true,
        is_btrfs: true,
        fs_type: Some("btrfs".into()),
        ostree_repo_size_bytes: 0,
        composefs_free_bytes: 0,
        container_storage_free_bytes: 0,
        container_storage_path: "/var".to_string(),
        var_is_separate_mount: false,
        systemd_boot_binaries_present: true,
        grub_tools_available: true,
        sysroot_was_ro: false,
    }
}

#[test]
fn esp_readiness_threshold_is_150_mb() {
    let at = 150 * 1024 * 1024;
    assert!(ostree_to_composefs(sys_with_esp(true, at)).esp_ready_for_systemd_boot);
    assert!(!ostree_to_composefs(sys_with_esp(true, at - 1)).esp_ready_for_systemd_boot);
}

#[test]
fn undetected_esp_is_never_ready() {
    let r = ostree_to_composefs(sys_with_esp(false, u64::MAX));
    assert!(!r.esp_ready_for_systemd_boot);
}

// --- cross_base validator tests ---

#[test]
fn cross_base_same_family_is_clean() {
    let host = BaseInfo {
        id: "fedora".into(),
        id_like: None,
        version_id: Some("44".into()),
    };
    let target = BaseInfo {
        id: "fedora".into(),
        id_like: None,
        version_id: Some("44".into()),
    };
    let readiness = cross_base(&host, &target);
    assert!(!readiness.is_cross_base);
    assert!(readiness.is_clean());
    assert!(readiness.warnings.is_empty());
}

#[test]
fn cross_base_different_family_produces_warnings() {
    let host = BaseInfo {
        id: "fedora".into(),
        id_like: None,
        version_id: Some("44".into()),
    };
    let target = BaseInfo {
        id: "centos".into(),
        id_like: Some("rhel".into()),
        version_id: Some("10".into()),
    };
    let readiness = cross_base(&host, &target);
    assert!(readiness.is_cross_base);
    assert!(!readiness.is_clean());
    assert!(!readiness.warnings.is_empty());
    assert!(readiness.warnings.iter().any(|w| w.contains("fedora")));
    assert!(readiness.warnings.iter().any(|w| w.contains("centos")));
}

#[test]
fn cross_base_same_family_via_id_like_is_clean() {
    // Bluefin (fedora-derived) → Dakota (fedora-derived) is same-base.
    let host = BaseInfo {
        id: "bluefin".into(),
        id_like: Some("fedora".into()),
        version_id: None,
    };
    let target = BaseInfo {
        id: "dakota".into(),
        id_like: Some("fedora".into()),
        version_id: None,
    };
    let readiness = cross_base(&host, &target);
    assert!(!readiness.is_cross_base);
    assert!(readiness.is_clean());
    assert!(readiness.warnings.is_empty());
}

#[test]
fn cross_base_readiness_struct_is_debug_and_clone() {
    let readiness = CrossBaseReadiness {
        is_cross_base: false,
        warnings: vec![],
    };
    // Compile-time check that Debug + Clone are implemented.
    let _ = format!("{readiness:?}");
    let _ = readiness.clone();
}

#[test]
fn the_booted_image_is_read_from_the_status() {
    let status = br#"{"status":{"booted":{"image":{"image":
        {"image":"ghcr.io/ublue-os/bluefin:gts","transport":"registry"}}}}}"#;
    assert_eq!(booted_image(status).as_deref(), Some("ghcr.io/ublue-os/bluefin:gts"));
    assert_eq!(booted_image(br#"{"status":{"booted":null}}"#), None);
    assert_eq!(booted_image(br#"{"status":{"booted":{"image":null}}}"#), None);
    assert_eq!(booted_image(b"not json"), None);

    let report = ostree_to_composefs(sys_with_esp(true, 1));
    assert_eq!(report.booted_image, None);
    let filled = with_booted_image(report, booted_image(status));
    assert_eq!(filled.booted_image.as_deref(), Some("ghcr.io/ublue-os/bluefin:gts"));
    assert_eq!(filled.esp_free_space_bytes, 1);
}

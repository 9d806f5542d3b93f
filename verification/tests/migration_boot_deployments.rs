//! The deployments that a bootloader can boot.

use bootc_migrate_core::migration::boot_deployments::{
    enumerate_deployments_from, find_kver_in_modules, DeployEntry,
};

fn entry(name: &str, has_origin: bool, kver: &[&str], kernels: &[&str]) -> DeployEntry {
    DeployEntry {
        name: name.to_string(),
        is_dir: true,
        has_origin,
        modules: kver.iter().map(|k| (k.to_string(), true)).collect(),
        kernels: kernels.iter().map(|k| k.to_string()).collect(),
        initrds: vec![],
    }
}

#[test]
fn discovers_only_bootable_ostree_and_composefs_deployments() {
    let ostree = [
        entry("ostree-checksum.0", false, &["6.15.0"], &["6.15.0"]),
        entry("ignored-no-suffix", false, &["6.15.0"], &[]),
    ];
    let composefs = [
        entry("0123456789abcdef", true, &["6.16.0"], &[]),
        entry("not-a-digest", false, &[], &[]),
    ];

    let deployments = enumerate_deployments_from("/ostree", &ostree, "/composefs", &composefs);

    assert_eq!(deployments.len(), 2);
    assert_eq!(deployments[0].checksum, "ostree-checksum");
    assert_eq!(deployments[0].kver, "6.15.0");
    assert!(!deployments[0].is_composefs);
    assert_eq!(deployments[1].checksum, "0123456789abcdef");
    assert_eq!(deployments[1].kver, "6.16.0");
    assert!(deployments[1].is_composefs);
}

#[test]
fn the_kernel_is_a_directory_of_modules() {
    assert_eq!(
        find_kver_in_modules(&[("file".to_string(), false), ("6.1".to_string(), true)]).as_deref(),
        Some("6.1")
    );
    assert_eq!(find_kver_in_modules(&[]), None);
}

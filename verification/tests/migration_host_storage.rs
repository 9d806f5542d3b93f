//! Room for the store.

use bootc_migrate_core::migration::host_storage::{
    check_free_space, loopback_size_gb, needs_loopback, prepare_composefs_storage,
    required_free_bytes, SpaceNeed, StoragePlan,
};

#[test]
fn only_xfs_needs_the_loopback_store() {
    assert!(needs_loopback(Some("xfs")));
    assert!(!needs_loopback(Some("btrfs")));
    assert!(!needs_loopback(Some("ext4")));
    // Unknown is treated as verity-capable on purpose: the pull fails
    // loudly rather than silently building a loopback nobody asked for.
    assert!(!needs_loopback(None));
    assert!(!needs_loopback(Some("unknown")));
}

/// #42 sized this wrong three times. The property that matters is that
/// the result leaves room for the Phase-2 pull of the TARGET image, which
/// the source repo size does not measure at all.
#[test]
fn loopback_sizing_table() {
    const GB: u64 = 1_000_000_000;

    // Tiny source, plenty of room: still gets the 25 GB headroom floor,
    // not something proportional to a small repo. This is the
    // --skip-import / small-source-to-large-target case that ENOSPC'd.
    assert_eq!(loopback_size_gb(GB, 500 * GB), 30);

    // Large source: scales with it (20 * 1.5 + 25 = 55).
    assert_eq!(loopback_size_gb(20 * GB, 500 * GB), 55);

    // Constrained filesystem: clamped to 90% of what is actually free,
    // never to a fixed ceiling.
    assert_eq!(loopback_size_gb(20 * GB, 50 * GB), 45);

    // Never below 30 GB even on a nearly full filesystem — a smaller
    // store cannot hold any realistic target image, so failing at mkfs
    // beats failing halfway through the pull.
    assert_eq!(loopback_size_gb(GB, 5 * GB), 30);
    assert_eq!(loopback_size_gb(0, 0), 30);
}

#[test]
fn free_space_requirement_reflects_reflink_availability() {
    const GB: u64 = 1_000_000_000;
    // Reflink clones are CoW: the store barely grows.
    assert_eq!(required_free_bytes(100 * GB, true), 110 * GB);
    // Without it every object is duplicated.
    assert_eq!(required_free_bytes(100 * GB, false), 150 * GB);
    assert!(
        required_free_bytes(100 * GB, false) > required_free_bytes(100 * GB, true),
        "no-reflink must always need more room"
    );
    assert_eq!(required_free_bytes(0, false), 0);
}

/// The sizes are those that floating point gives.
#[test]
fn sizes_agree_with_floats() {
    for repo in [0_u64, 1, 7, 10, 11, 999_999_999, 1_000_000_000, 12_345_678_901, 40_000_000_000] {
        assert_eq!(required_free_bytes(repo, true), (repo as f64 * 1.1) as u64, "{repo}");
        assert_eq!(required_free_bytes(repo, false), (repo as f64 * 1.5) as u64, "{repo}");
    }
}

#[test]
fn space_that_is_short_is_refused() {
    assert_eq!(check_free_space(100, 200, false), Ok(SpaceNeed { needed: 150, free: 200 }));
    assert_eq!(check_free_space(100, 149, false), Err(SpaceNeed { needed: 150, free: 149 }));
}

#[test]
fn the_loopback_is_made_once() {
    assert_eq!(prepare_composefs_storage(Some("btrfs"), false, None, 0, 0), StoragePlan::NotNeeded);
    assert!(matches!(
        prepare_composefs_storage(Some("xfs"), false, None, 0, 0),
        StoragePlan::Create(_)
    ));
}

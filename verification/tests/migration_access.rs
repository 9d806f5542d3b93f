//! What a migration holds, and how it comes by the target's tree.

use bootc_migrate_core::migration::image_access::{
    inspect_command, inspect_image, mount_command, mount_image, mount_image_for, open_target,
    podman_notice, CommandOutcome, MountState,
};
use bootc_migrate_core::migration::lifecycle::{
    acquire, acquire_lock, inhibit_sleep, inhibitor_notice, remount_rw, LifecycleAction,
    LockOutcome, LOCK_PATH,
};
use bootc_migrate_core::migration::mount::{
    podman_mount_command, podman_mount_path, podman_unmount_command, require_mounted_dir,
    unmount_warning,
};
use bootc_migrate_core::steps::Step;

/// A dry run must not take the lock, spawn an inhibitor, or remount
/// anything — it is the one mode that is safe to run on a live system.
#[test]
fn dry_run_lifecycle_acquires_nothing() {
    let lifecycle = acquire(true);
    assert!(
        !lifecycle.iter().any(|a| matches!(a, LifecycleAction::Lock(_))),
        "dry run must not take the lock"
    );
    assert!(
        !lifecycle.iter().any(|a| matches!(a, LifecycleAction::InhibitSleep(_))),
        "dry run must not hold a sleep inhibitor"
    );
    assert!(lifecycle.iter().all(|a| matches!(a, LifecycleAction::Do(Step::Say(_)))));
}

#[test]
fn the_lock_is_taken_first() {
    let moves = acquire(false);
    assert_eq!(moves[0], LifecycleAction::Lock(LOCK_PATH.to_string()));
    assert!(matches!(&moves[1], LifecycleAction::InhibitSleep(_)));
    assert_eq!(moves[2], LifecycleAction::Do(remount_rw("/sysroot")));
    assert_eq!(moves[3], LifecycleAction::Do(remount_rw("/boot")));
    assert!(acquire_lock(LockOutcome::Taken).is_ok());
    assert!(acquire_lock(LockOutcome::Held).unwrap_err().contains("already running"));
    assert_eq!(acquire_lock(LockOutcome::Failed).unwrap_err(), "failed to acquire lock");
}

#[test]
fn the_inhibitor_names_its_reason() {
    assert_eq!(
        inhibit_sleep("why not"),
        vec![
            "systemd-inhibit", "--what=sleep", "--why=why not", "--mode=block", "sleep", "infinity"
        ]
    );
    assert!(inhibitor_notice(true).starts_with("Acquired"));
    assert!(inhibitor_notice(false).starts_with("Note:"));
}

fn failed(e: &str) -> CommandOutcome {
    CommandOutcome::Failed(e.to_string())
}

#[test]
fn attempts_go_down_the_ladder() {
    assert_eq!(mount_image_for(true), MountState::BySealedConfig);
    let start = mount_image_for(false);
    assert_eq!(start, MountState::Repull);
    assert_eq!(
        mount_command(&start, "a:b", "sha", "/m").unwrap(),
        vec!["bootc", "internals", "cfs", "--system", "oci", "pull", "containers-storage:a:b"]
    );
    let (by_ref, said) = mount_image(start, &CommandOutcome::Succeeded, false);
    assert_eq!((by_ref.clone(), said), (MountState::ByReference, None));
    assert_eq!(
        mount_command(&by_ref, "a:b", "sha", "/m").unwrap()[5..],
        ["mount", "containers-storage:a:b", "/m"]
    );
    let (sealed, said) = mount_image(by_ref, &failed(" broken \n"), false);
    assert_eq!(sealed, MountState::BySealedConfig);
    assert_eq!(
        said.as_deref(),
        Some("[mount] new-gen mount by ref failed (broken); trying legacy identifiers")
    );
    let (raw, _) = mount_image(sealed.clone(), &failed("no\n"), true);
    assert_eq!(raw, MountState::RawErofs("no\n".to_string()));
    assert_eq!(
        mount_command(&raw, "a:b", "sha", "/m").unwrap()[5],
        "/sysroot/composefs/images/sha"
    );
    let (done, warned) = mount_image(raw.clone(), &CommandOutcome::Succeeded, true);
    assert_eq!(done, MountState::Mounted);
    assert!(warned.unwrap().contains("(no)"));
    assert_eq!(
        mount_image(raw, &failed("erofs"), true).0,
        MountState::Failed("mount failed: no\n".to_string())
    );
    assert_eq!(
        mount_image(sealed, &failed("no"), false).0,
        MountState::Failed("mount failed: no".to_string())
    );
    assert_eq!(
        mount_image(MountState::BySealedConfig, &CommandOutcome::NotRun("x".into()), true).0,
        MountState::Failed("failed to execute bootc internals cfs oci mount".to_string())
    );
    assert!(mount_command(&MountState::Mounted, "a", "b", "c").is_none());
}

#[test]
fn a_mount_without_content_is_not_used() {
    assert_eq!(open_target(None, true, "phase4"), None);
    assert!(open_target(None, false, "phase4").unwrap().contains("exposed no content"));
    assert_eq!(
        open_target(Some("why"), true, "phase5").as_deref(),
        Some("[phase5] composefs overlay mount failed (why); falling back to podman image mount")
    );
    assert_eq!(podman_notice("phase5", "/m"), "[phase5] using podman image mount at /m");
}

#[test]
fn podman_mounts_by_name() {
    assert_eq!(podman_mount_command("a:b"), vec!["podman", "image", "mount", "a:b"]);
    assert_eq!(podman_unmount_command("a:b"), vec!["podman", "image", "unmount", "a:b"]);
    assert_eq!(podman_mount_path("a:b", true, "/m\n", "").unwrap(), "/m");
    assert_eq!(
        podman_mount_path("a:b", false, "", "no\n").unwrap_err(),
        "podman image mount a:b failed: no"
    );
    assert_eq!(require_mounted_dir("/m", true).unwrap(), "/m");
    assert!(require_mounted_dir("/m", false).unwrap_err().ends_with("/m"));
    assert!(unmount_warning("/m").contains("'umount /m'"));
    assert_eq!(inspect_command("id").last().map(String::as_str), Some("id"));
    assert_eq!(inspect_image(true, "{}", "").unwrap(), "{}");
    assert_eq!(inspect_image(false, "", "e").unwrap_err(), "inspect failed: e");
}

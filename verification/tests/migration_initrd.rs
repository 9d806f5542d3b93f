//! The initrd of the target.

use bootc_migrate_core::migration::initrd::{
    announce_rebuild, detect_lvm, dracut_command, find_dracut, next_rebuild_stage,
    plan_initrd_rebuild, prepare_composefs_loopback_include, prepare_stateroot_var_include,
    rebuild_initrd_with_lvm_if_needed, report_rebuild, staging_steps, unstaging_steps,
    RebuildOutcome, RebuildReasons, RebuildStage,
};
use bootc_migrate_core::migration::var_layout::VarMount;
use bootc_migrate_core::steps::Step;

fn written<'a>(steps: &'a [Step], wanted: &str) -> &'a str {
    steps
        .iter()
        .find_map(|s| match s {
            Step::Write { path, contents, .. } if path == wanted => Some(contents.as_str()),
            _ => None,
        })
        .unwrap()
}

/// The mount survives into the running system, and no second mount corrects it:
/// with `ro` the system could never take an update.
#[test]
fn initrd_composefs_loopback_mount_is_writable() {
    let steps = prepare_composefs_loopback_include("/t");

    let body = written(&steps, "/t/etc/systemd/system/sysroot-composefs.mount");
    let opts = body
        .lines()
        .find_map(|l| l.trim().strip_prefix("Options="))
        .expect("mount unit has no Options= line");
    assert!(
        opts.split(',').any(|o| o == "rw"),
        "initrd composefs loopback mount must be rw — it is the mount the \
         booted system keeps; got Options={opts}"
    );
    assert!(body.contains("Where=/sysroot/composefs"));

    let link = "/t/etc/systemd/system/initrd-root-fs.target.wants/sysroot-composefs.mount";
    assert!(
        steps.iter().any(|s| matches!(s, Step::Link { path, .. } if path == link)),
        "mount unit was written but not enabled"
    );

    // bootc-root-setup must not run before the store is mounted.
    let dropin_body = written(
        &steps,
        "/t/etc/systemd/system/bootc-root-setup.service.d/RequiresLoopback.conf",
    );
    assert!(dropin_body.contains("Requires=sysroot-composefs.mount"));
    assert!(dropin_body.contains("After=sysroot-composefs.mount"));
}

#[test]
fn the_volume_of_var_gets_a_unit() {
    let var =
        VarMount { uuid: "1-2".into(), fstype: "btrfs".into(), options: "defaults,subvol=/var".into() };
    let steps = prepare_stateroot_var_include("/t", &var);
    let body = written(&steps, "/t/etc/systemd/system/sysroot-state-os-default-var.mount");
    assert!(body.contains("What=/dev/disk/by-uuid/1-2\n"));
    assert!(body.contains("Options=defaults,subvol=/var\n"));
}

#[test]
fn a_rebuild_needs_a_reason() {
    let reasons = |needs_dm, needs_xfs, separate_var| RebuildReasons { needs_dm, needs_xfs, separate_var };
    assert_eq!(plan_initrd_rebuild(reasons(false, false, true)), None);
    assert_eq!(
        plan_initrd_rebuild(reasons(true, true, true)).as_deref(),
        Some("LVM/DM/crypt + XFS + dedicated /var")
    );
    assert_eq!(plan_initrd_rebuild(reasons(false, true, false)).as_deref(), Some("XFS"));
    assert!(detect_lvm(&["control".to_string(), "vg-root".to_string()]));
    assert!(!detect_lvm(&["control".to_string()]));
    assert_eq!(
        announce_rebuild("XFS", None),
        vec!["[phase5] Rebuilding composefs initrd with XFS support..."]
    );
}

#[test]
fn dracut_is_asked_for_what_is_missing() {
    assert_eq!(
        dracut_command("dracut", "/i", "6.1", true, true, Some("/loop"), Some("/var")),
        vec![
            "dracut", "--rebuild", "/i", "--kver", "6.1", "--force", "--add", "bootc", "--add",
            "lvm dm crypt", "--add-drivers", "xfs ext4 loop", "--include", "/loop", "/",
            "--add-drivers", "xfs ext4", "--include", "/var", "/",
        ]
    );
    assert_eq!(
        find_dracut(&["/usr/sbin/dracut".to_string()], "XFS").unwrap(),
        "/usr/sbin/dracut"
    );
    assert_eq!(
        find_dracut(&[], "XFS").unwrap_err(),
        "dracut not found on source; cannot rebuild initrd for XFS"
    );
}

#[test]
fn what_is_bound_is_unbound() {
    let steps = staging_steps("/var/tmp/s", "6.1", "/m/6.1", true);
    assert_eq!(steps[0], Step::RemoveTree("/var/tmp/s".to_string()));
    assert!(matches!(steps.last(), Some(Step::Run { argv, .. })
        if argv[..] == ["mount", "--bind", "/var/tmp/s", "/usr/lib/modules"]));
    let undone = unstaging_steps("/var/tmp/s", true);
    assert!(matches!(&undone[0], Step::Attempt { argv, .. }
        if argv[..] == ["umount", "--lazy", "/usr/lib/modules"]));
    assert_eq!(unstaging_steps("/var/tmp/s", false).len(), 1);
}

#[test]
fn a_failed_rebuild_is_told() {
    assert_eq!(
        report_rebuild("XFS", "/i", &RebuildOutcome::Rebuilt),
        "[phase5] XFS initrd rebuilt and staged at /i."
    );
    assert!(report_rebuild("XFS", "/i", &RebuildOutcome::Exited(Some(1))).contains("exited Some(1)"));
    assert!(report_rebuild("XFS", "/i", &RebuildOutcome::Exited(None)).contains("exited None"));
    assert!(report_rebuild("XFS", "/i", &RebuildOutcome::Failed("x".into())).contains("failed (x)"));
}

fn stages(reasons: RebuildReasons, fails_at: Option<RebuildStage>) -> Vec<RebuildStage> {
    let mut passed = Vec::new();
    let mut stage = rebuild_initrd_with_lvm_if_needed(reasons);
    while stage != RebuildStage::Finished && stage != RebuildStage::Failed {
        passed.push(stage);
        stage = next_rebuild_stage(stage, Some(stage) != fails_at, reasons);
    }
    passed.push(stage);
    passed
}

#[test]
fn a_rebuild_goes_through_what_the_host_needs() {
    let all = RebuildReasons { needs_dm: true, needs_xfs: true, separate_var: true };
    assert_eq!(
        stages(all, None),
        [
            RebuildStage::Announce,
            RebuildStage::ObtainModules,
            RebuildStage::FindDracut,
            RebuildStage::IncludeLoopback,
            RebuildStage::IncludeVar,
            RebuildStage::StageModules,
            RebuildStage::RunDracut,
            RebuildStage::Unstage,
            RebuildStage::Report,
            RebuildStage::Finished,
        ]
    );
    let lvm = RebuildReasons { needs_dm: true, needs_xfs: false, separate_var: false };
    assert_eq!(stages(lvm, None)[3], RebuildStage::StageModules);
    let nothing = RebuildReasons { needs_dm: false, needs_xfs: false, separate_var: true };
    assert_eq!(stages(nothing, None), [RebuildStage::Finished]);
}

#[test]
fn staged_modules_are_removed_whatever_happens() {
    let lvm = RebuildReasons { needs_dm: true, needs_xfs: false, separate_var: false };
    let end = [RebuildStage::Unstage, RebuildStage::Report, RebuildStage::Finished];
    assert!(stages(lvm, Some(RebuildStage::StageModules)).ends_with(&end));
    assert!(!stages(lvm, Some(RebuildStage::StageModules)).contains(&RebuildStage::RunDracut));
    assert!(stages(lvm, Some(RebuildStage::RunDracut)).ends_with(&end));
    assert_eq!(
        stages(lvm, Some(RebuildStage::ObtainModules)).last(),
        Some(&RebuildStage::Failed)
    );
}

#[test]
fn an_absent_dracut_is_a_warning() {
    let xfs = RebuildReasons { needs_dm: false, needs_xfs: true, separate_var: true };
    assert_eq!(
        stages(xfs, Some(RebuildStage::FindDracut)),
        [
            RebuildStage::Announce,
            RebuildStage::ObtainModules,
            RebuildStage::FindDracut,
            RebuildStage::Report,
            RebuildStage::Finished,
        ]
    );
    let why = find_dracut(&[], "XFS").unwrap_err();
    assert_eq!(
        report_rebuild("XFS", "/i", &RebuildOutcome::Failed(why)),
        "[phase5] Warning: initrd rebuild failed (dracut not found on source; cannot rebuild \
         initrd for XFS) — composefs initrd left unchanged; boot the OSTree fallback to recover."
    );
}

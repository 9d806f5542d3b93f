//! The phases of a migration, and its way back.

pub mod boot_deployments;
pub mod bootloader;
pub mod deploy;
pub mod deploy_layout;
pub mod host_storage;
pub mod image_access;
pub mod initrd;
pub mod lifecycle;
pub mod mount;
pub mod pull;
pub mod rollback;
pub mod standalone_bootloader;
pub mod target_compat;
pub mod var_layout;

use vstd::prelude::*;

use crate::preflight::PreflightReport;
use crate::text::search::same;
use crate::verity::VerityDigest;

verus! {

/// One move of a migration.
#[derive(Debug, Clone, PartialEq, Eq)]
pub enum MigrationAction {
    /// Take hold of what the run needs (see [`lifecycle`]).
    Acquire,
    Say(String),
    /// Stop where the store would not fit.
    CheckFreeSpace,
    /// See to it that the store can be sealed.
    PrepareStorage,
    /// Create the directory of the store.
    CreateStore,
    ImportObjects,
    PullImage,
    SealImage,
    StageDeployment,
    SetUpBootloader,
    /// Tell the user that it is done.
    Complete,
    /// Leave a reminder for the next login.
    LeaveReminder,
}

/// What a [`MigrationAction`] holds.
#[verifier::ext_equal]
pub enum MigrationActionView {
    Acquire,
    Say(Seq<char>),
    CheckFreeSpace,
    PrepareStorage,
    CreateStore,
    ImportObjects,
    PullImage,
    SealImage,
    StageDeployment,
    SetUpBootloader,
    Complete,
    LeaveReminder,
}

impl DeepView for MigrationAction {
    type V = MigrationActionView;

    open spec fn deep_view(&self) -> MigrationActionView {
        match self {
            MigrationAction::Acquire => MigrationActionView::Acquire,
            MigrationAction::Say(s) => MigrationActionView::Say(s@),
            MigrationAction::CheckFreeSpace => MigrationActionView::CheckFreeSpace,
            MigrationAction::PrepareStorage => MigrationActionView::PrepareStorage,
            MigrationAction::CreateStore => MigrationActionView::CreateStore,
            MigrationAction::ImportObjects => MigrationActionView::ImportObjects,
            MigrationAction::PullImage => MigrationActionView::PullImage,
            MigrationAction::SealImage => MigrationActionView::SealImage,
            MigrationAction::StageDeployment => MigrationActionView::StageDeployment,
            MigrationAction::SetUpBootloader => MigrationActionView::SetUpBootloader,
            MigrationAction::Complete => MigrationActionView::Complete,
            MigrationAction::LeaveReminder => MigrationActionView::LeaveReminder,
        }
    }
}

/// The moves of a migration, in order.
pub open spec fn migration_moves(dry_run: bool, skip_import: bool) -> Seq<MigrationActionView> {
    seq![
        MigrationActionView::Acquire,
        MigrationActionView::Say("=== Phase 0: Free-space check ==="@),
        if dry_run {
            MigrationActionView::Say("[DRY RUN] Would check free space on /sysroot/composefs."@)
        } else {
            MigrationActionView::CheckFreeSpace
        },
    ] + (if dry_run {
        Seq::empty()
    } else {
        seq![MigrationActionView::PrepareStorage, MigrationActionView::CreateStore]
    }) + seq![
        if skip_import {
            MigrationActionView::Say("=== Phase 1: Skipped (--skip-import) ==="@)
        } else {
            MigrationActionView::ImportObjects
        },
        MigrationActionView::PullImage,
        MigrationActionView::SealImage,
        MigrationActionView::StageDeployment,
        MigrationActionView::SetUpBootloader,
        MigrationActionView::Complete,
    ] + (if dry_run {
        Seq::empty()
    } else {
        seq![MigrationActionView::LeaveReminder]
    })
}

/// The moves of a migration, in order. Each but the last stops it where it
/// fails.
pub fn run_migration(dry_run: bool, skip_import: bool) -> (r: Vec<MigrationAction>)
    ensures
        r.deep_view() == migration_moves(dry_run, skip_import),
{
    let mut r: Vec<MigrationAction> = Vec::new();
    r.push(MigrationAction::Acquire);
    r.push(MigrationAction::Say("=== Phase 0: Free-space check ===".to_owned()));
    if dry_run {
        r.push(
            MigrationAction::Say(
                "[DRY RUN] Would check free space on /sysroot/composefs.".to_owned(),
            ),
        );
    } else {
        r.push(MigrationAction::CheckFreeSpace);
    }
    if !dry_run {
        r.push(MigrationAction::PrepareStorage);
        r.push(MigrationAction::CreateStore);
    }
    if skip_import {
        r.push(MigrationAction::Say("=== Phase 1: Skipped (--skip-import) ===".to_owned()));
    } else {
        r.push(MigrationAction::ImportObjects);
    }
    r.push(MigrationAction::PullImage);
    r.push(MigrationAction::SealImage);
    r.push(MigrationAction::StageDeployment);
    r.push(MigrationAction::SetUpBootloader);
    r.push(MigrationAction::Complete);
    if !dry_run {
        r.push(MigrationAction::LeaveReminder);
    }
    assert(r.deep_view() =~= migration_moves(dry_run, skip_import));
    r
}

/// The number of the phase that a move belongs to, where it belongs to one.
pub open spec fn phase_of(a: MigrationActionView) -> Option<nat> {
    match a {
        MigrationActionView::ImportObjects => Some(1),
        MigrationActionView::PullImage => Some(2),
        MigrationActionView::SealImage => Some(3),
        MigrationActionView::StageDeployment => Some(4),
        MigrationActionView::SetUpBootloader => Some(5),
        _ => None,
    }
}

/// The phases follow each other by their numbers, and none runs twice.
pub proof fn law_phases_follow_each_other(dry_run: bool, skip_import: bool, i: int, j: int)
    requires
        0 <= i < j < migration_moves(dry_run, skip_import).len(),
        phase_of(migration_moves(dry_run, skip_import)[i]) is Some,
        phase_of(migration_moves(dry_run, skip_import)[j]) is Some,
    ensures
        phase_of(migration_moves(dry_run, skip_import)[i])->0 < phase_of(
            migration_moves(dry_run, skip_import)[j],
        )->0,
{
}

/// The run takes hold before anything else, and a dry run neither prepares nor
/// creates the store, and leaves no reminder.
pub proof fn law_dry_migration_leaves_nothing(dry_run: bool, skip_import: bool)
    ensures
        migration_moves(dry_run, skip_import)[0] is Acquire,
        dry_run ==> ({
            let moves = migration_moves(dry_run, skip_import);
            &&& !moves.contains(MigrationActionView::PrepareStorage)
            &&& !moves.contains(MigrationActionView::CreateStore)
            &&& !moves.contains(MigrationActionView::LeaveReminder)
        }),
{
}

/// Whether systemd-boot becomes the bootloader.
pub open spec fn ends_with_systemd_boot(
    bootloader: Seq<char>,
    is_uefi: bool,
    nvram_writable: bool,
) -> bool {
    bootloader != "grub2"@ && is_uefi && nvram_writable
}

/// What is said at the end.
pub open spec fn completion(hex: Seq<char>, systemd_boot: bool) -> Seq<Seq<char>> {
    seq![
        "\n=== MIGRATION COMPLETED ==="@,
        "Staged ComposeFS deployment: "@ + hex,
        if systemd_boot {
            "Primary bootloader: systemd-boot"@
        } else {
            "Primary bootloader: GRUB2 (BLS Type 1)"@
        },
        "Please reboot the system to finalize the transition."@,
        "After successful boot, run 'bootc-migrate commit' to make composefs permanent."@,
    ]
}

/// What is said at the end.
pub fn completion_lines(report: &PreflightReport, verity: &VerityDigest, bootloader: &str) -> (r: Vec<
    String,
>)
    ensures
        r.deep_view() == completion(
            verity.hex@,
            ends_with_systemd_boot(bootloader@, report.is_uefi, report.nvram_writable),
        ),
{
    let systemd_boot: bool = !same(bootloader, "grub2") && report.is_uefi && report.nvram_writable;
    let mut deployed: String = "Staged ComposeFS deployment: ".to_owned();
    deployed.append(verity.as_hex());
    let mut r: Vec<String> = Vec::new();
    r.push("\n=== MIGRATION COMPLETED ===".to_owned());
    r.push(deployed);
    if systemd_boot {
        r.push("Primary bootloader: systemd-boot".to_owned());
    } else {
        r.push("Primary bootloader: GRUB2 (BLS Type 1)".to_owned());
    }
    r.push("Please reboot the system to finalize the transition.".to_owned());
    r.push(
        "After successful boot, run 'bootc-migrate commit' to make composefs permanent.".to_owned(),
    );
    assert(r.deep_view() =~= completion(verity.hex@, systemd_boot));
    r
}

} // verus!

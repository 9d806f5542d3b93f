//! The routes of a re-base, each as the list of its moves.
//!
//! The order of the moves belongs here. Carrying them out, up to the first that
//! fails, is left to the caller.

use vstd::prelude::*;

use crate::cross_family::{
    config_view, firstboot_unit, needs_relabel, relabel_needed, render_firstboot_unit,
};
use crate::json::{json_document, json_texts, parse_json, text_at, text_in};
use crate::preflight::readiness::{MigrationGate, MigrationGateView};
use crate::preflight::system_info::{status_text, PendingTransactionStatus};
use crate::preflight::PreflightReport;
use crate::rebase_plan::Backend;
use crate::selinux::SelinuxConfig;
use crate::text::compose::owned_all;
use crate::text::paths::{join_path, path_join};
use crate::text::pieces::{
    fields, fields_of, lines, lines_of, trim, trim_start_char, trimmed, trimmed_start_char,
};
use crate::text::search::{
    after, after_first, begins, contains, ends_with, find_char, finishes, holds, lemma_first_index,
    past, same, strip_prefix,
};

verus! {

/// What the conversion to composefs is asked to do.
#[derive(Debug, Clone, Copy)]
pub struct CoreMigrationConfig<'a> {
    pub target_image: &'a str,
    pub bootloader: &'a str,
    pub dry_run: bool,
    pub skip_import: bool,
    pub skip_preflight: bool,
    pub force: bool,
    pub de_migrate: bool,
    /// Go on to a target of another family, under the policy for `/etc` that
    /// this takes. `force` does not imply it.
    pub accept_cross_base: bool,
}

/// What the swap of a composefs image is asked to do.
#[derive(Debug, Clone, Copy)]
pub struct ImageSwapConfig<'a> {
    pub target_image: &'a str,
    pub dry_run: bool,
    pub force: bool,
    pub de_migrate: bool,
    /// Go on to a target of another family, with what the native merge makes of
    /// `/etc`.
    pub accept_cross_base: bool,
}

/// What the deployment by OSTree is asked to do.
#[derive(Debug, Clone, Copy)]
pub struct OstreeDeployConfig<'a> {
    pub target_image: &'a str,
    pub dry_run: bool,
    pub force: bool,
    pub skip_preflight: bool,
    pub accept_cross_base: bool,
    pub de_migrate: bool,
}

/// Whether the text can stand in the file that names a deployment's image. A line
/// break or a NUL would let it add keys of its own.
pub open spec fn is_one_line(image: Seq<char>) -> bool {
    forall|i: int|
        0 <= i < image.len() ==> #[trigger] image[i] != '\n' && image[i] != '\r' && image[i]
            != '\0'
}

/// The refusal of an image that cannot.
pub open spec fn bad_image() -> Seq<char> {
    "--target-image contains invalid characters (newlines, nulls)."@
}

/// Refuses an image that could add keys to the file that it is written to.
pub fn validate_target_image(target_image: &str) -> (r: Result<(), String>)
    ensures
        is_one_line(target_image@) <==> r is Ok,
        r is Err ==> r->Err_0@ == bad_image(),
{
    let n: usize = target_image.unicode_len();
    proof {
        lemma_first_index(target_image@, '\n');
        lemma_first_index(target_image@, '\r');
        lemma_first_index(target_image@, '\0');
    }
    let a: usize = find_char(target_image, '\n');
    let b: usize = find_char(target_image, '\r');
    let c: usize = find_char(target_image, '\0');
    if a < n || b < n || c < n {
        return Err("--target-image contains invalid characters (newlines, nulls).".to_owned());
    }
    Ok(())
}

/// What a gate means where nobody can be asked: a question is a refusal that
/// names the flag.
pub open spec fn gate_verdict(gate: MigrationGateView) -> Result<(), Seq<char>> {
    match gate {
        MigrationGateView::Proceed => Ok(()),
        MigrationGateView::Refuse(m) => Err(m),
        MigrationGateView::ImageSwap => Err(
            "System is already composefs-backed, so there is no backend to convert. Use the image swap instead: `bootc-rebase --source-backend composefs --target-backend composefs --target-image <image>`."@,
        ),
        MigrationGateView::ConfirmFullCopy => Err(
            "Reflink support not detected on /sysroot — the migration would perform a full copy of repository objects. Re-run with --force to accept the extra disk usage."@,
        ),
    }
}

/// Whether the conversion may go on.
pub fn gate_decision(gate: MigrationGate) -> (r: Result<(), String>)
    ensures
        match gate_verdict(gate.deep_view()) {
            Ok(_) => r is Ok,
            Err(m) => r is Err && r->Err_0@ == m,
        },
{
    match gate {
        MigrationGate::Proceed => Ok(()),
        MigrationGate::Refuse(m) => Err(m),
        MigrationGate::ImageSwap => Err(
            "System is already composefs-backed, so there is no backend to convert. Use the image swap instead: `bootc-rebase --source-backend composefs --target-backend composefs --target-image <image>`.".to_owned(),
        ),
        MigrationGate::ConfirmFullCopy => Err(
            "Reflink support not detected on /sysroot — the migration would perform a full copy of repository objects. Re-run with --force to accept the extra disk usage.".to_owned(),
        ),
    }
}

/// One move of a route.
#[derive(Debug, Clone, PartialEq, Eq)]
pub enum RebaseAction {
    Say(String),
    /// Tell the user on the error output.
    Warn(String),
    /// Find out how the system stands.
    CheckSystem,
    /// Tell the user how it stands, and whether it is ready.
    ShowReadiness,
    /// Stop where [`gate_decision`] refuses.
    GateMigration,
    /// Stop where [`require_composefs_boot`] refuses.
    RequireComposefs,
    /// Stop where [`require_ostree_boot`] refuses.
    RequireOstree,
    /// Tell the user what [`bootloader_note`] says.
    NoteBootloader,
    /// Stop before a target of another family, unless it was accepted.
    GateFamily { accepted: bool },
    /// Stop before a target of another base that was not accepted.
    GateBase,
    /// Tell of accounts that the target lacks.
    WarnIdentityGap,
    /// Decide on the change of desktop.
    PlanDesktop,
    /// Show what the change of desktop would do, where there is one.
    PreviewDesktop,
    /// Keep the machine awake, for the reason given.
    InhibitSleep(String),
    /// Put the old desktop's files aside, where the desktop changes.
    PreSwitch,
    /// Run the conversion.
    Migrate { dry_run: bool },
    /// Stage the target and see that it is staged.
    Switch,
    /// Apply to the staged deployment what a change of base needs, where the
    /// base changes.
    ApplyCrossBase,
    /// Bring the new desktop's files back, where the desktop changes.
    PostSwitch,
    /// Have the staged deployment set its labels on the first boot, where it
    /// must.
    ScheduleRelabel,
    /// Finalize the staged deployment.
    Finalize,
}

/// What a [`RebaseAction`] holds.
#[verifier::ext_equal]
pub enum RebaseActionView {
    Say(Seq<char>),
    Warn(Seq<char>),
    CheckSystem,
    ShowReadiness,
    GateMigration,
    RequireComposefs,
    RequireOstree,
    NoteBootloader,
    GateFamily { accepted: bool },
    GateBase,
    WarnIdentityGap,
    PlanDesktop,
    PreviewDesktop,
    InhibitSleep(Seq<char>),
    PreSwitch,
    Migrate { dry_run: bool },
    Switch,
    ApplyCrossBase,
    PostSwitch,
    ScheduleRelabel,
    Finalize,
}

impl DeepView for RebaseAction {
    type V = RebaseActionView;

    open spec fn deep_view(&self) -> RebaseActionView {
        match self {
            RebaseAction::Say(s) => RebaseActionView::Say(s@),
            RebaseAction::Warn(s) => RebaseActionView::Warn(s@),
            RebaseAction::CheckSystem => RebaseActionView::CheckSystem,
            RebaseAction::ShowReadiness => RebaseActionView::ShowReadiness,
            RebaseAction::GateMigration => RebaseActionView::GateMigration,
            RebaseAction::RequireComposefs => RebaseActionView::RequireComposefs,
            RebaseAction::RequireOstree => RebaseActionView::RequireOstree,
            RebaseAction::NoteBootloader => RebaseActionView::NoteBootloader,
            RebaseAction::GateFamily { accepted } => RebaseActionView::GateFamily {
                accepted: *accepted,
            },
            RebaseAction::GateBase => RebaseActionView::GateBase,
            RebaseAction::WarnIdentityGap => RebaseActionView::WarnIdentityGap,
            RebaseAction::PlanDesktop => RebaseActionView::PlanDesktop,
            RebaseAction::PreviewDesktop => RebaseActionView::PreviewDesktop,
            RebaseAction::InhibitSleep(why) => RebaseActionView::InhibitSleep(why@),
            RebaseAction::PreSwitch => RebaseActionView::PreSwitch,
            RebaseAction::Migrate { dry_run } => RebaseActionView::Migrate { dry_run: *dry_run },
            RebaseAction::Switch => RebaseActionView::Switch,
            RebaseAction::ApplyCrossBase => RebaseActionView::ApplyCrossBase,
            RebaseAction::PostSwitch => RebaseActionView::PostSwitch,
            RebaseAction::ScheduleRelabel => RebaseActionView::ScheduleRelabel,
            RebaseAction::Finalize => RebaseActionView::Finalize,
        }
    }
}

/// Whether the move may stop the route before anything is changed.
pub open spec fn is_gate(a: RebaseActionView) -> bool {
    a is GateMigration || a is RequireComposefs || a is RequireOstree || a is GateFamily
        || a is GateBase
}

/// Whether the move changes the system.
pub open spec fn changes_system(a: RebaseActionView) -> bool {
    match a {
        RebaseActionView::Migrate { dry_run } => !dry_run,
        RebaseActionView::InhibitSleep(_) => true,
        RebaseActionView::PreSwitch => true,
        RebaseActionView::Switch => true,
        RebaseActionView::ApplyCrossBase => true,
        RebaseActionView::PostSwitch => true,
        RebaseActionView::ScheduleRelabel => true,
        RebaseActionView::Finalize => true,
        _ => false,
    }
}

/// The first moves of every route.
pub open spec fn opening(dry_run: bool) -> Seq<RebaseActionView> {
    (if dry_run {
        seq![RebaseActionView::Say("*** DRY RUN MODE — no changes will be made ***"@)]
    } else {
        Seq::empty()
    }) + seq![RebaseActionView::Say("Checking system state..."@)]
}

/// The moves of the conversion.
pub open spec fn core_moves(
    target_image: Seq<char>,
    dry_run: bool,
    accepted: bool,
) -> Seq<RebaseActionView> {
    opening(dry_run) + seq![
        RebaseActionView::CheckSystem,
        RebaseActionView::ShowReadiness,
        RebaseActionView::GateMigration,
        RebaseActionView::GateFamily { accepted },
        RebaseActionView::PlanDesktop,
        if dry_run {
            RebaseActionView::PreviewDesktop
        } else {
            RebaseActionView::PreSwitch
        },
        RebaseActionView::Say("Starting migration to OCI image: "@ + target_image + "..."@),
        RebaseActionView::Migrate { dry_run },
    ] + (if dry_run {
        Seq::empty()
    } else {
        seq![RebaseActionView::PostSwitch]
    })
}

/// What a dry run says in place of staging.
pub open spec fn would_switch(target_image: Seq<char>) -> Seq<char> {
    "[DRY RUN] Would run: bootc switch "@ + target_image
}

/// The moves of the swap of an image. Another family must be accepted by name,
/// which insisting is not, and whoever accepts it is told what that means here.
pub open spec fn swap_moves(
    target_image: Seq<char>,
    dry_run: bool,
    accept_cross_base: bool,
) -> Seq<RebaseActionView> {
    opening(dry_run) + seq![
        RebaseActionView::RequireComposefs,
        RebaseActionView::GateFamily { accepted: accept_cross_base },
    ] + (if accept_cross_base {
        seq![
            RebaseActionView::Warn(
                "Note: the image swap stages /etc with `bootc switch`'s native merge; the cross-family /etc policy is not applied on this route. If the target is from another OS family, expect to reconcile family-specific configuration by hand after the reboot."@,
            ),
        ]
    } else {
        Seq::empty()
    }) + seq![RebaseActionView::PlanDesktop] + (if dry_run {
        seq![
            RebaseActionView::PreviewDesktop,
            RebaseActionView::Say(would_switch(target_image)),
        ]
    } else {
        seq![
            RebaseActionView::InhibitSleep("bootc image swap in progress"@),
            RebaseActionView::PreSwitch,
            RebaseActionView::Switch,
            RebaseActionView::PostSwitch,
            RebaseActionView::ScheduleRelabel,
            RebaseActionView::Finalize,
            RebaseActionView::Say(
                "Image swap staged. Reboot to enter the new deployment; the previous deployment remains in the boot menu as rollback."@,
            ),
        ]
    })
}

/// The moves of the deployment by OSTree.
pub open spec fn deploy_moves(target_image: Seq<char>, dry_run: bool) -> Seq<RebaseActionView> {
    opening(dry_run) + seq![
        RebaseActionView::CheckSystem,
        RebaseActionView::RequireOstree,
        RebaseActionView::NoteBootloader,
        RebaseActionView::GateBase,
        RebaseActionView::WarnIdentityGap,
        RebaseActionView::PlanDesktop,
    ] + (if dry_run {
        seq![
            RebaseActionView::PreviewDesktop,
            RebaseActionView::Say(would_switch(target_image)),
        ]
    } else {
        seq![
            RebaseActionView::InhibitSleep("bootc ostree re-base in progress"@),
            RebaseActionView::PreSwitch,
            RebaseActionView::Switch,
            RebaseActionView::ApplyCrossBase,
            RebaseActionView::PostSwitch,
            RebaseActionView::Finalize,
            RebaseActionView::Say(
                "Re-base staged. Reboot to enter the new deployment; the previous deployment remains in the boot menu as rollback."@,
            ),
        ]
    })
}

/// The first moves of every route.
fn opened(dry_run: bool) -> (r: Vec<RebaseAction>)
    ensures
        r.deep_view() == opening(dry_run),
{
    let mut r: Vec<RebaseAction> = Vec::new();
    if dry_run {
        r.push(
            RebaseAction::Say("*** DRY RUN MODE — no changes will be made ***".to_owned()),
        );
    }
    r.push(RebaseAction::Say("Checking system state...".to_owned()));
    assert(r.deep_view() =~= opening(dry_run));
    r
}

/// What a dry run does in place of staging.
fn push_preview(list: &mut Vec<RebaseAction>, target_image: &str)
    ensures
        final(list).deep_view() == old(list).deep_view() + seq![
            RebaseActionView::PreviewDesktop,
            RebaseActionView::Say(would_switch(target_image@)),
        ],
{
    let ghost before = list.deep_view();
    let mut m: String = "[DRY RUN] Would run: bootc switch ".to_owned();
    m.append(target_image);
    list.push(RebaseAction::PreviewDesktop);
    list.push(RebaseAction::Say(m));
    assert(list.deep_view() =~= before + seq![
        RebaseActionView::PreviewDesktop,
        RebaseActionView::Say(would_switch(target_image@)),
    ]);
}

impl CoreMigrationConfig<'_> {
    /// The moves of the conversion: the gates, what is done before the switch,
    /// the conversion, and what is done behind it.
    pub fn run(&self) -> (r: Result<Vec<RebaseAction>, String>)
        ensures
            if is_one_line(self.target_image@) {
                r is Ok && r->Ok_0.deep_view() == core_moves(
                    self.target_image@,
                    self.dry_run,
                    self.accept_cross_base,
                )
            } else {
                r is Err && r->Err_0@ == bad_image()
            },
    {
        match validate_target_image(self.target_image) {
            Ok(_) => {},
            Err(e) => {
                return Err(e);
            },
        }
        let mut r: Vec<RebaseAction> = opened(self.dry_run);
        let ghost before = r.deep_view();
        let mut starting: String = "Starting migration to OCI image: ".to_owned();
        starting.append(self.target_image);
        starting.append("...");
        r.push(RebaseAction::CheckSystem);
        r.push(RebaseAction::ShowReadiness);
        r.push(RebaseAction::GateMigration);
        r.push(RebaseAction::GateFamily { accepted: self.accept_cross_base });
        r.push(RebaseAction::PlanDesktop);
        if self.dry_run {
            r.push(RebaseAction::PreviewDesktop);
        } else {
            r.push(RebaseAction::PreSwitch);
        }
        r.push(RebaseAction::Say(starting));
        r.push(RebaseAction::Migrate { dry_run: self.dry_run });
        if !self.dry_run {
            r.push(RebaseAction::PostSwitch);
        }
        assert(r.deep_view() =~= core_moves(
            self.target_image@,
            self.dry_run,
            self.accept_cross_base,
        ));
        Ok(r)
    }
}

impl ImageSwapConfig<'_> {
    /// The moves of the swap: the gates, the staging between what is done before
    /// the switch and behind it, the labels, and the finalization.
    pub fn run(&self) -> (r: Result<Vec<RebaseAction>, String>)
        ensures
            if is_one_line(self.target_image@) {
                r is Ok && r->Ok_0.deep_view() == swap_moves(
                    self.target_image@,
                    self.dry_run,
                    self.accept_cross_base,
                )
            } else {
                r is Err && r->Err_0@ == bad_image()
            },
    {
        match validate_target_image(self.target_image) {
            Ok(_) => {},
            Err(e) => {
                return Err(e);
            },
        }
        let mut r: Vec<RebaseAction> = opened(self.dry_run);
        r.push(RebaseAction::RequireComposefs);
        r.push(RebaseAction::GateFamily { accepted: self.accept_cross_base });
        if self.accept_cross_base {
            r.push(
                RebaseAction::Warn(
                    "Note: the image swap stages /etc with `bootc switch`'s native merge; the cross-family /etc policy is not applied on this route. If the target is from another OS family, expect to reconcile family-specific configuration by hand after the reboot.".to_owned(),
                ),
            );
        }
        r.push(RebaseAction::PlanDesktop);
        if self.dry_run {
            push_preview(&mut r, self.target_image);
        } else {
            r.push(RebaseAction::InhibitSleep("bootc image swap in progress".to_owned()));
            r.push(RebaseAction::PreSwitch);
            r.push(RebaseAction::Switch);
            r.push(RebaseAction::PostSwitch);
            r.push(RebaseAction::ScheduleRelabel);
            r.push(RebaseAction::Finalize);
            r.push(
                RebaseAction::Say(
                    "Image swap staged. Reboot to enter the new deployment; the previous deployment remains in the boot menu as rollback.".to_owned(),
                ),
            );
        }
        assert(r.deep_view() =~= swap_moves(
            self.target_image@,
            self.dry_run,
            self.accept_cross_base,
        ));
        Ok(r)
    }
}

impl OstreeDeployConfig<'_> {
    /// The moves of the deployment: the gates, the staging between what is done
    /// before the switch and behind it, and the finalization, which comes last
    /// because the deployment cannot be written to afterwards.
    pub fn run(&self) -> (r: Result<Vec<RebaseAction>, String>)
        ensures
            if is_one_line(self.target_image@) {
                r is Ok && r->Ok_0.deep_view() == deploy_moves(self.target_image@, self.dry_run)
            } else {
                r is Err && r->Err_0@ == bad_image()
            },
    {
        match validate_target_image(self.target_image) {
            Ok(_) => {},
            Err(e) => {
                return Err(e);
            },
        }
        let mut r: Vec<RebaseAction> = opened(self.dry_run);
        r.push(RebaseAction::CheckSystem);
        r.push(RebaseAction::RequireOstree);
        r.push(RebaseAction::NoteBootloader);
        r.push(RebaseAction::GateBase);
        r.push(RebaseAction::WarnIdentityGap);
        r.push(RebaseAction::PlanDesktop);
        if self.dry_run {
            push_preview(&mut r, self.target_image);
        } else {
            r.push(RebaseAction::InhibitSleep("bootc ostree re-base in progress".to_owned()));
            r.push(RebaseAction::PreSwitch);
            r.push(RebaseAction::Switch);
            r.push(RebaseAction::ApplyCrossBase);
            r.push(RebaseAction::PostSwitch);
            r.push(RebaseAction::Finalize);
            r.push(
                RebaseAction::Say(
                    "Re-base staged. Reboot to enter the new deployment; the previous deployment remains in the boot menu as rollback.".to_owned(),
                ),
            );
        }
        assert(r.deep_view() =~= deploy_moves(self.target_image@, self.dry_run));
        Ok(r)
    }
}

/// Whether the moves are those of a route.
pub open spec fn is_route(moves: Seq<RebaseActionView>, image: Seq<char>, dry_run: bool) -> bool {
    ||| moves == core_moves(image, dry_run, true)
    ||| moves == core_moves(image, dry_run, false)
    ||| moves == swap_moves(image, dry_run, true)
    ||| moves == swap_moves(image, dry_run, false)
    ||| moves == deploy_moves(image, dry_run)
}

/// A dry run of any route changes nothing.
pub proof fn law_dry_rebase_changes_nothing(
    moves: Seq<RebaseActionView>,
    image: Seq<char>,
    i: int,
)
    requires
        is_route(moves, image, true),
        0 <= i < moves.len(),
    ensures
        !changes_system(moves[i]),
{
}

/// On every route the gates come before the first change.
pub proof fn law_gates_come_first(
    moves: Seq<RebaseActionView>,
    image: Seq<char>,
    dry_run: bool,
    i: int,
    j: int,
)
    requires
        is_route(moves, image, dry_run),
        0 <= i < moves.len(),
        0 <= j < moves.len(),
        is_gate(moves[i]),
        changes_system(moves[j]),
    ensures
        i < j,
{
}

/// Finalizing makes the deployment unwritable: nothing is changed behind it.
pub proof fn law_finalization_comes_last(
    moves: Seq<RebaseActionView>,
    image: Seq<char>,
    dry_run: bool,
    i: int,
    j: int,
)
    requires
        is_route(moves, image, dry_run),
        0 <= i < moves.len(),
        i < j < moves.len(),
        moves[i] is Finalize,
    ensures
        !changes_system(moves[j]),
{
}

/// The old desktop's files are put aside before the target is staged, and the
/// new one's are brought back behind it.
pub proof fn law_the_switch_stands_between(
    moves: Seq<RebaseActionView>,
    image: Seq<char>,
    i: int,
    j: int,
    k: int,
)
    requires
        is_route(moves, image, false),
        0 <= i < moves.len(),
        0 <= j < moves.len(),
        0 <= k < moves.len(),
        moves[i] is PreSwitch,
        moves[j] is Switch || moves[j] is Migrate,
        moves[k] is PostSwitch,
    ensures
        i < j < k,
{
}

/// Whether the swap may go on: the system runs on composefs, or the user insists.
pub fn require_composefs_boot(cmdline: &str, force: bool) -> (r: Result<(), String>)
    ensures
        (holds(cmdline@, "composefs="@) || force) <==> r is Ok,
        r is Err ==> r->Err_0@
            == "System is not booted from a composefs deployment (/proc/cmdline has no composefs= parameter). Use --force to override, or re-run with --source-backend auto."@,
{
    if !contains(cmdline, "composefs=") && !force {
        return Err(
            "System is not booted from a composefs deployment (/proc/cmdline has no composefs= parameter). Use --force to override, or re-run with --source-backend auto.".to_owned(),
        );
    }
    Ok(())
}

/// Why the deployment by OSTree may not go on, if it may not.
pub open spec fn ostree_refusal(
    report: PreflightReport,
    force: bool,
    skip_preflight: bool,
) -> Option<Seq<char>> {
    if report.booted_backend != Some(Backend::Ostree) && !force {
        Some(
            "System is not booted into an OSTree deployment. Cannot perform an ostree re-base."@,
        )
    } else if report.pending_transaction != PendingTransactionStatus::Clean && !force
        && !skip_preflight {
        Some(
            "Pending OSTree transaction detected: "@ + status_text(report.pending_transaction)
                + ". Complete or undeploy it first (see `ostree admin status`)."@,
        )
    } else {
        None
    }
}

/// Whether the deployment by OSTree may go on: the system runs on OSTree and no
/// update is under way.
pub fn require_ostree_boot(report: &PreflightReport, force: bool, skip_preflight: bool) -> (r: Result<
    (),
    String,
>)
    ensures
        match ostree_refusal(*report, force, skip_preflight) {
            None => r is Ok,
            Some(m) => r is Err && r->Err_0@ == m,
        },
{
    let on_ostree: bool = match report.booted_backend {
        Some(Backend::Ostree) => true,
        _ => false,
    };
    if !on_ostree && !force {
        return Err(
            "System is not booted into an OSTree deployment. Cannot perform an ostree re-base.".to_owned(),
        );
    }
    if report.pending_transaction != PendingTransactionStatus::Clean && !force && !skip_preflight {
        let mut m: String = "Pending OSTree transaction detected: ".to_owned();
        m.append(report.pending_transaction.describe().as_str());
        m.append(". Complete or undeploy it first (see `ostree admin status`).");
        return Err(m);
    }
    Ok(())
}

/// What is said of the bootloader on the deployment by OSTree.
pub fn bootloader_note(report: &PreflightReport) -> (r: Option<String>)
    ensures
        r.deep_view() == if report.esp_ready_for_systemd_boot && report.nvram_writable {
            Some(
                "Note: system is ready for systemd-boot; bootloader migration will be integrated into this route via the migrate-bootloader work (#65). Keeping the current bootloader for this re-base."@,
            )
        } else {
            None
        },
{
    if report.esp_ready_for_systemd_boot && report.nvram_writable {
        Some(
            "Note: system is ready for systemd-boot; bootloader migration will be integrated into this route via the migrate-bootloader work (#65). Keeping the current bootloader for this re-base.".to_owned(),
        )
    } else {
        None
    }
}

/// The transports that are written before a name with a colon.
pub open spec fn transports() -> Seq<Seq<char>> {
    seq![
        "ostree-unverified-registry:"@,
        "ostree-image-signed:"@,
        "ostree-remote-registry:"@,
        "containers-storage:"@,
        "registry:"@,
    ]
}

/// What follows the first of the prefixes that the text begins with, or the text.
pub open spec fn without_prefix(image: Seq<char>, prefixes: Seq<Seq<char>>) -> Seq<char>
    decreases prefixes.len(),
{
    if prefixes.len() == 0 {
        image
    } else if begins(image, prefixes[0]) {
        image.skip(prefixes[0].len() as int)
    } else {
        without_prefix(image, prefixes.skip(1))
    }
}

/// The image without its transport.
pub open spec fn bare_image(image: Seq<char>) -> Seq<char> {
    match past(image, "://"@) {
        Some(rest) => rest,
        None => without_prefix(image, transports()),
    }
}

/// The image without its transport. The colon of a tag is none.
pub fn strip_transport(image: &str) -> (r: String)
    ensures
        r@ == bare_image(image@),
{
    match after_first(image, "://") {
        Some(rest) => {
            return rest;
        },
        None => {},
    }
    let prefixes: [&str; 5] = [
        "ostree-unverified-registry:",
        "ostree-image-signed:",
        "ostree-remote-registry:",
        "containers-storage:",
        "registry:",
    ];
    let ghost all = transports();
    let mut i: usize = 0;
    assert(all.skip(0) =~= all);
    while i < 5
        invariant
            i <= 5,
            all == transports(),
            past(image@, "://"@) is None,
            forall|k: int| 0 <= k < 5 ==> (#[trigger] prefixes@[k])@ == all[k],
            without_prefix(image@, all) == without_prefix(image@, all.skip(i as int)),
        decreases 5 - i,
    {
        proof {
            assert(prefixes@[i as int]@ == all[i as int]);
            assert(all.skip(i as int)[0] == all[i as int]);
            assert(all.skip(i as int).skip(1) =~= all.skip(i + 1));
        }
        match strip_prefix(image, prefixes[i]) {
            Some(rest) => {
                return rest;
            },
            None => {},
        }
        i = i + 1;
    }
    image.to_owned()
}

/// Whether the staged image is the one that was asked for: the same text, up to
/// the transport.
pub fn staged_image_matches(requested: &str, staged: &str) -> (r: bool)
    ensures
        r == (bare_image(requested@) == bare_image(staged@)),
{
    let a: String = strip_transport(requested);
    let b: String = strip_transport(staged);
    same(a.as_str(), b.as_str())
}

/// No scheme ends in a text without slashes.
proof fn lemma_past_ends_early(s: Seq<char>, more: Seq<char>)
    requires
        !more.contains('/'),
    ensures
        past(s + more, "://"@) == match past(s, "://"@) {
            Some(rest) => Some(rest + more),
            None => None,
        },
    decreases s.len() + more.len(),
{
    reveal_strlit("://");
    let whole = s + more;
    if s.len() == 0 {
        assert(whole =~= more);
        if more.len() >= 3 {
            assert(more.contains(more[2]));
            assert(!begins(more, "://"@)) by {
                if begins(more, "://"@) {
                    assert(more.take(3)[2] == '/');
                }
            }
        }
        if more.len() > 0 {
            assert(!more.skip(1).contains('/')) by {
                if more.skip(1).contains('/') {
                    let i = choose|i: int| 0 <= i < more.skip(1).len() && more.skip(1)[i] == '/';
                    assert(more[i + 1] == '/');
                }
            }
            lemma_past_ends_early(s, more.skip(1));
            assert(s + more.skip(1) =~= more.skip(1));
            assert(past(s, "://"@) is None);
        }
    } else {
        lemma_past_ends_early(s.skip(1), more);
        assert(whole.skip(1) =~= s.skip(1) + more);
        if s.len() >= 3 {
            assert(whole.take(3) =~= s.take(3));
            assert(whole.skip(3) =~= s.skip(3) + more);
        } else {
            assert(!begins(whole, "://"@)) by {
                if begins(whole, "://"@) {
                    assert(whole.take(3)[2] == '/');
                    assert(whole[2] == more[2 - s.len()]);
                }
            }
            if s.len() == 1 {
                assert(s.skip(1) =~= Seq::empty());
            } else {
                assert(s.skip(1).len() == 1);
            }
            assert(past(s.skip(1), "://"@) is None) by {
                if s.skip(1).len() > 0 {
                    assert(s.skip(1).len() < 3);
                }
            }
        }
    }
}

/// No transport ends in a text without colons.
proof fn lemma_prefix_ends_early(s: Seq<char>, more: Seq<char>, prefixes: Seq<Seq<char>>)
    requires
        !more.contains(':'),
        forall|i: int|
            0 <= i < prefixes.len() ==> (#[trigger] prefixes[i]).len() > 0 && prefixes[i].last()
                == ':',
    ensures
        without_prefix(s + more, prefixes) == without_prefix(s, prefixes) + more,
    decreases prefixes.len(),
{
    if prefixes.len() > 0 {
        let p = prefixes[0];
        let whole = s + more;
        if s.len() >= p.len() {
            assert(whole.take(p.len() as int) =~= s.take(p.len() as int));
            assert(whole.skip(p.len() as int) =~= s.skip(p.len() as int) + more);
        } else {
            assert(!begins(whole, p)) by {
                if begins(whole, p) {
                    assert(whole.take(p.len() as int).last() == ':');
                    assert(whole[p.len() - 1] == more[p.len() - 1 - s.len()]);
                }
            }
        }
        assert forall|i: int| 0 <= i < prefixes.skip(1).len() implies (#[trigger] prefixes.skip(
            1,
        )[i]).len() > 0 && prefixes.skip(1)[i].last() == ':' by {
            assert(prefixes.skip(1)[i] == prefixes[i + 1]);
        }
        lemma_prefix_ends_early(s, more, prefixes.skip(1));
    }
}

/// An image whose tag only begins with the tag that was asked for is not the one
/// that was asked for, nor the other way round.
pub proof fn law_longer_tags_do_not_match(image: Seq<char>, more: Seq<char>)
    requires
        more.len() > 0,
        !more.contains('/'),
        !more.contains(':'),
    ensures
        bare_image(image + more) == bare_image(image) + more,
        bare_image(image + more) != bare_image(image),
{
    lemma_past_ends_early(image, more);
    assert forall|i: int| 0 <= i < transports().len() implies (#[trigger] transports()[i]).len() > 0
        && transports()[i].last() == ':' by {
        reveal_strlit("ostree-unverified-registry:");
        reveal_strlit("ostree-image-signed:");
        reveal_strlit("ostree-remote-registry:");
        reveal_strlit("containers-storage:");
        reveal_strlit("registry:");
    }
    lemma_prefix_ends_early(image, more, transports());
    assert((bare_image(image) + more).len() > bare_image(image).len());
}

/// What follows a scheme.
proof fn lemma_past_scheme(scheme: Seq<char>, image: Seq<char>)
    requires
        !scheme.contains(':'),
    ensures
        past(scheme + "://"@ + image, "://"@) == Some(image),
    decreases scheme.len(),
{
    reveal_strlit("://");
    let whole = scheme + "://"@ + image;
    if scheme.len() == 0 {
        assert(whole.take(3) =~= "://"@);
        assert(whole.skip(3) =~= image);
    } else {
        assert(!begins(whole, "://"@)) by {
            assert(scheme.contains(scheme[0]));
            if begins(whole, "://"@) {
                assert(whole.take(3)[0] == ':');
            }
        }
        assert(!scheme.skip(1).contains(':')) by {
            if scheme.skip(1).contains(':') {
                let i = choose|i: int| 0 <= i < scheme.skip(1).len() && scheme.skip(1)[i] == ':';
                assert(scheme[i + 1] == ':');
            }
        }
        lemma_past_scheme(scheme.skip(1), image);
        assert(whole.skip(1) =~= scheme.skip(1) + "://"@ + image);
    }
}

/// The scheme that an image was asked for with does not count.
pub proof fn law_schemes_do_not_count(scheme: Seq<char>, image: Seq<char>)
    requires
        !scheme.contains(':'),
        bare_image(image) == image,
    ensures
        bare_image(scheme + "://"@ + image) == bare_image(image),
{
    lemma_past_scheme(scheme, image);
}

/// Where the image of the staged deployment is named.
pub open spec fn staged_image_pointer() -> Seq<char> {
    "/status/staged/image/image/image"@
}

/// The image of the staged deployment, from the status of bootc.
pub fn staged_image_from_status(status: &serde_json::Value) -> (r: Option<String>)
    ensures
        r.deep_view() == text_in(json_texts(*status), staged_image_pointer()),
{
    text_at(status, "/status/staged/image/image/image")
}

/// What the image that is staged says of the switch to the one requested.
pub open spec fn staging_verdict(requested: Seq<char>, staged: Option<Seq<char>>) -> Result<
    Seq<char>,
    Seq<char>,
> {
    match staged {
        None => Err("no staged deployment found after bootc switch"@),
        Some(img) => if bare_image(requested) == bare_image(img) {
            Ok("Staged deployment verified: "@ + img)
        } else {
            Err(
                "bootc switch staged '"@ + img + "' but the requested target was '"@ + requested
                    + "'"@,
            )
        },
    }
}

/// What is said where the image that is staged is the one requested, and why it
/// is refused where it is not.
pub fn check_staged(requested: &str, staged: Option<&str>) -> (r: Result<String, String>)
    ensures
        match staging_verdict(
            requested@,
            match staged {
                Some(s) => Some(s@),
                None => None,
            },
        ) {
            Ok(m) => r is Ok && r->Ok_0@ == m,
            Err(m) => r is Err && r->Err_0@ == m,
        },
{
    match staged {
        None => Err("no staged deployment found after bootc switch".to_owned()),
        Some(img) => {
            if staged_image_matches(requested, img) {
                let mut m: String = "Staged deployment verified: ".to_owned();
                m.append(img);
                Ok(m)
            } else {
                let mut m: String = "bootc switch staged '".to_owned();
                m.append(img);
                m.append("' but the requested target was '");
                m.append(requested);
                m.append("'");
                Err(m)
            }
        },
    }
}

/// The command that stages the target.
pub fn switch_command(target_image: &str) -> (r: Vec<String>)
    ensures
        r.deep_view() == seq!["bootc"@, "switch"@, target_image@],
{
    let r: Vec<String> = owned_all(&["bootc", "switch", target_image]);
    assert(r.deep_view() =~= seq!["bootc"@, "switch"@, target_image@]);
    r
}

/// What is said before the target is staged.
pub fn staging_notice(target_image: &str) -> (r: String)
    ensures
        r@ == "Staging deployment of "@ + target_image@ + " via `bootc switch`..."@,
{
    let mut m: String = "Staging deployment of ".to_owned();
    m.append(target_image);
    m.append(" via `bootc switch`...");
    m
}

/// The error of a switch that ended with the status.
pub fn switch_failure(target_image: &str, status: &str) -> (r: String)
    ensures
        r@ == "bootc switch "@ + target_image@ + " failed (exit "@ + status@ + ")"@,
{
    let mut m: String = "bootc switch ".to_owned();
    m.append(target_image);
    m.append(" failed (exit ");
    m.append(status);
    m.append(")");
    m
}

/// What the status of bootc says of a switch: that the target is staged, or why
/// it is not.
pub fn stage_via_bootc_switch(
    target_image: &str,
    status_succeeded: bool,
    stdout: &[u8],
    stderr: &str,
) -> (r: Result<String, String>)
    ensures
        if !status_succeeded {
            r is Err && r->Err_0@ == "bootc status failed after switch: "@ + trim(stderr@)
        } else {
            match json_document(stdout@) {
                Err(e) => r is Err && r->Err_0@ == "parsing bootc status json: "@ + e,
                Ok(texts) => match staging_verdict(
                    target_image@,
                    text_in(texts, staged_image_pointer()),
                ) {
                    Ok(m) => r is Ok && r->Ok_0@ == m,
                    Err(m) => r is Err && r->Err_0@ == m,
                },
            }
        },
{
    if !status_succeeded {
        let mut m: String = "bootc status failed after switch: ".to_owned();
        m.append(trimmed(stderr).as_str());
        return Err(m);
    }
    match parse_json(stdout) {
        Err(e) => {
            let mut m: String = "parsing bootc status json: ".to_owned();
            m.append(e.as_str());
            Err(m)
        },
        Ok(json) => match staged_image_from_status(&json) {
            Some(img) => check_staged(target_image, Some(img.as_str())),
            None => check_staged(target_image, None),
        },
    }
}

/// What the deployments of a composefs host are staged under.
pub const COMPOSEFS_DEPLOY_ROOT: &'static str = "/sysroot/state/deploy";

/// What follows `composefs=` in the first argument that begins so.
pub open spec fn composefs_argument(args: Seq<Seq<char>>) -> Option<Seq<char>>
    decreases args.len(),
{
    if args.len() == 0 {
        None
    } else if begins(args[0], "composefs="@) {
        after(args[0], "composefs="@)
    } else {
        composefs_argument(args.skip(1))
    }
}

/// The digest that the kernel was booted with. A question mark before it is no
/// part of it.
pub open spec fn booted_verity(cmdline: Seq<char>) -> Option<Seq<char>> {
    match composefs_argument(fields(cmdline)) {
        Some(v) => if trim_start_char(v, '?').len() > 0 {
            Some(trim_start_char(v, '?'))
        } else {
            None
        },
        None => None,
    }
}

/// The digest that the kernel was booted with, from its command line.
pub fn booted_composefs_verity(cmdline: &str) -> (r: Option<String>)
    ensures
        r.deep_view() == booted_verity(cmdline@),
{
    let args: Vec<String> = fields_of(cmdline);
    let ghost all = args.deep_view();
    let mut i: usize = 0;
    assert(all.skip(0) =~= all);
    while i < args.len()
        invariant
            all == args.deep_view(),
            all == fields(cmdline@),
            i <= args@.len(),
            composefs_argument(all) == composefs_argument(all.skip(i as int)),
        decreases args@.len() - i,
    {
        proof {
            assert(all.skip(i as int)[0] == args@[i as int]@);
            assert(all.skip(i as int).skip(1) =~= all.skip(i + 1));
        }
        match strip_prefix(args[i].as_str(), "composefs=") {
            Some(v) => {
                let digest: String = trimmed_start_char(v.as_str(), '?');
                if digest.as_str().unicode_len() > 0 {
                    return Some(digest);
                }
                return None;
            },
            None => {},
        }
        i = i + 1;
    }
    None
}

/// The latest of the deployments other than the booted one. Of two of one time
/// the latter counts.
pub open spec fn latest_other(
    candidates: Seq<(Seq<char>, u64)>,
    booted: Option<Seq<char>>,
) -> Option<(Seq<char>, u64)>
    decreases candidates.len(),
{
    if candidates.len() == 0 {
        None
    } else {
        let best = latest_other(candidates.drop_last(), booted);
        let c = candidates.last();
        if Some(c.0) == booted {
            best
        } else {
            match best {
                Some(b) => if c.1 >= b.1 {
                    Some(c)
                } else {
                    best
                },
                None => Some(c),
            }
        }
    }
}

/// The digest of the staged deployment: what bootc reports, or else the latest of
/// the deployments other than the booted one.
pub open spec fn staged_verity(
    reported: Option<Seq<char>>,
    booted: Option<Seq<char>>,
    candidates: Seq<(Seq<char>, u64)>,
) -> Option<Seq<char>> {
    if reported is Some && reported->0.len() > 0 {
        reported
    } else {
        match latest_other(candidates, booted) {
            Some(c) => Some(c.0),
            None => None,
        }
    }
}

/// Whether the name is that of the booted deployment.
fn is_booted(name: &str, booted: &Option<String>) -> (r: bool)
    ensures
        r == (Some(name@) == booted.deep_view()),
{
    match booted {
        Some(b) => same(name, b.as_str()),
        None => false,
    }
}

/// The digest of the staged deployment. `candidates` are the deployments that
/// have an origin, with their times of change.
pub fn pick_staged_verity(
    reported: &Option<String>,
    booted: &Option<String>,
    candidates: &[(String, u64)],
) -> (r: Option<String>)
    ensures
        r.deep_view() == staged_verity(
            reported.deep_view(),
            booted.deep_view(),
            candidates.deep_view(),
        ),
{
    match reported {
        Some(v) => {
            if v.as_str().unicode_len() > 0 {
                return Some(v.clone());
            }
        },
        None => {},
    }
    let ghost all = candidates.deep_view();
    let mut best: Option<(String, u64)> = None;
    let mut i: usize = 0;
    assert(all.take(0) =~= Seq::empty());
    while i < candidates.len()
        invariant
            all == candidates.deep_view(),
            i <= candidates@.len(),
            best.deep_view() == latest_other(all.take(i as int), booted.deep_view()),
        decreases candidates@.len() - i,
    {
        proof {
            assert(all.take(i + 1).drop_last() =~= all.take(i as int));
            assert(all.take(i + 1).last() == candidates@[i as int].deep_view());
        }
        let name: &String = &candidates[i].0;
        if !is_booted(name.as_str(), booted) {
            let later: bool = match &best {
                Some((_, t)) => candidates[i].1 >= *t,
                None => true,
            };
            if later {
                best = Some((name.clone(), candidates[i].1));
            }
        }
        i = i + 1;
    }
    assert(all.take(i as int) =~= all);
    match best {
        Some((name, _)) => Some(name),
        None => None,
    }
}

/// The booted deployment is never taken for the staged one, unless bootc itself
/// reports it.
pub proof fn law_the_booted_deployment_is_not_picked(
    reported: Option<Seq<char>>,
    booted: Seq<char>,
    candidates: Seq<(Seq<char>, u64)>,
)
    requires
        reported is None || reported->0.len() == 0,
    ensures
        staged_verity(reported, Some(booted), candidates) != Some(booted),
    decreases candidates.len(),
{
    if candidates.len() > 0 {
        law_the_booted_deployment_is_not_picked(reported, booted, candidates.drop_last());
    }
}

/// What bootc reports as the digest of the staged deployment. A status that
/// cannot be read reports none.
pub open spec fn reported_verity(stdout: Seq<u8>) -> Option<Seq<char>> {
    match json_document(stdout) {
        Ok(texts) => text_in(texts, "/status/staged/composefs/verity"@),
        Err(_) => None,
    }
}

/// The directory of the deployment that was just staged on a composefs host, from
/// the status of bootc, the kernel's command line and the deployments with an
/// origin.
pub fn staged_composefs_deployment(
    status_stdout: &[u8],
    cmdline: &str,
    candidates: &[(String, u64)],
) -> (r: Result<String, String>)
    ensures
        match staged_verity(
            reported_verity(status_stdout@),
            booted_verity(cmdline@),
            candidates.deep_view(),
        ) {
            Some(v) => r is Ok && r->Ok_0@ == join_path("/sysroot/state/deploy"@, v),
            None => r is Err && r->Err_0@
                == "no staged composefs deployment found beside the booted one"@,
        },
{
    let reported: Option<String> = match parse_json(status_stdout) {
        Ok(json) => text_at(&json, "/status/staged/composefs/verity"),
        Err(_) => None,
    };
    let booted: Option<String> = booted_composefs_verity(cmdline);
    match pick_staged_verity(&reported, &booted, candidates) {
        Some(v) => Ok(path_join("/sysroot/state/deploy", v.as_str())),
        None => Err("no staged composefs deployment found beside the booted one".to_owned()),
    }
}

/// What has the staged deployment set its labels on the first boot.
#[derive(Debug, Clone, PartialEq, Eq)]
pub struct RelabelPlan {
    /// The staged `/etc`.
    pub etc: String,
    /// The unit that sets the labels.
    pub unit: String,
    /// What is labelled now, so that the booting system can read it.
    pub labels: Vec<(String, String)>,
    /// What is said.
    pub notice: String,
}

/// What is labelled at once.
pub open spec fn early_labels(etc: Seq<char>) -> Seq<(Seq<char>, Seq<char>)> {
    let unit_dir = join_path(etc, "systemd/system"@);
    let wants_dir = join_path(unit_dir, "sysinit.target.wants"@);
    let unit_context = "system_u:object_r:systemd_unit_file_t:s0"@;
    let etc_context = "system_u:object_r:etc_t:s0"@;
    seq![
        (join_path(unit_dir, "bootc-migrate-cross-family-firstboot.service"@), unit_context),
        (wants_dir, unit_context),
        (join_path(wants_dir, "bootc-migrate-cross-family-firstboot.service"@), unit_context),
        (join_path(etc, "bootc-migrate"@), etc_context),
        (join_path(etc, "bootc-migrate/cross-family-firstboot"@), etc_context),
    ]
}

/// What is labelled at once.
fn labels_under(etc: &str) -> (r: Vec<(String, String)>)
    ensures
        r.deep_view() == early_labels(etc@),
{
    let unit_dir: String = path_join(etc, "systemd/system");
    let wants_dir: String = path_join(unit_dir.as_str(), "sysinit.target.wants");
    let unit_context: &str = "system_u:object_r:systemd_unit_file_t:s0";
    let etc_context: &str = "system_u:object_r:etc_t:s0";
    let mut r: Vec<(String, String)> = Vec::new();
    r.push(
        (
            path_join(unit_dir.as_str(), "bootc-migrate-cross-family-firstboot.service"),
            unit_context.to_owned(),
        ),
    );
    r.push((wants_dir.clone(), unit_context.to_owned()));
    r.push(
        (
            path_join(wants_dir.as_str(), "bootc-migrate-cross-family-firstboot.service"),
            unit_context.to_owned(),
        ),
    );
    r.push((path_join(etc, "bootc-migrate"), etc_context.to_owned()));
    r.push((path_join(etc, "bootc-migrate/cross-family-firstboot"), etc_context.to_owned()));
    assert(r.deep_view() =~= early_labels(etc@));
    r
}

/// What has the staged deployment set its labels on the first boot, where the
/// target enforces a policy that the host did not label for.
pub fn schedule_staged_composefs_relabel(
    deploy: &str,
    host: Option<&SelinuxConfig>,
    target: Option<&SelinuxConfig>,
) -> (r: Option<RelabelPlan>)
    ensures
        r is Some <==> needs_relabel(config_view(host), config_view(target)),
        match r {
            Some(p) => {
                &&& p.etc@ == join_path(deploy@, "etc"@)
                &&& p.unit@ == firstboot_unit(Seq::empty(), true)
                &&& p.labels.deep_view() == early_labels(join_path(deploy@, "etc"@))
                &&& p.notice@
                    == "[selinux] the target enforces SELinux and the host labelled nothing for it: bootc-migrate-cross-family-firstboot.service will relabel /etc and /var on first boot"@
            },
            None => true,
        },
{
    if !relabel_needed(host, target) {
        return None;
    }
    match render_firstboot_unit(&[], true) {
        None => None,
        Some(unit) => {
            let etc: String = path_join(deploy, "etc");
            let labels: Vec<(String, String)> = labels_under(etc.as_str());
            Some(
                RelabelPlan {
                    etc,
                    unit,
                    labels,
                    notice: "[selinux] the target enforces SELinux and the host labelled nothing for it: bootc-migrate-cross-family-firstboot.service will relabel /etc and /var on first boot".to_owned(),
                },
            )
        },
    }
}

/// What is said where a label could not be set.
pub fn label_warning(path: &str, context: &str, error: &str) -> (r: String)
    ensures
        r@ == "Warning: could not label "@ + path@ + " as "@ + context@ + ": "@ + error@,
{
    let mut m: String = "Warning: could not label ".to_owned();
    m.append(path);
    m.append(" as ");
    m.append(context);
    m.append(": ");
    m.append(error);
    m
}

/// The record of a staged deployment that is not finalized yet.
pub const STAGED_DEPLOYMENT_MARKER: &'static str = "/run/ostree/staged-deployment";

/// One move of the finalization.
#[derive(Debug, Clone, PartialEq, Eq)]
pub enum FinalizeAction {
    /// Tell the user on the error output.
    Warn(String),
    /// Run the first command, and the other where it fails. Neither stops.
    Either { first: Vec<String>, otherwise: Vec<String> },
    Say(String),
    /// Run the command. Where it cannot be started, stop with `context` and the
    /// reason; where it fails, stop with [`finalize_failure`].
    Run { argv: Vec<String>, context: String },
    /// Stop where [`finalize_verdict`] refuses the output of
    /// `ostree admin status`.
    Verify,
}

/// What a [`FinalizeAction`] holds.
#[verifier::ext_equal]
pub enum FinalizeActionView {
    Warn(Seq<char>),
    Either { first: Seq<Seq<char>>, otherwise: Seq<Seq<char>> },
    Say(Seq<char>),
    Run { argv: Seq<Seq<char>>, context: Seq<char> },
    Verify,
}

impl DeepView for FinalizeAction {
    type V = FinalizeActionView;

    open spec fn deep_view(&self) -> FinalizeActionView {
        match self {
            FinalizeAction::Warn(s) => FinalizeActionView::Warn(s@),
            FinalizeAction::Either { first, otherwise } => FinalizeActionView::Either {
                first: first.deep_view(),
                otherwise: otherwise.deep_view(),
            },
            FinalizeAction::Say(s) => FinalizeActionView::Say(s@),
            FinalizeAction::Run { argv, context } => FinalizeActionView::Run {
                argv: argv.deep_view(),
                context: context@,
            },
            FinalizeAction::Verify => FinalizeActionView::Verify,
        }
    }
}

/// What mounts `/boot`, where it is not mounted.
pub open spec fn boot_mount_moves(mounted: bool) -> Seq<FinalizeActionView> {
    if mounted {
        Seq::empty()
    } else {
        seq![
            FinalizeActionView::Warn(
                "Note: /boot is not mounted; mounting it before finalization (#262)."@,
            ),
            FinalizeActionView::Either {
                first: seq!["systemctl"@, "start"@, "boot.mount"@],
                otherwise: seq!["mount"@, "/boot"@],
            },
        ]
    }
}

/// The moves of the finalization. Stopping the unit that waits for the shutdown
/// runs what it would have run then; without it, the command is run.
pub open spec fn finalize_moves(
    staged: bool,
    boot_mounted: bool,
    unit_active: bool,
) -> Seq<FinalizeActionView> {
    if !staged {
        Seq::empty()
    } else {
        boot_mount_moves(boot_mounted) + seq![
            FinalizeActionView::Say(
                "Finalizing the staged deployment now (writing the bootloader entries)..."@,
            ),
            if unit_active {
                FinalizeActionView::Run {
                    argv: seq!["systemctl"@, "stop"@, "ostree-finalize-staged.service"@],
                    context: "failed to execute systemctl stop ostree-finalize-staged.service"@,
                }
            } else {
                FinalizeActionView::Run {
                    argv: seq!["ostree"@, "admin"@, "finalize-staged"@],
                    context: "failed to execute ostree admin finalize-staged"@,
                }
            },
            FinalizeActionView::Verify,
        ]
    }
}

/// Adds what mounts `/boot`, where it is not mounted.
fn ensure_boot_mounted(mounted: bool) -> (r: Vec<FinalizeAction>)
    ensures
        r.deep_view() == boot_mount_moves(mounted),
{
    let mut r: Vec<FinalizeAction> = Vec::new();
    if !mounted {
        let first: Vec<String> = owned_all(&["systemctl", "start", "boot.mount"]);
        let otherwise: Vec<String> = owned_all(&["mount", "/boot"]);
        assert(first.deep_view() =~= seq!["systemctl"@, "start"@, "boot.mount"@]);
        assert(otherwise.deep_view() =~= seq!["mount"@, "/boot"@]);
        r.push(
            FinalizeAction::Warn(
                "Note: /boot is not mounted; mounting it before finalization (#262).".to_owned(),
            ),
        );
        r.push(FinalizeAction::Either { first, otherwise });
    }
    assert(r.deep_view() =~= boot_mount_moves(mounted));
    r
}

/// The moves of the finalization. Without a staged deployment there are none.
pub fn finalize_staged_now(staged: bool, boot_mounted: bool, unit_active: bool) -> (r: Vec<
    FinalizeAction,
>)
    ensures
        r.deep_view() == finalize_moves(staged, boot_mounted, unit_active),
{
    if !staged {
        let r: Vec<FinalizeAction> = Vec::new();
        assert(r.deep_view() =~= Seq::empty());
        return r;
    }
    let mut r: Vec<FinalizeAction> = ensure_boot_mounted(boot_mounted);
    let ghost before = r.deep_view();
    r.push(
        FinalizeAction::Say(
            "Finalizing the staged deployment now (writing the bootloader entries)...".to_owned(),
        ),
    );
    if unit_active {
        let argv: Vec<String> = owned_all(&["systemctl", "stop", "ostree-finalize-staged.service"]);
        assert(argv.deep_view() =~= seq!["systemctl"@, "stop"@, "ostree-finalize-staged.service"@]);
        r.push(
            FinalizeAction::Run {
                argv,
                context: "failed to execute systemctl stop ostree-finalize-staged.service".to_owned(),
            },
        );
    } else {
        let argv: Vec<String> = owned_all(&["ostree", "admin", "finalize-staged"]);
        assert(argv.deep_view() =~= seq!["ostree"@, "admin"@, "finalize-staged"@]);
        r.push(
            FinalizeAction::Run {
                argv,
                context: "failed to execute ostree admin finalize-staged".to_owned(),
            },
        );
    }
    r.push(FinalizeAction::Verify);
    assert(r.deep_view() =~= finalize_moves(staged, boot_mounted, unit_active));
    r
}

/// The error of a finalization that ended with the status.
pub fn finalize_failure(status: &str) -> (r: String)
    ensures
        r@ == "finalizing the staged deployment failed (exit "@ + status@
            + "); the previous deployment would boot next. See `journalctl -u ostree-finalize-staged.service` and https://github.com/ostreedev/ostree/issues/3365."@,
{
    let mut m: String = "finalizing the staged deployment failed (exit ".to_owned();
    m.append(status);
    m.append(
        "); the previous deployment would boot next. See `journalctl -u ostree-finalize-staged.service` and https://github.com/ostreedev/ostree/issues/3365.",
    );
    m
}

/// How the deployment that is not booted stands.
#[derive(Debug, Clone, Copy, PartialEq, Eq, Structural)]
pub enum FinalizedState {
    /// It is finalized and boots next.
    Pending,
    /// It is still staged.
    StillStaged,
    /// There is none.
    NoOtherDeployment,
}

/// Whether a line ends so, up to white space.
pub open spec fn some_line_ends(ls: Seq<Seq<char>>, end: Seq<char>) -> bool {
    exists|i: int| 0 <= i < ls.len() && finishes(trim(#[trigger] ls[i]), end)
}

/// How the deployment stands, by the status of OSTree.
pub open spec fn state_after(status: Seq<char>) -> FinalizedState {
    if some_line_ends(lines(status), "(staged)"@) {
        FinalizedState::StillStaged
    } else if some_line_ends(lines(status), "(pending)"@) {
        FinalizedState::Pending
    } else {
        FinalizedState::NoOtherDeployment
    }
}

/// Whether a line ends so, up to white space.
fn any_line_ends(text: &str, end: &str) -> (r: bool)
    ensures
        r == some_line_ends(lines(text@), end@),
{
    let ls: Vec<String> = lines_of(text);
    let ghost all = ls.deep_view();
    let mut i: usize = 0;
    while i < ls.len()
        invariant
            all == ls.deep_view(),
            all == lines(text@),
            i <= ls@.len(),
            forall|k: int| 0 <= k < i ==> !finishes(trim(#[trigger] all[k]), end@),
        decreases ls@.len() - i,
    {
        let t: String = trimmed(ls[i].as_str());
        assert(all[i as int] == ls@[i as int]@);
        if ends_with(t.as_str(), end) {
            return true;
        }
        i = i + 1;
    }
    false
}

/// How the deployment stands, by the output of `ostree admin status`.
pub fn finalized_state(status_stdout: &str) -> (r: FinalizedState)
    ensures
        r == state_after(status_stdout@),
{
    if any_line_ends(status_stdout, "(staged)") {
        FinalizedState::StillStaged
    } else if any_line_ends(status_stdout, "(pending)") {
        FinalizedState::Pending
    } else {
        FinalizedState::NoOtherDeployment
    }
}

/// What is said where the deployment boots next, and the error where it does not.
pub fn finalize_verdict(status_stdout: &str) -> (r: Result<String, String>)
    ensures
        match state_after(status_stdout@) {
            FinalizedState::Pending => r is Ok && r->Ok_0@
                == "Staged deployment finalized: it is the pending boot target."@,
            FinalizedState::StillStaged => r is Err && r->Err_0@
                == "the deployment is still staged after finalization; the previous deployment would boot next"@,
            FinalizedState::NoOtherDeployment => r is Err && r->Err_0@
                == "no pending deployment after finalization:\n"@ + trim(status_stdout@),
        },
{
    match finalized_state(status_stdout) {
        FinalizedState::Pending => Ok(
            "Staged deployment finalized: it is the pending boot target.".to_owned(),
        ),
        FinalizedState::StillStaged => Err(
            "the deployment is still staged after finalization; the previous deployment would boot next".to_owned(),
        ),
        FinalizedState::NoOtherDeployment => {
            let mut m: String = "no pending deployment after finalization:\n".to_owned();
            m.append(trimmed(status_stdout).as_str());
            Err(m)
        },
    }
}

} // verus!

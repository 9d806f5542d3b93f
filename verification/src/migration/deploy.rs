//! The phase that stages the deployment: what is done, in which order, and what
//! is said of it.

use vstd::prelude::*;

use crate::migration::deploy_layout::DeploymentLayout;
use crate::migration::target_compat::NetworkManagerBackendCompat;
use crate::text::numbers::{decimal, decimal_of};

verus! {

/// One move of the phase.
#[derive(Debug, Clone, PartialEq, Eq)]
pub enum DeployAction {
    Say(String),
    /// Bring the GBM paths of a deployment that is staged already up to date.
    RefreshGbm,
    /// Bring its Wi-Fi backend up to date.
    RefreshNetwork,
    /// Create the directories.
    CreateDirs,
    /// Merge `/etc`.
    MergeEtc,
    /// Relieve the merged `/etc` of a Wi-Fi backend that the target lacks.
    NetworkCompat,
    /// Point `/var` at the shared one.
    LinkVar,
    WriteOrigin,
    WriteImginfo,
    /// Bring the state of `/var` over.
    MigrateVar,
    /// Install the mount of the store that the running system needs.
    InstallRuntimeMount,
}

/// What a [`DeployAction`] holds.
#[verifier::ext_equal]
pub enum DeployActionView {
    Say(Seq<char>),
    RefreshGbm,
    RefreshNetwork,
    CreateDirs,
    MergeEtc,
    NetworkCompat,
    LinkVar,
    WriteOrigin,
    WriteImginfo,
    MigrateVar,
    InstallRuntimeMount,
}

impl DeepView for DeployAction {
    type V = DeployActionView;

    open spec fn deep_view(&self) -> DeployActionView {
        match self {
            DeployAction::Say(s) => DeployActionView::Say(s@),
            DeployAction::RefreshGbm => DeployActionView::RefreshGbm,
            DeployAction::RefreshNetwork => DeployActionView::RefreshNetwork,
            DeployAction::CreateDirs => DeployActionView::CreateDirs,
            DeployAction::MergeEtc => DeployActionView::MergeEtc,
            DeployAction::NetworkCompat => DeployActionView::NetworkCompat,
            DeployAction::LinkVar => DeployActionView::LinkVar,
            DeployAction::WriteOrigin => DeployActionView::WriteOrigin,
            DeployAction::WriteImginfo => DeployActionView::WriteImginfo,
            DeployAction::MigrateVar => DeployActionView::MigrateVar,
            DeployAction::InstallRuntimeMount => DeployActionView::InstallRuntimeMount,
        }
    }
}

/// The moves of staging afresh, or anew over what is there.
pub open spec fn staging_moves(again: bool, decisions: Option<usize>) -> Seq<DeployActionView> {
    (if again {
        seq![
            DeployActionView::Say(
                "[phase4] --force: refreshing the existing staged deployment."@,
            ),
        ]
    } else {
        Seq::empty()
    }) + seq![
        DeployActionView::CreateDirs,
        DeployActionView::Say("Performing 3-way /etc merge..."@),
    ] + (match decisions {
        Some(n) => seq![
            DeployActionView::Say(
                "[phase4] applying "@ + decimal(n as nat)
                    + " Config Drift Review decision(s) to the /etc merge"@,
            ),
        ],
        None => Seq::empty(),
    }) + seq![
        DeployActionView::MergeEtc,
        DeployActionView::NetworkCompat,
        DeployActionView::LinkVar,
        DeployActionView::WriteOrigin,
        DeployActionView::WriteImginfo,
        DeployActionView::MigrateVar,
        DeployActionView::InstallRuntimeMount,
    ]
}

/// The moves of the phase. `decisions` counts the decisions on `/etc` that were
/// made beforehand, where any were.
pub open spec fn phase4_moves(
    deploy_dir: Seq<char>,
    already_staged: bool,
    dry_run: bool,
    force: bool,
    decisions: Option<usize>,
) -> Seq<DeployActionView> {
    seq![DeployActionView::Say("=== Phase 4: Staging Deployment State ==="@)] + (if dry_run {
        seq![DeployActionView::Say("[DRY RUN] Would stage deployment at: "@ + deploy_dir)]
    } else if already_staged && !force {
        seq![
            DeployActionView::RefreshGbm,
            DeployActionView::RefreshNetwork,
            DeployActionView::Say(
                "Deployment already staged at "@ + deploy_dir + ". Skipping Phase 4."@,
            ),
        ]
    } else {
        staging_moves(already_staged, decisions)
    })
}

/// Adds the moves of staging to the list.
fn push_staging(list: &mut Vec<DeployAction>, again: bool, decisions: Option<usize>)
    ensures
        final(list).deep_view() == old(list).deep_view() + staging_moves(again, decisions),
{
    let ghost before = list.deep_view();
    if again {
        list.push(
            DeployAction::Say(
                "[phase4] --force: refreshing the existing staged deployment.".to_owned(),
            ),
        );
    }
    list.push(DeployAction::CreateDirs);
    list.push(DeployAction::Say("Performing 3-way /etc merge...".to_owned()));
    if let Some(n) = decisions {
        let mut m: String = "[phase4] applying ".to_owned();
        m.append(decimal_of(n as u64).as_str());
        m.append(" Config Drift Review decision(s) to the /etc merge");
        list.push(DeployAction::Say(m));
    }
    list.push(DeployAction::MergeEtc);
    list.push(DeployAction::NetworkCompat);
    list.push(DeployAction::LinkVar);
    list.push(DeployAction::WriteOrigin);
    list.push(DeployAction::WriteImginfo);
    list.push(DeployAction::MigrateVar);
    list.push(DeployAction::InstallRuntimeMount);
    assert(list.deep_view() =~= before + staging_moves(again, decisions));
}

/// The moves of the phase. A dry run only says where it would stage, and a
/// deployment that is staged already is left alone, up to what later fixes bring
/// to it.
pub fn phase4_stage_deploy(
    layout: &DeploymentLayout,
    dry_run: bool,
    force: bool,
    decisions: Option<usize>,
) -> (r: Vec<DeployAction>)
    ensures
        r.deep_view() == phase4_moves(
            layout.deploy_dir@,
            layout.already_staged,
            dry_run,
            force,
            decisions,
        ),
{
    let mut r: Vec<DeployAction> = Vec::new();
    r.push(DeployAction::Say("=== Phase 4: Staging Deployment State ===".to_owned()));
    if dry_run {
        let mut m: String = "[DRY RUN] Would stage deployment at: ".to_owned();
        m.append(layout.deploy_dir.as_str());
        r.push(DeployAction::Say(m));
        assert(r.deep_view() =~= phase4_moves(
            layout.deploy_dir@,
            layout.already_staged,
            dry_run,
            force,
            decisions,
        ));
        return r;
    }
    if layout.already_staged && !force {
        r.push(DeployAction::RefreshGbm);
        r.push(DeployAction::RefreshNetwork);
        let mut m: String = "Deployment already staged at ".to_owned();
        m.append(layout.deploy_dir.as_str());
        m.append(". Skipping Phase 4.");
        r.push(DeployAction::Say(m));
        assert(r.deep_view() =~= phase4_moves(
            layout.deploy_dir@,
            layout.already_staged,
            dry_run,
            force,
            decisions,
        ));
        return r;
    }
    assert(r.deep_view() =~= seq![
        DeployActionView::Say("=== Phase 4: Staging Deployment State ==="@),
    ]);
    push_staging(&mut r, layout.already_staged, decisions);
    r
}

/// Whether the failure of the move stops the phase. What the deployment can do
/// without is only attempted.
pub open spec fn is_essential(a: DeployActionView) -> bool {
    !(a is RefreshGbm || a is WriteImginfo || a is InstallRuntimeMount)
}

/// Whether the failure of the move stops the phase.
pub fn essential(action: &DeployAction) -> (r: bool)
    ensures
        r == is_essential(action.deep_view()),
{
    !matches!(
        action,
        DeployAction::RefreshGbm | DeployAction::WriteImginfo | DeployAction::InstallRuntimeMount
    )
}

/// A dry run of the phase changes nothing.
pub proof fn law_dry_staging_is_quiet(
    deploy_dir: Seq<char>,
    already_staged: bool,
    force: bool,
    decisions: Option<usize>,
    i: int,
)
    requires
        0 <= i < phase4_moves(deploy_dir, already_staged, true, force, decisions).len(),
    ensures
        phase4_moves(deploy_dir, already_staged, true, force, decisions)[i] is Say,
{
}

/// The origin, which makes a deployment count as staged, is written only behind
/// the merge of `/etc`: a run that fails before is not taken for one that is
/// done.
pub proof fn law_origin_follows_the_merge(
    deploy_dir: Seq<char>,
    already_staged: bool,
    dry_run: bool,
    force: bool,
    decisions: Option<usize>,
    i: int,
)
    requires
        0 <= i < phase4_moves(deploy_dir, already_staged, dry_run, force, decisions).len(),
        phase4_moves(deploy_dir, already_staged, dry_run, force, decisions)[i] is WriteOrigin,
    ensures
        exists|j: int|
            0 <= j < i && #[trigger] phase4_moves(
                deploy_dir,
                already_staged,
                dry_run,
                force,
                decisions,
            )[j] is MergeEtc,
{
    let moves = phase4_moves(deploy_dir, already_staged, dry_run, force, decisions);
    let k: int = 3 + (if already_staged {
        1int
    } else {
        0
    }) + (if decisions is Some {
        1int
    } else {
        0
    });
    assert(moves[k] is MergeEtc);
    assert(i == k + 3);
}

/// What is said of the merge of `/etc`.
pub open spec fn merge_lines(fell_back: bool, removed: nat) -> Seq<Seq<char>> {
    (if fell_back {
        seq![
            "[phase4] /etc came from a flat copy of the live tree; target-specific /etc cleanup was skipped"@,
        ]
    } else {
        Seq::empty()
    }) + (if removed > 0 {
        seq![
            "[phase4] removed "@ + decimal(removed)
                + " host root or /var mount(s) from the target /etc/fstab"@,
        ]
    } else {
        Seq::empty()
    })
}

/// What is said of the merge of `/etc`: whether it was a bare copy, and how many
/// mounts of the host it left out.
pub fn etc_merge_lines(fell_back_to_flat_copy: bool, removed_host_mounts: usize) -> (r: Vec<String>)
    ensures
        r.deep_view() == merge_lines(fell_back_to_flat_copy, removed_host_mounts as nat),
{
    let mut r: Vec<String> = Vec::new();
    if fell_back_to_flat_copy {
        r.push(
            "[phase4] /etc came from a flat copy of the live tree; target-specific /etc cleanup was skipped".to_owned(),
        );
    }
    if removed_host_mounts > 0 {
        let mut m: String = "[phase4] removed ".to_owned();
        m.append(decimal_of(removed_host_mounts as u64).as_str());
        m.append(" host root or /var mount(s) from the target /etc/fstab");
        r.push(m);
    }
    assert(r.deep_view() =~= merge_lines(fell_back_to_flat_copy, removed_host_mounts as nat));
    r
}

/// What is said of the Wi-Fi backend. `staged` tells a deployment that was
/// staged before from one that is being staged.
pub open spec fn compat_lines(compat: NetworkManagerBackendCompat, staged: bool) -> Seq<Seq<char>> {
    (if compat.removed_iwd_settings > 0 {
        seq![
            "[phase4] removed "@ + decimal(compat.removed_iwd_settings as nat) + (if staged {
                " incompatible source NetworkManager iwd setting(s) from the staged target"@
            } else {
                " incompatible source NetworkManager iwd setting(s); the target will use its default Wi-Fi backend"@
            }),
        ]
    } else {
        Seq::empty()
    }) + (if compat.removed_wpa_supplicant_mask {
        seq![
            if staged {
                "[phase4] removed the source wpa_supplicant mask so the target's NetworkManager can activate its default Wi-Fi backend"@
            } else {
                "[phase4] removed the source wpa_supplicant mask so the target can activate its default Wi-Fi backend"@
            },
        ]
    } else {
        Seq::empty()
    })
}

/// What is said of the Wi-Fi backend.
pub fn network_compat_lines(compat: NetworkManagerBackendCompat, staged: bool) -> (r: Vec<String>)
    ensures
        r.deep_view() == compat_lines(compat, staged),
{
    let mut r: Vec<String> = Vec::new();
    if compat.removed_iwd_settings > 0 {
        let mut m: String = "[phase4] removed ".to_owned();
        m.append(decimal_of(compat.removed_iwd_settings as u64).as_str());
        if staged {
            m.append(" incompatible source NetworkManager iwd setting(s) from the staged target");
        } else {
            m.append(
                " incompatible source NetworkManager iwd setting(s); the target will use its default Wi-Fi backend",
            );
        }
        r.push(m);
    }
    if compat.removed_wpa_supplicant_mask {
        if staged {
            r.push(
                "[phase4] removed the source wpa_supplicant mask so the target's NetworkManager can activate its default Wi-Fi backend".to_owned(),
            );
        } else {
            r.push(
                "[phase4] removed the source wpa_supplicant mask so the target can activate its default Wi-Fi backend".to_owned(),
            );
        }
    }
    assert(r.deep_view() =~= compat_lines(compat, staged));
    r
}

/// What came of bringing the GBM paths up to date.
#[derive(Debug, Clone, PartialEq, Eq)]
pub enum GbmRefresh {
    Changed,
    Unchanged,
    Failed(String),
}

/// What is said of the GBM paths. A failure is no more than a warning.
pub fn refresh_staged_compat(outcome: &GbmRefresh) -> (r: Option<String>)
    ensures
        r.deep_view() == (match *outcome {
            GbmRefresh::Changed => Some(
                "[phase4] refreshed Mesa's GBM backend path for the staged NVIDIA target"@,
            ),
            GbmRefresh::Unchanged => None,
            GbmRefresh::Failed(e) => Some(
                "[phase4] warning: failed to refresh staged GBM backend paths: "@ + e@,
            ),
        }),
{
    match outcome {
        GbmRefresh::Changed => Some(
            "[phase4] refreshed Mesa's GBM backend path for the staged NVIDIA target".to_owned(),
        ),
        GbmRefresh::Unchanged => None,
        GbmRefresh::Failed(e) => {
            let mut m: String = "[phase4] warning: failed to refresh staged GBM backend paths: ".to_owned();
            m.append(e.as_str());
            Some(m)
        },
    }
}

} // verus!

//! The state of a system in words, and whether a migration may start.

use vstd::prelude::*;

use crate::preflight::system_info::{status_text, PendingTransactionStatus};
use crate::preflight::PreflightReport;
use crate::rebase_plan::Backend;
use crate::text::numbers::{decimal, decimal_of};

verus! {

/// The least free space that the pull of a desktop image is likely to fit in:
/// 10 GiB. It is a floor and no prediction, since the size of the target is not
/// known before the pull.
pub const MIN_CONTAINER_STORAGE_BYTES: u64 = 10737418240;

/// Whether the pull of the target image is likely to fit.
pub fn container_storage_has_room(free_bytes: u64) -> (r: bool)
    ensures
        r == (free_bytes >= MIN_CONTAINER_STORAGE_BYTES),
{
    free_bytes >= MIN_CONTAINER_STORAGE_BYTES
}

/// The tenths of a GiB nearest to `bytes`, and the even one of two that are
/// equally near.
pub open spec fn nearest_tenths(bytes: int) -> int {
    let whole = bytes * 10 / 1073741824;
    let rest = bytes * 10 % 1073741824;
    if rest > 536870912 || rest == 536870912 && whole % 2 == 1 {
        whole + 1
    } else {
        whole
    }
}

/// `bytes` in GiB, with one digit behind the point.
pub open spec fn gib_text(bytes: int) -> Seq<char> {
    decimal((nearest_tenths(bytes) / 10) as nat) + "."@ + decimal(
        (nearest_tenths(bytes) % 10) as nat,
    )
}

/// `bytes` in GiB, with one digit behind the point.
fn gib(bytes: u64) -> (r: String)
    requires
        bytes < MIN_CONTAINER_STORAGE_BYTES,
    ensures
        r@ == gib_text(bytes as int),
{
    let whole: u64 = bytes * 10 / 1073741824;
    let rest: u64 = bytes * 10 % 1073741824;
    let tenths: u64 = if rest > 536870912 || rest == 536870912 && whole % 2 == 1 {
        whole + 1
    } else {
        whole
    };
    let mut s: String = decimal_of(tenths / 10);
    s.append(".");
    s.append(decimal_of(tenths % 10).as_str());
    s
}

/// The text alone, or nothing.
pub open spec fn text_if(when: bool, text: Seq<char>) -> Seq<Seq<char>> {
    if when {
        seq![text]
    } else {
        Seq::empty()
    }
}

/// Adds `text` to the list, where `when` holds.
fn note(list: &mut Vec<String>, when: bool, text: &str)
    ensures
        final(list).deep_view() == old(list).deep_view() + text_if(when, text@),
{
    if when {
        list.push(text.to_owned());
        assert(list.deep_view() =~= old(list).deep_view() + text_if(when, text@));
    } else {
        assert(list.deep_view() =~= old(list).deep_view() + text_if(when, text@));
    }
}

/// The warning that the pull may not fit.
pub open spec fn low_storage(report: PreflightReport) -> Seq<char> {
    "Low free space on "@ + report.container_storage_path@ + " ("@ + gib_text(
        report.container_storage_free_bytes as int,
    ) + " GB) for the target image pull — recommend >=10 GB."@ + (if report.var_is_separate_mount {
        " /var is a separate volume, so free space on / does not help here."@
    } else {
        ""@
    })
}

/// The warning that the pull may not fit.
fn low_storage_warning(report: &PreflightReport) -> (r: String)
    requires
        report.container_storage_free_bytes < MIN_CONTAINER_STORAGE_BYTES,
    ensures
        r@ == low_storage(*report),
{
    let mut m: String = "Low free space on ".to_owned();
    m.append(report.container_storage_path.as_str());
    m.append(" (");
    m.append(gib(report.container_storage_free_bytes).as_str());
    m.append(" GB) for the target image pull — recommend >=10 GB.");
    if report.var_is_separate_mount {
        m.append(" /var is a separate volume, so free space on / does not help here.");
    } else {
        m.append("");
    }
    m
}

/// What may stand in the way of a migration, one warning for each condition.
pub open spec fn issues(report: PreflightReport) -> Seq<Seq<char>> {
    text_if(
        report.booted_backend is None,
        "Not booted into a bootc deployment — nothing to migrate from."@,
    ) + text_if(
        !report.is_uefi,
        "Legacy BIOS boot detected — systemd-boot unavailable; will stay on GRUB2."@,
    ) + text_if(
        report.is_uefi && !report.nvram_writable,
        "UEFI NVRAM not writable — efibootmgr may fail; systemd-boot may not register."@,
    ) + text_if(
        !report.esp_detected,
        "No ESP found — systemd-boot unavailable; will use GRUB2."@,
    ) + text_if(
        report.is_uefi && report.esp_path is Some && !report.esp_ready_for_systemd_boot,
        "ESP too small for systemd-boot — need >=150 MB free; will use GRUB2 instead."@,
    ) + text_if(
        report.is_uefi && !report.systemd_boot_binaries_present,
        "systemd-boot binaries missing in source OS — migration will extract them from the target image instead."@,
    ) + text_if(
        !report.grub_tools_available,
        "No GRUB tools (grub2-reboot, grub2-editenv) — one-shot boot selection may fail."@,
    ) + text_if(
        !report.supports_reflink,
        "No reflink support — object copies will use 1.5× more disk space."@,
    ) + text_if(
        2 * report.composefs_free_bytes <= 3 * report.ostree_repo_size_bytes
            && report.ostree_repo_size_bytes > 0,
        "Insufficient free space for migration — need >=1.5× repo size (without reflink)."@,
    ) + text_if(
        report.container_storage_free_bytes < MIN_CONTAINER_STORAGE_BYTES,
        low_storage(report),
    )
}

/// What may stand in the way of a migration. Nothing means all clear.
pub fn readiness_issues(report: &PreflightReport) -> (r: Vec<String>)
    ensures
        r.deep_view() == issues(*report),
{
    let mut r: Vec<String> = Vec::new();
    note(
        &mut r,
        report.booted_backend.is_none(),
        "Not booted into a bootc deployment — nothing to migrate from.",
    );
    assert(r.deep_view() =~= text_if(
        report.booted_backend is None,
        "Not booted into a bootc deployment — nothing to migrate from."@,
    ));
    note(
        &mut r,
        !report.is_uefi,
        "Legacy BIOS boot detected — systemd-boot unavailable; will stay on GRUB2.",
    );
    note(
        &mut r,
        report.is_uefi && !report.nvram_writable,
        "UEFI NVRAM not writable — efibootmgr may fail; systemd-boot may not register.",
    );
    note(
        &mut r,
        !report.esp_detected,
        "No ESP found — systemd-boot unavailable; will use GRUB2.",
    );
    note(
        &mut r,
        report.is_uefi && report.esp_path.is_some() && !report.esp_ready_for_systemd_boot,
        "ESP too small for systemd-boot — need >=150 MB free; will use GRUB2 instead.",
    );
    note(
        &mut r,
        report.is_uefi && !report.systemd_boot_binaries_present,
        "systemd-boot binaries missing in source OS — migration will extract them from the target image instead.",
    );
    note(
        &mut r,
        !report.grub_tools_available,
        "No GRUB tools (grub2-reboot, grub2-editenv) — one-shot boot selection may fail.",
    );
    note(
        &mut r,
        !report.supports_reflink,
        "No reflink support — object copies will use 1.5× more disk space.",
    );
    let twice_free: u128 = report.composefs_free_bytes as u128 * 2;
    let thrice_repo: u128 = report.ostree_repo_size_bytes as u128 * 3;
    note(
        &mut r,
        twice_free <= thrice_repo && report.ostree_repo_size_bytes > 0,
        "Insufficient free space for migration — need >=1.5× repo size (without reflink).",
    );
    let low: bool = !container_storage_has_room(report.container_storage_free_bytes);
    let warning: String = if low {
        low_storage_warning(report)
    } else {
        String::new()
    };
    note(&mut r, low, warning.as_str());
    r
}

/// "Yes" or "No".
pub open spec fn yes_no(b: bool) -> Seq<char> {
    if b {
        "Yes"@
    } else {
        "No"@
    }
}

/// "Yes" or "No".
fn yes_or_no(b: bool) -> (r: &'static str)
    ensures
        r@ == yes_no(b),
{
    if b {
        "Yes"
    } else {
        "No"
    }
}

/// The name of the booted backend in a report.
pub open spec fn backend_line(b: Option<Backend>) -> Seq<char> {
    match b {
        Some(Backend::Ostree) => "ostree"@,
        Some(Backend::Composefs) => "composefs (already converted)"@,
        None => "none — not a bootc deployment"@,
    }
}

/// The text, or `other` where there is none.
pub open spec fn text_or(s: Option<Seq<char>>, other: Seq<char>) -> Seq<char> {
    match s {
        Some(t) => t,
        None => other,
    }
}

/// The report in lines. The three sizes come in as text.
pub open spec fn report_text(
    report: PreflightReport,
    esp_free_mb: Seq<char>,
    repo_gb: Seq<char>,
    free_gb: Seq<char>,
) -> Seq<Seq<char>> {
    text_if(true, "  - Booted bootc backend:  "@ + backend_line(report.booted_backend)) + text_if(
        report.pending_transaction != PendingTransactionStatus::Clean,
        "  ⚠ Pending OSTree transaction: "@ + status_text(report.pending_transaction)
            + " — aborting (run `ostree admin undeploy` or complete the update first)"@,
    ) + text_if(
        true,
        "  - UEFI Boot Mode:        "@ + (if report.is_uefi {
            "Yes"@
        } else {
            "No (Legacy BIOS)"@
        }),
    ) + text_if(true, "  - NVRAM writable:        "@ + yes_no(report.nvram_writable)) + text_if(
        true,
        "  - ESP Mounted Path:      "@ + text_or(
            report.esp_path.deep_view(),
            "None — GRUB2-only migration"@,
        ),
    ) + text_if(
        report.esp_fs_type is Some,
        "  - ESP Filesystem:        "@ + text_or(report.esp_fs_type.deep_view(), ""@),
    ) + text_if(true, "  - ESP Free Space:        "@ + esp_free_mb + " MB"@) + text_if(
        true,
        "  - Filesystem:            "@ + text_or(report.fs_type.deep_view(), "unknown"@),
    ) + text_if(true, "  - Btrfs Filesystem:      "@ + yes_no(report.is_btrfs)) + text_if(
        report.sysroot_was_ro,
        "  - /sysroot was RO:       Yes (remounted rw for reflink test)"@,
    ) + text_if(true, "  - Reflink (CoW) Support: "@ + yes_no(report.supports_reflink)) + text_if(
        true,
        "  - OSTree repo size:      "@ + repo_gb + " GB"@,
    ) + text_if(true, "  - ComposeFS free space:  "@ + free_gb + " GB"@) + text_if(
        true,
        "  - GRUB tools available:  "@ + yes_no(report.grub_tools_available),
    ) + text_if(
        true,
        "  - ESP ready for sd-boot: "@ + (if report.esp_ready_for_systemd_boot {
            "Yes (>=150 MB)"@
        } else {
            "No"@
        }),
    ) + text_if(
        true,
        "  - systemd-boot binaries: "@ + (if report.systemd_boot_binaries_present {
            "Yes (/usr/lib/systemd/boot/efi)"@
        } else {
            "No (bootctl install would fail)"@
        }),
    ) + text_if(true, ""@)
}

/// Adds `label` with `value` behind it to the list.
fn put(list: &mut Vec<String>, label: &str, value: &str)
    ensures
        final(list).deep_view() == old(list).deep_view() + text_if(true, label@ + value@),
{
    let mut s: String = label.to_owned();
    s.append(value);
    note(list, true, s.as_str());
}

/// The report in lines. The sizes come in as text, with two digits behind the
/// point: the free space on the EFI system partition in MB, the size of the
/// repository and the free space of the composefs store in GB.
pub fn report_lines(
    report: &PreflightReport,
    esp_free_mb: &str,
    repo_gb: &str,
    free_gb: &str,
) -> (r: Vec<String>)
    ensures
        r.deep_view() == report_text(*report, esp_free_mb@, repo_gb@, free_gb@),
{
    let mut r: Vec<String> = Vec::new();
    let backend: &str = match report.booted_backend {
        Some(Backend::Ostree) => "ostree",
        Some(Backend::Composefs) => "composefs (already converted)",
        None => "none — not a bootc deployment",
    };
    put(&mut r, "  - Booted bootc backend:  ", backend);
    assert(r.deep_view() =~= text_if(
        true,
        "  - Booted bootc backend:  "@ + backend_line(report.booted_backend),
    ));
    let mut pending: String = "  ⚠ Pending OSTree transaction: ".to_owned();
    pending.append(report.pending_transaction.describe().as_str());
    pending.append(" — aborting (run `ostree admin undeploy` or complete the update first)");
    note(
        &mut r,
        report.pending_transaction != PendingTransactionStatus::Clean,
        pending.as_str(),
    );
    put(
        &mut r,
        "  - UEFI Boot Mode:        ",
        if report.is_uefi {
            "Yes"
        } else {
            "No (Legacy BIOS)"
        },
    );
    put(&mut r, "  - NVRAM writable:        ", yes_or_no(report.nvram_writable));
    let esp_path: &str = match &report.esp_path {
        Some(p) => p.as_str(),
        None => "None — GRUB2-only migration",
    };
    put(&mut r, "  - ESP Mounted Path:      ", esp_path);
    let esp_fs_type: &str = match &report.esp_fs_type {
        Some(t) => t.as_str(),
        None => "",
    };
    let mut esp_fs_line: String = "  - ESP Filesystem:        ".to_owned();
    esp_fs_line.append(esp_fs_type);
    note(&mut r, report.esp_fs_type.is_some(), esp_fs_line.as_str());
    let mut esp_line: String = "  - ESP Free Space:        ".to_owned();
    esp_line.append(esp_free_mb);
    esp_line.append(" MB");
    note(&mut r, true, esp_line.as_str());
    let fs_type: &str = match &report.fs_type {
        Some(t) => t.as_str(),
        None => "unknown",
    };
    put(&mut r, "  - Filesystem:            ", fs_type);
    put(&mut r, "  - Btrfs Filesystem:      ", yes_or_no(report.is_btrfs));
    note(
        &mut r,
        report.sysroot_was_ro,
        "  - /sysroot was RO:       Yes (remounted rw for reflink test)",
    );
    put(&mut r, "  - Reflink (CoW) Support: ", yes_or_no(report.supports_reflink));
    let mut repo_line: String = "  - OSTree repo size:      ".to_owned();
    repo_line.append(repo_gb);
    repo_line.append(" GB");
    note(&mut r, true, repo_line.as_str());
    let mut free_line: String = "  - ComposeFS free space:  ".to_owned();
    free_line.append(free_gb);
    free_line.append(" GB");
    note(&mut r, true, free_line.as_str());
    put(&mut r, "  - GRUB tools available:  ", yes_or_no(report.grub_tools_available));
    put(
        &mut r,
        "  - ESP ready for sd-boot: ",
        if report.esp_ready_for_systemd_boot {
            "Yes (>=150 MB)"
        } else {
            "No"
        },
    );
    put(
        &mut r,
        "  - systemd-boot binaries: ",
        if report.systemd_boot_binaries_present {
            "Yes (/usr/lib/systemd/boot/efi)"
        } else {
            "No (bootctl install would fail)"
        },
    );
    note(&mut r, true, "");
    r
}

/// The warnings, each marked as one.
pub open spec fn marked(warnings: Seq<Seq<char>>) -> Seq<Seq<char>> {
    warnings.map_values(|w: Seq<char>| "  ⚠ "@ + w)
}

/// What the bootloader will be, in lines.
pub open spec fn bootloader_text(report: PreflightReport) -> Seq<Seq<char>> {
    if report.esp_ready_for_systemd_boot && report.nvram_writable {
        seq!["\nBootloader: Will migrate to systemd-boot (ESP ready, NVRAM writable)."@]
    } else if report.esp_path is Some {
        seq!["\nBootloader: Will stay on GRUB2 (BLS Type 1)."@] + (
        if report.grub_tools_available {
            Seq::empty()
        } else {
            seq![
                "  WARNING: grub2-reboot not found. Boot selection may not work."@,
                "  The composefs entry will be written but you may need to select it manually"@,
                "  from the GRUB menu on next boot."@,
            ]
        })
    } else {
        seq!["\nBootloader: Will stay on GRUB2 (BLS Type 1) — no ESP detected."@]
    }
}

/// The summary in lines: the warnings, and what the bootloader will be.
pub open spec fn readiness_text(report: PreflightReport) -> Seq<Seq<char>> {
    seq!["=== Migration Readiness ==="@] + (if issues(report).len() == 0 {
        seq!["  ✓ All preflight checks passed."@]
    } else {
        marked(issues(report))
    }) + bootloader_text(report)
}

/// The summary in lines: the warnings, and what the bootloader will be.
pub fn readiness_lines(report: &PreflightReport) -> (r: Vec<String>)
    ensures
        r.deep_view() == readiness_text(*report),
{
    let mut r: Vec<String> = Vec::new();
    r.push("=== Migration Readiness ===".to_owned());
    let found: Vec<String> = readiness_issues(report);
    let ghost all = found.deep_view();
    let ghost head = seq!["=== Migration Readiness ==="@];
    assert(r.deep_view() =~= head);
    if found.len() == 0 {
        r.push("  ✓ All preflight checks passed.".to_owned());
        assert(r.deep_view() =~= head + seq!["  ✓ All preflight checks passed."@]);
    } else {
        let mut i: usize = 0;
        assert(r.deep_view() =~= head + marked(all).take(0));
        while i < found.len()
            invariant
                all == found.deep_view(),
                i <= found@.len(),
                r.deep_view() == head + marked(all).take(i as int),
            decreases found@.len() - i,
        {
            let ghost before = r.deep_view();
            let mut w: String = "  ⚠ ".to_owned();
            w.append(found[i].as_str());
            r.push(w);
            proof {
                assert(all[i as int] == found@[i as int]@);
                assert(r.deep_view() =~= before.push(w@));
                assert(r.deep_view() =~= head + marked(all).take(i + 1));
            }
            i = i + 1;
        }
        assert(marked(all).take(i as int) =~= marked(all));
    }
    let ghost before = r.deep_view();
    if report.esp_ready_for_systemd_boot && report.nvram_writable {
        r.push(
            "\nBootloader: Will migrate to systemd-boot (ESP ready, NVRAM writable).".to_owned(),
        );
    } else if report.esp_path.is_some() {
        r.push("\nBootloader: Will stay on GRUB2 (BLS Type 1).".to_owned());
        if !report.grub_tools_available {
            r.push("  WARNING: grub2-reboot not found. Boot selection may not work.".to_owned());
            r.push(
                "  The composefs entry will be written but you may need to select it manually".to_owned(),
            );
            r.push("  from the GRUB menu on next boot.".to_owned());
        }
    } else {
        r.push("\nBootloader: Will stay on GRUB2 (BLS Type 1) — no ESP detected.".to_owned());
    }
    assert(r.deep_view() =~= before + bootloader_text(*report));
    r
}

/// Whether a migration may start.
#[derive(Debug, Clone, PartialEq, Eq)]
pub enum MigrationGate {
    /// It may.
    Proceed,
    /// The host is on composefs already: there is nothing to convert, and the
    /// image can be swapped instead.
    ImageSwap,
    /// It may, once the user agrees to a full copy of the objects.
    ConfirmFullCopy,
    /// It may not, for the reason given.
    Refuse(String),
}

/// What a [`MigrationGate`] holds.
#[verifier::ext_equal]
pub enum MigrationGateView {
    Proceed,
    ImageSwap,
    ConfirmFullCopy,
    Refuse(Seq<char>),
}

impl DeepView for MigrationGate {
    type V = MigrationGateView;

    open spec fn deep_view(&self) -> MigrationGateView {
        match self {
            MigrationGate::Proceed => MigrationGateView::Proceed,
            MigrationGate::ImageSwap => MigrationGateView::ImageSwap,
            MigrationGate::ConfirmFullCopy => MigrationGateView::ConfirmFullCopy,
            MigrationGate::Refuse(m) => MigrationGateView::Refuse(m@),
        }
    }
}

/// The refusal while an update is under way.
pub open spec fn pending_refusal(s: PendingTransactionStatus) -> Seq<char> {
    "Pending OSTree transaction detected: "@ + status_text(s)
        + ".\nThe OSTree repo has uncommitted state from a previous update. The migration\nwould produce an incomplete composefs image that cannot boot.\n\nTo resolve:\n- If you ran `bootc upgrade` or `rpm-ostree upgrade`, complete it first.\n- If the update was interrupted, run `ostree admin undeploy <index>`\nto remove the pending deployment.\n- Or run `bootc upgrade` to finish/finalize the pending transaction.\n"@
}

/// Whether a migration may start, by the gates in order: a bootc deployment, a
/// backend to convert, no update under way, and reflinks. `force` waives all
/// but the second; `skip_preflight` waives the third.
pub open spec fn gate_of(
    report: PreflightReport,
    force: bool,
    skip_preflight: bool,
) -> MigrationGateView {
    if report.booted_backend is None && !force {
        MigrationGateView::Refuse(
            "System is not booted into a bootc deployment (neither ostree nor composefs). Cannot perform migration."@,
        )
    } else if report.booted_backend == Some(Backend::Composefs) {
        MigrationGateView::ImageSwap
    } else if report.pending_transaction != PendingTransactionStatus::Clean && !force
        && !skip_preflight {
        MigrationGateView::Refuse(pending_refusal(report.pending_transaction))
    } else if !report.supports_reflink && !force {
        MigrationGateView::ConfirmFullCopy
    } else {
        MigrationGateView::Proceed
    }
}

/// Whether a migration may start.
pub fn gate(report: &PreflightReport, force: bool, skip_preflight: bool) -> (r: MigrationGate)
    ensures
        r.deep_view() == gate_of(*report, force, skip_preflight),
{
    match report.booted_backend {
        None => {
            if !force {
                return MigrationGate::Refuse(
                    "System is not booted into a bootc deployment (neither ostree nor composefs). Cannot perform migration.".to_owned(),
                );
            }
        },
        Some(Backend::Composefs) => {
            return MigrationGate::ImageSwap;
        },
        Some(Backend::Ostree) => {},
    }
    if report.pending_transaction != PendingTransactionStatus::Clean && !force && !skip_preflight {
        let mut m: String = "Pending OSTree transaction detected: ".to_owned();
        m.append(report.pending_transaction.describe().as_str());
        m.append(
            ".\nThe OSTree repo has uncommitted state from a previous update. The migration\nwould produce an incomplete composefs image that cannot boot.\n\nTo resolve:\n- If you ran `bootc upgrade` or `rpm-ostree upgrade`, complete it first.\n- If the update was interrupted, run `ostree admin undeploy <index>`\nto remove the pending deployment.\n- Or run `bootc upgrade` to finish/finalize the pending transaction.\n",
        );
        return MigrationGate::Refuse(m);
    }
    if !report.supports_reflink && !force {
        return MigrationGate::ConfirmFullCopy;
    }
    MigrationGate::Proceed
}

/// A host on composefs is never refused and never converted, whatever else
/// holds of it.
pub proof fn law_composefs_hosts_swap_images(
    report: PreflightReport,
    force: bool,
    skip_preflight: bool,
)
    ensures
        gate_of(report, force, skip_preflight) is ImageSwap <==> report.booted_backend == Some(
            Backend::Composefs,
        ),
{
}

/// Forcing starts every conversion.
pub proof fn law_force_waives_every_gate(report: PreflightReport, skip_preflight: bool)
    requires
        report.booted_backend != Some(Backend::Composefs),
    ensures
        gate_of(report, true, skip_preflight) is Proceed,
{
}

/// Skipping the checks is no consent to a full copy.
pub proof fn law_skipping_checks_is_no_consent(report: PreflightReport)
    requires
        report.booted_backend == Some(Backend::Ostree),
        !report.supports_reflink,
    ensures
        gate_of(report, false, true) is ConfirmFullCopy,
{
}

} // verus!

//! Laws of what is found out before a migration, and of its gate.

use vstd::prelude::*;

use crate::preflight::PreflightReport;
use crate::preflight::readiness::{
    bootloader_text, gate_of, issues, low_storage, text_if, MIN_CONTAINER_STORAGE_BYTES,
};
use crate::preflight::system_info::{
    backend_of, esp_candidates, esp_devices, files_in, first_marker, first_type, has_stale_file,
    is_mount_point, is_read_only, mounted_esp, mounts_at, mounts_read_only, objects_in,
    pending_status, size_in, status_text, type_at, BootedStatus, PendingTransactionStatus,
};
use crate::preflight::validate::ESP_READY_BYTES;
use crate::rebase_plan::Backend;
use crate::text::chars::{is_digit, is_white};
use crate::text::numbers::{decimal, lemma_decimal_value, without_plus};
use crate::text::pieces::{fields, is_word, lines, open_fields, split, trim, trim_end, trim_start};
use crate::text::search::{begins, holds, lower, occurs_at};

verus! {

/// The limits: systemd-boot is ready with 150 MB free on the EFI system
/// partition, and a pull is likely to fit into 10 GiB.
pub proof fn law_limits()
    ensures
        ESP_READY_BYTES == 150 * 1024 * 1024,
        MIN_CONTAINER_STORAGE_BYTES == 10 * 1024 * 1024 * 1024,
{
}

/// A migration is refused where there is nothing to migrate from, and while an
/// update is under way, before anything else is asked; both are waived by force,
/// and the second by skipping the checks too. A host on composefs swaps its
/// image. A host on OSTree without reflinks must agree to a full copy, and one
/// with them goes on.
pub proof fn law_gate_of_a_migration(report: PreflightReport, force: bool, skip: bool)
    ensures
        ({
            let g = gate_of(report, force, skip);
            let updating = report.pending_transaction != PendingTransactionStatus::Clean;
            &&& g is ImageSwap <==> report.booted_backend == Some(Backend::Composefs)
            &&& g is Refuse <==> !force && (report.booted_backend is None || (
            report.booted_backend == Some(Backend::Ostree) && updating && !skip))
            &&& g is ConfirmFullCopy <==> !force && report.booted_backend == Some(Backend::Ostree)
                && (skip || !updating) && !report.supports_reflink
            &&& g is Proceed <==> report.booted_backend != Some(Backend::Composefs) && (force || (
            report.booted_backend is Some && (skip || !updating) && report.supports_reflink))
        }),
{
    match report.booted_backend {
        Some(Backend::Ostree) => {},
        Some(Backend::Composefs) => {},
        None => {},
    }
}

/// An update under way is named in the refusal.
pub proof fn law_refusal_names_the_update(report: PreflightReport)
    requires
        report.booted_backend == Some(Backend::Ostree),
        report.pending_transaction != PendingTransactionStatus::Clean,
    ensures
        gate_of(report, false, false) is Refuse,
        holds(
            gate_of(report, false, false)->Refuse_0,
            status_text(report.pending_transaction),
        ),
{
    let m = gate_of(report, false, false)->Refuse_0;
    let a = "Pending OSTree transaction detected: "@;
    let t = status_text(report.pending_transaction);
    let n = a.len() as int;
    assert(m.subrange(n, n + t.len()) =~= t);
    assert(occurs_at(m, t, n));
}

/// One for what holds, and nothing for what does not.
pub open spec fn one_if(b: bool) -> int {
    if b {
        1
    } else {
        0
    }
}

/// There is one warning for each thing that may stand in the way, and no other;
/// a report without any of these is all clear.
#[verifier::rlimit(40)]
pub proof fn law_one_warning_for_each_obstacle(r: PreflightReport)
    ensures
        issues(r).len() == one_if(r.booted_backend is None) + one_if(!r.is_uefi) + one_if(
            r.is_uefi && !r.nvram_writable,
        ) + one_if(!r.esp_detected) + one_if(
            r.is_uefi && r.esp_path is Some && !r.esp_ready_for_systemd_boot,
        ) + one_if(r.is_uefi && !r.systemd_boot_binaries_present) + one_if(
            !r.grub_tools_available,
        ) + one_if(!r.supports_reflink) + one_if(
            r.ostree_repo_size_bytes > 0 && r.composefs_free_bytes * 2 <= r.ostree_repo_size_bytes
                * 3,
        ) + one_if(r.container_storage_free_bytes < 10 * 1024 * 1024 * 1024),
{
    let a = text_if(
        r.booted_backend is None,
        "Not booted into a bootc deployment — nothing to migrate from."@,
    ) + text_if(
        !r.is_uefi,
        "Legacy BIOS boot detected — systemd-boot unavailable; will stay on GRUB2."@,
    );
    assert(a.len() == one_if(r.booted_backend is None) + one_if(!r.is_uefi));
}

/// The first warning is that there is nothing to migrate from, and the last, with
/// the path that it is about, that the pull may not fit.
#[verifier::rlimit(40)]
pub proof fn law_first_and_last_warning(r: PreflightReport)
    ensures
        r.booted_backend is None ==> begins(issues(r)[0], "Not booted into a bootc deployment"@),
        r.container_storage_free_bytes < 10 * 1024 * 1024 * 1024 ==> begins(
            issues(r).last(),
            "Low free space on "@ + r.container_storage_path@,
        ),
{
    if r.booted_backend is None {
        reveal_strlit("Not booted into a bootc deployment");
        reveal_strlit("Not booted into a bootc deployment — nothing to migrate from.");
        assert("Not booted into a bootc deployment — nothing to migrate from."@.take(
            "Not booted into a bootc deployment"@.len() as int,
        ) =~= "Not booted into a bootc deployment"@);
    }
    if r.container_storage_free_bytes < MIN_CONTAINER_STORAGE_BYTES {
        let p = "Low free space on "@ + r.container_storage_path@;
        assert(issues(r).last() == low_storage(r));
        assert(low_storage(r).take(p.len() as int) =~= p);
    }
}

proof fn lemma_either(a: Seq<Seq<char>>, b: Seq<Seq<char>>, x: Seq<char>)
    ensures
        a.contains(x) || b.contains(x) ==> (a + b).contains(x),
{
    if a.contains(x) {
        let k = choose|k: int| 0 <= k < a.len() && a[k] == x;
        assert((a + b)[k] == x);
    }
    if b.contains(x) {
        let k = choose|k: int| 0 <= k < b.len() && b[k] == x;
        assert((a + b)[a.len() + k] == x);
    }
}

/// What one of ten lists holds, the ten together hold.
proof fn lemma_any_of_ten(
    a: Seq<Seq<char>>,
    b: Seq<Seq<char>>,
    c: Seq<Seq<char>>,
    d: Seq<Seq<char>>,
    e: Seq<Seq<char>>,
    f: Seq<Seq<char>>,
    g: Seq<Seq<char>>,
    h: Seq<Seq<char>>,
    i: Seq<Seq<char>>,
    j: Seq<Seq<char>>,
    x: Seq<char>,
)
    requires
        a.contains(x) || b.contains(x) || c.contains(x) || d.contains(x) || e.contains(x)
            || f.contains(x) || g.contains(x) || h.contains(x) || i.contains(x),
    ensures
        (a + b + c + d + e + f + g + h + i + j).contains(x),
{
    lemma_either(a, b, x);
    lemma_either(a + b, c, x);
    lemma_either(a + b + c, d, x);
    lemma_either(a + b + c + d, e, x);
    lemma_either(a + b + c + d + e, f, x);
    lemma_either(a + b + c + d + e + f, g, x);
    lemma_either(a + b + c + d + e + f + g, h, x);
    lemma_either(a + b + c + d + e + f + g + h, i, x);
    lemma_either(a + b + c + d + e + f + g + h + i, j, x);
}

/// Each obstacle is told in its own words.
#[verifier::rlimit(40)]
pub proof fn law_each_obstacle_is_told(r: PreflightReport)
    ensures
        r.booted_backend is None ==> issues(r).contains(
            "Not booted into a bootc deployment — nothing to migrate from."@,
        ),
        !r.is_uefi ==> issues(r).contains(
            "Legacy BIOS boot detected — systemd-boot unavailable; will stay on GRUB2."@,
        ),
        r.is_uefi && !r.nvram_writable ==> issues(r).contains(
            "UEFI NVRAM not writable — efibootmgr may fail; systemd-boot may not register."@,
        ),
        !r.esp_detected ==> issues(r).contains(
            "No ESP found — systemd-boot unavailable; will use GRUB2."@,
        ),
        r.is_uefi && r.esp_path is Some && !r.esp_ready_for_systemd_boot ==> issues(r).contains(
            "ESP too small for systemd-boot — need >=150 MB free; will use GRUB2 instead."@,
        ),
        r.is_uefi && !r.systemd_boot_binaries_present ==> issues(r).contains(
            "systemd-boot binaries missing in source OS — migration will extract them from the target image instead."@,
        ),
        !r.grub_tools_available ==> issues(r).contains(
            "No GRUB tools (grub2-reboot, grub2-editenv) — one-shot boot selection may fail."@,
        ),
        !r.supports_reflink ==> issues(r).contains(
            "No reflink support — object copies will use 1.5× more disk space."@,
        ),
        2 * r.composefs_free_bytes <= 3 * r.ostree_repo_size_bytes && r.ostree_repo_size_bytes > 0 ==> issues(r).contains(
            "Insufficient free space for migration — need >=1.5× repo size (without reflink)."@,
        ),
{
    let p0 = text_if(r.booted_backend is None, "Not booted into a bootc deployment — nothing to migrate from."@);
    let p1 = text_if(!r.is_uefi, "Legacy BIOS boot detected — systemd-boot unavailable; will stay on GRUB2."@);
    let p2 = text_if(r.is_uefi && !r.nvram_writable, "UEFI NVRAM not writable — efibootmgr may fail; systemd-boot may not register."@);
    let p3 = text_if(!r.esp_detected, "No ESP found — systemd-boot unavailable; will use GRUB2."@);
    let p4 = text_if(r.is_uefi && r.esp_path is Some && !r.esp_ready_for_systemd_boot, "ESP too small for systemd-boot — need >=150 MB free; will use GRUB2 instead."@);
    let p5 = text_if(r.is_uefi && !r.systemd_boot_binaries_present, "systemd-boot binaries missing in source OS — migration will extract them from the target image instead."@);
    let p6 = text_if(!r.grub_tools_available, "No GRUB tools (grub2-reboot, grub2-editenv) — one-shot boot selection may fail."@);
    let p7 = text_if(!r.supports_reflink, "No reflink support — object copies will use 1.5× more disk space."@);
    let p8 = text_if(2 * r.composefs_free_bytes <= 3 * r.ostree_repo_size_bytes && r.ostree_repo_size_bytes > 0, "Insufficient free space for migration — need >=1.5× repo size (without reflink)."@);
    let p9 = text_if(
        r.container_storage_free_bytes < MIN_CONTAINER_STORAGE_BYTES,
        low_storage(r),
    );
    assert(issues(r) == p0 + p1 + p2 + p3 + p4 + p5 + p6 + p7 + p8 + p9);
    if r.booted_backend is None {
        assert(p0[0] == "Not booted into a bootc deployment — nothing to migrate from."@);
        lemma_any_of_ten(p0, p1, p2, p3, p4, p5, p6, p7, p8, p9, "Not booted into a bootc deployment — nothing to migrate from."@);
    }
    if !r.is_uefi {
        assert(p1[0] == "Legacy BIOS boot detected — systemd-boot unavailable; will stay on GRUB2."@);
        lemma_any_of_ten(p0, p1, p2, p3, p4, p5, p6, p7, p8, p9, "Legacy BIOS boot detected — systemd-boot unavailable; will stay on GRUB2."@);
    }
    if r.is_uefi && !r.nvram_writable {
        assert(p2[0] == "UEFI NVRAM not writable — efibootmgr may fail; systemd-boot may not register."@);
        lemma_any_of_ten(p0, p1, p2, p3, p4, p5, p6, p7, p8, p9, "UEFI NVRAM not writable — efibootmgr may fail; systemd-boot may not register."@);
    }
    if !r.esp_detected {
        assert(p3[0] == "No ESP found — systemd-boot unavailable; will use GRUB2."@);
        lemma_any_of_ten(p0, p1, p2, p3, p4, p5, p6, p7, p8, p9, "No ESP found — systemd-boot unavailable; will use GRUB2."@);
    }
    if r.is_uefi && r.esp_path is Some && !r.esp_ready_for_systemd_boot {
        assert(p4[0] == "ESP too small for systemd-boot — need >=150 MB free; will use GRUB2 instead."@);
        lemma_any_of_ten(p0, p1, p2, p3, p4, p5, p6, p7, p8, p9, "ESP too small for systemd-boot — need >=150 MB free; will use GRUB2 instead."@);
    }
    if r.is_uefi && !r.systemd_boot_binaries_present {
        assert(p5[0] == "systemd-boot binaries missing in source OS — migration will extract them from the target image instead."@);
        lemma_any_of_ten(p0, p1, p2, p3, p4, p5, p6, p7, p8, p9, "systemd-boot binaries missing in source OS — migration will extract them from the target image instead."@);
    }
    if !r.grub_tools_available {
        assert(p6[0] == "No GRUB tools (grub2-reboot, grub2-editenv) — one-shot boot selection may fail."@);
        lemma_any_of_ten(p0, p1, p2, p3, p4, p5, p6, p7, p8, p9, "No GRUB tools (grub2-reboot, grub2-editenv) — one-shot boot selection may fail."@);
    }
    if !r.supports_reflink {
        assert(p7[0] == "No reflink support — object copies will use 1.5× more disk space."@);
        lemma_any_of_ten(p0, p1, p2, p3, p4, p5, p6, p7, p8, p9, "No reflink support — object copies will use 1.5× more disk space."@);
    }
    if 2 * r.composefs_free_bytes <= 3 * r.ostree_repo_size_bytes && r.ostree_repo_size_bytes > 0 {
        assert(p8[0] == "Insufficient free space for migration — need >=1.5× repo size (without reflink)."@);
        lemma_any_of_ten(p0, p1, p2, p3, p4, p5, p6, p7, p8, p9, "Insufficient free space for migration — need >=1.5× repo size (without reflink)."@);
    }
}

/// The bootloader will be systemd-boot exactly where the partition is ready and
/// the firmware's variables can be written.
pub proof fn law_which_bootloader_is_announced(r: PreflightReport)
    ensures
        begins(bootloader_text(r)[0], "\nBootloader: Will migrate to systemd-boot"@)
            <==> r.esp_ready_for_systemd_boot && r.nvram_writable,
{
    reveal_strlit("\nBootloader: Will migrate to systemd-boot");
    reveal_strlit("\nBootloader: Will migrate to systemd-boot (ESP ready, NVRAM writable).");
    reveal_strlit("\nBootloader: Will stay on GRUB2 (BLS Type 1).");
    reveal_strlit("\nBootloader: Will stay on GRUB2 (BLS Type 1) — no ESP detected.");
    let p = "\nBootloader: Will migrate to systemd-boot"@;
    let t = bootloader_text(r)[0];
    if r.esp_ready_for_systemd_boot && r.nvram_writable {
        assert(t.take(p.len() as int) =~= p);
    } else {
        assert(t[18] == 's');
        assert(p[18] == 'm');
        if begins(t, p) {
            assert(t.take(p.len() as int)[18] == t[18]);
        }
    }
}

proof fn lemma_holds_trimmed(s: Seq<char>, m: Seq<char>)
    requires
        m.len() > 0,
        !is_white(m[0]),
        !is_white(m.last()),
    ensures
        holds(trim(s), m) <==> holds(s, m),
{
    lemma_holds_behind_white(s, m);
    lemma_holds_before_white(trim_start(s), m);
}

proof fn lemma_holds_behind_white(s: Seq<char>, m: Seq<char>)
    requires
        m.len() > 0,
        !is_white(m[0]),
    ensures
        holds(trim_start(s), m) <==> holds(s, m),
    decreases s.len(),
{
    if s.len() > 0 && is_white(s[0]) {
        let rest = s.skip(1);
        lemma_holds_behind_white(rest, m);
        if holds(s, m) {
            let i = choose|i: int| occurs_at(s, m, i);
            assert(s.subrange(i, i + m.len())[0] == s[i]);
            assert(rest.subrange(i - 1, i - 1 + m.len()) =~= s.subrange(i, i + m.len()));
            assert(occurs_at(rest, m, i - 1));
        }
        if holds(rest, m) {
            let i = choose|i: int| occurs_at(rest, m, i);
            assert(s.subrange(i + 1, i + 1 + m.len()) =~= rest.subrange(i, i + m.len()));
            assert(occurs_at(s, m, i + 1));
        }
    }
}

proof fn lemma_holds_before_white(s: Seq<char>, m: Seq<char>)
    requires
        m.len() > 0,
        !is_white(m.last()),
    ensures
        holds(trim_end(s), m) <==> holds(s, m),
    decreases s.len(),
{
    if s.len() > 0 && is_white(s.last()) {
        let rest = s.drop_last();
        lemma_holds_before_white(rest, m);
        if holds(s, m) {
            let i = choose|i: int| occurs_at(s, m, i);
            assert(s.subrange(i, i + m.len())[m.len() - 1] == s[i + m.len() - 1]);
            assert(rest.subrange(i, i + m.len()) =~= s.subrange(i, i + m.len()));
            assert(occurs_at(rest, m, i));
        }
        if holds(rest, m) {
            let i = choose|i: int| occurs_at(rest, m, i);
            assert(s.subrange(i, i + m.len()) =~= rest.subrange(i, i + m.len()));
            assert(occurs_at(s, m, i));
        }
    }
}

/// Whether the line marks a deployment as staged, or as pending.
pub open spec fn is_marked(line: Seq<char>) -> bool {
    holds(line, "(staged)"@) || holds(line, "(pending)"@)
}

proof fn lemma_marks(line: Seq<char>)
    ensures
        holds(trim(line), "(staged)"@) <==> holds(line, "(staged)"@),
        holds(trim(line), "(pending)"@) <==> holds(line, "(pending)"@),
{
    reveal_strlit("(staged)");
    reveal_strlit("(pending)");
    lemma_holds_trimmed(line, "(staged)"@);
    lemma_holds_trimmed(line, "(pending)"@);
}

/// The first line with a mark decides, and where it has both marks the staged
/// one; without any mark nothing is under way.
pub proof fn law_first_mark_decides(ls: Seq<Seq<char>>, i: int)
    ensures
        (forall|j: int| 0 <= j < ls.len() ==> !is_marked(#[trigger] ls[j])) ==> first_marker(ls)
            == PendingTransactionStatus::Clean,
        0 <= i < ls.len() && is_marked(ls[i]) && (forall|j: int|
            0 <= j < i ==> !is_marked(#[trigger] ls[j])) ==> first_marker(ls) == (if holds(
            ls[i],
            "(staged)"@,
        ) {
            PendingTransactionStatus::StagedDeployment
        } else {
            PendingTransactionStatus::PendingDeployment
        }),
    decreases ls.len(),
{
    if ls.len() > 0 {
        lemma_marks(ls[0]);
        let rest = ls.skip(1);
        law_first_mark_decides(rest, i - 1);
        assert forall|j: int| 0 <= j < rest.len() implies #[trigger] rest[j] == ls[j + 1] by {}
        if i > 0 && i < ls.len() {
            assert(rest[i - 1] == ls[i]);
        }
        if forall|j: int| 0 <= j < ls.len() ==> !is_marked(#[trigger] ls[j]) {
            assert(!is_marked(ls[0]));
            assert forall|j: int| 0 <= j < rest.len() implies !is_marked(#[trigger] rest[j]) by {
                assert(rest[j] == ls[j + 1]);
            }
        }
        if 0 < i < ls.len() && is_marked(ls[i]) && (forall|j: int|
            0 <= j < i ==> !is_marked(#[trigger] ls[j])) {
            assert(!is_marked(ls[0]));
            assert forall|j: int| 0 <= j < i - 1 implies !is_marked(#[trigger] rest[j]) by {
                assert(rest[j] == ls[j + 1]);
            }
        }
    }
}

/// Whether the name is that of a file that a transaction leaves behind.
pub open spec fn is_left_behind(name: Seq<char>) -> bool {
    begins(name, ".stale-transaction"@) || begins(name, "staging-"@) || begins(name, "ostree-txn"@)
}

/// No update is under way exactly where no deployment is recorded as staged, no
/// line of the status has a mark, and no transaction left a file behind. A
/// recorded one is staged whatever else is found.
pub proof fn law_when_no_update_is_under_way(
    staged_marker: bool,
    status: Option<Seq<char>>,
    tmp: Seq<(Seq<char>, bool)>,
)
    ensures
        pending_status(staged_marker, status, tmp) == PendingTransactionStatus::Clean <==> {
            &&& !staged_marker
            &&& status matches Some(out) ==> forall|i: int|
                0 <= i < lines(out).len() ==> !is_marked(#[trigger] lines(out)[i])
            &&& forall|i: int|
                0 <= i < tmp.len() ==> !((#[trigger] tmp[i]).1 && is_left_behind(tmp[i].0))
        },
        staged_marker ==> pending_status(staged_marker, status, tmp)
            == PendingTransactionStatus::StagedDeployment,
        !staged_marker && status is Some && first_marker(lines(status->0))
            != PendingTransactionStatus::Clean ==> pending_status(staged_marker, status, tmp)
            == first_marker(lines(status->0)),
{
    if status is Some {
        let ls = lines(status->0);
        if first_marker(ls) == PendingTransactionStatus::Clean {
            lemma_clean_has_no_mark(ls);
        }
        law_first_mark_decides(ls, 0);
    }
    if has_stale_file(tmp) {
        let i = choose|i: int|
            0 <= i < tmp.len() && (#[trigger] tmp[i]).1
                && crate::preflight::system_info::is_stale_name(tmp[i].0);
        assert(is_left_behind(tmp[i].0));
    } else {
        assert forall|i: int| 0 <= i < tmp.len() implies !((#[trigger] tmp[i]).1 && is_left_behind(
            tmp[i].0,
        )) by {
            if tmp[i].1 && is_left_behind(tmp[i].0) {
                assert(crate::preflight::system_info::is_stale_name(tmp[i].0));
            }
        }
    }
}

proof fn lemma_clean_has_no_mark(ls: Seq<Seq<char>>)
    requires
        first_marker(ls) == PendingTransactionStatus::Clean,
    ensures
        forall|i: int| 0 <= i < ls.len() ==> !is_marked(#[trigger] ls[i]),
    decreases ls.len(),
{
    if ls.len() > 0 {
        lemma_marks(ls[0]);
        let rest = ls.skip(1);
        lemma_clean_has_no_mark(rest);
        assert forall|i: int| 0 <= i < ls.len() implies !is_marked(#[trigger] ls[i]) by {
            if i > 0 {
                assert(rest[i - 1] == ls[i]);
            }
        }
    }
}

/// Whether a line of the table of mounts has the path as its second field.
pub open spec fn is_mounted(ls: Seq<Seq<char>>, path: Seq<char>) -> bool {
    exists|i: int| 0 <= i < ls.len() && fields(#[trigger] ls[i]).len() > 1 && fields(ls[i])[1] == path
}

/// A path is a mount point where it is the second field of a line, and mounted
/// read-only where one of the options in the fourth is `ro`.
pub proof fn law_mount_points(ls: Seq<Seq<char>>, path: Seq<char>)
    ensures
        is_mount_point(ls, path) <==> is_mounted(ls, path),
        is_read_only(ls, path) <==> exists|i: int|
            0 <= i < ls.len() && fields(#[trigger] ls[i]).len() > 3 && fields(ls[i])[1] == path
                && split(fields(ls[i])[3], ',').contains("ro"@),
{
    if is_mount_point(ls, path) {
        let i = choose|i: int| 0 <= i < ls.len() && mounts_at(#[trigger] ls[i], path);
        assert(fields(ls[i])[1] == path);
    }
    if is_mounted(ls, path) {
        let i = choose|i: int|
            0 <= i < ls.len() && fields(#[trigger] ls[i]).len() > 1 && fields(ls[i])[1] == path;
        assert(mounts_at(ls[i], path));
    }
    if is_read_only(ls, path) {
        let i = choose|i: int| 0 <= i < ls.len() && mounts_read_only(#[trigger] ls[i], path);
        assert(fields(ls[i])[1] == path);
    }
    if exists|i: int|
        0 <= i < ls.len() && fields(#[trigger] ls[i]).len() > 3 && fields(ls[i])[1] == path
            && split(fields(ls[i])[3], ',').contains("ro"@) {
        let i = choose|i: int|
            0 <= i < ls.len() && fields(#[trigger] ls[i]).len() > 3 && fields(ls[i])[1] == path
                && split(fields(ls[i])[3], ',').contains("ro"@);
        assert(mounts_read_only(ls[i], path));
    }
}

/// Whether the line mounts a filesystem at the path, of the type given.
pub open spec fn mounts_type(line: Seq<char>, path: Seq<char>, t: Seq<char>) -> bool {
    fields(line).len() > 2 && fields(line)[1] == path && fields(line)[2] == t
}

/// The type of a mounted filesystem is the third field of the first line that
/// mounts one at the path.
pub proof fn law_type_of_the_first_mount(ls: Seq<Seq<char>>, path: Seq<char>, i: int)
    requires
        0 <= i < ls.len(),
        fields(ls[i]).len() > 2,
        fields(ls[i])[1] == path,
        forall|j: int|
            0 <= j < i ==> !(fields(#[trigger] ls[j]).len() > 2 && fields(ls[j])[1] == path),
    ensures
        first_type(ls, path, false) == Some(fields(ls[i])[2]),
    decreases i,
{
    if i > 0 {
        let rest = ls.skip(1);
        assert(!(fields(ls[0]).len() > 2 && fields(ls[0])[1] == path));
        assert(type_at(ls[0], path) is None);
        assert forall|j: int| 0 <= j < i - 1 implies !(fields(#[trigger] rest[j]).len() > 2
            && fields(rest[j])[1] == path) by {
            assert(rest[j] == ls[j + 1]);
        }
        assert(rest[i - 1] == ls[i]);
        law_type_of_the_first_mount(rest, path, i - 1);
    }
}

/// Whether an EFI system partition is mounted at the path.
pub open spec fn is_esp_mounted(ls: Seq<Seq<char>>, path: Seq<char>) -> bool {
    exists|i: int|
        0 <= i < ls.len() && (mounts_type(#[trigger] ls[i], path, "vfat"@) || mounts_type(
            ls[i],
            path,
            "msdos"@,
        ))
}

proof fn lemma_esp_type(ls: Seq<Seq<char>>, path: Seq<char>)
    ensures
        first_type(ls, path, true) is Some <==> is_esp_mounted(ls, path),
        first_type(ls, path, true) matches Some(t) ==> t == "vfat"@ || t == "msdos"@,
    decreases ls.len(),
{
    if ls.len() > 0 {
        let rest = ls.skip(1);
        lemma_esp_type(rest, path);
        if is_esp_mounted(rest, path) {
            let i = choose|i: int|
                0 <= i < rest.len() && (mounts_type(#[trigger] rest[i], path, "vfat"@)
                    || mounts_type(rest[i], path, "msdos"@));
            assert(ls[i + 1] == rest[i]);
        }
        if is_esp_mounted(ls, path) {
            let i = choose|i: int|
                0 <= i < ls.len() && (mounts_type(#[trigger] ls[i], path, "vfat"@) || mounts_type(
                    ls[i],
                    path,
                    "msdos"@,
                ));
            if i > 0 {
                assert(rest[i - 1] == ls[i]);
            }
        }
        if first_type(ls, path, true) is Some {
            if type_at(ls[0], path) is Some && (type_at(ls[0], path)->0 == "vfat"@ || type_at(
                ls[0],
                path,
            )->0 == "msdos"@) {
                assert(mounts_type(ls[0], path, "vfat"@) || mounts_type(ls[0], path, "msdos"@));
            }
        }
    }
}

/// The EFI system partition is looked for at `/boot/efi`, then `/efi`, then
/// `/boot`: the first of them that exists and has one mounted.
pub proof fn law_where_the_esp_is_found(ls: Seq<Seq<char>>, existing: Seq<Seq<char>>)
    ensures
        ({
            let r = mounted_esp(ls, existing, esp_candidates());
            let here = |p: Seq<char>| existing.contains(p) && is_esp_mounted(ls, p);
            if here("/boot/efi"@) {
                r matches Some(e) && e.0 == "/boot/efi"@
            } else if here("/efi"@) {
                r matches Some(e) && e.0 == "/efi"@
            } else if here("/boot"@) {
                r matches Some(e) && e.0 == "/boot"@
            } else {
                r is None
            }
        }),
        mounted_esp(ls, existing, esp_candidates()) matches Some(e) ==> e.1 == "vfat"@ || e.1
            == "msdos"@,
{
    lemma_esp_type(ls, "/boot/efi"@);
    lemma_esp_type(ls, "/efi"@);
    lemma_esp_type(ls, "/boot"@);
    let c = esp_candidates();
    assert(c.skip(1) =~= seq!["/efi"@, "/boot"@]);
    assert(c.skip(1).skip(1) =~= seq!["/boot"@]);
    assert(c.skip(1).skip(1).skip(1) =~= Seq::<Seq<char>>::empty());
    reveal_with_fuel(mounted_esp, 5);
}

/// The partitions that may be an EFI system partition are those whose type is
/// its id, in capital or small letters, in the order in which they are listed.
pub proof fn law_esp_partitions(ls: Seq<Seq<char>>)
    ensures
        esp_devices(ls) == ls.filter(
            |l: Seq<char>|
                fields(l).len() > 1 && lower(fields(l)[1])
                    == "c12a7328-f81f-11d2-ba4b-00a0c93ec93b"@,
        ).map_values(|l: Seq<char>| "/dev/"@ + fields(l)[0]),
    decreases ls.len(),
{
    reveal(Seq::filter);
    let p = |l: Seq<char>|
        fields(l).len() > 1 && lower(fields(l)[1]) == "c12a7328-f81f-11d2-ba4b-00a0c93ec93b"@;
    let f = |l: Seq<char>| "/dev/"@ + fields(l)[0];
    if ls.len() > 0 {
        let d = ls.drop_last();
        law_esp_partitions(d);
        assert(d.filter(p).push(ls.last()).map_values(f) =~= d.filter(p).map_values(f).push(
            f(ls.last()),
        ));
    } else {
        assert(esp_devices(ls) =~= ls.filter(p).map_values(f));
    }
}

/// The objects of a store are the files in its directories, each counted once.
pub proof fn law_objects_are_counted(dirs: Seq<Seq<bool>>, dir: Seq<bool>)
    ensures
        objects_in(dirs.push(dir)) == objects_in(dirs) + dir.filter(|is_file: bool| is_file).len(),
        objects_in(Seq::<Seq<bool>>::empty()) == 0,
{
    assert(dirs.push(dir).drop_last() =~= dirs);
    lemma_files(dir);
}

proof fn lemma_files(dir: Seq<bool>)
    ensures
        files_in(dir) == dir.filter(|is_file: bool| is_file).len(),
    decreases dir.len(),
{
    reveal(Seq::filter);
    if dir.len() > 0 {
        lemma_files(dir.drop_last());
    }
}

/// The size is the number before the name.
pub proof fn law_size_is_the_first_number(n: u64, name: Seq<char>)
    requires
        is_word(name),
    ensures
        size_in(decimal(n as nat) + " "@ + name) == n,
        size_in(decimal(n as nat) + "\t"@ + name) == n,
{
    reveal_strlit(" ");
    reveal_strlit("\t");
    let d = decimal(n as nat);
    lemma_decimal_value(n as nat);
    assert(is_digit(d[0]));
    assert(without_plus(d) == d);
    assert forall|i: int| 0 <= i < d.len() implies !is_white(#[trigger] d[i]) by {
        assert(is_digit(d[i]));
    }
    assert(is_word(d));
    lemma_two_fields(d, ' ', name);
    lemma_two_fields(d, '\t', name);
    assert(d + " "@ + name =~= d + seq![' '] + name);
    assert(d + "\t"@ + name =~= d + seq!['\t'] + name);
}

proof fn lemma_two_fields(a: Seq<char>, c: char, b: Seq<char>)
    requires
        is_word(a),
        is_word(b),
        is_white(c),
    ensures
        fields(a + seq![c] + b) == seq![a, b],
{
    let none = Seq::<char>::empty();
    lemma_open(none, a);
    assert(none + a =~= a);
    let s = a + seq![c];
    assert(s.drop_last() =~= a);
    assert(open_fields(none) == (Seq::<Seq<char>>::empty(), none));
    assert(open_fields(a).1 =~= a);
    assert(open_fields(s).0 =~= seq![a]);
    lemma_open(s, b);
    assert(none + b =~= b);
    assert(open_fields(s + b).1 =~= b);
    assert(fields(s + b) =~= seq![a, b]);
}

proof fn lemma_open(s: Seq<char>, x: Seq<char>)
    requires
        forall|i: int| 0 <= i < x.len() ==> !is_white(#[trigger] x[i]),
    ensures
        open_fields(s + x).0 == open_fields(s).0,
        open_fields(s + x).1 == open_fields(s).1 + x,
    decreases x.len(),
{
    if x.len() == 0 {
        assert(s + x =~= s);
        assert(open_fields(s).1 + x =~= open_fields(s).1);
    } else {
        let d = x.drop_last();
        assert forall|i: int| 0 <= i < d.len() implies !is_white(#[trigger] d[i]) by {
            assert(d[i] == x[i]);
        }
        lemma_open(s, d);
        assert((s + x).drop_last() =~= s + d);
        assert(!is_white(x[x.len() - 1]));
        assert(open_fields(s + x).1 =~= open_fields(s).1 + x);
    }
}

/// A deployment is on OSTree where it has that key, else on composefs where it
/// has that one, and without either it is none of bootc.
pub proof fn law_backend_by_its_key(s: BootedStatus)
    ensures
        backend_of(s) == Some(Backend::Ostree) <==> s.ostree,
        backend_of(s) is None <==> !s.ostree && !s.composefs,
{
}

} // verus!

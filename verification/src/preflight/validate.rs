//! Judgments of a system's state for one direction of migration.

use vstd::prelude::*;

use crate::json::{json_document, parse_json, text_at, text_in};
use crate::preflight::system_info::SystemInfo;
use crate::preflight::PreflightReport;
use crate::scan::{is_cross_base as bases_differ, lineage_of, BaseInfo, Lineage};
use crate::text::search::same;

verus! {

/// What a re-base between two bases brings with it.
#[derive(Debug, Clone)]
pub struct CrossBaseReadiness {
    /// Whether the two are from different families.
    pub is_cross_base: bool,
    /// What to tell the user before going on.
    pub warnings: Vec<String>,
}

impl CrossBaseReadiness {
    /// Whether there is nothing to warn of.
    pub fn is_clean(&self) -> (r: bool)
        ensures
            r == (!self.is_cross_base || self.warnings@.len() == 0),
    {
        !self.is_cross_base || self.warnings.len() == 0
    }
}

/// What to expect of a re-base between families.
pub open spec fn family_warning() -> Seq<char> {
    "Cross-base re-base detected: the target image is from a different OS family. SELinux policy may differ — an /.autorelabel will be scheduled automatically if the policy type changes. UID/GID remap will run for system accounts that differ between the two bases. /etc paths whose defaults differ will take the target's version with the previous value preserved as a .rebase-old sidecar."@
}

/// The change of identity, in words.
pub open spec fn identity_warning(host: Seq<char>, target: Seq<char>) -> Seq<char> {
    "Base identity change: "@ + host + " → "@ + target
}

/// What a re-base from `host` to `target` brings with it. Two bases of one
/// family need no warning.
pub fn cross_base(host: &BaseInfo, target: &BaseInfo) -> (r: CrossBaseReadiness)
    ensures
        r.is_cross_base == (lineage_of(host.deep_view(), target.deep_view())
            == Lineage::CrossFamily),
        r.warnings.deep_view() == (if r.is_cross_base {
            seq![family_warning(), identity_warning(host.id@, target.id@)]
        } else {
            Seq::empty()
        }),
{
    let mut warnings: Vec<String> = Vec::new();
    if !bases_differ(host, target) {
        assert(warnings.deep_view() =~= Seq::empty());
        return CrossBaseReadiness { is_cross_base: false, warnings };
    }
    warnings.push(
        "Cross-base re-base detected: the target image is from a different OS family. SELinux policy may differ — an /.autorelabel will be scheduled automatically if the policy type changes. UID/GID remap will run for system accounts that differ between the two bases. /etc paths whose defaults differ will take the target's version with the previous value preserved as a .rebase-old sidecar.".to_owned(),
    );
    if !same(host.id.as_str(), target.id.as_str()) {
        let mut w: String = "Base identity change: ".to_owned();
        w.append(host.id.as_str());
        w.append(" → ");
        w.append(target.id.as_str());
        warnings.push(w);
    }
    assert(warnings.deep_view() =~= seq![family_warning(), identity_warning(host.id@, target.id@)]);
    CrossBaseReadiness { is_cross_base: true, warnings }
}

/// The free space that systemd-boot needs on the EFI system partition: 150 MB.
pub const ESP_READY_BYTES: u64 = 157286400;

/// The state judged for a conversion from OSTree to composefs: the EFI system
/// partition is ready where there is one with enough free space. Everything
/// else is passed through, and the booted image is left for
/// [`with_booted_image`] to fill in.
pub fn ostree_to_composefs(sys: SystemInfo) -> (r: PreflightReport)
    ensures
        r.esp_ready_for_systemd_boot == (sys.esp_detected && sys.esp_free_space_bytes
            >= ESP_READY_BYTES),
        r.booted_image is None,
        r.booted_backend == sys.booted_backend,
        r.pending_transaction == sys.pending_transaction,
        r.is_uefi == sys.is_uefi,
        r.nvram_writable == sys.nvram_writable,
        r.esp_path == sys.esp_path,
        r.esp_free_space_bytes == sys.esp_free_space_bytes,
        r.esp_fs_type == sys.esp_fs_type,
        r.esp_detected == sys.esp_detected,
        r.supports_reflink == sys.supports_reflink,
        r.is_btrfs == sys.is_btrfs,
        r.fs_type == sys.fs_type,
        r.ostree_repo_size_bytes == sys.ostree_repo_size_bytes,
        r.composefs_free_bytes == sys.composefs_free_bytes,
        r.container_storage_free_bytes == sys.container_storage_free_bytes,
        r.container_storage_path == sys.container_storage_path,
        r.var_is_separate_mount == sys.var_is_separate_mount,
        r.systemd_boot_binaries_present == sys.systemd_boot_binaries_present,
        r.grub_tools_available == sys.grub_tools_available,
        r.sysroot_was_ro == sys.sysroot_was_ro,
{
    let esp_ready_for_systemd_boot: bool = sys.esp_detected && sys.esp_free_space_bytes
        >= ESP_READY_BYTES;
    PreflightReport {
        booted_backend: sys.booted_backend,
        booted_image: None,
        pending_transaction: sys.pending_transaction,
        is_uefi: sys.is_uefi,
        nvram_writable: sys.nvram_writable,
        esp_path: sys.esp_path,
        esp_free_space_bytes: sys.esp_free_space_bytes,
        esp_fs_type: sys.esp_fs_type,
        esp_detected: sys.esp_detected,
        supports_reflink: sys.supports_reflink,
        is_btrfs: sys.is_btrfs,
        fs_type: sys.fs_type,
        ostree_repo_size_bytes: sys.ostree_repo_size_bytes,
        composefs_free_bytes: sys.composefs_free_bytes,
        container_storage_free_bytes: sys.container_storage_free_bytes,
        container_storage_path: sys.container_storage_path,
        var_is_separate_mount: sys.var_is_separate_mount,
        esp_ready_for_systemd_boot,
        systemd_boot_binaries_present: sys.systemd_boot_binaries_present,
        grub_tools_available: sys.grub_tools_available,
        sysroot_was_ro: sys.sysroot_was_ro,
    }
}

/// The image that bootc reports for the booted deployment. A status that cannot
/// be read reports none.
pub open spec fn reported_image(status: Seq<u8>) -> Option<Seq<char>> {
    match json_document(status) {
        Ok(texts) => text_in(texts, "/status/booted/image/image/image"@),
        Err(_) => None,
    }
}

/// The image that bootc reports for the booted deployment, from what
/// `bootc status --json` printed.
pub fn booted_image(status_stdout: &[u8]) -> (r: Option<String>)
    ensures
        r.deep_view() == reported_image(status_stdout@),
{
    match parse_json(status_stdout) {
        Ok(json) => text_at(&json, "/status/booted/image/image/image"),
        Err(_) => None,
    }
}

/// The report with the image that the host runs.
pub fn with_booted_image(report: PreflightReport, image: Option<String>) -> (r: PreflightReport)
    ensures
        r == (PreflightReport { booted_image: image, ..report }),
{
    PreflightReport { booted_image: image, ..report }
}

} // verus!

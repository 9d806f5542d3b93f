//! What a system looks like before it is changed, and whether it may be.
//!
//! [`system_info`] reads what was observed, with no regard to the direction of
//! a migration; [`validate`] judges it for one direction; [`readiness`] words
//! the result and decides whether to go on; [`snapshot`] names the file that
//! keeps it.

pub mod readiness;
pub mod snapshot;
pub mod system_info;
pub mod validate;

use vstd::prelude::*;

use crate::preflight::system_info::PendingTransactionStatus;
use crate::rebase_plan::Backend;

verus! {

/// The state of a system, judged for a conversion from OSTree to composefs.
#[derive(Debug, Clone, PartialEq, Eq)]
pub struct PreflightReport {
    /// The backend that the running deployment boots from, or none where this
    /// is no bootc deployment.
    pub booted_backend: Option<Backend>,
    pub booted_image: Option<String>,
    pub pending_transaction: PendingTransactionStatus,
    pub is_uefi: bool,
    pub nvram_writable: bool,
    pub esp_path: Option<String>,
    pub esp_free_space_bytes: u64,
    pub esp_fs_type: Option<String>,
    /// Whether there is an EFI system partition, mounted or not.
    pub esp_detected: bool,
    pub supports_reflink: bool,
    pub is_btrfs: bool,
    pub fs_type: Option<String>,
    pub ostree_repo_size_bytes: u64,
    pub composefs_free_bytes: u64,
    /// The free space where podman keeps its images.
    pub container_storage_free_bytes: u64,
    /// The path that it was measured on.
    pub container_storage_path: String,
    pub var_is_separate_mount: bool,
    /// Whether the EFI system partition has room for systemd-boot.
    pub esp_ready_for_systemd_boot: bool,
    pub systemd_boot_binaries_present: bool,
    pub grub_tools_available: bool,
    pub sysroot_was_ro: bool,
}

} // verus!

//! From composefs to OSTree: a fresh OSTree deployment beside the running
//! system.
//!
//! The target image's own bootc installs it, in a container that sees the
//! physical root. That install empties the EFI system partition, so what
//! belongs to the composefs deployment there is saved first and put back
//! afterwards: it is the way back. The merge of `/etc` and the copy of `/var`
//! are done here, since the install brings neither.

use vstd::prelude::*;

use crate::cross_family::{
    paths_with, plan_etc, sidecar_paths, CrossFamilyEtcOutcome, CrossFamilyPlan, EtcCrossFamilyPlan,
    EtcFate,
};
use crate::mergetc::{EtcDriftManifest, EtcPathState};
use crate::migration::rollback::{
    build_new_boot_order, first_rollback_id, first_scalar, parse_boot_order,
    parse_ostree_boot_entry_id, promoted_order,
};
use crate::rebase_controller::{bad_image, is_one_line, validate_target_image};
use crate::scan::Capabilities;
use crate::selinux::SelinuxConfig;
use crate::text::compose::{join, joined, owned_all};
use crate::text::numbers::{decimal, decimal_of};
use crate::text::order::{
    list_contains, sort_texts, sort_unique, sorted_set, sorted_texts,
};
use crate::text::pieces::{
    fields, fields_of, lines, trim_start_char, trimmed_start_char,
};
use crate::text::search::{
    after, begins, contains, ends_with, finishes, holds, same, starts_with, strip_prefix,
};

verus! {

/// The filesystem of the block device, on a composefs host.
pub const PHYSICAL_ROOT: &'static str = "/sysroot";

/// Where the container sees it.
pub const CONTAINER_TARGET: &'static str = "/target";

/// Where new OSTree deployments land.
pub const OSTREE_DEPLOY_DIR: &'static str = "/sysroot/ostree/deploy/default/deploy";

/// The `/var` of the new stateroot.
pub const OSTREE_STATEROOT_VAR: &'static str = "/sysroot/ostree/deploy/default/var";

/// Where the saved files and the record outlive the reboot.
pub const STATE_DIR: &'static str = "/var/lib/bootc-rebase";

/// The name of the record.
pub const REPORT_FILE: &'static str = "ostree-install-report.json";

/// What the caller asked for.
#[derive(Debug, Clone, Copy)]
pub struct OstreeInstallConfig<'a> {
    pub target_image: &'a str,
    pub dry_run: bool,
    pub force: bool,
    pub skip_preflight: bool,
    pub accept_cross_base: bool,
}

/// The command up to the image.
pub open spec fn container_args() -> Seq<Seq<char>> {
    seq![
        "podman"@,
        "run"@,
        "--rm"@,
        "--privileged"@,
        "--pid=host"@,
        "--security-opt"@,
        "label=disable"@,
        "-v"@,
        "/dev:/dev"@,
        "-v"@,
        "/sys:/sys"@,
        "-v"@,
        "/var/tmp:/var/tmp"@,
        "-v"@,
        "/var/lib/containers:/var/lib/containers"@,
        "--mount"@,
        "type=bind,src=/sysroot,dst=/target,bind-propagation=rslave"@,
    ]
}

/// The command behind the image, up to the kernel arguments.
pub open spec fn install_args() -> Seq<Seq<char>> {
    seq![
        "bootc"@,
        "install"@,
        "to-existing-root"@,
        "--acknowledge-destructive"@,
        "--skip-fetch-check"@,
    ]
}

/// The options that set the kernel arguments.
pub open spec fn karg_args(kargs: Seq<Seq<char>>) -> Seq<Seq<char>>
    decreases kargs.len(),
{
    if kargs.len() == 0 {
        Seq::empty()
    } else {
        karg_args(kargs.drop_last()).push("--karg"@).push(kargs.last())
    }
}

/// The command that installs the image beside the running system: the image's
/// own bootc, with the physical root at `/target`.
pub open spec fn install_argv(image: Seq<char>, kargs: Seq<Seq<char>>) -> Seq<Seq<char>> {
    container_args() + seq![image] + install_args() + karg_args(kargs) + seq!["/target"@]
}

/// The command that installs the image beside the running system.
pub fn install_command(target_image: &str, kargs: &[String]) -> (r: Vec<String>)
    ensures
        r.deep_view() == install_argv(target_image@, kargs.deep_view()),
{
    let first: [&str; 23] = [
        "podman",
        "run",
        "--rm",
        "--privileged",
        "--pid=host",
        "--security-opt",
        "label=disable",
        "-v",
        "/dev:/dev",
        "-v",
        "/sys:/sys",
        "-v",
        "/var/tmp:/var/tmp",
        "-v",
        "/var/lib/containers:/var/lib/containers",
        "--mount",
        "type=bind,src=/sysroot,dst=/target,bind-propagation=rslave",
        target_image,
        "bootc",
        "install",
        "to-existing-root",
        "--acknowledge-destructive",
        "--skip-fetch-check",
    ];
    let mut r: Vec<String> = owned_all(&first);
    let ghost start = container_args() + seq![target_image@] + install_args();
    assert(r.deep_view() =~= start);
    let ghost all = kargs.deep_view();
    let mut i: usize = 0;
    assert(r.deep_view() =~= start + karg_args(all.take(0)));
    while i < kargs.len()
        invariant
            all == kargs.deep_view(),
            i <= kargs@.len(),
            r.deep_view() == start + karg_args(all.take(i as int)),
        decreases kargs@.len() - i,
    {
        let ghost before = r.deep_view();
        r.push("--karg".to_owned());
        r.push(kargs[i].clone());
        proof {
            assert(all[i as int] == kargs@[i as int]@);
            assert(all.take(i + 1).drop_last() =~= all.take(i as int));
            assert(all.take(i + 1).last() == all[i as int]);
            assert(r.deep_view() =~= before.push("--karg"@).push(all[i as int]));
            assert(r.deep_view() =~= start + karg_args(all.take(i + 1)));
        }
        i = i + 1;
    }
    assert(all.take(i as int) =~= all);
    let ghost before = r.deep_view();
    r.push("/target".to_owned());
    assert(r.deep_view() =~= before + seq!["/target"@]);
    r
}

/// Whether a path on the EFI system partition belongs to the composefs
/// deployment or its loader. What the install writes there never does.
pub open spec fn composefs_owned(rel: Seq<char>) -> bool {
    let p = trim_start_char(rel, '/');
    ||| begins(p, "EFI/Linux/bootc_composefs-"@)
    ||| begins(p, "EFI/systemd/"@)
    ||| p == "loader/loader.conf"@
    ||| begins(p, "loader/entries/"@) && finishes(p, ".conf"@)
}

/// Whether a path on the EFI system partition belongs to the composefs
/// deployment or its loader.
pub fn is_composefs_esp_path(rel: &str) -> (r: bool)
    ensures
        r == composefs_owned(rel@),
{
    let p: String = trimmed_start_char(rel, '/');
    starts_with(p.as_str(), "EFI/Linux/bootc_composefs-") || starts_with(p.as_str(), "EFI/systemd/")
        || same(p.as_str(), "loader/loader.conf") || (starts_with(p.as_str(), "loader/entries/")
        && ends_with(p.as_str(), ".conf"))
}

/// The paths that belong to the composefs deployment, without a leading slash.
pub open spec fn owned_paths(listing: Seq<Seq<char>>) -> Seq<Seq<char>>
    decreases listing.len(),
{
    if listing.len() == 0 {
        Seq::empty()
    } else if composefs_owned(listing.last()) {
        owned_paths(listing.drop_last()).push(trim_start_char(listing.last(), '/'))
    } else {
        owned_paths(listing.drop_last())
    }
}

/// The paths of the listing that belong to the composefs deployment, sorted,
/// each once.
pub fn composefs_esp_paths(listing: &[String]) -> (r: Vec<String>)
    ensures
        r.deep_view() == sorted_set(owned_paths(listing.deep_view())),
{
    let ghost all = listing.deep_view();
    let mut found: Vec<String> = Vec::new();
    let mut i: usize = 0;
    assert(found.deep_view() =~= owned_paths(all.take(0)));
    while i < listing.len()
        invariant
            all == listing.deep_view(),
            i <= listing@.len(),
            found.deep_view() == owned_paths(all.take(i as int)),
        decreases listing@.len() - i,
    {
        proof {
            assert(all[i as int] == listing@[i as int]@);
            assert(all.take(i + 1).drop_last() =~= all.take(i as int));
            assert(all.take(i + 1).last() == all[i as int]);
        }
        let ghost before = found.deep_view();
        if is_composefs_esp_path(listing[i].as_str()) {
            let p: String = trimmed_start_char(listing[i].as_str(), '/');
            found.push(p);
            assert(found.deep_view() =~= before.push(p@));
        }
        i = i + 1;
    }
    assert(all.take(i as int) =~= all);
    sort_unique(found.as_slice())
}

/// Whether the name is that of the first deployment of a checksum.
pub open spec fn is_fresh(name: Seq<char>) -> bool {
    finishes(name, ".0"@) && name.len() > 2
}

/// The latest of the first deployments, and the last listed of those that
/// share its time.
pub open spec fn newest(entries: Seq<(Seq<char>, u64)>) -> Option<(Seq<char>, u64)>
    decreases entries.len(),
{
    if entries.len() == 0 {
        None
    } else {
        let best = newest(entries.drop_last());
        let e = entries.last();
        if !is_fresh(e.0) {
            best
        } else {
            match best {
                Some(b) => if e.1 >= b.1 {
                    Some(e)
                } else {
                    best
                },
                None => Some(e),
            }
        }
    }
}

/// The deployment that an install just made, from the names under
/// [`OSTREE_DEPLOY_DIR`] and their times of change.
pub fn newest_deployment(entries: &[(String, u64)]) -> (r: Option<String>)
    ensures
        r.deep_view() == (match newest(entries.deep_view()) {
            Some(e) => Some(e.0),
            None => None,
        }),
{
    let ghost all = entries.deep_view();
    let mut best: Option<(String, u64)> = None;
    let mut i: usize = 0;
    assert(all.take(0) =~= Seq::empty());
    while i < entries.len()
        invariant
            all == entries.deep_view(),
            i <= entries@.len(),
            best.deep_view() == newest(all.take(i as int)),
        decreases entries@.len() - i,
    {
        proof {
            assert(all.take(i + 1).drop_last() =~= all.take(i as int));
            assert(all.take(i + 1).last() == entries@[i as int].deep_view());
        }
        let name: &String = &entries[i].0;
        if ends_with(name.as_str(), ".0") && name.as_str().unicode_len() > 2 {
            let newer: bool = match &best {
                Some((_, t)) => entries[i].1 >= *t,
                None => true,
            };
            if newer {
                best = Some((name.clone(), entries[i].1));
            }
        }
        i = i + 1;
    }
    assert(all.take(i as int) =~= all);
    match best {
        Some((name, _)) => Some(name),
        None => None,
    }
}

/// Whether the kernel argument is carried over.
pub open spec fn carried_karg(w: Seq<char>) -> bool {
    ||| begins(w, "console="@)
    ||| begins(w, "rd.lvm.lv="@)
    ||| begins(w, "rd.luks."@)
    ||| begins(w, "systemd.log_level="@)
}

/// The words that are carried over.
pub open spec fn carried_kargs(words: Seq<Seq<char>>) -> Seq<Seq<char>>
    decreases words.len(),
{
    if words.len() == 0 {
        Seq::empty()
    } else if carried_karg(words.last()) {
        carried_kargs(words.drop_last()).push(words.last())
    } else {
        carried_kargs(words.drop_last())
    }
}

/// The kernel arguments that the new deployment takes over, beyond those that
/// the install carries itself: consoles, volumes and the log level.
pub fn carry_over_kargs(cmdline: &str) -> (r: Vec<String>)
    ensures
        r.deep_view() == carried_kargs(fields(cmdline@)),
{
    let words: Vec<String> = fields_of(cmdline);
    let ghost all = words.deep_view();
    let mut r: Vec<String> = Vec::new();
    let mut i: usize = 0;
    assert(r.deep_view() =~= carried_kargs(all.take(0)));
    while i < words.len()
        invariant
            all == words.deep_view(),
            i <= words@.len(),
            r.deep_view() == carried_kargs(all.take(i as int)),
        decreases words@.len() - i,
    {
        proof {
            assert(all[i as int] == words@[i as int]@);
            assert(all.take(i + 1).drop_last() =~= all.take(i as int));
            assert(all.take(i + 1).last() == all[i as int]);
        }
        let ghost before = r.deep_view();
        let w: &str = words[i].as_str();
        if starts_with(w, "console=") || starts_with(w, "rd.lvm.lv=") || starts_with(w, "rd.luks.")
            || starts_with(w, "systemd.log_level=") {
            r.push(words[i].clone());
            assert(r.deep_view() =~= before.push(all[i as int]));
        }
        i = i + 1;
    }
    assert(all.take(i as int) =~= all);
    r
}

/// The record of a run.
#[derive(Debug, Clone, PartialEq, Eq)]
pub struct OstreeInstallReport {
    pub target_image: String,
    pub deployment: String,
    pub esp: String,
    pub esp_snapshot_dir: String,
    pub esp_paths_restored: Vec<String>,
    pub etc_merge: String,
    pub var_copied: bool,
    pub cross_family: bool,
    pub grub_boot_entry: Option<String>,
}

/// What the host looks like before a run.
#[derive(Debug, Clone, PartialEq, Eq)]
pub struct InstallFacts {
    /// The kernel's command line.
    pub cmdline: String,
    /// Whether the machine booted through UEFI.
    pub uefi: bool,
    pub has_podman: bool,
    pub has_efibootmgr: bool,
    /// The names under [`OSTREE_DEPLOY_DIR`].
    pub existing_deployments: Vec<String>,
}

/// The refusal where a tool is missing.
pub open spec fn missing_tool(tool: Seq<char>) -> Seq<char> {
    "`"@ + tool + "` is required for the composefs -> ostree route and was not found"@
}

/// The refusal of a run on this host, if there is a reason: it is no composefs
/// host, or has no UEFI, or lacks a tool, or has an OSTree deployment already.
pub open spec fn install_refusal(
    cmdline: Seq<char>,
    uefi: bool,
    has_podman: bool,
    has_efibootmgr: bool,
    existing: Seq<Seq<char>>,
    force: bool,
) -> Option<Seq<char>> {
    if !holds(cmdline, "composefs="@) && !force {
        Some(
            "System is not booted from a composefs deployment (/proc/cmdline has no composefs= parameter); this route converts a composefs host back to the OSTree backend. Use --force to override."@,
        )
    } else if !uefi {
        Some("the composefs -> ostree route requires UEFI firmware (NVRAM boot entries)."@)
    } else if !has_podman {
        Some(missing_tool("podman"@))
    } else if !has_efibootmgr {
        Some(missing_tool("efibootmgr"@))
    } else if existing.len() > 0 && !force {
        Some(
            "an OSTree deployment already exists under /sysroot/ostree/deploy/default/deploy ("@
                + join(existing, ", "@)
                + "). If this host was migrated by bootc-migrate and never committed, `bootc-migrate rollback` returns to it without reinstalling; pass --force to install a fresh deployment alongside it anyway."@,
        )
    } else {
        None
    }
}

/// The refusal where a tool is missing.
fn missing_tool_message(tool: &str) -> (r: String)
    ensures
        r@ == missing_tool(tool@),
{
    let mut m: String = "`".to_owned();
    m.append(tool);
    m.append("` is required for the composefs -> ostree route and was not found");
    m
}

/// The refusal of a run on this host, if there is a reason.
pub fn refuse_install(facts: &InstallFacts, force: bool) -> (r: Option<String>)
    ensures
        r.deep_view() == install_refusal(
            facts.cmdline@,
            facts.uefi,
            facts.has_podman,
            facts.has_efibootmgr,
            facts.existing_deployments.deep_view(),
            force,
        ),
{
    if !contains(facts.cmdline.as_str(), "composefs=") && !force {
        return Some(
            "System is not booted from a composefs deployment (/proc/cmdline has no composefs= parameter); this route converts a composefs host back to the OSTree backend. Use --force to override.".to_owned(),
        );
    }
    if !facts.uefi {
        return Some(
            "the composefs -> ostree route requires UEFI firmware (NVRAM boot entries).".to_owned(),
        );
    }
    if !facts.has_podman {
        return Some(missing_tool_message("podman"));
    }
    if !facts.has_efibootmgr {
        return Some(missing_tool_message("efibootmgr"));
    }
    assert(facts.existing_deployments@.len() == facts.existing_deployments.deep_view().len());
    if facts.existing_deployments.len() > 0 && !force {
        let mut m: String = "an OSTree deployment already exists under /sysroot/ostree/deploy/default/deploy (".to_owned();
        m.append(joined(facts.existing_deployments.as_slice(), ", ").as_str());
        m.append("). If this host was migrated by bootc-migrate and never committed, `bootc-migrate rollback` returns to it without reinstalling; pass --force to install a fresh deployment alongside it anyway.");
        return Some(m);
    }
    None
}

/// A move of the route behind its opening.
#[derive(Debug, Clone, Copy, PartialEq, Eq, Structural)]
pub enum InstallMove {
    /// Stop before a target of another family, unless it was accepted.
    GateFamily { accepted: bool },
    /// Stop where [`check_capabilities`] refuses the target.
    CheckCapabilities,
    /// Find the EFI system partition.
    LocateEsp,
    /// Find out which image the host runs.
    FindBootedImage,
    /// Say what [`dry_run_lines`] says.
    Preview,
    /// Keep the machine awake.
    InhibitSleep,
    /// Go through the stages, from the one given.
    Stages(InstallStage),
}

/// Whether the move changes the system.
pub open spec fn changes_host(m: InstallMove) -> bool {
    m is InhibitSleep || m is Stages
}

/// Whether the move may stop the route before anything is changed.
pub open spec fn is_install_gate(m: InstallMove) -> bool {
    m is GateFamily || m is CheckCapabilities
}

/// The moves behind the opening. The target's family comes first: another one
/// must be accepted by name, which insisting is not. What the target ships is
/// looked at unless the user skips that. The partition and the booted image
/// follow, and then the stages, or in a dry run what they would do.
pub open spec fn install_moves(
    dry_run: bool,
    skip_preflight: bool,
    accept_cross_base: bool,
) -> Seq<InstallMove> {
    seq![InstallMove::GateFamily { accepted: accept_cross_base }] + (if skip_preflight {
        Seq::empty()
    } else {
        seq![InstallMove::CheckCapabilities]
    }) + seq![InstallMove::LocateEsp, InstallMove::FindBootedImage] + (if dry_run {
        seq![InstallMove::Preview]
    } else {
        seq![InstallMove::InhibitSleep, InstallMove::Stages(InstallStage::Pull)]
    })
}

/// What the route opens with.
#[derive(Debug, Clone, PartialEq, Eq)]
pub struct InstallOpening {
    /// What is said.
    pub lines: Vec<String>,
    /// Why the route goes no further, if it does not.
    pub refusal: Option<String>,
    /// The moves that follow. A refused run has none.
    pub moves: Vec<InstallMove>,
}

/// What is said before the host is looked at.
pub open spec fn opening_lines(dry_run: bool) -> Seq<Seq<char>> {
    (if dry_run {
        seq!["*** DRY RUN MODE — no changes will be made ***"@]
    } else {
        Seq::empty()
    }) + seq!["Checking system state..."@]
}

impl OstreeInstallConfig<'_> {
    /// What the route opens with, and the moves that follow: the image must be
    /// one that can be written to a descriptor, and the host one that the route
    /// is for. A dry run goes through no stage.
    pub fn run(&self, facts: &InstallFacts) -> (r: InstallOpening)
        ensures
            if !is_one_line(self.target_image@) {
                r.lines@.len() == 0 && r.refusal.deep_view() == Some(bad_image())
            } else {
                r.lines.deep_view() == opening_lines(self.dry_run) && r.refusal.deep_view()
                    == install_refusal(
                    facts.cmdline@,
                    facts.uefi,
                    facts.has_podman,
                    facts.has_efibootmgr,
                    facts.existing_deployments.deep_view(),
                    self.force,
                )
            },
            r.moves@ == (if r.refusal is Some {
                Seq::empty()
            } else {
                install_moves(self.dry_run, self.skip_preflight, self.accept_cross_base)
            }),
    {
        match validate_target_image(self.target_image) {
            Ok(_) => {},
            Err(e) => {
                return InstallOpening {
                    lines: Vec::new(),
                    refusal: Some(e),
                    moves: Vec::new(),
                };
            },
        }
        let mut lines: Vec<String> = Vec::new();
        if self.dry_run {
            lines.push("*** DRY RUN MODE — no changes will be made ***".to_owned());
        }
        lines.push("Checking system state...".to_owned());
        assert(lines.deep_view() =~= opening_lines(self.dry_run));
        let refusal: Option<String> = refuse_install(facts, self.force);
        let mut moves: Vec<InstallMove> = Vec::new();
        if refusal.is_none() {
            moves.push(InstallMove::GateFamily { accepted: self.accept_cross_base });
            if !self.skip_preflight {
                moves.push(InstallMove::CheckCapabilities);
            }
            moves.push(InstallMove::LocateEsp);
            moves.push(InstallMove::FindBootedImage);
            match first_stage(self, false) {
                Some(stage) => {
                    moves.push(InstallMove::InhibitSleep);
                    moves.push(InstallMove::Stages(stage));
                },
                None => moves.push(InstallMove::Preview),
            }
            assert(moves@ =~= install_moves(
                self.dry_run,
                self.skip_preflight,
                self.accept_cross_base,
            ));
        }
        InstallOpening { lines, refusal, moves }
    }
}

/// The stage that a run begins with. A run that is refused, and a dry run, go
/// through none.
pub fn first_stage(config: &OstreeInstallConfig<'_>, refused: bool) -> (r: Option<InstallStage>)
    ensures
        r == (if refused || config.dry_run {
            None
        } else {
            Some(InstallStage::Pull)
        }),
{
    if refused || config.dry_run {
        None
    } else {
        Some(InstallStage::Pull)
    }
}

/// A dry run changes nothing: it goes through no stage.
pub proof fn law_dry_install_changes_nothing(
    skip_preflight: bool,
    accept_cross_base: bool,
    i: int,
)
    requires
        0 <= i < install_moves(true, skip_preflight, accept_cross_base).len(),
    ensures
        !changes_host(install_moves(true, skip_preflight, accept_cross_base)[i]),
{
}

/// The gates come before the first change.
pub proof fn law_install_gates_come_first(
    dry_run: bool,
    skip_preflight: bool,
    accept_cross_base: bool,
    i: int,
    j: int,
)
    requires
        0 <= i < install_moves(dry_run, skip_preflight, accept_cross_base).len(),
        0 <= j < install_moves(dry_run, skip_preflight, accept_cross_base).len(),
        is_install_gate(install_moves(dry_run, skip_preflight, accept_cross_base)[i]),
        changes_host(install_moves(dry_run, skip_preflight, accept_cross_base)[j]),
    ensures
        i < j,
{
}

/// The target is looked at unless the user skips it, and another family needs
/// acceptance whatever is skipped.
pub proof fn law_only_the_look_at_the_target_is_skipped(
    dry_run: bool,
    skip_preflight: bool,
    accept_cross_base: bool,
)
    ensures
        install_moves(dry_run, skip_preflight, accept_cross_base).contains(
            InstallMove::CheckCapabilities,
        ) <==> !skip_preflight,
        install_moves(dry_run, skip_preflight, accept_cross_base)[0] == (
        InstallMove::GateFamily { accepted: accept_cross_base }),
{
    let m = install_moves(dry_run, skip_preflight, accept_cross_base);
    if !skip_preflight {
        assert(m[1] == InstallMove::CheckCapabilities);
    }
}

/// The refusal of an image without bootc.
pub open spec fn no_bootc(image: Seq<char>) -> Seq<char> {
    "target image "@ + image
        + " ships no bootc; `bootc install to-existing-root` runs the target's own bootc. Use --force to try anyway."@
}

/// The refusal of an image without bootupd.
pub open spec fn no_bootupd(image: Seq<char>) -> Seq<char> {
    "target image "@ + image
        + " ships no bootupd (usr/bin/bootupctl + usr/lib/bootupd/updates); bootc's ostree backend cannot install a bootloader from it, so this route needs a target that ships bootupd (Bluefin, Fedora or CentOS bootc images do). Use --force to try anyway."@
}

/// The warning about an image that may not be built for OSTree.
pub open spec fn no_prepare_root(image: Seq<char>) -> Seq<char> {
    "Warning: target image "@ + image
        + " has no prepare-root.conf; bootc's ostree backend will still deploy it, but the image may not be built for ostree booting."@
}

/// Whether the image can be installed: with a warning, or not at all.
pub fn check_capabilities(caps: &Capabilities, target_image: &str, force: bool) -> (r: Result<
    Option<String>,
    String,
>)
    ensures
        match r {
            Err(m) => !force && (!caps.bootc_present && m@ == no_bootc(target_image@)
                || caps.bootc_present && !caps.bootupd_present && m@ == no_bootupd(target_image@)),
            Ok(w) => (force || caps.bootc_present && caps.bootupd_present) && w.deep_view() == (
            if caps.ostree_capable {
                None
            } else {
                Some(no_prepare_root(target_image@))
            }),
        },
{
    if !caps.bootc_present && !force {
        let mut m: String = "target image ".to_owned();
        m.append(target_image);
        m.append(" ships no bootc; `bootc install to-existing-root` runs the target's own bootc. Use --force to try anyway.");
        return Err(m);
    }
    if !caps.bootupd_present && !force {
        let mut m: String = "target image ".to_owned();
        m.append(target_image);
        m.append(" ships no bootupd (usr/bin/bootupctl + usr/lib/bootupd/updates); bootc's ostree backend cannot install a bootloader from it, so this route needs a target that ships bootupd (Bluefin, Fedora or CentOS bootc images do). Use --force to try anyway.");
        return Err(m);
    }
    if !caps.ostree_capable {
        let mut w: String = "Warning: target image ".to_owned();
        w.append(target_image);
        w.append(" has no prepare-root.conf; bootc's ostree backend will still deploy it, but the image may not be built for ostree booting.");
        return Ok(Some(w));
    }
    Ok(None)
}

/// What a dry run says it would do.
pub open spec fn dry_run_text(
    image: Seq<char>,
    esp: Seq<char>,
    cmdline: Seq<char>,
    booted_image: Option<Seq<char>>,
) -> Seq<Seq<char>> {
    seq![
        "[DRY RUN] Would pull "@ + image + " with podman."@,
        "[DRY RUN] Would snapshot composefs ESP artifacts from "@ + esp
            + " to /var/lib/bootc-rebase/esp-snapshot-*."@,
        "[DRY RUN] Would run: "@ + join(
            install_argv(image, carried_kargs(fields(cmdline))),
            " "@,
        ),
        "[DRY RUN] Would 3-way merge /etc into the new deployment (source defaults from "@ + (
        match booted_image {
            Some(b) => b,
            None => "<unknown booted image>"@,
        })
            + "), copy /var to /sysroot/ostree/deploy/default/var, restore the composefs ESP artifacts, and put the GRUB entry first in BootOrder."@,
    ]
}

/// What a dry run says it would do.
pub fn dry_run_lines(
    target_image: &str,
    esp: &str,
    cmdline: &str,
    booted_image: Option<&str>,
) -> (r: Vec<String>)
    ensures
        r.deep_view() == dry_run_text(
            target_image@,
            esp@,
            cmdline@,
            match booted_image {
                Some(b) => Some(b@),
                None => None,
            },
        ),
{
    let mut a: String = "[DRY RUN] Would pull ".to_owned();
    a.append(target_image);
    a.append(" with podman.");
    let mut b: String = "[DRY RUN] Would snapshot composefs ESP artifacts from ".to_owned();
    b.append(esp);
    b.append(" to /var/lib/bootc-rebase/esp-snapshot-*.");
    let kargs: Vec<String> = carry_over_kargs(cmdline);
    let argv: Vec<String> = install_command(target_image, kargs.as_slice());
    let mut c: String = "[DRY RUN] Would run: ".to_owned();
    c.append(joined(argv.as_slice(), " ").as_str());
    let mut d: String = "[DRY RUN] Would 3-way merge /etc into the new deployment (source defaults from ".to_owned();
    match booted_image {
        Some(image) => d.append(image),
        None => d.append("<unknown booted image>"),
    }
    d.append("), copy /var to /sysroot/ostree/deploy/default/var, restore the composefs ESP artifacts, and put the GRUB entry first in BootOrder.");
    let mut r: Vec<String> = Vec::new();
    r.push(a);
    r.push(b);
    r.push(c);
    r.push(d);
    assert(r.deep_view() =~= dry_run_text(
        target_image@,
        esp@,
        cmdline@,
        match booted_image {
            Some(b) => Some(b@),
            None => None,
        },
    ));
    r
}

/// Where a run stands.
#[derive(Debug, Clone, Copy, PartialEq, Eq, Structural)]
pub enum InstallStage {
    Pull,
    SnapshotEsp,
    RemountRoot,
    BindBoot,
    Install,
    UnbindBoot,
    FindDeployment,
    MergeEtc,
    CopyVar,
    PostMerge,
    RestoreEsp,
    OrderNvram,
    WriteReport,
    Finished,
    Failed,
}

/// The line that a stage begins with, where it has one.
pub open spec fn heading_of(
    s: InstallStage,
    image: Seq<char>,
    esp: Seq<char>,
) -> Option<Seq<char>> {
    match s {
        InstallStage::Pull => Some("=== Pull: "@ + image + " ==="@),
        InstallStage::SnapshotEsp => Some("=== ESP snapshot: "@ + esp + " ==="@),
        InstallStage::RemountRoot => Some(
            "=== Deploy: bootc install to-existing-root ("@ + image + ") ==="@,
        ),
        InstallStage::MergeEtc => Some("=== /etc: 3-way merge into the new deployment ==="@),
        InstallStage::CopyVar => Some("=== /var: carrying the live tree into the stateroot ==="@),
        InstallStage::RestoreEsp => Some(
            "=== Bootloader: restoring the composefs rollback entry ==="@,
        ),
        InstallStage::Finished => Some(
            "OSTree deployment staged. Reboot to enter it; the composefs deployment stays selectable through the \"Linux Boot Manager\" firmware entry as rollback."@,
        ),
        _ => None,
    }
}

/// The line that a stage begins with, where it has one.
pub fn stage_heading(stage: InstallStage, target_image: &str, esp: &str) -> (r: Option<String>)
    ensures
        r.deep_view() == heading_of(stage, target_image@, esp@),
{
    match stage {
        InstallStage::Pull => {
            let mut m: String = "=== Pull: ".to_owned();
            m.append(target_image);
            m.append(" ===");
            Some(m)
        },
        InstallStage::SnapshotEsp => {
            let mut m: String = "=== ESP snapshot: ".to_owned();
            m.append(esp);
            m.append(" ===");
            Some(m)
        },
        InstallStage::RemountRoot => {
            let mut m: String = "=== Deploy: bootc install to-existing-root (".to_owned();
            m.append(target_image);
            m.append(") ===");
            Some(m)
        },
        InstallStage::MergeEtc => Some(
            "=== /etc: 3-way merge into the new deployment ===".to_owned(),
        ),
        InstallStage::CopyVar => Some(
            "=== /var: carrying the live tree into the stateroot ===".to_owned(),
        ),
        InstallStage::RestoreEsp => Some(
            "=== Bootloader: restoring the composefs rollback entry ===".to_owned(),
        ),
        InstallStage::Finished => Some(
            "OSTree deployment staged. Reboot to enter it; the composefs deployment stays selectable through the \"Linux Boot Manager\" firmware entry as rollback.".to_owned(),
        ),
        _ => None,
    }
}

/// The error of an install that ended with the status.
pub fn install_failure(status: &str, snapshot_dir: &str) -> (r: String)
    ensures
        r@ == "bootc install to-existing-root failed (exit "@ + status@
            + "); the composefs ESP snapshot is at "@ + snapshot_dir@
            + " — restore it with `bootc-rebase` before rebooting if the ESP was already emptied"@,
{
    let mut m: String = "bootc install to-existing-root failed (exit ".to_owned();
    m.append(status);
    m.append("); the composefs ESP snapshot is at ");
    m.append(snapshot_dir);
    m.append(
        " — restore it with `bootc-rebase` before rebooting if the ESP was already emptied",
    );
    m
}

/// Where the composefs files are saved, for a run at the given time.
pub fn snapshot_dir(unix_secs: u64) -> (r: String)
    ensures
        r@ == "/var/lib/bootc-rebase/esp-snapshot-"@ + decimal(unix_secs as nat),
{
    let mut s: String = "/var/lib/bootc-rebase/esp-snapshot-".to_owned();
    s.append(decimal_of(unix_secs).as_str());
    s
}

/// How far a stage is from the start.
pub open spec fn stage_rank(s: InstallStage) -> int {
    match s {
        InstallStage::Pull => 0,
        InstallStage::SnapshotEsp => 1,
        InstallStage::RemountRoot => 2,
        InstallStage::BindBoot => 3,
        InstallStage::Install => 4,
        InstallStage::UnbindBoot => 5,
        InstallStage::FindDeployment => 6,
        InstallStage::MergeEtc => 7,
        InstallStage::CopyVar => 8,
        InstallStage::PostMerge => 9,
        InstallStage::RestoreEsp => 10,
        InstallStage::OrderNvram => 11,
        InstallStage::WriteReport => 12,
        InstallStage::Finished => 13,
        InstallStage::Failed => 14,
    }
}

/// The stage behind the one given, where that one succeeded.
pub open spec fn stage_behind(s: InstallStage, cross_family: bool) -> InstallStage {
    match s {
        InstallStage::Pull => InstallStage::SnapshotEsp,
        InstallStage::SnapshotEsp => InstallStage::RemountRoot,
        InstallStage::RemountRoot => InstallStage::BindBoot,
        InstallStage::BindBoot => InstallStage::Install,
        InstallStage::Install => InstallStage::UnbindBoot,
        InstallStage::UnbindBoot => InstallStage::FindDeployment,
        InstallStage::FindDeployment => InstallStage::MergeEtc,
        InstallStage::MergeEtc => InstallStage::CopyVar,
        InstallStage::CopyVar => if cross_family {
            InstallStage::PostMerge
        } else {
            InstallStage::RestoreEsp
        },
        InstallStage::PostMerge => InstallStage::RestoreEsp,
        InstallStage::RestoreEsp => InstallStage::OrderNvram,
        InstallStage::OrderNvram => InstallStage::WriteReport,
        InstallStage::WriteReport => InstallStage::Finished,
        InstallStage::Finished => InstallStage::Finished,
        InstallStage::Failed => InstallStage::Failed,
    }
}

/// Whether a run goes on where the stage failed: the root may be writable
/// already, and mounts may be gone.
pub open spec fn may_fail(s: InstallStage) -> bool {
    s == InstallStage::RemountRoot || s == InstallStage::UnbindBoot || s == InstallStage::Finished
}

/// The stage that a run goes to.
pub open spec fn stage_after(s: InstallStage, succeeded: bool, cross_family: bool) -> InstallStage {
    if succeeded || may_fail(s) {
        stage_behind(s, cross_family)
    } else {
        InstallStage::Failed
    }
}

/// The stage that a run goes to, once the one given succeeded or failed.
/// `cross_family` says whether the policy between families was applied to
/// `/etc`.
pub fn next_stage(stage: InstallStage, succeeded: bool, cross_family: bool) -> (r: InstallStage)
    ensures
        r == stage_after(stage, succeeded, cross_family),
{
    let may_go_on: bool = match stage {
        InstallStage::RemountRoot => true,
        InstallStage::UnbindBoot => true,
        InstallStage::Finished => true,
        _ => succeeded,
    };
    if !may_go_on {
        return InstallStage::Failed;
    }
    match stage {
        InstallStage::Pull => InstallStage::SnapshotEsp,
        InstallStage::SnapshotEsp => InstallStage::RemountRoot,
        InstallStage::RemountRoot => InstallStage::BindBoot,
        InstallStage::BindBoot => InstallStage::Install,
        InstallStage::Install => InstallStage::UnbindBoot,
        InstallStage::UnbindBoot => InstallStage::FindDeployment,
        InstallStage::FindDeployment => InstallStage::MergeEtc,
        InstallStage::MergeEtc => InstallStage::CopyVar,
        InstallStage::CopyVar => if cross_family {
            InstallStage::PostMerge
        } else {
            InstallStage::RestoreEsp
        },
        InstallStage::PostMerge => InstallStage::RestoreEsp,
        InstallStage::RestoreEsp => InstallStage::OrderNvram,
        InstallStage::OrderNvram => InstallStage::WriteReport,
        InstallStage::WriteReport => InstallStage::Finished,
        InstallStage::Finished => InstallStage::Finished,
        InstallStage::Failed => InstallStage::Failed,
    }
}

/// The stage that a run stands at after the given outcomes.
pub open spec fn stage_at(outcomes: Seq<bool>, cross_family: bool) -> InstallStage
    decreases outcomes.len(),
{
    if outcomes.len() == 0 {
        InstallStage::Pull
    } else {
        stage_after(
            stage_at(outcomes.drop_last(), cross_family),
            outcomes.last(),
            cross_family,
        )
    }
}

/// A run only moves forward, until it has finished or failed.
pub proof fn law_stages_move_forward(s: InstallStage, succeeded: bool, cross_family: bool)
    requires
        s != InstallStage::Finished,
        s != InstallStage::Failed,
    ensures
        stage_rank(stage_after(s, succeeded, cross_family)) > stage_rank(s),
{
}

/// The way back is safe: a run that reached the install has pulled the image
/// and saved the composefs files before, and both succeeded.
pub proof fn law_esp_is_saved_before_the_install(outcomes: Seq<bool>, cross_family: bool)
    requires
        stage_at(outcomes, cross_family) == InstallStage::Install,
    ensures
        outcomes.len() == 4,
        outcomes[0],
        outcomes[1],
        outcomes[3],
        stage_at(outcomes.take(1), cross_family) == InstallStage::SnapshotEsp,
{
    let a = outcomes.drop_last();
    assert(stage_at(a, cross_family) == InstallStage::BindBoot);
    let b = a.drop_last();
    assert(stage_at(b, cross_family) == InstallStage::RemountRoot);
    let c = b.drop_last();
    assert(stage_at(c, cross_family) == InstallStage::SnapshotEsp);
    let d = c.drop_last();
    assert(stage_at(d, cross_family) == InstallStage::Pull);
    if d.len() > 0 {
        let e = stage_at(d.drop_last(), cross_family);
        assert(stage_after(e, d.last(), cross_family) == InstallStage::Pull);
    }
    assert(c =~= outcomes.take(1));
}

/// The boot order is changed only once the composefs files are back in place.
pub proof fn law_esp_is_restored_before_the_boot_order(outcomes: Seq<bool>, cross_family: bool)
    requires
        stage_at(outcomes, cross_family) == InstallStage::OrderNvram,
    ensures
        outcomes.len() > 0,
        outcomes.last(),
        stage_at(outcomes.drop_last(), cross_family) == InstallStage::RestoreEsp,
{
}

/// Whether one of the saved paths is a kernel of the composefs deployment.
pub open spec fn has_kernel(paths: Seq<Seq<char>>) -> bool {
    exists|i: int| 0 <= i < paths.len() && begins(#[trigger] paths[i], "EFI/Linux/bootc_composefs-"@)
}

/// Whether the running deployment can come back from what was saved: one of
/// the saved paths is its kernel.
pub fn snapshot_is_bootable(paths: &[String]) -> (r: bool)
    ensures
        r == has_kernel(paths.deep_view()),
{
    let ghost all = paths.deep_view();
    let mut i: usize = 0;
    while i < paths.len()
        invariant
            all == paths.deep_view(),
            i <= paths@.len(),
            forall|k: int|
                0 <= k < i ==> !begins(#[trigger] all[k], "EFI/Linux/bootc_composefs-"@),
        decreases paths@.len() - i,
    {
        assert(all[i as int] == paths@[i as int]@);
        if starts_with(paths[i].as_str(), "EFI/Linux/bootc_composefs-") {
            return true;
        }
        i = i + 1;
    }
    false
}

/// The paths that are not present.
pub open spec fn absent(paths: Seq<Seq<char>>, present: Seq<Seq<char>>) -> Seq<Seq<char>>
    decreases paths.len(),
{
    if paths.len() == 0 {
        Seq::empty()
    } else if present.contains(paths.last()) {
        absent(paths.drop_last(), present)
    } else {
        absent(paths.drop_last(), present).push(paths.last())
    }
}

/// The saved paths to put back, in order: those that are not on the EFI system
/// partition now. What the install wrote is never overwritten.
pub fn paths_to_restore(saved: &[String], present: &[String]) -> (r: Vec<String>)
    ensures
        r.deep_view() == absent(sorted_texts(saved.deep_view()), present.deep_view()),
{
    let paths: Vec<String> = sort_texts(saved);
    let ghost all = paths.deep_view();
    let mut r: Vec<String> = Vec::new();
    let mut i: usize = 0;
    assert(r.deep_view() =~= absent(all.take(0), present.deep_view()));
    while i < paths.len()
        invariant
            all == paths.deep_view(),
            i <= paths@.len(),
            r.deep_view() == absent(all.take(i as int), present.deep_view()),
        decreases paths@.len() - i,
    {
        proof {
            assert(all[i as int] == paths@[i as int]@);
            assert(all.take(i + 1).drop_last() =~= all.take(i as int));
            assert(all.take(i + 1).last() == all[i as int]);
        }
        let ghost before = r.deep_view();
        if !list_contains(present, paths[i].as_str()) {
            r.push(paths[i].clone());
            assert(r.deep_view() =~= before.push(all[i as int]));
        }
        i = i + 1;
    }
    assert(all.take(i as int) =~= all);
    r
}

/// Restoring overwrites nothing.
pub proof fn law_restore_overwrites_nothing(
    paths: Seq<Seq<char>>,
    present: Seq<Seq<char>>,
    k: int,
)
    requires
        0 <= k < absent(paths, present).len(),
    ensures
        !present.contains(absent(paths, present)[k]),
    decreases paths.len(),
{
    if paths.len() > 0 {
        let d = paths.drop_last();
        if k < absent(d, present).len() {
            law_restore_overwrites_nothing(d, present, k);
        }
    }
}

/// The bind mounts that the install needs: each live mount with its place
/// under the physical root.
pub open spec fn bind_plan(esp: Seq<char>, live: Seq<Seq<char>>) -> Seq<(Seq<char>, Seq<char>)> {
    if esp == "/boot"@ {
        seq![("/boot"@, "boot/efi"@)]
    } else {
        (if live.contains("/boot"@) {
            seq![("/boot"@, "boot"@)]
        } else {
            Seq::empty()
        }) + (if live.contains("/boot/efi"@) {
            seq![("/boot/efi"@, "boot/efi"@)]
        } else {
            Seq::empty()
        }) + (if esp != "/boot/efi"@ && live.contains(esp) {
            seq![(esp, "boot/efi"@)]
        } else {
            Seq::empty()
        })
    }
}

/// Whether the text is one of the list.
fn is_one_of(x: &str, list: &[&str]) -> (r: bool)
    ensures
        r == list.deep_view().contains(x@),
{
    let ghost all = list.deep_view();
    let mut i: usize = 0;
    while i < list.len()
        invariant
            all == list.deep_view(),
            i <= list@.len(),
            forall|k: int| 0 <= k < i ==> #[trigger] all[k] != x@,
        decreases list@.len() - i,
    {
        assert(all[i as int] == list@[i as int]@);
        if same(list[i], x) {
            return true;
        }
        i = i + 1;
    }
    false
}

/// The bind mounts that the install needs, for a host whose EFI system
/// partition is mounted at `esp`.
pub fn boot_bind_plan(esp: &str, live_mounts: &[&str]) -> (r: Vec<(String, String)>)
    ensures
        r.deep_view() == bind_plan(esp@, live_mounts.deep_view()),
{
    let mut plan: Vec<(String, String)> = Vec::new();
    if same(esp, "/boot") {
        plan.push(("/boot".to_owned(), "boot/efi".to_owned()));
        assert(plan.deep_view() =~= seq![("/boot"@, "boot/efi"@)]);
        return plan;
    }
    let ghost live = live_mounts.deep_view();
    if is_one_of("/boot", live_mounts) {
        plan.push(("/boot".to_owned(), "boot".to_owned()));
    }
    if is_one_of("/boot/efi", live_mounts) {
        plan.push(("/boot/efi".to_owned(), "boot/efi".to_owned()));
    }
    if !same(esp, "/boot/efi") && is_one_of(esp, live_mounts) {
        plan.push((esp.to_owned(), "boot/efi".to_owned()));
    }
    assert(plan.deep_view() =~= bind_plan(esp@, live));
    plan
}

/// The reference that podman knows the booted image by: without its transport.
pub open spec fn podman_reference(image: Seq<char>) -> Seq<char> {
    match after(image, "docker://"@) {
        Some(r) => r,
        None => match after(image, "ostree-unverified-image:docker://"@) {
            Some(r) => r,
            None => match after(image, "ostree-unverified-registry:"@) {
                Some(r) => r,
                None => image,
            },
        },
    }
}

/// The reference that podman knows the booted image by.
pub fn booted_image_reference(image: &str) -> (r: String)
    ensures
        r@ == podman_reference(image@),
{
    match strip_prefix(image, "docker://") {
        Some(r) => r,
        None => match strip_prefix(image, "ostree-unverified-image:docker://") {
            Some(r) => r,
            None => match strip_prefix(image, "ostree-unverified-registry:") {
                Some(r) => r,
                None => image.to_owned(),
            },
        },
    }
}

/// Where the source's defaults for `/etc` come from.
#[derive(Debug, Clone, Copy, PartialEq, Eq, Structural)]
pub enum EtcDefaults {
    /// The booted image, mounted by podman.
    PodmanMount,
    /// The booted image, streamed from its registry.
    RegistryStream,
    /// Nowhere: every live path is kept.
    Nowhere,
}

/// Where the source's defaults come from: the cached image if it has an
/// `/etc`, else the registry, else nowhere. Nothing is tried where the booted
/// image is unknown.
pub fn choose_etc_defaults(
    image_known: bool,
    mounted_with_etc: bool,
    streamed: bool,
) -> (r: EtcDefaults)
    ensures
        r == (if image_known && mounted_with_etc {
            EtcDefaults::PodmanMount
        } else if image_known && streamed {
            EtcDefaults::RegistryStream
        } else {
            EtcDefaults::Nowhere
        }),
{
    if image_known && mounted_with_etc {
        EtcDefaults::PodmanMount
    } else if image_known && streamed {
        EtcDefaults::RegistryStream
    } else {
        EtcDefaults::Nowhere
    }
}

/// What the merge of `/etc` into the new deployment does.
#[derive(Debug, Clone, PartialEq, Eq)]
pub struct EtcMergePlan {
    /// The decisions taken beforehand, under the policy between families.
    pub overrides: Option<EtcDriftManifest>,
    /// Whether the target's account databases come first.
    pub identity_target_first: bool,
    /// What the steps after the merge need, under the policy between families.
    pub outcome: Option<CrossFamilyEtcOutcome>,
}

/// Whether `p` does with each path what the policy between families says.
pub open spec fn follows_policy(p: EtcCrossFamilyPlan, states: Seq<crate::mergetc::EtcPathStateView>) -> bool {
    &&& p.take_target.deep_view() == sorted_set(paths_with(states, EtcFate::TakeTarget))
    &&& p.dropped.deep_view() == sorted_set(paths_with(states, EtcFate::Drop))
    &&& p.carried.deep_view() == sorted_set(paths_with(states, EtcFate::Carry))
    &&& p.identity.deep_view() == sorted_set(paths_with(states, EtcFate::MergeIdentity))
    &&& p.sidecars.deep_view() == sorted_set(sidecar_paths(states))
}

/// What the merge of `/etc` does: under a plan between families each path is
/// decided and the target's accounts come first; otherwise nothing is decided
/// and the source's come first.
pub fn plan_etc_merge(
    plan: Option<CrossFamilyPlan>,
    states: &[EtcPathState],
    target_passwd: String,
    target_group: String,
    target_selinux: Option<SelinuxConfig>,
) -> (r: EtcMergePlan)
    ensures
        r.identity_target_first == (plan is Some),
        match plan {
            None => r.overrides is None && r.outcome is None,
            Some(p) => {
                &&& r.outcome matches Some(o) && o.plan == p && follows_policy(
                    o.etc_plan,
                    states.deep_view(),
                ) && o.target_passwd == target_passwd && o.target_group == target_group
                    && o.target_selinux == target_selinux && r.overrides is Some
                    && r.overrides->0.decisions.deep_view() == sorted_set(
                    o.etc_plan.take_target.deep_view() + o.etc_plan.dropped.deep_view(),
                ).map_values(|x: Seq<char>| (x, false))
            },
        },
{
    match plan {
        None => EtcMergePlan { overrides: None, identity_target_first: false, outcome: None },
        Some(p) => {
            let etc_plan: EtcCrossFamilyPlan = plan_etc(states);
            let overrides: EtcDriftManifest = etc_plan.overrides();
            EtcMergePlan {
                overrides: Some(overrides),
                identity_target_first: true,
                outcome: Some(
                    CrossFamilyEtcOutcome {
                        plan: p,
                        etc_plan,
                        target_passwd,
                        target_group,
                        target_selinux,
                    },
                ),
            }
        },
    }
}

/// The merge in one line.
pub open spec fn merge_line(defaults: EtcDefaults, cross_family: bool) -> Seq<char> {
    "merged (old default: "@ + (match defaults {
        EtcDefaults::PodmanMount => "booted image (podman mount)"@,
        EtcDefaults::RegistryStream => "booted image (registry stream)"@,
        EtcDefaults::Nowhere => "none — live /etc kept"@,
    }) + ", policy: "@ + (if cross_family {
        "cross-family"@
    } else {
        "same-lineage"@
    }) + ")"@
}

/// The merge in one line.
pub fn merge_summary(defaults: EtcDefaults, cross_family: bool) -> (r: String)
    ensures
        r@ == merge_line(defaults, cross_family),
{
    let mut s: String = "merged (old default: ".to_owned();
    match defaults {
        EtcDefaults::PodmanMount => s.append("booted image (podman mount)"),
        EtcDefaults::RegistryStream => s.append("booted image (registry stream)"),
        EtcDefaults::Nowhere => s.append("none — live /etc kept"),
    }
    s.append(", policy: ");
    if cross_family {
        s.append("cross-family");
    } else {
        s.append("same-lineage");
    }
    s.append(")");
    s
}

/// The entry of the OSTree loader and the boot order that puts it first, from
/// the output of `efibootmgr -v`. Where there is no such entry the order stays.
pub fn grub_first(efibootmgr_v: &str) -> (r: Option<(String, String)>)
    ensures
        r.deep_view() == (match first_rollback_id(lines(efibootmgr_v@)) {
            Some(id) => Some(
                (
                    id,
                    promoted_order(
                        match first_scalar(lines(efibootmgr_v@), "BootOrder:"@) {
                            Some(o) => o,
                            None => Seq::empty(),
                        },
                        id,
                    ),
                ),
            ),
            None => None,
        }),
{
    match parse_ostree_boot_entry_id(efibootmgr_v) {
        Some(id) => {
            let order: String = match parse_boot_order(efibootmgr_v) {
                Some(o) => o,
                None => String::new(),
            };
            let new_order: String = build_new_boot_order(order.as_str(), id.as_str());
            Some((id, new_order))
        },
        None => None,
    }
}

} // verus!

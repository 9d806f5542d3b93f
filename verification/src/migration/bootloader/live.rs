//! The change to systemd-boot on the running system, in two moves.
//!
//! The new entry is tried for one boot, with the boot order left alone, so that
//! a failed trial falls back to what was there. Once the trial has been seen to
//! work, the entry is promoted. Undoing removes what was made. GRUB is never
//! touched.

use vstd::prelude::*;

use crate::migration::bootloader::{
    copy_entry, done, push_all, push_do, push_step, BlsEntry, BlsEntryView, BootStep, BootStepView,
};
use crate::migration::rollback::{
    build_new_boot_order, first_scalar, parse_boot_order, promoted_order,
};
use crate::steps::{copy, make_dir, write_file, Step, StepView};
use crate::text::compose::owned_all;
use crate::text::order::list_contains;
use crate::text::paths::{join_path, path_join};
use crate::text::pieces::{lines, lines_of, trim, trimmed};
use crate::text::quote::{quoted, quoted_text};
use crate::text::search::{
    after, all_hex, contains, ends_with, head, holds, is_all_hex, same, starts_with, strip_prefix,
};

verus! {

/// Where what was made is recorded.
pub const STATE_PATH: &'static str = "/var/lib/bootc-rebase/migrate-bootloader-state.json";

/// What keeps the EFI system partition in step with later kernels.
pub const RESYNC_HOOK_PATH: &'static str = "/etc/kernel/install.d/95-bootc-rebase-esp-sync.install";

/// What was made.
#[derive(Debug, Clone, PartialEq, Eq)]
pub struct MigrationState {
    pub entry_token: String,
    pub esp_path: String,
    pub bls_filename: String,
    /// The four hexadecimal digits of the entry in the firmware.
    pub boot_id: String,
}

/// What a [`MigrationState`] holds.
#[verifier::ext_equal]
pub struct MigrationStateView {
    pub entry_token: Seq<char>,
    pub esp_path: Seq<char>,
    pub bls_filename: Seq<char>,
    pub boot_id: Seq<char>,
}

impl DeepView for MigrationState {
    type V = MigrationStateView;

    open spec fn deep_view(&self) -> MigrationStateView {
        MigrationStateView {
            entry_token: self.entry_token@,
            esp_path: self.esp_path@,
            bls_filename: self.bls_filename@,
            boot_id: self.boot_id@,
        }
    }
}

/// What a change starts from. Nothing of it is found out here.
#[derive(Debug, Clone, Copy)]
pub struct MigrateInputs<'a> {
    pub esp_path: &'a str,
    pub state_path: &'a str,
    pub title: &'a str,
    pub cmdline: &'a str,
    pub entry_token_file: Option<&'a str>,
    pub machine_id: &'a str,
}

/// The version of the running kernel, from the output of `uname -r`.
pub fn current_kernel_version(uname: &str) -> (r: String)
    ensures
        r@ == trim(uname@),
{
    trimmed(uname)
}

/// Where the kernel of that version is: with its modules, or else in `/boot`.
pub open spec fn kernel_among(kver: Seq<char>, existing: Seq<Seq<char>>) -> Option<Seq<char>> {
    let with_modules = "/usr/lib/modules/"@ + kver + "/vmlinuz"@;
    let in_boot = "/boot/vmlinuz-"@ + kver;
    if existing.contains(with_modules) {
        Some(with_modules)
    } else if existing.contains(in_boot) {
        Some(in_boot)
    } else {
        None
    }
}

/// Where the kernel of that version is, of the paths that exist.
pub fn find_host_vmlinuz(kver: &str, existing: &[String]) -> (r: Result<String, String>)
    ensures
        match kernel_among(kver@, existing.deep_view()) {
            Some(p) => r is Ok && r->Ok_0@ == p,
            None => r is Err && r->Err_0@ == "could not find vmlinuz for kernel "@ + kver@
                + " under /usr/lib/modules or /boot"@,
        },
{
    let mut with_modules: String = "/usr/lib/modules/".to_owned();
    with_modules.append(kver);
    with_modules.append("/vmlinuz");
    if list_contains(existing, with_modules.as_str()) {
        return Ok(with_modules);
    }
    let mut in_boot: String = "/boot/vmlinuz-".to_owned();
    in_boot.append(kver);
    if list_contains(existing, in_boot.as_str()) {
        return Ok(in_boot);
    }
    let mut m: String = "could not find vmlinuz for kernel ".to_owned();
    m.append(kver);
    m.append(" under /usr/lib/modules or /boot");
    Err(m)
}

/// The command that builds an initrd. Where dracut is in none of its places, it
/// is looked up by name.
pub open spec fn initrd_argv(
    kver: Seq<char>,
    dest: Seq<char>,
    existing: Seq<Seq<char>>,
) -> Seq<Seq<char>> {
    seq![
        if existing.contains("/usr/bin/dracut"@) {
            "/usr/bin/dracut"@
        } else if existing.contains("/usr/sbin/dracut"@) {
            "/usr/sbin/dracut"@
        } else {
            "dracut"@
        },
        "--force"@,
        "--kver"@,
        kver,
        dest,
    ]
}

/// The command that builds an initrd for the kernel.
pub fn build_initrd(kver: &str, dest: &str, existing: &[String]) -> (r: Vec<String>)
    ensures
        r.deep_view() == initrd_argv(kver@, dest@, existing.deep_view()),
{
    let dracut: &str = if list_contains(existing, "/usr/bin/dracut") {
        "/usr/bin/dracut"
    } else if list_contains(existing, "/usr/sbin/dracut") {
        "/usr/sbin/dracut"
    } else {
        "dracut"
    };
    let r: Vec<String> = owned_all(&[dracut, "--force", "--kver", kver, dest]);
    assert(r.deep_view() =~= initrd_argv(kver@, dest@, existing.deep_view()));
    r
}

/// The steps that copy a kernel and its initrd to the EFI system partition.
pub open spec fn populate_steps(
    esp: Seq<char>,
    token: Seq<char>,
    kver: Seq<char>,
    vmlinuz: Seq<char>,
    initrd: Seq<char>,
) -> Seq<StepView> {
    let dir = join_path(join_path(esp, token), kver);
    seq![
        StepView::MakeDir { path: dir, context: "creating "@ + dir },
        StepView::Copy {
            from: vmlinuz,
            to: join_path(dir, "linux"@),
            context: "copying vmlinuz to ESP"@,
        },
        StepView::Copy {
            from: initrd,
            to: join_path(dir, "initrd"@),
            context: "copying initrd to ESP"@,
        },
    ]
}

/// The steps that copy a kernel and its initrd to the EFI system partition,
/// below the token and the version.
pub fn populate_esp_kernel(
    esp_path: &str,
    entry_token: &str,
    kver: &str,
    vmlinuz_src: &str,
    initrd_src: &str,
) -> (r: Vec<Step>)
    ensures
        r.deep_view() == populate_steps(esp_path@, entry_token@, kver@, vmlinuz_src@, initrd_src@),
{
    let above: String = path_join(esp_path, entry_token);
    let dir: String = path_join(above.as_str(), kver);
    let linux: String = path_join(dir.as_str(), "linux");
    let initrd: String = path_join(dir.as_str(), "initrd");
    let mut context: String = "creating ".to_owned();
    context.append(dir.as_str());
    let mut r: Vec<Step> = Vec::new();
    r.push(make_dir(dir.as_str(), context.as_str()));
    r.push(copy(vmlinuz_src, linux.as_str(), "copying vmlinuz to ESP"));
    r.push(copy(initrd_src, initrd.as_str(), "copying initrd to ESP"));
    assert(r.deep_view() =~= populate_steps(
        esp_path@,
        entry_token@,
        kver@,
        vmlinuz_src@,
        initrd_src@,
    ));
    r
}

/// The steps that write an entry of the boot menu.
pub open spec fn entry_steps(esp: Seq<char>, entry: BlsEntryView) -> Seq<BootStepView> {
    let dir = join_path(esp, "loader/entries"@);
    seq![
        BootStepView::Do(StepView::MakeDir { path: dir, context: "creating "@ + dir }),
        BootStepView::WriteEntry {
            path: join_path(dir, entry.filename),
            entry,
            context: "writing BLS entry "@ + entry.filename,
        },
    ]
}

/// The steps that write an entry of the boot menu.
pub fn write_bls_entry(esp_path: &str, entry: &BlsEntry) -> (r: Vec<BootStep>)
    ensures
        r.deep_view() == entry_steps(esp_path@, entry.deep_view()),
{
    let dir: String = path_join(esp_path, "loader/entries");
    let mut make: String = "creating ".to_owned();
    make.append(dir.as_str());
    let mut writing: String = "writing BLS entry ".to_owned();
    writing.append(entry.filename.as_str());
    let path: String = path_join(dir.as_str(), entry.filename.as_str());
    let mut r: Vec<BootStep> = Vec::new();
    assert(r.deep_view() =~= Seq::empty());
    push_do(&mut r, make_dir(dir.as_str(), make.as_str()));
    let copied: BlsEntry = copy_entry(entry);
    push_step(&mut r, BootStep::WriteEntry { path, entry: copied, context: writing });
    assert(r.deep_view() =~= entry_steps(esp_path@, entry.deep_view()));
    r
}

/// The refusal where the host has no systemd-boot.
pub open spec fn no_binary() -> Seq<char> {
    "host does not ship systemd-bootx64.efi at /usr/lib/systemd/boot/efi/systemd-bootx64.efi — migrate-bootloader converts the current deployment's own bootloader and has no target image to pull binaries from; install a systemd-boot package first"@
}

/// The steps that install the host's own systemd-boot.
pub open spec fn install_steps(esp: Seq<char>) -> Seq<StepView> {
    let sd_dir = join_path(esp, "EFI/systemd"@);
    let removable_dir = join_path(esp, "EFI/BOOT"@);
    let installed = join_path(sd_dir, "systemd-bootx64.efi"@);
    seq![
        StepView::MakeDir { path: sd_dir, context: ""@ },
        StepView::MakeDir { path: removable_dir, context: ""@ },
        StepView::Copy {
            from: "/usr/lib/systemd/boot/efi/systemd-bootx64.efi"@,
            to: installed,
            context: "installing systemd-bootx64.efi"@,
        },
        StepView::Copy {
            from: installed,
            to: join_path(removable_dir, "BOOTX64.EFI"@),
            context: "installing BOOTX64.EFI removable-media loader"@,
        },
    ]
}

/// The steps that install the host's own systemd-boot, where it has one.
pub fn install_systemd_boot_binary(esp_path: &str, source_exists: bool) -> (r: Result<
    Vec<Step>,
    String,
>)
    ensures
        if source_exists {
            r is Ok && r->Ok_0.deep_view() == install_steps(esp_path@)
        } else {
            r is Err && r->Err_0@ == no_binary()
        },
{
    if !source_exists {
        return Err(
            "host does not ship systemd-bootx64.efi at /usr/lib/systemd/boot/efi/systemd-bootx64.efi — migrate-bootloader converts the current deployment's own bootloader and has no target image to pull binaries from; install a systemd-boot package first".to_owned(),
        );
    }
    let sd_dir: String = path_join(esp_path, "EFI/systemd");
    let removable_dir: String = path_join(esp_path, "EFI/BOOT");
    let installed: String = path_join(sd_dir.as_str(), "systemd-bootx64.efi");
    let removable: String = path_join(removable_dir.as_str(), "BOOTX64.EFI");
    let mut r: Vec<Step> = Vec::new();
    r.push(make_dir(sd_dir.as_str(), ""));
    r.push(make_dir(removable_dir.as_str(), ""));
    r.push(
        copy(
            "/usr/lib/systemd/boot/efi/systemd-bootx64.efi",
            installed.as_str(),
            "installing systemd-bootx64.efi",
        ),
    );
    r.push(
        copy(
            installed.as_str(),
            removable.as_str(),
            "installing BOOTX64.EFI removable-media loader",
        ),
    );
    assert(r.deep_view() =~= install_steps(esp_path@));
    Ok(r)
}

/// The command that registers the entry for a trial. The entry is made and not
/// put into the boot order.
pub open spec fn trial_argv(disk: Seq<char>, part: Seq<char>, label: Seq<char>) -> Seq<Seq<char>> {
    seq![
        "efibootmgr"@,
        "--create-only"@,
        "--disk"@,
        disk,
        "--part"@,
        part,
        "--loader"@,
        "\\EFI\\systemd\\systemd-bootx64.efi"@,
        "--label"@,
        label,
    ]
}

/// The command that registers the entry for a trial, outside of the boot order.
pub fn efibootmgr_create_trial(esp_disk: &str, esp_part: &str, label: &str) -> (r: Vec<String>)
    ensures
        r.deep_view() == trial_argv(esp_disk@, esp_part@, label@),
{
    let r: Vec<String> = owned_all(
        &[
            "efibootmgr",
            "--create-only",
            "--disk",
            esp_disk,
            "--part",
            esp_part,
            "--loader",
            "\\EFI\\systemd\\systemd-bootx64.efi",
            "--label",
            label,
        ],
    );
    assert(r.deep_view() =~= trial_argv(esp_disk@, esp_part@, label@));
    r
}

/// The id in a line of `efibootmgr`.
pub open spec fn id_in_line(line: Seq<char>) -> Option<Seq<char>> {
    match after(trim(line), "Boot"@) {
        Some(rest) => if rest.len() >= 4 && all_hex(rest.take(4)) {
            Some(rest.take(4))
        } else {
            None
        },
        None => None,
    }
}

/// The id in the first line with the label.
pub open spec fn labelled_id(ls: Seq<Seq<char>>, label: Seq<char>) -> Option<Seq<char>>
    decreases ls.len(),
{
    if ls.len() == 0 {
        None
    } else if holds(ls[0], label) {
        id_in_line(ls[0])
    } else {
        labelled_id(ls.skip(1), label)
    }
}

/// The id of the entry that was registered under the label, from the output of
/// `efibootmgr`.
pub fn trial_entry_id(efibootmgr_output: &str, label: &str) -> (r: Result<String, String>)
    ensures
        match labelled_id(lines(efibootmgr_output@), label@) {
            Some(id) => r is Ok && r->Ok_0@ == id,
            None => r is Err && r->Err_0@ == "could not find the newly-created '"@ + label@
                + "' entry's Boot#### id in efibootmgr output"@,
        },
{
    let ls: Vec<String> = lines_of(efibootmgr_output);
    let ghost all = ls.deep_view();
    let mut id: Option<String> = None;
    let mut i: usize = 0;
    assert(all.skip(0) =~= all);
    while i < ls.len()
        invariant_except_break
            id is None,
            labelled_id(all, label@) == labelled_id(all.skip(i as int), label@),
        invariant
            all == ls.deep_view(),
            all == lines(efibootmgr_output@),
            i <= ls@.len(),
        ensures
            id.deep_view() == labelled_id(all, label@),
        decreases ls@.len() - i,
    {
        proof {
            assert(all.skip(i as int)[0] == ls@[i as int]@);
            assert(all.skip(i as int).skip(1) =~= all.skip(i + 1));
        }
        if contains(ls[i].as_str(), label) {
            let t: String = trimmed(ls[i].as_str());
            match strip_prefix(t.as_str(), "Boot") {
                Some(rest) => {
                    if rest.as_str().unicode_len() >= 4 {
                        let four: String = head(rest.as_str(), 4);
                        if is_all_hex(four.as_str()) {
                            id = Some(four);
                        }
                    }
                },
                None => {},
            }
            break;
        }
        i = i + 1;
    }
    match id {
        Some(id) => Ok(id),
        None => {
            let mut m: String = "could not find the newly-created '".to_owned();
            m.append(label);
            m.append("' entry's Boot#### id in efibootmgr output");
            Err(m)
        },
    }
}

/// The command that boots the entry once.
pub open spec fn bootnext_argv(id: Seq<char>) -> Seq<Seq<char>> {
    seq!["efibootmgr"@, "--bootnext"@, id]
}

/// The command that boots the entry once.
pub fn bootnext_command(id: &str) -> (r: Vec<String>)
    ensures
        r.deep_view() == bootnext_argv(id@),
{
    let r: Vec<String> = owned_all(&["efibootmgr", "--bootnext", id]);
    assert(r.deep_view() =~= bootnext_argv(id@));
    r
}

/// What the firmware boots by: the entries that it has, their order, and the
/// one that it boots next.
#[verifier::ext_equal]
pub struct BootVariables {
    pub entries: Set<Seq<char>>,
    pub order: Seq<Seq<char>>,
    pub next: Option<Seq<char>>,
}

/// The variables after a command of `efibootmgr` that makes an entry, with the
/// id that it gets, or names the one to boot next: `--create` puts the new
/// entry first in the order, `--create-only` leaves it out, and `--bootnext`
/// names an entry for one boot.
pub open spec fn after_command(
    v: BootVariables,
    argv: Seq<Seq<char>>,
    new_id: Seq<char>,
) -> BootVariables {
    if argv.len() < 2 {
        v
    } else if argv[1] == "--create"@ {
        BootVariables {
            entries: v.entries.insert(new_id),
            order: seq![new_id] + v.order,
            next: v.next,
        }
    } else if argv[1] == "--create-only"@ {
        BootVariables { entries: v.entries.insert(new_id), order: v.order, next: v.next }
    } else if argv[1] == "--bootnext"@ && argv.len() > 2 {
        BootVariables { entries: v.entries, order: v.order, next: Some(argv[2]) }
    } else {
        v
    }
}

/// A trial leaves the boot order alone: the entry is registered and booted
/// next, and a trial that fails falls back to what was first before.
pub proof fn law_trial_leaves_the_order_alone(
    v: BootVariables,
    disk: Seq<char>,
    part: Seq<char>,
    label: Seq<char>,
    boot_id: Seq<char>,
)
    ensures
        ({
            let made = after_command(v, trial_argv(disk, part, label), boot_id);
            let tried = after_command(made, bootnext_argv(boot_id), boot_id);
            &&& tried.order == v.order
            &&& tried.next == Some(boot_id)
            &&& tried.entries == v.entries.insert(boot_id)
        }),
{
    reveal_strlit("--create");
    reveal_strlit("--create-only");
    reveal_strlit("--bootnext");
    assert("--create"@.len() != "--create-only"@.len());
    assert("--create"@.len() != "--bootnext"@.len());
    assert("--create-only"@.len() != "--bootnext"@.len());
}

/// The name of the entry for a kernel.
pub open spec fn entry_filename(token: Seq<char>, kver: Seq<char>) -> Seq<char> {
    "bootc-rebase-"@ + token + "-"@ + kver + ".conf"@
}

/// The name of the entry for a kernel.
pub fn bls_filename(entry_token: &str, kver: &str) -> (r: String)
    ensures
        r@ == entry_filename(entry_token@, kver@),
{
    let mut s: String = "bootc-rebase-".to_owned();
    s.append(entry_token);
    s.append("-");
    s.append(kver);
    s.append(".conf");
    s
}

/// The steps that follow a new kernel.
pub open spec fn resync_steps(
    esp: Seq<char>,
    token: Seq<char>,
    kver: Seq<char>,
    vmlinuz: Seq<char>,
    initrd: Seq<char>,
    entry: BlsEntryView,
) -> Seq<BootStepView> {
    done(populate_steps(esp, token, kver, vmlinuz, initrd)) + entry_steps(esp, entry)
}

/// The steps that follow a new kernel: its copies on the EFI system partition,
/// and its entry.
pub fn resync_for_kernel_update(
    esp_path: &str,
    entry_token: &str,
    kver: &str,
    vmlinuz: &str,
    initrd: &str,
    entry: &BlsEntry,
) -> (r: Vec<BootStep>)
    ensures
        r.deep_view() == resync_steps(
            esp_path@,
            entry_token@,
            kver@,
            vmlinuz@,
            initrd@,
            entry.deep_view(),
        ),
{
    let mut r: Vec<BootStep> = Vec::new();
    assert(r.deep_view() =~= Seq::empty());
    push_all(&mut r, populate_esp_kernel(esp_path, entry_token, kver, vmlinuz, initrd));
    let mut writing: Vec<BootStep> = write_bls_entry(esp_path, entry);
    let ghost before = r.deep_view();
    let ghost after = writing.deep_view();
    r.append(&mut writing);
    assert(r.deep_view() =~= before + after);
    assert(before =~= done(populate_steps(esp_path@, entry_token@, kver@, vmlinuz@, initrd@)));
    r
}

/// What a first change puts in place, between the initrd and the firmware.
pub open spec fn placing_steps(
    esp: Seq<char>,
    title: Seq<char>,
    token: Seq<char>,
    kver: Seq<char>,
    vmlinuz: Seq<char>,
    initrd: Seq<char>,
    entry: BlsEntryView,
    source_exists: bool,
) -> Seq<BootStepView> {
    let copied = done(populate_steps(esp, token, kver, vmlinuz, initrd));
    if source_exists {
        copied + done(install_steps(esp)) + entry_steps(esp, entry) + done(
            hook_install_steps(token, title),
        )
    } else {
        copied + seq![BootStepView::Stop(no_binary())]
    }
}

/// What a first change puts in place, between the initrd and the firmware: the
/// kernel, systemd-boot, the entry, and the script that keeps them in step.
/// Without systemd-boot on the host it stops.
pub fn migrate_steps(
    inputs: &MigrateInputs<'_>,
    entry_token: &str,
    kver: &str,
    vmlinuz: &str,
    initrd: &str,
    entry: &BlsEntry,
    source_exists: bool,
) -> (r: Vec<BootStep>)
    ensures
        r.deep_view() == placing_steps(
            inputs.esp_path@,
            inputs.title@,
            entry_token@,
            kver@,
            vmlinuz@,
            initrd@,
            entry.deep_view(),
            source_exists,
        ),
{
    let mut r: Vec<BootStep> = Vec::new();
    assert(r.deep_view() =~= Seq::empty());
    push_all(&mut r, populate_esp_kernel(inputs.esp_path, entry_token, kver, vmlinuz, initrd));
    let ghost copied = done(
        populate_steps(inputs.esp_path@, entry_token@, kver@, vmlinuz@, initrd@),
    );
    assert(r.deep_view() =~= copied);
    match install_systemd_boot_binary(inputs.esp_path, source_exists) {
        Ok(steps) => {
            push_all(&mut r, steps);
            let mut writing: Vec<BootStep> = write_bls_entry(inputs.esp_path, entry);
            let ghost before = r.deep_view();
            let ghost after = writing.deep_view();
            r.append(&mut writing);
            assert(r.deep_view() =~= before + after);
            push_all(&mut r, install_resync_hook(entry_token, inputs.title));
        },
        Err(m) => push_step(&mut r, BootStep::Stop(m)),
    }
    r
}

/// Where a change stands.
#[derive(Debug, Clone, Copy, PartialEq, Eq, Structural)]
pub enum MigrateStage {
    /// A former change left a record: bring its kernel up to date.
    Resync,
    FindKernel,
    BuildInitrd,
    /// Put the files in place.
    Place,
    LocateEsp,
    CreateTrial,
    SaveState,
    Finished,
    Failed,
}

/// Where a change starts: a record of a former one means that no second entry
/// is made.
pub open spec fn first_stage(recorded: bool) -> MigrateStage {
    if recorded {
        MigrateStage::Resync
    } else {
        MigrateStage::FindKernel
    }
}

/// The stage behind the one given. Whatever fails stops the change.
pub open spec fn migrate_stage_after(s: MigrateStage, succeeded: bool) -> MigrateStage {
    match s {
        MigrateStage::Finished => MigrateStage::Finished,
        MigrateStage::Failed => MigrateStage::Failed,
        _ => if !succeeded {
            MigrateStage::Failed
        } else {
            match s {
                MigrateStage::Resync => MigrateStage::Finished,
                MigrateStage::FindKernel => MigrateStage::BuildInitrd,
                MigrateStage::BuildInitrd => MigrateStage::Place,
                MigrateStage::Place => MigrateStage::LocateEsp,
                MigrateStage::LocateEsp => MigrateStage::CreateTrial,
                MigrateStage::CreateTrial => MigrateStage::SaveState,
                _ => MigrateStage::Finished,
            }
        },
    }
}

/// Where a change starts, and what is said of a former one.
pub fn run_migrate(recorded: bool, state_path: &str) -> (r: (MigrateStage, Option<String>))
    ensures
        r.0 == first_stage(recorded),
        r.1.deep_view() == if recorded {
            Some(
                "migrate-bootloader already ran (state at "@ + state_path@
                    + ") — re-syncing the ESP for the current kernel without creating a new NVRAM entry."@,
            )
        } else {
            None
        },
{
    if !recorded {
        return (MigrateStage::FindKernel, None);
    }
    let mut m: String = "migrate-bootloader already ran (state at ".to_owned();
    m.append(state_path);
    m.append(
        ") — re-syncing the ESP for the current kernel without creating a new NVRAM entry.",
    );
    (MigrateStage::Resync, Some(m))
}

/// The stage behind the one given.
pub fn next_migrate_stage(stage: MigrateStage, succeeded: bool) -> (r: MigrateStage)
    ensures
        r == migrate_stage_after(stage, succeeded),
{
    match stage {
        MigrateStage::Finished => MigrateStage::Finished,
        MigrateStage::Failed => MigrateStage::Failed,
        _ => {
            if !succeeded {
                return MigrateStage::Failed;
            }
            match stage {
                MigrateStage::Resync => MigrateStage::Finished,
                MigrateStage::FindKernel => MigrateStage::BuildInitrd,
                MigrateStage::BuildInitrd => MigrateStage::Place,
                MigrateStage::Place => MigrateStage::LocateEsp,
                MigrateStage::LocateEsp => MigrateStage::CreateTrial,
                MigrateStage::CreateTrial => MigrateStage::SaveState,
                _ => MigrateStage::Finished,
            }
        },
    }
}

/// The stage after the given outcomes.
pub open spec fn migrate_stage_at(recorded: bool, outcomes: Seq<bool>) -> MigrateStage
    decreases outcomes.len(),
{
    if outcomes.len() == 0 {
        first_stage(recorded)
    } else {
        migrate_stage_after(migrate_stage_at(recorded, outcomes.drop_last()), outcomes.last())
    }
}

/// A change that left its record makes no second entry in the firmware.
pub proof fn law_a_recorded_change_makes_no_second_entry(outcomes: Seq<bool>)
    ensures
        migrate_stage_at(true, outcomes) is Resync || migrate_stage_at(true, outcomes) is Finished
            || migrate_stage_at(true, outcomes) is Failed,
    decreases outcomes.len(),
{
    if outcomes.len() > 0 {
        law_a_recorded_change_makes_no_second_entry(outcomes.drop_last());
    }
}

/// The entry is registered with the firmware only once all that it needs was put
/// in place.
pub proof fn law_the_trial_comes_last(outcomes: Seq<bool>)
    requires
        migrate_stage_at(false, outcomes) == MigrateStage::CreateTrial,
    ensures
        outcomes =~= seq![true, true, true, true],
{
    let a = outcomes.drop_last();
    assert(migrate_stage_at(false, a) == MigrateStage::LocateEsp);
    let b = a.drop_last();
    assert(migrate_stage_at(false, b) == MigrateStage::Place);
    let c = b.drop_last();
    assert(migrate_stage_at(false, c) == MigrateStage::BuildInitrd);
    let d = c.drop_last();
    assert(migrate_stage_at(false, d) == MigrateStage::FindKernel);
    if d.len() > 0 {
        let e = migrate_stage_at(false, d.drop_last());
        assert(migrate_stage_after(e, d.last()) == MigrateStage::FindKernel);
    }
    assert(outcomes[2] == a.last());
    assert(outcomes[1] == b.last());
    assert(outcomes[0] == c.last());
}

/// The partition of the EFI system partition, or that it was not found.
pub fn require_esp(esp_path: &str, found: Option<(String, String)>) -> (r: Result<
    (String, String),
    String,
>)
    ensures
        match found {
            Some(p) => r == Ok::<(String, String), String>(p),
            None => r is Err && r->Err_0@
                == "could not determine the ESP's backing disk/partition (findmnt "@ + esp_path@
                + ")"@,
        },
{
    match found {
        Some(p) => Ok(p),
        None => {
            let mut m: String = "could not determine the ESP's backing disk/partition (findmnt ".to_owned();
            m.append(esp_path);
            m.append(")");
            Err(m)
        },
    }
}

/// The record of a change.
pub open spec fn state_made(
    esp: Seq<char>,
    token: Seq<char>,
    kver: Seq<char>,
    boot_id: Seq<char>,
) -> MigrationStateView {
    MigrationStateView {
        entry_token: token,
        esp_path: esp,
        bls_filename: entry_filename(token, kver),
        boot_id,
    }
}

/// The record of a change.
pub fn migrated_state(
    inputs: &MigrateInputs<'_>,
    entry_token: &str,
    kver: &str,
    boot_id: &str,
) -> (r: MigrationState)
    ensures
        r.deep_view() == state_made(inputs.esp_path@, entry_token@, kver@, boot_id@),
{
    MigrationState {
        entry_token: entry_token.to_owned(),
        esp_path: inputs.esp_path.to_owned(),
        bls_filename: bls_filename(entry_token, kver),
        boot_id: boot_id.to_owned(),
    }
}

/// What a change returns: the record that it left, or that of a former one.
pub fn migrate_result(stage: MigrateStage, record: Option<MigrationState>) -> (r: Option<
    MigrationState,
>)
    ensures
        r == (if stage == MigrateStage::Finished {
            record
        } else {
            None
        }),
{
    match stage {
        MigrateStage::Finished => record,
        _ => None,
    }
}

/// What a change reads and writes of a host beside the files on the partition:
/// the variables of the firmware, and the record.
#[verifier::ext_equal]
pub struct MigrateHost {
    pub variables: BootVariables,
    pub record: Option<MigrationStateView>,
}

/// What a change finds out on the way.
#[verifier::ext_equal]
pub struct MigrateFacts {
    pub esp: Seq<char>,
    pub token: Seq<char>,
    pub kver: Seq<char>,
    pub disk: Seq<char>,
    pub part: Seq<char>,
    pub label: Seq<char>,
    /// The id that the firmware gives a new entry.
    pub boot_id: Seq<char>,
}

/// The variables once the entry is up for its trial.
pub open spec fn variables_on_trial(v: BootVariables, f: MigrateFacts) -> BootVariables {
    after_command(
        after_command(v, trial_argv(f.disk, f.part, f.label), f.boot_id),
        bootnext_argv(f.boot_id),
        f.boot_id,
    )
}

/// The host after a stage that succeeded. Only the trial changes the variables,
/// and only the last stage the record.
pub open spec fn after_migrate_stage(
    h: MigrateHost,
    s: MigrateStage,
    f: MigrateFacts,
) -> MigrateHost {
    match s {
        MigrateStage::CreateTrial => MigrateHost {
            variables: variables_on_trial(h.variables, f),
            record: h.record,
        },
        MigrateStage::SaveState => MigrateHost {
            variables: h.variables,
            record: Some(state_made(f.esp, f.token, f.kver, f.boot_id)),
        },
        _ => h,
    }
}

/// The host after the stages with the given outcomes, of which those that
/// succeeded did their work.
pub open spec fn host_at(h: MigrateHost, f: MigrateFacts, outcomes: Seq<bool>) -> MigrateHost
    decreases outcomes.len(),
{
    if outcomes.len() == 0 {
        h
    } else {
        let before = host_at(h, f, outcomes.drop_last());
        if outcomes.last() {
            let stage = migrate_stage_at(h.record is Some, outcomes.drop_last());
            after_migrate_stage(before, stage, f)
        } else {
            before
        }
    }
}

/// What a first change does up to its stage.
proof fn lemma_first_change(h: MigrateHost, f: MigrateFacts, outcomes: Seq<bool>)
    requires
        h.record is None,
    ensures
        ({
            let stage = migrate_stage_at(false, outcomes);
            let now = host_at(h, f, outcomes);
            let tried = variables_on_trial(h.variables, f);
            match stage {
                MigrateStage::Resync => false,
                MigrateStage::Failed => true,
                MigrateStage::SaveState => now.variables == tried && now.record is None,
                MigrateStage::Finished => now.variables == tried && now.record == Some(
                    state_made(f.esp, f.token, f.kver, f.boot_id),
                ),
                _ => now == h,
            }
        }),
    decreases outcomes.len(),
{
    if outcomes.len() > 0 {
        lemma_first_change(h, f, outcomes.drop_last());
    }
}

/// A later change leaves the variables and the record as they are.
proof fn lemma_later_change(h: MigrateHost, f: MigrateFacts, outcomes: Seq<bool>)
    requires
        h.record is Some,
    ensures
        host_at(h, f, outcomes) == h,
    decreases outcomes.len(),
{
    if outcomes.len() > 0 {
        lemma_later_change(h, f, outcomes.drop_last());
        law_a_recorded_change_makes_no_second_entry(outcomes.drop_last());
    }
}

/// A change that succeeds leaves its record, has the firmware boot the new entry
/// next, and leaves the boot order alone. A second change finds that record and,
/// whatever comes of it, leaves it and the firmware as they are: there is no
/// second entry, and the record that it returns is the same.
pub proof fn law_changing_twice_is_changing_once(
    h: MigrateHost,
    f: MigrateFacts,
    outcomes: Seq<bool>,
    g: MigrateFacts,
    again: Seq<bool>,
)
    requires
        h.record is None,
        migrate_stage_at(false, outcomes) == MigrateStage::Finished,
    ensures
        ({
            let once = host_at(h, f, outcomes);
            let state = state_made(f.esp, f.token, f.kver, f.boot_id);
            &&& once.record == Some(state)
            &&& once.variables.next == Some(state.boot_id)
            &&& once.variables.order == h.variables.order
            &&& once.variables.entries == h.variables.entries.insert(state.boot_id)
            &&& first_stage(once.record is Some) == MigrateStage::Resync
            &&& host_at(once, g, again) == once
        }),
{
    lemma_first_change(h, f, outcomes);
    law_trial_leaves_the_order_alone(h.variables, f.disk, f.part, f.label, f.boot_id);
    lemma_later_change(host_at(h, f, outcomes), g, again);
}

/// Undoing a change removes the entry that it wrote, the kernels that it copied
/// and the script that it installed.
pub proof fn law_undo_removes_what_was_made(
    esp: Seq<char>,
    title: Seq<char>,
    token: Seq<char>,
    kver: Seq<char>,
    boot_id: Seq<char>,
    vmlinuz: Seq<char>,
    initrd: Seq<char>,
    entry: BlsEntryView,
    listed: Seq<Seq<char>>,
)
    requires
        entry.filename == entry_filename(token, kver),
    ensures
        ({
            let state = state_made(esp, token, kver, boot_id);
            let undo = undo_file_steps(state, listed);
            let n = undo.len() as int;
            let made = placing_steps(esp, title, token, kver, vmlinuz, initrd, entry, true);
            &&& n >= 3
            &&& exists|i: int|
                0 <= i < made.len() && #[trigger] made[i] is WriteEntry && undo[0]
                    == StepView::Remove(made[i]->WriteEntry_path)
            &&& undo[n - 2] == StepView::RemoveTree(join_path(esp, token))
            &&& made[0] == BootStepView::Do(
                StepView::MakeDir {
                    path: join_path(join_path(esp, token), kver),
                    context: "creating "@ + join_path(join_path(esp, token), kver),
                },
            )
            &&& exists|i: int|
                0 <= i < made.len() && #[trigger] made[i] is Do && made[i]->Do_0 is Write
                    && undo[n - 1] == StepView::Remove(made[i]->Do_0->Write_path)
        }),
{
    let made = placing_steps(esp, title, token, kver, vmlinuz, initrd, entry, true);
    assert(populate_steps(esp, token, kver, vmlinuz, initrd).len() == 3);
    assert(install_steps(esp).len() == 4);
    assert(entry_steps(esp, entry).len() == 2);
    assert(hook_install_steps(token, title).len() == 3);
    assert(made[8] == entry_steps(esp, entry)[1]);
    assert(made[10] == BootStepView::Do(hook_install_steps(token, title)[1]));
}

/// What is said once the entry is up for its trial.
pub fn trial_message(boot_id: &str) -> (r: String)
    ensures
        r@ == "migrate-bootloader staged as a one-boot trial (Boot"@ + boot_id@
            + " set via BootNext). Reboot to test it — BootOrder is unchanged, so a failed trial falls back to the existing default. Once you've confirmed it works, run `migrate-bootloader --promote`."@,
{
    let mut m: String = "migrate-bootloader staged as a one-boot trial (Boot".to_owned();
    m.append(boot_id);
    m.append(
        " set via BootNext). Reboot to test it — BootOrder is unchanged, so a failed trial falls back to the existing default. Once you've confirmed it works, run `migrate-bootloader --promote`.",
    );
    m
}

/// The boot order with the tried entry first, or why it cannot be promoted: no
/// record of a change, or no order in the output of `efibootmgr`.
pub fn run_promote(state: Option<&MigrationState>, state_path: &str, efibootmgr_output: &str) -> (r:
    Result<String, String>)
    ensures
        match state {
            None => r is Err && r->Err_0@ == "no migrate-bootloader state found at "@ + state_path@
                + " — run migrate-bootloader first"@,
            Some(s) => match first_scalar(lines(efibootmgr_output@), "BootOrder:"@) {
                None => r is Err && r->Err_0@
                    == "could not parse BootOrder from efibootmgr output"@,
                Some(order) => r is Ok && r->Ok_0@ == promoted_order(order, s.boot_id@),
            },
        },
{
    match state {
        None => {
            let mut m: String = "no migrate-bootloader state found at ".to_owned();
            m.append(state_path);
            m.append(" — run migrate-bootloader first");
            Err(m)
        },
        Some(s) => match parse_boot_order(efibootmgr_output) {
            None => Err("could not parse BootOrder from efibootmgr output".to_owned()),
            Some(order) => Ok(build_new_boot_order(order.as_str(), s.boot_id.as_str())),
        },
    }
}

/// Whether the file name is that of an entry for some kernel.
pub open spec fn is_entry_of(token: Seq<char>, name: Seq<char>) -> bool {
    exists|kver: Seq<char>| name == #[trigger] entry_filename(token, kver)
}

/// Whether the file name is that of an entry for some kernel.
fn entry_of(entry_token: &str, name: &str) -> (r: bool)
    ensures
        r == is_entry_of(entry_token@, name@),
{
    let mut start: String = "bootc-rebase-".to_owned();
    start.append(entry_token);
    start.append("-");
    let at: usize = start.as_str().unicode_len();
    let len: usize = name.unicode_len();
    let r: bool = starts_with(name, start.as_str()) && len - at >= 5 && ends_with(name, ".conf");
    proof {
        reveal_strlit(".conf");
        let token = entry_token@;
        let n = name@.len() as int;
        if r {
            let kver = name@.subrange(start@.len() as int, n - 5);
            assert(name@ =~= start@ + kver + ".conf"@) by {
                assert(name@.take(start@.len() as int) == start@);
                assert(name@.skip(n - 5) == ".conf"@);
                assert forall|k: int| 0 <= k < start@.len() implies name@[k] == start@[k] by {
                    assert(name@.take(start@.len() as int)[k] == name@[k]);
                }
                assert forall|k: int| n - 5 <= k < n implies name@[k] == ".conf"@[k - (n - 5)] by {
                    assert(name@.skip(n - 5)[k - (n - 5)] == name@[k]);
                }
            }
            assert(name@ =~= entry_filename(token, kver));
        }
        if is_entry_of(token, name@) {
            let kver = choose|kver: Seq<char>| name@ == #[trigger] entry_filename(token, kver);
            assert(name@ =~= start@ + kver + ".conf"@);
            assert(name@.take(start@.len() as int) =~= start@);
            assert(name@.skip(n - 5) =~= ".conf"@);
        }
    }
    r
}

/// The removals of the entries that were written for later kernels, among the
/// files listed beside the recorded one.
pub open spec fn later_removals(s: MigrationStateView, listed: Seq<Seq<char>>) -> Seq<StepView>
    decreases listed.len(),
{
    if listed.len() == 0 {
        Seq::empty()
    } else {
        let rest = later_removals(s, listed.drop_last());
        let name = listed.last();
        if name != s.bls_filename && is_entry_of(s.entry_token, name) {
            rest.push(
                StepView::Remove(join_path(join_path(s.esp_path, "loader/entries"@), name)),
            )
        } else {
            rest
        }
    }
}

/// The steps that remove what was made, up to the entry in the firmware.
pub open spec fn undo_file_steps(s: MigrationStateView, listed: Seq<Seq<char>>) -> Seq<StepView> {
    seq![
        StepView::Remove(join_path(join_path(s.esp_path, "loader/entries"@), s.bls_filename)),
    ] + later_removals(s, listed) + seq![
        StepView::RemoveTree(join_path(s.esp_path, s.entry_token)),
        StepView::Remove(
            "/etc/kernel/install.d/95-bootc-rebase-esp-sync.install"@,
        ),
    ]
}

/// The steps that remove what was made, and the command that removes the entry
/// from the firmware. `listed` names the files beside the recorded entry: those
/// that were written for later kernels go too. Without a record there is
/// nothing to undo.
pub fn run_undo(state: Option<&MigrationState>, listed: &[String]) -> (r: Option<
    (Vec<Step>, Vec<String>),
>)
    ensures
        match state {
            None => r is None,
            Some(s) => r matches Some((steps, argv)) && steps.deep_view() == undo_file_steps(
                s.deep_view(),
                listed.deep_view(),
            ) && argv.deep_view() == seq!["efibootmgr"@, "-b"@, s.boot_id@, "-B"@],
        },
{
    match state {
        None => None,
        Some(s) => {
            let ghost all = listed.deep_view();
            let ghost v = s.deep_view();
            let entries: String = path_join(s.esp_path.as_str(), "loader/entries");
            let entry: String = path_join(entries.as_str(), s.bls_filename.as_str());
            let kernels: String = path_join(s.esp_path.as_str(), s.entry_token.as_str());
            let ghost recorded = seq![StepView::Remove(entry@)];
            let mut steps: Vec<Step> = Vec::new();
            steps.push(Step::Remove(entry));
            let mut i: usize = 0;
            assert(steps.deep_view() =~= recorded + later_removals(v, all.take(0)));
            while i < listed.len()
                invariant
                    all == listed.deep_view(),
                    v == s.deep_view(),
                    entries@ == join_path(s.esp_path@, "loader/entries"@),
                    i <= listed@.len(),
                    steps.deep_view() == recorded + later_removals(v, all.take(i as int)),
                decreases listed@.len() - i,
            {
                proof {
                    assert(all.take(i + 1).drop_last() =~= all.take(i as int));
                    assert(all.take(i + 1).last() == listed@[i as int]@);
                }
                let name: &str = listed[i].as_str();
                let ghost before = steps.deep_view();
                if !same(name, s.bls_filename.as_str()) && entry_of(s.entry_token.as_str(), name) {
                    let path: String = path_join(entries.as_str(), name);
                    let step: Step = Step::Remove(path);
                    steps.push(step);
                    assert(steps.deep_view() =~= before.push(step.deep_view()));
                    assert(steps.deep_view() =~= recorded + later_removals(v, all.take(i + 1)));
                }
                i = i + 1;
            }
            assert(all.take(i as int) =~= all);
            steps.push(Step::RemoveTree(kernels));
            steps.push(
                Step::Remove(
                    "/etc/kernel/install.d/95-bootc-rebase-esp-sync.install".to_owned(),
                ),
            );
            assert(steps.deep_view() =~= undo_file_steps(v, all));
            let argv: Vec<String> = owned_all(
                &["efibootmgr", "-b", s.boot_id.as_str(), "-B"],
            );
            assert(argv.deep_view() =~= seq!["efibootmgr"@, "-b"@, s.boot_id@, "-B"@]);
            Some((steps, argv))
        },
    }
}

/// Whether the step removes an entry that was written for some kernel.
pub open spec fn removes_an_entry(s: MigrationStateView, step: StepView) -> bool {
    exists|name: Seq<char>| #[trigger]
        is_entry_of(s.entry_token, name) && step == StepView::Remove(
            join_path(join_path(s.esp_path, "loader/entries"@), name),
        )
}

proof fn lemma_later_removals(s: MigrationStateView, listed: Seq<Seq<char>>)
    ensures
        forall|name: Seq<char>|
            listed.contains(name) && name != s.bls_filename && is_entry_of(s.entry_token, name)
                ==> #[trigger] later_removals(s, listed).contains(
                StepView::Remove(join_path(join_path(s.esp_path, "loader/entries"@), name)),
            ),
        forall|k: int|
            0 <= k < later_removals(s, listed).len() ==> removes_an_entry(
                s,
                #[trigger] later_removals(s, listed)[k],
            ),
    decreases listed.len(),
{
    if listed.len() > 0 {
        let d = listed.drop_last();
        let last = listed.last();
        lemma_later_removals(s, d);
        let rest = later_removals(s, d);
        let all = later_removals(s, listed);
        assert(listed[listed.len() - 1] == last);
        assert forall|name: Seq<char>|
            listed.contains(name) && name != s.bls_filename && is_entry_of(
                s.entry_token,
                name,
            ) implies #[trigger] all.contains(
            StepView::Remove(join_path(join_path(s.esp_path, "loader/entries"@), name)),
        ) by {
            let step = StepView::Remove(join_path(join_path(s.esp_path, "loader/entries"@), name));
            if name == last {
                assert(all[all.len() - 1] == step);
            } else {
                let i = choose|i: int| 0 <= i < listed.len() && listed[i] == name;
                assert(d[i] == name);
                assert(rest.contains(step));
                let k = choose|k: int| 0 <= k < rest.len() && rest[k] == step;
                assert(all[k] == step);
            }
        }
        assert forall|k: int| 0 <= k < all.len() implies removes_an_entry(s, #[trigger] all[k]) by {
            if k < rest.len() {
                assert(rest[k] == all[k]);
            } else {
                assert(is_entry_of(s.entry_token, last));
            }
        }
    }
}

/// Undoing leaves no entry behind that was written for any kernel, and removes
/// no other file beside the recorded one.
pub proof fn law_undo_leaves_no_entry(
    s: MigrationStateView,
    listed: Seq<Seq<char>>,
    kver: Seq<char>,
)
    ensures
        ({
            let entries = join_path(s.esp_path, "loader/entries"@);
            let steps = undo_file_steps(s, listed);
            let n = steps.len() as int;
            &&& listed.contains(entry_filename(s.entry_token, kver)) ==> steps.contains(
                StepView::Remove(join_path(entries, entry_filename(s.entry_token, kver))),
            )
            &&& steps[0] == StepView::Remove(join_path(entries, s.bls_filename))
            &&& forall|k: int| 0 < k < n - 2 ==> removes_an_entry(s, #[trigger] steps[k])
        }),
{
    let entries = join_path(s.esp_path, "loader/entries"@);
    let later = later_removals(s, listed);
    let steps = undo_file_steps(s, listed);
    let name = entry_filename(s.entry_token, kver);
    lemma_later_removals(s, listed);
    if listed.contains(name) {
        let step = StepView::Remove(join_path(entries, name));
        if name == s.bls_filename {
            assert(steps[0] == step);
        } else {
            assert(is_entry_of(s.entry_token, name));
            assert(later.contains(step));
            let k = choose|k: int| 0 <= k < later.len() && later[k] == step;
            assert(steps[k + 1] == step);
        }
    }
    assert(steps[0] == StepView::Remove(join_path(entries, s.bls_filename)));
    assert forall|k: int| 0 < k < steps.len() - 2 implies removes_an_entry(
        s,
        #[trigger] steps[k],
    ) by {
        assert(steps[k] == later[k - 1]);
    }
}

/// What came of the removal of the entry from the firmware.
#[derive(Debug, Clone, PartialEq, Eq)]
pub enum RemovalOutcome {
    Removed,
    /// The command failed with the status.
    Exited(String),
    /// It could not be run, for the reason given.
    NotRun(String),
}

/// What is said of the removal. A failure does not stop the undoing.
pub open spec fn removal_text(boot_id: Seq<char>, o: RemovalOutcome) -> Seq<char> {
    match o {
        RemovalOutcome::Removed => "Removed Boot"@ + boot_id + " from UEFI NVRAM."@,
        RemovalOutcome::Exited(s) => "Warning: efibootmgr -b "@ + boot_id + " -B exited "@ + s@
            + " — the NVRAM entry may need manual removal."@,
        RemovalOutcome::NotRun(e) => "Warning: failed to invoke efibootmgr for NVRAM cleanup ("@
            + e@ + ")."@,
    }
}

/// What is said of the removal.
pub fn report_removal(boot_id: &str, outcome: &RemovalOutcome) -> (r: String)
    ensures
        r@ == removal_text(boot_id@, *outcome),
{
    match outcome {
        RemovalOutcome::Removed => {
            let mut m: String = "Removed Boot".to_owned();
            m.append(boot_id);
            m.append(" from UEFI NVRAM.");
            m
        },
        RemovalOutcome::Exited(s) => {
            let mut m: String = "Warning: efibootmgr -b ".to_owned();
            m.append(boot_id);
            m.append(" -B exited ");
            m.append(s.as_str());
            m.append(" — the NVRAM entry may need manual removal.");
            m
        },
        RemovalOutcome::NotRun(e) => {
            let mut m: String = "Warning: failed to invoke efibootmgr for NVRAM cleanup (".to_owned();
            m.append(e.as_str());
            m.append(").");
            m
        },
    }
}

/// The script that runs on every new kernel.
pub open spec fn hook_script(token: Seq<char>, title: Seq<char>) -> Seq<char> {
    "#!/bin/sh\n# Installed by `bootc-rebase migrate-bootloader` (issue #65) — keeps the ESP's\n# systemd-boot entry in sync with kernel-install(8) updates. Do not edit by hand;\n# re-running `migrate-bootloader` regenerates this file.\nset -eu\nCOMMAND=\"$1\"\nKERNEL_VERSION=\"$2\"\n[ \"$COMMAND\" = add ] || exit 0\nexec bootc-rebase migrate-bootloader --resync --entry-token "@
        + token + " --kernel-version \"$KERNEL_VERSION\" --title "@ + quoted_text(title) + "\n"@
}

/// The script that runs on every new kernel and brings the EFI system partition
/// up to date. Without it the next update would leave an old kernel to boot.
pub fn resync_hook_script(entry_token: &str, title: &str) -> (r: String)
    ensures
        r@ == hook_script(entry_token@, title@),
{
    let mut s: String = "#!/bin/sh\n# Installed by `bootc-rebase migrate-bootloader` (issue #65) — keeps the ESP's\n# systemd-boot entry in sync with kernel-install(8) updates. Do not edit by hand;\n# re-running `migrate-bootloader` regenerates this file.\nset -eu\nCOMMAND=\"$1\"\nKERNEL_VERSION=\"$2\"\n[ \"$COMMAND\" = add ] || exit 0\nexec bootc-rebase migrate-bootloader --resync --entry-token ".to_owned();
    s.append(entry_token);
    s.append(" --kernel-version \"$KERNEL_VERSION\" --title ");
    s.append(quoted(title).as_str());
    s.append("\n");
    s
}

/// The steps that install the script.
pub open spec fn hook_install_steps(token: Seq<char>, title: Seq<char>) -> Seq<StepView> {
    seq![
        StepView::MakeDir {
            path: "/etc/kernel/install.d"@,
            context: "creating /etc/kernel/install.d"@,
        },
        StepView::Write {
            path: "/etc/kernel/install.d/95-bootc-rebase-esp-sync.install"@,
            contents: hook_script(token, title),
            context: "writing /etc/kernel/install.d/95-bootc-rebase-esp-sync.install"@,
        },
        StepView::MakeExecutable {
            path: "/etc/kernel/install.d/95-bootc-rebase-esp-sync.install"@,
            context: "chmod +x /etc/kernel/install.d/95-bootc-rebase-esp-sync.install"@,
        },
    ]
}

/// The steps that install the script.
pub fn install_resync_hook(entry_token: &str, title: &str) -> (r: Vec<Step>)
    ensures
        r.deep_view() == hook_install_steps(entry_token@, title@),
{
    let script: String = resync_hook_script(entry_token, title);
    let mut r: Vec<Step> = Vec::new();
    r.push(make_dir("/etc/kernel/install.d", "creating /etc/kernel/install.d"));
    r.push(
        write_file(
            "/etc/kernel/install.d/95-bootc-rebase-esp-sync.install",
            script.as_str(),
            "writing /etc/kernel/install.d/95-bootc-rebase-esp-sync.install",
        ),
    );
    r.push(
        Step::MakeExecutable {
            path: "/etc/kernel/install.d/95-bootc-rebase-esp-sync.install".to_owned(),
            context: "chmod +x /etc/kernel/install.d/95-bootc-rebase-esp-sync.install".to_owned(),
        },
    );
    assert(r.deep_view() =~= hook_install_steps(entry_token@, title@));
    r
}

} // verus!

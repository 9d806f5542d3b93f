//! A change of bootloader that leaves the root filesystem as it is.

use vstd::prelude::*;

use crate::migration::boot_deployments::{BootDeployment, BootDeploymentView};
use crate::migration::bootloader::{
    copy_entry, is_quiet, push_do, push_step, BlsEntry, BlsEntryView, BootStep, BootStepView,
};
use crate::preflight::system_info::SystemInfo;
use crate::steps::{attempt, copy, make_dir, rename, say, write_file, Step, StepView};
use crate::text::bytes::{first_bytes, head_bytes};
use crate::text::chars::is_digit;
use crate::text::compose::{join, joined, owned_all, replace_char, replaced_char};
use crate::text::numbers::{decimal, decimal_of, lemma_decimal_value};
use crate::text::paths::{join_path, path_join};
use crate::text::pieces::{
    fields, fields_of, is_word, lemma_fields_are_words, lemma_fields_of_joined, lines, lines_of,
    trim_end_text, trimmed_end_text,
};
use crate::text::search::{begins, finishes, same, starts_with};

verus! {

/// A bootloader to change to.
#[derive(Debug, Clone, Copy, PartialEq, Eq, Structural)]
pub enum TargetBootloader {
    SystemdBoot,
    Grub2,
}

/// Why the bootloader is not changed.
#[derive(Debug, Clone, PartialEq, Eq)]
pub enum StandaloneRefusal {
    NotUefi,
    NvramNotWritable,
    NoEsp,
    /// The EFI system partition has less than 50 MB free.
    EspTooFull,
    NoDeployments,
    UnknownTarget(String),
}

/// What a [`StandaloneRefusal`] holds.
#[verifier::ext_equal]
pub enum StandaloneRefusalView {
    NotUefi,
    NvramNotWritable,
    NoEsp,
    EspTooFull,
    NoDeployments,
    UnknownTarget(Seq<char>),
}

impl DeepView for StandaloneRefusal {
    type V = StandaloneRefusalView;

    open spec fn deep_view(&self) -> StandaloneRefusalView {
        match self {
            StandaloneRefusal::NotUefi => StandaloneRefusalView::NotUefi,
            StandaloneRefusal::NvramNotWritable => StandaloneRefusalView::NvramNotWritable,
            StandaloneRefusal::NoEsp => StandaloneRefusalView::NoEsp,
            StandaloneRefusal::EspTooFull => StandaloneRefusalView::EspTooFull,
            StandaloneRefusal::NoDeployments => StandaloneRefusalView::NoDeployments,
            StandaloneRefusal::UnknownTarget(t) => StandaloneRefusalView::UnknownTarget(t@),
        }
    }
}

/// The refusal in words. The free space comes in as text, in MB.
pub open spec fn refusal_text(r: StandaloneRefusalView, free_mb: Seq<char>) -> Seq<char> {
    match r {
        StandaloneRefusalView::NotUefi => "System is not booted in UEFI mode; cannot migrate to systemd-boot."@,
        StandaloneRefusalView::NvramNotWritable => "UEFI NVRAM is not writable; cannot register systemd-boot entry. Use --force to skip."@,
        StandaloneRefusalView::NoEsp => "No ESP (EFI System Partition) detected; systemd-boot requires an ESP. Use --force to skip."@,
        StandaloneRefusalView::EspTooFull => "ESP has less than 50 MB free ("@ + free_mb
            + " MB); systemd-boot needs space for kernel+initrd. Use --force to skip."@,
        StandaloneRefusalView::NoDeployments => "No bootable deployments found on this system."@,
        StandaloneRefusalView::UnknownTarget(t) => "Unknown target bootloader '"@ + t
            + "'. Use 'systemd-boot' or 'grub2'."@,
    }
}

impl StandaloneRefusal {
    /// The refusal in words. `free_mb` is the free space on the EFI system
    /// partition in MB, with two digits behind the point.
    pub fn message(&self, free_mb: &str) -> (r: String)
        ensures
            r@ == refusal_text(self.deep_view(), free_mb@),
    {
        match self {
            StandaloneRefusal::NotUefi => "System is not booted in UEFI mode; cannot migrate to systemd-boot.".to_owned(),
            StandaloneRefusal::NvramNotWritable => "UEFI NVRAM is not writable; cannot register systemd-boot entry. Use --force to skip.".to_owned(),
            StandaloneRefusal::NoEsp => "No ESP (EFI System Partition) detected; systemd-boot requires an ESP. Use --force to skip.".to_owned(),
            StandaloneRefusal::EspTooFull => {
                let mut m: String = "ESP has less than 50 MB free (".to_owned();
                m.append(free_mb);
                m.append(
                    " MB); systemd-boot needs space for kernel+initrd. Use --force to skip.",
                );
                m
            },
            StandaloneRefusal::NoDeployments => "No bootable deployments found on this system.".to_owned(),
            StandaloneRefusal::UnknownTarget(t) => {
                let mut m: String = "Unknown target bootloader '".to_owned();
                m.append(t.as_str());
                m.append("'. Use 'systemd-boot' or 'grub2'.");
                m
            },
        }
    }
}

/// The least free space that systemd-boot needs: 50 MB.
pub const MIN_ESP_BYTES: u64 = 52428800;

/// What systemd-boot lacks on the system.
pub open spec fn systemd_boot_obstacle(sys: SystemInfo) -> Option<StandaloneRefusalView> {
    if !sys.is_uefi {
        Some(StandaloneRefusalView::NotUefi)
    } else if !sys.nvram_writable {
        Some(StandaloneRefusalView::NvramNotWritable)
    } else if !sys.esp_detected {
        Some(StandaloneRefusalView::NoEsp)
    } else if sys.esp_free_space_bytes < MIN_ESP_BYTES {
        Some(StandaloneRefusalView::EspTooFull)
    } else {
        None
    }
}

/// The bootloader to change to, or why it is not changed: what it lacks, unless
/// forced, then that there is nothing to boot, then that it is not known.
pub open spec fn standalone_gate(
    to: Seq<char>,
    force: bool,
    sys: SystemInfo,
    deployments: nat,
) -> Result<TargetBootloader, StandaloneRefusalView> {
    if to == "systemd-boot"@ && !force && systemd_boot_obstacle(sys) is Some {
        Err(systemd_boot_obstacle(sys)->0)
    } else if deployments == 0 {
        Err(StandaloneRefusalView::NoDeployments)
    } else if to == "systemd-boot"@ {
        Ok(TargetBootloader::SystemdBoot)
    } else if to == "grub2"@ {
        Ok(TargetBootloader::Grub2)
    } else {
        Err(StandaloneRefusalView::UnknownTarget(to))
    }
}

/// The bootloader to change to, or why it is not changed.
pub fn migrate_bootloader_standalone(
    to: &str,
    force: bool,
    sys: &SystemInfo,
    deployments: &[BootDeployment],
) -> (r: Result<TargetBootloader, StandaloneRefusal>)
    ensures
        match standalone_gate(to@, force, *sys, deployments@.len()) {
            Ok(t) => r is Ok && r->Ok_0 == t,
            Err(e) => r is Err && r->Err_0.deep_view() == e,
        },
{
    let systemd: bool = same(to, "systemd-boot");
    if systemd && !force {
        if !sys.is_uefi {
            return Err(StandaloneRefusal::NotUefi);
        }
        if !sys.nvram_writable {
            return Err(StandaloneRefusal::NvramNotWritable);
        }
        if !sys.esp_detected {
            return Err(StandaloneRefusal::NoEsp);
        }
        if sys.esp_free_space_bytes < MIN_ESP_BYTES {
            return Err(StandaloneRefusal::EspTooFull);
        }
    }
    if deployments.len() == 0 {
        return Err(StandaloneRefusal::NoDeployments);
    }
    if systemd {
        Ok(TargetBootloader::SystemdBoot)
    } else if same(to, "grub2") {
        Ok(TargetBootloader::Grub2)
    } else {
        Err(StandaloneRefusal::UnknownTarget(to.to_owned()))
    }
}

/// The line for a deployment.
pub open spec fn deployment_line(d: BootDeploymentView) -> Seq<char> {
    "  - "@ + (if d.is_composefs {
        "composefs"@
    } else {
        "OSTree"@
    }) + " "@ + d.checksum + " (kernel "@ + d.kver + ")"@
}

/// The deployments in lines.
pub open spec fn deployment_report(deps: Seq<BootDeploymentView>) -> Seq<Seq<char>> {
    seq!["Found "@ + decimal(deps.len()) + " deployment(s):"@] + deps.map_values(
        |d: BootDeploymentView| deployment_line(d),
    )
}

/// The deployments in lines.
pub fn deployment_lines(deployments: &[BootDeployment]) -> (r: Vec<String>)
    ensures
        r.deep_view() == deployment_report(deployments.deep_view()),
{
    let ghost all = deployments.deep_view();
    let ghost want = all.map_values(|d: BootDeploymentView| deployment_line(d));
    let mut r: Vec<String> = Vec::new();
    let mut h: String = "Found ".to_owned();
    h.append(decimal_of(deployments.len() as u64).as_str());
    h.append(" deployment(s):");
    let ghost head = seq![h@];
    r.push(h);
    let mut i: usize = 0;
    assert(r.deep_view() =~= head + want.take(0));
    while i < deployments.len()
        invariant
            all == deployments.deep_view(),
            want == all.map_values(|d: BootDeploymentView| deployment_line(d)),
            i <= deployments@.len(),
            r.deep_view() == head + want.take(i as int),
        decreases deployments@.len() - i,
    {
        let ghost before = r.deep_view();
        let d: &BootDeployment = &deployments[i];
        let mut l: String = "  - ".to_owned();
        if d.is_composefs {
            l.append("composefs");
        } else {
            l.append("OSTree");
        }
        l.append(" ");
        l.append(d.checksum.as_str());
        l.append(" (kernel ");
        l.append(d.kver.as_str());
        l.append(")");
        r.push(l);
        proof {
            assert(all[i as int] == deployments@[i as int].deep_view());
            assert(r.deep_view() =~= before.push(l@));
            assert(r.deep_view() =~= head + want.take(i + 1));
        }
        i = i + 1;
    }
    assert(want.take(i as int) =~= want);
    r
}

/// What the entries are made from.
#[derive(Debug, Clone, PartialEq, Eq)]
pub struct EntryInputs {
    /// The id of the system, from its `os-release`.
    pub os_id: String,
    /// The title of an entry for composefs, and of one for OSTree.
    pub composefs_title: String,
    pub ostree_title: String,
    /// The kernel arguments of the running system that entries carry over.
    pub options: String,
}

/// What an [`EntryInputs`] holds.
#[verifier::ext_equal]
pub struct EntryInputsView {
    pub os_id: Seq<char>,
    pub composefs_title: Seq<char>,
    pub ostree_title: Seq<char>,
    pub options: Seq<char>,
}

impl DeepView for EntryInputs {
    type V = EntryInputsView;

    open spec fn deep_view(&self) -> EntryInputsView {
        EntryInputsView {
            os_id: self.os_id@,
            composefs_title: self.composefs_title@,
            ostree_title: self.ostree_title@,
            options: self.options@,
        }
    }
}

/// The first twelve bytes of the checksum, or all of it.
pub open spec fn short_checksum(checksum: Seq<char>) -> Seq<char> {
    first_bytes(checksum, 12)
}

/// Whether the kernel argument has the initrd assemble a composefs root.
pub open spec fn is_composefs_arg(arg: Seq<char>) -> bool {
    begins(arg, "composefs="@)
}

/// The arguments that do not ask for a composefs root.
pub open spec fn plain_args(args: Seq<Seq<char>>) -> Seq<Seq<char>>
    decreases args.len(),
{
    if args.len() == 0 {
        Seq::empty()
    } else if is_composefs_arg(args.last()) {
        plain_args(args.drop_last())
    } else {
        plain_args(args.drop_last()).push(args.last())
    }
}

/// The kernel arguments of an entry: one for OSTree has none that asks for a
/// composefs root.
pub open spec fn options_for(options: Seq<char>, is_composefs: bool) -> Seq<char> {
    if is_composefs {
        options
    } else {
        join(plain_args(fields(options)), " "@)
    }
}

/// The kernel arguments of an entry.
fn entry_options(options: &str, is_composefs: bool) -> (r: String)
    ensures
        r@ == options_for(options@, is_composefs),
{
    if is_composefs {
        return options.to_owned();
    }
    let args: Vec<String> = fields_of(options);
    let ghost all = args.deep_view();
    let mut kept: Vec<String> = Vec::new();
    let mut i: usize = 0;
    assert(kept.deep_view() =~= plain_args(all.take(0)));
    while i < args.len()
        invariant
            all == args.deep_view(),
            i <= args@.len(),
            kept.deep_view() == plain_args(all.take(i as int)),
        decreases args@.len() - i,
    {
        let ghost before = kept.deep_view();
        proof {
            assert(all[i as int] == args@[i as int]@);
            assert(all.take(i + 1).drop_last() =~= all.take(i as int));
            assert(all.take(i + 1).last() == all[i as int]);
        }
        if !starts_with(args[i].as_str(), "composefs=") {
            kept.push(args[i].clone());
            assert(kept.deep_view() =~= before.push(all[i as int]));
        }
        i = i + 1;
    }
    assert(all.take(i as int) =~= all);
    joined(kept.as_slice(), " ")
}

/// What is kept of the arguments are words, and none asks for a composefs root.
proof fn lemma_plain_args(args: Seq<Seq<char>>)
    requires
        forall|i: int| 0 <= i < args.len() ==> is_word(#[trigger] args[i]),
    ensures
        forall|i: int|
            0 <= i < plain_args(args).len() ==> is_word(#[trigger] plain_args(args)[i])
                && !is_composefs_arg(plain_args(args)[i]),
    decreases args.len(),
{
    if args.len() > 0 {
        let d = args.drop_last();
        assert forall|i: int| 0 <= i < d.len() implies is_word(#[trigger] d[i]) by {
            assert(d[i] == args[i]);
        }
        lemma_plain_args(d);
        assert(is_word(args[args.len() - 1]));
        let r = plain_args(args);
        let rest = plain_args(d);
        assert forall|i: int| 0 <= i < r.len() implies is_word(#[trigger] r[i])
            && !is_composefs_arg(r[i]) by {
            if i < rest.len() {
                assert(r[i] == rest[i]);
            }
        }
    }
}

/// The entry of an OSTree deployment has no argument that asks for a composefs
/// root, and has all the others in their order; that of a composefs deployment
/// has them all.
pub proof fn law_ostree_entries_have_no_composefs_argument(
    inputs: EntryInputsView,
    dep: BootDeploymentView,
    priority: nat,
    linux: Seq<char>,
    initrd: Seq<char>,
)
    ensures
        ({
            let options = entry_for(inputs, dep, priority, linux, initrd).options;
            if dep.is_composefs {
                options == inputs.options
            } else {
                &&& fields(options) == plain_args(fields(inputs.options))
                &&& forall|k: int|
                    0 <= k < fields(options).len() ==> !begins(
                        #[trigger] fields(options)[k],
                        "composefs="@,
                    )
            }
        }),
{
    lemma_fields_are_words(inputs.options);
    lemma_plain_args(fields(inputs.options));
    lemma_fields_of_joined(plain_args(fields(inputs.options)));
}

/// The entry for a deployment, with its kernel and initrd.
pub open spec fn entry_for(
    inputs: EntryInputsView,
    dep: BootDeploymentView,
    priority: nat,
    linux: Seq<char>,
    initrd: Seq<char>,
) -> BlsEntryView {
    let sum = short_checksum(dep.checksum);
    BlsEntryView {
        title: (if dep.is_composefs {
            inputs.composefs_title
        } else {
            inputs.ostree_title
        }) + " ("@ + sum + ":"@ + decimal(priority) + ")"@,
        version: dep.kver,
        linux,
        initrds: seq![initrd],
        options: options_for(inputs.options, dep.is_composefs),
        filename: "bootc_"@ + replace_char(inputs.os_id, '-', "_"@) + "-"@ + sum + "-"@ + decimal(
            priority,
        ) + ".conf"@,
        sort_key: "bootc-"@ + inputs.os_id + "-"@ + decimal(priority),
    }
}

/// The entry for a deployment, with its kernel and initrd.
fn make_entry(
    inputs: &EntryInputs,
    dep: &BootDeployment,
    priority: u64,
    linux: String,
    initrd: String,
) -> (r: BlsEntry)
    ensures
        r.deep_view() == entry_for(
            inputs.deep_view(),
            dep.deep_view(),
            priority as nat,
            linux@,
            initrd@,
        ),
{
    let sum: String = head_bytes(dep.checksum.as_str(), 12);
    let digits: String = decimal_of(priority);
    let mut title: String = if dep.is_composefs {
        inputs.composefs_title.clone()
    } else {
        inputs.ostree_title.clone()
    };
    title.append(" (");
    title.append(sum.as_str());
    title.append(":");
    title.append(digits.as_str());
    title.append(")");
    let options: String = entry_options(inputs.options.as_str(), dep.is_composefs);
    let mut filename: String = "bootc_".to_owned();
    filename.append(replaced_char(inputs.os_id.as_str(), '-', "_").as_str());
    filename.append("-");
    filename.append(sum.as_str());
    filename.append("-");
    filename.append(digits.as_str());
    filename.append(".conf");
    let mut sort_key: String = "bootc-".to_owned();
    sort_key.append(inputs.os_id.as_str());
    sort_key.append("-");
    sort_key.append(digits.as_str());
    let mut initrds: Vec<String> = Vec::new();
    initrds.push(initrd);
    assert(initrds.deep_view() =~= seq![initrd@]);
    BlsEntry {
        title,
        version: dep.kver.clone(),
        linux,
        initrds,
        options,
        filename,
        sort_key,
    }
}

/// Where the kernel of a deployment goes, as the boot menu names it: for
/// systemd-boot by the token and the version, for GRUB by the checksum.
pub open spec fn kernel_place(
    to: TargetBootloader,
    token: Seq<char>,
    dep: BootDeploymentView,
    priority: nat,
) -> Seq<char> {
    match to {
        TargetBootloader::SystemdBoot => token + "/"@ + dep.kver,
        TargetBootloader::Grub2 => "bootc-"@ + short_checksum(dep.checksum) + "-"@ + decimal(
            priority,
        ),
    }
}

/// The directory that the kernel of a deployment goes to.
pub open spec fn kernel_dir(
    to: TargetBootloader,
    boot: Seq<char>,
    token: Seq<char>,
    dep: BootDeploymentView,
    priority: nat,
) -> Seq<char> {
    match to {
        TargetBootloader::SystemdBoot => join_path(join_path(boot, token), dep.kver),
        TargetBootloader::Grub2 => join_path(boot, kernel_place(to, token, dep, priority)),
    }
}

/// The name of the kernel there.
pub open spec fn kernel_name(to: TargetBootloader) -> Seq<char> {
    match to {
        TargetBootloader::SystemdBoot => "linux"@,
        TargetBootloader::Grub2 => "vmlinuz"@,
    }
}

/// The entry of a deployment for the bootloader.
pub open spec fn planned_entry(
    to: TargetBootloader,
    token: Seq<char>,
    inputs: EntryInputsView,
    dep: BootDeploymentView,
    priority: nat,
) -> BlsEntryView {
    let place = kernel_place(to, token, dep, priority);
    entry_for(
        inputs,
        dep,
        priority,
        "/"@ + place + "/"@ + kernel_name(to),
        "/"@ + place + "/initrd"@,
    )
}

/// Where the kernel of a deployment goes.
fn place_of(to: TargetBootloader, token: &str, dep: &BootDeployment, priority: u64) -> (r: String)
    ensures
        r@ == kernel_place(to, token@, dep.deep_view(), priority as nat),
{
    match to {
        TargetBootloader::SystemdBoot => {
            let mut p: String = token.to_owned();
            p.append("/");
            p.append(dep.kver.as_str());
            p
        },
        TargetBootloader::Grub2 => {
            let mut p: String = "bootc-".to_owned();
            p.append(head_bytes(dep.checksum.as_str(), 12).as_str());
            p.append("-");
            p.append(decimal_of(priority).as_str());
            p
        },
    }
}

/// The name of the kernel there.
fn name_of_kernel(to: TargetBootloader) -> (r: &'static str)
    ensures
        r@ == kernel_name(to),
{
    match to {
        TargetBootloader::SystemdBoot => "linux",
        TargetBootloader::Grub2 => "vmlinuz",
    }
}

/// The entry of a deployment for the bootloader.
fn plan_entry(
    to: TargetBootloader,
    token: &str,
    inputs: &EntryInputs,
    dep: &BootDeployment,
    priority: u64,
) -> (r: BlsEntry)
    ensures
        r.deep_view() == planned_entry(
            to,
            token@,
            inputs.deep_view(),
            dep.deep_view(),
            priority as nat,
        ),
{
    let place: String = place_of(to, token, dep, priority);
    let mut linux: String = "/".to_owned();
    linux.append(place.as_str());
    linux.append("/");
    linux.append(name_of_kernel(to));
    let mut initrd: String = "/".to_owned();
    initrd.append(place.as_str());
    initrd.append("/initrd");
    make_entry(inputs, dep, priority, linux, initrd)
}

/// The entries of the deployments.
pub open spec fn planned_entries(
    to: TargetBootloader,
    token: Seq<char>,
    inputs: EntryInputsView,
    deps: Seq<BootDeploymentView>,
) -> Seq<BlsEntryView> {
    deps.map(|i: int, d: BootDeploymentView| planned_entry(to, token, inputs, d, i as nat))
}

/// Names that end in different numbers differ.
proof fn lemma_numbered_names_differ(a: Seq<char>, b: Seq<char>, i: nat, j: nat)
    requires
        i != j,
    ensures
        a + "-"@ + decimal(i) + ".conf"@ != b + "-"@ + decimal(j) + ".conf"@,
{
    reveal_strlit("-");
    let e = ".conf"@;
    let x = decimal(i);
    let y = decimal(j);
    let p = a + "-"@ + x + e;
    let q = b + "-"@ + y + e;
    lemma_decimal_value(i);
    lemma_decimal_value(j);
    if p == q {
        let end = p.len() - e.len();
        if x.len() == y.len() {
            assert(p.subrange(end - x.len(), end) =~= x);
            assert(q.subrange(end - y.len(), end) =~= y);
            assert(false);
        } else if x.len() < y.len() {
            assert(p[end - x.len() - 1] == '-');
            assert(q[end - x.len() - 1] == y[y.len() - x.len() - 1]);
            assert(is_digit(y[y.len() - x.len() - 1]));
        } else {
            assert(q[end - y.len() - 1] == '-');
            assert(p[end - y.len() - 1] == x[x.len() - y.len() - 1]);
            assert(is_digit(x[x.len() - y.len() - 1]));
        }
    }
}

/// Each deployment has an entry of its own: no two have the same file name.
pub proof fn law_entries_have_names_of_their_own(
    to: TargetBootloader,
    token: Seq<char>,
    inputs: EntryInputsView,
    deps: Seq<BootDeploymentView>,
    i: int,
    j: int,
)
    requires
        0 <= i < j < deps.len(),
    ensures
        planned_entries(to, token, inputs, deps).len() == deps.len(),
        planned_entries(to, token, inputs, deps)[i].filename != planned_entries(
            to,
            token,
            inputs,
            deps,
        )[j].filename,
{
    let head = "bootc_"@ + replace_char(inputs.os_id, '-', "_"@) + "-"@;
    lemma_numbered_names_differ(
        head + short_checksum(deps[i].checksum),
        head + short_checksum(deps[j].checksum),
        i as nat,
        j as nat,
    );
}

/// The entries of the deployments: one for each, the first being the default.
pub fn plan_entries(
    to: TargetBootloader,
    token: &str,
    inputs: &EntryInputs,
    deps: &[BootDeployment],
) -> (r: Vec<BlsEntry>)
    ensures
        r.deep_view() == planned_entries(to, token@, inputs.deep_view(), deps.deep_view()),
{
    let ghost all = deps.deep_view();
    let ghost want = planned_entries(to, token@, inputs.deep_view(), all);
    let mut r: Vec<BlsEntry> = Vec::new();
    let mut i: usize = 0;
    while i < deps.len()
        invariant
            all == deps.deep_view(),
            want == planned_entries(to, token@, inputs.deep_view(), all),
            i <= deps@.len(),
            r.deep_view() == want.take(i as int),
        decreases deps@.len() - i,
    {
        let ghost before = r.deep_view();
        let e: BlsEntry = plan_entry(to, token, inputs, &deps[i], i as u64);
        r.push(e);
        proof {
            assert(all[i as int] == deps@[i as int].deep_view());
            assert(r.deep_view() =~= before.push(e.deep_view()));
            assert(r.deep_view() =~= want.take(i + 1));
        }
        i = i + 1;
    }
    assert(want.take(i as int) =~= want);
    r
}

/// The steps that copy one kernel with its initrd, or what a dry run says
/// instead.
pub open spec fn kernel_steps(
    to: TargetBootloader,
    boot: Seq<char>,
    token: Seq<char>,
    inputs: EntryInputsView,
    dep: BootDeploymentView,
    priority: nat,
    dry_run: bool,
) -> Seq<BootStepView> {
    let dir = kernel_dir(to, boot, token, dep, priority);
    if dry_run {
        match to {
            TargetBootloader::SystemdBoot => seq![
                BootStepView::Do(
                    StepView::Say(
                        "[DRY RUN] Would copy kernel "@ + dep.vmlinuz + " -> ESP/"@ + token + "/"@
                            + dep.kver + "/linux"@,
                    ),
                ),
                BootStepView::Do(
                    StepView::Say(
                        "[DRY RUN] Would write BLS entry: "@ + planned_entry(
                            to,
                            token,
                            inputs,
                            dep,
                            priority,
                        ).filename,
                    ),
                ),
            ],
            TargetBootloader::Grub2 => seq![
                BootStepView::Do(
                    StepView::Say(
                        "[DRY RUN] Would copy kernel/initrd to "@ + dir + " and write BLS entry"@,
                    ),
                ),
            ],
        }
    } else {
        let (kernel_context, initrd_context) = match to {
            TargetBootloader::SystemdBoot => (
                "copying kernel "@ + dep.vmlinuz + " to ESP"@,
                "copying initrd "@ + dep.initrd + " to ESP"@,
            ),
            TargetBootloader::Grub2 => (""@, ""@),
        };
        seq![
            BootStepView::Do(StepView::MakeDir { path: dir, context: ""@ }),
            BootStepView::Do(
                StepView::Copy {
                    from: dep.vmlinuz,
                    to: join_path(dir, kernel_name(to)),
                    context: kernel_context,
                },
            ),
        ] + (if dep.initrd_exists {
            seq![
                BootStepView::Do(
                    StepView::Copy {
                        from: dep.initrd,
                        to: join_path(dir, "initrd"@),
                        context: initrd_context,
                    },
                ),
            ]
        } else {
            Seq::empty()
        })
    }
}

/// Adds the steps that copy one kernel with its initrd.
fn add_kernel(
    steps: &mut Vec<BootStep>,
    to: TargetBootloader,
    boot: &str,
    token: &str,
    inputs: &EntryInputs,
    dep: &BootDeployment,
    priority: u64,
    dry_run: bool,
)
    ensures
        final(steps).deep_view() == old(steps).deep_view() + kernel_steps(
            to,
            boot@,
            token@,
            inputs.deep_view(),
            dep.deep_view(),
            priority as nat,
            dry_run,
        ),
{
    let ghost start = steps.deep_view();
    let ghost want = kernel_steps(
        to,
        boot@,
        token@,
        inputs.deep_view(),
        dep.deep_view(),
        priority as nat,
        dry_run,
    );
    let dir: String = match to {
        TargetBootloader::SystemdBoot => {
            let above: String = path_join(boot, token);
            path_join(above.as_str(), dep.kver.as_str())
        },
        TargetBootloader::Grub2 => {
            let place: String = place_of(to, token, dep, priority);
            path_join(boot, place.as_str())
        },
    };
    if dry_run {
        match to {
            TargetBootloader::SystemdBoot => {
                let mut a: String = "[DRY RUN] Would copy kernel ".to_owned();
                a.append(dep.vmlinuz.as_str());
                a.append(" -> ESP/");
                a.append(token);
                a.append("/");
                a.append(dep.kver.as_str());
                a.append("/linux");
                push_do(steps, Step::Say(a));
                let entry: BlsEntry = plan_entry(to, token, inputs, dep, priority);
                let mut b: String = "[DRY RUN] Would write BLS entry: ".to_owned();
                b.append(entry.filename.as_str());
                push_do(steps, Step::Say(b));
            },
            TargetBootloader::Grub2 => {
                let mut a: String = "[DRY RUN] Would copy kernel/initrd to ".to_owned();
                a.append(dir.as_str());
                a.append(" and write BLS entry");
                push_do(steps, Step::Say(a));
            },
        }
        assert(steps.deep_view() =~= start + want);
        return;
    }
    let mut kernel_context: String = String::new();
    let mut initrd_context: String = String::new();
    match to {
        TargetBootloader::SystemdBoot => {
            kernel_context = "copying kernel ".to_owned();
            kernel_context.append(dep.vmlinuz.as_str());
            kernel_context.append(" to ESP");
            initrd_context = "copying initrd ".to_owned();
            initrd_context.append(dep.initrd.as_str());
            initrd_context.append(" to ESP");
        },
        TargetBootloader::Grub2 => {
            proof {
                reveal_strlit("");
                assert(kernel_context@ =~= ""@);
                assert(initrd_context@ =~= ""@);
            }
        },
    }
    push_do(steps, make_dir(dir.as_str(), ""));
    let kernel: String = path_join(dir.as_str(), name_of_kernel(to));
    push_do(steps, copy(dep.vmlinuz.as_str(), kernel.as_str(), kernel_context.as_str()));
    if dep.initrd_exists {
        let initrd: String = path_join(dir.as_str(), "initrd");
        push_do(steps, copy(dep.initrd.as_str(), initrd.as_str(), initrd_context.as_str()));
    }
    assert(steps.deep_view() =~= start + want);
}

/// The steps that copy the kernels.
pub open spec fn all_kernel_steps(
    to: TargetBootloader,
    boot: Seq<char>,
    token: Seq<char>,
    inputs: EntryInputsView,
    deps: Seq<BootDeploymentView>,
    dry_run: bool,
) -> Seq<BootStepView>
    decreases deps.len(),
{
    if deps.len() == 0 {
        Seq::empty()
    } else {
        all_kernel_steps(to, boot, token, inputs, deps.drop_last(), dry_run) + kernel_steps(
            to,
            boot,
            token,
            inputs,
            deps.last(),
            (deps.len() - 1) as nat,
            dry_run,
        )
    }
}

/// Adds the steps that copy the kernels.
fn add_kernels(
    steps: &mut Vec<BootStep>,
    to: TargetBootloader,
    boot: &str,
    token: &str,
    inputs: &EntryInputs,
    deps: &[BootDeployment],
    dry_run: bool,
)
    ensures
        final(steps).deep_view() == old(steps).deep_view() + all_kernel_steps(
            to,
            boot@,
            token@,
            inputs.deep_view(),
            deps.deep_view(),
            dry_run,
        ),
{
    let ghost start = steps.deep_view();
    let ghost all = deps.deep_view();
    let ghost iv = inputs.deep_view();
    let mut i: usize = 0;
    assert(all.take(0) =~= Seq::empty());
    assert(steps.deep_view() =~= start + all_kernel_steps(
        to,
        boot@,
        token@,
        iv,
        all.take(0),
        dry_run,
    ));
    while i < deps.len()
        invariant
            all == deps.deep_view(),
            iv == inputs.deep_view(),
            i <= deps@.len(),
            steps.deep_view() == start + all_kernel_steps(
                to,
                boot@,
                token@,
                iv,
                all.take(i as int),
                dry_run,
            ),
        decreases deps@.len() - i,
    {
        proof {
            assert(all[i as int] == deps@[i as int].deep_view());
            assert(all.take(i + 1).drop_last() =~= all.take(i as int));
            assert(all.take(i + 1).last() == all[i as int]);
        }
        add_kernel(steps, to, boot, token, inputs, &deps[i], i as u64, dry_run);
        assert(steps.deep_view() =~= start + all_kernel_steps(
            to,
            boot@,
            token@,
            iv,
            all.take(i + 1),
            dry_run,
        ));
        i = i + 1;
    }
    assert(all.take(i as int) =~= all);
}

/// The steps that write one entry beside its place and move it there, so that
/// it is never half written.
pub open spec fn entry_steps(
    to: TargetBootloader,
    boot: Seq<char>,
    entry: BlsEntryView,
) -> Seq<BootStepView> {
    let staged = join_path(join_path(boot, "loader/entries.staged"@), entry.filename);
    let placed = join_path(join_path(boot, "loader/entries"@), entry.filename);
    let (write_context, move_context) = match to {
        TargetBootloader::SystemdBoot => (
            "writing staged BLS entry: "@ + entry.filename,
            "promoting BLS entry: "@ + entry.filename,
        ),
        TargetBootloader::Grub2 => (""@, ""@),
    };
    seq![
        BootStepView::WriteEntry { path: staged, entry, context: write_context },
        BootStepView::Do(StepView::Rename { from: staged, to: placed, context: move_context }),
    ]
}

/// The steps that write the entries.
pub open spec fn all_entry_steps(
    to: TargetBootloader,
    boot: Seq<char>,
    entries: Seq<BlsEntryView>,
) -> Seq<BootStepView>
    decreases entries.len(),
{
    if entries.len() == 0 {
        Seq::empty()
    } else {
        all_entry_steps(to, boot, entries.drop_last()) + entry_steps(to, boot, entries.last())
    }
}

/// Adds the steps that write the entries.
fn add_entries(steps: &mut Vec<BootStep>, to: TargetBootloader, boot: &str, entries: &[BlsEntry])
    ensures
        final(steps).deep_view() == old(steps).deep_view() + all_entry_steps(
            to,
            boot@,
            entries.deep_view(),
        ),
{
    let ghost start = steps.deep_view();
    let ghost all = entries.deep_view();
    let staged_dir: String = path_join(boot, "loader/entries.staged");
    let placed_dir: String = path_join(boot, "loader/entries");
    let mut i: usize = 0;
    assert(all.take(0) =~= Seq::empty());
    assert(steps.deep_view() =~= start + all_entry_steps(to, boot@, all.take(0)));
    while i < entries.len()
        invariant
            all == entries.deep_view(),
            staged_dir@ == join_path(boot@, "loader/entries.staged"@),
            placed_dir@ == join_path(boot@, "loader/entries"@),
            i <= entries@.len(),
            steps.deep_view() == start + all_entry_steps(to, boot@, all.take(i as int)),
        decreases entries@.len() - i,
    {
        proof {
            assert(all[i as int] == entries@[i as int].deep_view());
            assert(all.take(i + 1).drop_last() =~= all.take(i as int));
            assert(all.take(i + 1).last() == all[i as int]);
        }
        let name: &str = entries[i].filename.as_str();
        let staged: String = path_join(staged_dir.as_str(), name);
        let placed: String = path_join(placed_dir.as_str(), name);
        let mut write_context: String = String::new();
        let mut move_context: String = String::new();
        match to {
            TargetBootloader::SystemdBoot => {
                write_context = "writing staged BLS entry: ".to_owned();
                write_context.append(name);
                move_context = "promoting BLS entry: ".to_owned();
                move_context.append(name);
            },
            TargetBootloader::Grub2 => {
                proof {
                    reveal_strlit("");
                    assert(write_context@ =~= ""@);
                    assert(move_context@ =~= ""@);
                }
            },
        }
        let entry: BlsEntry = copy_entry(&entries[i]);
        push_step(
            steps,
            BootStep::WriteEntry {
                path: staged.as_str().to_owned(),
                entry,
                context: write_context,
            },
        );
        push_do(steps, rename(staged.as_str(), placed.as_str(), move_context.as_str()));
        assert(steps.deep_view() =~= start + all_entry_steps(to, boot@, all.take(i + 1)));
        i = i + 1;
    }
    assert(all.take(i as int) =~= all);
}

/// The name by which the boot menu knows the entry of the file.
pub open spec fn entry_id(filename: Seq<char>) -> Seq<char> {
    trim_end_text(filename, ".conf"@)
}

/// The line that reports the entries.
pub open spec fn written_line(n: nat, rest: Seq<char>) -> Seq<char> {
    decimal(n) + " BLS entr"@ + (if n == 1 {
        "y"@
    } else {
        "ies"@
    }) + rest
}

/// The line that reports the entries.
fn say_written(n: usize, rest: &str) -> (r: String)
    ensures
        r@ == written_line(n as nat, rest@),
{
    let mut s: String = decimal_of(n as u64);
    s.append(" BLS entr");
    if n == 1 {
        s.append("y");
    } else {
        s.append("ies");
    }
    s.append(rest);
    s
}

/// Where systemd keeps the binary of systemd-boot.
pub open spec fn host_binary() -> Seq<char> {
    "/usr/lib/systemd/boot/efi/systemd-bootx64.efi"@
}

/// The steps that install the binary of systemd-boot, from an image or from the
/// running system.
pub open spec fn binary_steps(
    esp: Seq<char>,
    from_image: Option<Seq<char>>,
    host_has_binary: bool,
) -> Seq<BootStepView> {
    let sd_dir = join_path(esp, "EFI/systemd"@);
    let removable_dir = join_path(esp, "EFI/BOOT"@);
    let installed = join_path(sd_dir, "systemd-bootx64.efi"@);
    let removable = join_path(removable_dir, "BOOTX64.EFI"@);
    let made = seq![
        BootStepView::Do(StepView::MakeDir { path: sd_dir, context: ""@ }),
        BootStepView::Do(StepView::MakeDir { path: removable_dir, context: ""@ }),
    ];
    match from_image {
        Some(image) => made + seq![
            BootStepView::Do(
                StepView::Say(
                    "Extracting systemd-boot from image '"@ + image + "' via registry..."@,
                ),
            ),
            BootStepView::Extract {
                image,
                file: host_binary(),
                to: installed,
                context: "failed to extract systemd-boot from image"@,
            },
            BootStepView::Do(StepView::Copy { from: installed, to: removable, context: ""@ }),
            BootStepView::Do(StepView::Say("systemd-boot installed to ESP."@)),
        ],
        None => if host_has_binary {
            made + seq![
                BootStepView::Do(
                    StepView::Say(
                        "Copying systemd-boot from running system: "@ + host_binary(),
                    ),
                ),
                BootStepView::Do(
                    StepView::Copy { from: host_binary(), to: installed, context: ""@ },
                ),
                BootStepView::Do(
                    StepView::Copy { from: host_binary(), to: removable, context: ""@ },
                ),
                BootStepView::Do(StepView::Say("systemd-boot installed to ESP."@)),
            ]
        } else {
            made + seq![
                BootStepView::Stop(
                    "systemd-boot binary not found in the running system at "@ + host_binary()
                        + ". Use --from-image <image> to extract it from a container image."@,
                ),
            ]
        },
    }
}

/// Adds the steps that install the binary of systemd-boot.
fn add_binary(
    steps: &mut Vec<BootStep>,
    esp: &str,
    from_image: Option<&str>,
    host_has_binary: bool,
)
    ensures
        final(steps).deep_view() == old(steps).deep_view() + binary_steps(
            esp@,
            match from_image {
                Some(i) => Some(i@),
                None => None,
            },
            host_has_binary,
        ),
{
    let ghost start = steps.deep_view();
    let ghost image_view = match from_image {
        Some(i) => Some(i@),
        None => None,
    };
    let sd_dir: String = path_join(esp, "EFI/systemd");
    let removable_dir: String = path_join(esp, "EFI/BOOT");
    let installed: String = path_join(sd_dir.as_str(), "systemd-bootx64.efi");
    let removable: String = path_join(removable_dir.as_str(), "BOOTX64.EFI");
    push_do(steps, make_dir(sd_dir.as_str(), ""));
    push_do(steps, make_dir(removable_dir.as_str(), ""));
    match from_image {
        Some(image) => {
            let mut l: String = "Extracting systemd-boot from image '".to_owned();
            l.append(image);
            l.append("' via registry...");
            push_do(steps, Step::Say(l));
            push_step(
                steps,
                BootStep::Extract {
                    image: image.to_owned(),
                    file: "/usr/lib/systemd/boot/efi/systemd-bootx64.efi".to_owned(),
                    to: installed.as_str().to_owned(),
                    context: "failed to extract systemd-boot from image".to_owned(),
                },
            );
            push_do(steps, copy(installed.as_str(), removable.as_str(), ""));
            push_do(steps, say("systemd-boot installed to ESP."));
        },
        None => {
            if host_has_binary {
                let mut l: String = "Copying systemd-boot from running system: ".to_owned();
                l.append("/usr/lib/systemd/boot/efi/systemd-bootx64.efi");
                push_do(steps, Step::Say(l));
                push_do(
                    steps,
                    copy(
                        "/usr/lib/systemd/boot/efi/systemd-bootx64.efi",
                        installed.as_str(),
                        "",
                    ),
                );
                push_do(
                    steps,
                    copy(
                        "/usr/lib/systemd/boot/efi/systemd-bootx64.efi",
                        removable.as_str(),
                        "",
                    ),
                );
                push_do(steps, say("systemd-boot installed to ESP."));
            } else {
                let mut m: String = "systemd-boot binary not found in the running system at ".to_owned();
                m.append("/usr/lib/systemd/boot/efi/systemd-bootx64.efi");
                m.append(". Use --from-image <image> to extract it from a container image.");
                push_step(steps, BootStep::Stop(m));
            }
        },
    }
    assert(steps.deep_view() =~= start + binary_steps(esp@, image_view, host_has_binary));
}

/// The steps of a change to systemd-boot.
pub open spec fn systemd_boot_steps(
    esp: Seq<char>,
    token: Seq<char>,
    inputs: EntryInputsView,
    deps: Seq<BootDeploymentView>,
    dry_run: bool,
    from_image: Option<Seq<char>>,
    host_has_binary: bool,
) -> Seq<BootStepView> {
    let to = TargetBootloader::SystemdBoot;
    let entries = planned_entries(to, token, inputs, deps);
    if dry_run {
        seq![
            BootStepView::Do(
                StepView::Say("[DRY RUN] Would install systemd-bootx64.efi to ESP."@),
            ),
        ] + all_kernel_steps(to, esp, token, inputs, deps, true)
    } else {
        binary_steps(esp, from_image, host_has_binary) + seq![
            BootStepView::Do(
                StepView::MakeDir { path: join_path(esp, "loader/entries"@), context: ""@ },
            ),
        ] + all_kernel_steps(to, esp, token, inputs, deps, false) + seq![
            BootStepView::Do(
                StepView::MakeDir { path: join_path(esp, "loader/entries.staged"@), context: ""@ },
            ),
        ] + all_entry_steps(to, esp, entries) + seq![
            BootStepView::Do(
                StepView::Write {
                    path: join_path(esp, "loader/loader.conf"@),
                    contents: "default "@ + entry_id(entries[0].filename)
                        + "\ntimeout 3\nconsole-mode keep\n"@,
                    context: "failed to write loader.conf"@,
                },
            ),
        ] + seq![BootStepView::Register { esp }] + seq![
            BootStepView::Do(
                StepView::Say(
                    written_line(entries.len(), " written to ESP. GRUB retained as fallback."@),
                ),
            ),
        ]
    }
}

/// The steps of a change to systemd-boot: its binary, the kernels and entries
/// of the deployments, the first as the default, and the registration with the
/// firmware. GRUB stays as the way back.
pub fn migrate_to_systemd_boot(
    esp: &str,
    token: &str,
    inputs: &EntryInputs,
    deps: &[BootDeployment],
    dry_run: bool,
    from_image: Option<&str>,
    host_has_binary: bool,
) -> (r: Vec<BootStep>)
    requires
        deps@.len() > 0,
    ensures
        r.deep_view() == systemd_boot_steps(
            esp@,
            token@,
            inputs.deep_view(),
            deps.deep_view(),
            dry_run,
            match from_image {
                Some(i) => Some(i@),
                None => None,
            },
            host_has_binary,
        ),
{
    let to: TargetBootloader = TargetBootloader::SystemdBoot;
    let mut steps: Vec<BootStep> = Vec::new();
    assert(steps.deep_view() =~= Seq::empty());
    if dry_run {
        push_do(&mut steps, say("[DRY RUN] Would install systemd-bootx64.efi to ESP."));
        assert(steps.deep_view() =~= seq![
            BootStepView::Do(
                StepView::Say("[DRY RUN] Would install systemd-bootx64.efi to ESP."@),
            ),
        ]);
        add_kernels(&mut steps, to, esp, token, inputs, deps, true);
        return steps;
    }
    add_binary(&mut steps, esp, from_image, host_has_binary);
    let ghost image_view = match from_image {
        Some(i) => Some(i@),
        None => None,
    };
    assert(steps.deep_view() =~= binary_steps(esp@, image_view, host_has_binary));
    let entries_dir: String = path_join(esp, "loader/entries");
    push_do(&mut steps, make_dir(entries_dir.as_str(), ""));
    add_kernels(&mut steps, to, esp, token, inputs, deps, false);
    let staged_dir: String = path_join(esp, "loader/entries.staged");
    push_do(&mut steps, make_dir(staged_dir.as_str(), ""));
    let entries: Vec<BlsEntry> = plan_entries(to, token, inputs, deps);
    let ghost ev = entries.deep_view();
    assert(ev.len() == deps@.len());
    assert(ev[0].filename == entries@[0].filename@);
    add_entries(&mut steps, to, esp, entries.as_slice());
    let default_id: String = trimmed_end_text(entries[0].filename.as_str(), ".conf");
    let mut conf: String = "default ".to_owned();
    conf.append(default_id.as_str());
    conf.append("\ntimeout 3\nconsole-mode keep\n");
    let conf_path: String = path_join(esp, "loader/loader.conf");
    push_do(
        &mut steps,
        write_file(conf_path.as_str(), conf.as_str(), "failed to write loader.conf"),
    );
    push_step(&mut steps, BootStep::Register { esp: esp.to_owned() });
    let line: String = say_written(
        entries.len(),
        " written to ESP. GRUB retained as fallback.",
    );
    push_do(&mut steps, Step::Say(line));
    steps
}

/// Whether the line sets the default entry of GRUB.
pub open spec fn sets_grub_default(line: Seq<char>) -> bool {
    begins(line, "GRUB_DEFAULT="@)
}

/// The lines with the default entry left to what was saved.
pub open spec fn saved_lines(ls: Seq<Seq<char>>) -> Seq<char>
    decreases ls.len(),
{
    if ls.len() == 0 {
        Seq::empty()
    } else if sets_grub_default(ls.last()) {
        saved_lines(ls.drop_last()) + "GRUB_DEFAULT=saved\n"@
    } else {
        saved_lines(ls.drop_last()) + ls.last() + "\n"@
    }
}

/// Whether one of the lines sets the default entry.
pub open spec fn has_grub_default(ls: Seq<Seq<char>>) -> bool {
    exists|i: int| 0 <= i < ls.len() && sets_grub_default(#[trigger] ls[i])
}

/// The text of `/etc/default/grub` with the default entry left to what was
/// saved.
pub open spec fn with_saved_default(existing: Seq<char>) -> Seq<char> {
    if has_grub_default(lines(existing)) {
        saved_lines(lines(existing))
    } else {
        saved_lines(lines(existing)) + "GRUB_DEFAULT=saved\n"@
    }
}

/// The text of `/etc/default/grub` with the default entry left to what was
/// saved.
pub fn grub_default_saved(existing: &str) -> (r: String)
    ensures
        r@ == with_saved_default(existing@),
{
    let ls: Vec<String> = lines_of(existing);
    let ghost all = ls.deep_view();
    let mut r: String = String::new();
    let mut found: bool = false;
    let mut i: usize = 0;
    assert(all.take(0) =~= Seq::empty());
    while i < ls.len()
        invariant
            all == ls.deep_view(),
            i <= ls@.len(),
            r@ == saved_lines(all.take(i as int)),
            found == has_grub_default(all.take(i as int)),
        decreases ls@.len() - i,
    {
        let ghost done = all.take(i as int);
        let ghost more = all.take(i + 1);
        proof {
            assert(all[i as int] == ls@[i as int]@);
            assert(more.drop_last() =~= done);
            assert(more.last() == all[i as int]);
            if has_grub_default(done) {
                let k = choose|k: int| 0 <= k < done.len() && sets_grub_default(#[trigger] done[k]);
                assert(sets_grub_default(more[k]));
            }
            if has_grub_default(more) && !sets_grub_default(all[i as int]) {
                let k = choose|k: int| 0 <= k < more.len() && sets_grub_default(#[trigger] more[k]);
                assert(sets_grub_default(done[k]));
            }
        }
        if starts_with(ls[i].as_str(), "GRUB_DEFAULT=") {
            r.append("GRUB_DEFAULT=saved\n");
            found = true;
            assert(sets_grub_default(more[i as int]));
        } else {
            r.append(ls[i].as_str());
            r.append("\n");
        }
        i = i + 1;
    }
    assert(all.take(i as int) =~= all);
    if !found {
        r.append("GRUB_DEFAULT=saved\n");
    }
    r
}

/// The steps that make the entry GRUB's default, where it has an environment.
pub open spec fn grub_default_steps(id: Seq<char>, grubenv_exists: bool) -> Seq<BootStepView> {
    if grubenv_exists {
        seq![
            BootStepView::Either {
                first: seq![
                    "grub2-editenv"@,
                    "/boot/grub2/grubenv"@,
                    "set"@,
                    "saved_entry="@ + id,
                ],
                otherwise: seq!["grub2-set-default"@, id],
            },
            BootStepView::Do(
                StepView::Attempt { argv: seq!["grub2-reboot"@, id], warning: ""@ },
            ),
        ]
    } else {
        Seq::empty()
    }
}

/// The step that leaves GRUB's default to what was saved, where its settings
/// can be read.
pub open spec fn grub_settings_steps(settings: Option<Seq<char>>) -> Seq<BootStepView> {
    match settings {
        Some(text) => seq![
            BootStepView::Do(
                StepView::Write {
                    path: "/etc/default/grub"@,
                    contents: with_saved_default(text),
                    context: ""@,
                },
            ),
        ],
        None => Seq::empty(),
    }
}

/// The steps of a change to GRUB.
pub open spec fn grub2_steps(
    inputs: EntryInputsView,
    deps: Seq<BootDeploymentView>,
    dry_run: bool,
    grubenv_exists: bool,
    settings: Option<Seq<char>>,
) -> Seq<BootStepView> {
    let to = TargetBootloader::Grub2;
    let entries = planned_entries(to, ""@, inputs, deps);
    let id = entry_id(entries[0].filename);
    let head = seq![BootStepView::Do(StepView::Say("Migrating to GRUB2 (BLS Type 1)..."@))];
    if dry_run {
        head + all_kernel_steps(to, "/boot"@, ""@, inputs, deps, true)
    } else {
        head + seq![
            BootStepView::Do(
                StepView::MakeDir { path: "/boot/loader/entries"@, context: ""@ },
            ),
        ] + all_kernel_steps(to, "/boot"@, ""@, inputs, deps, false) + seq![
            BootStepView::Do(
                StepView::MakeDir { path: "/boot/loader/entries.staged"@, context: ""@ },
            ),
        ] + all_entry_steps(to, "/boot"@, entries) + grub_default_steps(id, grubenv_exists)
            + grub_settings_steps(settings) + seq![
            BootStepView::Do(
                StepView::Say(
                    written_line(
                        entries.len(),
                        " written to /boot/loader/entries. GRUB default set to "@ + id + "."@,
                    ),
                ),
            ),
        ]
    }
}

/// The steps of a change to GRUB: the kernels and entries of the deployments,
/// and the first as the default. `settings` is the text of
/// `/etc/default/grub`, where it can be read.
pub fn migrate_to_grub2(
    inputs: &EntryInputs,
    deps: &[BootDeployment],
    dry_run: bool,
    grubenv_exists: bool,
    settings: Option<&str>,
) -> (r: Vec<BootStep>)
    requires
        deps@.len() > 0,
    ensures
        r.deep_view() == grub2_steps(
            inputs.deep_view(),
            deps.deep_view(),
            dry_run,
            grubenv_exists,
            match settings {
                Some(t) => Some(t@),
                None => None,
            },
        ),
{
    let to: TargetBootloader = TargetBootloader::Grub2;
    let mut steps: Vec<BootStep> = Vec::new();
    assert(steps.deep_view() =~= Seq::empty());
    push_do(&mut steps, say("Migrating to GRUB2 (BLS Type 1)..."));
    assert(steps.deep_view() =~= seq![
        BootStepView::Do(StepView::Say("Migrating to GRUB2 (BLS Type 1)..."@)),
    ]);
    if dry_run {
        add_kernels(&mut steps, to, "/boot", "", inputs, deps, true);
        return steps;
    }
    push_do(&mut steps, make_dir("/boot/loader/entries", ""));
    add_kernels(&mut steps, to, "/boot", "", inputs, deps, false);
    push_do(&mut steps, make_dir("/boot/loader/entries.staged", ""));
    let entries: Vec<BlsEntry> = plan_entries(to, "", inputs, deps);
    let ghost ev = entries.deep_view();
    assert(ev.len() == deps@.len());
    assert(ev[0].filename == entries@[0].filename@);
    add_entries(&mut steps, to, "/boot", entries.as_slice());
    let id: String = trimmed_end_text(entries[0].filename.as_str(), ".conf");
    let ghost placed = steps.deep_view();
    if grubenv_exists {
        let mut saved: String = "saved_entry=".to_owned();
        saved.append(id.as_str());
        let first: Vec<String> = owned_all(
            &["grub2-editenv", "/boot/grub2/grubenv", "set", saved.as_str()],
        );
        let otherwise: Vec<String> = owned_all(&["grub2-set-default", id.as_str()]);
        assert(first.deep_view() =~= seq![
            "grub2-editenv"@,
            "/boot/grub2/grubenv"@,
            "set"@,
            "saved_entry="@ + id@,
        ]);
        assert(otherwise.deep_view() =~= seq!["grub2-set-default"@, id@]);
        push_step(&mut steps, BootStep::Either { first, otherwise });
        let argv: [&str; 2] = ["grub2-reboot", id.as_str()];
        let step: Step = attempt(&argv, "");
        assert(argv.deep_view() =~= seq!["grub2-reboot"@, id@]);
        push_do(&mut steps, step);
    }
    assert(steps.deep_view() =~= placed + grub_default_steps(id@, grubenv_exists));
    let ghost defaulted = steps.deep_view();
    let ghost settings_view = match settings {
        Some(t) => Some(t@),
        None => None,
    };
    match settings {
        Some(text) => {
            let new_text: String = grub_default_saved(text);
            push_do(&mut steps, write_file("/etc/default/grub", new_text.as_str(), ""));
        },
        None => {},
    }
    assert(steps.deep_view() =~= defaulted + grub_settings_steps(settings_view));
    let mut rest: String = " written to /boot/loader/entries. GRUB default set to ".to_owned();
    rest.append(id.as_str());
    rest.append(".");
    let line: String = say_written(entries.len(), rest.as_str());
    push_do(&mut steps, Step::Say(line));
    steps
}

/// What a dry run says of the kernels changes nothing.
proof fn lemma_dry_kernels(
    to: TargetBootloader,
    boot: Seq<char>,
    token: Seq<char>,
    inputs: EntryInputsView,
    deps: Seq<BootDeploymentView>,
)
    ensures
        forall|i: int|
            0 <= i < all_kernel_steps(to, boot, token, inputs, deps, true).len() ==> is_quiet(
                #[trigger] all_kernel_steps(to, boot, token, inputs, deps, true)[i],
            ),
    decreases deps.len(),
{
    if deps.len() > 0 {
        lemma_dry_kernels(to, boot, token, inputs, deps.drop_last());
        let d = all_kernel_steps(to, boot, token, inputs, deps.drop_last(), true);
        let own = kernel_steps(
            to,
            boot,
            token,
            inputs,
            deps.last(),
            (deps.len() - 1) as nat,
            true,
        );
        let all = all_kernel_steps(to, boot, token, inputs, deps, true);
        assert forall|i: int| 0 <= i < all.len() implies is_quiet(#[trigger] all[i]) by {
            if i < d.len() {
                assert(all[i] == d[i]);
            } else {
                assert(all[i] == own[i - d.len()]);
            }
        }
    }
}

/// A dry run of either change changes nothing.
pub proof fn law_dry_bootloader_change_is_quiet(
    esp: Seq<char>,
    token: Seq<char>,
    inputs: EntryInputsView,
    deps: Seq<BootDeploymentView>,
    from_image: Option<Seq<char>>,
    host_has_binary: bool,
    grubenv_exists: bool,
    settings: Option<Seq<char>>,
)
    ensures
        ({
            let s = systemd_boot_steps(
                esp,
                token,
                inputs,
                deps,
                true,
                from_image,
                host_has_binary,
            );
            forall|i: int| 0 <= i < s.len() ==> is_quiet(#[trigger] s[i])
        }),
        ({
            let s = grub2_steps(inputs, deps, true, grubenv_exists, settings);
            forall|i: int| 0 <= i < s.len() ==> is_quiet(#[trigger] s[i])
        }),
{
    lemma_dry_kernels(TargetBootloader::SystemdBoot, esp, token, inputs, deps);
    lemma_dry_kernels(TargetBootloader::Grub2, "/boot"@, ""@, inputs, deps);
}

/// Every deployment has an entry, the first of them as the default.
pub proof fn law_every_deployment_has_an_entry(
    to: TargetBootloader,
    token: Seq<char>,
    inputs: EntryInputsView,
    deps: Seq<BootDeploymentView>,
    i: int,
)
    requires
        0 <= i < deps.len(),
    ensures
        planned_entries(to, token, inputs, deps).len() == deps.len(),
        planned_entries(to, token, inputs, deps)[i].version == deps[i].kver,
{
}

/// The menu of systemd-boot has the entry of the first deployment as its
/// default: the settings are written with the name of that entry's file,
/// without its ending.
pub proof fn law_the_first_entry_is_the_default(
    esp: Seq<char>,
    token: Seq<char>,
    inputs: EntryInputsView,
    deps: Seq<BootDeploymentView>,
    from_image: Option<Seq<char>>,
    host_has_binary: bool,
)
    requires
        deps.len() > 0,
    ensures
        ({
            let steps = systemd_boot_steps(
                esp,
                token,
                inputs,
                deps,
                false,
                from_image,
                host_has_binary,
            );
            let first = planned_entry(TargetBootloader::SystemdBoot, token, inputs, deps[0], 0);
            let id = entry_id(first.filename);
            &&& id + ".conf"@ == first.filename
            &&& steps.len() >= 3
            &&& steps[steps.len() - 3] == BootStepView::Do(
                StepView::Write {
                    path: join_path(esp, "loader/loader.conf"@),
                    contents: "default "@ + id + "\ntimeout 3\nconsole-mode keep\n"@,
                    context: "failed to write loader.conf"@,
                },
            )
        }),
{
    reveal_strlit(".conf");
    let e = ".conf"@;
    let first = planned_entry(TargetBootloader::SystemdBoot, token, inputs, deps[0], 0);
    let name = first.filename;
    let base = name.take(name.len() - e.len());
    assert(name.skip(name.len() - e.len()) =~= e);
    lemma_decimal_value(0);
    let d = decimal(0);
    assert(base[base.len() - 1] == d[d.len() - 1]);
    assert(is_digit(d[d.len() - 1]));
    if finishes(base, e) {
        assert(base.skip(base.len() - e.len())[4] == e[4]);
    }
    reveal_with_fuel(trim_end_text, 2);
    assert(entry_id(name) == base);
    assert(base + e =~= name);
}

} // verus!

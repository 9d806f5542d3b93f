//! The state of the running system, with no regard to the direction of a
//! migration.
//!
//! What was observed comes in as plain values: the text of `/proc/mounts`, the
//! output of commands, whether paths exist. What it means is decided here.

use vstd::prelude::*;

use crate::rebase_plan::Backend;
use crate::text::numbers::{parse_number, parse_u64};
use crate::text::order::list_contains;
use crate::text::pieces::{fields, fields_of, lines, lines_of, split, split_at, trim, trimmed};
use crate::text::search::{begins, contains, holds, lower, same, starts_with, to_lower};

verus! {

/// Which storage keys `bootc status` gives for the booted deployment.
#[derive(Debug, Clone, Copy, PartialEq, Eq, Structural)]
pub struct BootedStatus {
    pub ostree: bool,
    pub composefs: bool,
}

/// The backend that the keys name. OSTree wins where both are there: it then
/// still has a repository to convert.
pub open spec fn backend_of(s: BootedStatus) -> Option<Backend> {
    if s.ostree {
        Some(Backend::Ostree)
    } else if s.composefs {
        Some(Backend::Composefs)
    } else {
        None
    }
}

impl BootedStatus {
    /// The backend of the running deployment, or none where this is no bootc
    /// deployment.
    pub fn backend(&self) -> (r: Option<Backend>)
        ensures
            r == backend_of(*self),
    {
        if self.ostree {
            Some(Backend::Ostree)
        } else if self.composefs {
            Some(Backend::Composefs)
        } else {
            None
        }
    }
}

/// Whether an OSTree update is under way.
#[derive(Debug, Clone, Copy, PartialEq, Eq, Structural)]
pub enum PendingTransactionStatus {
    /// None is.
    Clean,
    /// A deployment is staged for the next boot.
    StagedDeployment,
    /// A deployment was made and not booted yet.
    PendingDeployment,
    /// A transaction left files in the repository.
    StaleTransactionFiles,
}

/// The status in words.
pub open spec fn status_text(s: PendingTransactionStatus) -> Seq<char> {
    match s {
        PendingTransactionStatus::Clean => "no pending transaction"@,
        PendingTransactionStatus::StagedDeployment => "staged deployment (next boot will apply)"@,
        PendingTransactionStatus::PendingDeployment => "pending deployment (update in progress)"@,
        PendingTransactionStatus::StaleTransactionFiles => "stale transaction temp files in OSTree repo"@,
    }
}

impl PendingTransactionStatus {
    /// The status in words.
    pub fn describe(&self) -> (r: String)
        ensures
            r@ == status_text(*self),
    {
        match self {
            PendingTransactionStatus::Clean => "no pending transaction".to_owned(),
            PendingTransactionStatus::StagedDeployment => "staged deployment (next boot will apply)".to_owned(),
            PendingTransactionStatus::PendingDeployment => "pending deployment (update in progress)".to_owned(),
            PendingTransactionStatus::StaleTransactionFiles => "stale transaction temp files in OSTree repo".to_owned(),
        }
    }
}

/// The status that the first line with a marker gives.
pub open spec fn first_marker(ls: Seq<Seq<char>>) -> PendingTransactionStatus
    decreases ls.len(),
{
    if ls.len() == 0 {
        PendingTransactionStatus::Clean
    } else if holds(trim(ls[0]), "(staged)"@) {
        PendingTransactionStatus::StagedDeployment
    } else if holds(trim(ls[0]), "(pending)"@) {
        PendingTransactionStatus::PendingDeployment
    } else {
        first_marker(ls.skip(1))
    }
}

/// The status that the output of `ostree admin status` gives: that of the
/// first line with a marker.
pub fn parse_ostree_status_for_pending(status_output: &str) -> (r: PendingTransactionStatus)
    ensures
        r == first_marker(lines(status_output@)),
{
    let ls: Vec<String> = lines_of(status_output);
    let ghost all = ls.deep_view();
    let mut i: usize = 0;
    assert(all.skip(0) =~= all);
    while i < ls.len()
        invariant
            all == ls.deep_view(),
            all == lines(status_output@),
            i <= ls@.len(),
            first_marker(all) == first_marker(all.skip(i as int)),
        decreases ls@.len() - i,
    {
        proof {
            assert(all.skip(i as int)[0] == ls@[i as int]@);
            assert(all.skip(i as int).skip(1) =~= all.skip(i + 1));
        }
        let t: String = trimmed(ls[i].as_str());
        if contains(t.as_str(), "(staged)") {
            return PendingTransactionStatus::StagedDeployment;
        }
        if contains(t.as_str(), "(pending)") {
            return PendingTransactionStatus::PendingDeployment;
        }
        i = i + 1;
    }
    PendingTransactionStatus::Clean
}

/// Whether the name is that of a file which a transaction left behind.
pub open spec fn is_stale_name(name: Seq<char>) -> bool {
    ||| begins(name, ".stale-transaction"@)
    ||| begins(name, "staging-"@)
    ||| begins(name, "ostree-txn"@)
}

/// Whether a transaction left a file behind: `tmp` gives the names in the
/// repository's scratch directory, each with whether it is a file.
pub open spec fn has_stale_file(tmp: Seq<(Seq<char>, bool)>) -> bool {
    exists|i: int| 0 <= i < tmp.len() && (#[trigger] tmp[i]).1 && is_stale_name(tmp[i].0)
}

/// The status of the system: a staged deployment's own record comes first,
/// then what `ostree admin status` says, then what transactions left behind.
pub open spec fn pending_status(
    staged_marker: bool,
    status_output: Option<Seq<char>>,
    repo_tmp: Seq<(Seq<char>, bool)>,
) -> PendingTransactionStatus {
    let parsed = match status_output {
        Some(out) => first_marker(lines(out)),
        None => PendingTransactionStatus::Clean,
    };
    if staged_marker {
        PendingTransactionStatus::StagedDeployment
    } else if parsed != PendingTransactionStatus::Clean {
        parsed
    } else if has_stale_file(repo_tmp) {
        PendingTransactionStatus::StaleTransactionFiles
    } else {
        PendingTransactionStatus::Clean
    }
}

/// Whether a transaction left a file behind.
fn any_stale_file(tmp: &[(String, bool)]) -> (r: bool)
    ensures
        r == has_stale_file(tmp.deep_view()),
{
    let ghost all = tmp.deep_view();
    let mut i: usize = 0;
    while i < tmp.len()
        invariant
            all == tmp.deep_view(),
            i <= tmp@.len(),
            forall|k: int| 0 <= k < i ==> !((#[trigger] all[k]).1 && is_stale_name(all[k].0)),
        decreases tmp@.len() - i,
    {
        assert(all[i as int] == (tmp@[i as int].0@, tmp@[i as int].1));
        let name: &str = tmp[i].0.as_str();
        if tmp[i].1 && (starts_with(name, ".stale-transaction") || starts_with(name, "staging-")
            || starts_with(name, "ostree-txn")) {
            return true;
        }
        i = i + 1;
    }
    false
}

/// Whether an OSTree update is under way. `staged_marker` says whether
/// `/run/ostree/staged-deployment` exists, `status_output` is what a successful
/// `ostree admin status` printed, and `repo_tmp` lists the repository's scratch
/// directory, each name with whether it is a file.
pub fn check_pending_ostree_transaction(
    staged_marker: bool,
    status_output: Option<&str>,
    repo_tmp: &[(String, bool)],
) -> (r: PendingTransactionStatus)
    ensures
        r == pending_status(
            staged_marker,
            match status_output {
                Some(s) => Some(s@),
                None => None,
            },
            repo_tmp.deep_view(),
        ),
{
    if staged_marker {
        return PendingTransactionStatus::StagedDeployment;
    }
    match status_output {
        Some(out) => {
            let parsed: PendingTransactionStatus = parse_ostree_status_for_pending(out);
            if parsed != PendingTransactionStatus::Clean {
                return parsed;
            }
        },
        None => {},
    }
    if any_stale_file(repo_tmp) {
        return PendingTransactionStatus::StaleTransactionFiles;
    }
    PendingTransactionStatus::Clean
}

/// The number of files among the entries of a directory.
pub open spec fn files_in(entries: Seq<bool>) -> nat
    decreases entries.len(),
{
    if entries.len() == 0 {
        0
    } else {
        files_in(entries.drop_last()) + (if entries.last() {
            1nat
        } else {
            0nat
        })
    }
}

/// The number of files in the directories of an object store.
pub open spec fn objects_in(dirs: Seq<Seq<bool>>) -> nat
    decreases dirs.len(),
{
    if dirs.len() == 0 {
        0
    } else {
        objects_in(dirs.drop_last()) + files_in(dirs.last())
    }
}

/// A part of the store holds no more than the whole.
proof fn lemma_objects_in_prefix(dirs: Seq<Seq<bool>>, i: int)
    requires
        0 <= i <= dirs.len(),
    ensures
        objects_in(dirs.take(i)) <= objects_in(dirs),
    decreases dirs.len(),
{
    if i == dirs.len() {
        assert(dirs.take(i) =~= dirs);
    } else {
        assert(dirs.drop_last().take(i) =~= dirs.take(i));
        lemma_objects_in_prefix(dirs.drop_last(), i);
    }
}

/// The number of files among the entries.
fn count_files(entries: &Vec<bool>) -> (r: usize)
    ensures
        r == files_in(entries@),
        r <= entries@.len(),
{
    let mut n: usize = 0;
    let mut i: usize = 0;
    assert(entries@.take(0) =~= Seq::empty());
    while i < entries.len()
        invariant
            i <= entries@.len(),
            n <= i,
            n == files_in(entries@.take(i as int)),
        decreases entries@.len() - i,
    {
        assert(entries@.take(i + 1).drop_last() =~= entries@.take(i as int));
        if entries[i] {
            n = n + 1;
        }
        i = i + 1;
    }
    assert(entries@.take(i as int) =~= entries@);
    n
}

/// The number of objects in a composefs store. `dirs` holds, for each directory
/// directly under `objects/`, whether each of its entries is a file; what lies
/// beside or below that is no object.
pub fn count_composefs_files(dirs: &[Vec<bool>]) -> (r: usize)
    requires
        objects_in(dirs.deep_view()) <= usize::MAX,
    ensures
        r == objects_in(dirs.deep_view()),
{
    let ghost all = dirs.deep_view();
    let mut total: usize = 0;
    let mut i: usize = 0;
    assert(all.take(0) =~= Seq::empty());
    while i < dirs.len()
        invariant
            all == dirs.deep_view(),
            objects_in(all) <= usize::MAX,
            i <= dirs@.len(),
            total == objects_in(all.take(i as int)),
        decreases dirs@.len() - i,
    {
        let n: usize = count_files(&dirs[i]);
        proof {
            assert(all[i as int] =~= dirs@[i as int]@);
            assert(all.take(i + 1).drop_last() =~= all.take(i as int));
            assert(all.take(i + 1).last() == all[i as int]);
            lemma_objects_in_prefix(all, i + 1);
        }
        total = total + n;
        i = i + 1;
    }
    assert(all.take(i as int) =~= all);
    total
}

/// The free bytes that `statvfs` reports: the free blocks, in fragments where
/// the filesystem has a fragment size and in blocks otherwise.
pub fn free_bytes(fragment_size: u64, block_size: u64, blocks_available: u64) -> (r: u64)
    requires
        (if fragment_size > 0 {
            fragment_size
        } else {
            block_size
        }) * blocks_available <= u64::MAX,
    ensures
        r == (if fragment_size > 0 {
            fragment_size
        } else {
            block_size
        }) * blocks_available,
{
    if fragment_size > 0 {
        fragment_size * blocks_available
    } else {
        block_size * blocks_available
    }
}

/// Where podman keeps its images, the most specific path that exists. The
/// largest write of a migration lands there.
pub fn select_container_storage_path<F>(present: F) -> (r: &'static str) where F: Fn(&str) -> bool
    requires
        forall|p: &str| #[trigger] present.requires((p,)),
    ensures
        ({
            ||| r@ == "/var/lib/containers/storage"@ && present.ensures(
                ("/var/lib/containers/storage",),
                true,
            )
            ||| r@ == "/var"@ && present.ensures(("/var/lib/containers/storage",), false)
                && present.ensures(("/var",), true)
            ||| r@ == "/"@ && present.ensures(("/var/lib/containers/storage",), false)
                && present.ensures(("/var",), false)
        }),
{
    if present("/var/lib/containers/storage") {
        return "/var/lib/containers/storage";
    }
    if present("/var") {
        return "/var";
    }
    "/"
}

/// Whether a line of `/proc/mounts` mounts something at `path`.
pub open spec fn mounts_at(line: Seq<char>, path: Seq<char>) -> bool {
    fields(line).len() >= 2 && fields(line)[1] == path
}

/// Whether one of the lines mounts something at `path`.
pub open spec fn is_mount_point(ls: Seq<Seq<char>>, path: Seq<char>) -> bool {
    exists|i: int| 0 <= i < ls.len() && mounts_at(#[trigger] ls[i], path)
}

/// Whether `/var` is a mount of its own.
pub fn parse_var_is_separate_mount(proc_mounts: &str) -> (r: bool)
    ensures
        r == is_mount_point(lines(proc_mounts@), "/var"@),
{
    let ls: Vec<String> = lines_of(proc_mounts);
    let ghost all = ls.deep_view();
    let mut i: usize = 0;
    while i < ls.len()
        invariant
            all == ls.deep_view(),
            all == lines(proc_mounts@),
            i <= ls@.len(),
            forall|k: int| 0 <= k < i ==> !mounts_at(#[trigger] all[k], "/var"@),
        decreases ls@.len() - i,
    {
        assert(all[i as int] == ls@[i as int]@);
        let fs: Vec<String> = fields_of(ls[i].as_str());
        let ghost f = fs.deep_view();
        if fs.len() >= 2 {
            assert(f[1] == fs@[1]@);
            if same(fs[1].as_str(), "/var") {
                return true;
            }
        }
        i = i + 1;
    }
    false
}

/// The filesystem type that the line mounts at `path`.
pub open spec fn type_at(line: Seq<char>, path: Seq<char>) -> Option<Seq<char>> {
    if fields(line).len() >= 3 && fields(line)[1] == path {
        Some(fields(line)[2])
    } else {
        None
    }
}

/// Whether the filesystem type is that of an EFI system partition.
pub open spec fn is_esp_type(t: Seq<char>) -> bool {
    t == "vfat"@ || t == "msdos"@
}

/// The type of the first mount at `path`, among those of an EFI system
/// partition alone where `esp` says so.
pub open spec fn first_type(ls: Seq<Seq<char>>, path: Seq<char>, esp: bool) -> Option<Seq<char>>
    decreases ls.len(),
{
    if ls.len() == 0 {
        None
    } else {
        match type_at(ls[0], path) {
            Some(t) => if !esp || is_esp_type(t) {
                Some(t)
            } else {
                first_type(ls.skip(1), path, esp)
            },
            None => first_type(ls.skip(1), path, esp),
        }
    }
}

/// The type of the first mount at `path`.
fn mount_type(proc_mounts: &str, path: &str, esp: bool) -> (r: Option<String>)
    ensures
        r.deep_view() == first_type(lines(proc_mounts@), path@, esp),
{
    let ls: Vec<String> = lines_of(proc_mounts);
    let ghost all = ls.deep_view();
    let mut i: usize = 0;
    assert(all.skip(0) =~= all);
    while i < ls.len()
        invariant
            all == ls.deep_view(),
            all == lines(proc_mounts@),
            i <= ls@.len(),
            first_type(all, path@, esp) == first_type(all.skip(i as int), path@, esp),
        decreases ls@.len() - i,
    {
        proof {
            assert(all.skip(i as int)[0] == ls@[i as int]@);
            assert(all.skip(i as int).skip(1) =~= all.skip(i + 1));
        }
        let fs: Vec<String> = fields_of(ls[i].as_str());
        let ghost f = fs.deep_view();
        if fs.len() >= 3 {
            assert(f[1] == fs@[1]@);
            assert(f[2] == fs@[2]@);
            if same(fs[1].as_str(), path) && (!esp || same(fs[2].as_str(), "vfat") || same(
                fs[2].as_str(),
                "msdos",
            )) {
                return Some(fs[2].clone());
            }
        }
        i = i + 1;
    }
    None
}

/// Where an EFI system partition is looked for, in order.
pub open spec fn esp_candidates() -> Seq<Seq<char>> {
    seq!["/boot/efi"@, "/efi"@, "/boot"@]
}

/// The mounted EFI system partition with its type: the first candidate that
/// exists and has one mounted.
pub open spec fn mounted_esp(
    ls: Seq<Seq<char>>,
    existing: Seq<Seq<char>>,
    candidates: Seq<Seq<char>>,
) -> Option<(Seq<char>, Seq<char>)>
    decreases candidates.len(),
{
    if candidates.len() == 0 {
        None
    } else {
        let c = candidates[0];
        match first_type(ls, c, true) {
            Some(t) => if existing.contains(c) {
                Some((c, t))
            } else {
                mounted_esp(ls, existing, candidates.skip(1))
            },
            None => mounted_esp(ls, existing, candidates.skip(1)),
        }
    }
}

/// The mounted EFI system partition with its type, from `/proc/mounts` and
/// those of `/boot/efi`, `/efi` and `/boot` that exist.
pub fn locate_mounted_esp(proc_mounts: &str, existing: &[String]) -> (r: Option<(String, String)>)
    ensures
        r.deep_view() == mounted_esp(
            lines(proc_mounts@),
            existing.deep_view(),
            esp_candidates(),
        ),
{
    let ghost ls = lines(proc_mounts@);
    let ghost ex = existing.deep_view();
    let ghost cs = esp_candidates();
    let candidates: [&str; 3] = ["/boot/efi", "/efi", "/boot"];
    let mut i: usize = 0;
    assert(cs.skip(0) =~= cs);
    while i < 3
        invariant
            ls == lines(proc_mounts@),
            ex == existing.deep_view(),
            cs == esp_candidates(),
            i <= 3,
            candidates@.len() == 3,
            candidates@[0]@ == cs[0],
            candidates@[1]@ == cs[1],
            candidates@[2]@ == cs[2],
            mounted_esp(ls, ex, cs) == mounted_esp(ls, ex, cs.skip(i as int)),
        decreases 3 - i,
    {
        proof {
            assert(cs.skip(i as int)[0] == cs[i as int]);
            assert(cs.skip(i as int).skip(1) =~= cs.skip(i + 1));
            assert(candidates@[i as int]@ == cs[i as int]);
        }
        let c: &str = candidates[i];
        match mount_type(proc_mounts, c, true) {
            Some(t) => {
                if list_contains(existing, c) {
                    return Some((c.to_owned(), t));
                }
            },
            None => {},
        }
        i = i + 1;
    }
    assert(cs.skip(3) =~= Seq::empty());
    None
}

/// Whether the partition type is that of an EFI system partition.
pub open spec fn is_esp_guid(guid: Seq<char>) -> bool {
    lower(guid) == "c12a7328-f81f-11d2-ba4b-00a0c93ec93b"@
}

/// The devices of the EFI system partitions that `lsblk` lists.
pub open spec fn esp_devices(ls: Seq<Seq<char>>) -> Seq<Seq<char>>
    decreases ls.len(),
{
    if ls.len() == 0 {
        Seq::empty()
    } else {
        let f = fields(ls.last());
        if f.len() >= 2 && is_esp_guid(f[1]) {
            esp_devices(ls.drop_last()).push("/dev/"@ + f[0])
        } else {
            esp_devices(ls.drop_last())
        }
    }
}

/// The devices of the EFI system partitions, from the output of
/// `lsblk -o NAME,PARTTYPE,FSTYPE,SIZE -l -n -b`.
pub fn esp_partitions(lsblk: &str) -> (r: Vec<String>)
    ensures
        r.deep_view() == esp_devices(lines(lsblk@)),
{
    let ls: Vec<String> = lines_of(lsblk);
    let ghost all = ls.deep_view();
    let mut r: Vec<String> = Vec::new();
    let mut i: usize = 0;
    assert(r.deep_view() =~= esp_devices(all.take(0)));
    while i < ls.len()
        invariant
            all == ls.deep_view(),
            i <= ls@.len(),
            r.deep_view() == esp_devices(all.take(i as int)),
        decreases ls@.len() - i,
    {
        proof {
            assert(all[i as int] == ls@[i as int]@);
            assert(all.take(i + 1).drop_last() =~= all.take(i as int));
            assert(all.take(i + 1).last() == all[i as int]);
        }
        let ghost before = r.deep_view();
        let fs: Vec<String> = fields_of(ls[i].as_str());
        let ghost f = fs.deep_view();
        if fs.len() >= 2 {
            assert(f[0] == fs@[0]@);
            assert(f[1] == fs@[1]@);
            let guid: String = to_lower(fs[1].as_str());
            if same(guid.as_str(), "c12a7328-f81f-11d2-ba4b-00a0c93ec93b") {
                let mut d: String = "/dev/".to_owned();
                d.append(fs[0].as_str());
                r.push(d);
                assert(r.deep_view() =~= before.push(d@));
            }
        }
        i = i + 1;
    }
    assert(all.take(i as int) =~= all);
    r
}

/// Whether the line mounts `path` read-only.
pub open spec fn mounts_read_only(line: Seq<char>, path: Seq<char>) -> bool {
    fields(line).len() >= 4 && fields(line)[1] == path && split(fields(line)[3], ',').contains(
        "ro"@,
    )
}

/// Whether one of the lines mounts `path` read-only.
pub open spec fn is_read_only(ls: Seq<Seq<char>>, path: Seq<char>) -> bool {
    exists|i: int| 0 <= i < ls.len() && mounts_read_only(#[trigger] ls[i], path)
}

/// Whether `/sysroot` is mounted read-only.
pub fn sysroot_is_read_only(proc_mounts: &str) -> (r: bool)
    ensures
        r == is_read_only(lines(proc_mounts@), "/sysroot"@),
{
    let ls: Vec<String> = lines_of(proc_mounts);
    let ghost all = ls.deep_view();
    let mut i: usize = 0;
    while i < ls.len()
        invariant
            all == ls.deep_view(),
            all == lines(proc_mounts@),
            i <= ls@.len(),
            forall|k: int| 0 <= k < i ==> !mounts_read_only(#[trigger] all[k], "/sysroot"@),
        decreases ls@.len() - i,
    {
        assert(all[i as int] == ls@[i as int]@);
        let fs: Vec<String> = fields_of(ls[i].as_str());
        let ghost f = fs.deep_view();
        if fs.len() >= 4 {
            assert(f[1] == fs@[1]@);
            assert(f[3] == fs@[3]@);
            if same(fs[1].as_str(), "/sysroot") {
                let options: Vec<String> = split_at(fs[3].as_str(), ',');
                if list_contains(options.as_slice(), "ro") {
                    return true;
                }
            }
        }
        i = i + 1;
    }
    false
}

/// The number at the start of the output of `du -sb`, or nothing.
pub open spec fn size_in(stdout: Seq<char>) -> nat {
    if fields(stdout).len() == 0 {
        0
    } else {
        match parse_number(fields(stdout)[0], u64::MAX as nat) {
            Some(n) => n,
            None => 0,
        }
    }
}

/// The size that `du -sb` printed, or nothing where it printed none.
pub fn size_from_du(stdout: &str) -> (r: u64)
    ensures
        r == size_in(stdout@),
{
    let fs: Vec<String> = fields_of(stdout);
    if fs.len() == 0 {
        return 0;
    }
    assert(fs.deep_view()[0] == fs@[0]@);
    match parse_u64(fs[0].as_str()) {
        Some(n) => n,
        None => 0,
    }
}

/// What was observed of the running system.
#[derive(Debug, Clone, PartialEq, Eq)]
pub struct SystemFacts {
    /// What a successful `bootc status` gives for the booted deployment.
    pub booted: Option<BootedStatus>,
    /// Whether `/sys/firmware/efi` exists.
    pub efi_dir: bool,
    /// Whether `/sys/firmware/efi/efivars` exists.
    pub efivars_dir: bool,
    /// The text of `/proc/mounts`, where it could be read.
    pub proc_mounts: Option<String>,
    /// Those of `/boot/efi`, `/efi` and `/boot` that exist.
    pub existing_esp_paths: Vec<String>,
    /// The free bytes of the mounted EFI system partition.
    pub mounted_esp_free: u64,
    /// The free bytes of an EFI system partition that was mounted for the
    /// purpose, where none was mounted and one could be.
    pub trial_esp_free: Option<u64>,
    pub reflink: bool,
    pub grub_reboot: bool,
    pub grub_editenv: bool,
    pub grub_set_default: bool,
    /// What `du -sb` printed for the OSTree repository, where there is one.
    pub repo_du: Option<String>,
    /// Whether `/run/ostree/staged-deployment` exists.
    pub staged_marker: bool,
    /// What a successful `ostree admin status` printed.
    pub ostree_status: Option<String>,
    /// The names in the repository's scratch directory, each with whether it
    /// is a file.
    pub repo_tmp: Vec<(String, bool)>,
    pub composefs_free: u64,
    pub container_storage_path: String,
    pub container_storage_free: u64,
    /// Whether `/usr/lib/systemd/boot/efi` exists.
    pub systemd_boot_dir: bool,
}

/// The state of the running system.
#[derive(Debug, Clone, PartialEq, Eq)]
pub struct SystemInfo {
    /// The backend that the running deployment boots from, or none where this
    /// is no bootc deployment.
    pub booted_backend: Option<Backend>,
    pub pending_transaction: PendingTransactionStatus,
    pub is_uefi: bool,
    pub nvram_writable: bool,
    pub esp_path: Option<String>,
    pub esp_free_space_bytes: u64,
    pub esp_fs_type: Option<String>,
    /// Whether there is an EFI system partition, mounted or not.
    pub esp_detected: bool,
    pub supports_reflink: bool,
    pub is_btrfs: bool,
    pub fs_type: Option<String>,
    pub ostree_repo_size_bytes: u64,
    pub composefs_free_bytes: u64,
    /// The free space where podman keeps its images.
    pub container_storage_free_bytes: u64,
    /// The path that it was measured on.
    pub container_storage_path: String,
    pub var_is_separate_mount: bool,
    pub systemd_boot_binaries_present: bool,
    pub grub_tools_available: bool,
    pub sysroot_was_ro: bool,
}

/// The lines of a text that may be missing.
pub open spec fn lines_if_any(s: Option<Seq<char>>) -> Seq<Seq<char>> {
    match s {
        Some(t) => lines(t),
        None => Seq::empty(),
    }
}

/// The mounted EFI system partition that the facts show.
pub open spec fn esp_of(facts: SystemFacts) -> Option<(Seq<char>, Seq<char>)> {
    mounted_esp(
        lines_if_any(facts.proc_mounts.deep_view()),
        facts.existing_esp_paths.deep_view(),
        esp_candidates(),
    )
}

/// Without lines there is no mount.
proof fn lemma_nothing_mounted(existing: Seq<Seq<char>>, candidates: Seq<Seq<char>>)
    ensures
        mounted_esp(Seq::empty(), existing, candidates) is None,
    decreases candidates.len(),
{
    if candidates.len() > 0 {
        lemma_nothing_mounted(existing, candidates.skip(1));
    }
}

impl SystemInfo {
    /// The state of the system that was observed.
    ///
    /// An EFI system partition that had to be mounted for the purpose counts
    /// as detected and is not given a path, since it is unmounted again.
    pub fn gather(facts: &SystemFacts) -> (r: SystemInfo)
        ensures
            r.booted_backend == (match facts.booted {
                Some(b) => backend_of(b),
                None => None,
            }),
            r.pending_transaction == pending_status(
                facts.staged_marker,
                facts.ostree_status.deep_view(),
                facts.repo_tmp.deep_view(),
            ),
            r.is_uefi == facts.efi_dir,
            r.nvram_writable == facts.efivars_dir,
            r.esp_detected == (esp_of(*facts) is Some || facts.trial_esp_free is Some),
            match esp_of(*facts) {
                Some(e) => r.esp_path.deep_view() == Some(e.0) && r.esp_fs_type.deep_view() == Some(
                    e.1,
                ) && r.esp_free_space_bytes == facts.mounted_esp_free,
                None => match facts.trial_esp_free {
                    Some(free) => r.esp_path is None && r.esp_fs_type.deep_view() == Some("vfat"@)
                        && r.esp_free_space_bytes == free,
                    None => r.esp_path is None && r.esp_fs_type is None && r.esp_free_space_bytes
                        == 0,
                },
            },
            r.supports_reflink == facts.reflink,
            r.fs_type.deep_view() == first_type(
                lines_if_any(facts.proc_mounts.deep_view()),
                "/sysroot"@,
                false,
            ),
            r.is_btrfs == (r.fs_type.deep_view() == Some("btrfs"@)),
            r.ostree_repo_size_bytes == (match facts.repo_du.deep_view() {
                Some(out) => size_in(out),
                None => 0,
            }),
            r.composefs_free_bytes == facts.composefs_free,
            r.container_storage_free_bytes == facts.container_storage_free,
            r.container_storage_path@ == facts.container_storage_path@,
            r.var_is_separate_mount == is_mount_point(
                lines_if_any(facts.proc_mounts.deep_view()),
                "/var"@,
            ),
            r.systemd_boot_binaries_present == facts.systemd_boot_dir,
            r.grub_tools_available == (facts.grub_reboot || facts.grub_editenv
                || facts.grub_set_default),
            r.sysroot_was_ro == is_read_only(
                lines_if_any(facts.proc_mounts.deep_view()),
                "/sysroot"@,
            ),
    {
        let booted_backend: Option<Backend> = match facts.booted {
            Some(b) => b.backend(),
            None => None,
        };
        let mut mounted: Option<(String, String)> = None;
        let mut fs_type: Option<String> = None;
        let mut var_is_separate_mount: bool = false;
        let mut sysroot_was_ro: bool = false;
        match &facts.proc_mounts {
            Some(m) => {
                mounted = locate_mounted_esp(m.as_str(), facts.existing_esp_paths.as_slice());
                fs_type = mount_type(m.as_str(), "/sysroot", false);
                var_is_separate_mount = parse_var_is_separate_mount(m.as_str());
                sysroot_was_ro = sysroot_is_read_only(m.as_str());
            },
            None => {
                proof {
                    lemma_nothing_mounted(
                        facts.existing_esp_paths.deep_view(),
                        esp_candidates(),
                    );
                }
            },
        }
        let mut esp_path: Option<String> = None;
        let mut esp_fs_type: Option<String> = None;
        let mut esp_free_space_bytes: u64 = 0;
        let mut esp_detected: bool = false;
        match mounted {
            Some((path, kind)) => {
                esp_path = Some(path);
                esp_fs_type = Some(kind);
                esp_free_space_bytes = facts.mounted_esp_free;
                esp_detected = true;
            },
            None => match facts.trial_esp_free {
                Some(free) => {
                    esp_fs_type = Some("vfat".to_owned());
                    esp_free_space_bytes = free;
                    esp_detected = true;
                },
                None => {},
            },
        }
        let is_btrfs: bool = match &fs_type {
            Some(t) => same(t.as_str(), "btrfs"),
            None => false,
        };
        let ostree_repo_size_bytes: u64 = match &facts.repo_du {
            Some(out) => size_from_du(out.as_str()),
            None => 0,
        };
        let status_output: Option<&str> = match &facts.ostree_status {
            Some(s) => Some(s.as_str()),
            None => None,
        };
        let pending_transaction: PendingTransactionStatus = check_pending_ostree_transaction(
            facts.staged_marker,
            status_output,
            facts.repo_tmp.as_slice(),
        );
        SystemInfo {
            booted_backend,
            pending_transaction,
            is_uefi: facts.efi_dir,
            nvram_writable: facts.efivars_dir,
            esp_path,
            esp_free_space_bytes,
            esp_fs_type,
            esp_detected,
            supports_reflink: facts.reflink,
            is_btrfs,
            fs_type,
            ostree_repo_size_bytes,
            composefs_free_bytes: facts.composefs_free,
            container_storage_free_bytes: facts.container_storage_free,
            container_storage_path: facts.container_storage_path.clone(),
            var_is_separate_mount,
            systemd_boot_binaries_present: facts.systemd_boot_dir,
            grub_tools_available: facts.grub_reboot || facts.grub_editenv
                || facts.grub_set_default,
            sysroot_was_ro,
        }
    }
}

} // verus!

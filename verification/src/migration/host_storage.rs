//! The storage that a composefs host needs: how much room, and an ext4
//! loopback where the root filesystem has no fs-verity.

use vstd::prelude::*;

use crate::steps::{make_dir, run, write_file, Step, StepView};
use crate::text::numbers::{decimal, decimal_of};
use crate::text::pieces::{trim, trimmed};
use crate::text::search::{contains, holds, same};

verus! {

/// Where the composefs store is mounted.
pub const COMPOSEFS_STORE: &'static str = "/sysroot/composefs";

/// The file that holds the store where the root filesystem has no fs-verity.
pub const LOOPBACK_IMAGE: &'static str = "/sysroot/composefs-loopback.ext4";

/// Whether the root filesystem needs the loopback: XFS does, having no
/// fs-verity. One that is not known is taken to have it, so that the pull fails
/// loudly rather than a loopback being made that nobody asked for.
pub fn needs_loopback(fs_type: Option<&str>) -> (r: bool)
    ensures
        r == (fs_type is Some && fs_type->0@ == "xfs"@),
{
    match fs_type {
        Some(t) => same(t, "xfs"),
        None => false,
    }
}

/// Half as much again as the repository, and 25 GB, in whole GB.
pub open spec fn desired_gb(repo_bytes: int) -> int {
    (3 * repo_bytes + 50_000_000_000 + 1_999_999_999) / 2_000_000_000
}

/// Nine tenths of the free space in whole GB, and no less than 30.
pub open spec fn most_gb(free_bytes: int) -> int {
    if 9 * free_bytes / 10_000_000_000 > 30 {
        9 * free_bytes / 10_000_000_000
    } else {
        30
    }
}

/// The size of the loopback in GB: what is wanted, but no less than 30 and no
/// more than the free space allows.
pub open spec fn loopback_gb(repo_bytes: int, free_bytes: int) -> int {
    let desired = desired_gb(repo_bytes);
    if desired < 30 {
        30
    } else if desired > most_gb(free_bytes) {
        most_gb(free_bytes)
    } else {
        desired
    }
}

/// The size of the loopback in GB.
///
/// The source repository does not measure the target image that is pulled into
/// the same store, so there is headroom beyond it. The file is sparse: a
/// generous size costs nothing until it is used.
pub fn loopback_size_gb(ostree_repo_bytes: u64, composefs_free_bytes: u64) -> (r: u64)
    ensures
        r == loopback_gb(ostree_repo_bytes as int, composefs_free_bytes as int),
{
    let desired: u128 = (ostree_repo_bytes as u128 * 3 + 51_999_999_999) / 2_000_000_000;
    let share: u128 = composefs_free_bytes as u128 * 9 / 10_000_000_000;
    let most: u128 = if share > 30 {
        share
    } else {
        30
    };
    let size: u128 = if desired < 30 {
        30
    } else if desired > most {
        most
    } else {
        desired
    };
    size as u64
}

/// A tenth more than the repository where copies are reflinks, and half as
/// much again where they are not, in whole bytes.
pub open spec fn needed_bytes(repo_bytes: int, reflink: bool) -> int {
    if reflink {
        repo_bytes * 11 / 10
    } else {
        repo_bytes * 3 / 2
    }
}

/// The free space that the import of the objects needs, or the greatest number
/// where that is not enough to hold it.
pub fn required_free_bytes(ostree_repo_bytes: u64, reflink_available: bool) -> (r: u64)
    ensures
        r == (if needed_bytes(ostree_repo_bytes as int, reflink_available) > u64::MAX {
            u64::MAX as int
        } else {
            needed_bytes(ostree_repo_bytes as int, reflink_available)
        }),
{
    let needed: u128 = if reflink_available {
        ostree_repo_bytes as u128 * 11 / 10
    } else {
        ostree_repo_bytes as u128 * 3 / 2
    };
    if needed > u64::MAX as u128 {
        u64::MAX
    } else {
        needed as u64
    }
}

/// The space that a migration needs and the space that is free.
#[derive(Debug, Clone, Copy, PartialEq, Eq, Structural)]
pub struct SpaceNeed {
    pub needed: u64,
    pub free: u64,
}

/// Whether there is room for the objects: what is needed and free, as an error
/// where less is free than needed.
pub fn check_free_space(ostree_repo_bytes: u64, free_bytes: u64, reflink_available: bool) -> (r:
    Result<SpaceNeed, SpaceNeed>)
    ensures
        ({
            let need = match r {
                Ok(n) => n,
                Err(n) => n,
            };
            &&& r is Err <==> free_bytes < need.needed
            &&& need.free == free_bytes
            &&& need.needed == (if needed_bytes(ostree_repo_bytes as int, reflink_available)
                > u64::MAX {
                u64::MAX as int
            } else {
                needed_bytes(ostree_repo_bytes as int, reflink_available)
            })
        }),
{
    let needed: u64 = required_free_bytes(ostree_repo_bytes, reflink_available);
    let need: SpaceNeed = SpaceNeed { needed, free: free_bytes };
    if free_bytes < needed {
        Err(need)
    } else {
        Ok(need)
    }
}

/// Less free space never makes the loopback greater, and more repository never
/// makes it smaller. It is never under its least size, and never over that and
/// nine tenths of what is free.
pub proof fn law_loopback_size_is_monotone(repo: int, more: int, free: int, less: int)
    requires
        0 <= repo <= more,
        0 <= less <= free,
    ensures
        30 <= loopback_gb(repo, less) <= loopback_gb(more, free),
        loopback_gb(repo, less) <= loopback_gb(repo, free),
        loopback_gb(repo, free) <= loopback_gb(more, free),
        loopback_gb(more, free) <= 30 || loopback_gb(more, free) * 10_000_000_000 <= free * 9,
{
}

/// The size has no ceiling of its own: with repository and room enough it is as
/// great as may be.
pub proof fn law_loopback_size_has_no_ceiling(gb: int)
    requires
        gb >= 0,
    ensures
        loopback_gb(gb * 1_000_000_000, gb * 2_000_000_000) >= gb,
{
}

/// Copies that are no reflinks never need less room.
pub proof fn law_full_copies_need_more(repo: int)
    requires
        repo >= 0,
    ensures
        needed_bytes(repo, false) >= needed_bytes(repo, true),
        needed_bytes(repo, true) >= repo,
{
}

/// The metadata of a composefs repository: format version 1, with SHA-512
/// digests. Without it the repository is rejected.
pub open spec fn repo_meta() -> Seq<char> {
    "{\n  \"version\": 1,\n  \"algorithm\": \"fsverity-sha512-12\",\n  \"features\": {\n    \"compatible\": [],\n    \"read-only-compatible\": [],\n    \"incompatible\": []\n  }\n}\n"@
}

/// What is to be done for the store.
#[derive(Debug, Clone, PartialEq, Eq)]
pub enum StoragePlan {
    /// Nothing: the filesystem has fs-verity.
    NotNeeded,
    /// Nothing but to say so: the loopback is mounted already.
    AlreadyActive(String),
    /// The loopback is made by the steps. A file that is there is stale and is
    /// removed first. Afterwards the store is mounted.
    Create(Vec<Step>),
}

/// The steps that make and mount a loopback of the given size.
pub open spec fn create_steps(size_gb: nat, stale: bool) -> Seq<StepView> {
    (if stale {
        seq![StepView::Remove("/sysroot/composefs-loopback.ext4"@)]
    } else {
        Seq::empty()
    }) + seq![
        StepView::Say(
            "XFS detected — setting up "@ + decimal(size_gb)
                + " GB ext4 loopback for composefs verity support."@,
        ),
        StepView::Run {
            argv: seq![
                "truncate"@,
                "-s"@,
                decimal(size_gb) + "G"@,
                "/sysroot/composefs-loopback.ext4"@,
            ],
            context: "failed to truncate composefs loopback image"@,
            failure: "truncate failed for composefs loopback image"@,
        },
        StepView::Run {
            argv: seq![
                "/usr/sbin/mkfs.ext4"@,
                "-F"@,
                "-O"@,
                "verity"@,
                "/sysroot/composefs-loopback.ext4"@,
            ],
            context: "failed to format composefs loopback as ext4"@,
            failure: "mkfs.ext4 failed for composefs loopback"@,
        },
        StepView::MakeDir {
            path: "/sysroot/composefs"@,
            context: "failed to create /sysroot/composefs"@,
        },
        StepView::Run {
            argv: seq![
                "/usr/bin/mount"@,
                "-o"@,
                "loop"@,
                "/sysroot/composefs-loopback.ext4"@,
                "/sysroot/composefs"@,
            ],
            context: "failed to mount composefs loopback"@,
            failure: "mount failed for composefs loopback"@,
        },
        StepView::Write {
            path: "/sysroot/composefs/meta.json"@,
            contents: repo_meta(),
            context: "failed to write composefs repo meta.json"@,
        },
        StepView::Say(
            "ComposeFS loopback mounted at /sysroot/composefs ("@ + decimal(size_gb)
                + " GB ext4, fs-verity enabled)."@,
        ),
    ]
}

/// Whether the loopback is what is mounted at the store.
pub open spec fn loopback_active(image_exists: bool, mount_source: Option<Seq<char>>) -> bool {
    image_exists && mount_source is Some && holds(trim(mount_source->0), "composefs-loopback"@)
}

/// What is to be done for the store: nothing where the filesystem has fs-verity
/// or the loopback is mounted, and otherwise to make one. `mount_source` is
/// what `findmnt` printed as the source of the mount at the store.
pub fn prepare_composefs_storage(
    fs_type: Option<&str>,
    image_exists: bool,
    mount_source: Option<&str>,
    ostree_repo_bytes: u64,
    composefs_free_bytes: u64,
) -> (r: StoragePlan)
    ensures
        ({
            let source = match mount_source {
                Some(s) => Some(s@),
                None => None,
            };
            match r {
                StoragePlan::NotNeeded => !(fs_type is Some && fs_type->0@ == "xfs"@),
                StoragePlan::AlreadyActive(m) => fs_type is Some && fs_type->0@ == "xfs"@
                    && loopback_active(image_exists, source) && m@
                    == "ComposeFS loopback already active at /sysroot/composefs (source: "@ + trim(
                    source->0,
                ) + ")."@,
                StoragePlan::Create(steps) => fs_type is Some && fs_type->0@ == "xfs"@
                    && !loopback_active(image_exists, source) && steps.deep_view() == create_steps(
                    loopback_gb(ostree_repo_bytes as int, composefs_free_bytes as int) as nat,
                    image_exists,
                ),
            }
        }),
{
    if !needs_loopback(fs_type) {
        return StoragePlan::NotNeeded;
    }
    let mut steps: Vec<Step> = Vec::new();
    if image_exists {
        match mount_source {
            Some(s) => {
                let source: String = trimmed(s);
                if contains(source.as_str(), "composefs-loopback") {
                    let mut m: String = "ComposeFS loopback already active at /sysroot/composefs (source: ".to_owned();
                    m.append(source.as_str());
                    m.append(").");
                    return StoragePlan::AlreadyActive(m);
                }
            },
            None => {},
        }
        steps.push(Step::Remove("/sysroot/composefs-loopback.ext4".to_owned()));
    }
    let ghost started = steps.deep_view();
    let size: u64 = loopback_size_gb(ostree_repo_bytes, composefs_free_bytes);
    let digits: String = decimal_of(size);
    let mut announce: String = "XFS detected — setting up ".to_owned();
    announce.append(digits.as_str());
    announce.append(" GB ext4 loopback for composefs verity support.");
    steps.push(Step::Say(announce));
    let mut size_arg: String = digits.as_str().to_owned();
    size_arg.append("G");
    let truncate: [&str; 4] = [
        "truncate",
        "-s",
        size_arg.as_str(),
        "/sysroot/composefs-loopback.ext4",
    ];
    let step: Step = run(
        &truncate,
        "failed to truncate composefs loopback image",
        "truncate failed for composefs loopback image",
    );
    assert(truncate.deep_view() =~= seq![
        "truncate"@,
        "-s"@,
        decimal(size as nat) + "G"@,
        "/sysroot/composefs-loopback.ext4"@,
    ]);
    steps.push(step);
    let mkfs: [&str; 5] = [
        "/usr/sbin/mkfs.ext4",
        "-F",
        "-O",
        "verity",
        "/sysroot/composefs-loopback.ext4",
    ];
    let step: Step = run(
        &mkfs,
        "failed to format composefs loopback as ext4",
        "mkfs.ext4 failed for composefs loopback",
    );
    assert(mkfs.deep_view() =~= seq![
        "/usr/sbin/mkfs.ext4"@,
        "-F"@,
        "-O"@,
        "verity"@,
        "/sysroot/composefs-loopback.ext4"@,
    ]);
    steps.push(step);
    steps.push(make_dir("/sysroot/composefs", "failed to create /sysroot/composefs"));
    let mount: [&str; 5] = [
        "/usr/bin/mount",
        "-o",
        "loop",
        "/sysroot/composefs-loopback.ext4",
        "/sysroot/composefs",
    ];
    let step: Step = run(
        &mount,
        "failed to mount composefs loopback",
        "mount failed for composefs loopback",
    );
    assert(mount.deep_view() =~= seq![
        "/usr/bin/mount"@,
        "-o"@,
        "loop"@,
        "/sysroot/composefs-loopback.ext4"@,
        "/sysroot/composefs"@,
    ]);
    steps.push(step);
    steps.push(
        write_file(
            "/sysroot/composefs/meta.json",
            "{\n  \"version\": 1,\n  \"algorithm\": \"fsverity-sha512-12\",\n  \"features\": {\n    \"compatible\": [],\n    \"read-only-compatible\": [],\n    \"incompatible\": []\n  }\n}\n",
            "failed to write composefs repo meta.json",
        ),
    );
    let mut done: String = "ComposeFS loopback mounted at /sysroot/composefs (".to_owned();
    done.append(digits.as_str());
    done.append(" GB ext4, fs-verity enabled).");
    steps.push(Step::Say(done));
    assert(steps.deep_view() =~= create_steps(size as nat, image_exists));
    StoragePlan::Create(steps)
}

} // verus!

//! How a usable tree of the target image is come by.
//!
//! A mount by way of bootc is tried first, under the names that the host's bootc
//! may know the image by, and a bare mount of the metadata last. That a command
//! succeeded is no proof of a mount that is still there, so the caller looks for
//! content; without it, podman mounts the image from its own storage.

use vstd::prelude::*;

use crate::text::compose::owned_all;
use crate::text::paths::{join_path, path_join};
use crate::text::pieces::{trim, trimmed};

verus! {

/// What came of a command.
#[derive(Debug, Clone, PartialEq, Eq)]
pub enum CommandOutcome {
    Succeeded,
    /// It failed, and wrote this to its standard error.
    Failed(String),
    /// It could not be started, for the reason given.
    NotRun(String),
}

/// The command that describes an image.
pub fn inspect_command(image_id: &str) -> (r: Vec<String>)
    ensures
        r.deep_view() == seq![
            "bootc"@,
            "internals"@,
            "cfs"@,
            "--system"@,
            "oci"@,
            "inspect"@,
            image_id@,
        ],
{
    let r: Vec<String> = owned_all(
        &["bootc", "internals", "cfs", "--system", "oci", "inspect", image_id],
    );
    assert(r.deep_view() =~= seq![
        "bootc"@,
        "internals"@,
        "cfs"@,
        "--system"@,
        "oci"@,
        "inspect"@,
        image_id@,
    ]);
    r
}

/// The description of an image, from what the command wrote.
pub fn inspect_image(succeeded: bool, stdout: &str, stderr: &str) -> (r: Result<String, String>)
    ensures
        if succeeded {
            r is Ok && r->Ok_0@ == stdout@
        } else {
            r is Err && r->Err_0@ == "inspect failed: "@ + stderr@
        },
{
    if succeeded {
        return Ok(stdout.to_owned());
    }
    let mut m: String = "inspect failed: ".to_owned();
    m.append(stderr);
    Err(m)
}

/// Where the attempts to mount stand.
#[derive(Debug, Clone, PartialEq, Eq)]
pub enum MountState {
    /// Pull the image anew from podman's storage.
    Repull,
    /// Mount it by the name that it was pulled under.
    ByReference,
    /// Mount it by the digest of its sealed configuration.
    BySealedConfig,
    /// Mount the bare metadata. Holds what bootc had said.
    RawErofs(String),
    Mounted,
    Failed(String),
}

/// What a [`MountState`] holds.
#[verifier::ext_equal]
pub enum MountStateView {
    Repull,
    ByReference,
    BySealedConfig,
    RawErofs(Seq<char>),
    Mounted,
    Failed(Seq<char>),
}

impl DeepView for MountState {
    type V = MountStateView;

    open spec fn deep_view(&self) -> MountStateView {
        match self {
            MountState::Repull => MountStateView::Repull,
            MountState::ByReference => MountStateView::ByReference,
            MountState::BySealedConfig => MountStateView::BySealedConfig,
            MountState::RawErofs(e) => MountStateView::RawErofs(e@),
            MountState::Mounted => MountStateView::Mounted,
            MountState::Failed(m) => MountStateView::Failed(m@),
        }
    }
}

/// Where the attempts start.
pub open spec fn first_attempt(legacy_host: bool) -> MountStateView {
    if legacy_host {
        MountStateView::BySealedConfig
    } else {
        MountStateView::Repull
    }
}

/// Where the attempts start: an older bootc knows the image only by its sealed
/// configuration.
pub fn mount_image_for(legacy_host: bool) -> (r: MountState)
    ensures
        r.deep_view() == first_attempt(legacy_host),
{
    if legacy_host {
        MountState::BySealedConfig
    } else {
        MountState::Repull
    }
}

/// The name that an image of podman's storage has.
pub open spec fn storage_reference(image: Seq<char>) -> Seq<char> {
    "containers-storage:"@ + image
}

/// The command that mounts by way of bootc.
pub open spec fn cfs_mount_argv(id: Seq<char>, mount_path: Seq<char>) -> Seq<Seq<char>> {
    seq!["bootc"@, "internals"@, "cfs"@, "--system"@, "oci"@, "mount"@, id, mount_path]
}

/// The command of the attempt. A state that is not an attempt has none.
pub open spec fn attempt_argv(
    state: MountStateView,
    target_image: Seq<char>,
    sealed_config: Seq<char>,
    mount_path: Seq<char>,
) -> Option<Seq<Seq<char>>> {
    match state {
        MountStateView::Repull => Some(
            seq![
                "bootc"@,
                "internals"@,
                "cfs"@,
                "--system"@,
                "oci"@,
                "pull"@,
                storage_reference(target_image),
            ],
        ),
        MountStateView::ByReference => Some(
            cfs_mount_argv(storage_reference(target_image), mount_path),
        ),
        MountStateView::BySealedConfig => Some(cfs_mount_argv(sealed_config, mount_path)),
        MountStateView::RawErofs(_) => Some(
            seq![
                "/usr/bin/mount"@,
                "-t"@,
                "erofs"@,
                "-o"@,
                "ro,loop"@,
                join_path("/sysroot/composefs/images"@, sealed_config),
                mount_path,
            ],
        ),
        _ => None,
    }
}

/// The command that mounts by way of bootc.
fn cfs_mount(id: &str, mount_path: &str) -> (r: Vec<String>)
    ensures
        r.deep_view() == cfs_mount_argv(id@, mount_path@),
{
    let r: Vec<String> = owned_all(
        &["bootc", "internals", "cfs", "--system", "oci", "mount", id, mount_path],
    );
    assert(r.deep_view() =~= cfs_mount_argv(id@, mount_path@));
    r
}

/// The command of the attempt.
pub fn mount_command(
    state: &MountState,
    target_image: &str,
    sealed_config: &str,
    mount_path: &str,
) -> (r: Option<Vec<String>>)
    ensures
        r.deep_view() == attempt_argv(
            state.deep_view(),
            target_image@,
            sealed_config@,
            mount_path@,
        ),
{
    let mut reference: String = "containers-storage:".to_owned();
    reference.append(target_image);
    match state {
        MountState::Repull => {
            let argv: Vec<String> = owned_all(
                &["bootc", "internals", "cfs", "--system", "oci", "pull", reference.as_str()],
            );
            assert(argv.deep_view() =~= seq![
                "bootc"@,
                "internals"@,
                "cfs"@,
                "--system"@,
                "oci"@,
                "pull"@,
                storage_reference(target_image@),
            ]);
            Some(argv)
        },
        MountState::ByReference => Some(cfs_mount(reference.as_str(), mount_path)),
        MountState::BySealedConfig => Some(cfs_mount(sealed_config, mount_path)),
        MountState::RawErofs(_) => {
            let image: String = path_join("/sysroot/composefs/images", sealed_config);
            let argv: Vec<String> = owned_all(
                &["/usr/bin/mount", "-t", "erofs", "-o", "ro,loop", image.as_str(), mount_path],
            );
            assert(argv.deep_view() =~= seq![
                "/usr/bin/mount"@,
                "-t"@,
                "erofs"@,
                "-o"@,
                "ro,loop"@,
                join_path("/sysroot/composefs/images"@, sealed_config@),
                mount_path@,
            ]);
            Some(argv)
        },
        _ => None,
    }
}

/// Why an attempt under the newer names failed.
pub open spec fn reason(outcome: CommandOutcome) -> Seq<char> {
    match outcome {
        CommandOutcome::Succeeded => ""@,
        CommandOutcome::Failed(stderr) => trim(stderr@),
        CommandOutcome::NotRun(e) => e@,
    }
}

/// The state behind the attempt, and what is said. `image_exists` tells whether
/// the metadata can be mounted by itself.
pub open spec fn after_attempt(
    state: MountStateView,
    outcome: CommandOutcome,
    image_exists: bool,
) -> (MountStateView, Option<Seq<char>>) {
    match state {
        MountStateView::Repull => if outcome is Succeeded {
            (MountStateView::ByReference, None)
        } else {
            (
                MountStateView::BySealedConfig,
                Some(
                    "[mount] new-gen containers-storage re-pull failed ("@ + reason(outcome)
                        + "); trying legacy identifiers"@,
                ),
            )
        },
        MountStateView::ByReference => if outcome is Succeeded {
            (MountStateView::Mounted, None)
        } else {
            (
                MountStateView::BySealedConfig,
                Some(
                    "[mount] new-gen mount by ref failed ("@ + reason(outcome)
                        + "); trying legacy identifiers"@,
                ),
            )
        },
        MountStateView::BySealedConfig => match outcome {
            CommandOutcome::Succeeded => (MountStateView::Mounted, None),
            CommandOutcome::NotRun(_) => (
                MountStateView::Failed("failed to execute bootc internals cfs oci mount"@),
                None,
            ),
            CommandOutcome::Failed(stderr) => if image_exists {
                (MountStateView::RawErofs(stderr@), None)
            } else {
                (MountStateView::Failed("mount failed: "@ + stderr@), None)
            },
        },
        MountStateView::RawErofs(bootc) => match outcome {
            CommandOutcome::Succeeded => (
                MountStateView::Mounted,
                Some(
                    "Warning: bootc cfs mount failed ("@ + trim(bootc)
                        + "), fell back to raw EROFS — file content beyond the inline threshold will read as zeros."@,
                ),
            ),
            CommandOutcome::NotRun(_) => (
                MountStateView::Failed("failed to mount erofs image (bootc cfs fallback)"@),
                None,
            ),
            CommandOutcome::Failed(_) => (
                MountStateView::Failed("mount failed: "@ + bootc),
                None,
            ),
        },
        _ => (state, None),
    }
}

/// Why an attempt under the newer names failed.
fn reason_of(outcome: &CommandOutcome) -> (r: String)
    ensures
        r@ == reason(*outcome),
{
    match outcome {
        CommandOutcome::Succeeded => "".to_owned(),
        CommandOutcome::Failed(stderr) => trimmed(stderr.as_str()),
        CommandOutcome::NotRun(e) => e.clone(),
    }
}

/// The message of a failed attempt under the newer names.
fn newer_failed(what: &str, outcome: &CommandOutcome) -> (r: String)
    ensures
        r@ == what@ + reason(*outcome) + "); trying legacy identifiers"@,
{
    let mut m: String = what.to_owned();
    m.append(reason_of(outcome).as_str());
    m.append("); trying legacy identifiers");
    m
}

/// The failure that repeats what bootc had said.
fn mount_failed(stderr: &str) -> (r: MountState)
    ensures
        r.deep_view() == MountStateView::Failed("mount failed: "@ + stderr@),
{
    let mut m: String = "mount failed: ".to_owned();
    m.append(stderr);
    MountState::Failed(m)
}

/// The state behind the attempt, and what is said.
pub fn mount_image(state: MountState, outcome: &CommandOutcome, image_exists: bool) -> (r: (
    MountState,
    Option<String>,
))
    ensures
        r.deep_view() == after_attempt(state.deep_view(), *outcome, image_exists),
{
    match state {
        MountState::Repull => match outcome {
            CommandOutcome::Succeeded => (MountState::ByReference, None),
            _ => (
                MountState::BySealedConfig,
                Some(
                    newer_failed("[mount] new-gen containers-storage re-pull failed (", outcome),
                ),
            ),
        },
        MountState::ByReference => match outcome {
            CommandOutcome::Succeeded => (MountState::Mounted, None),
            _ => (
                MountState::BySealedConfig,
                Some(newer_failed("[mount] new-gen mount by ref failed (", outcome)),
            ),
        },
        MountState::BySealedConfig => match outcome {
            CommandOutcome::Succeeded => (MountState::Mounted, None),
            CommandOutcome::NotRun(_) => (
                MountState::Failed("failed to execute bootc internals cfs oci mount".to_owned()),
                None,
            ),
            CommandOutcome::Failed(stderr) => {
                if image_exists {
                    (MountState::RawErofs(stderr.clone()), None)
                } else {
                    (mount_failed(stderr.as_str()), None)
                }
            },
        },
        MountState::RawErofs(bootc) => match outcome {
            CommandOutcome::Succeeded => {
                let mut m: String = "Warning: bootc cfs mount failed (".to_owned();
                m.append(trimmed(bootc.as_str()).as_str());
                m.append(
                    "), fell back to raw EROFS — file content beyond the inline threshold will read as zeros.",
                );
                (MountState::Mounted, Some(m))
            },
            CommandOutcome::NotRun(_) => (
                MountState::Failed("failed to mount erofs image (bootc cfs fallback)".to_owned()),
                None,
            ),
            CommandOutcome::Failed(_) => (mount_failed(bootc.as_str()), None),
        },
        MountState::Mounted => (MountState::Mounted, None),
        MountState::Failed(m) => (MountState::Failed(m), None),
    }
}

/// How many attempts may follow.
pub open spec fn attempts_left(state: MountStateView) -> nat {
    match state {
        MountStateView::Repull => 4,
        MountStateView::ByReference => 3,
        MountStateView::BySealedConfig => 2,
        MountStateView::RawErofs(_) => 1,
        _ => 0,
    }
}

/// The attempts come to an end: each leaves fewer behind it than were before.
pub proof fn law_attempts_come_to_an_end(
    state: MountStateView,
    outcome: CommandOutcome,
    image_exists: bool,
)
    ensures
        attempts_left(state) > 0 ==> attempts_left(after_attempt(state, outcome, image_exists).0)
            < attempts_left(state),
        attempts_left(state) == 0 ==> after_attempt(state, outcome, image_exists).0 == state,
{
}

/// The image counts as mounted only after a mount succeeded.
pub proof fn law_mounted_only_after_success(
    state: MountStateView,
    outcome: CommandOutcome,
    image_exists: bool,
)
    requires
        !(state is Mounted),
        after_attempt(state, outcome, image_exists).0 is Mounted,
    ensures
        outcome is Succeeded,
        !(state is Repull),
{
}


/// Nothing where the mount can be used, or else what is said on the way to
/// podman: it failed, or it succeeded and showed no content.
pub fn open_target(failure: Option<&str>, content_visible: bool, phase: &str) -> (r: Option<String>)
    ensures
        r.deep_view() == (match failure {
            None => if content_visible {
                None
            } else {
                Some(
                    "["@ + phase@
                        + "] composefs mount reported success but exposed no content (bootc mounted in a private namespace that did not persist); falling back to podman image mount"@,
                )
            },
            Some(e) => Some(
                "["@ + phase@ + "] composefs overlay mount failed ("@ + e@
                    + "); falling back to podman image mount"@,
            ),
        }),
{
    let mut m: String = "[".to_owned();
    m.append(phase);
    match failure {
        None => {
            if content_visible {
                return None;
            }
            m.append(
                "] composefs mount reported success but exposed no content (bootc mounted in a private namespace that did not persist); falling back to podman image mount",
            );
        },
        Some(e) => {
            m.append("] composefs overlay mount failed (");
            m.append(e);
            m.append("); falling back to podman image mount");
        },
    }
    Some(m)
}

/// What is said of the mount that podman made.
pub fn podman_notice(phase: &str, path: &str) -> (r: String)
    ensures
        r@ == "["@ + phase@ + "] using podman image mount at "@ + path@,
{
    let mut m: String = "[".to_owned();
    m.append(phase);
    m.append("] using podman image mount at ");
    m.append(path);
    m
}

} // verus!

//! Mounts that are held during a migration and taken down behind it.

use vstd::prelude::*;

use crate::text::compose::owned_all;
use crate::text::pieces::{trim, trimmed};

verus! {

/// What is said where a mount could not be taken down.
pub fn unmount_warning(mount_path: &str) -> (r: String)
    ensures
        r@ == "Warning: failed to unmount "@ + mount_path@
            + " — a stale mount may remain. Use 'umount "@ + mount_path@ + "' manually."@,
{
    let mut m: String = "Warning: failed to unmount ".to_owned();
    m.append(mount_path);
    m.append(" — a stale mount may remain. Use 'umount ");
    m.append(mount_path);
    m.append("' manually.");
    m
}

/// The command that mounts an image of podman's storage.
pub fn podman_mount_command(image: &str) -> (r: Vec<String>)
    ensures
        r.deep_view() == seq!["podman"@, "image"@, "mount"@, image@],
{
    let r: Vec<String> = owned_all(&["podman", "image", "mount", image]);
    assert(r.deep_view() =~= seq!["podman"@, "image"@, "mount"@, image@]);
    r
}

/// The command that takes it down.
pub fn podman_unmount_command(image: &str) -> (r: Vec<String>)
    ensures
        r.deep_view() == seq!["podman"@, "image"@, "unmount"@, image@],
{
    let r: Vec<String> = owned_all(&["podman", "image", "unmount", image]);
    assert(r.deep_view() =~= seq!["podman"@, "image"@, "unmount"@, image@]);
    r
}

/// Where the image is, from what the command wrote.
pub fn podman_mount_path(image: &str, succeeded: bool, stdout: &str, stderr: &str) -> (r: Result<
    String,
    String,
>)
    ensures
        if succeeded {
            r is Ok && r->Ok_0@ == trim(stdout@)
        } else {
            r is Err && r->Err_0@ == "podman image mount "@ + image@ + " failed: "@ + trim(stderr@)
        },
{
    if succeeded {
        return Ok(trimmed(stdout));
    }
    let mut m: String = "podman image mount ".to_owned();
    m.append(image);
    m.append(" failed: ");
    m.append(trimmed(stderr).as_str());
    Err(m)
}

/// The place, if it is a directory.
pub fn require_mounted_dir(path: &str, is_dir: bool) -> (r: Result<String, String>)
    ensures
        if is_dir {
            r is Ok && r->Ok_0@ == path@
        } else {
            r is Err && r->Err_0@ == "podman image mount returned non-directory path: "@ + path@
        },
{
    if is_dir {
        return Ok(path.to_owned());
    }
    let mut m: String = "podman image mount returned non-directory path: ".to_owned();
    m.append(path);
    Err(m)
}

} // verus!

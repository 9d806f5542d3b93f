//! Laws of the staged deployment: its state, its `/var`, and its initrd.

use vstd::prelude::*;

use crate::migration::deploy::{
    compat_lines, is_essential, merge_lines, phase4_moves, DeployActionView,
};
use crate::migration::deploy_layout::{runtime_mount_steps, runtime_unit, var_link_steps, var_moves};
use crate::migration::initrd::{
    dracut_among, dracut_argv, has_mapped_device, include_args, include_steps, must_rebuild,
    rebuild_stage_after, staging_steps_for, stateroot_var_unit, unstaging_steps_for,
    RebuildReasons, RebuildStage,
};
use crate::migration::target_compat::NetworkManagerBackendCompat;
use crate::migration::var_layout::VarMountView;
use crate::steps::StepView;
use crate::text::numbers::decimal;
use crate::text::paths::join_path;
use crate::text::search::{holds, occurs_at};

verus! {

/// Whether the one move is made, and the other at some time after it.
pub open spec fn comes_before(
    moves: Seq<DeployActionView>,
    a: DeployActionView,
    b: DeployActionView,
) -> bool {
    exists|i: int, j: int| 0 <= i < j < moves.len() && #[trigger] moves[i] == a && #[trigger] moves[j]
        == b
}

/// A deployment that is not staged yet, or is to be staged anew, gets its
/// directories, then `/etc`, the network's configuration, its `/var`, its origin
/// and its data, in this order.
pub proof fn law_deployment_is_staged(
    dir: Seq<char>,
    staged: bool,
    force: bool,
    decisions: Option<usize>,
)
    requires
        !staged || force,
    ensures
        ({
            let m = phase4_moves(dir, staged, false, force, decisions);
            &&& comes_before(m, DeployActionView::CreateDirs, DeployActionView::MergeEtc)
            &&& comes_before(m, DeployActionView::MergeEtc, DeployActionView::NetworkCompat)
            &&& comes_before(m, DeployActionView::NetworkCompat, DeployActionView::LinkVar)
            &&& comes_before(m, DeployActionView::LinkVar, DeployActionView::WriteOrigin)
            &&& comes_before(m, DeployActionView::WriteOrigin, DeployActionView::WriteImginfo)
            &&& comes_before(m, DeployActionView::WriteImginfo, DeployActionView::MigrateVar)
            &&& comes_before(m, DeployActionView::MigrateVar, DeployActionView::InstallRuntimeMount)
        }),
{
    let m = phase4_moves(dir, staged, false, force, decisions);
    let a: int = if staged {
        1
    } else {
        0
    };
    let b: int = if decisions is Some {
        1
    } else {
        0
    };
    assert(m[1 + a] == DeployActionView::CreateDirs);
    assert(m[3 + a + b] == DeployActionView::MergeEtc);
    assert(m[4 + a + b] == DeployActionView::NetworkCompat);
    assert(m[5 + a + b] == DeployActionView::LinkVar);
    assert(m[6 + a + b] == DeployActionView::WriteOrigin);
    assert(m[7 + a + b] == DeployActionView::WriteImginfo);
    assert(m[8 + a + b] == DeployActionView::MigrateVar);
    assert(m[9 + a + b] == DeployActionView::InstallRuntimeMount);
}

/// A dry run only speaks, and a deployment that is staged is only refreshed,
/// unless it is insisted on.
pub proof fn law_staged_deployments_are_kept(
    dir: Seq<char>,
    staged: bool,
    dry_run: bool,
    force: bool,
    decisions: Option<usize>,
    i: int,
)
    ensures
        ({
            let m = phase4_moves(dir, staged, dry_run, force, decisions);
            &&& dry_run && 0 <= i < m.len() ==> m[i] is Say
            &&& !dry_run && staged && !force && 0 <= i < m.len() ==> m[i] is Say || m[i] is RefreshGbm
                || m[i] is RefreshNetwork
            &&& !dry_run && staged && !force ==> m.contains(DeployActionView::RefreshGbm)
                && m.contains(DeployActionView::RefreshNetwork)
        }),
{
    let m = phase4_moves(dir, staged, dry_run, force, decisions);
    if !dry_run && staged && !force {
        assert(m[1] == DeployActionView::RefreshGbm);
        assert(m[2] == DeployActionView::RefreshNetwork);
    }
}

/// A failure stops the phase but for the refresh of the graphics, the note on the
/// image and the mount at run time.
pub proof fn law_what_stops_the_phase(a: DeployActionView)
    ensures
        is_essential(a) <==> !(a is RefreshGbm) && !(a is WriteImginfo) && !(a is InstallRuntimeMount),
{
}

/// What was done to `/etc` is told: that it was a flat copy, and how many mounts
/// were taken out, where there were any.
pub proof fn law_merge_is_told(fell_back: bool, removed: nat)
    ensures
        ({
            let f: int = if fell_back {
                1
            } else {
                0
            };
            let m = merge_lines(fell_back, removed);
            &&& m.len() == if removed > 0 {
                f + 1
            } else {
                f
            }
            &&& removed > 0 ==> holds(m[f], decimal(removed))
        }),
{
    if removed > 0 {
        let head = "[phase4] removed "@;
        let m = merge_lines(fell_back, removed);
        let line = m.last();
        let n = head.len() as int;
        let d = decimal(removed);
        assert(line.subrange(n, n + d.len()) =~= d);
        assert(occurs_at(line, d, n));
    }
}

/// There is one line for the settings that were removed and one for the mask,
/// where they were.
pub proof fn law_network_is_told(c: NetworkManagerBackendCompat, staged: bool)
    ensures
        compat_lines(c, staged).len() == (if c.removed_iwd_settings > 0 {
            1int
        } else {
            0
        }) + if c.removed_wpa_supplicant_mask {
            1int
        } else {
            0
        },
{
}

/// A deployment's `/var` ends as a link to the one that all share; what stood
/// there is deleted before, where something did.
pub proof fn law_var_is_shared(dir: Seq<char>, present: bool)
    ensures
        ({
            let s = var_link_steps(dir, present);
            &&& s.last() is Link && s.last()->Link_target == "../../os/default/var"@
                && s.last()->Link_path == join_path(dir, "var"@)
            &&& present ==> s.len() == 2 && s[0] is Delete && s[0]->Delete_path == join_path(
                dir,
                "var"@,
            )
            &&& !present ==> s.len() == 1
        }),
{
}

/// The unit is written, and enabled by a link to it; a link that was there before
/// is removed first.
pub proof fn law_mount_unit_is_enabled(etc: Seq<char>)
    ensures
        ({
            let s = runtime_mount_steps(etc);
            let units = join_path(etc, "systemd/system"@);
            let link = join_path(join_path(units, "local-fs.target.wants"@), "sysroot-composefs.mount"@);
            &&& s.last() is Link && s.last()->Link_path == link && s.last()->Link_target
                == "../sysroot-composefs.mount"@
            &&& s[s.len() - 2] == StepView::Remove(link)
            &&& exists|i: int|
                0 <= i < s.len() && (#[trigger] s[i]) is Write && s[i]->Write_path == join_path(
                    units,
                    "sysroot-composefs.mount"@,
                ) && s[i]->Write_contents == runtime_unit()
        }),
{
    let s = runtime_mount_steps(etc);
    assert(s[1] is Write);
}

/// A volume of its own is left where it is, and data that was copied once is not
/// copied again. Otherwise the live tree is copied, and only behind that the mark
/// is set which says so.
pub proof fn law_var_is_copied_once(separate: Option<VarMountView>, marked: bool, i: int, j: int)
    ensures
        ({
            let m = var_moves(separate, marked);
            let copies = |k: int|
                0 <= k < m.len() && m[k] is CopyTree && m[k]->from == "/var"@ && m[k]->to
                    == "/sysroot/state/os/default/var"@;
            let marks = |k: int|
                0 <= k < m.len() && m[k] is Do && m[k]->Do_0 is Write && m[k]->Do_0->Write_path
                    == "/sysroot/state/os/default/.bootc-migrate-composefs-var-complete"@;
            &&& (separate is Some || marked) && 0 <= i < m.len() ==> m[i] is Do && m[i]->Do_0 is Say
            &&& separate is None && !marked ==> copies(2) && marks(3)
            &&& copies(i) && marks(j) ==> i < j
        }),
{
}

/// The device mapper is in use where it has any device but its control.
pub proof fn law_mapped_devices(names: Seq<Seq<char>>, i: int)
    ensures
        0 <= i < names.len() && names[i] != "control"@ ==> has_mapped_device(names),
        (forall|k: int| 0 <= k < names.len() ==> (#[trigger] names[k]) == "control"@)
            ==> !has_mapped_device(names),
{
}

/// The initrd is rebuilt for the device mapper or for XFS, whether or not `/var`
/// has a volume of its own.
pub proof fn law_when_the_initrd_is_rebuilt(r: RebuildReasons)
    ensures
        must_rebuild(r) <==> r.needs_dm || r.needs_xfs,
{
}

/// Of the places where dracut may be, the first that there is counts.
pub proof fn law_which_dracut(existing: Seq<Seq<char>>)
    ensures
        existing.contains("/usr/bin/dracut"@) ==> dracut_among(existing) == Some(
            "/usr/bin/dracut"@,
        ),
        existing.contains("/usr/sbin/dracut"@) && !existing.contains("/usr/bin/dracut"@)
            ==> dracut_among(existing) == Some("/usr/sbin/dracut"@),
        existing.contains("dracut"@) ==> dracut_among(existing) is Some,
        dracut_among(existing) matches Some(d) ==> existing.contains(d),
{
}

/// Whether the options stand in the command from the index on.
pub open spec fn options_at(argv: Seq<Seq<char>>, options: Seq<Seq<char>>, i: int) -> bool {
    0 <= i <= argv.len() - options.len() && argv.subrange(i, i + options.len()) == options
}

/// Whether the options stand in the command one behind the other.
#[verifier::opaque]
pub open spec fn has_options(argv: Seq<Seq<char>>, options: Seq<Seq<char>>) -> bool {
    exists|i: int| #[trigger] options_at(argv, options, i)
}

/// dracut rebuilds the one initrd for the one kernel, always with what assembles
/// the root; with the modules of the device mapper, the drivers of XFS and of a
/// volume for `/var`, and the trees that go with them, where they are needed.
pub proof fn law_what_dracut_adds(
    dracut: Seq<char>,
    initrd: Seq<char>,
    kver: Seq<char>,
    dm: bool,
    xfs: bool,
    loop_tree: Option<Seq<char>>,
    var_tree: Option<Seq<char>>,
)
    ensures
        ({
            let a = dracut_argv(dracut, initrd, kver, dm, xfs, loop_tree, var_tree);
            &&& a[0] == dracut
            &&& has_options(a, seq!["--rebuild"@, initrd])
            &&& has_options(a, seq!["--kver"@, kver])
            &&& has_options(a, seq!["--add"@, "bootc"@])
            &&& dm ==> has_options(a, seq!["--add"@, "lvm dm crypt"@])
            &&& xfs ==> has_options(a, seq!["--add-drivers"@, "xfs ext4 loop"@])
            &&& xfs && loop_tree is Some ==> has_options(a, seq!["--include"@, loop_tree->0, "/"@])
            &&& var_tree is Some ==> has_options(a, seq!["--include"@, var_tree->0, "/"@])
            &&& var_tree is Some ==> has_options(a, seq!["--add-drivers"@, "xfs ext4"@])
        }),
{
    let base = seq![dracut, "--rebuild"@, initrd, "--kver"@, kver, "--force"@, "--add"@, "bootc"@];
    let m = if dm {
        seq!["--add"@, "lvm dm crypt"@]
    } else {
        Seq::empty()
    };
    let x = if xfs {
        seq!["--add-drivers"@, "xfs ext4 loop"@] + include_args(loop_tree)
    } else {
        Seq::empty()
    };
    let v = if var_tree is Some {
        seq!["--add-drivers"@, "xfs ext4"@] + include_args(var_tree)
    } else {
        Seq::empty()
    };
    lemma_two(base, m, x, v, base, 1);
    lemma_two(base, m, x, v, base, 3);
    lemma_two(base, m, x, v, base, 6);
    if dm {
        lemma_two(base, m, x, v, m, 0);
    }
    if xfs {
        lemma_two(base, m, x, v, x, 0);
        if loop_tree is Some {
            lemma_three(base, m, x, v, x, 2);
        }
    }
    if var_tree is Some {
        lemma_two(base, m, x, v, v, 0);
        lemma_three(base, m, x, v, v, 2);
    }
}

proof fn lemma_two(
    b: Seq<Seq<char>>,
    m: Seq<Seq<char>>,
    x: Seq<Seq<char>>,
    v: Seq<Seq<char>>,
    part: Seq<Seq<char>>,
    i: int,
)
    requires
        part == b || part == m || part == x || part == v,
        0 <= i <= part.len() - 2,
    ensures
        has_options(b + m + x + v, seq![part[i], part[i + 1]]),
{
    lemma_options(b, m, x, v, part, seq![part[i], part[i + 1]], i);
}

proof fn lemma_three(
    b: Seq<Seq<char>>,
    m: Seq<Seq<char>>,
    x: Seq<Seq<char>>,
    v: Seq<Seq<char>>,
    part: Seq<Seq<char>>,
    i: int,
)
    requires
        part == b || part == m || part == x || part == v,
        0 <= i <= part.len() - 3,
    ensures
        has_options(b + m + x + v, seq![part[i], part[i + 1], part[i + 2]]),
{
    lemma_options(b, m, x, v, part, seq![part[i], part[i + 1], part[i + 2]], i);
}

proof fn lemma_options(
    b: Seq<Seq<char>>,
    m: Seq<Seq<char>>,
    x: Seq<Seq<char>>,
    v: Seq<Seq<char>>,
    part: Seq<Seq<char>>,
    options: Seq<Seq<char>>,
    i: int,
)
    requires
        part == b || part == m || part == x || part == v,
        0 <= i <= part.len() - options.len(),
        forall|k: int| 0 <= k < options.len() ==> #[trigger] options[k] == part[i + k],
    ensures
        has_options(b + m + x + v, options),
{
    reveal(has_options);
    let argv = b + m + x + v;
    let n = i + if part == b {
        0
    } else if part == m {
        b.len()
    } else if part == x {
        b.len() + m.len()
    } else {
        b.len() + m.len() + x.len()
    };
    assert(argv.subrange(n, n + options.len()) =~= options);
    assert(options_at(argv, options, n));
}

/// The modules of the target's kernel are linked by its version in a directory
/// that is bound where dracut looks; an old one is removed before.
pub proof fn law_modules_are_staged(
    staging: Seq<char>,
    kver: Seq<char>,
    modules: Seq<char>,
    present: bool,
)
    ensures
        ({
            let s = staging_steps_for(staging, kver, modules, present);
            let n = s.len() as int;
            &&& s[n - 1] is Run && s[n - 1]->Run_argv == seq![
                "mount"@,
                "--bind"@,
                staging,
                "/usr/lib/modules"@,
            ]
            &&& s[n - 2] is Link && s[n - 2]->Link_target == modules && s[n - 2]->Link_path
                == join_path(staging, kver)
            &&& s[n - 3] is MakeDir && s[n - 3]->MakeDir_path == staging
            &&& present ==> n == 4 && s[0] == StepView::RemoveTree(staging)
            &&& !present ==> n == 3
        }),
{
}

/// What was bound is unmounted before the directory is removed, and the
/// directory is removed either way.
pub proof fn law_modules_are_unstaged(staging: Seq<char>, bound: bool)
    ensures
        ({
            let s = unstaging_steps_for(staging, bound);
            &&& s.last() == StepView::RemoveTree(staging)
            &&& bound ==> s.len() == 2 && s[0] is Attempt && s[0]->Attempt_argv == seq![
                "umount"@,
                "--lazy"@,
                "/usr/lib/modules"@,
            ]
            &&& !bound ==> s.len() == 1
        }),
{
}

/// A unit for the initrd is written below the tree, enabled by a link to it, and
/// the assembly of the root is made to wait for it.
pub proof fn law_unit_of_the_initrd(
    tree: Seq<char>,
    unit: Seq<char>,
    contents: Seq<char>,
    drop_in: Seq<char>,
)
    ensures
        ({
            let s = include_steps(tree, unit, contents, drop_in);
            let units = join_path(tree, "etc/systemd/system"@);
            &&& s[1] is Write && s[1]->Write_path == join_path(units, unit) && s[1]->Write_contents
                == contents
            &&& s[3] is Link && s[3]->Link_path == join_path(
                join_path(units, "initrd-root-fs.target.wants"@),
                unit,
            ) && s[3]->Link_target == "../"@ + unit
            &&& s[5] is Write && s[5]->Write_path == join_path(
                join_path(units, "bootc-root-setup.service.d"@),
                drop_in,
            ) && holds(s[5]->Write_contents, "\nAfter="@ + unit + "\n"@) && holds(
                s[5]->Write_contents,
                "Requires="@ + unit + "\n"@,
            )
        }),
{
    reveal_strlit("[Unit]\nRequires=");
    reveal_strlit("\nAfter=");
    reveal_strlit("\n");
    reveal_strlit("Requires=");
    let text = include_steps(tree, unit, contents, drop_in)[5]->Write_contents;
    let a = "Requires="@ + unit + "\n"@;
    assert(text.subrange(7, 7 + a.len() as int) =~= a);
    assert(occurs_at(text, a, 7));
    let b = "\nAfter="@ + unit + "\n"@;
    let n = ("[Unit]\nRequires="@.len() + unit.len()) as int;
    assert(text.subrange(n, n + b.len()) =~= b);
    assert(occurs_at(text, b, n));
}

/// The unit for `/var` names the volume by its id, with its type and options, and
/// mounts it at the stateroot.
pub proof fn law_unit_of_the_var_volume(var: VarMountView)
    ensures
        holds(
            stateroot_var_unit(var),
            "\n[Mount]\nWhat=/dev/disk/by-uuid/"@ + var.uuid
                + "\nWhere=/sysroot/state/os/default/var\nType="@ + var.fstype + "\nOptions="@
                + var.options + "\n"@,
        ),
{
    let head =
        "[Unit]\nDescription=Dedicated /var volume (composefs stateroot)\nAfter=sysroot.mount\nBefore=initrd-root-fs.target bootc-root-setup.service\nDefaultDependencies=no\n\n[Mount]\nWhat=/dev/disk/by-uuid/"@;
    let foot = "\n\n[Install]\nWantedBy=initrd-root-fs.target\n"@;
    let mount = "\n[Mount]\nWhat=/dev/disk/by-uuid/"@;
    reveal_strlit(
        "[Unit]\nDescription=Dedicated /var volume (composefs stateroot)\nAfter=sysroot.mount\nBefore=initrd-root-fs.target bootc-root-setup.service\nDefaultDependencies=no\n\n[Mount]\nWhat=/dev/disk/by-uuid/",
    );
    reveal_strlit("\n\n[Install]\nWantedBy=initrd-root-fs.target\n");
    reveal_strlit("\n[Mount]\nWhat=/dev/disk/by-uuid/");
    reveal_strlit("\n");
    let n = head.len() - mount.len();
    assert(head.skip(n) =~= mount);
    let mid = var.uuid + "\nWhere=/sysroot/state/os/default/var\nType="@ + var.fstype
        + "\nOptions="@ + var.options;
    let text = stateroot_var_unit(var);
    assert(text =~= head + mid + foot);
    assert("\n[Mount]\nWhat=/dev/disk/by-uuid/"@ + var.uuid
        + "\nWhere=/sysroot/state/os/default/var\nType="@ + var.fstype + "\nOptions="@ + var.options
        + "\n"@ =~= mount + mid + "\n"@);
    assert(foot.take(1) =~= "\n"@);
    lemma_part(head, mid, foot, mount, "\n"@);
}

proof fn lemma_part(
    head: Seq<char>,
    mid: Seq<char>,
    foot: Seq<char>,
    a: Seq<char>,
    b: Seq<char>,
)
    requires
        a.len() <= head.len(),
        b.len() <= foot.len(),
        head.skip(head.len() - a.len()) == a,
        foot.take(b.len() as int) == b,
    ensures
        holds(head + mid + foot, a + mid + b),
{
    let text = head + mid + foot;
    let part = a + mid + b;
    let n = head.len() - a.len();
    assert forall|i: int| 0 <= i < part.len() implies part[i] == text[n + i] by {
        if i < a.len() {
            assert(head.skip(n)[i] == head[n + i]);
        } else if i >= a.len() + mid.len() {
            assert(foot.take(b.len() as int)[i - a.len() - mid.len()] == foot[i - a.len()
                - mid.len()]);
        }
    }
    assert(text.subrange(n, n + part.len()) =~= part);
    assert(occurs_at(text, part, n));
}

/// The rebuild fails only where the modules or a unit that it needs could not be
/// had. Modules that were staged are always taken away again, and the outcome is
/// told behind that.
pub proof fn law_stages_of_a_rebuild(s: RebuildStage, ok: bool, r: RebuildReasons)
    ensures
        ({
            let after = rebuild_stage_after(s, ok, r);
            &&& after is Failed <==> s is Failed || !ok && (s is ObtainModules || s is IncludeLoopback
                || s is IncludeVar)
            &&& s is RunDracut || s is StageModules && !ok ==> after is Unstage
            &&& s is Unstage ==> after is Report
            &&& s is FindDracut && !ok ==> after is Report
            &&& after is IncludeLoopback <==> s is FindDracut && ok && r.needs_xfs
            &&& after is IncludeVar <==> ok && r.separate_var && (s is IncludeLoopback || s
                is FindDracut && !r.needs_xfs)
            &&& after is RunDracut <==> s is StageModules && ok
            &&& after is StageModules <==> ok && (s is IncludeVar || !r.separate_var && (s
                is IncludeLoopback || s is FindDracut && !r.needs_xfs))
            &&& after is FindDracut <==> s is ObtainModules && ok
            &&& after is ObtainModules <==> s is Announce
            &&& after is Finished <==> s is Report || s is Finished
        }),
{
}

} // verus!

//! The rebuild of the initrd, for a root that the image's own cannot mount.

use vstd::prelude::*;

use crate::migration::deploy_layout::{loopback_mount_section, mount_section, runtime_unit};
use crate::migration::var_layout::{VarMount, VarMountView};
use crate::steps::{attempt, link, make_dir, run, write_file, Step, StepView};
use crate::text::compose::{join, joined, owned_all};
use crate::text::numbers::{decimal, decimal_of};
use crate::text::order::list_contains;
use crate::text::paths::{join_path, path_join};
use crate::text::search::{begins, holds, occurs_at, same};

verus! {

/// Whether the device mapper has a device.
pub open spec fn has_mapped_device(names: Seq<Seq<char>>) -> bool {
    exists|i: int| 0 <= i < names.len() && #[trigger] names[i] != "control"@
}

/// Whether the device mapper has a device, from what `/dev/mapper` lists.
pub fn detect_lvm(names: &[String]) -> (r: bool)
    ensures
        r == has_mapped_device(names.deep_view()),
{
    let ghost all = names.deep_view();
    let mut i: usize = 0;
    while i < names.len()
        invariant
            all == names.deep_view(),
            i <= names@.len(),
            forall|k: int| 0 <= k < i ==> #[trigger] all[k] == "control"@,
        decreases names@.len() - i,
    {
        assert(all[i as int] == names@[i as int]@);
        if !same(names[i].as_str(), "control") {
            return true;
        }
        i = i + 1;
    }
    false
}

/// The unit that mounts the loopback in the initrd.
pub open spec fn initrd_unit() -> Seq<char> {
    "[Unit]\nDescription=ComposeFS Loopback Mount\nAfter=sysroot.mount\nBefore=initrd-root-fs.target bootc-root-setup.service\nDefaultDependencies=no\n\n"@
        + loopback_mount_section() + "\n[Install]\nWantedBy=initrd-root-fs.target\n"@
}

/// The steps that put a mount unit into a tree for the initrd: the unit, its
/// enabling, and what makes the assembly of the root wait for it.
pub open spec fn include_steps(
    tree: Seq<char>,
    unit: Seq<char>,
    contents: Seq<char>,
    drop_in: Seq<char>,
) -> Seq<StepView> {
    let units = join_path(tree, "etc/systemd/system"@);
    let wants = join_path(units, "initrd-root-fs.target.wants"@);
    let drop_ins = join_path(units, "bootc-root-setup.service.d"@);
    seq![
        StepView::MakeDir { path: units, context: ""@ },
        StepView::Write { path: join_path(units, unit), contents, context: ""@ },
        StepView::MakeDir { path: wants, context: ""@ },
        StepView::Link {
            target: "../"@ + unit,
            path: join_path(wants, unit),
            context: "failed to enable "@ + unit,
        },
        StepView::MakeDir { path: drop_ins, context: ""@ },
        StepView::Write {
            path: join_path(drop_ins, drop_in),
            contents: "[Unit]\nRequires="@ + unit + "\nAfter="@ + unit + "\n"@,
            context: ""@,
        },
    ]
}

/// The steps that put a mount unit into a tree for the initrd.
fn include_unit(tree: &str, unit: &str, contents: &str, drop_in: &str) -> (r: Vec<Step>)
    ensures
        r.deep_view() == include_steps(tree@, unit@, contents@, drop_in@),
{
    let units: String = path_join(tree, "etc/systemd/system");
    let wants: String = path_join(units.as_str(), "initrd-root-fs.target.wants");
    let drop_ins: String = path_join(units.as_str(), "bootc-root-setup.service.d");
    let unit_path: String = path_join(units.as_str(), unit);
    let link_path: String = path_join(wants.as_str(), unit);
    let drop_in_path: String = path_join(drop_ins.as_str(), drop_in);
    let mut target: String = "../".to_owned();
    target.append(unit);
    let mut context: String = "failed to enable ".to_owned();
    context.append(unit);
    let mut waits: String = "[Unit]\nRequires=".to_owned();
    waits.append(unit);
    waits.append("\nAfter=");
    waits.append(unit);
    waits.append("\n");
    let mut r: Vec<Step> = Vec::new();
    r.push(make_dir(units.as_str(), ""));
    r.push(write_file(unit_path.as_str(), contents, ""));
    r.push(make_dir(wants.as_str(), ""));
    r.push(link(target.as_str(), link_path.as_str(), context.as_str()));
    r.push(make_dir(drop_ins.as_str(), ""));
    r.push(write_file(drop_in_path.as_str(), waits.as_str(), ""));
    assert(r.deep_view() =~= include_steps(tree@, unit@, contents@, drop_in@));
    r
}

/// The steps that make the tree with the unit for the loopback.
pub fn prepare_composefs_loopback_include(tree: &str) -> (r: Vec<Step>)
    ensures
        r.deep_view() == include_steps(
            tree@,
            "sysroot-composefs.mount"@,
            initrd_unit(),
            "RequiresLoopback.conf"@,
        ),
{
    let mut unit: String = "[Unit]\nDescription=ComposeFS Loopback Mount\nAfter=sysroot.mount\nBefore=initrd-root-fs.target bootc-root-setup.service\nDefaultDependencies=no\n\n".to_owned();
    unit.append(mount_section());
    unit.append("\n[Install]\nWantedBy=initrd-root-fs.target\n");
    include_unit(tree, "sysroot-composefs.mount", unit.as_str(), "RequiresLoopback.conf")
}

/// The unit that mounts a volume at the stateroot's `/var`.
pub open spec fn stateroot_var_unit(var: VarMountView) -> Seq<char> {
    "[Unit]\nDescription=Dedicated /var volume (composefs stateroot)\nAfter=sysroot.mount\nBefore=initrd-root-fs.target bootc-root-setup.service\nDefaultDependencies=no\n\n[Mount]\nWhat=/dev/disk/by-uuid/"@
        + var.uuid + "\nWhere=/sysroot/state/os/default/var\nType="@ + var.fstype + "\nOptions="@
        + var.options + "\n\n[Install]\nWantedBy=initrd-root-fs.target\n"@
}

/// The steps that make the tree with the unit for the volume of `/var`.
pub fn prepare_stateroot_var_include(tree: &str, var: &VarMount) -> (r: Vec<Step>)
    ensures
        r.deep_view() == include_steps(
            tree@,
            "sysroot-state-os-default-var.mount"@,
            stateroot_var_unit(var.deep_view()),
            "RequiresStaterootVar.conf"@,
        ),
{
    let mut unit: String = "[Unit]\nDescription=Dedicated /var volume (composefs stateroot)\nAfter=sysroot.mount\nBefore=initrd-root-fs.target bootc-root-setup.service\nDefaultDependencies=no\n\n[Mount]\nWhat=/dev/disk/by-uuid/".to_owned();
    unit.append(var.uuid.as_str());
    unit.append("\nWhere=/sysroot/state/os/default/var\nType=");
    unit.append(var.fstype.as_str());
    unit.append("\nOptions=");
    unit.append(var.options.as_str());
    unit.append("\n\n[Install]\nWantedBy=initrd-root-fs.target\n");
    include_unit(
        tree,
        "sysroot-state-os-default-var.mount",
        unit.as_str(),
        "RequiresStaterootVar.conf",
    )
}

/// The initrd and the booted system mount the store in one way.
pub proof fn law_both_units_mount_alike()
    ensures
        holds(initrd_unit(), loopback_mount_section()),
        holds(runtime_unit(), loopback_mount_section()),
{
    let m = loopback_mount_section();
    let a = "[Unit]\nDescription=ComposeFS Loopback Mount\nAfter=sysroot.mount\nBefore=initrd-root-fs.target bootc-root-setup.service\nDefaultDependencies=no\n\n"@;
    let b = "[Unit]\nDescription=ComposeFS Loopback Store (runtime)\nDefaultDependencies=no\nAfter=sysroot.mount\nBefore=local-fs.target\n\n"@;
    assert(initrd_unit().subrange(a.len() as int, (a.len() + m.len()) as int) =~= m);
    assert(occurs_at(initrd_unit(), m, a.len() as int));
    assert(runtime_unit().subrange(b.len() as int, (b.len() + m.len()) as int) =~= m);
    assert(occurs_at(runtime_unit(), m, b.len() as int));
}

/// Why the initrd is rebuilt.
#[derive(Debug, Clone, Copy, PartialEq, Eq, Structural)]
pub struct RebuildReasons {
    /// The root is on a mapped device.
    pub needs_dm: bool,
    /// The root is on XFS, with the store in a loopback.
    pub needs_xfs: bool,
    /// `/var` is a volume of its own.
    pub separate_var: bool,
}

/// Whether there is a reason: a volume for `/var` alone is none, since the
/// kernel's command line mounts it.
pub open spec fn must_rebuild(r: RebuildReasons) -> bool {
    r.needs_dm || r.needs_xfs
}

/// What the rebuild adds, in words.
pub open spec fn rebuild_label(r: RebuildReasons) -> Seq<char> {
    join(
        (if r.needs_dm {
            seq!["LVM/DM/crypt"@]
        } else {
            Seq::empty()
        }) + (if r.needs_xfs {
            seq!["XFS"@]
        } else {
            Seq::empty()
        }) + (if r.separate_var {
            seq!["dedicated /var"@]
        } else {
            Seq::empty()
        }),
        " + "@,
    )
}

/// What the rebuild adds, in words, where there is to be one.
pub fn plan_initrd_rebuild(reasons: RebuildReasons) -> (r: Option<String>)
    ensures
        r.deep_view() == (if must_rebuild(reasons) {
            Some(rebuild_label(reasons))
        } else {
            None
        }),
{
    if !reasons.needs_dm && !reasons.needs_xfs {
        return None;
    }
    let mut features: Vec<String> = Vec::new();
    if reasons.needs_dm {
        features.push("LVM/DM/crypt".to_owned());
    }
    if reasons.needs_xfs {
        features.push("XFS".to_owned());
    }
    if reasons.separate_var {
        features.push("dedicated /var".to_owned());
    }
    let ghost want = (if reasons.needs_dm {
        seq!["LVM/DM/crypt"@]
    } else {
        Seq::empty()
    }) + (if reasons.needs_xfs {
        seq!["XFS"@]
    } else {
        Seq::empty()
    }) + (if reasons.separate_var {
        seq!["dedicated /var"@]
    } else {
        Seq::empty()
    });
    assert(features.deep_view() =~= want);
    Some(joined(features.as_slice(), " + "))
}

/// The lines that announce the rebuild.
pub open spec fn announce_lines(label: Seq<char>, var: Option<VarMountView>) -> Seq<Seq<char>> {
    seq!["[phase5] Rebuilding composefs initrd with "@ + label + " support..."@] + (match var {
        Some(v) => seq![
            "[phase5] dedicated /var detected ("@ + v.fstype + ", UUID="@ + v.uuid + ", options="@
                + v.options + ") — will mount it at the composefs stateroot var path"@,
        ],
        None => Seq::empty(),
    })
}

/// The lines that announce the rebuild.
pub fn announce_rebuild(label: &str, var: Option<&VarMount>) -> (r: Vec<String>)
    ensures
        r.deep_view() == announce_lines(
            label@,
            match var {
                Some(v) => Some(v.deep_view()),
                None => None,
            },
        ),
{
    let mut r: Vec<String> = Vec::new();
    let mut l: String = "[phase5] Rebuilding composefs initrd with ".to_owned();
    l.append(label);
    l.append(" support...");
    r.push(l);
    match var {
        Some(v) => {
            let mut m: String = "[phase5] dedicated /var detected (".to_owned();
            m.append(v.fstype.as_str());
            m.append(", UUID=");
            m.append(v.uuid.as_str());
            m.append(", options=");
            m.append(v.options.as_str());
            m.append(") — will mount it at the composefs stateroot var path");
            r.push(m);
        },
        None => {},
    }
    assert(r.deep_view() =~= announce_lines(
        label@,
        match var {
            Some(v) => Some(v.deep_view()),
            None => None,
        },
    ));
    r
}

/// The dracut that exists, by the places where it may be.
pub open spec fn dracut_among(existing: Seq<Seq<char>>) -> Option<Seq<char>> {
    if existing.contains("/usr/bin/dracut"@) {
        Some("/usr/bin/dracut"@)
    } else if existing.contains("/usr/sbin/dracut"@) {
        Some("/usr/sbin/dracut"@)
    } else if existing.contains("dracut"@) {
        Some("dracut"@)
    } else {
        None
    }
}

/// The dracut to run, or why the initrd is left as it is.
pub fn find_dracut(existing: &[String], label: &str) -> (r: Result<String, String>)
    ensures
        match dracut_among(existing.deep_view()) {
            Some(p) => r is Ok && r->Ok_0@ == p,
            None => r is Err && r->Err_0@
                == "dracut not found on source; cannot rebuild initrd for "@ + label@,
        },
{
    if list_contains(existing, "/usr/bin/dracut") {
        return Ok("/usr/bin/dracut".to_owned());
    }
    if list_contains(existing, "/usr/sbin/dracut") {
        return Ok("/usr/sbin/dracut".to_owned());
    }
    if list_contains(existing, "dracut") {
        return Ok("dracut".to_owned());
    }
    let mut m: String = "dracut not found on source; cannot rebuild initrd for ".to_owned();
    m.append(label);
    Err(m)
}

/// The options that take a tree into the initrd.
pub open spec fn include_args(tree: Option<Seq<char>>) -> Seq<Seq<char>> {
    match tree {
        Some(t) => seq!["--include"@, t, "/"@],
        None => Seq::empty(),
    }
}

/// The command that rebuilds the initrd with what it lacks. The module that
/// assembles the root is asked for by name: dracut leaves it out otherwise.
pub open spec fn dracut_argv(
    dracut: Seq<char>,
    initrd: Seq<char>,
    kver: Seq<char>,
    needs_dm: bool,
    needs_xfs: bool,
    loop_tree: Option<Seq<char>>,
    var_tree: Option<Seq<char>>,
) -> Seq<Seq<char>> {
    seq![dracut, "--rebuild"@, initrd, "--kver"@, kver, "--force"@, "--add"@, "bootc"@] + (
    if needs_dm {
        seq!["--add"@, "lvm dm crypt"@]
    } else {
        Seq::empty()
    }) + (if needs_xfs {
        seq!["--add-drivers"@, "xfs ext4 loop"@] + include_args(loop_tree)
    } else {
        Seq::empty()
    }) + (if var_tree is Some {
        seq!["--add-drivers"@, "xfs ext4"@] + include_args(var_tree)
    } else {
        Seq::empty()
    })
}

/// The command that rebuilds the initrd with what it lacks.
pub fn dracut_command(
    dracut: &str,
    initrd: &str,
    kver: &str,
    needs_dm: bool,
    needs_xfs: bool,
    loop_tree: Option<&str>,
    var_tree: Option<&str>,
) -> (r: Vec<String>)
    ensures
        r.deep_view() == dracut_argv(
            dracut@,
            initrd@,
            kver@,
            needs_dm,
            needs_xfs,
            match loop_tree {
                Some(t) => Some(t@),
                None => None,
            },
            match var_tree {
                Some(t) => Some(t@),
                None => None,
            },
        ),
{
    let first: [&str; 8] = [
        dracut,
        "--rebuild",
        initrd,
        "--kver",
        kver,
        "--force",
        "--add",
        "bootc",
    ];
    let mut r: Vec<String> = owned_all(&first);
    let ghost head = r.deep_view();
    assert(head =~= seq![
        dracut@,
        "--rebuild"@,
        initrd@,
        "--kver"@,
        kver@,
        "--force"@,
        "--add"@,
        "bootc"@,
    ]);
    if needs_dm {
        r.push("--add".to_owned());
        r.push("lvm dm crypt".to_owned());
        assert(r.deep_view() =~= head + seq!["--add"@, "lvm dm crypt"@]);
    } else {
        assert(r.deep_view() =~= head + Seq::empty());
    }
    let ghost with_dm = r.deep_view();
    if needs_xfs {
        r.push("--add-drivers".to_owned());
        r.push("xfs ext4 loop".to_owned());
        match loop_tree {
            Some(t) => {
                r.push("--include".to_owned());
                r.push(t.to_owned());
                r.push("/".to_owned());
            },
            None => {},
        }
    }
    let ghost xfs_args = if needs_xfs {
        seq!["--add-drivers"@, "xfs ext4 loop"@] + include_args(
            match loop_tree {
                Some(t) => Some(t@),
                None => None,
            },
        )
    } else {
        Seq::empty()
    };
    assert(r.deep_view() =~= with_dm + xfs_args);
    let ghost with_xfs = r.deep_view();
    match var_tree {
        Some(t) => {
            r.push("--add-drivers".to_owned());
            r.push("xfs ext4".to_owned());
            r.push("--include".to_owned());
            r.push(t.to_owned());
            r.push("/".to_owned());
            assert(r.deep_view() =~= with_xfs + (seq!["--add-drivers"@, "xfs ext4"@]
                + include_args(Some(t@))));
        },
        None => {
            assert(r.deep_view() =~= with_xfs + Seq::empty());
        },
    }
    r
}

/// The steps that let dracut find the target's kernel modules: it looks under
/// `/usr/lib/modules` alone, so a directory with a link to them is bound there.
pub open spec fn staging_steps_for(
    staging: Seq<char>,
    kver: Seq<char>,
    modules: Seq<char>,
    present: bool,
) -> Seq<StepView> {
    let entry = join_path(staging, kver);
    (if present {
        seq![StepView::RemoveTree(staging)]
    } else {
        Seq::empty()
    }) + seq![
        StepView::MakeDir { path: staging, context: "create kmod staging dir "@ + staging },
        StepView::Link {
            target: modules,
            path: entry,
            context: "symlink "@ + entry + " -> "@ + modules,
        },
        StepView::Run {
            argv: seq!["mount"@, "--bind"@, staging, "/usr/lib/modules"@],
            context: "bind "@ + staging + " over /usr/lib/modules"@,
            failure: "failed to bind kmod staging over /usr/lib/modules"@,
        },
    ]
}

/// The steps that let dracut find the target's kernel modules.
pub fn staging_steps(staging: &str, kver: &str, modules: &str, present: bool) -> (r: Vec<Step>)
    ensures
        r.deep_view() == staging_steps_for(staging@, kver@, modules@, present),
{
    let entry: String = path_join(staging, kver);
    let mut r: Vec<Step> = Vec::new();
    if present {
        r.push(Step::RemoveTree(staging.to_owned()));
    }
    let mut make: String = "create kmod staging dir ".to_owned();
    make.append(staging);
    r.push(make_dir(staging, make.as_str()));
    let mut linked: String = "symlink ".to_owned();
    linked.append(entry.as_str());
    linked.append(" -> ");
    linked.append(modules);
    r.push(link(modules, entry.as_str(), linked.as_str()));
    let mut bind: String = "bind ".to_owned();
    bind.append(staging);
    bind.append(" over /usr/lib/modules");
    let argv: [&str; 4] = ["mount", "--bind", staging, "/usr/lib/modules"];
    let step: Step = run(
        &argv,
        bind.as_str(),
        "failed to bind kmod staging over /usr/lib/modules",
    );
    assert(argv.deep_view() =~= seq!["mount"@, "--bind"@, staging@, "/usr/lib/modules"@]);
    r.push(step);
    assert(r.deep_view() =~= staging_steps_for(staging@, kver@, modules@, present));
    r
}

/// The steps that undo that, whatever dracut did. `bound` says whether the
/// directory was bound.
pub open spec fn unstaging_steps_for(staging: Seq<char>, bound: bool) -> Seq<StepView> {
    (if bound {
        seq![
            StepView::Attempt {
                argv: seq!["umount"@, "--lazy"@, "/usr/lib/modules"@],
                warning: "[phase5] Warning: failed to unmount kmod staging from /usr/lib/modules"@,
            },
        ]
    } else {
        Seq::empty()
    }) + seq![StepView::RemoveTree(staging)]
}

/// The steps that undo that, whatever dracut did.
pub fn unstaging_steps(staging: &str, bound: bool) -> (r: Vec<Step>)
    ensures
        r.deep_view() == unstaging_steps_for(staging@, bound),
{
    let mut r: Vec<Step> = Vec::new();
    if bound {
        let argv: [&str; 3] = ["umount", "--lazy", "/usr/lib/modules"];
        let step: Step = attempt(
            &argv,
            "[phase5] Warning: failed to unmount kmod staging from /usr/lib/modules",
        );
        assert(argv.deep_view() =~= seq!["umount"@, "--lazy"@, "/usr/lib/modules"@]);
        r.push(step);
    }
    r.push(Step::RemoveTree(staging.to_owned()));
    assert(r.deep_view() =~= unstaging_steps_for(staging@, bound));
    r
}

/// What came of the rebuild.
#[derive(Debug, Clone, PartialEq, Eq)]
pub enum RebuildOutcome {
    Rebuilt,
    /// dracut exited with the code, or was ended by a signal.
    Exited(Option<u8>),
    /// It could not be run, for the reason given.
    Failed(String),
}

/// The exit code in words.
pub open spec fn code_text(code: Option<u8>) -> Seq<char> {
    match code {
        Some(c) => "Some("@ + decimal(c as nat) + ")"@,
        None => "None"@,
    }
}

/// What is said of the rebuild. A failure does not stop the migration: the
/// system can still boot the deployment that it has.
pub open spec fn outcome_text(label: Seq<char>, initrd: Seq<char>, o: RebuildOutcome) -> Seq<char> {
    match o {
        RebuildOutcome::Rebuilt => "[phase5] "@ + label + " initrd rebuilt and staged at "@ + initrd
            + "."@,
        RebuildOutcome::Exited(code) => "[phase5] Warning: dracut exited "@ + code_text(code)
            + " — composefs initrd left unchanged; it lacks "@ + label
            + " support and the composefs entry may not boot. Boot the OSTree fallback and rerun the migration to recover."@,
        RebuildOutcome::Failed(e) => "[phase5] Warning: initrd rebuild failed ("@ + e@
            + ") — composefs initrd left unchanged; boot the OSTree fallback to recover."@,
    }
}

/// What is said of the rebuild.
pub fn report_rebuild(label: &str, initrd: &str, outcome: &RebuildOutcome) -> (r: String)
    ensures
        r@ == outcome_text(label@, initrd@, *outcome),
{
    match outcome {
        RebuildOutcome::Rebuilt => {
            let mut m: String = "[phase5] ".to_owned();
            m.append(label);
            m.append(" initrd rebuilt and staged at ");
            m.append(initrd);
            m.append(".");
            m
        },
        RebuildOutcome::Exited(code) => {
            let code: String = match code {
                Some(c) => {
                    let mut s: String = "Some(".to_owned();
                    s.append(decimal_of(*c as u64).as_str());
                    s.append(")");
                    s
                },
                None => "None".to_owned(),
            };
            let mut m: String = "[phase5] Warning: dracut exited ".to_owned();
            m.append(code.as_str());
            m.append(" — composefs initrd left unchanged; it lacks ");
            m.append(label);
            m.append(
                " support and the composefs entry may not boot. Boot the OSTree fallback and rerun the migration to recover.",
            );
            m
        },
        RebuildOutcome::Failed(e) => {
            let mut m: String = "[phase5] Warning: initrd rebuild failed (".to_owned();
            m.append(e.as_str());
            m.append(
                ") — composefs initrd left unchanged; boot the OSTree fallback to recover.",
            );
            m
        },
    }
}

/// How far a rebuild has come.
#[derive(Debug, Clone, Copy, PartialEq, Eq, Structural)]
pub enum RebuildStage {
    Announce,
    ObtainModules,
    FindDracut,
    IncludeLoopback,
    IncludeVar,
    StageModules,
    RunDracut,
    Unstage,
    Report,
    Finished,
    Failed,
}

/// The stage in which the host's own units are added, or the one behind it.
pub open spec fn first_include(r: RebuildReasons) -> RebuildStage {
    if r.needs_xfs {
        RebuildStage::IncludeLoopback
    } else {
        second_include(r)
    }
}

/// The stage in which a volume of `/var` is added, or the one behind it.
pub open spec fn second_include(r: RebuildReasons) -> RebuildStage {
    if r.separate_var {
        RebuildStage::IncludeVar
    } else {
        RebuildStage::StageModules
    }
}

/// The stage behind the one given.
///
/// Without the kernel modules or the units that it needs the rebuild fails. An
/// absent dracut is only told: the initrd stays as it is. Once modules are
/// staged nothing fails the rebuild any more: they are taken away again, and
/// the outcome is told.
pub open spec fn rebuild_stage_after(
    s: RebuildStage,
    succeeded: bool,
    r: RebuildReasons,
) -> RebuildStage {
    match s {
        RebuildStage::Announce => RebuildStage::ObtainModules,
        RebuildStage::ObtainModules => if succeeded {
            RebuildStage::FindDracut
        } else {
            RebuildStage::Failed
        },
        RebuildStage::FindDracut => if succeeded {
            first_include(r)
        } else {
            RebuildStage::Report
        },
        RebuildStage::IncludeLoopback => if succeeded {
            second_include(r)
        } else {
            RebuildStage::Failed
        },
        RebuildStage::IncludeVar => if succeeded {
            RebuildStage::StageModules
        } else {
            RebuildStage::Failed
        },
        RebuildStage::StageModules => if succeeded {
            RebuildStage::RunDracut
        } else {
            RebuildStage::Unstage
        },
        RebuildStage::RunDracut => RebuildStage::Unstage,
        RebuildStage::Unstage => RebuildStage::Report,
        RebuildStage::Report => RebuildStage::Finished,
        RebuildStage::Finished => RebuildStage::Finished,
        RebuildStage::Failed => RebuildStage::Failed,
    }
}

/// Where a rebuild starts. An initrd that finds the root as it is stays.
pub fn rebuild_initrd_with_lvm_if_needed(reasons: RebuildReasons) -> (r: RebuildStage)
    ensures
        r == (if must_rebuild(reasons) {
            RebuildStage::Announce
        } else {
            RebuildStage::Finished
        }),
{
    if reasons.needs_dm || reasons.needs_xfs {
        RebuildStage::Announce
    } else {
        RebuildStage::Finished
    }
}

/// The stage behind the one given.
pub fn next_rebuild_stage(stage: RebuildStage, succeeded: bool, reasons: RebuildReasons) -> (r:
    RebuildStage)
    ensures
        r == rebuild_stage_after(stage, succeeded, reasons),
{
    let past_loopback: RebuildStage = if reasons.separate_var {
        RebuildStage::IncludeVar
    } else {
        RebuildStage::StageModules
    };
    match stage {
        RebuildStage::Announce => RebuildStage::ObtainModules,
        RebuildStage::ObtainModules => if succeeded {
            RebuildStage::FindDracut
        } else {
            RebuildStage::Failed
        },
        RebuildStage::FindDracut => if !succeeded {
            RebuildStage::Report
        } else if reasons.needs_xfs {
            RebuildStage::IncludeLoopback
        } else {
            past_loopback
        },
        RebuildStage::IncludeLoopback => if succeeded {
            past_loopback
        } else {
            RebuildStage::Failed
        },
        RebuildStage::IncludeVar => if succeeded {
            RebuildStage::StageModules
        } else {
            RebuildStage::Failed
        },
        RebuildStage::StageModules => if succeeded {
            RebuildStage::RunDracut
        } else {
            RebuildStage::Unstage
        },
        RebuildStage::RunDracut => RebuildStage::Unstage,
        RebuildStage::Unstage => RebuildStage::Report,
        RebuildStage::Report => RebuildStage::Finished,
        RebuildStage::Finished => RebuildStage::Finished,
        RebuildStage::Failed => RebuildStage::Failed,
    }
}

/// From the staging of the modules on, whatever fails leads through their
/// removal to the report, and never to a failure of the migration.
pub proof fn law_staged_modules_are_removed(s: RebuildStage, succeeded: bool, r: RebuildReasons)
    ensures
        ({
            let next = rebuild_stage_after(s, succeeded, r);
            &&& next is Report ==> s is Unstage || (s is FindDracut && !succeeded)
            &&& s is StageModules || s is RunDracut ==> next is RunDracut || next is Unstage
            &&& s is StageModules && !succeeded ==> next is Unstage
            &&& s is StageModules || s is RunDracut || s is Unstage || s is Report ==> !(
            next is Failed)
        }),
{
}

/// A host without dracut is warned, its modules and its initrd are not touched,
/// and the rebuild is over without a failure.
pub proof fn law_absent_dracut_is_a_warning(
    r: RebuildReasons,
    told: bool,
    label: Seq<char>,
    initrd: Seq<char>,
    why: String,
)
    ensures
        rebuild_stage_after(RebuildStage::FindDracut, false, r) is Report,
        rebuild_stage_after(RebuildStage::Report, told, r) is Finished,
        begins(outcome_text(label, initrd, RebuildOutcome::Failed(why)), "[phase5] Warning: "@),
{
    reveal_strlit("[phase5] Warning: ");
    reveal_strlit("[phase5] Warning: initrd rebuild failed (");
    let p = "[phase5] Warning: "@;
    assert(outcome_text(label, initrd, RebuildOutcome::Failed(why)).take(p.len() as int) =~= p);
}

/// dracut runs only behind staged modules, with every unit that the host needs.
pub proof fn law_dracut_runs_on_staged_modules(s: RebuildStage, succeeded: bool, r: RebuildReasons)
    ensures
        ({
            let next = rebuild_stage_after(s, succeeded, r);
            &&& next is RunDracut ==> s is StageModules && succeeded
            &&& next is StageModules && r.separate_var ==> s is IncludeVar && succeeded
            &&& next is StageModules && r.needs_xfs ==> (s is IncludeLoopback || s is IncludeVar)
                && succeeded
            &&& next is IncludeVar && r.needs_xfs ==> s is IncludeLoopback && succeeded
        }),
{
}

/// What was bound over the modules is unbound again, and the directory goes.
pub proof fn law_staging_is_undone(staging: Seq<char>, bound: bool)
    ensures
        unstaging_steps_for(staging, bound).last() == StepView::RemoveTree(staging),
        bound ==> unstaging_steps_for(staging, bound)[0] is Attempt,
{
}

/// The module that assembles the root is always asked for.
pub proof fn law_rebuild_keeps_the_root_assembly(
    dracut: Seq<char>,
    initrd: Seq<char>,
    kver: Seq<char>,
    needs_dm: bool,
    needs_xfs: bool,
    loop_tree: Option<Seq<char>>,
    var_tree: Option<Seq<char>>,
)
    ensures
        ({
            let argv = dracut_argv(dracut, initrd, kver, needs_dm, needs_xfs, loop_tree, var_tree);
            argv.len() >= 8 && argv[6] == "--add"@ && argv[7] == "bootc"@
        }),
{
}

} // verus!

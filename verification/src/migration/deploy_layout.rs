//! Where the state of a staged deployment lives, and what describes it.

use vstd::prelude::*;

use crate::migration::var_layout::{VarMount, VarMountView};
use crate::steps::{link, make_dir, say, write_file, Step, StepView};
use crate::text::compose::owned;
use crate::text::paths::{join_path, path_join};
use crate::verity::VerityDigest;

verus! {

/// What the deployments are staged under.
pub const DEPLOY_ROOT: &'static str = "/sysroot/state/deploy";

/// Where a staged deployment keeps its files.
#[derive(Debug, Clone, PartialEq, Eq)]
pub struct DeploymentLayout {
    pub deploy_dir: String,
    pub etc_dir: String,
    pub origin_path: String,
    pub imginfo_path: String,
    /// Whether the directory is there already, with its origin.
    pub already_staged: bool,
}

/// The directory of the deployment.
pub open spec fn deploy_dir_of(hex: Seq<char>) -> Seq<char> {
    join_path("/sysroot/state/deploy"@, hex)
}

/// What creates the directories.
pub open spec fn dir_steps(deploy_dir: Seq<char>, etc_dir: Seq<char>) -> Seq<StepView> {
    seq![
        StepView::MakeDir {
            path: deploy_dir,
            context: "failed to create deployment directory"@,
        },
        StepView::MakeDir {
            path: etc_dir,
            context: "failed to create deployment etc directory"@,
        },
    ]
}

/// What points the deployment's `/var` at the shared one.
pub open spec fn var_link_steps(deploy_dir: Seq<char>, present: bool) -> Seq<StepView> {
    let path = join_path(deploy_dir, "var"@);
    (if present {
        seq![StepView::Delete { path, context: "failed to remove existing var entry"@ }]
    } else {
        Seq::empty()
    }) + seq![
        StepView::Link {
            target: "../../os/default/var"@,
            path,
            context: "failed to create /var symlink"@,
        },
    ]
}

impl DeploymentLayout {
    /// The layout for the digest. The descriptors are named by its bare digits:
    /// any other name would not be found after the reboot. The flags say
    /// whether the directory and its origin exist.
    pub fn for_verity(verity: &VerityDigest, dir_exists: bool, origin_exists: bool) -> (r: Self)
        ensures
            r.deploy_dir@ == deploy_dir_of(verity.hex@),
            r.etc_dir@ == join_path(deploy_dir_of(verity.hex@), "etc"@),
            r.origin_path@ == join_path(deploy_dir_of(verity.hex@), verity.hex@ + ".origin"@),
            r.imginfo_path@ == join_path(deploy_dir_of(verity.hex@), verity.hex@ + ".imginfo"@),
            r.already_staged == (dir_exists && origin_exists),
    {
        let deploy_dir: String = path_join("/sysroot/state/deploy", verity.as_hex());
        let mut origin: String = verity.as_hex().to_owned();
        origin.append(".origin");
        let mut imginfo: String = verity.as_hex().to_owned();
        imginfo.append(".imginfo");
        let etc_dir: String = path_join(deploy_dir.as_str(), "etc");
        let origin_path: String = path_join(deploy_dir.as_str(), origin.as_str());
        let imginfo_path: String = path_join(deploy_dir.as_str(), imginfo.as_str());
        DeploymentLayout {
            deploy_dir,
            etc_dir,
            origin_path,
            imginfo_path,
            already_staged: dir_exists && origin_exists,
        }
    }

    /// The steps that create the directories.
    pub fn create_dirs(&self) -> (r: Vec<Step>)
        ensures
            r.deep_view() == dir_steps(self.deploy_dir@, self.etc_dir@),
    {
        let mut r: Vec<Step> = Vec::new();
        r.push(make_dir(self.deploy_dir.as_str(), "failed to create deployment directory"));
        r.push(make_dir(self.etc_dir.as_str(), "failed to create deployment etc directory"));
        assert(r.deep_view() =~= dir_steps(self.deploy_dir@, self.etc_dir@));
        r
    }

    /// The steps that point the deployment's `/var` at the shared one.
    /// `present` says whether something stands there.
    pub fn stage_var_symlink(&self, present: bool) -> (r: Vec<Step>)
        ensures
            r.deep_view() == var_link_steps(self.deploy_dir@, present),
    {
        let path: String = path_join(self.deploy_dir.as_str(), "var");
        let mut r: Vec<Step> = Vec::new();
        if present {
            r.push(
                Step::Delete {
                    path: owned(path.as_str()),
                    context: "failed to remove existing var entry".to_owned(),
                },
            );
        }
        r.push(link("../../os/default/var", path.as_str(), "failed to create /var symlink"));
        assert(r.deep_view() =~= var_link_steps(self.deploy_dir@, present));
        r
    }

    /// The steps that let the booted system mount the loopback, where there is
    /// one.
    pub fn install_runtime_composefs_mount(&self, loopback_exists: bool) -> (r: Vec<Step>)
        ensures
            r.deep_view() == (if loopback_exists {
                runtime_mount_steps(self.etc_dir@)
            } else {
                Seq::empty()
            }),
    {
        if loopback_exists {
            write_runtime_composefs_loopback_mount(self.etc_dir.as_str())
        } else {
            let r: Vec<Step> = Vec::new();
            assert(r.deep_view() =~= Seq::empty());
            r
        }
    }
}

/// What both units say of the mount. It is writable: updates write to the
/// store, and the mount made in the initrd is the one that the system keeps.
pub open spec fn loopback_mount_section() -> Seq<char> {
    "[Mount]\nWhat=/sysroot/composefs-loopback.ext4\nWhere=/sysroot/composefs\nType=ext4\nOptions=loop,rw\n"@
}

/// The unit that mounts the loopback in the booted system.
pub open spec fn runtime_unit() -> Seq<char> {
    "[Unit]\nDescription=ComposeFS Loopback Store (runtime)\nDefaultDependencies=no\nAfter=sysroot.mount\nBefore=local-fs.target\n\n"@
        + loopback_mount_section() + "\n[Install]\nWantedBy=local-fs.target\n"@
}

/// What both units say of the mount.
pub(crate) fn mount_section() -> (r: &'static str)
    ensures
        r@ == loopback_mount_section(),
{
    "[Mount]\nWhat=/sysroot/composefs-loopback.ext4\nWhere=/sysroot/composefs\nType=ext4\nOptions=loop,rw\n"
}

/// The steps that install and enable the unit below the directory.
pub open spec fn runtime_mount_steps(etc_dir: Seq<char>) -> Seq<StepView> {
    let units = join_path(etc_dir, "systemd/system"@);
    let wants = join_path(units, "local-fs.target.wants"@);
    let path = join_path(wants, "sysroot-composefs.mount"@);
    seq![
        StepView::MakeDir { path: units, context: ""@ },
        StepView::Write {
            path: join_path(units, "sysroot-composefs.mount"@),
            contents: runtime_unit(),
            context: ""@,
        },
        StepView::MakeDir { path: wants, context: ""@ },
        StepView::Remove(path),
        StepView::Link {
            target: "../sysroot-composefs.mount"@,
            path,
            context: "failed to enable runtime sysroot-composefs.mount"@,
        },
    ]
}

/// The steps that install and enable the unit that mounts the loopback in the
/// booted system. Mostly the initrd's mount is there already and the unit only
/// goes active over it.
pub fn write_runtime_composefs_loopback_mount(etc_dir: &str) -> (r: Vec<Step>)
    ensures
        r.deep_view() == runtime_mount_steps(etc_dir@),
{
    let units: String = path_join(etc_dir, "systemd/system");
    let wants: String = path_join(units.as_str(), "local-fs.target.wants");
    let path: String = path_join(wants.as_str(), "sysroot-composefs.mount");
    let unit_path: String = path_join(units.as_str(), "sysroot-composefs.mount");
    let mut unit: String = "[Unit]\nDescription=ComposeFS Loopback Store (runtime)\nDefaultDependencies=no\nAfter=sysroot.mount\nBefore=local-fs.target\n\n".to_owned();
    unit.append(mount_section());
    unit.append("\n[Install]\nWantedBy=local-fs.target\n");
    let mut r: Vec<Step> = Vec::new();
    r.push(make_dir(units.as_str(), ""));
    r.push(write_file(unit_path.as_str(), unit.as_str(), ""));
    r.push(make_dir(wants.as_str(), ""));
    r.push(Step::Remove(owned(path.as_str())));
    r.push(
        link(
            "../sysroot-composefs.mount",
            path.as_str(),
            "failed to enable runtime sysroot-composefs.mount",
        ),
    );
    assert(r.deep_view() =~= runtime_mount_steps(etc_dir@));
    r
}

/// One move of the migration of `/var`.
#[derive(Debug, Clone, PartialEq, Eq)]
pub enum VarMove {
    Do(Step),
    /// Copy a tree with its extended attributes, or stop with `context`.
    CopyTree { from: String, to: String, context: String },
}

/// What a [`VarMove`] holds.
#[verifier::ext_equal]
pub enum VarMoveView {
    Do(StepView),
    CopyTree { from: Seq<char>, to: Seq<char>, context: Seq<char> },
}

impl DeepView for VarMove {
    type V = VarMoveView;

    open spec fn deep_view(&self) -> VarMoveView {
        match self {
            VarMove::Do(step) => VarMoveView::Do(step.deep_view()),
            VarMove::CopyTree { from, to, context } => VarMoveView::CopyTree {
                from: from@,
                to: to@,
                context: context@,
            },
        }
    }
}

/// What is said of a volume that stays.
pub open spec fn preserve_line(var: VarMountView) -> Seq<char> {
    "[phase4] preserving /var in place ("@ + var.fstype + ", UUID="@ + var.uuid + ", options="@
        + var.options + "); Phase 5 will mount it at the composefs stateroot"@
}

/// Where the data in `/var` is copied to.
pub const TARGET_VAR: &'static str = "/sysroot/state/os/default/var";

/// The file that says that all of it was copied.
pub const VAR_COMPLETE: &'static str = "/sysroot/state/os/default/.bootc-migrate-composefs-var-complete";

/// The move that says `text`.
pub open spec fn var_say(text: Seq<char>) -> VarMoveView {
    VarMoveView::Do(StepView::Say(text))
}

/// The move that copies the data.
pub open spec fn var_copy() -> VarMoveView {
    VarMoveView::CopyTree {
        from: "/var"@,
        to: "/sysroot/state/os/default/var"@,
        context: "failed to migrate /var data to ComposeFS state"@,
    }
}

/// The move that writes the marker.
pub open spec fn var_mark() -> VarMoveView {
    VarMoveView::Do(
        StepView::Write {
            path: "/sysroot/state/os/default/.bootc-migrate-composefs-var-complete"@,
            contents: "The live /var tree was copied by bootc-migrate-composefs.\n"@,
            context: "failed to write /var migration completion marker"@,
        },
    )
}

/// The moves of the migration of `/var`: a volume of its own stays in place, and
/// otherwise the data is copied once. Only the marker says that it was: a
/// skeleton of directories may be there before.
pub open spec fn var_moves(separate_var: Option<VarMountView>, marker_exists: bool) -> Seq<
    VarMoveView,
> {
    match separate_var {
        Some(var) => seq![var_say(preserve_line(var))],
        None => if marker_exists {
            seq![
                var_say(
                    "/var migration already completed at /sysroot/state/os/default/var. Skipping."@,
                ),
            ]
        } else {
            seq![
                VarMoveView::Do(
                    StepView::MakeDir { path: "/sysroot/state/os/default/var"@, context: ""@ },
                ),
                var_say("Migrating /var data from /var to ComposeFS state..."@),
                var_copy(),
                var_mark(),
                var_say("/var data migrated successfully."@),
            ]
        },
    }
}

/// The moves of the migration of `/var`, in order and up to the first that
/// fails.
pub fn migrate_var_state(separate_var: Option<&VarMount>, marker_exists: bool) -> (r: Vec<VarMove>)
    ensures
        r.deep_view() == var_moves(
            match separate_var {
                Some(var) => Some(var.deep_view()),
                None => None,
            },
            marker_exists,
        ),
{
    let mut r: Vec<VarMove> = Vec::new();
    match separate_var {
        Some(var) => {
            let mut m: String = "[phase4] preserving /var in place (".to_owned();
            m.append(var.fstype.as_str());
            m.append(", UUID=");
            m.append(var.uuid.as_str());
            m.append(", options=");
            m.append(var.options.as_str());
            m.append("); Phase 5 will mount it at the composefs stateroot");
            r.push(VarMove::Do(Step::Say(m)));
            assert(r.deep_view() =~= var_moves(Some(var.deep_view()), marker_exists));
        },
        None => {
            if marker_exists {
                r.push(
                    VarMove::Do(
                        say(
                            "/var migration already completed at /sysroot/state/os/default/var. Skipping.",
                        ),
                    ),
                );
            } else {
                r.push(VarMove::Do(make_dir("/sysroot/state/os/default/var", "")));
                r.push(VarMove::Do(say("Migrating /var data from /var to ComposeFS state...")));
                r.push(
                    VarMove::CopyTree {
                        from: "/var".to_owned(),
                        to: "/sysroot/state/os/default/var".to_owned(),
                        context: "failed to migrate /var data to ComposeFS state".to_owned(),
                    },
                );
                r.push(
                    VarMove::Do(
                        write_file(
                            "/sysroot/state/os/default/.bootc-migrate-composefs-var-complete",
                            "The live /var tree was copied by bootc-migrate-composefs.\n",
                            "failed to write /var migration completion marker",
                        ),
                    ),
                );
                r.push(VarMove::Do(say("/var data migrated successfully.")));
            }
            assert(r.deep_view() =~= var_moves(None, marker_exists));
        },
    }
    r
}

/// Whether the move changes anything.
pub open spec fn var_move_changes(m: VarMoveView) -> bool {
    !(m is Do && m->Do_0 is Say)
}

/// The marker is the last thing that is changed, and the copy comes before it:
/// wherever the moves stop, a marker that was written says that all was copied.
pub proof fn law_marker_comes_last(
    separate_var: Option<VarMountView>,
    marker_exists: bool,
    i: int,
    j: int,
)
    requires
        0 <= i < var_moves(separate_var, marker_exists).len(),
        0 <= j < var_moves(separate_var, marker_exists).len(),
        var_moves(separate_var, marker_exists)[j] == var_mark(),
        var_move_changes(var_moves(separate_var, marker_exists)[i]),
    ensures
        i <= j,
        var_moves(separate_var, marker_exists).take(j).contains(var_copy()),
{
    let moves = var_moves(separate_var, marker_exists);
    assert(moves.take(j)[2] == var_copy());
}

/// A volume of its own is never copied, and neither is what the marker says was
/// copied before.
pub proof fn law_var_is_copied_once(separate_var: Option<VarMountView>, marker_exists: bool, i: int)
    requires
        separate_var is Some || marker_exists,
        0 <= i < var_moves(separate_var, marker_exists).len(),
    ensures
        !var_move_changes(var_moves(separate_var, marker_exists)[i]),
{
}

} // verus!

//! The deployments that a change of bootloader has to keep bootable.

use vstd::prelude::*;

use crate::text::order::list_contains;
use crate::text::paths::{join_path, path_join};
use crate::text::pieces::{trim_end_text, trimmed_end_text};
use crate::text::search::{all_hex, ends_with, finishes, is_all_hex, same};

verus! {

/// A bootable deployment.
#[derive(Debug, Clone, PartialEq, Eq)]
pub struct BootDeployment {
    pub root: String,
    pub checksum: String,
    pub kver: String,
    pub vmlinuz: String,
    pub initrd: String,
    pub initrd_exists: bool,
    pub is_composefs: bool,
}

/// What a [`BootDeployment`] holds.
#[verifier::ext_equal]
pub struct BootDeploymentView {
    pub root: Seq<char>,
    pub checksum: Seq<char>,
    pub kver: Seq<char>,
    pub vmlinuz: Seq<char>,
    pub initrd: Seq<char>,
    pub initrd_exists: bool,
    pub is_composefs: bool,
}

impl DeepView for BootDeployment {
    type V = BootDeploymentView;

    open spec fn deep_view(&self) -> BootDeploymentView {
        BootDeploymentView {
            root: self.root@,
            checksum: self.checksum@,
            kver: self.kver@,
            vmlinuz: self.vmlinuz@,
            initrd: self.initrd@,
            initrd_exists: self.initrd_exists,
            is_composefs: self.is_composefs,
        }
    }
}

/// What was found under one name in a directory of deployments.
#[derive(Debug, Clone, PartialEq, Eq)]
pub struct DeployEntry {
    pub name: String,
    pub is_dir: bool,
    /// Whether it holds a file of its own name with the ending `.origin`.
    pub has_origin: bool,
    /// What `usr/lib/modules` lists, each name with whether it is a directory.
    pub modules: Vec<(String, bool)>,
    /// Those of the names that have a kernel.
    pub kernels: Vec<String>,
    /// Those of the names that have an initrd.
    pub initrds: Vec<String>,
}

/// What a [`DeployEntry`] holds.
#[verifier::ext_equal]
pub struct DeployEntryView {
    pub name: Seq<char>,
    pub is_dir: bool,
    pub has_origin: bool,
    pub modules: Seq<(Seq<char>, bool)>,
    pub kernels: Seq<Seq<char>>,
    pub initrds: Seq<Seq<char>>,
}

impl DeepView for DeployEntry {
    type V = DeployEntryView;

    open spec fn deep_view(&self) -> DeployEntryView {
        DeployEntryView {
            name: self.name@,
            is_dir: self.is_dir,
            has_origin: self.has_origin,
            modules: self.modules.deep_view(),
            kernels: self.kernels.deep_view(),
            initrds: self.initrds.deep_view(),
        }
    }
}

/// The kernel version that the modules are for: the first directory listed.
pub open spec fn kver_in(modules: Seq<(Seq<char>, bool)>) -> Option<Seq<char>>
    decreases modules.len(),
{
    if modules.len() == 0 {
        None
    } else if modules[0].1 {
        Some(modules[0].0)
    } else {
        kver_in(modules.skip(1))
    }
}

/// The kernel version that the modules are for.
pub fn find_kver_in_modules(modules: &[(String, bool)]) -> (r: Option<String>)
    ensures
        r.deep_view() == kver_in(modules.deep_view()),
{
    let ghost all = modules.deep_view();
    let mut i: usize = 0;
    assert(all.skip(0) =~= all);
    while i < modules.len()
        invariant
            all == modules.deep_view(),
            i <= modules@.len(),
            kver_in(all) == kver_in(all.skip(i as int)),
        decreases modules@.len() - i,
    {
        proof {
            assert(all.skip(i as int)[0] == (modules@[i as int].0@, modules@[i as int].1));
            assert(all.skip(i as int).skip(1) =~= all.skip(i + 1));
        }
        if modules[i].1 {
            return Some(modules[i].0.clone());
        }
        i = i + 1;
    }
    None
}

/// Whether the entry is a deployment of that kind, its kernel aside: of OSTree
/// the first of its checksum, of composefs one named by its digest and with an
/// origin.
pub open spec fn is_deployment(e: DeployEntryView, composefs: bool) -> bool {
    e.is_dir && if composefs {
        e.name != "state"@ && e.name.len() >= 12 && all_hex(e.name) && e.has_origin
    } else {
        finishes(e.name, ".0"@)
    }
}

/// The bootable deployment that the entry is, if it is one.
pub open spec fn deployment_of(
    base: Seq<char>,
    e: DeployEntryView,
    composefs: bool,
) -> Option<BootDeploymentView> {
    match kver_in(e.modules) {
        None => None,
        Some(kver) => if !is_deployment(e, composefs) || !composefs && !e.kernels.contains(kver) {
            None
        } else {
            let root = join_path(base, e.name);
            let modules = join_path(join_path(root, "usr/lib/modules"@), kver);
            Some(
                BootDeploymentView {
                    root,
                    checksum: if composefs {
                        e.name
                    } else {
                        trim_end_text(e.name, ".0"@)
                    },
                    kver,
                    vmlinuz: join_path(modules, "vmlinuz"@),
                    initrd: join_path(modules, "initramfs.img"@),
                    initrd_exists: e.initrds.contains(kver),
                    is_composefs: composefs,
                },
            )
        },
    }
}

/// The bootable deployments among the entries.
pub open spec fn deployments_in(
    base: Seq<char>,
    entries: Seq<DeployEntryView>,
    composefs: bool,
) -> Seq<BootDeploymentView>
    decreases entries.len(),
{
    if entries.len() == 0 {
        Seq::empty()
    } else {
        match deployment_of(base, entries.last(), composefs) {
            Some(d) => deployments_in(base, entries.drop_last(), composefs).push(d),
            None => deployments_in(base, entries.drop_last(), composefs),
        }
    }
}

/// The bootable deployment that the entry is, if it is one.
fn bootable(base: &str, entry: &DeployEntry, composefs: bool) -> (r: Option<BootDeployment>)
    ensures
        r.deep_view() == deployment_of(base@, entry.deep_view(), composefs),
{
    let name: &str = entry.name.as_str();
    let fits: bool = entry.is_dir && if composefs {
        !same(name, "state") && name.unicode_len() >= 12 && is_all_hex(name) && entry.has_origin
    } else {
        ends_with(name, ".0")
    };
    let kver: String = match find_kver_in_modules(entry.modules.as_slice()) {
        Some(k) => k,
        None => {
            return None;
        },
    };
    if !fits || (!composefs && !list_contains(entry.kernels.as_slice(), kver.as_str())) {
        return None;
    }
    let root: String = path_join(base, name);
    let all_modules: String = path_join(root.as_str(), "usr/lib/modules");
    let modules: String = path_join(all_modules.as_str(), kver.as_str());
    let vmlinuz: String = path_join(modules.as_str(), "vmlinuz");
    let initrd: String = path_join(modules.as_str(), "initramfs.img");
    let checksum: String = if composefs {
        name.to_owned()
    } else {
        trimmed_end_text(name, ".0")
    };
    let initrd_exists: bool = list_contains(entry.initrds.as_slice(), kver.as_str());
    Some(
        BootDeployment {
            root,
            checksum,
            kver,
            vmlinuz,
            initrd,
            initrd_exists,
            is_composefs: composefs,
        },
    )
}

/// Adds the bootable deployments among the entries.
fn add_deployments(
    list: &mut Vec<BootDeployment>,
    base: &str,
    entries: &[DeployEntry],
    composefs: bool,
)
    ensures
        final(list).deep_view() == old(list).deep_view() + deployments_in(
            base@,
            entries.deep_view(),
            composefs,
        ),
{
    let ghost start = list.deep_view();
    let ghost all = entries.deep_view();
    let mut i: usize = 0;
    assert(all.take(0) =~= Seq::empty());
    assert(list.deep_view() =~= start + deployments_in(base@, all.take(0), composefs));
    while i < entries.len()
        invariant
            all == entries.deep_view(),
            i <= entries@.len(),
            list.deep_view() == start + deployments_in(base@, all.take(i as int), composefs),
        decreases entries@.len() - i,
    {
        proof {
            assert(all[i as int] == entries@[i as int].deep_view());
            assert(all.take(i + 1).drop_last() =~= all.take(i as int));
            assert(all.take(i + 1).last() == all[i as int]);
        }
        let ghost before = list.deep_view();
        match bootable(base, &entries[i], composefs) {
            Some(d) => {
                list.push(d);
                assert(list.deep_view() =~= before.push(d.deep_view()));
                assert(list.deep_view() =~= start + deployments_in(
                    base@,
                    all.take(i + 1),
                    composefs,
                ));
            },
            None => {},
        }
        i = i + 1;
    }
    assert(all.take(i as int) =~= all);
}

/// The bootable deployments under two directories, those of OSTree first. An
/// OSTree deployment without its kernel is not bootable.
pub fn enumerate_deployments_from(
    ostree_base: &str,
    ostree_entries: &[DeployEntry],
    composefs_base: &str,
    composefs_entries: &[DeployEntry],
) -> (r: Vec<BootDeployment>)
    ensures
        r.deep_view() == deployments_in(ostree_base@, ostree_entries.deep_view(), false)
            + deployments_in(composefs_base@, composefs_entries.deep_view(), true),
{
    let mut r: Vec<BootDeployment> = Vec::new();
    assert(r.deep_view() =~= Seq::empty());
    add_deployments(&mut r, ostree_base, ostree_entries, false);
    assert(r.deep_view() =~= deployments_in(ostree_base@, ostree_entries.deep_view(), false));
    add_deployments(&mut r, composefs_base, composefs_entries, true);
    r
}

} // verus!

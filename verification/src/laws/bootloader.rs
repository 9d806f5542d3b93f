//! Laws of the change of bootloader.

use vstd::prelude::*;

use crate::migration::boot_deployments::{
    deployment_of, deployments_in, kver_in, BootDeploymentView, DeployEntryView,
};
use crate::migration::bootloader::{BlsEntryView, BootStepView};
use crate::migration::bootloader::live::{
    id_in_line, initrd_argv, kernel_among, labelled_id, populate_steps,
};
use crate::migration::standalone_bootloader::{
    all_entry_steps, all_kernel_steps, binary_steps, entry_id, grub2_steps, grub_default_steps,
    kernel_dir, kernel_name, kernel_steps, plain_args, planned_entries, planned_entry, saved_lines,
    standalone_gate, systemd_boot_steps, with_saved_default, EntryInputsView,
    StandaloneRefusalView, TargetBootloader,
};
use crate::preflight::system_info::SystemInfo;
use crate::text::chars::is_digit;
use crate::text::numbers::{decimal, lemma_decimal_value};
use crate::text::paths::join_path;
use crate::text::pieces::{
    fields, is_word, lemma_fields_are_words, lemma_fields_of_joined, lines, text_of, trim,
    trim_end_text,
};
use crate::text::search::{all_hex, begins, finishes, holds};

verus! {

proof fn lemma_plain_args_are(args: Seq<Seq<char>>)
    requires
        forall|i: int| 0 <= i < args.len() ==> is_word(#[trigger] args[i]),
    ensures
        plain_args(args) == args.filter(|a: Seq<char>| !begins(a, "composefs="@)),
        forall|i: int| 0 <= i < plain_args(args).len() ==> is_word(#[trigger] plain_args(args)[i]),
    decreases args.len(),
{
    reveal(Seq::filter);
    if args.len() > 0 {
        let d = args.drop_last();
        assert forall|i: int| 0 <= i < d.len() implies is_word(#[trigger] d[i]) by {
            assert(d[i] == args[i]);
        }
        lemma_plain_args_are(d);
        assert(is_word(args[args.len() - 1]));
        let rest = plain_args(d);
        let all = plain_args(args);
        assert forall|i: int| 0 <= i < all.len() implies is_word(#[trigger] all[i]) by {
            if i < rest.len() {
                assert(all[i] == rest[i]);
            }
        }
    }
}

/// The kernel arguments of the running system are carried over: the entry of an
/// OSTree deployment has each of them that does not begin with `composefs=`, as
/// often and in the same order, and no other; that of a composefs deployment has
/// the very text.
pub proof fn law_kernel_arguments_are_carried_over(
    to: TargetBootloader,
    token: Seq<char>,
    inputs: EntryInputsView,
    deps: Seq<BootDeploymentView>,
    i: int,
)
    requires
        0 <= i < deps.len(),
    ensures
        ({
            let options = planned_entries(to, token, inputs, deps)[i].options;
            &&& deps[i].is_composefs ==> options == inputs.options
            &&& !deps[i].is_composefs ==> fields(options) == fields(inputs.options).filter(
                |a: Seq<char>| !begins(a, "composefs="@),
            )
        }),
{
    lemma_fields_are_words(inputs.options);
    lemma_plain_args_are(fields(inputs.options));
    lemma_fields_of_joined(plain_args(fields(inputs.options)));
}

/// Each deployment has its own entry, in its place: the title says of which kind
/// it is, and the version is that of its kernel.
pub proof fn law_entry_names_its_deployment(
    to: TargetBootloader,
    token: Seq<char>,
    inputs: EntryInputsView,
    deps: Seq<BootDeploymentView>,
    i: int,
)
    requires
        0 <= i < deps.len(),
    ensures
        planned_entries(to, token, inputs, deps).len() == deps.len(),
        ({
            let e = planned_entries(to, token, inputs, deps)[i];
            &&& e.version == deps[i].kver
            &&& deps[i].is_composefs ==> begins(e.title, inputs.composefs_title)
            &&& !deps[i].is_composefs ==> begins(e.title, inputs.ostree_title)
            &&& finishes(e.filename, ".conf"@)
            &&& e.initrds.len() == 1
        }),
{
    let e = planned_entries(to, token, inputs, deps)[i];
    let t = if deps[i].is_composefs {
        inputs.composefs_title
    } else {
        inputs.ostree_title
    };
    assert(e.title.take(t.len() as int) =~= t);
    assert(e.filename.skip(e.filename.len() - ".conf"@.len()) =~= ".conf"@);
}

/// Whether the text can be one part of a path.
pub open spec fn is_part(p: Seq<char>) -> bool {
    p.len() > 0 && p[0] != '/' && p.last() != '/'
}

/// Whether the path is that of a directory, without a slash behind it.
pub open spec fn is_dir_path(p: Seq<char>) -> bool {
    p.len() > 0 && p.last() != '/'
}

proof fn lemma_join(base: Seq<char>, rel: Seq<char>)
    requires
        is_dir_path(base),
        is_part(rel),
    ensures
        join_path(base, rel) == base + seq!['/'] + rel,
        is_dir_path(join_path(base, rel)),
{
    reveal_strlit("/");
    assert(join_path(base, rel) =~= base + seq!['/'] + rel);
}

/// Whether the steps copy the file to the place.
pub open spec fn copies(steps: Seq<BootStepView>, from: Seq<char>, to: Seq<char>) -> bool {
    exists|k: int| 0 <= k < steps.len() && is_copy(#[trigger] steps[k], from, to)
}

/// Whether the step copies the file to the place.
pub open spec fn is_copy(s: BootStepView, from: Seq<char>, to: Seq<char>) -> bool {
    s matches BootStepView::Do(d) && d is Copy && d->Copy_from == from && d->Copy_to == to
}

/// Where the files of the bootloader are, and what of them is named for it.
proof fn lemma_entry_points(
    to: TargetBootloader,
    boot: Seq<char>,
    token: Seq<char>,
    inputs: EntryInputsView,
    dep: BootDeploymentView,
    priority: nat,
)
    requires
        is_dir_path(boot),
        to == TargetBootloader::SystemdBoot ==> is_part(token) && is_part(dep.kver),
    ensures
        ({
            let steps = kernel_steps(to, boot, token, inputs, dep, priority, false);
            let e = planned_entry(to, token, inputs, dep, priority);
            &&& steps.len() >= 2
            &&& is_copy(steps[1], dep.vmlinuz, boot + e.linux)
            &&& dep.initrd_exists ==> steps.len() == 3 && is_copy(
                steps[2],
                dep.initrd,
                boot + e.initrds[0],
            )
        }),
{
    reveal_strlit("/");
    reveal_strlit("linux");
    reveal_strlit("vmlinuz");
    reveal_strlit("initrd");
    reveal_strlit("/initrd");
    reveal_strlit("bootc-");
    reveal_strlit("-");
    let dir = kernel_dir(to, boot, token, dep, priority);
    let e = planned_entry(to, token, inputs, dep, priority);
    lemma_decimal_value(priority);
    match to {
        TargetBootloader::SystemdBoot => {
            lemma_join(boot, token);
            lemma_join(join_path(boot, token), dep.kver);
        },
        TargetBootloader::Grub2 => {
            let place = crate::migration::standalone_bootloader::kernel_place(
                to,
                token,
                dep,
                priority,
            );
            let d = decimal(priority);
            assert(place.last() == d[d.len() - 1]);
            assert(is_digit(d[d.len() - 1]));
            assert(place[0] == 'b');
            lemma_join(boot, place);
        },
    }
    lemma_join(dir, kernel_name(to));
    lemma_join(dir, "initrd"@);
    assert(join_path(dir, kernel_name(to)) =~= boot + e.linux);
    assert(join_path(dir, "initrd"@) =~= boot + e.initrds[0]);
}

proof fn lemma_kernels(
    to: TargetBootloader,
    boot: Seq<char>,
    token: Seq<char>,
    inputs: EntryInputsView,
    deps: Seq<BootDeploymentView>,
    i: int,
)
    requires
        0 <= i < deps.len(),
        is_dir_path(boot),
        to == TargetBootloader::SystemdBoot ==> is_part(token) && is_part(deps[i].kver),
    ensures
        ({
            let steps = all_kernel_steps(to, boot, token, inputs, deps, false);
            let e = planned_entry(to, token, inputs, deps[i], i as nat);
            &&& copies(steps, deps[i].vmlinuz, boot + e.linux)
            &&& deps[i].initrd_exists ==> copies(steps, deps[i].initrd, boot + e.initrds[0])
        }),
    decreases deps.len(),
{
    let d = deps.drop_last();
    let before = all_kernel_steps(to, boot, token, inputs, d, false);
    let all = all_kernel_steps(to, boot, token, inputs, deps, false);
    let n = before.len() as int;
    let e = planned_entry(to, token, inputs, deps[i], i as nat);
    if i < d.len() {
        assert(d[i] == deps[i]);
        lemma_kernels(to, boot, token, inputs, d, i);
        let k = choose|k: int|
            0 <= k < before.len() && is_copy(#[trigger] before[k], deps[i].vmlinuz, boot + e.linux);
        assert(all[k] == before[k]);
        if deps[i].initrd_exists {
            let k = choose|k: int|
                0 <= k < before.len() && is_copy(
                    #[trigger] before[k],
                    deps[i].initrd,
                    boot + e.initrds[0],
                );
            assert(all[k] == before[k]);
        }
    } else {
        lemma_entry_points(to, boot, token, inputs, deps[i], i as nat);
        let own = kernel_steps(to, boot, token, inputs, deps[i], i as nat, false);
        assert(all[n + 1] == own[1]);
        if deps[i].initrd_exists {
            assert(all[n + 2] == own[2]);
        }
    }
}

proof fn lemma_entry_is_placed(
    to: TargetBootloader,
    boot: Seq<char>,
    entries: Seq<BlsEntryView>,
    i: int,
)
    requires
        0 <= i < entries.len(),
    ensures
        ({
            let steps = all_entry_steps(to, boot, entries);
            &&& steps.len() == 2 * entries.len()
            &&& places(steps[2 * i], steps[2 * i + 1], boot, entries[i])
        }),
    decreases entries.len(),
{
    let d = entries.drop_last();
    lemma_entry_steps_len(to, boot, d);
    lemma_entry_steps_len(to, boot, entries);
    if i < d.len() {
        lemma_entry_is_placed(to, boot, d, i);
        assert(d[i] == entries[i]);
    }
}

proof fn lemma_entry_steps_len(to: TargetBootloader, boot: Seq<char>, entries: Seq<BlsEntryView>)
    ensures
        all_entry_steps(to, boot, entries).len() == 2 * entries.len(),
    decreases entries.len(),
{
    if entries.len() > 0 {
        lemma_entry_steps_len(to, boot, entries.drop_last());
    }
}

/// Whether the first step writes the entry to a file and the second moves that
/// to its name among the entries of the menu.
pub open spec fn places(
    write: BootStepView,
    rename: BootStepView,
    boot: Seq<char>,
    entry: BlsEntryView,
) -> bool {
    &&& write is WriteEntry
    &&& write->WriteEntry_entry == entry
    &&& rename matches BootStepView::Do(d) && d is Rename && d->Rename_from
        == write->WriteEntry_path && d->Rename_to == join_path(
        join_path(boot, "loader/entries"@),
        entry.filename,
    )
}

/// Whether the entry is put among those of the menu by two steps, one behind the
/// other, with everything before them in `before`.
pub open spec fn is_placed(steps: Seq<BootStepView>, boot: Seq<char>, entry: BlsEntryView, at: int) -> bool {
    0 <= at && at + 1 < steps.len() && places(steps[at], steps[at + 1], boot, entry)
}

/// What is behind an entry is where it points: under systemd-boot each
/// deployment's kernel, and its initrd where it has one, is copied to the place
/// on the partition that its entry names, and the entry is put into the menu
/// only then.
pub proof fn law_systemd_boot_entries_point_at_their_kernels(
    esp: Seq<char>,
    token: Seq<char>,
    inputs: EntryInputsView,
    deps: Seq<BootDeploymentView>,
    from_image: Option<Seq<char>>,
    host_has_binary: bool,
    i: int,
)
    requires
        0 <= i < deps.len(),
        is_dir_path(esp),
        is_part(token),
        is_part(deps[i].kver),
    ensures
        ({
            let steps = systemd_boot_steps(
                esp,
                token,
                inputs,
                deps,
                false,
                from_image,
                host_has_binary,
            );
            let e = planned_entries(TargetBootloader::SystemdBoot, token, inputs, deps)[i];
            exists|at: int|
                #![trigger steps[at]]
                is_placed(steps, esp, e, at) && copies(
                    steps.take(at),
                    deps[i].vmlinuz,
                    esp + e.linux,
                ) && (deps[i].initrd_exists ==> copies(
                    steps.take(at),
                    deps[i].initrd,
                    esp + e.initrds[0],
                ))
        }),
{
    let to = TargetBootloader::SystemdBoot;
    let entries = planned_entries(to, token, inputs, deps);
    let e = entries[i];
    let steps = systemd_boot_steps(esp, token, inputs, deps, false, from_image, host_has_binary);
    let a = binary_steps(esp, from_image, host_has_binary);
    let kernels = all_kernel_steps(to, esp, token, inputs, deps, false);
    let writes = all_entry_steps(to, esp, entries);
    lemma_kernels(to, esp, token, inputs, deps, i);
    lemma_entry_is_placed(to, esp, entries, i);
    let k0 = a.len() + 1;
    let w0 = k0 + kernels.len() + 1;
    let at = w0 + 2 * i;
    assert forall|j: int| 0 <= j < kernels.len() implies steps[k0 + j] == #[trigger] kernels[j] by {}
    assert(steps[at] == writes[2 * i]);
    assert(steps[at + 1] == writes[2 * i + 1]);
    let before = steps.take(at);
    let k = choose|k: int|
        0 <= k < kernels.len() && is_copy(#[trigger] kernels[k], deps[i].vmlinuz, esp + e.linux);
    assert(before[k0 + k] == kernels[k]);
    if deps[i].initrd_exists {
        let k = choose|k: int|
            0 <= k < kernels.len() && is_copy(
                #[trigger] kernels[k],
                deps[i].initrd,
                esp + e.initrds[0],
            );
        assert(before[k0 + k] == kernels[k]);
    }
    assert(is_placed(steps, esp, e, at));
}

/// What is behind an entry is where it points, under GRUB too.
pub proof fn law_grub_entries_point_at_their_kernels(
    inputs: EntryInputsView,
    deps: Seq<BootDeploymentView>,
    grubenv_exists: bool,
    settings: Option<Seq<char>>,
    i: int,
)
    requires
        0 <= i < deps.len(),
    ensures
        ({
            let steps = grub2_steps(inputs, deps, false, grubenv_exists, settings);
            let e = planned_entries(TargetBootloader::Grub2, ""@, inputs, deps)[i];
            exists|at: int|
                #![trigger steps[at]]
                is_placed(steps, "/boot"@, e, at) && copies(
                    steps.take(at),
                    deps[i].vmlinuz,
                    "/boot"@ + e.linux,
                ) && (deps[i].initrd_exists ==> copies(
                    steps.take(at),
                    deps[i].initrd,
                    "/boot"@ + e.initrds[0],
                ))
        }),
{
    reveal_strlit("/boot");
    let to = TargetBootloader::Grub2;
    let boot = "/boot"@;
    let entries = planned_entries(to, ""@, inputs, deps);
    let e = entries[i];
    let steps = grub2_steps(inputs, deps, false, grubenv_exists, settings);
    let kernels = all_kernel_steps(to, boot, ""@, inputs, deps, false);
    let writes = all_entry_steps(to, boot, entries);
    lemma_kernels(to, boot, ""@, inputs, deps, i);
    lemma_entry_is_placed(to, boot, entries, i);
    let k0: int = 2;
    let w0 = k0 + kernels.len() + 1;
    let at = w0 + 2 * i;
    assert forall|j: int| 0 <= j < kernels.len() implies steps[k0 + j] == #[trigger] kernels[j] by {}
    assert(steps[at] == writes[2 * i]);
    assert(steps[at + 1] == writes[2 * i + 1]);
    let before = steps.take(at);
    let k = choose|k: int|
        0 <= k < kernels.len() && is_copy(#[trigger] kernels[k], deps[i].vmlinuz, boot + e.linux);
    assert(before[k0 + k] == kernels[k]);
    if deps[i].initrd_exists {
        let k = choose|k: int|
            0 <= k < kernels.len() && is_copy(
                #[trigger] kernels[k],
                deps[i].initrd,
                boot + e.initrds[0],
            );
        assert(before[k0 + k] == kernels[k]);
    }
    assert(is_placed(steps, boot, e, at));
}

/// Without systemd-boot on the host or an image to take it from, a change to it
/// stops before anything is copied or written; otherwise it is installed for the
/// firmware and as the loader of removable media, and nothing stops it.
pub proof fn law_systemd_boot_is_installed_or_refused(
    esp: Seq<char>,
    token: Seq<char>,
    inputs: EntryInputsView,
    deps: Seq<BootDeploymentView>,
    from_image: Option<Seq<char>>,
    host_has_binary: bool,
)
    ensures
        ({
            let steps = systemd_boot_steps(
                esp,
                token,
                inputs,
                deps,
                false,
                from_image,
                host_has_binary,
            );
            let installed = join_path(join_path(esp, "EFI/systemd"@), "systemd-bootx64.efi"@);
            let removable = join_path(join_path(esp, "EFI/BOOT"@), "BOOTX64.EFI"@);
            let binary = "/usr/lib/systemd/boot/efi/systemd-bootx64.efi"@;
            &&& from_image is None && !host_has_binary ==> {
                &&& steps[2] is Stop
                &&& forall|k: int|
                    0 <= k < 2 ==> (#[trigger] steps[k]) is Do && steps[k]->Do_0 is MakeDir
            }
            &&& from_image is None && host_has_binary ==> copies(steps, binary, installed) && copies(
                steps,
                binary,
                removable,
            )
            &&& from_image is Some ==> copies(steps, installed, removable) && exists|k: int|
                0 <= k < steps.len() && (#[trigger] steps[k]) is Extract && steps[k]->image
                    == from_image->0 && steps[k]->file == binary && steps[k]->Extract_to
                    == installed
        }),
{
    let steps = systemd_boot_steps(esp, token, inputs, deps, false, from_image, host_has_binary);
    let a = binary_steps(esp, from_image, host_has_binary);
    assert forall|j: int| 0 <= j < a.len() implies steps[j] == #[trigger] a[j] by {}
    let installed = join_path(join_path(esp, "EFI/systemd"@), "systemd-bootx64.efi"@);
    let removable = join_path(join_path(esp, "EFI/BOOT"@), "BOOTX64.EFI"@);
    let binary = "/usr/lib/systemd/boot/efi/systemd-bootx64.efi"@;
    if from_image is Some {
        assert(steps[3] == a[3]);
        assert(steps[4] == a[4]);
        assert(steps[3] is Extract);
        assert(is_copy(steps[4], installed, removable));
    } else if host_has_binary {
        assert(steps[3] == a[3]);
        assert(steps[4] == a[4]);
        assert(is_copy(steps[3], binary, installed));
        assert(is_copy(steps[4], binary, removable));
    } else {
        assert(steps[0] == a[0]);
        assert(steps[1] == a[1]);
        assert(steps[2] == a[2]);
    }
}

/// The entry of the first deployment is what GRUB boots by default, where GRUB
/// keeps its choice in an environment.
pub proof fn law_grub_boots_the_first_deployment(
    inputs: EntryInputsView,
    deps: Seq<BootDeploymentView>,
    settings: Option<Seq<char>>,
)
    requires
        deps.len() > 0,
    ensures
        ({
            let steps = grub2_steps(inputs, deps, false, true, settings);
            let name = planned_entries(TargetBootloader::Grub2, ""@, inputs, deps)[0].filename;
            exists|k: int, id: Seq<char>|
                #![trigger steps[k], seq![id]]
                0 <= k < steps.len() && name == id + ".conf"@ && steps[k] is Either
                    && steps[k]->first == seq![
                    "grub2-editenv"@,
                    "/boot/grub2/grubenv"@,
                    "set"@,
                    "saved_entry="@ + id,
                ] && steps[k]->otherwise == seq!["grub2-set-default"@, id]
        }),
{
    let to = TargetBootloader::Grub2;
    let entries = planned_entries(to, ""@, inputs, deps);
    let name = entries[0].filename;
    let id = entry_id(name);
    let steps = grub2_steps(inputs, deps, false, true, settings);
    let kernels = all_kernel_steps(to, "/boot"@, ""@, inputs, deps, false);
    let writes = all_entry_steps(to, "/boot"@, entries);
    let k = 2 + kernels.len() + 1 + writes.len();
    assert(steps[k as int] == grub_default_steps(id, true)[0]);
    lemma_entry_id(inputs, deps[0], name);
    assert(name == id + ".conf"@);
    assert(seq![id].len() == 1);
}

proof fn lemma_entry_id(inputs: EntryInputsView, dep: BootDeploymentView, name: Seq<char>)
    requires
        name == planned_entry(TargetBootloader::Grub2, ""@, inputs, dep, 0).filename,
    ensures
        entry_id(name) + ".conf"@ == name,
{
    reveal_strlit(".conf");
    let e = ".conf"@;
    let base = name.take(name.len() - e.len());
    assert(name.skip(name.len() - e.len()) =~= e);
    lemma_decimal_value(0);
    let d = decimal(0);
    assert(base[base.len() - 1] == d[d.len() - 1]);
    assert(is_digit(d[d.len() - 1]));
    if finishes(base, e) {
        assert(base.skip(base.len() - e.len())[4] == e[4]);
    }
    reveal_with_fuel(trim_end_text, 2);
    assert(entry_id(name) == base);
    assert(base + e =~= name);
}

/// The line with GRUB's default left to what was saved.
pub open spec fn line_saved(l: Seq<char>) -> Seq<char> {
    if begins(l, "GRUB_DEFAULT="@) {
        "GRUB_DEFAULT=saved"@
    } else {
        l
    }
}

proof fn lemma_text_of_push(ls: Seq<Seq<char>>, l: Seq<char>)
    ensures
        text_of(ls.push(l)) == text_of(ls) + l + "\n"@,
    decreases ls.len(),
{
    let all = ls.push(l);
    if ls.len() == 0 {
        assert(all.skip(1) =~= Seq::<Seq<char>>::empty());
        assert(text_of(all.skip(1)) =~= Seq::<char>::empty());
        assert(all[0] == l);
        assert(text_of(all) =~= text_of(ls) + l + "\n"@);
    } else {
        assert(all.skip(1) =~= ls.skip(1).push(l));
        lemma_text_of_push(ls.skip(1), l);
        assert(text_of(all) =~= text_of(ls) + l + "\n"@);
    }
}

proof fn lemma_saved_lines(ls: Seq<Seq<char>>)
    ensures
        saved_lines(ls) == text_of(ls.map_values(|l: Seq<char>| line_saved(l))),
    decreases ls.len(),
{
    reveal_strlit("GRUB_DEFAULT=saved\n");
    reveal_strlit("GRUB_DEFAULT=saved");
    reveal_strlit("\n");
    let f = |l: Seq<char>| line_saved(l);
    if ls.len() > 0 {
        let d = ls.drop_last();
        lemma_saved_lines(d);
        lemma_text_of_push(d.map_values(f), f(ls.last()));
        assert(ls.map_values(f) =~= d.map_values(f).push(f(ls.last())));
        assert("GRUB_DEFAULT=saved\n"@ =~= "GRUB_DEFAULT=saved"@ + "\n"@);
        assert(saved_lines(ls) =~= text_of(ls.map_values(f)));
    }
}

/// In GRUB's settings every line that sets the default is replaced by one that
/// leaves it to what was saved, every other line stays in its place, and where
/// none set it such a line is added.
pub proof fn law_grub_default_is_left_to_what_was_saved(existing: Seq<char>)
    ensures
        ({
            let ls = lines(existing);
            let saved = ls.map_values(|l: Seq<char>| line_saved(l));
            &&& (exists|i: int| 0 <= i < ls.len() && begins(#[trigger] ls[i], "GRUB_DEFAULT="@))
                ==> with_saved_default(existing) == text_of(saved)
            &&& (forall|i: int| 0 <= i < ls.len() ==> !begins(#[trigger] ls[i], "GRUB_DEFAULT="@))
                ==> with_saved_default(existing) == text_of(saved.push("GRUB_DEFAULT=saved"@))
        }),
{
    reveal_strlit("GRUB_DEFAULT=saved\n");
    reveal_strlit("GRUB_DEFAULT=saved");
    reveal_strlit("\n");
    let ls = lines(existing);
    let saved = ls.map_values(|l: Seq<char>| line_saved(l));
    lemma_saved_lines(ls);
    lemma_text_of_push(saved, "GRUB_DEFAULT=saved"@);
    assert("GRUB_DEFAULT=saved\n"@ =~= "GRUB_DEFAULT=saved"@ + "\n"@);
    assert(text_of(saved) + "GRUB_DEFAULT=saved\n"@ =~= text_of(saved) + "GRUB_DEFAULT=saved"@
        + "\n"@);
    if exists|i: int| 0 <= i < ls.len() && begins(#[trigger] ls[i], "GRUB_DEFAULT="@) {
        let i = choose|i: int| 0 <= i < ls.len() && begins(#[trigger] ls[i], "GRUB_DEFAULT="@);
        assert(crate::migration::standalone_bootloader::sets_grub_default(ls[i]));
    }
    if crate::migration::standalone_bootloader::has_grub_default(ls) {
        let i = choose|i: int|
            0 <= i < ls.len() && crate::migration::standalone_bootloader::sets_grub_default(
                #[trigger] ls[i],
            );
        assert(begins(ls[i], "GRUB_DEFAULT="@));
    }
}

/// The change to systemd-boot is allowed exactly where it was asked for, there is
/// a deployment, and it was forced or the system has UEFI with writable variables
/// and an EFI system partition with 50 MB to spare; that to GRUB exactly where
/// it was asked for and there is a deployment.
pub proof fn law_when_the_bootloader_is_changed(
    to: Seq<char>,
    force: bool,
    sys: SystemInfo,
    deployments: nat,
)
    ensures
        ({
            let g = standalone_gate(to, force, sys, deployments);
            let asked = to == "systemd-boot"@;
            &&& g == Ok::<TargetBootloader, StandaloneRefusalView>(TargetBootloader::SystemdBoot)
                <==> asked && deployments > 0 && (force || sys.is_uefi && sys.nvram_writable
                && sys.esp_detected && sys.esp_free_space_bytes >= 50 * 1024 * 1024)
            &&& g == Ok::<TargetBootloader, StandaloneRefusalView>(TargetBootloader::Grub2) <==> to
                == "grub2"@ && deployments > 0
            &&& asked && !force && !sys.is_uefi ==> g == Err::<
                TargetBootloader,
                StandaloneRefusalView,
            >(StandaloneRefusalView::NotUefi)
            &&& asked && !force && sys.is_uefi && !sys.nvram_writable ==> g == Err::<
                TargetBootloader,
                StandaloneRefusalView,
            >(StandaloneRefusalView::NvramNotWritable)
            &&& asked && !force && sys.is_uefi && sys.nvram_writable && !sys.esp_detected ==> g
                == Err::<TargetBootloader, StandaloneRefusalView>(StandaloneRefusalView::NoEsp)
            &&& asked && !force && sys.is_uefi && sys.nvram_writable && sys.esp_detected
                && sys.esp_free_space_bytes < 50 * 1024 * 1024 ==> g == Err::<
                TargetBootloader,
                StandaloneRefusalView,
            >(StandaloneRefusalView::EspTooFull)
            &&& !asked && deployments == 0 ==> g == Err::<TargetBootloader, StandaloneRefusalView>(
                StandaloneRefusalView::NoDeployments,
            )
            &&& !asked && to != "grub2"@ && deployments > 0 ==> g == Err::<
                TargetBootloader,
                StandaloneRefusalView,
            >(StandaloneRefusalView::UnknownTarget(to))
        }),
{
    reveal_strlit("systemd-boot");
    reveal_strlit("grub2");
    assert("systemd-boot"@.len() != "grub2"@.len());
}

/// A directory of deployments holds a bootable one where an entry is a directory
/// with modules for a kernel, and: under OSTree it is named for a checksum as
/// its first deployment, and the kernel is there; under composefs it is named by
/// a digest of at least twelve hexadecimal digits, and has its origin.
pub proof fn law_what_can_be_booted(base: Seq<char>, e: DeployEntryView, composefs: bool)
    ensures
        ({
            let d = deployment_of(base, e, composefs);
            &&& !composefs ==> (d is Some <==> e.is_dir && finishes(e.name, ".0"@) && (kver_in(
                e.modules,
            ) matches Some(k) && e.kernels.contains(k)))
            &&& composefs ==> (d is Some <==> e.is_dir && e.has_origin && e.name.len() >= 12
                && all_hex(e.name) && kver_in(e.modules) is Some)
            &&& d matches Some(b) ==> {
                &&& b.root == join_path(base, e.name)
                &&& kver_in(e.modules) == Some(b.kver)
                &&& b.is_composefs == composefs
                &&& composefs ==> b.checksum == e.name
                &&& b.initrd_exists == e.initrds.contains(b.kver)
                &&& finishes(b.vmlinuz, "/vmlinuz"@)
                &&& finishes(b.initrd, "/initramfs.img"@)
            }
        }),
{
    reveal_strlit("state");
    reveal_strlit("usr/lib/modules");
    reveal_strlit("/vmlinuz");
    reveal_strlit("vmlinuz");
    reveal_strlit("/initramfs.img");
    reveal_strlit("initramfs.img");
    reveal_strlit("/");
    match deployment_of(base, e, composefs) {
        Some(b) => {
            let modules = join_path(
                join_path(join_path(base, e.name), "usr/lib/modules"@),
                b.kver,
            );
            lemma_file_in(modules, "vmlinuz"@);
            lemma_file_in(modules, "initramfs.img"@);
            assert("/vmlinuz"@ =~= seq!['/'] + "vmlinuz"@);
            assert("/initramfs.img"@ =~= seq!['/'] + "initramfs.img"@);
            lemma_modules_not_empty(join_path(join_path(base, e.name), "usr/lib/modules"@), b.kver);
        },
        None => {},
    }
}

proof fn lemma_modules_not_empty(a: Seq<char>, b: Seq<char>)
    requires
        a.len() > 0,
    ensures
        join_path(a, b).len() > 0,
{
}

proof fn lemma_file_in(dir: Seq<char>, name: Seq<char>)
    requires
        name.len() > 0,
        name[0] != '/',
    ensures
        dir.len() > 0 ==> finishes(join_path(dir, name), seq!['/'] + name),
{
    reveal_strlit("/");
    let p = join_path(dir, name);
    let s = seq!['/'] + name;
    if dir.len() > 0 {
        if dir.last() == '/' {
            assert(p == dir + name);
            assert(p.skip(p.len() - s.len()) =~= s);
        } else {
            assert(p =~= dir + seq!['/'] + name);
            assert(p.skip(p.len() - s.len()) =~= s);
        }
    }
}

/// The kernel version is that of the first directory listed.
pub proof fn law_kernel_is_the_first_directory(modules: Seq<(Seq<char>, bool)>, i: int)
    requires
        0 <= i < modules.len(),
        modules[i].1,
        forall|j: int| 0 <= j < i ==> !(#[trigger] modules[j]).1,
    ensures
        kver_in(modules) == Some(modules[i].0),
    decreases i,
{
    if i > 0 {
        let rest = modules.skip(1);
        assert(!modules[0].1);
        assert forall|j: int| 0 <= j < i - 1 implies !(#[trigger] rest[j]).1 by {
            assert(rest[j] == modules[j + 1]);
        }
        law_kernel_is_the_first_directory(rest, i - 1);
    }
}

/// The deployments of two runs of entries are those of the one and of the other.
pub proof fn law_deployments_are_found_one_by_one(
    base: Seq<char>,
    a: Seq<DeployEntryView>,
    b: Seq<DeployEntryView>,
    composefs: bool,
)
    ensures
        deployments_in(base, a + b, composefs) == deployments_in(base, a, composefs)
            + deployments_in(base, b, composefs),
        forall|e: DeployEntryView|
            deployments_in(base, seq![e], composefs) == #[trigger] opt_seq(
                deployment_of(base, e, composefs),
            ),
    decreases b.len(),
{
    assert forall|e: DeployEntryView|
        deployments_in(base, seq![e], composefs) == #[trigger] opt_seq(
            deployment_of(base, e, composefs),
        ) by {
        assert(seq![e].drop_last() =~= Seq::<DeployEntryView>::empty());
        reveal_with_fuel(deployments_in, 2);
        assert(deployments_in(base, seq![e], composefs) =~= opt_seq(
            deployment_of(base, e, composefs),
        ));
    }
    if b.len() == 0 {
        assert(a + b =~= a);
        assert(deployments_in(base, a, composefs) + deployments_in(base, b, composefs)
            =~= deployments_in(base, a, composefs));
    } else {
        law_deployments_are_found_one_by_one(base, a, b.drop_last(), composefs);
        assert((a + b).drop_last() =~= a + b.drop_last());
        assert((a + b).last() == b.last());
        assert(deployments_in(base, a + b, composefs) =~= deployments_in(base, a, composefs)
            + deployments_in(base, b, composefs));
    }
}

/// The value, if there is one, as a list.
pub open spec fn opt_seq(o: Option<BootDeploymentView>) -> Seq<BootDeploymentView> {
    match o {
        Some(d) => seq![d],
        None => Seq::empty(),
    }
}

/// The kernel of the host is that beside its modules, or else that in `/boot`,
/// of the very version.
pub proof fn law_kernel_of_the_host(kver: Seq<char>, existing: Seq<Seq<char>>)
    ensures
        ({
            let modules = "/usr/lib/modules/"@ + kver + "/vmlinuz"@;
            let boot = "/boot/vmlinuz-"@ + kver;
            &&& existing.contains(modules) ==> kernel_among(kver, existing) == Some(modules)
            &&& !existing.contains(modules) && existing.contains(boot) ==> kernel_among(
                kver,
                existing,
            ) == Some(boot)
            &&& !existing.contains(modules) && !existing.contains(boot) ==> kernel_among(
                kver,
                existing,
            ) is None
        }),
{
}

/// The initrd is built for the kernel of the version, at the place given.
pub proof fn law_initrd_is_built_for_the_kernel(
    kver: Seq<char>,
    dest: Seq<char>,
    existing: Seq<Seq<char>>,
)
    ensures
        ({
            let argv = initrd_argv(kver, dest, existing);
            &&& finishes(argv[0], "dracut"@)
            &&& argv.skip(1) == seq!["--force"@, "--kver"@, kver, dest]
            &&& argv[0] != "dracut"@ ==> existing.contains(argv[0])
            &&& existing.contains("/usr/bin/dracut"@) || existing.contains("/usr/sbin/dracut"@)
                ==> existing.contains(argv[0])
        }),
{
    reveal_strlit("dracut");
    reveal_strlit("/usr/bin/dracut");
    reveal_strlit("/usr/sbin/dracut");
    let argv = initrd_argv(kver, dest, existing);
    assert("dracut"@.skip(0) =~= "dracut"@);
    assert("/usr/bin/dracut"@.skip(9) =~= "dracut"@);
    assert("/usr/sbin/dracut"@.skip(10) =~= "dracut"@);
    assert(argv.skip(1) =~= seq!["--force"@, "--kver"@, kver, dest]);
}

/// The kernel and the initrd are copied below the token and the version.
pub proof fn law_kernel_goes_below_its_token(
    esp: Seq<char>,
    token: Seq<char>,
    kver: Seq<char>,
    vmlinuz: Seq<char>,
    initrd: Seq<char>,
)
    requires
        is_dir_path(esp),
        is_part(token),
        is_part(kver),
    ensures
        ({
            let steps = populate_steps(esp, token, kver, vmlinuz, initrd);
            let dir = esp + seq!['/'] + token + seq!['/'] + kver;
            &&& steps.len() == 3
            &&& steps[0] is MakeDir && steps[0]->MakeDir_path == dir
            &&& steps[1] is Copy && steps[1]->Copy_from == vmlinuz && steps[1]->Copy_to == dir
                + seq!['/'] + "linux"@
            &&& steps[2] is Copy && steps[2]->Copy_from == initrd && steps[2]->Copy_to == dir
                + seq!['/'] + "initrd"@
        }),
{
    reveal_strlit("linux");
    reveal_strlit("initrd");
    lemma_join(esp, token);
    lemma_join(join_path(esp, token), kver);
    let dir = join_path(join_path(esp, token), kver);
    lemma_join(dir, "linux"@);
    lemma_join(dir, "initrd"@);
    assert(dir =~= esp + seq!['/'] + token + seq!['/'] + kver);
}

/// The id of the entry with a label is the four digits in the first line that
/// holds the label.
pub proof fn law_id_of_the_first_labelled_line(
    ls: Seq<Seq<char>>,
    label: Seq<char>,
    i: int,
    id: Seq<char>,
    rest: Seq<char>,
)
    requires
        0 <= i < ls.len(),
        forall|j: int| 0 <= j < i ==> !holds(#[trigger] ls[j], label),
        holds(ls[i], label),
        trim(ls[i]) == "Boot"@ + id + rest,
        id.len() == 4,
        all_hex(id),
    ensures
        labelled_id(ls, label) == Some(id),
    decreases i,
{
    if i == 0 {
        let t = trim(ls[0]);
        let n = "Boot"@.len() as int;
        assert(t.take(n) =~= "Boot"@);
        let r = t.skip(n);
        assert(r =~= id + rest);
        assert(r.take(4) =~= id);
        assert(id_in_line(ls[0]) == Some(id));
    } else {
        let d = ls.skip(1);
        assert(!holds(ls[0], label));
        assert forall|j: int| 0 <= j < i - 1 implies !holds(#[trigger] d[j], label) by {
            assert(d[j] == ls[j + 1]);
        }
        law_id_of_the_first_labelled_line(d, label, i - 1, id, rest);
    }
}

/// An id is four hexadecimal digits behind `Boot` at the beginning of a line, and
/// there is none where no line has the label.
pub proof fn law_ids_are_four_digits(ls: Seq<Seq<char>>, line: Seq<char>, label: Seq<char>)
    ensures
        id_in_line(line) matches Some(id) ==> id.len() == 4 && all_hex(id) && begins(
            trim(line),
            "Boot"@ + id,
        ),
        (forall|j: int| 0 <= j < ls.len() ==> !holds(#[trigger] ls[j], label)) ==> labelled_id(
            ls,
            label,
        ) is None,
    decreases ls.len(),
{
    if let Some(id) = id_in_line(line) {
        let t = trim(line);
        let n = "Boot"@.len() as int;
        assert(t.take(n + 4) =~= "Boot"@ + id) by {
            assert forall|i: int| 0 <= i < n implies t[i] == "Boot"@[i] by {
                assert(t.take(n)[i] == t[i]);
            }
        }
    }
    if ls.len() > 0 {
        let d = ls.skip(1);
        law_ids_are_four_digits(d, line, label);
        if forall|j: int| 0 <= j < ls.len() ==> !holds(#[trigger] ls[j], label) {
            assert(!holds(ls[0], label));
            assert forall|j: int| 0 <= j < d.len() implies !holds(#[trigger] d[j], label) by {
                assert(d[j] == ls[j + 1]);
            }
        }
    }
}

} // verus!

//! Laws of the migration to composefs, and of the way back.

use vstd::prelude::*;

use crate::migration::{completion, ends_with_systemd_boot, migration_moves};
use crate::migration::host_storage::{
    create_steps, loopback_active, loopback_gb, needed_bytes, repo_meta,
};
use crate::migration::image_access::{
    after_attempt, attempt_argv, first_attempt, CommandOutcome, MountStateView,
};
use crate::migration::lifecycle::{acquisition, inhibitor_argv, LifecycleActionView};
use crate::migration::rollback::{
    first_rollback_id, first_scalar, order_ids, promoted_order, reregister_steps,
    rollback_id_in_line, rollback_markers, rollback_opening, rollback_refusal, without_id,
};
use crate::migration::var_layout::{
    escaped, first_fstab_options, fstab_options_in, kept_options,
    law_escaped_options_hold_no_colon, mount_argument, mount_in, subvolume, VarMountCandidateView,
    VarMountView,
};
use crate::steps::StepView;
use crate::text::compose::join;
use crate::text::numbers::decimal;
use crate::text::pieces::{
    fields, lemma_split_first, lemma_trim_end, lemma_trim_start, split, trim, trim_start,
    trim_start_char,
};
use crate::text::search::{all_hex, begins, finishes, holds, lower, occurs_at, up_to};

verus! {

/// Whether the text names what OSTree boots with, in capital or small letters.
pub open spec fn names_ostree_loader(s: Seq<char>) -> bool {
    holds(lower(s), "fedora"@) || holds(lower(s), "shim"@) || holds(lower(s), "grub"@)
}

proof fn lemma_names_loader(s: Seq<char>)
    ensures
        crate::migration::rollback::has_rollback_marker(s) <==> names_ostree_loader(s),
{
    reveal_strlit("fedora");
    reveal_strlit("efi\\fedora");
    let h = lower(s);
    let ms = rollback_markers();
    assert(ms[0] == "fedora"@ && ms[1] == "shim"@ && ms[2] == "efi\\fedora"@ && ms[3] == "grub"@);
    if holds(h, "efi\\fedora"@) {
        let i = choose|i: int| occurs_at(h, "efi\\fedora"@, i);
        let there = h.subrange(i, i + 10);
        assert(h.subrange(i + 4, i + 10) =~= there.subrange(4, 10));
        assert(there.subrange(4, 10) =~= "fedora"@);
        assert(occurs_at(h, "fedora"@, i + 4));
    }
    if crate::migration::rollback::has_rollback_marker(s) {
        let k = choose|k: int| 0 <= k < ms.len() && holds(h, #[trigger] ms[k]);
        assert(0 <= k < 4);
    }
}

proof fn lemma_part_names_loader(s: Seq<char>, a: int, b: int)
    requires
        0 <= a <= b <= s.len(),
        names_ostree_loader(s.subrange(a, b)),
    ensures
        names_ostree_loader(s),
{
    lemma_part_holds(s, a, b, "fedora"@);
    lemma_part_holds(s, a, b, "shim"@);
    lemma_part_holds(s, a, b, "grub"@);
}

proof fn lemma_part_holds(s: Seq<char>, a: int, b: int, m: Seq<char>)
    requires
        0 <= a <= b <= s.len(),
    ensures
        holds(lower(s.subrange(a, b)), m) ==> holds(lower(s), m),
{
    let p = lower(s.subrange(a, b));
    if holds(p, m) {
        let i = choose|i: int| occurs_at(p, m, i);
        assert(lower(s).subrange(a + i, a + i + m.len()) =~= p.subrange(i, i + m.len()));
        assert(occurs_at(lower(s), m, a + i));
    }
}

proof fn lemma_line_without_loader(line: Seq<char>)
    requires
        !names_ostree_loader(line),
    ensures
        rollback_id_in_line(line) is None,
{
    let t = trim(line);
    let a = trim_start(line);
    lemma_trim_start(line);
    lemma_trim_end(a);
    let n = line.len() - a.len();
    assert(t =~= line.subrange(n, n + t.len()));
    if rollback_id_in_line(line) is Some {
        let p = "Boot"@.len() as int;
        let rest = t.skip(p).skip(4);
        lemma_names_loader(rest);
        assert(rest =~= line.subrange(n + p + 4, n + t.len()));
        lemma_part_names_loader(line, n + p + 4, n + t.len());
    }
}

/// The entry to go back to is the first that names what OSTree boots with, in
/// its label or its loader.
pub proof fn law_entry_to_go_back_to(
    ls: Seq<Seq<char>>,
    i: int,
    id: Seq<char>,
    described: Seq<char>,
)
    requires
        0 <= i < ls.len(),
        forall|j: int| 0 <= j < i ==> !names_ostree_loader(#[trigger] ls[j]),
        trim(ls[i]) == "Boot"@ + id + described,
        id.len() == 4,
        all_hex(id),
        names_ostree_loader(described),
    ensures
        first_rollback_id(ls) == Some(id),
    decreases i,
{
    if i == 0 {
        let t = trim(ls[0]);
        let n = "Boot"@.len() as int;
        assert(t.take(n) =~= "Boot"@);
        let r = t.skip(n);
        assert(r =~= id + described);
        assert(r.take(4) =~= id);
        assert(r.skip(4) =~= described);
        lemma_names_loader(described);
    } else {
        lemma_line_without_loader(ls[0]);
        let d = ls.skip(1);
        assert forall|j: int| 0 <= j < i - 1 implies !names_ostree_loader(#[trigger] d[j]) by {
            assert(d[j] == ls[j + 1]);
        }
        law_entry_to_go_back_to(d, i - 1, id, described);
    }
}

/// Where no line names what OSTree boots with there is no entry to go back to,
/// and it is registered again.
pub proof fn law_missing_loader_is_registered_again(ls: Seq<Seq<char>>, output: Seq<char>)
    requires
        ls == crate::text::pieces::lines(output),
        forall|j: int| 0 <= j < ls.len() ==> !names_ostree_loader(#[trigger] ls[j]),
    ensures
        first_rollback_id(ls) is None,
        ({
            let steps = reregister_steps(output, false);
            &&& steps.len() == 2
            &&& steps[1] is Run
            &&& steps[1]->Run_argv == seq![
                "efibootmgr"@,
                "--create"@,
                "--label"@,
                "Fedora"@,
                "--loader"@,
                "\\EFI\\fedora\\shimx64.efi"@,
            ]
        }),
{
    lemma_no_rollback_id(ls);
}

proof fn lemma_no_rollback_id(ls: Seq<Seq<char>>)
    requires
        forall|j: int| 0 <= j < ls.len() ==> !names_ostree_loader(#[trigger] ls[j]),
    ensures
        first_rollback_id(ls) is None,
    decreases ls.len(),
{
    if ls.len() > 0 {
        lemma_line_without_loader(ls[0]);
        let d = ls.skip(1);
        assert forall|j: int| 0 <= j < d.len() implies !names_ostree_loader(#[trigger] d[j]) by {
            assert(d[j] == ls[j + 1]);
        }
        lemma_no_rollback_id(d);
    }
}

/// A value is what follows its key in the first line that begins with it, without
/// the white space around it.
pub proof fn law_value_behind_its_key(ls: Seq<Seq<char>>, key: Seq<char>, i: int, value: Seq<char>)
    requires
        0 <= i < ls.len(),
        forall|j: int| 0 <= j < i ==> !begins(trim(#[trigger] ls[j]), key),
        trim(ls[i]) == key + value,
    ensures
        first_scalar(ls, key) == Some(trim(value)),
    decreases i,
{
    if i == 0 {
        let t = trim(ls[0]);
        assert(t.take(key.len() as int) =~= key);
        assert(t.skip(key.len() as int) =~= value);
    } else {
        let d = ls.skip(1);
        assert(!begins(trim(ls[0]), key));
        assert forall|j: int| 0 <= j < i - 1 implies !begins(trim(#[trigger] d[j]), key) by {
            assert(d[j] == ls[j + 1]);
        }
        law_value_behind_its_key(d, key, i - 1, value);
    }
}

/// The ids of an order are what stands between its commas, without white space
/// around it, and without what is empty then.
pub proof fn law_ids_of_an_order(parts: Seq<Seq<char>>)
    ensures
        order_ids(parts) == parts.map_values(|p: Seq<char>| trim(p)).filter(
            |p: Seq<char>| p.len() > 0,
        ),
    decreases parts.len(),
{
    reveal(Seq::filter);
    let f = |p: Seq<char>| trim(p);
    if parts.len() > 0 {
        let d = parts.drop_last();
        law_ids_of_an_order(d);
        assert(parts.map_values(f).drop_last() =~= d.map_values(f));
    }
}

/// The new order names the entry first, and behind it the ids that were there
/// before in their order, without that entry in capital or small letters.
pub proof fn law_promoted_entry_comes_first(order: Seq<char>, target: Seq<char>)
    ensures
        promoted_order(order, target) == join(
            seq![target] + split(order, ',').map_values(|p: Seq<char>| trim(p)).filter(
                |p: Seq<char>| p.len() > 0,
            ).filter(|p: Seq<char>| lower(p) != lower(target)),
            ","@,
        ),
{
    law_ids_of_an_order(split(order, ','));
    lemma_without(order_ids(split(order, ',')), target);
}

proof fn lemma_without(ids: Seq<Seq<char>>, id: Seq<char>)
    ensures
        without_id(ids, id) == ids.filter(|p: Seq<char>| lower(p) != lower(id)),
    decreases ids.len(),
{
    reveal(Seq::filter);
    if ids.len() > 0 {
        lemma_without(ids.drop_last(), id);
    }
}

/// A rollback goes on exactly where there is UEFI, an OSTree deployment, a
/// composefs root to leave, and an entry of OSTree in the menu; a dry run always
/// does.
pub proof fn law_when_a_rollback_goes_on(
    uefi: bool,
    ostree: bool,
    cmdline: Seq<char>,
    entries: Seq<Seq<char>>,
    dry_run: bool,
)
    ensures
        rollback_opening(dry_run, rollback_refusal(uefi, ostree, cmdline, entries)) is Ok
            <==> dry_run || uefi && ostree && holds(cmdline, "composefs="@) && exists|i: int|
            0 <= i < entries.len() && begins(#[trigger] entries[i], "ostree-"@) && finishes(
                entries[i],
                ".conf"@,
            ),
        !uefi ==> rollback_refusal(uefi, ostree, cmdline, entries) is Some,
        !ostree ==> rollback_refusal(uefi, ostree, cmdline, entries) is Some,
{
    if exists|i: int|
        0 <= i < entries.len() && begins(#[trigger] entries[i], "ostree-"@) && finishes(
            entries[i],
            ".conf"@,
        ) {
        let i = choose|i: int|
            0 <= i < entries.len() && begins(#[trigger] entries[i], "ostree-"@) && finishes(
                entries[i],
                ".conf"@,
            );
        assert(crate::migration::rollback::is_ostree_entry(entries[i]));
    }
    if crate::migration::rollback::has_ostree_entry(entries) {
        let i = choose|i: int|
            0 <= i < entries.len() && crate::migration::rollback::is_ostree_entry(
                #[trigger] entries[i],
            );
        assert(begins(entries[i], "ostree-"@) && finishes(entries[i], ".conf"@));
    }
}

/// Whether the option is the first that names a subvolume.
pub open spec fn is_first_subvolume(options: Seq<Seq<char>>, i: int, v: Seq<char>) -> bool {
    &&& 0 <= i < options.len()
    &&& options[i] == "subvol="@ + v
    &&& forall|j: int| 0 <= j < i ==> !begins(#[trigger] options[j], "subvol="@)
}

proof fn lemma_subvolume(options: Seq<Seq<char>>, i: int, v: Seq<char>)
    requires
        is_first_subvolume(options, i, v),
    ensures
        subvolume(options) == Some(v),
    decreases i,
{
    let k = "subvol="@;
    if i == 0 {
        assert(options[0].take(k.len() as int) =~= k);
        assert(options[0].skip(k.len() as int) =~= v);
    } else {
        assert(!begins(options[0], k));
        let d = options.skip(1);
        assert forall|j: int| 0 <= j < i - 1 implies !begins(#[trigger] d[j], k) by {
            assert(d[j] == options[j + 1]);
        }
        lemma_subvolume(d, i - 1, v);
    }
}

proof fn lemma_no_subvolume(options: Seq<Seq<char>>)
    requires
        forall|j: int| 0 <= j < options.len() ==> !begins(#[trigger] options[j], "subvol="@),
    ensures
        subvolume(options) is None,
    decreases options.len(),
{
    if options.len() > 0 {
        assert(!begins(options[0], "subvol="@));
        let d = options.skip(1);
        assert forall|j: int| 0 <= j < d.len() implies !begins(#[trigger] d[j], "subvol="@) by {
            assert(d[j] == options[j + 1]);
        }
        lemma_no_subvolume(d);
    }
}

/// A `/var` of its own is a row for `/var` whose device is one of the machine's,
/// and that mounts a whole filesystem, or a subvolume of Btrfs that its options
/// name; nothing else, and no directory bound from elsewhere, is one.
pub proof fn law_var_of_its_own(row: Seq<char>, i: int, v: Seq<char>)
    ensures
        ({
            let f = fields(row);
            let device = up_to(f[1], '[');
            let m = mount_in(row);
            &&& f.len() < 5 || f[0] != "/var"@ ==> m is None
            &&& f.len() >= 5 && !begins(device, "/dev/"@) ==> m is None
            &&& f.len() >= 5 && f[0] == "/var"@ && begins(device, "/dev/"@) ==> {
                &&& f[3] == "/"@ ==> m == Some(
                    VarMountCandidateView { device, fstype: f[2], options: "defaults"@ },
                )
                &&& f[3] != "/"@ && f[2] != "btrfs"@ ==> m is None
                &&& f[3] != "/"@ && f[2] == "btrfs"@ && is_first_subvolume(split(f[4], ','), i, v)
                    ==> m == (if trim_start_char(v, '/') == trim_start_char(f[3], '/') {
                    Some(
                        VarMountCandidateView {
                            device,
                            fstype: f[2],
                            options: "defaults,subvol="@ + v,
                        },
                    )
                } else {
                    None
                })
                &&& f[3] != "/"@ && f[2] == "btrfs"@ && (forall|j: int|
                    0 <= j < split(f[4], ',').len() ==> !begins(
                        #[trigger] split(f[4], ',')[j],
                        "subvol="@,
                    )) ==> m is None
            }
        }),
{
    let f = fields(row);
    let options = split(f[4], ',');
    if is_first_subvolume(options, i, v) {
        lemma_subvolume(options, i, v);
    }
    if forall|j: int| 0 <= j < options.len() ==> !begins(#[trigger] options[j], "subvol="@) {
        lemma_no_subvolume(options);
    }
}

/// The options that are kept are all but the empty ones and those that would
/// leave `/var` unwritable or unmounted, in their order.
pub proof fn law_options_that_are_kept(options: Seq<Seq<char>>)
    ensures
        kept_options(options) == options.filter(
            |o: Seq<char>|
                o.len() > 0 && o != "ro"@ && o != "rw"@ && o != "noauto"@ && o != "nofail"@,
        ),
    decreases options.len(),
{
    reveal(Seq::filter);
    if options.len() > 0 {
        law_options_that_are_kept(options.drop_last());
    }
}

/// Whether the line of `fstab` is for the mount: no comment, of `/var`, of its
/// type or any, and for no subvolume where the mount is for none.
pub open spec fn is_line_for(line: Seq<char>, c: VarMountCandidateView) -> bool {
    let f = fields(trim_start(line));
    &&& !begins(trim_start(line), "#"@)
    &&& f.len() >= 4
    &&& f[1] == "/var"@
    &&& f[2] == c.fstype || f[2] == "auto"@
}

/// Whether no option names a subvolume.
pub open spec fn names_no_subvolume(options: Seq<char>) -> bool {
    forall|j: int|
        0 <= j < split(options, ',').len() ==> !begins(#[trigger] split(options, ',')[j], "subvol="@)
}

/// Of `fstab` the first line that is for the mount gives its options: writable,
/// and with all those that are kept.
pub proof fn law_first_line_for_var_gives_the_options(
    ls: Seq<Seq<char>>,
    c: VarMountCandidateView,
    i: int,
)
    requires
        0 <= i < ls.len(),
        forall|j: int| 0 <= j < i ==> !is_line_for(#[trigger] ls[j], c),
        is_line_for(ls[i], c),
        names_no_subvolume(c.options),
        names_no_subvolume(fields(trim_start(ls[i]))[3]),
    ensures
        first_fstab_options(ls, c) == Some(
            join(
                seq!["rw"@] + split(fields(trim_start(ls[i]))[3], ',').filter(
                    |o: Seq<char>|
                        o.len() > 0 && o != "ro"@ && o != "rw"@ && o != "noauto"@ && o
                            != "nofail"@,
                ),
                ","@,
            ),
        ),
    decreases i,
{
    let f = fields(trim_start(ls[i]));
    if i == 0 {
        lemma_no_subvolume(split(c.options, ','));
        lemma_no_subvolume(split(f[3], ','));
        law_options_that_are_kept(split(f[3], ','));
    } else {
        let d = ls.skip(1);
        assert(!is_line_for(ls[0], c));
        assert(fstab_options_in(ls[0], c) is None);
        assert forall|j: int| 0 <= j < i - 1 implies !is_line_for(#[trigger] d[j], c) by {
            assert(d[j] == ls[j + 1]);
        }
        law_first_line_for_var_gives_the_options(d, c, i - 1);
    }
}

/// A line for `/var` counts for a subvolume only where both name the same one,
/// a slash before it aside.
pub proof fn law_line_for_a_subvolume(
    line: Seq<char>,
    c: VarMountCandidateView,
    i: int,
    v: Seq<char>,
    j: int,
    w: Seq<char>,
)
    requires
        is_line_for(line, c),
    ensures
        ({
            let options = fields(trim_start(line))[3];
            let mine = is_first_subvolume(split(c.options, ','), i, v);
            let its = is_first_subvolume(split(options, ','), j, w);
            let r = fstab_options_in(line, c);
            &&& mine && its ==> (r is Some <==> trim_start_char(v, '/') == trim_start_char(w, '/'))
            &&& mine && names_no_subvolume(options) ==> r is None
            &&& names_no_subvolume(c.options) && its ==> r is None
        }),
{
    let options = fields(trim_start(line))[3];
    if is_first_subvolume(split(c.options, ','), i, v) {
        lemma_subvolume(split(c.options, ','), i, v);
    }
    if is_first_subvolume(split(options, ','), j, w) {
        lemma_subvolume(split(options, ','), j, w);
    }
    if names_no_subvolume(options) {
        lemma_no_subvolume(split(options, ','));
    }
    if names_no_subvolume(c.options) {
        lemma_no_subvolume(split(c.options, ','));
    }
}

/// The argument that mounts the volume comes apart at its colons into the device
/// by its identifier, the place of the stateroot, the type and the options, which
/// have it mounted before the root is set up.
pub proof fn law_argument_that_mounts_var(var: VarMountView)
    requires
        !var.uuid.contains(':'),
        !var.fstype.contains(':'),
    ensures
        split(mount_argument(var), ':') == seq![
            "rd.systemd.mount-extra=/dev/disk/by-uuid/"@ + var.uuid,
            "/sysroot/state/os/default/var"@,
            var.fstype,
            escaped(var.options)
                + ",x-systemd.before=bootc-root-setup.service,x-systemd.required-by=bootc-root-setup.service"@,
        ],
{
    reveal_strlit("rd.systemd.mount-extra=/dev/disk/by-uuid/");
    reveal_strlit(":/sysroot/state/os/default/var:");
    reveal_strlit("/sysroot/state/os/default/var");
    reveal_strlit(":");
    reveal_strlit(
        ",x-systemd.before=bootc-root-setup.service,x-systemd.required-by=bootc-root-setup.service",
    );
    let a = "rd.systemd.mount-extra=/dev/disk/by-uuid/"@ + var.uuid;
    let b = "/sysroot/state/os/default/var"@;
    let tail = ",x-systemd.before=bootc-root-setup.service,x-systemd.required-by=bootc-root-setup.service"@;
    let d = escaped(var.options) + tail;
    law_escaped_options_hold_no_colon(var.options);
    assert(!a.contains(':')) by {
        if a.contains(':') {
            let k = choose|k: int| 0 <= k < a.len() && a[k] == ':';
            let n = "rd.systemd.mount-extra=/dev/disk/by-uuid/"@.len();
            if k >= n {
                assert(var.uuid[k - n] == ':');
            }
        }
    }
    assert(!d.contains(':')) by {
        if d.contains(':') {
            let k = choose|k: int| 0 <= k < d.len() && d[k] == ':';
            let n = escaped(var.options).len();
            if k < n {
                assert(escaped(var.options)[k] == ':');
            } else {
                assert(tail[k - n] == ':');
            }
        }
    }
    let arg = mount_argument(var);
    assert(":/sysroot/state/os/default/var:"@ =~= seq![':'] + b + seq![':']);
    assert(arg =~= a + seq![':'] + (b + seq![':'] + (var.fstype + seq![':'] + d)));
    lemma_split_first(a, b + seq![':'] + (var.fstype + seq![':'] + d), ':');
    lemma_split_first(b, var.fstype + seq![':'] + d, ':');
    lemma_split_first(var.fstype, d, ':');
    lemma_split_first(d, Seq::empty(), ':');
    assert(split(arg, ':') =~= seq![a, b, var.fstype, d]);
}

/// The loopback takes half as much again as the repository and 25 GB, rounded up
/// to whole GB, where nine tenths of the free space allow for it and that is no
/// less than 30 GB.
pub proof fn law_loopback_takes_what_it_wants(repo: int, free: int)
    requires
        repo >= 0,
        free >= 0,
    ensures
        ({
            let gb = loopback_gb(repo, free);
            let fits = (gb + 1) * 10_000_000_000 <= 9 * free;
            &&& fits && gb > 30 ==> 2 * gb * 1_000_000_000 >= 3 * repo + 50_000_000_000
            &&& gb > 30 ==> 2 * (gb - 1) * 1_000_000_000 < 3 * repo + 50_000_000_000
        }),
{
}

/// What a migration needs free is a tenth more than the repository with
/// reflinks, and half as much again without, rounded down to whole bytes.
pub proof fn law_space_that_is_needed(repo: int)
    requires
        repo >= 0,
    ensures
        needed_bytes(repo, true) * 10 <= repo * 11 < needed_bytes(repo, true) * 10 + 10,
        needed_bytes(repo, false) * 2 <= repo * 3 < needed_bytes(repo, false) * 2 + 2,
{
}

/// The loopback is made of its size, formatted with verity, mounted, and given
/// its description, in this order; a stale one is removed before.
pub proof fn law_loopback_is_made_in_order(gb: nat, stale: bool)
    ensures
        ({
            let steps = create_steps(gb, stale);
            let n: int = if stale {
                1
            } else {
                0
            };
            let image = "/sysroot/composefs-loopback.ext4"@;
            &&& stale ==> steps[0] == StepView::Remove(image)
            &&& steps.len() == n + 7
            &&& steps[n + 1] is Run && steps[n + 1]->Run_argv == seq![
                "truncate"@,
                "-s"@,
                decimal(gb) + "G"@,
                image,
            ]
            &&& steps[n + 2] is Run && steps[n + 2]->Run_argv.contains("verity"@)
                && steps[n + 2]->Run_argv.last() == image
            &&& steps[n + 4] is Run && steps[n + 4]->Run_argv.contains("loop"@)
                && steps[n + 4]->Run_argv.last() == "/sysroot/composefs"@
            &&& steps[n + 5] is Write && steps[n + 5]->Write_contents == repo_meta()
        }),
{
    let steps = create_steps(gb, stale);
    let n: int = if stale {
        1
    } else {
        0
    };
    assert(steps[n + 2]->Run_argv[3] == "verity"@);
    assert(steps[n + 4]->Run_argv[2] == "loop"@);
}

/// An attempt that mounts the image and succeeds is the last; one that fails goes
/// on to the next: from the newer names to the sealed configuration, and from
/// that to the metadata by itself where it is there.
pub proof fn law_attempts_to_mount(state: MountStateView, outcome: CommandOutcome, there: bool)
    ensures
        ({
            let next = after_attempt(state, outcome, there).0;
            let ok = outcome is Succeeded;
            &&& state is Repull ==> next == (if ok {
                MountStateView::ByReference
            } else {
                MountStateView::BySealedConfig
            })
            &&& state is ByReference ==> next == (if ok {
                MountStateView::Mounted
            } else {
                MountStateView::BySealedConfig
            })
            &&& state is BySealedConfig ==> (next is Mounted <==> ok) && (next is RawErofs
                <==> outcome is Failed && there) && (next is Failed <==> outcome is NotRun
                || outcome is Failed && !there)
            &&& state is RawErofs ==> (next is Mounted <==> ok) && (next is Failed <==> !ok)
            &&& state is Mounted || state is Failed ==> next == state
        }),
        first_attempt(true) is BySealedConfig,
        first_attempt(false) is Repull,
{
}

/// Each attempt is made on what it is for: the image in podman's storage, or the
/// sealed configuration, and at the place given.
pub proof fn law_commands_of_the_attempts(
    state: MountStateView,
    image: Seq<char>,
    sealed: Seq<char>,
    place: Seq<char>,
)
    ensures
        ({
            let argv = attempt_argv(state, image, sealed, place);
            &&& state is Repull ==> argv is Some && argv->0.last() == "containers-storage:"@ + image
                && argv->0.contains("pull"@)
            &&& state is ByReference ==> argv is Some && argv->0.last() == place
                && argv->0[argv->0.len() - 2] == "containers-storage:"@ + image
                && argv->0.contains("mount"@)
            &&& state is BySealedConfig ==> argv is Some && argv->0.last() == place
                && argv->0[argv->0.len() - 2] == sealed && argv->0.contains("mount"@)
            &&& state is RawErofs ==> argv is Some && argv->0.last() == place
                && argv->0.contains("erofs"@) && argv->0.contains("ro,loop"@)
            &&& state is Mounted || state is Failed ==> argv is None
        }),
{
    let argv = attempt_argv(state, image, sealed, place);
    match state {
        MountStateView::Repull => {
            assert(argv->0[5] == "pull"@);
        },
        MountStateView::ByReference => {
            assert(argv->0[5] == "mount"@);
        },
        MountStateView::BySealedConfig => {
            assert(argv->0[5] == "mount"@);
        },
        MountStateView::RawErofs(_) => {
            assert(argv->0[2] == "erofs"@);
            assert(argv->0[4] == "ro,loop"@);
        },
        _ => {},
    }
}

/// A migration takes hold first, checks the free space and makes the store before
/// anything is brought into it, imports the objects unless that is skipped, and
/// then pulls, seals, stages, sets up the bootloader and completes.
pub proof fn law_moves_of_a_migration(dry_run: bool, skip_import: bool)
    ensures
        ({
            let m = migration_moves(dry_run, skip_import);
            let n: int = if dry_run {
                3
            } else {
                5
            };
            &&& m[0] is Acquire
            &&& !dry_run ==> m[2] is CheckFreeSpace && m[3] is PrepareStorage && m[4] is CreateStore
            &&& !skip_import ==> m[n] is ImportObjects
            &&& skip_import ==> m[n] is Say
            &&& m[n + 1] is PullImage && m[n + 2] is SealImage && m[n + 3] is StageDeployment
            &&& m[n + 4] is SetUpBootloader && m[n + 5] is Complete
            &&& !dry_run ==> m.len() == n + 7 && m[n + 6] is LeaveReminder
            &&& dry_run ==> m.len() == n + 6
        }),
{
}

/// What is said at the end names the deployment, and systemd-boot exactly where
/// GRUB was not asked for and the firmware is UEFI with writable variables.
pub proof fn law_what_is_said_at_the_end(
    hex: Seq<char>,
    bootloader: Seq<char>,
    uefi: bool,
    writable: bool,
)
    ensures
        ({
            let said = completion(hex, ends_with_systemd_boot(bootloader, uefi, writable));
            &&& finishes(said[1], hex)
            &&& said[2] == "Primary bootloader: systemd-boot"@ <==> bootloader != "grub2"@ && uefi
                && writable
        }),
{
    reveal_strlit("Primary bootloader: systemd-boot");
    reveal_strlit("Primary bootloader: GRUB2 (BLS Type 1)");
    let said = completion(hex, ends_with_systemd_boot(bootloader, uefi, writable));
    let s = said[1];
    assert(s.skip(s.len() - hex.len()) =~= hex);
    assert("Primary bootloader: systemd-boot"@[20] != "Primary bootloader: GRUB2 (BLS Type 1)"@[20]);
}

/// A real run takes the lock, holds off sleep, and makes both file systems
/// writable, in this order; a dry run takes hold of nothing.
pub proof fn law_what_a_run_takes_hold_of(dry_run: bool, i: int)
    ensures
        ({
            let a = acquisition(dry_run);
            let remounts = |m: LifecycleActionView, target: Seq<char>|
                m is Do && m->Do_0 is Run && m->Do_0->Run_argv == seq![
                    "/usr/bin/mount"@,
                    "-o"@,
                    "remount,rw"@,
                    target,
                ];
            &&& dry_run && 0 <= i < a.len() ==> a[i] is Do && a[i]->Do_0 is Say
            &&& !dry_run ==> a.len() == 4 && a[0] == LifecycleActionView::Lock(
                "/var/run/bootc-migrate.lock"@,
            ) && a[1] is InhibitSleep && remounts(a[2], "/sysroot"@) && remounts(a[3], "/boot"@)
        }),
{
}

/// What holds off sleep blocks it, for the reason given, until it is ended.
pub proof fn law_sleep_is_held_off(why: Seq<char>)
    ensures
        ({
            let a = inhibitor_argv(why);
            &&& a[0] == "systemd-inhibit"@
            &&& a.contains("--what=sleep"@)
            &&& a.contains("--mode=block"@)
            &&& a.contains("--why="@ + why)
            &&& a[a.len() - 2] == "sleep"@ && a.last() == "infinity"@
        }),
{
    let a = inhibitor_argv(why);
    assert(a[1] == "--what=sleep"@);
    assert(a[2] == "--why="@ + why);
    assert(a[3] == "--mode=block"@);
}

/// The loopback is active where its image is there and what is mounted at the
/// store is it.
pub proof fn law_active_loopback(there: bool, source: Option<Seq<char>>)
    ensures
        loopback_active(there, source) <==> there && source is Some && holds(
            trim(source->0),
            "composefs-loopback"@,
        ),
{
}

/// The id of an entry to go back to is four hexadecimal digits behind `Boot`, in a
/// line that names what OSTree boots with.
pub proof fn law_ids_to_go_back_to(line: Seq<char>)
    ensures
        rollback_id_in_line(line) matches Some(id) ==> id.len() == 4 && all_hex(id) && begins(
            trim(line),
            "Boot"@ + id,
        ) && names_ostree_loader(trim(line).skip("Boot"@.len() as int + 4)),
{
    if let Some(id) = rollback_id_in_line(line) {
        let t = trim(line);
        let n = "Boot"@.len() as int;
        assert(t.take(n + 4) =~= "Boot"@ + id) by {
            assert forall|i: int| 0 <= i < n implies t[i] == "Boot"@[i] by {
                assert(t.take(n)[i] == t[i]);
            }
        }
        assert(t.skip(n).skip(4) =~= t.skip(n + 4));
        lemma_names_loader(t.skip(n).skip(4));
    }
}

/// The loopback takes no less than thirty GB, and more only within nine tenths of
/// the free space.
pub proof fn law_loopback_leaves_room(repo: int, free: int)
    requires
        repo >= 0,
        free >= 0,
    ensures
        loopback_gb(repo, free) >= 30,
        loopback_gb(repo, free) > 30 ==> loopback_gb(repo, free) * 10_000_000_000 <= 9 * free,
{
}

} // verus!

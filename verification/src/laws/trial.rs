//! Laws of a bootloader on trial, of the records of NVRAM, and of the way back.

use vstd::prelude::*;

use crate::boot_cleanup::live::{one_rename, timestamp_in, undo_order, NvramStepView};
use crate::boot_cleanup::plan::{merged_ids, remapped_ids};
use crate::migration::bootloader::{BlsEntryView, BootStepView};
use crate::migration::bootloader::live::{
    entry_filename, first_stage, hook_install_steps, hook_script, is_entry_of, later_removals,
    migrate_stage_after, placing_steps, resync_steps, state_made, trial_argv, undo_file_steps,
    MigrateStage, MigrationStateView,
};
use crate::migration::rollback::{first_rollback_id, first_scalar, promoted_order, rollback_steps};
use crate::steps::StepView;
use crate::text::chars::is_digit;
use crate::text::compose::join;
use crate::text::numbers::digits_value;
use crate::text::paths::join_path;
use crate::text::pieces::lines;
use crate::text::quote::quoted_text;
use crate::text::search::{begins, finishes};

verus! {

/// The file of an entry is named after the token and the kernel.
pub proof fn law_name_of_an_entry(token: Seq<char>, kver: Seq<char>)
    ensures
        entry_filename(token, kver) == "bootc-rebase-"@ + token + "-"@ + kver + ".conf"@,
{
}

/// Whether the steps write the entry at the path.
pub open spec fn writes_entry(
    steps: Seq<BootStepView>,
    path: Seq<char>,
    entry: BlsEntryView,
) -> bool {
    exists|i: int|
        0 <= i < steps.len() && (#[trigger] steps[i]) is WriteEntry && steps[i]->WriteEntry_path
            == path && steps[i]->WriteEntry_entry == entry
}

/// Whether the steps copy the file to the path.
pub open spec fn copies(steps: Seq<BootStepView>, from: Seq<char>, to: Seq<char>) -> bool {
    exists|i: int|
        0 <= i < steps.len() && (#[trigger] steps[i]) is Do && steps[i]->Do_0 is Copy
            && steps[i]->Do_0->Copy_from == from && steps[i]->Do_0->Copy_to == to
}

/// A new kernel and its initrd are copied below the token and the version, and
/// its entry is written among the others.
pub proof fn law_new_kernel_is_followed(
    esp: Seq<char>,
    token: Seq<char>,
    kver: Seq<char>,
    vmlinuz: Seq<char>,
    initrd: Seq<char>,
    entry: BlsEntryView,
)
    ensures
        ({
            let s = resync_steps(esp, token, kver, vmlinuz, initrd, entry);
            let dir = join_path(join_path(esp, token), kver);
            &&& copies(s, vmlinuz, join_path(dir, "linux"@))
            &&& copies(s, initrd, join_path(dir, "initrd"@))
            &&& writes_entry(
                s,
                join_path(join_path(esp, "loader/entries"@), entry.filename),
                entry,
            )
            &&& s.len() == 5
        }),
{
    let s = resync_steps(esp, token, kver, vmlinuz, initrd, entry);
    assert(s[1] is Do);
    assert(s[2] is Do);
    assert(s[4] is WriteEntry);
}

/// A first change copies the kernel and its initrd. Where the host ships the
/// loader it also installs it, in its own place and in the one for removable
/// media, writes the entry and installs the script; otherwise it stops there.
pub proof fn law_first_change(
    esp: Seq<char>,
    title: Seq<char>,
    token: Seq<char>,
    kver: Seq<char>,
    vmlinuz: Seq<char>,
    initrd: Seq<char>,
    entry: BlsEntryView,
    source: bool,
)
    ensures
        ({
            let s = placing_steps(esp, title, token, kver, vmlinuz, initrd, entry, source);
            let dir = join_path(join_path(esp, token), kver);
            let own = join_path(join_path(esp, "EFI/systemd"@), "systemd-bootx64.efi"@);
            &&& copies(s, vmlinuz, join_path(dir, "linux"@))
            &&& copies(s, initrd, join_path(dir, "initrd"@))
            &&& source ==> copies(s, "/usr/lib/systemd/boot/efi/systemd-bootx64.efi"@, own)
            &&& source ==> copies(s, own, join_path(join_path(esp, "EFI/BOOT"@), "BOOTX64.EFI"@))
            &&& source ==> writes_entry(
                s,
                join_path(join_path(esp, "loader/entries"@), entry.filename),
                entry,
            )
            &&& source ==> s.last() is Do && s.last()->Do_0 is MakeExecutable
            &&& !source ==> s.len() == 4 && s.last() is Stop
        }),
{
    let s = placing_steps(esp, title, token, kver, vmlinuz, initrd, entry, source);
    assert(s[1] is Do);
    assert(s[2] is Do);
    if source {
        assert(s[5] is Do);
        assert(s[6] is Do);
        assert(s[8] is WriteEntry);
    }
}

/// The entry for a trial is made with its disk, partition, loader and label, and
/// never put into the order.
pub proof fn law_entry_for_a_trial(disk: Seq<char>, part: Seq<char>, label: Seq<char>)
    ensures
        ({
            let a = trial_argv(disk, part, label);
            &&& a[0] == "efibootmgr"@ && a[1] == "--create-only"@
            &&& a.subrange(2, 4) == seq!["--disk"@, disk]
            &&& a.subrange(4, 6) == seq!["--part"@, part]
            &&& a.subrange(6, 8) == seq!["--loader"@, "\\EFI\\systemd\\systemd-bootx64.efi"@]
            &&& a.subrange(8, 10) == seq!["--label"@, label]
            &&& a.len() == 10
        }),
{
    let a = trial_argv(disk, part, label);
    assert(a.subrange(2, 4) =~= seq!["--disk"@, disk]);
    assert(a.subrange(4, 6) =~= seq!["--part"@, part]);
    assert(a.subrange(6, 8) =~= seq!["--loader"@, "\\EFI\\systemd\\systemd-bootx64.efi"@]);
    assert(a.subrange(8, 10) =~= seq!["--label"@, label]);
}

/// Whatever fails ends a change. One that was recorded is only followed up; a
/// first one finds the kernel, builds the initrd, puts all in its place, finds the
/// partition, makes the entry for the trial, and records it last.
pub proof fn law_stages_of_a_change(s: MigrateStage)
    ensures
        first_stage(true) is Resync,
        first_stage(false) is FindKernel,
        migrate_stage_after(s, false) is Failed <==> !(s is Finished),
        migrate_stage_after(s, true) is Failed <==> s is Failed,
        migrate_stage_after(s, true) is BuildInitrd <==> s is FindKernel,
        migrate_stage_after(s, true) is Place <==> s is BuildInitrd,
        migrate_stage_after(s, true) is LocateEsp <==> s is Place,
        migrate_stage_after(s, true) is CreateTrial <==> s is LocateEsp,
        migrate_stage_after(s, true) is SaveState <==> s is CreateTrial,
        migrate_stage_after(s, true) is Finished <==> s is SaveState || s is Resync || s is Finished,
{
}

/// What is recorded of a change: where it was made, under which token, the file
/// of its entry, and the entry's id in the firmware.
pub proof fn law_what_is_recorded(
    esp: Seq<char>,
    token: Seq<char>,
    kver: Seq<char>,
    id: Seq<char>,
)
    ensures
        ({
            let s = state_made(esp, token, kver, id);
            &&& s.esp_path == esp
            &&& s.entry_token == token
            &&& s.boot_id == id
            &&& s.bls_filename == "bootc-rebase-"@ + token + "-"@ + kver + ".conf"@
        }),
{
}

/// An entry of another token, or a file that is no entry, is not one that a
/// change has made.
pub proof fn law_other_entries(token: Seq<char>, name: Seq<char>, kver: Seq<char>)
    ensures
        is_entry_of(token, "bootc-rebase-"@ + token + "-"@ + kver + ".conf"@),
        is_entry_of(token, name) ==> begins(name, "bootc-rebase-"@ + token + "-"@) && finishes(
            name,
            ".conf"@,
        ),
{
    assert(is_entry_of(token, entry_filename(token, kver)));
    if is_entry_of(token, name) {
        let k = choose|k: Seq<char>| name == #[trigger] entry_filename(token, k);
        let head = "bootc-rebase-"@ + token + "-"@;
        assert(name =~= head + k + ".conf"@);
        assert(name.take(head.len() as int) =~= head);
        assert(name.skip(name.len() - ".conf"@.len()) =~= ".conf"@);
    }
}

/// Undoing removes, beside the recorded entry, each file listed that is an entry
/// of the token, the directory of the kernels, and the script.
pub proof fn law_what_undoing_removes(s: MigrationStateView, listed: Seq<Seq<char>>)
    ensures
        ({
            let dir = join_path(s.esp_path, "loader/entries"@);
            let steps = undo_file_steps(s, listed);
            let n = steps.len() as int;
            &&& steps[0] == StepView::Remove(join_path(dir, s.bls_filename))
            &&& steps.subrange(1, n - 2) == listed.filter(
                |f: Seq<char>| f != s.bls_filename && is_entry_of(s.entry_token, f),
            ).map_values(|f: Seq<char>| StepView::Remove(join_path(dir, f)))
            &&& steps[n - 2] == StepView::RemoveTree(join_path(s.esp_path, s.entry_token))
            &&& steps[n - 1] == StepView::Remove(
                "/etc/kernel/install.d/95-bootc-rebase-esp-sync.install"@,
            )
        }),
{
    lemma_later(s, listed);
    let steps = undo_file_steps(s, listed);
    assert(steps.subrange(1, steps.len() - 2) =~= later_removals(s, listed));
}

proof fn lemma_later(s: MigrationStateView, listed: Seq<Seq<char>>)
    ensures
        later_removals(s, listed) == listed.filter(
            |f: Seq<char>| f != s.bls_filename && is_entry_of(s.entry_token, f),
        ).map_values(
            |f: Seq<char>| StepView::Remove(join_path(join_path(s.esp_path, "loader/entries"@), f)),
        ),
    decreases listed.len(),
{
    reveal(Seq::filter);
    let p = |f: Seq<char>| f != s.bls_filename && is_entry_of(s.entry_token, f);
    let g = |f: Seq<char>|
        StepView::Remove(join_path(join_path(s.esp_path, "loader/entries"@), f));
    if listed.len() > 0 {
        let d = listed.drop_last();
        lemma_later(s, d);
        assert(d.filter(p).push(listed.last()).map_values(g) =~= d.filter(p).map_values(g).push(
            g(listed.last()),
        ));
    } else {
        assert(later_removals(s, listed) =~= listed.filter(p).map_values(g));
    }
}

/// The script runs the follow-up for the token with the title, and it is written
/// before it is made executable.
pub proof fn law_script_for_new_kernels(token: Seq<char>, title: Seq<char>)
    ensures
        ({
            let s = hook_install_steps(token, title);
            let path = "/etc/kernel/install.d/95-bootc-rebase-esp-sync.install"@;
            let text = hook_script(token, title);
            &&& s[1] is Write && s[1]->Write_path == path && s[1]->Write_contents == text
            &&& s[2] is MakeExecutable && s[2]->MakeExecutable_path == path
            &&& finishes(
                text,
                token + " --kernel-version \"$KERNEL_VERSION\" --title "@ + quoted_text(title)
                    + "\n"@,
            )
        }),
{
    let text = hook_script(token, title);
    let end = token + " --kernel-version \"$KERNEL_VERSION\" --title "@ + quoted_text(title)
        + "\n"@;
    assert(text.skip(text.len() - end.len()) =~= end);
}

/// A record's name gives its time exactly where twenty digits of a time stand
/// between its beginning and its end.
pub proof fn law_time_of_a_record(digits: Seq<char>, name: Seq<char>)
    ensures
        timestamp_in("nvram-"@ + digits + ".json"@) == (if digits.len() == 20 && (forall|i: int|
            0 <= i < digits.len() ==> is_digit(#[trigger] digits[i])) && digits_value(digits)
            <= u64::MAX {
            Some(digits_value(digits))
        } else {
            None
        }),
        !begins(name, "nvram-"@) || !finishes(name, ".json"@) ==> timestamp_in(name) is None,
{
    let p = "nvram-"@;
    let e = ".json"@;
    let n = p + digits + e;
    assert(n.take(p.len() as int) =~= p);
    let rest = n.skip(p.len() as int);
    assert(rest =~= digits + e);
    assert(rest.skip(rest.len() - e.len()) =~= e);
    assert(rest.take(rest.len() - e.len()) =~= digits);
    if begins(name, p) && !finishes(name, e) {
        let r = name.skip(p.len() as int);
        if finishes(r, e) {
            assert(name.skip(name.len() - e.len()) =~= r.skip(r.len() - e.len()));
        }
    }
}

/// A rename makes the replacement before the original goes, and the replacement
/// takes its place at the end.
pub proof fn law_steps_of_a_rename(id: Seq<char>, label: Seq<char>, loader: Seq<char>)
    ensures
        ({
            let s = one_rename(id, label, loader);
            &&& s.len() == 4
            &&& s[0] is ReadOrder
            &&& s[1] == NvramStepView::Create { id, label, loader_path: loader }
            &&& s[2] == NvramStepView::DeleteReplaced { id }
            &&& s[3] == NvramStepView::TakePlace { id }
        }),
{
}

/// An undo sets the recorded order with the new ids in place of the old, and
/// behind it what came since.
pub proof fn law_order_of_an_undo(
    order: Seq<char>,
    renamed: Seq<(Seq<char>, Seq<char>)>,
    current: Seq<char>,
)
    ensures
        undo_order(order, renamed, None) == join(remapped_ids(order, renamed), ","@),
        undo_order(order, renamed, Some(current)) == join(
            merged_ids(join(remapped_ids(order, renamed), ","@), current),
            ","@,
        ),
{
}

/// A rollback is refused exactly where it is real and no entry of the loader is
/// there. Otherwise a real one sets the order that puts that entry first, before
/// it reboots where it was asked to; and a dry one only speaks.
pub proof fn law_steps_of_a_rollback(output: Seq<char>, reboot: bool, dry_run: bool, i: int)
    ensures
        ({
            let found = first_rollback_id(lines(output));
            let r = rollback_steps(output, reboot, dry_run);
            &&& r is Err <==> !dry_run && found is None
            &&& dry_run && 0 <= i < r->Ok_0.len() ==> r->Ok_0[i] is Say
            &&& !dry_run && found is Some ==> r->Ok_0[1] is Run && r->Ok_0[1]->Run_argv == seq![
                "efibootmgr"@,
                "--bootorder"@,
                promoted_order(
                    match first_scalar(lines(output), "BootOrder:"@) {
                        Some(o) => o,
                        None => Seq::empty(),
                    },
                    found->0,
                ),
            ]
            &&& !dry_run && found is Some && reboot ==> r->Ok_0.last() is Run
                && r->Ok_0.last()->Run_argv == seq!["systemctl"@, "reboot"@]
            &&& !dry_run && found is Some && !reboot && 2 <= i < r->Ok_0.len() ==> r->Ok_0[i] is Say
        }),
{
}

} // verus!

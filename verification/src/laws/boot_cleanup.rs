//! Laws of the cleanup of boot entries, and of its undoing.

use vstd::prelude::*;

use crate::boot_audit::{
    after_first, entries_in_lines, entry_in_line, loader_in, AuditFlag, AuditedEntryView,
    BootEntryView,
};
use crate::boot_cleanup::live::{apply_steps, delete_steps, new_ids, rename_steps, NvramStepView};
use crate::boot_cleanup::plan::{
    among_renames, any_bootable, block_of, branding_of, brandings, cleanup_of, default_ids,
    delete_all, delete_one, deletions, entry_with_id, law_plan_follows_selection,
    lemma_entry_with_id, losses, merged_ids, not_among, protection_of, recreations, remapped_id,
    remapped_ids, rename_all, rename_one, renames, restore_ops, valid_label, with_loader,
    CleanupSelectionView, DeleteProtection, NvramFactsView, PlanErrorView, PlannedOpView,
    RenameBlock, RestoreOpView, UnrestorableEntryView,
};
use crate::migration::rollback::{
    has_rollback_marker, order_ids, rollback_haystack, rollback_markers,
};
use crate::text::chars::{is_control, is_hex_digit, is_white};
use crate::text::pieces::{lemma_trim_around, lemma_trimmed_is_kept, split, trim};
use crate::text::search::{
    after, all_hex, begins, holds, lemma_first_index_unique, lemma_holds_around, lower, occurs_at,
    same_ignoring_case, up_to,
};

verus! {

/// Whether the label or the loader of an entry names what OSTree boots with.
pub open spec fn looks_like_ostree(label: Seq<char>, loader: Option<Seq<char>>) -> bool {
    ||| holds(lower(label), "fedora"@)
    ||| holds(lower(label), "shim"@)
    ||| holds(lower(label), "grub"@)
    ||| loader is Some && (holds(lower(loader->0), "fedora"@) || holds(lower(loader->0), "shim"@)
        || holds(lower(loader->0), "grub"@))
}

proof fn lemma_marker(label: Seq<char>, loader: Option<Seq<char>>, m: Seq<char>)
    requires
        m.len() > 0,
        !m.contains(' '),
    ensures
        holds(lower(rollback_haystack(label, loader)), m) <==> holds(lower(label), m) || (
        loader is Some && holds(lower(loader->0), m)),
{
    if loader is Some {
        reveal_strlit(" ");
        let p = loader->0;
        assert(lower(label + " "@ + p) =~= lower(label) + seq![' '] + lower(p));
        lemma_holds_around(lower(label), ' ', lower(p), m);
    }
}

proof fn lemma_looks(label: Seq<char>, loader: Option<Seq<char>>)
    ensures
        has_rollback_marker(rollback_haystack(label, loader)) <==> looks_like_ostree(label, loader),
{
    reveal_strlit("fedora");
    reveal_strlit("shim");
    reveal_strlit("grub");
    reveal_strlit("efi\\fedora");
    let h = lower(rollback_haystack(label, loader));
    let ms = rollback_markers();
    assert(ms[0] == "fedora"@ && ms[1] == "shim"@ && ms[2] == "efi\\fedora"@ && ms[3] == "grub"@);
    lemma_marker(label, loader, "fedora"@);
    lemma_marker(label, loader, "shim"@);
    lemma_marker(label, loader, "grub"@);
    if holds(h, "efi\\fedora"@) {
        let i = choose|i: int| occurs_at(h, "efi\\fedora"@, i);
        let there = h.subrange(i, i + 10);
        assert(h.subrange(i + 4, i + 10) =~= there.subrange(4, 10));
        assert(there.subrange(4, 10) =~= "fedora"@);
        assert(occurs_at(h, "fedora"@, i + 4));
    }
    if has_rollback_marker(rollback_haystack(label, loader)) {
        let k = choose|k: int| 0 <= k < ms.len() && holds(h, #[trigger] ms[k]);
        assert(k == 0 || k == 1 || k == 2 || k == 3);
    }
}

/// Whether the firmware named the id, with case ignored.
pub open spec fn is_id_of(known: Option<Seq<char>>, id: Seq<char>) -> bool {
    known is Some && lower(known->0) == lower(id)
}

/// An entry may be deleted if and only if the firmware does not own it, this
/// boot did not come from it, no rollback would go to it, and it is dead or
/// does not look like what OSTree boots with. The reasons against it are given
/// in this order.
pub proof fn law_what_protects_an_entry(e: AuditedEntryView, facts: NvramFactsView)
    ensures
        protection_of(e, facts) == Some(DeleteProtection::FirmwareManaged) <==> e.flags.contains(
            AuditFlag::FirmwareManaged,
        ),
        protection_of(e, facts) == Some(DeleteProtection::CurrentlyBooted) <==> !e.flags.contains(
            AuditFlag::FirmwareManaged,
        ) && is_id_of(facts.boot_current, e.entry.id),
        protection_of(e, facts) == Some(DeleteProtection::RollbackPath) <==> !e.flags.contains(
            AuditFlag::FirmwareManaged,
        ) && !is_id_of(facts.boot_current, e.entry.id) && (is_id_of(
            facts.rollback_entry_id,
            e.entry.id,
        ) || !e.flags.contains(AuditFlag::Dead) && looks_like_ostree(
            e.entry.label,
            e.entry.loader_path,
        )),
{
    lemma_looks(e.entry.label, e.entry.loader_path);
}

/// Whether the entry is free to be deleted.
pub open spec fn is_free(e: AuditedEntryView, facts: NvramFactsView) -> bool {
    &&& !e.flags.contains(AuditFlag::FirmwareManaged)
    &&& !is_id_of(facts.boot_current, e.entry.id)
    &&& !is_id_of(facts.rollback_entry_id, e.entry.id)
    &&& e.flags.contains(AuditFlag::Dead) || !looks_like_ostree(
        e.entry.label,
        e.entry.loader_path,
    )
}

proof fn lemma_free(e: AuditedEntryView, facts: NvramFactsView)
    ensures
        protection_of(e, facts) is None <==> is_free(e, facts),
{
    lemma_looks(e.entry.label, e.entry.loader_path);
}

/// Whether the label can name an entry.
pub open spec fn can_label(label: Seq<char>) -> bool {
    label.len() > 0 && forall|i: int| 0 <= i < label.len() ==> !is_control(#[trigger] label[i])
}

/// Whether the entry can be created anew under the label.
pub open spec fn can_be_renamed(e: AuditedEntryView, label: Seq<char>) -> bool {
    &&& !e.flags.contains(AuditFlag::FirmwareManaged)
    &&& e.entry.loader_path is Some
    &&& !e.flags.contains(AuditFlag::Dead)
    &&& e.entry.label != label
}

/// What keeps an entry from being renamed, and in which order the reasons are
/// given.
pub proof fn law_what_blocks_a_rename(e: AuditedEntryView, label: Seq<char>)
    ensures
        block_of(e, label) is None <==> can_be_renamed(e, label),
        e.flags.contains(AuditFlag::FirmwareManaged) ==> block_of(e, label) == Some(
            RenameBlock::FirmwareManaged,
        ),
        !e.flags.contains(AuditFlag::FirmwareManaged) && e.entry.loader_path is None ==> block_of(
            e,
            label,
        ) == Some(RenameBlock::NoLoaderPath),
        !e.flags.contains(AuditFlag::FirmwareManaged) && e.entry.loader_path is Some
            && e.flags.contains(AuditFlag::Dead) ==> block_of(e, label) == Some(
            RenameBlock::LoaderNotOnThisEsp,
        ),
        !e.flags.contains(AuditFlag::FirmwareManaged) && e.entry.loader_path is Some
            && !e.flags.contains(AuditFlag::Dead) && e.entry.label == label ==> block_of(e, label)
            == Some(RenameBlock::LabelUnchanged),
{
}

/// Whether an entry of the audit has the id, with case ignored, as the first.
pub open spec fn is_first_with(audited: Seq<AuditedEntryView>, id: Seq<char>, k: int) -> bool {
    &&& 0 <= k < audited.len()
    &&& lower(audited[k].entry.id) == lower(id)
    &&& forall|i: int| 0 <= i < k ==> lower((#[trigger] audited[i]).entry.id) != lower(id)
}

proof fn lemma_first_with(audited: Seq<AuditedEntryView>, id: Seq<char>)
    ensures
        match entry_with_id(audited, id) {
            Some(e) => exists|k: int| #[trigger] is_first_with(audited, id, k) && audited[k] == e,
            None => forall|k: int|
                0 <= k < audited.len() ==> lower((#[trigger] audited[k]).entry.id) != lower(id),
        },
    decreases audited.len(),
{
    lemma_entry_with_id(audited, id);
    if audited.len() > 0 {
        if same_ignoring_case(audited[0].entry.id, id) {
            assert(is_first_with(audited, id, 0));
        } else {
            let rest = audited.skip(1);
            lemma_first_with(rest, id);
            match entry_with_id(rest, id) {
                Some(e) => {
                    let k = choose|k: int| #[trigger]
                        is_first_with(rest, id, k) && rest[k] == e;
                    assert forall|i: int| 0 <= i < k + 1 implies lower(
                        (#[trigger] audited[i]).entry.id,
                    ) != lower(id) by {
                        if i > 0 {
                            assert(rest[i - 1] == audited[i]);
                        }
                    }
                    assert(is_first_with(audited, id, k + 1));
                },
                None => {},
            }
        }
    }
}

proof fn lemma_first_is_found(audited: Seq<AuditedEntryView>, id: Seq<char>, k: int)
    requires
        is_first_with(audited, id, k),
    ensures
        entry_with_id(audited, id) == Some(audited[k]),
{
    lemma_first_with(audited, id);
    let e = entry_with_id(audited, id)->0;
    let j = choose|j: int| #[trigger] is_first_with(audited, id, j) && audited[j] == e;
    if j < k {
        assert(lower(audited[j].entry.id) != lower(id));
    }
    if k < j {
        assert(lower(audited[k].entry.id) != lower(id));
    }
}

/// Whether the change is the deletion of the first entry with the id, and that
/// is free.
pub open spec fn deletes(
    audited: Seq<AuditedEntryView>,
    facts: NvramFactsView,
    id: Seq<char>,
    op: PlannedOpView,
) -> bool {
    exists|k: int| #[trigger]
        is_first_with(audited, id, k) && is_free(audited[k], facts) && op == (
        PlannedOpView::Delete {
            id: audited[k].entry.id,
            label: audited[k].entry.label,
            flags: audited[k].flags,
        })
}

/// Whether the change gives the first entry with the id the label, and that can
/// be created anew under it.
pub open spec fn relabels(
    audited: Seq<AuditedEntryView>,
    id: Seq<char>,
    label: Seq<char>,
    op: PlannedOpView,
) -> bool {
    exists|k: int| #[trigger]
        is_first_with(audited, id, k) && can_be_renamed(audited[k], label) && op == (
        PlannedOpView::Rename {
            id: audited[k].entry.id,
            from_label: audited[k].entry.label,
            to_label: label,
            loader_path: audited[k].entry.loader_path->0,
        })
}

/// Whether the first entry with the id is free.
pub open spec fn may_delete(
    audited: Seq<AuditedEntryView>,
    facts: NvramFactsView,
    id: Seq<char>,
) -> bool {
    exists|k: int| #[trigger] is_first_with(audited, id, k) && is_free(audited[k], facts)
}

/// Whether the first entry with the id can be created anew under the label.
pub open spec fn may_relabel(audited: Seq<AuditedEntryView>, id: Seq<char>, label: Seq<char>) -> bool {
    exists|k: int| #[trigger]
        is_first_with(audited, id, k) && can_be_renamed(audited[k], label)
}

/// Whether some entry's loader is there, and the entry is not among the ids.
pub open spec fn way_to_boot(audited: Seq<AuditedEntryView>, ids: Seq<Seq<char>>) -> bool {
    exists|k: int|
        0 <= k < audited.len() && (#[trigger] audited[k]).entry.loader_path is Some
            && !audited[k].flags.contains(AuditFlag::Dead) && forall|j: int|
            0 <= j < ids.len() ==> lower(#[trigger] ids[j]) != lower(audited[k].entry.id)
}

/// What an approved plan is made of. For each id to delete there is one
/// deletion of the first entry with that id, which is free, and which is not to
/// be renamed too; for each rename one renaming of the first entry with its id,
/// which can be created anew, to the label without white space around it; the
/// deletions come first. Where there was a way to boot, one is left.
pub proof fn law_approved_plans_are_safe(
    audited: Seq<AuditedEntryView>,
    facts: NvramFactsView,
    selection: CleanupSelectionView,
)
    requires
        cleanup_of(audited, facts, selection) is Ok,
    ensures
        ({
            let ops = cleanup_of(audited, facts, selection)->Ok_0;
            let ids = selection.delete_ids;
            let n = ids.len() as int;
            &&& ops.len() == n + selection.renames.len()
            &&& forall|j: int| 0 <= j < n ==> deletes(audited, facts, #[trigger] ids[j], ops[j])
            &&& forall|j: int, m: int|
                0 <= j < n && 0 <= m < selection.renames.len() ==> lower(#[trigger] ids[j])
                    != lower((#[trigger] selection.renames[m]).0)
            &&& forall|m: int|
                0 <= m < selection.renames.len() ==> can_label(
                    trim((#[trigger] selection.renames[m]).1),
                ) && relabels(
                    audited,
                    selection.renames[m].0,
                    trim(selection.renames[m].1),
                    ops[n + m],
                )
            &&& way_to_boot(audited, Seq::empty()) ==> way_to_boot(audited, ids)
        }),
{
    let ops = cleanup_of(audited, facts, selection)->Ok_0;
    let ids = selection.delete_ids;
    let n = ids.len() as int;
    law_plan_follows_selection(audited, facts, selection);
    assert forall|j: int| 0 <= j < n implies deletes(
        audited,
        facts,
        #[trigger] ids[j],
        ops[j],
    ) by {
        assert(delete_one(audited, facts, selection.renames, ids[j]) == Ok::<
            PlannedOpView,
            PlanErrorView,
        >(ops[j]));
        lemma_first_with(audited, ids[j]);
        let e = entry_with_id(audited, ids[j])->0;
        lemma_free(e, facts);
    }
    assert forall|j: int, m: int|
        0 <= j < n && 0 <= m < selection.renames.len() implies lower(#[trigger] ids[j]) != lower(
        (#[trigger] selection.renames[m]).0,
    ) by {
        assert(delete_one(audited, facts, selection.renames, ids[j]) == Ok::<
            PlannedOpView,
            PlanErrorView,
        >(ops[j]));
        if lower(ids[j]) == lower(selection.renames[m].0) {
            assert(same_ignoring_case(selection.renames[m].0, ids[j]));
            assert(among_renames(selection.renames, ids[j]));
        }
    }
    assert forall|m: int| 0 <= m < selection.renames.len() implies can_label(
        trim((#[trigger] selection.renames[m]).1),
    ) && relabels(
        audited,
        selection.renames[m].0,
        trim(selection.renames[m].1),
        ops[n + m],
    ) by {
        let r = selection.renames[m];
        assert(rename_one(audited, r.0, r.1) == Ok::<PlannedOpView, PlanErrorView>(ops[n + m]));
        lemma_first_with(audited, r.0);
        crate::text::pieces::lemma_trim(r.1);
    }
    if way_to_boot(audited, Seq::empty()) {
        let k = choose|k: int|
            0 <= k < audited.len() && (#[trigger] audited[k]).entry.loader_path is Some
                && !audited[k].flags.contains(AuditFlag::Dead);
        assert(crate::boot_cleanup::plan::bootable(audited[k]));
        assert(any_bootable(audited));
        if selection.is_empty() {
            assert(ids.len() == 0);
        } else {
            let m = choose|m: int|
                0 <= m < audited.len() && crate::boot_cleanup::plan::bootable(#[trigger] audited[m])
                    && !crate::boot_cleanup::plan::among(ids, audited[m].entry.id);
            assert forall|j: int| 0 <= j < ids.len() implies lower(#[trigger] ids[j]) != lower(
                audited[m].entry.id,
            ) by {
                if lower(ids[j]) == lower(audited[m].entry.id) {
                    assert(same_ignoring_case(ids[j], audited[m].entry.id));
                }
            }
            assert(audited[m].entry.loader_path is Some);
        }
    }
}

proof fn lemma_delete_is_allowed(
    audited: Seq<AuditedEntryView>,
    facts: NvramFactsView,
    renames: Seq<(Seq<char>, Seq<char>)>,
    ids: Seq<Seq<char>>,
)
    requires
        forall|j: int| 0 <= j < ids.len() ==> may_delete(audited, facts, #[trigger] ids[j]),
        forall|j: int, m: int|
            0 <= j < ids.len() && 0 <= m < renames.len() ==> lower(#[trigger] ids[j]) != lower(
                (#[trigger] renames[m]).0,
            ),
    ensures
        delete_all(audited, facts, renames, ids) is Ok,
    decreases ids.len(),
{
    if ids.len() > 0 {
        let d = ids.drop_last();
        assert forall|j: int| 0 <= j < d.len() implies may_delete(
            audited,
            facts,
            #[trigger] d[j],
        ) by {
            assert(d[j] == ids[j]);
        }
        assert forall|j: int, m: int|
            0 <= j < d.len() && 0 <= m < renames.len() implies lower(#[trigger] d[j]) != lower(
            (#[trigger] renames[m]).0,
        ) by {
            assert(d[j] == ids[j]);
        }
        lemma_delete_is_allowed(audited, facts, renames, d);
        let id = ids[ids.len() - 1];
        assert(may_delete(audited, facts, id));
        let k = choose|k: int| #[trigger]
            is_first_with(audited, id, k) && is_free(audited[k], facts);
        lemma_first_is_found(audited, id, k);
        lemma_free(audited[k], facts);
        if among_renames(renames, id) {
            let m = choose|m: int|
                0 <= m < renames.len() && same_ignoring_case((#[trigger] renames[m]).0, id);
            assert(lower(ids[ids.len() - 1]) != lower(renames[m].0));
        }
    }
}

proof fn lemma_rename_is_allowed(
    audited: Seq<AuditedEntryView>,
    ops: Seq<PlannedOpView>,
    renames: Seq<(Seq<char>, Seq<char>)>,
)
    requires
        forall|m: int|
            0 <= m < renames.len() ==> can_label(trim((#[trigger] renames[m]).1)) && may_relabel(
                audited,
                renames[m].0,
                trim(renames[m].1),
            ),
    ensures
        rename_all(audited, ops, renames) is Ok,
    decreases renames.len(),
{
    if renames.len() > 0 {
        let d = renames.drop_last();
        assert forall|m: int| 0 <= m < d.len() implies can_label(trim((#[trigger] d[m]).1))
            && may_relabel(audited, d[m].0, trim(d[m].1)) by {
            assert(d[m] == renames[m]);
        }
        lemma_rename_is_allowed(audited, ops, d);
        let r = renames[renames.len() - 1];
        assert(may_relabel(audited, r.0, trim(r.1)));
        let k = choose|k: int| #[trigger]
            is_first_with(audited, r.0, k) && can_be_renamed(audited[k], trim(r.1));
        lemma_first_is_found(audited, r.0, k);
        crate::text::pieces::lemma_trim(r.1);
    }
}

/// A selection is approved where nothing is against it: there is a loader on
/// the ESP or no entry names one, each entry to delete is there, free and not
/// to be renamed, each entry to rename is there and can be created anew under a
/// label that is none of its own, and a way to boot is left where there was one.
pub proof fn law_safe_selections_are_approved(
    audited: Seq<AuditedEntryView>,
    facts: NvramFactsView,
    selection: CleanupSelectionView,
)
    requires
        way_to_boot(audited, Seq::empty()) || forall|k: int|
            0 <= k < audited.len() ==> (#[trigger] audited[k]).entry.loader_path is None,
        forall|j: int|
            0 <= j < selection.delete_ids.len() ==> may_delete(
                audited,
                facts,
                #[trigger] selection.delete_ids[j],
            ),
        forall|j: int, m: int|
            0 <= j < selection.delete_ids.len() && 0 <= m < selection.renames.len() ==> lower(
                #[trigger] selection.delete_ids[j],
            ) != lower((#[trigger] selection.renames[m]).0),
        forall|m: int|
            0 <= m < selection.renames.len() ==> can_label(
                trim((#[trigger] selection.renames[m]).1),
            ) && may_relabel(audited, selection.renames[m].0, trim(selection.renames[m].1)),
        way_to_boot(audited, Seq::empty()) ==> way_to_boot(audited, selection.delete_ids),
    ensures
        cleanup_of(audited, facts, selection) is Ok,
{
    let ids = selection.delete_ids;
    lemma_delete_is_allowed(audited, facts, selection.renames, ids);
    lemma_rename_is_allowed(
        audited,
        delete_all(audited, facts, selection.renames, ids)->Ok_0,
        selection.renames,
    );
    if way_to_boot(audited, Seq::empty()) {
        let k = choose|k: int|
            0 <= k < audited.len() && (#[trigger] audited[k]).entry.loader_path is Some
                && !audited[k].flags.contains(AuditFlag::Dead) && forall|j: int|
                0 <= j < ids.len() ==> lower(#[trigger] ids[j]) != lower(audited[k].entry.id);
        assert(crate::boot_cleanup::plan::bootable(audited[k]));
        if crate::boot_cleanup::plan::among(ids, audited[k].entry.id) {
            let j = choose|j: int|
                0 <= j < ids.len() && same_ignoring_case(#[trigger] ids[j], audited[k].entry.id);
            assert(lower(ids[j]) != lower(audited[k].entry.id));
        }
    } else {
        lemma_no_loader(audited);
        if any_bootable(audited) {
            let k = choose|k: int|
                0 <= k < audited.len() && crate::boot_cleanup::plan::bootable(#[trigger] audited[k]);
            assert(audited[k].entry.loader_path is Some);
        }
    }
}

proof fn lemma_no_loader(audited: Seq<AuditedEntryView>)
    requires
        forall|k: int| 0 <= k < audited.len() ==> (#[trigger] audited[k]).entry.loader_path is None,
    ensures
        with_loader(audited) == 0,
    decreases audited.len(),
{
    if audited.len() > 0 {
        let d = audited.drop_last();
        assert forall|k: int| 0 <= k < d.len() implies (
        #[trigger] d[k]).entry.loader_path is None by {
            assert(d[k] == audited[k]);
        }
        lemma_no_loader(d);
        assert(audited[audited.len() - 1].entry.loader_path is None);
    }
}

/// What a single deletion is answered, on an audit that has a way to boot: the
/// id is unknown, the entry protected, the last way to boot at stake, or the
/// deletion approved.
pub proof fn law_answer_to_one_deletion(
    audited: Seq<AuditedEntryView>,
    facts: NvramFactsView,
    id: Seq<char>,
)
    requires
        way_to_boot(audited, Seq::empty()),
    ensures
        ({
            let answer = cleanup_of(
                audited,
                facts,
                CleanupSelectionView { delete_ids: seq![id], renames: Seq::empty() },
            );
            &&& (forall|k: int|
                0 <= k < audited.len() ==> lower((#[trigger] audited[k]).entry.id) != lower(id))
                ==> answer == Err::<Seq<PlannedOpView>, PlanErrorView>(
                PlanErrorView::UnknownEntry { id },
            )
            &&& forall|k: int| #[trigger]
                is_first_with(audited, id, k) ==> {
                    let e = audited[k];
                    let protection = protection_of(e, facts);
                    if !is_free(e, facts) {
                        protection is Some && answer == Err::<Seq<PlannedOpView>, PlanErrorView>(
                            PlanErrorView::ProtectedEntry { id, protection: protection->0 },
                        )
                    } else if !way_to_boot(audited, seq![id]) {
                        answer == Err::<Seq<PlannedOpView>, PlanErrorView>(
                            PlanErrorView::RemovesLastBootableEntry,
                        )
                    } else {
                        answer == Ok::<Seq<PlannedOpView>, PlanErrorView>(
                            seq![
                                PlannedOpView::Delete {
                                    id: e.entry.id,
                                    label: e.entry.label,
                                    flags: e.flags,
                                },
                            ],
                        )
                    }
                }
        }),
{
    let ids = seq![id];
    let none = Seq::<(Seq<char>, Seq<char>)>::empty();
    let sel = CleanupSelectionView { delete_ids: ids, renames: none };
    let b = choose|b: int|
        0 <= b < audited.len() && (#[trigger] audited[b]).entry.loader_path is Some
            && !audited[b].flags.contains(AuditFlag::Dead);
    assert(crate::boot_cleanup::plan::bootable(audited[b]));
    assert(any_bootable(audited));
    assert(ids.drop_last() =~= Seq::<Seq<char>>::empty());
    assert(delete_all(audited, facts, none, ids.drop_last()) == Ok::<
        Seq<PlannedOpView>,
        PlanErrorView,
    >(Seq::empty()));
    assert(!among_renames(none, id));
    lemma_first_with(audited, id);
    assert forall|k: int| #[trigger] is_first_with(audited, id, k) implies ({
        let e = audited[k];
        let protection = protection_of(e, facts);
        let answer = cleanup_of(audited, facts, sel);
        if !is_free(e, facts) {
            protection is Some && answer == Err::<Seq<PlannedOpView>, PlanErrorView>(
                PlanErrorView::ProtectedEntry { id, protection: protection->0 },
            )
        } else if !way_to_boot(audited, seq![id]) {
            answer == Err::<Seq<PlannedOpView>, PlanErrorView>(
                PlanErrorView::RemovesLastBootableEntry,
            )
        } else {
            answer == Ok::<Seq<PlannedOpView>, PlanErrorView>(
                seq![
                    PlannedOpView::Delete {
                        id: e.entry.id,
                        label: e.entry.label,
                        flags: e.flags,
                    },
                ],
            )
        }
    }) by {
        let e = audited[k];
        lemma_first_is_found(audited, id, k);
        lemma_free(e, facts);
        let op = PlannedOpView::Delete { id: e.entry.id, label: e.entry.label, flags: e.flags };
        if is_free(e, facts) {
            assert(delete_all(audited, facts, none, ids)->Ok_0 =~= seq![op]);
            if way_to_boot(audited, ids) {
                law_safe_selections_are_approved(audited, facts, sel);
            } else if crate::boot_cleanup::plan::bootable_left(audited, ids) {
                let m = choose|m: int|
                    0 <= m < audited.len() && crate::boot_cleanup::plan::bootable(
                        #[trigger] audited[m],
                    ) && !crate::boot_cleanup::plan::among(ids, audited[m].entry.id);
                assert(audited[m].entry.loader_path is Some);
                assert forall|j: int| 0 <= j < ids.len() implies lower(#[trigger] ids[j]) != lower(
                    audited[m].entry.id,
                ) by {
                    if lower(ids[j]) == lower(audited[m].entry.id) {
                        assert(same_ignoring_case(ids[j], audited[m].entry.id));
                    }
                }
            }
        }
    }
}

/// What a single renaming is answered, on an audit that has a way to boot.
pub proof fn law_answer_to_one_rename(
    audited: Seq<AuditedEntryView>,
    facts: NvramFactsView,
    id: Seq<char>,
    proposed: Seq<char>,
)
    requires
        way_to_boot(audited, Seq::empty()),
    ensures
        ({
            let answer = cleanup_of(
                audited,
                facts,
                CleanupSelectionView { delete_ids: Seq::empty(), renames: seq![(id, proposed)] },
            );
            let label = trim(proposed);
            &&& (forall|k: int|
                0 <= k < audited.len() ==> lower((#[trigger] audited[k]).entry.id) != lower(id))
                ==> answer == Err::<Seq<PlannedOpView>, PlanErrorView>(
                PlanErrorView::UnknownEntry { id },
            )
            &&& forall|k: int| #[trigger]
                is_first_with(audited, id, k) ==> {
                    let e = audited[k];
                    let block = block_of(e, label);
                    if !can_label(label) {
                        answer == Err::<Seq<PlannedOpView>, PlanErrorView>(
                            PlanErrorView::InvalidLabel { id, label },
                        )
                    } else if !can_be_renamed(e, label) {
                        block is Some && answer == Err::<Seq<PlannedOpView>, PlanErrorView>(
                            PlanErrorView::NotRenameable { id, block: block->0 },
                        )
                    } else {
                        answer == Ok::<Seq<PlannedOpView>, PlanErrorView>(
                            seq![
                                PlannedOpView::Rename {
                                    id: e.entry.id,
                                    from_label: e.entry.label,
                                    to_label: label,
                                    loader_path: e.entry.loader_path->0,
                                },
                            ],
                        )
                    }
                }
        }),
{
    let pairs = seq![(id, proposed)];
    let none = Seq::<Seq<char>>::empty();
    let label = trim(proposed);
    let sel = CleanupSelectionView { delete_ids: none, renames: pairs };
    let b = choose|b: int|
        0 <= b < audited.len() && (#[trigger] audited[b]).entry.loader_path is Some
            && !audited[b].flags.contains(AuditFlag::Dead);
    assert(crate::boot_cleanup::plan::bootable(audited[b]));
    assert(!crate::boot_cleanup::plan::among(none, audited[b].entry.id));
    assert(pairs.drop_last() =~= Seq::<(Seq<char>, Seq<char>)>::empty());
    let empty = Seq::<PlannedOpView>::empty();
    assert(rename_all(audited, empty, pairs.drop_last()) == Ok::<
        Seq<PlannedOpView>,
        PlanErrorView,
    >(empty));
    lemma_first_with(audited, id);
    crate::text::pieces::lemma_trim(proposed);
    assert forall|k: int| #[trigger] is_first_with(audited, id, k) implies ({
        let e = audited[k];
        let block = block_of(e, label);
        let answer = cleanup_of(audited, facts, sel);
        if !can_label(label) {
            answer == Err::<Seq<PlannedOpView>, PlanErrorView>(
                PlanErrorView::InvalidLabel { id, label },
            )
        } else if !can_be_renamed(e, label) {
            block is Some && answer == Err::<Seq<PlannedOpView>, PlanErrorView>(
                PlanErrorView::NotRenameable { id, block: block->0 },
            )
        } else {
            answer == Ok::<Seq<PlannedOpView>, PlanErrorView>(
                seq![
                    PlannedOpView::Rename {
                        id: e.entry.id,
                        from_label: e.entry.label,
                        to_label: label,
                        loader_path: e.entry.loader_path->0,
                    },
                ],
            )
        }
    }) by {
        lemma_first_is_found(audited, id, k);
        let e = audited[k];
        let op = PlannedOpView::Rename {
            id: e.entry.id,
            from_label: e.entry.label,
            to_label: label,
            loader_path: e.entry.loader_path->0,
        };
        assert(empty.push(op) =~= seq![op]);
    }
}

/// An entry that is to be deleted and renamed at once is refused.
pub proof fn law_deletion_and_rename_do_not_mix(
    audited: Seq<AuditedEntryView>,
    facts: NvramFactsView,
    id: Seq<char>,
    same: Seq<char>,
    label: Seq<char>,
    k: int,
)
    requires
        way_to_boot(audited, Seq::empty()),
        is_first_with(audited, id, k),
        lower(id) == lower(same),
    ensures
        cleanup_of(
            audited,
            facts,
            CleanupSelectionView { delete_ids: seq![id], renames: seq![(same, label)] },
        ) == Err::<Seq<PlannedOpView>, PlanErrorView>(PlanErrorView::ConflictingOps { id }),
{
    let ids = seq![id];
    let pairs = seq![(same, label)];
    let b = choose|b: int|
        0 <= b < audited.len() && (#[trigger] audited[b]).entry.loader_path is Some
            && !audited[b].flags.contains(AuditFlag::Dead);
    assert(crate::boot_cleanup::plan::bootable(audited[b]));
    assert(any_bootable(audited));
    assert(ids.drop_last() =~= Seq::<Seq<char>>::empty());
    assert(delete_all(audited, facts, pairs, ids.drop_last()) is Ok);
    lemma_first_is_found(audited, id, k);
    assert(same_ignoring_case(pairs[0].0, id));
    assert(among_renames(pairs, id));
}

/// The deletions proposed without asking are those of the entries that are dead
/// and free, in order, and of no others.
pub proof fn law_dead_and_free_entries_are_proposed(
    audited: Seq<AuditedEntryView>,
    facts: NvramFactsView,
)
    ensures
        default_ids(audited, facts) == audited.filter(
            |e: AuditedEntryView| e.flags.contains(AuditFlag::Dead) && is_free(e, facts),
        ).map_values(|e: AuditedEntryView| e.entry.id),
    decreases audited.len(),
{
    reveal(Seq::filter);
    let p = |e: AuditedEntryView| e.flags.contains(AuditFlag::Dead) && is_free(e, facts);
    let f = |e: AuditedEntryView| e.entry.id;
    if audited.len() > 0 {
        let d = audited.drop_last();
        law_dead_and_free_entries_are_proposed(d, facts);
        lemma_free(audited.last(), facts);
        assert(d.filter(p).push(audited.last()).map_values(f) =~= d.filter(p).map_values(f).push(
            f(audited.last()),
        ));
    } else {
        assert(default_ids(audited, facts) =~= audited.filter(p).map_values(f));
    }
}

/// Whether the entry is one to brand.
pub open spec fn is_to_be_branded(e: AuditedEntryView, booted: Seq<char>, label: Seq<char>) -> bool {
    lower(e.entry.id) == lower(booted) && e.flags.contains(AuditFlag::GenericLabel)
        && can_be_renamed(e, label)
}

proof fn lemma_first_branding(
    audited: Seq<AuditedEntryView>,
    booted: Seq<char>,
    label: Seq<char>,
)
    ensures
        brandings(audited, booted, label) == audited.filter(
            |e: AuditedEntryView| is_to_be_branded(e, booted, label),
        ).take(
            if audited.filter(|e: AuditedEntryView| is_to_be_branded(e, booted, label)).len() > 0 {
                1
            } else {
                0
            },
        ).map_values(|e: AuditedEntryView| (e.entry.id, label)),
    decreases audited.len(),
{
    reveal(Seq::filter);
    let p = |e: AuditedEntryView| is_to_be_branded(e, booted, label);
    let f = |e: AuditedEntryView| (e.entry.id, label);
    let now = audited.filter(p);
    if audited.len() > 0 {
        let d = audited.drop_last();
        lemma_first_branding(d, booted, label);
        let then = d.filter(p);
        if then.len() > 0 {
            assert(now.take(1) =~= then.take(1));
            assert(then.take(1).map_values(f).len() == 1);
        } else {
            assert(then.take(0).map_values(f) =~= Seq::empty());
            if p(audited.last()) {
                assert(now.take(1).map_values(f) =~= seq![f(audited.last())]);
                assert(brandings(audited, booted, label) =~= seq![f(audited.last())]);
            } else {
                assert(now.take(0).map_values(f) =~= Seq::empty());
            }
        }
    } else {
        assert(now.take(0).map_values(f) =~= Seq::empty());
    }
}

/// The renaming proposed without asking is of the first entry that this boot
/// came from, with a generic label, and that can be created anew under the name
/// of the distribution; there is none where there is no such entry or the name
/// cannot label one.
pub proof fn law_booted_entry_is_branded(
    audited: Seq<AuditedEntryView>,
    facts: NvramFactsView,
    pretty_name: Seq<char>,
)
    ensures
        ({
            let label = trim(pretty_name);
            let r = branding_of(audited, facts, pretty_name);
            &&& !can_label(label) || facts.boot_current is None ==> r.len() == 0
            &&& can_label(label) && facts.boot_current is Some ==> {
                let found = audited.filter(
                    |e: AuditedEntryView| is_to_be_branded(e, facts.boot_current->0, label),
                );
                if found.len() == 0 {
                    r.len() == 0
                } else {
                    r == seq![(found[0].entry.id, label)]
                }
            }
        }),
{
    let label = trim(pretty_name);
    crate::text::pieces::lemma_trim(pretty_name);
    if facts.boot_current is Some {
        let booted = facts.boot_current->0;
        lemma_first_branding(audited, booted, label);
        let p = |e: AuditedEntryView| is_to_be_branded(e, booted, label);
        let f = |e: AuditedEntryView| (e.entry.id, label);
        let found = audited.filter(p);
        if found.len() > 0 {
            assert(found.take(1).map_values(f) =~= seq![(found[0].entry.id, label)]);
        }
    }
}

/// Whether no entry has both the label and the loader of the one given.
pub open spec fn is_gone(current: Seq<BootEntryView>, e: BootEntryView) -> bool {
    forall|i: int|
        0 <= i < current.len() ==> !((#[trigger] current[i]).label == e.label
            && current[i].loader_path == e.loader_path)
}

proof fn lemma_gone(current: Seq<BootEntryView>, e: BootEntryView)
    ensures
        crate::boot_cleanup::plan::present(current, e) <==> !is_gone(current, e),
{
    if !is_gone(current, e) {
        let i = choose|i: int|
            0 <= i < current.len() && (#[trigger] current[i]).label == e.label
                && current[i].loader_path == e.loader_path;
        assert(crate::boot_cleanup::plan::same_entry_as(current[i], e));
    }
    if crate::boot_cleanup::plan::present(current, e) {
        let i = choose|i: int|
            0 <= i < current.len() && crate::boot_cleanup::plan::same_entry_as(
                #[trigger] current[i],
                e,
            );
        assert(current[i].label == e.label && current[i].loader_path == e.loader_path);
    }
}

/// An undo creates anew exactly the recorded entries with a loader that no
/// entry has the label and the loader of now, in their order, each under its old
/// label; those without a loader it reports. The recorded boot order is set
/// last, where one was recorded.
pub proof fn law_undo_puts_back_what_is_gone(
    backup: Seq<BootEntryView>,
    order: Option<Seq<char>>,
    current: Seq<BootEntryView>,
)
    ensures
        ({
            let back = backup.filter(
                |e: BootEntryView| e.loader_path is Some && is_gone(current, e),
            ).map_values(
                |e: BootEntryView|
                    RestoreOpView::Recreate {
                        original_id: e.id,
                        label: e.label,
                        loader_path: e.loader_path->0,
                    },
            );
            let ops = restore_ops(backup, order, current);
            match order {
                Some(o) => ops == back.push(RestoreOpView::SetBootOrder { order: o }),
                None => ops == back,
            }
        }),
        losses(backup, current).map_values(|u: UnrestorableEntryView| (u.id, u.label))
            == backup.filter(
            |e: BootEntryView| e.loader_path is None && is_gone(current, e),
        ).map_values(|e: BootEntryView| (e.id, e.label)),
    decreases backup.len(),
{
    reveal(Seq::filter);
    let p = |e: BootEntryView| e.loader_path is Some && is_gone(current, e);
    let q = |e: BootEntryView| e.loader_path is None && is_gone(current, e);
    let f = |e: BootEntryView|
        RestoreOpView::Recreate {
            original_id: e.id,
            label: e.label,
            loader_path: e.loader_path->0,
        };
    let g = |e: BootEntryView| (e.id, e.label);
    let h = |u: UnrestorableEntryView| (u.id, u.label);
    if backup.len() > 0 {
        let d = backup.drop_last();
        let e = backup.last();
        law_undo_puts_back_what_is_gone(d, None, current);
        lemma_gone(current, e);
        assert(d.filter(p).push(e).map_values(f) =~= d.filter(p).map_values(f).push(f(e)));
        assert(d.filter(q).push(e).map_values(g) =~= d.filter(q).map_values(g).push(g(e)));
        if q(e) {
            let u = losses(backup, current).last();
            assert(losses(d, current).push(u).map_values(h) =~= losses(d, current).map_values(
                h,
            ).push(h(u)));
        }
    } else {
        assert(recreations(backup, current) =~= backup.filter(p).map_values(f));
        assert(losses(backup, current).map_values(h) =~= backup.filter(q).map_values(g));
    }
}

/// An id that became another is replaced by the first that it became.
pub proof fn law_replaced_ids_take_their_place(
    order: Seq<char>,
    remap: Seq<(Seq<char>, Seq<char>)>,
    k: int,
    i: int,
)
    requires
        0 <= k < order_ids(split(order, ',')).len(),
        0 <= i < remap.len(),
        lower(remap[i].0) == lower(order_ids(split(order, ','))[k]),
        forall|j: int|
            0 <= j < i ==> lower((#[trigger] remap[j]).0) != lower(order_ids(split(order, ','))[k]),
    ensures
        remapped_ids(order, remap)[k] == remap[i].1,
{
    lemma_remapped(remap, order_ids(split(order, ','))[k], i);
}

proof fn lemma_remapped(remap: Seq<(Seq<char>, Seq<char>)>, id: Seq<char>, i: int)
    requires
        0 <= i < remap.len(),
        lower(remap[i].0) == lower(id),
        forall|j: int| 0 <= j < i ==> lower((#[trigger] remap[j]).0) != lower(id),
    ensures
        remapped_id(remap, id) == remap[i].1,
    decreases i,
{
    if i > 0 {
        let rest = remap.skip(1);
        assert(lower(remap[0].0) != lower(id));
        assert forall|j: int| 0 <= j < i - 1 implies lower((#[trigger] rest[j]).0) != lower(
            id,
        ) by {
            assert(rest[j] == remap[j + 1]);
        }
        lemma_remapped(rest, id, i - 1);
    }
}

/// The merged order is the restored one, and behind it those ids of the current
/// one that the restored one lacks, with case ignored, in their order.
pub proof fn law_merged_order_adds_what_is_new(restored: Seq<char>, current: Seq<char>)
    ensures
        ({
            let ids = order_ids(split(restored, ','));
            merged_ids(restored, current) == ids + order_ids(split(current, ',')).filter(
                |id: Seq<char>|
                    forall|i: int| 0 <= i < ids.len() ==> lower(#[trigger] ids[i]) != lower(id),
            )
        }),
{
    lemma_not_among_is(order_ids(split(current, ',')), order_ids(split(restored, ',')));
}

proof fn lemma_not_among_is(cur: Seq<Seq<char>>, ids: Seq<Seq<char>>)
    ensures
        not_among(cur, ids) == cur.filter(
            |id: Seq<char>|
                forall|i: int| 0 <= i < ids.len() ==> lower(#[trigger] ids[i]) != lower(id),
        ),
    decreases cur.len(),
{
    reveal(Seq::filter);
    if cur.len() > 0 {
        lemma_not_among_is(cur.drop_last(), ids);
        let id = cur.last();
        if crate::boot_cleanup::plan::among(ids, id) {
            let i = choose|i: int| 0 <= i < ids.len() && same_ignoring_case(#[trigger] ids[i], id);
            assert(lower(ids[i]) == lower(id));
        } else {
            assert forall|i: int| 0 <= i < ids.len() implies lower(#[trigger] ids[i]) != lower(
                id,
            ) by {
                if lower(ids[i]) == lower(id) {
                    assert(same_ignoring_case(ids[i], id));
                }
            }
        }
    }
}

/// The counts of a plan are those of its deletions and of its renames.
pub proof fn law_counts_of_a_plan(ops: Seq<PlannedOpView>)
    ensures
        deletions(ops) == ops.filter(|o: PlannedOpView| o is Delete).len(),
        renames(ops) == ops.filter(|o: PlannedOpView| o is Rename).len(),
    decreases ops.len(),
{
    reveal(Seq::filter);
    if ops.len() > 0 {
        law_counts_of_a_plan(ops.drop_last());
    }
}

proof fn lemma_rename_count(ops: Seq<PlannedOpView>, k: int)
    requires
        0 <= k < ops.len(),
        ops[k] is Rename,
    ensures
        renames(ops) > 0,
    decreases ops.len(),
{
    if k < ops.len() - 1 {
        assert(ops.drop_last()[k] == ops[k]);
        lemma_rename_count(ops.drop_last(), k);
    }
}

proof fn lemma_steps_of_op(ops: Seq<PlannedOpView>, k: int)
    requires
        0 <= k < ops.len(),
    ensures
        match ops[k] {
            PlannedOpView::Delete { id, label, flags } => delete_steps(ops).contains(
                NvramStepView::Delete { id, label },
            ),
            PlannedOpView::Rename { id, from_label, to_label, loader_path } => exists|j: int|
                #![trigger rename_steps(ops)[j]]
                0 <= j && j + 3 < rename_steps(ops).len() && rename_steps(ops)[j]
                    == NvramStepView::ReadOrder && rename_steps(ops)[j + 1]
                    == (NvramStepView::Create { id, label: to_label, loader_path })
                    && rename_steps(ops)[j + 2] == (NvramStepView::DeleteReplaced { id })
                    && rename_steps(ops)[j + 3] == (NvramStepView::TakePlace { id }),
        },
    decreases ops.len(),
{
    let d = ops.drop_last();
    let ds = delete_steps(ops);
    let rs = rename_steps(ops);
    if k < d.len() {
        assert(d[k] == ops[k]);
        lemma_steps_of_op(d, k);
        match ops[k] {
            PlannedOpView::Delete { id, label, flags } => {
                let j = choose|j: int|
                    0 <= j < delete_steps(d).len() && delete_steps(d)[j] == (
                    NvramStepView::Delete { id, label });
                assert(ds[j] == NvramStepView::Delete { id, label });
            },
            PlannedOpView::Rename { id, from_label, to_label, loader_path } => {
                let j = choose|j: int|
                    #![trigger rename_steps(d)[j]]
                    0 <= j && j + 3 < rename_steps(d).len() && rename_steps(d)[j]
                        == NvramStepView::ReadOrder && rename_steps(d)[j + 1]
                        == (NvramStepView::Create { id, label: to_label, loader_path })
                        && rename_steps(d)[j + 2] == (NvramStepView::DeleteReplaced { id })
                        && rename_steps(d)[j + 3] == (NvramStepView::TakePlace { id });
                assert(rs[j] == rename_steps(d)[j]);
                assert(rs[j + 1] == rename_steps(d)[j + 1]);
                assert(rs[j + 2] == rename_steps(d)[j + 2]);
                assert(rs[j + 3] == rename_steps(d)[j + 3]);
            },
        }
    } else {
        match ops[k] {
            PlannedOpView::Delete { id, label, flags } => {
                assert(ds[ds.len() - 1] == NvramStepView::Delete { id, label });
            },
            PlannedOpView::Rename { id, from_label, to_label, loader_path } => {
                let j = rename_steps(d).len() as int;
                assert(rs[j] == NvramStepView::ReadOrder);
                assert(rs[j + 1] == (NvramStepView::Create { id, label: to_label, loader_path }));
                assert(rs[j + 2] == NvramStepView::DeleteReplaced { id });
                assert(rs[j + 3] == NvramStepView::TakePlace { id });
            },
        }
    }
}

/// Every change of a plan is carried out. A deletion is one step. A rename is
/// four, one behind the other: the order is read, the replacement made with the
/// new label and the old loader, the entry that it replaces deleted, and its
/// place taken.
pub proof fn law_every_change_is_carried_out(ops: Seq<PlannedOpView>, k: int)
    requires
        0 <= k < ops.len(),
    ensures
        match ops[k] {
            PlannedOpView::Delete { id, label, flags } => apply_steps(ops).contains(
                NvramStepView::Delete { id, label },
            ),
            PlannedOpView::Rename { id, from_label, to_label, loader_path } => exists|j: int|
                #![trigger apply_steps(ops)[j]]
                0 < j && j + 3 < apply_steps(ops).len() && apply_steps(ops)[j]
                    == NvramStepView::ReadOrder && apply_steps(ops)[j + 1]
                    == (NvramStepView::Create { id, label: to_label, loader_path })
                    && apply_steps(ops)[j + 2] == (NvramStepView::DeleteReplaced { id })
                    && apply_steps(ops)[j + 3] == (NvramStepView::TakePlace { id })
                    && apply_steps(ops)[0] == NvramStepView::ResolveEsp,
        },
{
    lemma_steps_of_op(ops, k);
    let all = apply_steps(ops);
    let ds = delete_steps(ops);
    let rs = rename_steps(ops);
    let p: int = if renames(ops) > 0 {
        1
    } else {
        0
    };
    match ops[k] {
        PlannedOpView::Delete { id, label, flags } => {
            let j = choose|j: int| 0 <= j < ds.len() && ds[j] == (NvramStepView::Delete { id, label });
            assert(all[p + j] == NvramStepView::Delete { id, label });
        },
        PlannedOpView::Rename { id, from_label, to_label, loader_path } => {
            lemma_rename_count(ops, k);
            let j = choose|j: int|
                #![trigger rs[j]]
                0 <= j && j + 3 < rs.len() && rs[j] == NvramStepView::ReadOrder && rs[j + 1] == (
                NvramStepView::Create { id, label: to_label, loader_path }) && rs[j + 2] == (
                NvramStepView::DeleteReplaced { id }) && rs[j + 3] == (
                NvramStepView::TakePlace { id });
            let n = p + ds.len() + j;
            assert(all[n] == rs[j]);
            assert(all[n + 1] == rs[j + 1]);
            assert(all[n + 2] == rs[j + 2]);
            assert(all[n + 3] == rs[j + 3]);
            assert(all[0] == NvramStepView::ResolveEsp);
        },
    }
}

/// There are no steps but those: one for each deletion, four for each rename,
/// and one for the ESP where something is renamed.
pub proof fn law_nothing_else_is_carried_out(ops: Seq<PlannedOpView>)
    ensures
        ({
            let d = ops.filter(|o: PlannedOpView| o is Delete).len() as int;
            let r = ops.filter(|o: PlannedOpView| o is Rename).len() as int;
            apply_steps(ops).len() == d + 4 * r + (if r > 0 {
                1int
            } else {
                0int
            })
        }),
{
    law_counts_of_a_plan(ops);
    lemma_step_counts(ops);
}

proof fn lemma_step_counts(ops: Seq<PlannedOpView>)
    ensures
        delete_steps(ops).len() == deletions(ops),
        rename_steps(ops).len() == 4 * renames(ops),
    decreases ops.len(),
{
    if ops.len() > 0 {
        lemma_step_counts(ops.drop_last());
    }
}

/// The ids that appeared between two listings are those of the later one that
/// no entry of the earlier one has, with case ignored.
pub proof fn law_new_ids_are_those_that_appeared(
    then: Seq<BootEntryView>,
    now: Seq<BootEntryView>,
)
    ensures
        new_ids(then, now) == now.filter(
            |e: BootEntryView|
                forall|i: int| 0 <= i < then.len() ==> lower((#[trigger] then[i]).id) != lower(e.id),
        ).map_values(|e: BootEntryView| e.id),
    decreases now.len(),
{
    reveal(Seq::filter);
    let p = |e: BootEntryView|
        forall|i: int| 0 <= i < then.len() ==> lower((#[trigger] then[i]).id) != lower(e.id);
    let f = |e: BootEntryView| e.id;
    if now.len() > 0 {
        let d = now.drop_last();
        let e = now.last();
        law_new_ids_are_those_that_appeared(then, d);
        assert(d.filter(p).push(e).map_values(f) =~= d.filter(p).map_values(f).push(f(e)));
        if crate::boot_cleanup::live::has_id(then, e.id) {
            let i = choose|i: int|
                0 <= i < then.len() && same_ignoring_case((#[trigger] then[i]).id, e.id);
            assert(lower(then[i].id) == lower(e.id));
        } else {
            assert forall|i: int| 0 <= i < then.len() implies lower((#[trigger] then[i]).id)
                != lower(e.id) by {
                if lower(then[i].id) == lower(e.id) {
                    assert(same_ignoring_case(then[i].id, e.id));
                }
            }
        }
    } else {
        assert(new_ids(then, now) =~= now.filter(p).map_values(f));
    }
}

/// The entries of two runs of lines are those of the one and of the other.
pub proof fn law_entries_are_read_line_by_line(a: Seq<Seq<char>>, b: Seq<Seq<char>>)
    ensures
        entries_in_lines(a + b) == entries_in_lines(a) + entries_in_lines(b),
    decreases b.len(),
{
    if b.len() == 0 {
        assert(a + b =~= a);
        assert(entries_in_lines(a) + entries_in_lines(b) =~= entries_in_lines(a));
    } else {
        law_entries_are_read_line_by_line(a, b.drop_last());
        assert((a + b).drop_last() =~= a + b.drop_last());
        assert((a + b).last() == b.last());
        assert(entries_in_lines(a + b) =~= entries_in_lines(a) + entries_in_lines(b));
    }
}

proof fn lemma_after_file(a: Seq<char>, b: Seq<char>)
    requires
        !holds(a, "File("@),
    ensures
        after_first(a + "File("@ + b, "File("@) == Some(b),
    decreases a.len(),
{
    reveal_strlit("File(");
    let f = "File("@;
    let s = a + f + b;
    if a.len() == 0 {
        assert(s =~= f + b);
        assert(s.take(5) =~= f);
        assert(s.skip(5) =~= b);
        assert(after(s, f) == Some(b));
    } else {
        if begins(s, f) {
            assert(s.take(5) == f);
            if a.len() >= 5 {
                assert(a.subrange(0, 5) =~= s.take(5));
                assert(occurs_at(a, f, 0));
            } else {
                let n = a.len() as int;
                assert(s[n] == 'F');
                assert(s.take(5)[n] == s[n]);
                assert(f[n] == 'F');
            }
        }
        let d = a.skip(1);
        if holds(d, f) {
            let i = choose|i: int| occurs_at(d, f, i);
            assert(a.subrange(i + 1, i + 6) =~= d.subrange(i, i + 5));
            assert(occurs_at(a, f, i + 1));
        }
        lemma_after_file(d, b);
        assert(s.skip(1) =~= d + f + b);
    }
}

proof fn lemma_no_file(a: Seq<char>)
    requires
        !holds(a, "File("@),
    ensures
        after_first(a, "File("@) is None,
    decreases a.len(),
{
    reveal_strlit("File(");
    let f = "File("@;
    if begins(a, f) {
        assert(a.subrange(0, 5) =~= a.take(5));
        assert(occurs_at(a, f, 0));
    }
    if a.len() > 0 {
        let d = a.skip(1);
        if holds(d, f) {
            let i = choose|i: int| occurs_at(d, f, i);
            assert(a.subrange(i + 1, i + 6) =~= d.subrange(i, i + 5));
            assert(occurs_at(a, f, i + 1));
        }
        lemma_no_file(d);
    }
}

proof fn lemma_described(
    label: Seq<char>,
    device: Seq<char>,
    loader: Option<Seq<char>>,
    tail: Seq<char>,
    described: Seq<char>,
)
    requires
        label.len() > 0,
        !is_white(label[0]),
        !is_white(label.last()),
        !label.contains('\t'),
        device.len() > 0,
        !is_white(device.last()),
        !holds(seq![' '] + label + seq!['\t'] + device, "File("@),
        loader is Some ==> !loader->0.contains(')') && (tail.len() == 0 || !is_white(tail.last())),
        described == seq![' '] + label + seq!['\t'] + device + match loader {
            Some(path) => "File("@ + path + seq![')'] + tail,
            None => Seq::empty(),
        },
    ensures
        described.len() > 0,
        described[0] == ' ',
        !is_white(described.last()),
        trim(up_to(described, '\t')) == label,
        loader_in(described) == loader,
{
    let head = seq![' '] + label + seq!['\t'] + device;
    let n = 1 + label.len() as int;
    assert(described[n] == '\t');
    assert forall|i: int| 0 <= i < n implies described[i] != '\t' by {
        if i > 0 {
            assert(described[i] == label[i - 1]);
        }
    }
    lemma_first_index_unique(described, '\t', n);
    assert(up_to(described, '\t') =~= seq![' '] + label + Seq::<char>::empty());
    lemma_trim_around(seq![' '], label, Seq::empty());
    match loader {
        Some(path) => {
            let more = path + seq![')'] + tail;
            assert(described =~= head + "File("@ + more);
            assert(more.last() == if tail.len() > 0 {
                tail.last()
            } else {
                ')'
            });
            assert(described.last() == more.last());
            lemma_after_file(head, more);
            let m = path.len() as int;
            assert(more[m] == ')');
            assert forall|i: int| 0 <= i < m implies more[i] != ')' by {
                assert(more[i] == path[i]);
            }
            lemma_first_index_unique(more, ')', m);
            assert(more.take(m) =~= path);
        },
        None => {
            assert(described =~= head);
            assert(described.last() == device.last());
            lemma_no_file(head);
        },
    }
}

/// An entry is read from its line: four hexadecimal digits behind `Boot`, a star
/// where it is active, the label up to a tab, and the path in the first
/// `File(...)`, where there is one.
pub proof fn law_entry_is_read_from_its_line(
    id: Seq<char>,
    active: bool,
    label: Seq<char>,
    device: Seq<char>,
    loader: Option<Seq<char>>,
    tail: Seq<char>,
)
    requires
        id.len() == 4,
        all_hex(id),
        label.len() > 0,
        !is_white(label[0]),
        !is_white(label.last()),
        !label.contains('\t'),
        device.len() > 0,
        !is_white(device.last()),
        !holds(seq![' '] + label + seq!['\t'] + device, "File("@),
        loader is Some ==> !loader->0.contains(')') && (tail.len() == 0 || !is_white(tail.last())),
    ensures
        ({
            let line = "Boot"@ + id + (if active {
                seq!['*']
            } else {
                Seq::empty()
            }) + (seq![' '] + label + seq!['\t'] + device + match loader {
                Some(path) => "File("@ + path + seq![')'] + tail,
                None => Seq::empty(),
            });
            entry_in_line(line) == Some(BootEntryView { id, label, active, loader_path: loader })
        }),
{
    let described = seq![' '] + label + seq!['\t'] + device + match loader {
        Some(path) => "File("@ + path + seq![')'] + tail,
        None => Seq::empty(),
    };
    lemma_described(label, device, loader, tail, described);
    lemma_line(id, active, described);
}

proof fn lemma_line(id: Seq<char>, active: bool, described: Seq<char>)
    requires
        id.len() == 4,
        all_hex(id),
        described.len() > 0,
        described[0] == ' ',
        !is_white(described.last()),
    ensures
        entry_in_line(
            "Boot"@ + id + (if active {
                seq!['*']
            } else {
                Seq::empty()
            }) + described,
        ) == Some(
            BootEntryView {
                id,
                label: trim(up_to(described, '\t')),
                active,
                loader_path: loader_in(described),
            },
        ),
{
    reveal_strlit("Boot");
    let star = if active {
        seq!['*']
    } else {
        Seq::empty()
    };
    let line = "Boot"@ + id + star + described;
    assert(line.last() == described.last());
    assert(line[0] == 'B');
    lemma_trimmed_is_kept(line);
    assert(line.take(4) =~= "Boot"@);
    let rest = line.skip(4);
    assert(rest.take(4) =~= id);
    let behind = rest.skip(4);
    assert(behind =~= star + described);
    if active {
        assert(behind[0] == '*');
        assert(behind.skip(1) =~= described);
    } else {
        assert(behind =~= described);
    }
}

/// A label can name an entry where it is not blank and no character of it is a
/// control character, such as an end of a line.
pub proof fn law_label_that_can_be_given(label: Seq<char>, i: int)
    ensures
        valid_label(label) && 0 <= i < label.len() ==> label[i] as u32 > 0x1f && !(0x7f
            <= label[i] as u32 <= 0x9f),
        trim(label).len() == 0 ==> !valid_label(label),
        (forall|k: int| 0 <= k < label.len() ==> ' ' <= #[trigger] label[k] <= '~') && trim(
            label,
        ).len() > 0 ==> valid_label(label),
{
}

/// Only what is dead and not the firmware's own is chosen beforehand.
pub proof fn law_what_is_chosen_beforehand(e: AuditedEntryView)
    ensures
        e.preselectable() <==> e.flags.contains(AuditFlag::Dead) && !e.flags.contains(
            AuditFlag::FirmwareManaged,
        ),
{
}

/// Only a line that begins with `Boot` and four hexadecimal digits describes an
/// entry, and those digits are its id: the lines on the order, on the timeout and
/// on what was booted describe none.
pub proof fn law_other_lines_are_no_entries(line: Seq<char>)
    ensures
        entry_in_line(line) matches Some(e) ==> e.id.len() == 4 && (forall|i: int|
            0 <= i < 4 ==> is_hex_digit(#[trigger] e.id[i])) && begins(trim(line), "Boot"@ + e.id),
        entry_in_line(line) is None ==> !(begins(trim(line), "Boot"@) && trim(line).len() >= 8
            && forall|i: int| 4 <= i < 8 ==> is_hex_digit(#[trigger] trim(line)[i])),
{
    reveal_strlit("Boot");
    let t = trim(line);
    let rest = t.skip(4);
    if let Some(e) = entry_in_line(line) {
        assert(e.id == rest.take(4));
        assert(t.take(8) =~= "Boot"@ + e.id) by {
            assert(t.take(4) == "Boot"@);
            assert forall|i: int| 0 <= i < 4 implies t[i] == "Boot"@[i] by {
                assert(t.take(4)[i] == t[i]);
            }
        }
    } else if begins(t, "Boot"@) && t.len() >= 8 && (forall|i: int|
        4 <= i < 8 ==> is_hex_digit(#[trigger] t[i])) {
        assert forall|i: int| 0 <= i < 4 implies is_hex_digit(#[trigger] rest.take(4)[i]) by {
            assert(rest.take(4)[i] == t[i + 4]);
        }
        assert(all_hex(rest.take(4)));
    }
}

} // verus!

//! The steps that carry out an approved plan, and the record that undoes it.
//!
//! There is no policy here: what may be changed was decided by
//! [`super::plan`]. What is decided here is the order of the steps, and that
//! order is what keeps the machine bootable if it loses power between two of
//! them.

use vstd::prelude::*;

use crate::boot_audit::{entries_in_lines, parse_efibootmgr_entries, BootEntry, BootEntryView};
use crate::boot_cleanup::plan::{
    merge_boot_order, merged_ids, remap_boot_order, remapped_ids, renames, CleanupPlan, PlannedOp,
    PlannedOpView, RestoreOp, RestoreOpView, RestorePlan,
};
use crate::migration::rollback::{first_scalar, parse_boot_current, parse_boot_order};
use crate::text::compose::{join, owned_all};
use crate::text::numbers::{
    digits_bound, digits_value, fixed_decimal, fixed_decimal_of, is_number,
    lemma_fixed_decimal_of_value, lemma_fixed_decimal_order, lemma_fixed_decimal_value, parse_u64,
};
use crate::text::order::{
    lemma_precedes_behind, lemma_precedes_irreflexive, lemma_precedes_transitive, precedes,
};
use crate::text::pieces::lines;
use crate::text::search::{
    after, before, same, same_ignore_case, same_ignoring_case, strip_prefix, strip_suffix,
};

verus! {

/// Where the records are kept. They have to outlive a reboot and a cleaner of
/// temporary files.
pub const BACKUP_DIR: &'static str = "/var/lib/bootc-rebase/boot-entry-backups";

/// NVRAM as it was before a cleanup.
#[derive(Debug, Clone, PartialEq, Eq)]
pub struct NvramSnapshot {
    pub taken_at_unix_secs: u64,
    pub boot_order: Option<String>,
    pub boot_current: Option<String>,
    pub entries: Vec<BootEntry>,
    /// What `efibootmgr -v` printed, for a human who rebuilds an entry by hand.
    pub efibootmgr_v: String,
}

/// The record of what `efibootmgr -v` printed at the given time.
pub fn snapshot_from_output(efibootmgr_v: &str, taken_at_unix_secs: u64) -> (r: NvramSnapshot)
    ensures
        r.taken_at_unix_secs == taken_at_unix_secs,
        r.boot_order.deep_view() == first_scalar(lines(efibootmgr_v@), "BootOrder:"@),
        r.boot_current.deep_view() == first_scalar(lines(efibootmgr_v@), "BootCurrent:"@),
        r.entries.deep_view() == entries_in_lines(lines(efibootmgr_v@)),
        r.efibootmgr_v@ == efibootmgr_v@,
{
    NvramSnapshot {
        taken_at_unix_secs,
        boot_order: parse_boot_order(efibootmgr_v),
        boot_current: parse_boot_current(efibootmgr_v),
        entries: parse_efibootmgr_entries(efibootmgr_v),
        efibootmgr_v: efibootmgr_v.to_owned(),
    }
}

/// How many digits the time takes in a record's file name: enough for every
/// `u64`.
pub const TIMESTAMP_DIGITS: usize = 20;

/// The name of the file for a record taken at the given time.
pub open spec fn filename_of(taken_at_unix_secs: nat) -> Seq<char> {
    "nvram-"@ + fixed_decimal(taken_at_unix_secs, TIMESTAMP_DIGITS as nat) + ".json"@
}

/// The time that a record's file name gives.
pub open spec fn timestamp_in(filename: Seq<char>) -> Option<nat> {
    match after(filename, "nvram-"@) {
        Some(rest) => match before(rest, ".json"@) {
            Some(digits) => if digits.len() == TIMESTAMP_DIGITS && is_number(digits)
                && digits_value(digits) <= u64::MAX {
                Some(digits_value(digits))
            } else {
                None
            },
            None => None,
        },
        None => None,
    }
}

/// The name of the file for a record taken at the given time. Its width is
/// fixed, so that a listing of the names sorts by time.
pub fn snapshot_filename(taken_at_unix_secs: u64) -> (r: String)
    ensures
        r@ == filename_of(taken_at_unix_secs as nat),
{
    let mut r: String = "nvram-".to_owned();
    r.append(fixed_decimal_of(taken_at_unix_secs, TIMESTAMP_DIGITS).as_str());
    r.append(".json");
    r
}

/// The time that a record's file name gives, or `None` for a name that
/// [`snapshot_filename`] did not make.
pub fn parse_snapshot_timestamp(filename: &str) -> (r: Option<u64>)
    ensures
        forall|t: u64| r == Some(t) <==> filename@ == #[trigger] filename_of(t as nat),
        match r {
            Some(n) => timestamp_in(filename@) == Some(n as nat),
            None => timestamp_in(filename@) is None,
        },
{
    proof {
        law_timestamp_is_of_the_name(filename@);
        assert forall|t: u64| filename@ == #[trigger] filename_of(t as nat) implies timestamp_in(
            filename@,
        ) == Some(t as nat) by {
            law_snapshot_filename_round_trips(t);
        }
    }
    let digits: String = match strip_prefix(filename, "nvram-") {
        Some(rest) => match strip_suffix(rest.as_str(), ".json") {
            Some(digits) => digits,
            None => {
                return None;
            },
        },
        None => {
            return None;
        },
    };
    match parse_u64(digits.as_str()) {
        Some(n) => {
            let made: String = snapshot_filename(n);
            if same(made.as_str(), filename) {
                proof {
                    law_snapshot_filename_round_trips(n);
                }
                Some(n)
            } else {
                None
            }
        },
        None => {
            None
        },
    }
}

/// The time that a file name was made from is read back from it.
pub proof fn law_snapshot_filename_round_trips(n: u64)
    ensures
        timestamp_in(filename_of(n as nat)) == Some(n as nat),
{
    let p = "nvram-"@;
    let d = fixed_decimal(n as nat, TIMESTAMP_DIGITS as nat);
    let e = ".json"@;
    let f = filename_of(n as nat);
    lemma_time_fits(n);
    lemma_fixed_decimal_value(n as nat, TIMESTAMP_DIGITS as nat);
    assert(f.take(p.len() as int) =~= p);
    assert(f.skip(p.len() as int) =~= d + e);
    assert((d + e).skip(d.len() as int) =~= e);
    assert((d + e).take(d.len() as int) =~= d);
}

/// A name gives a time only where it is the name made from that time.
pub proof fn law_timestamp_is_of_the_name(filename: Seq<char>)
    ensures
        timestamp_in(filename) matches Some(t) ==> t <= u64::MAX && filename == filename_of(t),
{
    if timestamp_in(filename) is Some {
        let p = "nvram-"@;
        let e = ".json"@;
        let rest = after(filename, p)->0;
        let digits = before(rest, e)->0;
        lemma_fixed_decimal_of_value(digits);
        assert(rest =~= digits + e);
        assert(filename =~= p + digits + e);
    }
}

/// Every time fits into the digits of a file name.
proof fn lemma_time_fits(n: u64)
    ensures
        n < digits_bound(TIMESTAMP_DIGITS as nat),
{
    reveal_with_fuel(digits_bound, 21);
}

/// File names sort as their times do, and all have one length.
pub proof fn law_snapshot_names_sort_by_time(a: u64, b: u64)
    ensures
        precedes(filename_of(a as nat), filename_of(b as nat)) <==> a < b,
        filename_of(a as nat).len() == filename_of(b as nat).len(),
{
    lemma_fixed_decimal_value(a as nat, TIMESTAMP_DIGITS as nat);
    lemma_fixed_decimal_value(b as nat, TIMESTAMP_DIGITS as nat);
    if a < b {
        lemma_earlier_name_precedes(a, b);
    } else if b < a {
        lemma_earlier_name_precedes(b, a);
        if precedes(filename_of(a as nat), filename_of(b as nat)) {
            lemma_precedes_transitive(
                filename_of(a as nat),
                filename_of(b as nat),
                filename_of(a as nat),
            );
        }
        lemma_precedes_irreflexive(filename_of(a as nat));
    } else {
        lemma_precedes_irreflexive(filename_of(a as nat));
    }
}

/// The name made from the earlier time stands first.
proof fn lemma_earlier_name_precedes(a: u64, b: u64)
    requires
        a < b,
    ensures
        precedes(filename_of(a as nat), filename_of(b as nat)),
{
    let w = TIMESTAMP_DIGITS as nat;
    let p = "nvram-"@;
    let e = ".json"@;
    lemma_time_fits(b);
    lemma_fixed_decimal_order(a as nat, b as nat, w, e, e);
    lemma_precedes_behind(p, fixed_decimal(a as nat, w) + e, fixed_decimal(b as nat, w) + e);
    assert(filename_of(a as nat) =~= p + (fixed_decimal(a as nat, w) + e));
    assert(filename_of(b as nat) =~= p + (fixed_decimal(b as nat, w) + e));
}

/// The newest of the records among the file names: the one with the latest
/// time, and the first of those that share it.
pub open spec fn newest_record(names: Seq<Seq<char>>) -> Option<Seq<char>>
    decreases names.len(),
{
    if names.len() == 0 {
        None
    } else {
        let best = newest_record(names.drop_last());
        match timestamp_in(names.last()) {
            None => best,
            Some(t) => match best {
                Some(b) => if t > timestamp_in(b)->0 {
                    Some(names.last())
                } else {
                    best
                },
                None => Some(names.last()),
            },
        }
    }
}

/// The newest record is one of the files, and none has a later time. Where
/// there is none, no file is a record.
pub proof fn law_newest_record(names: Seq<Seq<char>>)
    ensures
        match newest_record(names) {
            Some(b) => names.contains(b) && timestamp_in(b) is Some && forall|k: int|
                0 <= k < names.len() && timestamp_in(#[trigger] names[k]) is Some ==> timestamp_in(
                    names[k],
                )->0 <= timestamp_in(b)->0,
            None => forall|k: int|
                0 <= k < names.len() ==> timestamp_in(#[trigger] names[k]) is None,
        },
    decreases names.len(),
{
    if names.len() > 0 {
        let d = names.drop_last();
        law_newest_record(d);
        let r = newest_record(names);
        match r {
            Some(b) => {
                if d.contains(b) {
                    let m = choose|m: int| 0 <= m < d.len() && d[m] == b;
                    assert(names[m] == b);
                } else {
                    assert(names[names.len() - 1] == b);
                }
                assert forall|k: int|
                    0 <= k < names.len() && timestamp_in(
                        #[trigger] names[k],
                    ) is Some implies timestamp_in(names[k])->0 <= timestamp_in(b)->0 by {
                    if k < d.len() {
                        assert(d[k] == names[k]);
                    }
                }
            },
            None => {
                assert forall|k: int| 0 <= k < names.len() implies timestamp_in(
                    #[trigger] names[k],
                ) is None by {
                    if k < d.len() {
                        assert(d[k] == names[k]);
                    }
                }
            },
        }
    }
}

/// The newest record among the names of the files in the directory, if there
/// is one. Other files are passed over.
pub fn latest_snapshot(names: &[String]) -> (r: Option<String>)
    ensures
        r.deep_view() == newest_record(names.deep_view()),
{
    let ghost all = names.deep_view();
    let mut best: Option<(u64, String)> = None;
    let mut i: usize = 0;
    assert(all.take(0) =~= Seq::<Seq<char>>::empty());
    while i < names.len()
        invariant
            all == names.deep_view(),
            i <= names@.len(),
            match best {
                Some((t, b)) => newest_record(all.take(i as int)) == Some(b@) && timestamp_in(b@)
                    == Some(t as nat),
                None => newest_record(all.take(i as int)) is None,
            },
        decreases names@.len() - i,
    {
        proof {
            assert(all[i as int] == names@[i as int]@);
            assert(all.take(i + 1).drop_last() =~= all.take(i as int));
            assert(all.take(i + 1).last() == all[i as int]);
        }
        match parse_snapshot_timestamp(names[i].as_str()) {
            Some(t) => {
                let newer: bool = match &best {
                    Some((best_t, _)) => t > *best_t,
                    None => true,
                };
                if newer {
                    best = Some((t, names[i].clone()));
                }
            },
            None => {},
        }
        i = i + 1;
    }
    assert(all.take(i as int) =~= all);
    match best {
        Some((_, b)) => Some(b),
        None => None,
    }
}

/// Whether an entry of `entries` has the id, with case ignored.
pub open spec fn has_id(entries: Seq<BootEntryView>, id: Seq<char>) -> bool {
    exists|i: int| 0 <= i < entries.len() && same_ignoring_case((#[trigger] entries[i]).id, id)
}

/// The ids of `now` that no entry of `then` has.
pub open spec fn new_ids(then: Seq<BootEntryView>, now: Seq<BootEntryView>) -> Seq<Seq<char>>
    decreases now.len(),
{
    if now.len() == 0 {
        Seq::empty()
    } else if has_id(then, now.last().id) {
        new_ids(then, now.drop_last())
    } else {
        new_ids(then, now.drop_last()).push(now.last().id)
    }
}

/// Whether an entry of `entries` has the id.
fn any_has_id(entries: &[BootEntry], id: &str) -> (r: bool)
    ensures
        r == has_id(entries.deep_view(), id@),
{
    let mut i: usize = 0;
    while i < entries.len()
        invariant
            i <= entries@.len(),
            forall|k: int|
                0 <= k < i ==> !same_ignoring_case((#[trigger] entries.deep_view()[k]).id, id@),
        decreases entries@.len() - i,
    {
        assert(entries.deep_view()[i as int] == entries@[i as int].deep_view());
        if same_ignore_case(entries[i].id.as_str(), id) {
            return true;
        }
        i = i + 1;
    }
    false
}

/// The id that appeared between two listings, if exactly one did: only then
/// is it surely the one just created.
pub fn newly_created_id(before: &[BootEntry], after: &[BootEntry]) -> (r: Option<String>)
    ensures
        r.deep_view() == (if new_ids(before.deep_view(), after.deep_view()).len() == 1 {
            Some(new_ids(before.deep_view(), after.deep_view())[0])
        } else {
            None
        }),
{
    let ghost then = before.deep_view();
    let ghost all = after.deep_view();
    let mut found: Vec<String> = Vec::new();
    let mut i: usize = 0;
    assert(found.deep_view() =~= new_ids(then, all.take(0)));
    while i < after.len()
        invariant
            then == before.deep_view(),
            all == after.deep_view(),
            i <= after@.len(),
            found.deep_view() == new_ids(then, all.take(i as int)),
        decreases after@.len() - i,
    {
        proof {
            assert(all.take(i + 1).drop_last() =~= all.take(i as int));
            assert(all.take(i + 1).last() == after@[i as int].deep_view());
        }
        let ghost old_found = found.deep_view();
        if !any_has_id(before, after[i].id.as_str()) {
            found.push(after[i].id.clone());
            assert(found.deep_view() =~= old_found.push(after@[i as int].id@));
        }
        i = i + 1;
    }
    assert(all.take(i as int) =~= all);
    if found.len() == 1 {
        assert(found.deep_view()[0] == found@[0]@);
        Some(found[0].clone())
    } else {
        None
    }
}

/// One step against NVRAM.
#[derive(Debug, Clone, PartialEq, Eq)]
pub enum NvramStep {
    /// Find the disk and partition of the ESP. Where this fails nothing has
    /// been changed.
    ResolveEsp,
    /// Delete a selected entry.
    Delete { id: String, label: String },
    /// Read `BootOrder`, which creating an entry is about to change.
    ReadOrder,
    /// Create the replacement of the entry `id`.
    Create { id: String, label: String, loader_path: String },
    /// Delete the entry that was just replaced.
    DeleteReplaced { id: String },
    /// Put the replacement where `id` stood in the order that was read.
    TakePlace { id: String },
}

/// What an [`NvramStep`] holds.
#[verifier::ext_equal]
pub enum NvramStepView {
    ResolveEsp,
    Delete { id: Seq<char>, label: Seq<char> },
    ReadOrder,
    Create { id: Seq<char>, label: Seq<char>, loader_path: Seq<char> },
    DeleteReplaced { id: Seq<char> },
    TakePlace { id: Seq<char> },
}

impl DeepView for NvramStep {
    type V = NvramStepView;

    open spec fn deep_view(&self) -> NvramStepView {
        match self {
            NvramStep::ResolveEsp => NvramStepView::ResolveEsp,
            NvramStep::Delete { id, label } => NvramStepView::Delete { id: id@, label: label@ },
            NvramStep::ReadOrder => NvramStepView::ReadOrder,
            NvramStep::Create { id, label, loader_path } => NvramStepView::Create {
                id: id@,
                label: label@,
                loader_path: loader_path@,
            },
            NvramStep::DeleteReplaced { id } => NvramStepView::DeleteReplaced { id: id@ },
            NvramStep::TakePlace { id } => NvramStepView::TakePlace { id: id@ },
        }
    }
}

/// The deletions among the changes.
pub open spec fn delete_steps(ops: Seq<PlannedOpView>) -> Seq<NvramStepView>
    decreases ops.len(),
{
    if ops.len() == 0 {
        Seq::empty()
    } else {
        match ops.last() {
            PlannedOpView::Delete { id, label, flags } => delete_steps(ops.drop_last()).push(
                NvramStepView::Delete { id, label },
            ),
            PlannedOpView::Rename { .. } => delete_steps(ops.drop_last()),
        }
    }
}

/// The steps of one rename: the replacement exists before the original goes.
pub open spec fn one_rename(
    id: Seq<char>,
    to_label: Seq<char>,
    loader_path: Seq<char>,
) -> Seq<NvramStepView> {
    seq![
        NvramStepView::ReadOrder,
        NvramStepView::Create { id, label: to_label, loader_path },
        NvramStepView::DeleteReplaced { id },
        NvramStepView::TakePlace { id },
    ]
}

/// The steps of the renames among the changes.
pub open spec fn rename_steps(ops: Seq<PlannedOpView>) -> Seq<NvramStepView>
    decreases ops.len(),
{
    if ops.len() == 0 {
        Seq::empty()
    } else {
        match ops.last() {
            PlannedOpView::Delete { .. } => rename_steps(ops.drop_last()),
            PlannedOpView::Rename { id, from_label, to_label, loader_path } => rename_steps(
                ops.drop_last(),
            ) + one_rename(id, to_label, loader_path),
        }
    }
}

/// The steps that carry out the changes. The ESP is resolved first where a
/// rename needs it, so that such a plan fails before it deletes anything.
pub open spec fn apply_steps(ops: Seq<PlannedOpView>) -> Seq<NvramStepView> {
    (if renames(ops) > 0 {
        seq![NvramStepView::ResolveEsp]
    } else {
        Seq::empty()
    }) + delete_steps(ops) + rename_steps(ops)
}

/// The steps that carry out an approved plan.
pub fn plan_steps(plan: &CleanupPlan) -> (r: Vec<NvramStep>)
    ensures
        r.deep_view() == apply_steps(plan.ops.deep_view()),
{
    let ghost all = plan.ops.deep_view();
    let mut r: Vec<NvramStep> = Vec::new();
    if plan.rename_count() > 0 {
        r.push(NvramStep::ResolveEsp);
    }
    let ghost first = r.deep_view();
    assert(first =~= if renames(all) > 0 {
        seq![NvramStepView::ResolveEsp]
    } else {
        Seq::empty()
    });
    let mut i: usize = 0;
    assert(r.deep_view() =~= first + delete_steps(all.take(0)));
    while i < plan.ops.len()
        invariant
            all == plan.ops.deep_view(),
            i <= plan.ops@.len(),
            r.deep_view() == first + delete_steps(all.take(i as int)),
        decreases plan.ops@.len() - i,
    {
        proof {
            assert(all.take(i + 1).drop_last() =~= all.take(i as int));
            assert(all.take(i + 1).last() == plan.ops@[i as int].deep_view());
        }
        let ghost old_r = r.deep_view();
        match &plan.ops[i] {
            PlannedOp::Delete { id, label, .. } => {
                let step: NvramStep = NvramStep::Delete { id: id.clone(), label: label.clone() };
                r.push(step);
                assert(r.deep_view() =~= old_r.push(step.deep_view()));
                assert(old_r.push(step.deep_view()) =~= first + delete_steps(
                    all.take(i as int),
                ).push(step.deep_view()));
            },
            PlannedOp::Rename { .. } => {},
        }
        i = i + 1;
    }
    assert(all.take(i as int) =~= all);
    let ghost second = r.deep_view();
    let mut j: usize = 0;
    assert(r.deep_view() =~= second + rename_steps(all.take(0)));
    while j < plan.ops.len()
        invariant
            all == plan.ops.deep_view(),
            j <= plan.ops@.len(),
            r.deep_view() == second + rename_steps(all.take(j as int)),
        decreases plan.ops@.len() - j,
    {
        proof {
            assert(all.take(j + 1).drop_last() =~= all.take(j as int));
            assert(all.take(j + 1).last() == plan.ops@[j as int].deep_view());
        }
        let ghost old_r = r.deep_view();
        match &plan.ops[j] {
            PlannedOp::Delete { .. } => {},
            PlannedOp::Rename { id, to_label, loader_path, .. } => {
                r.push(NvramStep::ReadOrder);
                r.push(
                    NvramStep::Create {
                        id: id.clone(),
                        label: to_label.clone(),
                        loader_path: loader_path.clone(),
                    },
                );
                r.push(NvramStep::DeleteReplaced { id: id.clone() });
                r.push(NvramStep::TakePlace { id: id.clone() });
                assert(r.deep_view() =~= old_r + one_rename(id@, to_label@, loader_path@));
                assert(old_r + one_rename(id@, to_label@, loader_path@) =~= second + (rename_steps(
                    all.take(j as int),
                ) + one_rename(id@, to_label@, loader_path@)));
            },
        }
        j = j + 1;
    }
    assert(all.take(j as int) =~= all);
    r
}

/// There are four steps for each rename, and each deletion of a replaced entry
/// comes straight after the creation of its replacement.
proof fn lemma_rename_steps(ops: Seq<PlannedOpView>, j: int)
    requires
        0 <= j < rename_steps(ops).len(),
    ensures
        !(rename_steps(ops)[j] is Delete),
        !(rename_steps(ops)[j] is ResolveEsp),
        renames(ops) > 0,
        rename_steps(ops)[j] is DeleteReplaced ==> j > 0 && rename_steps(ops)[j - 1] is Create
            && rename_steps(ops)[j - 1]->Create_id == rename_steps(ops)[j]->DeleteReplaced_id,
        rename_steps(ops)[j] is Create ==> j > 0 && rename_steps(ops)[j - 1] is ReadOrder,
    decreases ops.len(),
{
    let d = ops.drop_last();
    if ops.last() is Delete {
        lemma_rename_steps(d, j);
    } else if j < rename_steps(d).len() {
        lemma_rename_steps(d, j);
    }
}

/// The deletions are nothing but deletions.
proof fn lemma_delete_steps(ops: Seq<PlannedOpView>)
    ensures
        forall|j: int| 0 <= j < delete_steps(ops).len() ==> (#[trigger] delete_steps(ops)[j]) is Delete,
    decreases ops.len(),
{
    if ops.len() > 0 {
        lemma_delete_steps(ops.drop_last());
    }
}

/// A rename never leaves its loader without an entry: where a replaced entry
/// is deleted, the step before created its replacement, and the order was read
/// before that.
pub proof fn law_replacement_exists_before_deletion(ops: Seq<PlannedOpView>, j: int)
    requires
        0 <= j < apply_steps(ops).len(),
        apply_steps(ops)[j] is DeleteReplaced,
    ensures
        j >= 2,
        apply_steps(ops)[j - 1] is Create,
        apply_steps(ops)[j - 1]->Create_id == apply_steps(ops)[j]->DeleteReplaced_id,
        apply_steps(ops)[j - 2] is ReadOrder,
{
    lemma_delete_steps(ops);
    let n = apply_steps(ops).len() - rename_steps(ops).len();
    if j < n {
        let p: int = if renames(ops) > 0 { 1 } else { 0 };
        if j >= p {
            assert(apply_steps(ops)[j] == delete_steps(ops)[j - p]);
        }
    }
    assert(apply_steps(ops)[j] == rename_steps(ops)[j - n]);
    lemma_rename_steps(ops, j - n);
    lemma_rename_steps(ops, j - n - 1);
}

/// A plan that recreates an entry resolves the ESP before it changes anything.
pub proof fn law_esp_is_resolved_first(ops: Seq<PlannedOpView>, j: int)
    requires
        0 <= j < apply_steps(ops).len(),
        apply_steps(ops)[j] is Create,
    ensures
        apply_steps(ops)[0] is ResolveEsp,
{
    lemma_delete_steps(ops);
    let n = apply_steps(ops).len() - rename_steps(ops).len();
    if j >= n {
        assert(apply_steps(ops)[j] == rename_steps(ops)[j - n]);
        lemma_rename_steps(ops, j - n);
    } else {
        let p: int = if renames(ops) > 0 { 1 } else { 0 };
        if j >= p {
            assert(apply_steps(ops)[j] == delete_steps(ops)[j - p]);
        }
    }
}

/// The boot order with the replacement where the original stood. Without an
/// order there is no place to take.
pub fn order_after_rename(order_before: Option<&str>, id: &str, new_id: &str) -> (r: Option<String>)
    ensures
        match order_before {
            Some(o) => r.deep_view() == Some(join(remapped_ids(o@, seq![(id@, new_id@)]), ","@)),
            None => r is None,
        },
{
    match order_before {
        Some(order) => {
            let mut remap: Vec<(String, String)> = Vec::new();
            remap.push((id.to_owned(), new_id.to_owned()));
            assert(remap.deep_view() =~= seq![(id@, new_id@)]);
            Some(remap_boot_order(order, remap.as_slice()))
        },
        None => None,
    }
}

/// Whether one of the steps creates an entry.
pub open spec fn recreates(ops: Seq<RestoreOpView>) -> bool {
    exists|i: int| 0 <= i < ops.len() && (#[trigger] ops[i]) is Recreate
}

/// Whether the undo creates an entry, and so needs the disk and partition of
/// the ESP.
pub fn undo_needs_esp(plan: &RestorePlan) -> (r: bool)
    ensures
        r == recreates(plan.ops.deep_view()),
{
    let ghost all = plan.ops.deep_view();
    let mut i: usize = 0;
    while i < plan.ops.len()
        invariant
            all == plan.ops.deep_view(),
            i <= plan.ops@.len(),
            forall|k: int| 0 <= k < i ==> !((#[trigger] all[k]) is Recreate),
        decreases plan.ops@.len() - i,
    {
        assert(all[i as int] == plan.ops@[i as int].deep_view());
        match &plan.ops[i] {
            RestoreOp::Recreate { .. } => {
                return true;
            },
            RestoreOp::SetBootOrder { .. } => {},
        }
        i = i + 1;
    }
    false
}

/// The boot order that an undo sets: the recorded one with the recreated ids
/// in place of the old, and behind it what NVRAM gained since.
pub open spec fn undo_order(
    order: Seq<char>,
    id_remap: Seq<(Seq<char>, Seq<char>)>,
    current: Option<Seq<char>>,
) -> Seq<char> {
    let remapped = join(remapped_ids(order, id_remap), ","@);
    match current {
        Some(c) => join(merged_ids(remapped, c), ","@),
        None => remapped,
    }
}

/// The boot order that an undo sets.
pub fn order_after_undo(
    order: &str,
    id_remap: &[(String, String)],
    current: Option<&str>,
) -> (r: String)
    ensures
        r@ == undo_order(
            order@,
            id_remap.deep_view(),
            match current {
                Some(c) => Some(c@),
                None => None,
            },
        ),
{
    let remapped: String = remap_boot_order(order, id_remap);
    match current {
        Some(c) => merge_boot_order(remapped.as_str(), c),
        None => remapped,
    }
}

/// The arguments of `efibootmgr` that create an entry.
pub fn create_entry_args(
    esp_disk: &str,
    esp_part: &str,
    loader_path: &str,
    label: &str,
) -> (r: Vec<String>)
    ensures
        r.deep_view() == seq![
            "--create"@,
            "--disk"@,
            esp_disk@,
            "--part"@,
            esp_part@,
            "--loader"@,
            loader_path@,
            "--label"@,
            label@,
        ],
{
    let a: [&str; 9] = [
        "--create",
        "--disk",
        esp_disk,
        "--part",
        esp_part,
        "--loader",
        loader_path,
        "--label",
        label,
    ];
    let r: Vec<String> = owned_all(&a);
    assert(r.deep_view() =~= seq![
        "--create"@,
        "--disk"@,
        esp_disk@,
        "--part"@,
        esp_part@,
        "--loader"@,
        loader_path@,
        "--label"@,
        label@,
    ]);
    r
}

/// The arguments of `efibootmgr` that delete an entry.
pub fn delete_entry_args(id: &str) -> (r: Vec<String>)
    ensures
        r.deep_view() == seq!["-b"@, id@, "-B"@],
{
    let a: [&str; 3] = ["-b", id, "-B"];
    let r: Vec<String> = owned_all(&a);
    assert(r.deep_view() =~= seq!["-b"@, id@, "-B"@]);
    r
}

/// The arguments of `efibootmgr` that set the boot order.
pub fn set_boot_order_args(order: &str) -> (r: Vec<String>)
    ensures
        r.deep_view() == seq!["--bootorder"@, order@],
{
    let a: [&str; 2] = ["--bootorder", order];
    let r: Vec<String> = owned_all(&a);
    assert(r.deep_view() =~= seq!["--bootorder"@, order@]);
    r
}

} // verus!

//! Which boot entries may be deleted or renamed, and what a restore does.

use vstd::prelude::*;

use crate::boot_audit::{AuditFlag, AuditedEntry, AuditedEntryView, BootEntry, BootEntryView};
use crate::migration::rollback::{
    all_ids, boot_order_ids, has_rollback_marker, is_id, is_ostree_rollback_entry,
    law_orders_are_read_back, lemma_ids_of_order, order_ids, rollback_haystack,
};
use crate::text::chars::{chars_of, control, is_control};
use crate::text::compose::{join, joined};
use crate::text::numbers::{decimal, decimal_of};
use crate::text::pieces::{split, trim, trimmed};
use crate::text::quote::{quoted, quoted_text};
use crate::text::search::{same, same_ignore_case, same_ignoring_case};

verus! {

/// Why an entry may never be deleted.
#[derive(Debug, Clone, Copy, PartialEq, Eq, Structural)]
pub enum DeleteProtection {
    /// The firmware owns it, and often recreates it.
    FirmwareManaged,
    /// The running system booted from it.
    CurrentlyBooted,
    /// It leads back to the deployment from before the migration.
    RollbackPath,
}

impl DeleteProtection {
    /// The reason in one line.
    pub open spec fn text(self) -> Seq<char> {
        match self {
            DeleteProtection::FirmwareManaged =>
                "firmware-managed entry (PXE/Shell/Setup/removable fallback)"@,
            DeleteProtection::CurrentlyBooted => "this system booted from this entry (BootCurrent)"@,
            DeleteProtection::RollbackPath => "the rollback path back to the pre-migration deployment"@,
        }
    }

    /// The reason in one line.
    pub fn describe(self) -> (r: &'static str)
        ensures
            r@ == self.text(),
    {
        match self {
            DeleteProtection::FirmwareManaged =>
                "firmware-managed entry (PXE/Shell/Setup/removable fallback)",
            DeleteProtection::CurrentlyBooted => "this system booted from this entry (BootCurrent)",
            DeleteProtection::RollbackPath => "the rollback path back to the pre-migration deployment",
        }
    }
}

/// Why an entry cannot be renamed. NVRAM knows no rename: the entry is created
/// anew and the old one deleted, so what cannot be recreated is not renamed.
#[derive(Debug, Clone, Copy, PartialEq, Eq, Structural)]
pub enum RenameBlock {
    /// The firmware owns it.
    FirmwareManaged,
    /// There is no loader to point the new entry at.
    NoLoaderPath,
    /// The loader is not on this ESP.
    LoaderNotOnThisEsp,
    /// The entry is called that already.
    LabelUnchanged,
}

impl RenameBlock {
    /// The reason in one line.
    pub open spec fn text(self) -> Seq<char> {
        match self {
            RenameBlock::FirmwareManaged => "firmware-managed entries are never rewritten"@,
            RenameBlock::NoLoaderPath => "no loader path to recreate the entry with"@,
            RenameBlock::LoaderNotOnThisEsp => "loader path does not resolve on this ESP"@,
            RenameBlock::LabelUnchanged => "already has this label"@,
        }
    }

    /// The reason in one line.
    pub fn describe(self) -> (r: &'static str)
        ensures
            r@ == self.text(),
    {
        match self {
            RenameBlock::FirmwareManaged => "firmware-managed entries are never rewritten",
            RenameBlock::NoLoaderPath => "no loader path to recreate the entry with",
            RenameBlock::LoaderNotOnThisEsp => "loader path does not resolve on this ESP",
            RenameBlock::LabelUnchanged => "already has this label",
        }
    }
}

/// What NVRAM says beside the entries themselves.
#[derive(Debug, Clone, PartialEq, Eq)]
pub struct NvramFacts {
    /// The entry that this boot came from.
    pub boot_current: Option<String>,
    /// `BootOrder`, as it was printed.
    pub boot_order: Option<String>,
    /// The entry that a rollback would put first.
    pub rollback_entry_id: Option<String>,
}

/// What [`NvramFacts`] hold.
#[verifier::ext_equal]
pub struct NvramFactsView {
    pub boot_current: Option<Seq<char>>,
    pub boot_order: Option<Seq<char>>,
    pub rollback_entry_id: Option<Seq<char>>,
}

impl DeepView for NvramFacts {
    type V = NvramFactsView;

    open spec fn deep_view(&self) -> NvramFactsView {
        NvramFactsView {
            boot_current: self.boot_current.deep_view(),
            boot_order: self.boot_order.deep_view(),
            rollback_entry_id: self.rollback_entry_id.deep_view(),
        }
    }
}

impl Default for NvramFacts {
    /// Nothing known.
    fn default() -> (r: Self)
        ensures
            r.boot_current is None,
            r.boot_order is None,
            r.rollback_entry_id is None,
    {
        NvramFacts { boot_current: None, boot_order: None, rollback_entry_id: None }
    }
}

/// One change to NVRAM that a plan allows.
#[derive(Debug, Clone, PartialEq, Eq)]
pub enum PlannedOp {
    Delete { id: String, label: String, flags: Vec<AuditFlag> },
    Rename { id: String, from_label: String, to_label: String, loader_path: String },
}

/// What a [`PlannedOp`] holds.
#[verifier::ext_equal]
pub enum PlannedOpView {
    Delete { id: Seq<char>, label: Seq<char>, flags: Seq<AuditFlag> },
    Rename { id: Seq<char>, from_label: Seq<char>, to_label: Seq<char>, loader_path: Seq<char> },
}

impl DeepView for PlannedOp {
    type V = PlannedOpView;

    open spec fn deep_view(&self) -> PlannedOpView {
        match self {
            PlannedOp::Delete { id, label, flags } => PlannedOpView::Delete {
                id: id@,
                label: label@,
                flags: flags@,
            },
            PlannedOp::Rename { id, from_label, to_label, loader_path } => PlannedOpView::Rename {
                id: id@,
                from_label: from_label@,
                to_label: to_label@,
                loader_path: loader_path@,
            },
        }
    }
}

/// The approved changes. [`plan_cleanup`] makes them.
#[derive(Debug, Clone, PartialEq, Eq)]
pub struct CleanupPlan {
    pub ops: Vec<PlannedOp>,
}

/// How many of the changes are deletions.
pub open spec fn deletions(ops: Seq<PlannedOpView>) -> nat
    decreases ops.len(),
{
    if ops.len() == 0 {
        0
    } else {
        deletions(ops.drop_last()) + if ops.last() is Delete {
            1nat
        } else {
            0nat
        }
    }
}

/// How many of the changes are renames.
pub open spec fn renames(ops: Seq<PlannedOpView>) -> nat
    decreases ops.len(),
{
    if ops.len() == 0 {
        0
    } else {
        renames(ops.drop_last()) + if ops.last() is Rename {
            1nat
        } else {
            0nat
        }
    }
}

/// Every change is a deletion or a rename.
pub proof fn law_ops_are_deletions_and_renames(ops: Seq<PlannedOpView>)
    ensures
        deletions(ops) + renames(ops) == ops.len(),
    decreases ops.len(),
{
    if ops.len() > 0 {
        law_ops_are_deletions_and_renames(ops.drop_last());
    }
}

impl CleanupPlan {
    /// Whether there is nothing to do.
    pub fn is_empty(&self) -> (r: bool)
        ensures
            r == (self.ops@.len() == 0),
    {
        self.ops.len() == 0
    }

    /// How many entries are deleted.
    pub fn delete_count(&self) -> (r: usize)
        ensures
            r == deletions(self.ops.deep_view()),
    {
        let ghost all = self.ops.deep_view();
        let mut n: usize = 0;
        let mut i: usize = 0;
        while i < self.ops.len()
            invariant
                all == self.ops.deep_view(),
                i <= self.ops@.len(),
                n <= i,
                n == deletions(all.take(i as int)),
            decreases self.ops@.len() - i,
        {
            proof {
                assert(all.take(i + 1).drop_last() =~= all.take(i as int));
            }
            match &self.ops[i] {
                PlannedOp::Delete { .. } => {
                    n = n + 1;
                },
                PlannedOp::Rename { .. } => {},
            }
            i = i + 1;
        }
        assert(all.take(i as int) =~= all);
        n
    }

    /// How many entries are renamed.
    pub fn rename_count(&self) -> (r: usize)
        ensures
            r == renames(self.ops.deep_view()),
    {
        let ghost all = self.ops.deep_view();
        let mut n: usize = 0;
        let mut i: usize = 0;
        while i < self.ops.len()
            invariant
                all == self.ops.deep_view(),
                i <= self.ops@.len(),
                n <= i,
                n == renames(all.take(i as int)),
            decreases self.ops@.len() - i,
        {
            proof {
                assert(all.take(i + 1).drop_last() =~= all.take(i as int));
            }
            match &self.ops[i] {
                PlannedOp::Delete { .. } => {},
                PlannedOp::Rename { .. } => {
                    n = n + 1;
                },
            }
            i = i + 1;
        }
        assert(all.take(i as int) =~= all);
        n
    }
}

/// What the user asked for. Ids are the four digits behind `Boot`.
#[derive(Debug, Clone, PartialEq, Eq)]
pub struct CleanupSelection {
    pub delete_ids: Vec<String>,
    /// Entry ids with the labels proposed for them.
    pub renames: Vec<(String, String)>,
}

/// What a [`CleanupSelection`] holds.
#[verifier::ext_equal]
pub struct CleanupSelectionView {
    pub delete_ids: Seq<Seq<char>>,
    pub renames: Seq<(Seq<char>, Seq<char>)>,
}

impl DeepView for CleanupSelection {
    type V = CleanupSelectionView;

    open spec fn deep_view(&self) -> CleanupSelectionView {
        CleanupSelectionView {
            delete_ids: self.delete_ids.deep_view(),
            renames: self.renames.deep_view(),
        }
    }
}

impl CleanupSelectionView {
    /// Whether nothing is selected.
    pub open spec fn is_empty(self) -> bool {
        self.delete_ids.len() == 0 && self.renames.len() == 0
    }
}

impl CleanupSelection {
    /// Whether nothing is selected.
    pub fn is_empty(&self) -> (r: bool)
        ensures
            r == self.deep_view().is_empty(),
    {
        self.delete_ids.len() == 0 && self.renames.len() == 0
    }
}

impl Default for CleanupSelection {
    /// Nothing selected.
    fn default() -> (r: Self)
        ensures
            r.deep_view().is_empty(),
    {
        CleanupSelection { delete_ids: Vec::new(), renames: Vec::new() }
    }
}

/// A refusal to plan. Each is a safety rule.
#[derive(Debug, Clone, PartialEq, Eq)]
pub enum PlanError {
    /// Every entry with a loader looks dead: the ESP was taken from the wrong
    /// place.
    EspEvidenceImplausible { loader_entries: usize },
    /// A selected id is not in the audit.
    UnknownEntry { id: String },
    /// A selected entry may not be deleted.
    ProtectedEntry { id: String, protection: DeleteProtection },
    /// A selected entry could not be recreated.
    NotRenameable { id: String, block: RenameBlock },
    /// An entry was selected for deletion and for renaming.
    ConflictingOps { id: String },
    /// A proposed label is blank or holds control characters.
    InvalidLabel { id: String, label: String },
    /// No entry whose loader resolves would be left.
    RemovesLastBootableEntry,
}

/// What a [`PlanError`] holds.
#[verifier::ext_equal]
pub enum PlanErrorView {
    EspEvidenceImplausible { loader_entries: int },
    UnknownEntry { id: Seq<char> },
    ProtectedEntry { id: Seq<char>, protection: DeleteProtection },
    NotRenameable { id: Seq<char>, block: RenameBlock },
    ConflictingOps { id: Seq<char> },
    InvalidLabel { id: Seq<char>, label: Seq<char> },
    RemovesLastBootableEntry,
}

impl DeepView for PlanError {
    type V = PlanErrorView;

    open spec fn deep_view(&self) -> PlanErrorView {
        match self {
            PlanError::EspEvidenceImplausible { loader_entries } =>
                PlanErrorView::EspEvidenceImplausible { loader_entries: *loader_entries as int },
            PlanError::UnknownEntry { id } => PlanErrorView::UnknownEntry { id: id@ },
            PlanError::ProtectedEntry { id, protection } => PlanErrorView::ProtectedEntry {
                id: id@,
                protection: *protection,
            },
            PlanError::NotRenameable { id, block } => PlanErrorView::NotRenameable {
                id: id@,
                block: *block,
            },
            PlanError::ConflictingOps { id } => PlanErrorView::ConflictingOps { id: id@ },
            PlanError::InvalidLabel { id, label } => PlanErrorView::InvalidLabel {
                id: id@,
                label: label@,
            },
            PlanError::RemovesLastBootableEntry => PlanErrorView::RemovesLastBootableEntry,
        }
    }
}

impl PlanErrorView {
    /// The refusal as it is shown to the user.
    pub open spec fn text(self) -> Seq<char> {
        match self {
            PlanErrorView::EspEvidenceImplausible { loader_entries } => "refusing to plan: all "@
                + decimal(loader_entries as nat)
                + " boot entries with a loader path were classified dead, which means the ESP was almost certainly resolved to the wrong filesystem rather than every install being gone — re-run the read-only audit and check the ESP mount first"@,
            PlanErrorView::UnknownEntry { id } => "no boot entry Boot"@ + id + " in the audit"@,
            PlanErrorView::ProtectedEntry { id, protection } => "Boot"@ + id
                + " may not be deleted: "@ + protection.text(),
            PlanErrorView::NotRenameable { id, block } => "Boot"@ + id + " may not be renamed: "@
                + block.text(),
            PlanErrorView::ConflictingOps { id } => "Boot"@ + id
                + " was selected for both deletion and rename; pick one"@,
            PlanErrorView::InvalidLabel { id, label } => "proposed label "@ + quoted_text(label)
                + " for Boot"@ + id + " is empty or contains control characters"@,
            PlanErrorView::RemovesLastBootableEntry =>
                "refusing to plan: this selection would delete every boot entry whose loader still exists, leaving no way back to a booted system"@,
        }
    }
}

impl PlanError {
    /// The refusal as it is shown to the user.
    pub fn message(&self) -> (r: String)
        ensures
            r@ == self.deep_view().text(),
    {
        match self {
            PlanError::EspEvidenceImplausible { loader_entries } => {
                let mut s: String = "refusing to plan: all ".to_owned();
                s.append(decimal_of(*loader_entries as u64).as_str());
                s.append(" boot entries with a loader path were classified dead, which means the ESP was almost certainly resolved to the wrong filesystem rather than every install being gone — re-run the read-only audit and check the ESP mount first");
                s
            },
            PlanError::UnknownEntry { id } => {
                let mut s: String = "no boot entry Boot".to_owned();
                s.append(id.as_str());
                s.append(" in the audit");
                s
            },
            PlanError::ProtectedEntry { id, protection } => {
                let mut s: String = "Boot".to_owned();
                s.append(id.as_str());
                s.append(" may not be deleted: ");
                s.append(protection.describe());
                s
            },
            PlanError::NotRenameable { id, block } => {
                let mut s: String = "Boot".to_owned();
                s.append(id.as_str());
                s.append(" may not be renamed: ");
                s.append(block.describe());
                s
            },
            PlanError::ConflictingOps { id } => {
                let mut s: String = "Boot".to_owned();
                s.append(id.as_str());
                s.append(" was selected for both deletion and rename; pick one");
                s
            },
            PlanError::InvalidLabel { id, label } => {
                let mut s: String = "proposed label ".to_owned();
                s.append(quoted(label.as_str()).as_str());
                s.append(" for Boot");
                s.append(id.as_str());
                s.append(" is empty or contains control characters");
                s
            },
            PlanError::RemovesLastBootableEntry =>
                "refusing to plan: this selection would delete every boot entry whose loader still exists, leaving no way back to a booted system".to_owned(),
        }
    }
}

/// Whether the entry's loader is present on the audited ESP.
pub open spec fn bootable(e: AuditedEntryView) -> bool {
    e.entry.loader_path is Some && !e.flags.contains(AuditFlag::Dead)
}

/// Whether the optional id is `id`, with case ignored.
pub open spec fn names(opt: Option<Seq<char>>, id: Seq<char>) -> bool {
    opt is Some && same_ignoring_case(opt->0, id)
}

/// What protects the entry from deletion: the strongest reason first. A dead
/// entry that merely looks like an OSTree loader is not protected.
pub open spec fn protection_of(e: AuditedEntryView, facts: NvramFactsView) -> Option<
    DeleteProtection,
> {
    if e.flags.contains(AuditFlag::FirmwareManaged) {
        Some(DeleteProtection::FirmwareManaged)
    } else if names(facts.boot_current, e.entry.id) {
        Some(DeleteProtection::CurrentlyBooted)
    } else if names(facts.rollback_entry_id, e.entry.id) {
        Some(DeleteProtection::RollbackPath)
    } else if !e.flags.contains(AuditFlag::Dead) && has_rollback_marker(
        rollback_haystack(e.entry.label, e.entry.loader_path),
    ) {
        Some(DeleteProtection::RollbackPath)
    } else {
        None
    }
}

/// What keeps the entry from being renamed to `label`.
pub open spec fn block_of(e: AuditedEntryView, label: Seq<char>) -> Option<RenameBlock> {
    if e.flags.contains(AuditFlag::FirmwareManaged) {
        Some(RenameBlock::FirmwareManaged)
    } else if e.entry.loader_path is None {
        Some(RenameBlock::NoLoaderPath)
    } else if e.flags.contains(AuditFlag::Dead) {
        Some(RenameBlock::LoaderNotOnThisEsp)
    } else if e.entry.label == label {
        Some(RenameBlock::LabelUnchanged)
    } else {
        None
    }
}

/// Whether `label` can name an entry: it is not blank, and holds no control
/// character.
pub open spec fn valid_label(label: Seq<char>) -> bool {
    &&& trim(label).len() > 0
    &&& forall|i: int| 0 <= i < label.len() ==> !is_control(#[trigger] label[i])
}

/// The entries with a loader path.
pub open spec fn with_loader(audited: Seq<AuditedEntryView>) -> nat
    decreases audited.len(),
{
    if audited.len() == 0 {
        0
    } else {
        with_loader(audited.drop_last()) + if audited.last().entry.loader_path is Some {
            1nat
        } else {
            0nat
        }
    }
}

/// Whether some entry's loader is present.
pub open spec fn any_bootable(audited: Seq<AuditedEntryView>) -> bool {
    exists|i: int| 0 <= i < audited.len() && bootable(#[trigger] audited[i])
}

/// Whether `id` is one of `ids`, with case ignored.
pub open spec fn among(ids: Seq<Seq<char>>, id: Seq<char>) -> bool {
    exists|i: int| 0 <= i < ids.len() && same_ignoring_case(#[trigger] ids[i], id)
}

/// Whether some entry's loader is present and the entry is not one of `ids`.
pub open spec fn bootable_left(audited: Seq<AuditedEntryView>, ids: Seq<Seq<char>>) -> bool {
    exists|i: int|
        0 <= i < audited.len() && bootable(#[trigger] audited[i]) && !among(
            ids,
            audited[i].entry.id,
        )
}

/// The first entry with the id, with case ignored.
pub open spec fn entry_with_id(audited: Seq<AuditedEntryView>, id: Seq<char>) -> Option<
    AuditedEntryView,
>
    decreases audited.len(),
{
    if audited.len() == 0 {
        None
    } else if same_ignoring_case(audited[0].entry.id, id) {
        Some(audited[0])
    } else {
        entry_with_id(audited.skip(1), id)
    }
}

/// Whether `id` is one of the entries to rename, with case ignored.
pub open spec fn among_renames(renames: Seq<(Seq<char>, Seq<char>)>, id: Seq<char>) -> bool {
    exists|i: int| 0 <= i < renames.len() && same_ignoring_case((#[trigger] renames[i]).0, id)
}

/// The deletion of the entry with the id, or the rule against it.
pub open spec fn delete_one(
    audited: Seq<AuditedEntryView>,
    facts: NvramFactsView,
    renames: Seq<(Seq<char>, Seq<char>)>,
    id: Seq<char>,
) -> Result<PlannedOpView, PlanErrorView> {
    match entry_with_id(audited, id) {
        None => Err(PlanErrorView::UnknownEntry { id }),
        Some(e) => if among_renames(renames, id) {
            Err(PlanErrorView::ConflictingOps { id })
        } else {
            match protection_of(e, facts) {
                Some(protection) => Err(PlanErrorView::ProtectedEntry { id, protection }),
                None => Ok(
                    PlannedOpView::Delete { id: e.entry.id, label: e.entry.label, flags: e.flags },
                ),
            }
        },
    }
}

/// The renaming of the entry with the id, or the rule against it.
pub open spec fn rename_one(
    audited: Seq<AuditedEntryView>,
    id: Seq<char>,
    proposed: Seq<char>,
) -> Result<PlannedOpView, PlanErrorView> {
    let label = trim(proposed);
    match entry_with_id(audited, id) {
        None => Err(PlanErrorView::UnknownEntry { id }),
        Some(e) => if !valid_label(label) {
            Err(PlanErrorView::InvalidLabel { id, label })
        } else {
            match block_of(e, label) {
                Some(block) => Err(PlanErrorView::NotRenameable { id, block }),
                None => Ok(
                    PlannedOpView::Rename {
                        id: e.entry.id,
                        from_label: e.entry.label,
                        to_label: label,
                        loader_path: e.entry.loader_path->0,
                    },
                ),
            }
        },
    }
}

/// The deletions of the entries with the ids, or the first rule against one.
pub open spec fn delete_all(
    audited: Seq<AuditedEntryView>,
    facts: NvramFactsView,
    renames: Seq<(Seq<char>, Seq<char>)>,
    ids: Seq<Seq<char>>,
) -> Result<Seq<PlannedOpView>, PlanErrorView>
    decreases ids.len(),
{
    if ids.len() == 0 {
        Ok(Seq::empty())
    } else {
        match delete_all(audited, facts, renames, ids.drop_last()) {
            Err(e) => Err(e),
            Ok(ops) => match delete_one(audited, facts, renames, ids.last()) {
                Err(e) => Err(e),
                Ok(op) => Ok(ops.push(op)),
            },
        }
    }
}

/// The deletions `ops` with the renames behind them, or the first rule against
/// one.
pub open spec fn rename_all(
    audited: Seq<AuditedEntryView>,
    ops: Seq<PlannedOpView>,
    renames: Seq<(Seq<char>, Seq<char>)>,
) -> Result<Seq<PlannedOpView>, PlanErrorView>
    decreases renames.len(),
{
    if renames.len() == 0 {
        Ok(ops)
    } else {
        match rename_all(audited, ops, renames.drop_last()) {
            Err(e) => Err(e),
            Ok(done) => match rename_one(audited, renames.last().0, renames.last().1) {
                Err(e) => Err(e),
                Ok(op) => Ok(done.push(op)),
            },
        }
    }
}

/// The changes that the selection may make, or the rule that stops it.
/// Selecting nothing is always allowed.
pub open spec fn cleanup_of(
    audited: Seq<AuditedEntryView>,
    facts: NvramFactsView,
    selection: CleanupSelectionView,
) -> Result<Seq<PlannedOpView>, PlanErrorView> {
    if selection.is_empty() {
        Ok(Seq::empty())
    } else if with_loader(audited) > 0 && !any_bootable(audited) {
        Err(PlanErrorView::EspEvidenceImplausible { loader_entries: with_loader(audited) as int })
    } else {
        match delete_all(audited, facts, selection.renames, selection.delete_ids) {
            Err(e) => Err(e),
            Ok(deletes) => match rename_all(audited, deletes, selection.renames) {
                Err(e) => Err(e),
                Ok(ops) => if any_bootable(audited) && !bootable_left(
                    audited,
                    selection.delete_ids,
                ) {
                    Err(PlanErrorView::RemovesLastBootableEntry)
                } else {
                    Ok(ops)
                },
            },
        }
    }
}

/// What the planner answered, as a value.
pub open spec fn plan_result(r: Result<CleanupPlan, PlanError>) -> Result<
    Seq<PlannedOpView>,
    PlanErrorView,
> {
    match r {
        Ok(plan) => Ok(plan.ops.deep_view()),
        Err(e) => Err(e.deep_view()),
    }
}

/// Whether the entry's loader is present on the audited ESP.
fn is_bootable(entry: &AuditedEntry) -> (r: bool)
    ensures
        r == bootable(entry.deep_view()),
{
    entry.entry.loader_path.is_some() && !entry.has_flag(AuditFlag::Dead)
}

/// Whether the optional id is `id`, with case ignored.
fn is_named(opt: &Option<String>, id: &str) -> (r: bool)
    ensures
        r == names(opt.deep_view(), id@),
{
    match opt {
        Some(x) => same_ignore_case(x.as_str(), id),
        None => false,
    }
}

/// What protects `entry` from deletion, if anything does.
pub fn delete_protection(entry: &AuditedEntry, facts: &NvramFacts) -> (r: Option<DeleteProtection>)
    ensures
        r == protection_of(entry.deep_view(), facts.deep_view()),
{
    if entry.has_flag(AuditFlag::FirmwareManaged) {
        return Some(DeleteProtection::FirmwareManaged);
    }
    if is_named(&facts.boot_current, entry.entry.id.as_str()) {
        return Some(DeleteProtection::CurrentlyBooted);
    }
    if is_named(&facts.rollback_entry_id, entry.entry.id.as_str()) {
        return Some(DeleteProtection::RollbackPath);
    }
    let loader: Option<&str> = match &entry.entry.loader_path {
        Some(p) => Some(p.as_str()),
        None => None,
    };
    if !entry.has_flag(AuditFlag::Dead) && is_ostree_rollback_entry(
        entry.entry.label.as_str(),
        loader,
    ) {
        return Some(DeleteProtection::RollbackPath);
    }
    None
}

/// What keeps `entry` from being renamed to `new_label`, if anything does.
pub fn rename_block(entry: &AuditedEntry, new_label: &str) -> (r: Option<RenameBlock>)
    ensures
        r == block_of(entry.deep_view(), new_label@),
{
    if entry.has_flag(AuditFlag::FirmwareManaged) {
        return Some(RenameBlock::FirmwareManaged);
    }
    if entry.entry.loader_path.is_none() {
        return Some(RenameBlock::NoLoaderPath);
    }
    if entry.has_flag(AuditFlag::Dead) {
        return Some(RenameBlock::LoaderNotOnThisEsp);
    }
    if same(entry.entry.label.as_str(), new_label) {
        return Some(RenameBlock::LabelUnchanged);
    }
    None
}

/// Whether `label` can name an entry.
fn label_is_valid(label: &str) -> (r: bool)
    ensures
        r == valid_label(label@),
{
    let t: String = trimmed(label);
    if t.as_str().is_empty() {
        return false;
    }
    let a: Vec<char> = chars_of(label);
    let mut i: usize = 0;
    while i < a.len()
        invariant
            a@ == label@,
            i <= a@.len(),
            forall|k: int| 0 <= k < i ==> !is_control(#[trigger] a@[k]),
        decreases a@.len() - i,
    {
        if control(a[i]) {
            return false;
        }
        i = i + 1;
    }
    true
}

/// The ids of the entries that are dead and unprotected.
pub open spec fn default_ids(audited: Seq<AuditedEntryView>, facts: NvramFactsView) -> Seq<
    Seq<char>,
>
    decreases audited.len(),
{
    if audited.len() == 0 {
        Seq::empty()
    } else {
        let rest = default_ids(audited.drop_last(), facts);
        let e = audited.last();
        if e.preselectable() && protection_of(e, facts) is None {
            rest.push(e.entry.id)
        } else {
            rest
        }
    }
}

/// The deletions proposed without asking: the entries that are dead and
/// unprotected. Duplicates and generic labels are left to a human.
pub fn default_delete_selection(audited: &[AuditedEntry], facts: &NvramFacts) -> (r: Vec<String>)
    ensures
        r.deep_view() == default_ids(audited.deep_view(), facts.deep_view()),
{
    let ghost all = audited.deep_view();
    let mut r: Vec<String> = Vec::new();
    let mut i: usize = 0;
    assert(r.deep_view() =~= default_ids(all.take(0), facts.deep_view()));
    while i < audited.len()
        invariant
            all == audited.deep_view(),
            i <= audited@.len(),
            r.deep_view() == default_ids(all.take(i as int), facts.deep_view()),
        decreases audited@.len() - i,
    {
        proof {
            assert(all.take(i + 1).drop_last() =~= all.take(i as int));
            assert(all.take(i + 1).last() == audited@[i as int].deep_view());
        }
        let ghost before = r.deep_view();
        if audited[i].safe_to_preselect() && delete_protection(&audited[i], facts).is_none() {
            r.push(audited[i].entry.id.clone());
            assert(r.deep_view() =~= before.push(audited@[i as int].entry.id@));
        }
        i = i + 1;
    }
    assert(all.take(i as int) =~= all);
    r
}

/// The rename to `label` of the first entry that is `booted`, carries a generic
/// label and can be recreated; empty where there is none.
pub open spec fn brandings(
    audited: Seq<AuditedEntryView>,
    booted: Seq<char>,
    label: Seq<char>,
) -> Seq<(Seq<char>, Seq<char>)>
    decreases audited.len(),
{
    if audited.len() == 0 {
        Seq::empty()
    } else {
        let rest = brandings(audited.drop_last(), booted, label);
        let e = audited.last();
        if rest.len() == 0 && same_ignoring_case(e.entry.id, booted) && e.flags.contains(
            AuditFlag::GenericLabel,
        ) && block_of(e, label) is None {
            rest.push((e.entry.id, label))
        } else {
            rest
        }
    }
}

/// The renames that brand the booted entry with the distribution's name.
pub open spec fn branding_of(
    audited: Seq<AuditedEntryView>,
    facts: NvramFactsView,
    pretty_name: Seq<char>,
) -> Seq<(Seq<char>, Seq<char>)> {
    let label = trim(pretty_name);
    if valid_label(label) && facts.boot_current is Some {
        brandings(audited, facts.boot_current->0, label)
    } else {
        Seq::empty()
    }
}

/// The rename proposed without asking: the booted entry, where it carries a
/// generic label and can be recreated, is called `pretty_name`. Nothing is
/// proposed where that name cannot label an entry.
pub fn branding_renames(
    audited: &[AuditedEntry],
    facts: &NvramFacts,
    pretty_name: &str,
) -> (r: Vec<(String, String)>)
    ensures
        r.deep_view() == branding_of(audited.deep_view(), facts.deep_view(), pretty_name@),
{
    let label: String = trimmed(pretty_name);
    let mut r: Vec<(String, String)> = Vec::new();
    if !label_is_valid(label.as_str()) {
        assert(r.deep_view() =~= Seq::empty());
        return r;
    }
    match &facts.boot_current {
        None => {
            assert(r.deep_view() =~= Seq::empty());
            r
        },
        Some(booted) => {
            let ghost all = audited.deep_view();
            let mut i: usize = 0;
            assert(r.deep_view() =~= brandings(all.take(0), booted@, label@));
            while i < audited.len()
                invariant
                    all == audited.deep_view(),
                    i <= audited@.len(),
                    r.deep_view() == brandings(all.take(i as int), booted@, label@),
                decreases audited@.len() - i,
            {
                proof {
                    assert(all.take(i + 1).drop_last() =~= all.take(i as int));
                    assert(all.take(i + 1).last() == audited@[i as int].deep_view());
                }
                let ghost before = r.deep_view();
                let e: &AuditedEntry = &audited[i];
                if r.len() == 0 && same_ignore_case(e.entry.id.as_str(), booted.as_str())
                    && e.has_flag(AuditFlag::GenericLabel) && rename_block(e, label.as_str()).is_none() {
                    r.push((e.entry.id.clone(), label.clone()));
                    assert(r.deep_view() =~= before.push((e.entry.id@, label@)));
                }
                i = i + 1;
            }
            assert(all.take(i as int) =~= all);
            r
        },
    }
}

proof fn lemma_brandings(audited: Seq<AuditedEntryView>, booted: Seq<char>, label: Seq<char>)
    ensures
        brandings(audited, booted, label).len() <= 1,
        forall|k: int|
            #![trigger brandings(audited, booted, label)[k]]
            0 <= k < brandings(audited, booted, label).len() ==> same_ignoring_case(
                brandings(audited, booted, label)[k].0,
                booted,
            ) && brandings(audited, booted, label)[k].1 == label,
    decreases audited.len(),
{
    if audited.len() > 0 {
        lemma_brandings(audited.drop_last(), booted, label);
    }
}

/// At most one entry is branded, and it is the booted one.
pub proof fn law_only_the_booted_entry_is_branded(
    audited: Seq<AuditedEntryView>,
    facts: NvramFactsView,
    pretty_name: Seq<char>,
)
    ensures
        branding_of(audited, facts, pretty_name).len() <= 1,
        forall|k: int|
            #![trigger branding_of(audited, facts, pretty_name)[k]]
            0 <= k < branding_of(audited, facts, pretty_name).len() ==> {
                &&& facts.boot_current is Some
                &&& same_ignoring_case(
                    branding_of(audited, facts, pretty_name)[k].0,
                    facts.boot_current->0,
                )
                &&& branding_of(audited, facts, pretty_name)[k].1 == trim(pretty_name)
            },
{
    if facts.boot_current is Some {
        lemma_brandings(audited, facts.boot_current->0, trim(pretty_name));
    }
}

/// The index of the first entry with the id, with case ignored.
fn find_entry(audited: &[AuditedEntry], id: &str) -> (r: Option<usize>)
    ensures
        match r {
            Some(i) => i < audited@.len() && entry_with_id(audited.deep_view(), id@) == Some(
                audited@[i as int].deep_view(),
            ),
            None => entry_with_id(audited.deep_view(), id@) is None,
        },
{
    let ghost all = audited.deep_view();
    let mut i: usize = 0;
    assert(all.skip(0) =~= all);
    while i < audited.len()
        invariant
            all == audited.deep_view(),
            i <= audited@.len(),
            entry_with_id(all, id@) == entry_with_id(all.skip(i as int), id@),
        decreases audited@.len() - i,
    {
        proof {
            assert(all.skip(i as int)[0] == audited@[i as int].deep_view());
            assert(all.skip(i as int).skip(1) =~= all.skip(i + 1));
        }
        if same_ignore_case(audited[i].entry.id.as_str(), id) {
            return Some(i);
        }
        i = i + 1;
    }
    None
}

/// How many entries have a loader path.
fn count_loaders(audited: &[AuditedEntry]) -> (r: usize)
    ensures
        r == with_loader(audited.deep_view()),
{
    let ghost all = audited.deep_view();
    let mut n: usize = 0;
    let mut i: usize = 0;
    while i < audited.len()
        invariant
            all == audited.deep_view(),
            i <= audited@.len(),
            n <= i,
            n == with_loader(all.take(i as int)),
        decreases audited@.len() - i,
    {
        proof {
            assert(all.take(i + 1).drop_last() =~= all.take(i as int));
            assert(all.take(i + 1).last() == audited@[i as int].deep_view());
        }
        if audited[i].entry.loader_path.is_some() {
            n = n + 1;
        }
        i = i + 1;
    }
    assert(all.take(i as int) =~= all);
    n
}

/// Whether `id` is one of `ids`, with case ignored.
fn is_among(ids: &[String], id: &str) -> (r: bool)
    ensures
        r == among(ids.deep_view(), id@),
{
    let mut i: usize = 0;
    while i < ids.len()
        invariant
            i <= ids@.len(),
            forall|k: int| 0 <= k < i ==> !same_ignoring_case(#[trigger] ids.deep_view()[k], id@),
        decreases ids@.len() - i,
    {
        assert(ids.deep_view()[i as int] == ids@[i as int]@);
        if same_ignore_case(ids[i].as_str(), id) {
            return true;
        }
        i = i + 1;
    }
    false
}

/// Whether `id` is one of the entries to rename, with case ignored.
fn is_among_renames(renames: &[(String, String)], id: &str) -> (r: bool)
    ensures
        r == among_renames(renames.deep_view(), id@),
{
    let mut i: usize = 0;
    while i < renames.len()
        invariant
            i <= renames@.len(),
            forall|k: int|
                0 <= k < i ==> !same_ignoring_case((#[trigger] renames.deep_view()[k]).0, id@),
        decreases renames@.len() - i,
    {
        assert(renames.deep_view()[i as int] == renames@[i as int].deep_view());
        if same_ignore_case(renames[i].0.as_str(), id) {
            return true;
        }
        i = i + 1;
    }
    false
}

/// Whether a bootable entry is left when those with the ids are deleted.
fn leaves_bootable(audited: &[AuditedEntry], ids: &[String]) -> (r: bool)
    ensures
        r == bootable_left(audited.deep_view(), ids.deep_view()),
{
    let ghost all = audited.deep_view();
    let mut i: usize = 0;
    while i < audited.len()
        invariant
            all == audited.deep_view(),
            i <= audited@.len(),
            forall|k: int|
                0 <= k < i ==> !(bootable(#[trigger] all[k]) && !among(
                    ids.deep_view(),
                    all[k].entry.id,
                )),
        decreases audited@.len() - i,
    {
        assert(all[i as int] == audited@[i as int].deep_view());
        if is_bootable(&audited[i]) && !is_among(ids, audited[i].entry.id.as_str()) {
            return true;
        }
        i = i + 1;
    }
    false
}

/// A copy of the flags.
fn copy_flags(flags: &[AuditFlag]) -> (r: Vec<AuditFlag>)
    ensures
        r@ == flags@,
{
    let mut r: Vec<AuditFlag> = Vec::new();
    let mut i: usize = 0;
    while i < flags.len()
        invariant
            i <= flags@.len(),
            r@ == flags@.take(i as int),
        decreases flags@.len() - i,
    {
        r.push(flags[i]);
        i = i + 1;
    }
    r
}

/// A rule against a deletion stops the plan, whatever is selected behind it.
proof fn lemma_delete_stops(
    audited: Seq<AuditedEntryView>,
    facts: NvramFactsView,
    renames: Seq<(Seq<char>, Seq<char>)>,
    ids: Seq<Seq<char>>,
    i: int,
)
    requires
        0 <= i <= ids.len(),
        delete_all(audited, facts, renames, ids.take(i)) is Err,
    ensures
        delete_all(audited, facts, renames, ids) == delete_all(audited, facts, renames, ids.take(i)),
    decreases ids.len(),
{
    if i < ids.len() {
        assert(ids.drop_last().take(i) =~= ids.take(i));
        lemma_delete_stops(audited, facts, renames, ids.drop_last(), i);
    } else {
        assert(ids.take(i) =~= ids);
    }
}

/// A rule against a rename stops the plan, whatever is selected behind it.
proof fn lemma_rename_stops(
    audited: Seq<AuditedEntryView>,
    ops: Seq<PlannedOpView>,
    renames: Seq<(Seq<char>, Seq<char>)>,
    i: int,
)
    requires
        0 <= i <= renames.len(),
        rename_all(audited, ops, renames.take(i)) is Err,
    ensures
        rename_all(audited, ops, renames) == rename_all(audited, ops, renames.take(i)),
    decreases renames.len(),
{
    if i < renames.len() {
        assert(renames.drop_last().take(i) =~= renames.take(i));
        lemma_rename_stops(audited, ops, renames.drop_last(), i);
    } else {
        assert(renames.take(i) =~= renames);
    }
}

/// The deletion of the entry with the id, or the rule against it.
fn plan_delete(
    audited: &[AuditedEntry],
    facts: &NvramFacts,
    renames: &[(String, String)],
    id: &String,
) -> (r: Result<PlannedOp, PlanError>)
    ensures
        match r {
            Ok(op) => delete_one(
                audited.deep_view(),
                facts.deep_view(),
                renames.deep_view(),
                id@,
            ) == Ok::<PlannedOpView, PlanErrorView>(op.deep_view()),
            Err(e) => delete_one(
                audited.deep_view(),
                facts.deep_view(),
                renames.deep_view(),
                id@,
            ) == Err::<PlannedOpView, PlanErrorView>(e.deep_view()),
        },
{
    match find_entry(audited, id.as_str()) {
        None => Err(PlanError::UnknownEntry { id: id.clone() }),
        Some(i) => {
            if is_among_renames(renames, id.as_str()) {
                return Err(PlanError::ConflictingOps { id: id.clone() });
            }
            let entry: &AuditedEntry = &audited[i];
            match delete_protection(entry, facts) {
                Some(protection) => Err(PlanError::ProtectedEntry { id: id.clone(), protection }),
                None => Ok(
                    PlannedOp::Delete {
                        id: entry.entry.id.clone(),
                        label: entry.entry.label.clone(),
                        flags: copy_flags(entry.flags.as_slice()),
                    },
                ),
            }
        },
    }
}

/// The renaming of the entry with the id, or the rule against it.
fn plan_rename(audited: &[AuditedEntry], id: &String, proposed: &str) -> (r: Result<
    PlannedOp,
    PlanError,
>)
    ensures
        match r {
            Ok(op) => rename_one(audited.deep_view(), id@, proposed@) == Ok::<
                PlannedOpView,
                PlanErrorView,
            >(op.deep_view()),
            Err(e) => rename_one(audited.deep_view(), id@, proposed@) == Err::<
                PlannedOpView,
                PlanErrorView,
            >(e.deep_view()),
        },
{
    match find_entry(audited, id.as_str()) {
        None => Err(PlanError::UnknownEntry { id: id.clone() }),
        Some(i) => {
            let entry: &AuditedEntry = &audited[i];
            let label: String = trimmed(proposed);
            if !label_is_valid(label.as_str()) {
                return Err(PlanError::InvalidLabel { id: id.clone(), label });
            }
            match rename_block(entry, label.as_str()) {
                Some(block) => Err(PlanError::NotRenameable { id: id.clone(), block }),
                None => match &entry.entry.loader_path {
                    Some(loader_path) => Ok(
                        PlannedOp::Rename {
                            id: entry.entry.id.clone(),
                            from_label: entry.entry.label.clone(),
                            to_label: label,
                            loader_path: loader_path.clone(),
                        },
                    ),
                    None => Err(
                        PlanError::NotRenameable {
                            id: id.clone(),
                            block: RenameBlock::NoLoaderPath,
                        },
                    ),
                },
            }
        },
    }
}

/// The changes to NVRAM that the selection may make, or the safety rule that
/// stops it. Planning nothing is always allowed.
pub fn plan_cleanup(
    audited: &[AuditedEntry],
    facts: &NvramFacts,
    selection: &CleanupSelection,
) -> (r: Result<CleanupPlan, PlanError>)
    ensures
        plan_result(r) == cleanup_of(
            audited.deep_view(),
            facts.deep_view(),
            selection.deep_view(),
        ),
{
    let mut ops: Vec<PlannedOp> = Vec::new();
    if selection.is_empty() {
        assert(ops.deep_view() =~= Seq::empty());
        return Ok(CleanupPlan { ops });
    }
    let ghost a = audited.deep_view();
    let ghost f = facts.deep_view();
    let ghost ids = selection.delete_ids.deep_view();
    let ghost rs = selection.renames.deep_view();
    let none: Vec<String> = Vec::new();
    let loader_entries: usize = count_loaders(audited);
    let bootable_before: bool = leaves_bootable(audited, none.as_slice());
    proof {
        assert(none.deep_view() =~= Seq::<Seq<char>>::empty());
        assert(bootable_before == any_bootable(a)) by {
            if any_bootable(a) {
                let k = choose|k: int| 0 <= k < a.len() && bootable(#[trigger] a[k]);
                assert(!among(none.deep_view(), a[k].entry.id));
            }
        }
    }
    if loader_entries > 0 && !bootable_before {
        return Err(PlanError::EspEvidenceImplausible { loader_entries });
    }
    let mut i: usize = 0;
    assert(ids.take(0) =~= Seq::<Seq<char>>::empty());
    assert(ops.deep_view() =~= Seq::<PlannedOpView>::empty());
    while i < selection.delete_ids.len()
        invariant
            a == audited.deep_view(),
            f == facts.deep_view(),
            ids == selection.delete_ids.deep_view(),
            rs == selection.renames.deep_view(),
            !selection.deep_view().is_empty(),
            !(with_loader(a) > 0 && !any_bootable(a)),
            i <= ids.len(),
            delete_all(a, f, rs, ids.take(i as int)) == Ok::<Seq<PlannedOpView>, PlanErrorView>(
                ops.deep_view(),
            ),
        decreases ids.len() - i,
    {
        proof {
            assert(ids[i as int] == selection.delete_ids@[i as int]@);
            assert(ids.take(i + 1).drop_last() =~= ids.take(i as int));
            assert(ids.take(i + 1).last() == ids[i as int]);
        }
        let ghost before = ops.deep_view();
        match plan_delete(
            audited,
            facts,
            selection.renames.as_slice(),
            &selection.delete_ids[i],
        ) {
            Ok(op) => {
                ops.push(op);
                assert(ops.deep_view() =~= before.push(op.deep_view()));
            },
            Err(e) => {
                proof {
                    lemma_delete_stops(a, f, rs, ids, i + 1);
                }
                return Err(e);
            },
        }
        i = i + 1;
    }
    assert(ids.take(i as int) =~= ids);
    let ghost deletes = ops.deep_view();
    let mut j: usize = 0;
    assert(rs.take(0) =~= Seq::<(Seq<char>, Seq<char>)>::empty());
    while j < selection.renames.len()
        invariant
            a == audited.deep_view(),
            f == facts.deep_view(),
            ids == selection.delete_ids.deep_view(),
            rs == selection.renames.deep_view(),
            !selection.deep_view().is_empty(),
            !(with_loader(a) > 0 && !any_bootable(a)),
            delete_all(a, f, rs, ids) == Ok::<Seq<PlannedOpView>, PlanErrorView>(deletes),
            j <= rs.len(),
            rename_all(a, deletes, rs.take(j as int)) == Ok::<Seq<PlannedOpView>, PlanErrorView>(
                ops.deep_view(),
            ),
        decreases rs.len() - j,
    {
        proof {
            assert(rs[j as int] == selection.renames@[j as int].deep_view());
            assert(rs.take(j + 1).drop_last() =~= rs.take(j as int));
            assert(rs.take(j + 1).last() == rs[j as int]);
        }
        let ghost before = ops.deep_view();
        match plan_rename(audited, &selection.renames[j].0, selection.renames[j].1.as_str()) {
            Ok(op) => {
                ops.push(op);
                assert(ops.deep_view() =~= before.push(op.deep_view()));
            },
            Err(e) => {
                proof {
                    lemma_rename_stops(a, deletes, rs, j + 1);
                }
                return Err(e);
            },
        }
        j = j + 1;
    }
    assert(rs.take(j as int) =~= rs);
    if bootable_before && !leaves_bootable(audited, selection.delete_ids.as_slice()) {
        return Err(PlanError::RemovesLastBootableEntry);
    }
    Ok(CleanupPlan { ops })
}

/// One step of restoring what a snapshot recorded.
#[derive(Debug, Clone, PartialEq, Eq)]
pub enum RestoreOp {
    /// Create an entry anew. The firmware gives it another id.
    Recreate { original_id: String, label: String, loader_path: String },
    /// Put the recorded `BootOrder` back, with the ids that changed replaced.
    SetBootOrder { order: String },
}

/// What a [`RestoreOp`] holds.
#[verifier::ext_equal]
pub enum RestoreOpView {
    Recreate { original_id: Seq<char>, label: Seq<char>, loader_path: Seq<char> },
    SetBootOrder { order: Seq<char> },
}

impl DeepView for RestoreOp {
    type V = RestoreOpView;

    open spec fn deep_view(&self) -> RestoreOpView {
        match self {
            RestoreOp::Recreate { original_id, label, loader_path } => RestoreOpView::Recreate {
                original_id: original_id@,
                label: label@,
                loader_path: loader_path@,
            },
            RestoreOp::SetBootOrder { order } => RestoreOpView::SetBootOrder { order: order@ },
        }
    }
}

/// A recorded entry that cannot be put back.
#[derive(Debug, Clone, PartialEq, Eq)]
pub struct UnrestorableEntry {
    pub id: String,
    pub label: String,
    pub why: &'static str,
}

/// What an [`UnrestorableEntry`] holds.
#[verifier::ext_equal]
pub struct UnrestorableEntryView {
    pub id: Seq<char>,
    pub label: Seq<char>,
    pub why: Seq<char>,
}

impl DeepView for UnrestorableEntry {
    type V = UnrestorableEntryView;

    open spec fn deep_view(&self) -> UnrestorableEntryView {
        UnrestorableEntryView { id: self.id@, label: self.label@, why: self.why@ }
    }
}

/// What an undo does.
#[derive(Debug, Clone, PartialEq, Eq)]
pub struct RestorePlan {
    pub ops: Vec<RestoreOp>,
    /// Entries that were recorded, are gone, and cannot be recreated.
    pub unrestorable: Vec<UnrestorableEntry>,
}

/// Two entries are the same when label and loader agree: ids are reused.
pub open spec fn same_entry_as(a: BootEntryView, b: BootEntryView) -> bool {
    a.label == b.label && a.loader_path == b.loader_path
}

/// Whether the entry is one of `entries`.
pub open spec fn present(entries: Seq<BootEntryView>, e: BootEntryView) -> bool {
    exists|i: int| 0 <= i < entries.len() && same_entry_as(#[trigger] entries[i], e)
}

/// The entries to create anew: those recorded with a loader and now missing.
pub open spec fn recreations(backup: Seq<BootEntryView>, current: Seq<BootEntryView>) -> Seq<
    RestoreOpView,
>
    decreases backup.len(),
{
    if backup.len() == 0 {
        Seq::empty()
    } else {
        let rest = recreations(backup.drop_last(), current);
        let e = backup.last();
        if !present(current, e) && e.loader_path is Some {
            rest.push(
                RestoreOpView::Recreate {
                    original_id: e.id,
                    label: e.label,
                    loader_path: e.loader_path->0,
                },
            )
        } else {
            rest
        }
    }
}

/// Why an entry without a loader cannot be put back.
pub open spec fn no_loader_reason() -> Seq<char> {
    "no loader path recorded — firmware-owned entries cannot be recreated with efibootmgr"@
}

/// The entries that cannot be put back: those recorded without a loader and
/// now missing.
pub open spec fn losses(backup: Seq<BootEntryView>, current: Seq<BootEntryView>) -> Seq<
    UnrestorableEntryView,
>
    decreases backup.len(),
{
    if backup.len() == 0 {
        Seq::empty()
    } else {
        let rest = losses(backup.drop_last(), current);
        let e = backup.last();
        if !present(current, e) && e.loader_path is None {
            rest.push(
                UnrestorableEntryView { id: e.id, label: e.label, why: no_loader_reason() },
            )
        } else {
            rest
        }
    }
}

/// The steps of an undo: the recreations, and then the recorded boot order.
pub open spec fn restore_ops(
    backup: Seq<BootEntryView>,
    order: Option<Seq<char>>,
    current: Seq<BootEntryView>,
) -> Seq<RestoreOpView> {
    match order {
        Some(o) => recreations(backup, current).push(RestoreOpView::SetBootOrder { order: o }),
        None => recreations(backup, current),
    }
}

/// Whether two optional strings are the same.
fn same_opt(a: &Option<String>, b: &Option<String>) -> (r: bool)
    ensures
        r == (a.deep_view() == b.deep_view()),
{
    match (a, b) {
        (Some(x), Some(y)) => same(x.as_str(), y.as_str()),
        (None, None) => true,
        _ => false,
    }
}

/// Whether two entries agree on label and loader.
fn same_entry(a: &BootEntry, b: &BootEntry) -> (r: bool)
    ensures
        r == same_entry_as(a.deep_view(), b.deep_view()),
{
    same(a.label.as_str(), b.label.as_str()) && same_opt(&a.loader_path, &b.loader_path)
}

/// Whether the entry is one of `entries`.
fn is_present(entries: &[BootEntry], e: &BootEntry) -> (r: bool)
    ensures
        r == present(entries.deep_view(), e.deep_view()),
{
    let mut i: usize = 0;
    while i < entries.len()
        invariant
            i <= entries@.len(),
            forall|k: int|
                0 <= k < i ==> !same_entry_as(#[trigger] entries.deep_view()[k], e.deep_view()),
        decreases entries@.len() - i,
    {
        assert(entries.deep_view()[i as int] == entries@[i as int].deep_view());
        if same_entry(&entries[i], e) {
            return true;
        }
        i = i + 1;
    }
    false
}

/// What brings NVRAM back to the recorded entries. Entries that came since are
/// left alone: nothing is deleted.
pub fn plan_restore(
    backup_entries: &[BootEntry],
    backup_boot_order: Option<&str>,
    current: &[BootEntry],
) -> (r: RestorePlan)
    ensures
        r.ops.deep_view() == restore_ops(
            backup_entries.deep_view(),
            match backup_boot_order {
                Some(o) => Some(o@),
                None => None,
            },
            current.deep_view(),
        ),
        r.unrestorable.deep_view() == losses(backup_entries.deep_view(), current.deep_view()),
{
    let ghost all = backup_entries.deep_view();
    let ghost cur = current.deep_view();
    let mut ops: Vec<RestoreOp> = Vec::new();
    let mut unrestorable: Vec<UnrestorableEntry> = Vec::new();
    let mut i: usize = 0;
    assert(ops.deep_view() =~= recreations(all.take(0), cur));
    assert(unrestorable.deep_view() =~= losses(all.take(0), cur));
    while i < backup_entries.len()
        invariant
            all == backup_entries.deep_view(),
            cur == current.deep_view(),
            i <= backup_entries@.len(),
            ops.deep_view() == recreations(all.take(i as int), cur),
            unrestorable.deep_view() == losses(all.take(i as int), cur),
        decreases backup_entries@.len() - i,
    {
        let entry: &BootEntry = &backup_entries[i];
        proof {
            assert(all.take(i + 1).drop_last() =~= all.take(i as int));
            assert(all.take(i + 1).last() == entry.deep_view());
        }
        let ghost ops_before = ops.deep_view();
        let ghost lost_before = unrestorable.deep_view();
        if !is_present(current, entry) {
            match &entry.loader_path {
                Some(loader_path) => {
                    let op: RestoreOp = RestoreOp::Recreate {
                        original_id: entry.id.clone(),
                        label: entry.label.clone(),
                        loader_path: loader_path.clone(),
                    };
                    ops.push(op);
                    assert(ops.deep_view() =~= ops_before.push(op.deep_view()));
                },
                None => {
                    let lost: UnrestorableEntry = UnrestorableEntry {
                        id: entry.id.clone(),
                        label: entry.label.clone(),
                        why: "no loader path recorded — firmware-owned entries cannot be recreated with efibootmgr",
                    };
                    unrestorable.push(lost);
                    assert(unrestorable.deep_view() =~= lost_before.push(lost.deep_view()));
                },
            }
        }
        i = i + 1;
    }
    assert(all.take(i as int) =~= all);
    match backup_boot_order {
        Some(order) => {
            let ghost ops_before = ops.deep_view();
            let op: RestoreOp = RestoreOp::SetBootOrder { order: order.to_owned() };
            ops.push(op);
            assert(ops.deep_view() =~= ops_before.push(op.deep_view()));
        },
        None => {},
    }
    RestorePlan { ops, unrestorable }
}

/// What the id becomes: the new id of the first pair that maps it, with case
/// ignored, or itself.
pub open spec fn remapped_id(remap: Seq<(Seq<char>, Seq<char>)>, id: Seq<char>) -> Seq<char>
    decreases remap.len(),
{
    if remap.len() == 0 {
        id
    } else if same_ignoring_case(remap[0].0, id) {
        remap[0].1
    } else {
        remapped_id(remap.skip(1), id)
    }
}

/// The ids of the boot order, each replaced by what it became.
pub open spec fn remapped_ids(order: Seq<char>, remap: Seq<(Seq<char>, Seq<char>)>) -> Seq<
    Seq<char>,
> {
    order_ids(split(order, ',')).map_values(|id: Seq<char>| remapped_id(remap, id))
}

/// What the id becomes.
fn remap_id(remap: &[(String, String)], id: &str) -> (r: String)
    ensures
        r@ == remapped_id(remap.deep_view(), id@),
{
    let ghost all = remap.deep_view();
    let mut i: usize = 0;
    assert(all.skip(0) =~= all);
    while i < remap.len()
        invariant
            all == remap.deep_view(),
            i <= remap@.len(),
            remapped_id(all, id@) == remapped_id(all.skip(i as int), id@),
        decreases remap@.len() - i,
    {
        proof {
            assert(all.skip(i as int)[0] == remap@[i as int].deep_view());
            assert(all.skip(i as int).skip(1) =~= all.skip(i + 1));
        }
        if same_ignore_case(remap[i].0.as_str(), id) {
            return remap[i].1.clone();
        }
        i = i + 1;
    }
    id.to_owned()
}

/// The boot order with the ids replaced as `remap` says, each in its place.
/// Ids without a replacement stay; empty fields are dropped.
pub fn remap_boot_order(order: &str, remap: &[(String, String)]) -> (r: String)
    ensures
        r@ == join(remapped_ids(order@, remap.deep_view()), ","@),
{
    let ids: Vec<String> = boot_order_ids(order);
    let ghost all = ids.deep_view();
    let mut out: Vec<String> = Vec::new();
    let mut i: usize = 0;
    while i < ids.len()
        invariant
            all == ids.deep_view(),
            i <= ids@.len(),
            out@.len() == i,
            forall|k: int| 0 <= k < i ==> #[trigger] out@[k]@ == remapped_id(remap.deep_view(), all[k]),
        decreases ids@.len() - i,
    {
        assert(all[i as int] == ids@[i as int]@);
        out.push(remap_id(remap, ids[i].as_str()));
        i = i + 1;
    }
    assert(out.deep_view() =~= remapped_ids(order@, remap.deep_view()));
    joined(out.as_slice(), ",")
}

/// `ids` without those that are among `others`, with case ignored.
pub open spec fn not_among(ids: Seq<Seq<char>>, others: Seq<Seq<char>>) -> Seq<Seq<char>>
    decreases ids.len(),
{
    if ids.len() == 0 {
        Seq::empty()
    } else if among(others, ids.last()) {
        not_among(ids.drop_last(), others)
    } else {
        not_among(ids.drop_last(), others).push(ids.last())
    }
}

/// The ids of the restored order, and behind them those that only the current
/// order has.
pub open spec fn merged_ids(restored: Seq<char>, current: Seq<char>) -> Seq<Seq<char>> {
    let ids = order_ids(split(restored, ','));
    ids + not_among(order_ids(split(current, ',')), ids)
}

/// The restored boot order, with the ids that NVRAM gained since kept behind
/// it.
pub fn merge_boot_order(restored: &str, current: &str) -> (r: String)
    ensures
        r@ == join(merged_ids(restored@, current@), ","@),
{
    let restored_ids: Vec<String> = boot_order_ids(restored);
    let current_ids: Vec<String> = boot_order_ids(current);
    let ghost old_ids = restored_ids.deep_view();
    let ghost all = current_ids.deep_view();
    let mut out: Vec<String> = crate::text::compose::cloned_all(restored_ids.as_slice());
    let mut i: usize = 0;
    assert(out.deep_view() =~= old_ids + not_among(all.take(0), old_ids));
    while i < current_ids.len()
        invariant
            old_ids == restored_ids.deep_view(),
            all == current_ids.deep_view(),
            i <= current_ids@.len(),
            out.deep_view() == old_ids + not_among(all.take(i as int), old_ids),
        decreases current_ids@.len() - i,
    {
        proof {
            assert(all[i as int] == current_ids@[i as int]@);
            assert(all.take(i + 1).drop_last() =~= all.take(i as int));
            assert(all.take(i + 1).last() == all[i as int]);
        }
        let ghost before = out.deep_view();
        if !is_among(restored_ids.as_slice(), current_ids[i].as_str()) {
            out.push(current_ids[i].clone());
            assert(out.deep_view() =~= before.push(all[i as int]));
            assert(before.push(all[i as int]) =~= old_ids + not_among(
                all.take(i as int),
                old_ids,
            ).push(all[i as int]));
        }
        i = i + 1;
    }
    assert(all.take(i as int) =~= all);
    joined(out.as_slice(), ",")
}

/// A planned deletion answers to the selected id in its place.
pub proof fn lemma_deletes(
    audited: Seq<AuditedEntryView>,
    facts: NvramFactsView,
    renames: Seq<(Seq<char>, Seq<char>)>,
    ids: Seq<Seq<char>>,
)
    requires
        delete_all(audited, facts, renames, ids) is Ok,
    ensures
        delete_all(audited, facts, renames, ids)->Ok_0.len() == ids.len(),
        forall|j: int|
            0 <= j < ids.len() ==> delete_one(audited, facts, renames, #[trigger] ids[j]) == Ok::<
                PlannedOpView,
                PlanErrorView,
            >(delete_all(audited, facts, renames, ids)->Ok_0[j]),
    decreases ids.len(),
{
    if ids.len() > 0 {
        let d = ids.drop_last();
        lemma_deletes(audited, facts, renames, d);
        assert forall|j: int| 0 <= j < ids.len() implies delete_one(
            audited,
            facts,
            renames,
            #[trigger] ids[j],
        ) == Ok::<PlannedOpView, PlanErrorView>(
            delete_all(audited, facts, renames, ids)->Ok_0[j],
        ) by {
            if j < d.len() {
                assert(d[j] == ids[j]);
            }
        }
    }
}

/// The renames stand behind the deletions, each in the place of its selection.
pub proof fn lemma_renames(
    audited: Seq<AuditedEntryView>,
    ops: Seq<PlannedOpView>,
    renames: Seq<(Seq<char>, Seq<char>)>,
)
    requires
        rename_all(audited, ops, renames) is Ok,
    ensures
        rename_all(audited, ops, renames)->Ok_0.len() == ops.len() + renames.len(),
        rename_all(audited, ops, renames)->Ok_0.take(ops.len() as int) == ops,
        forall|j: int|
            0 <= j < renames.len() ==> rename_one(
                audited,
                (#[trigger] renames[j]).0,
                renames[j].1,
            ) == Ok::<PlannedOpView, PlanErrorView>(
                rename_all(audited, ops, renames)->Ok_0[ops.len() + j],
            ),
    decreases renames.len(),
{
    let all = rename_all(audited, ops, renames)->Ok_0;
    if renames.len() > 0 {
        let d = renames.drop_last();
        lemma_renames(audited, ops, d);
        let done = rename_all(audited, ops, d)->Ok_0;
        assert(all.take(ops.len() as int) =~= done.take(ops.len() as int));
        assert forall|j: int| 0 <= j < renames.len() implies rename_one(
            audited,
            (#[trigger] renames[j]).0,
            renames[j].1,
        ) == Ok::<PlannedOpView, PlanErrorView>(all[ops.len() + j]) by {
            if j < d.len() {
                assert(d[j] == renames[j]);
            }
        }
    } else {
        assert(all.take(ops.len() as int) =~= ops);
    }
}

/// The entry found has the id, with case ignored.
pub proof fn lemma_entry_with_id(audited: Seq<AuditedEntryView>, id: Seq<char>)
    ensures
        match entry_with_id(audited, id) {
            Some(e) => audited.contains(e) && same_ignoring_case(e.entry.id, id),
            None => forall|k: int|
                0 <= k < audited.len() ==> !same_ignoring_case(
                    (#[trigger] audited[k]).entry.id,
                    id,
                ),
        },
    decreases audited.len(),
{
    if audited.len() > 0 && !same_ignoring_case(audited[0].entry.id, id) {
        let rest = audited.skip(1);
        lemma_entry_with_id(rest, id);
        match entry_with_id(rest, id) {
            Some(e) => {
                let k = choose|k: int| 0 <= k < rest.len() && rest[k] == e;
                assert(audited[k + 1] == e);
            },
            None => {
                assert forall|k: int| 0 <= k < audited.len() implies !same_ignoring_case(
                    (#[trigger] audited[k]).entry.id,
                    id,
                ) by {
                    if k > 0 {
                        assert(rest[k - 1] == audited[k]);
                    }
                }
            },
        }
    }
}

/// Planning nothing is always allowed, and plans nothing.
pub proof fn law_empty_selection_plans_nothing(
    audited: Seq<AuditedEntryView>,
    facts: NvramFactsView,
    selection: CleanupSelectionView,
)
    requires
        selection.is_empty(),
    ensures
        cleanup_of(audited, facts, selection) == Ok::<Seq<PlannedOpView>, PlanErrorView>(
            Seq::empty(),
        ),
{
}

/// Entries with a loader, none of which is found, speak of the wrong ESP: no
/// change is approved on such evidence.
pub proof fn law_wrong_esp_approves_nothing(
    audited: Seq<AuditedEntryView>,
    facts: NvramFactsView,
    selection: CleanupSelectionView,
)
    requires
        !selection.is_empty(),
        exists|i: int| 0 <= i < audited.len() && (#[trigger] audited[i]).entry.loader_path is Some,
        forall|i: int| 0 <= i < audited.len() ==> !bootable(#[trigger] audited[i]),
    ensures
        cleanup_of(audited, facts, selection) == Err::<Seq<PlannedOpView>, PlanErrorView>(
            PlanErrorView::EspEvidenceImplausible { loader_entries: with_loader(audited) as int },
        ),
{
    let i = choose|i: int|
        0 <= i < audited.len() && (#[trigger] audited[i]).entry.loader_path is Some;
    lemma_with_loader(audited, i);
}

proof fn lemma_with_loader(audited: Seq<AuditedEntryView>, i: int)
    requires
        0 <= i < audited.len(),
        audited[i].entry.loader_path is Some,
    ensures
        with_loader(audited) > 0,
    decreases audited.len(),
{
    if i < audited.len() - 1 {
        lemma_with_loader(audited.drop_last(), i);
    }
}

/// An approved plan does what was selected and no more: one change for each
/// selected deletion and rename, the deletions first.
pub proof fn law_plan_follows_selection(
    audited: Seq<AuditedEntryView>,
    facts: NvramFactsView,
    selection: CleanupSelectionView,
)
    requires
        cleanup_of(audited, facts, selection) is Ok,
    ensures
        ({
            let ops = cleanup_of(audited, facts, selection)->Ok_0;
            let n = selection.delete_ids.len() as int;
            &&& ops.len() == n + selection.renames.len()
            &&& forall|j: int|
                0 <= j < n ==> delete_one(
                    audited,
                    facts,
                    selection.renames,
                    #[trigger] selection.delete_ids[j],
                ) == Ok::<PlannedOpView, PlanErrorView>(ops[j])
            &&& forall|j: int|
                0 <= j < selection.renames.len() ==> rename_one(
                    audited,
                    (#[trigger] selection.renames[j]).0,
                    selection.renames[j].1,
                ) == Ok::<PlannedOpView, PlanErrorView>(ops[n + j])
        }),
{
    if !selection.is_empty() {
        let deletes = delete_all(audited, facts, selection.renames, selection.delete_ids)->Ok_0;
        lemma_deletes(audited, facts, selection.renames, selection.delete_ids);
        lemma_renames(audited, deletes, selection.renames);
        let ops = cleanup_of(audited, facts, selection)->Ok_0;
        assert forall|j: int| 0 <= j < selection.delete_ids.len() implies delete_one(
            audited,
            facts,
            selection.renames,
            #[trigger] selection.delete_ids[j],
        ) == Ok::<PlannedOpView, PlanErrorView>(ops[j]) by {
            assert(ops.take(deletes.len() as int)[j] == ops[j]);
        }
    }
}

/// No protected entry is ever deleted: each planned deletion is of an entry of
/// the audit that nothing protects.
pub proof fn law_protected_entries_are_never_deleted(
    audited: Seq<AuditedEntryView>,
    facts: NvramFactsView,
    selection: CleanupSelectionView,
    j: int,
)
    requires
        cleanup_of(audited, facts, selection) is Ok,
        0 <= j < cleanup_of(audited, facts, selection)->Ok_0.len(),
        cleanup_of(audited, facts, selection)->Ok_0[j] is Delete,
    ensures
        exists|e: AuditedEntryView|
            #![trigger audited.contains(e)]
            audited.contains(e) && protection_of(e, facts) is None && cleanup_of(
                audited,
                facts,
                selection,
            )->Ok_0[j] == (PlannedOpView::Delete {
                id: e.entry.id,
                label: e.entry.label,
                flags: e.flags,
            }),
{
    law_plan_follows_selection(audited, facts, selection);
    let n = selection.delete_ids.len() as int;
    if j < n {
        let id = selection.delete_ids[j];
        lemma_entry_with_id(audited, id);
        let e = entry_with_id(audited, id)->0;
        assert(audited.contains(e));
    } else {
        let r = selection.renames[j - n];
        assert(rename_one(audited, r.0, r.1)->Ok_0 is Rename);
    }
}

/// Only an entry that could be recreated is renamed: it is in the audit, its
/// loader is present, the firmware does not own it, and the new label is
/// valid and another than the old.
pub proof fn law_only_recreatable_entries_are_renamed(
    audited: Seq<AuditedEntryView>,
    facts: NvramFactsView,
    selection: CleanupSelectionView,
    j: int,
)
    requires
        cleanup_of(audited, facts, selection) is Ok,
        0 <= j < cleanup_of(audited, facts, selection)->Ok_0.len(),
        cleanup_of(audited, facts, selection)->Ok_0[j] is Rename,
    ensures
        exists|e: AuditedEntryView|
            #![trigger audited.contains(e)]
            {
                let op = cleanup_of(audited, facts, selection)->Ok_0[j];
                &&& audited.contains(e)
                &&& bootable(e)
                &&& !e.flags.contains(AuditFlag::FirmwareManaged)
                &&& op->Rename_id == e.entry.id
                &&& op->from_label == e.entry.label
                &&& e.entry.loader_path == Some(op->loader_path)
                &&& valid_label(op->to_label)
                &&& op->to_label != op->from_label
            },
{
    law_plan_follows_selection(audited, facts, selection);
    let n = selection.delete_ids.len() as int;
    if j < n {
        let id = selection.delete_ids[j];
        assert(delete_one(audited, facts, selection.renames, id)->Ok_0 is Delete);
    } else {
        let r = selection.renames[j - n];
        lemma_entry_with_id(audited, r.0);
        let e = entry_with_id(audited, r.0)->0;
        assert(audited.contains(e));
    }
}

/// A way to boot is always left: where an entry's loader is present before,
/// there is one such entry that the plan does not delete.
pub proof fn law_a_bootable_entry_survives(
    audited: Seq<AuditedEntryView>,
    facts: NvramFactsView,
    selection: CleanupSelectionView,
)
    requires
        cleanup_of(audited, facts, selection) is Ok,
        any_bootable(audited),
    ensures
        exists|k: int|
            0 <= k < audited.len() && bootable(#[trigger] audited[k]) && forall|j: int|
                0 <= j < cleanup_of(audited, facts, selection)->Ok_0.len() && (
                #[trigger] cleanup_of(audited, facts, selection)->Ok_0[j]) is Delete
                    ==> !same_ignoring_case(
                    cleanup_of(audited, facts, selection)->Ok_0[j]->Delete_id,
                    audited[k].entry.id,
                ),
{
    let ops = cleanup_of(audited, facts, selection)->Ok_0;
    law_plan_follows_selection(audited, facts, selection);
    let ids = selection.delete_ids;
    let k = if selection.is_empty() {
        choose|k: int| 0 <= k < audited.len() && bootable(#[trigger] audited[k])
    } else {
        choose|k: int|
            0 <= k < audited.len() && bootable(#[trigger] audited[k]) && !among(
                ids,
                audited[k].entry.id,
            )
    };
    assert(bootable(audited[k]));
    assert forall|j: int|
        0 <= j < ops.len() && (#[trigger] ops[j]) is Delete implies !same_ignoring_case(
        ops[j]->Delete_id,
        audited[k].entry.id,
    ) by {
        if j < ids.len() {
            let id = ids[j];
            assert(delete_one(audited, facts, selection.renames, id) == Ok::<
                PlannedOpView,
                PlanErrorView,
            >(ops[j]));
            lemma_entry_with_id(audited, id);
            if same_ignoring_case(ops[j]->Delete_id, audited[k].entry.id) {
                assert(same_ignoring_case(ids[j], audited[k].entry.id));
                assert(among(ids, audited[k].entry.id));
            }
        } else {
            let r = selection.renames[j - ids.len()];
            assert(rename_one(audited, r.0, r.1)->Ok_0 is Rename);
        }
    }
}

/// Whether no two entries share an id.
pub open spec fn distinct_ids(audited: Seq<AuditedEntryView>) -> bool {
    forall|i: int, j: int|
        0 <= i < j < audited.len() ==> !same_ignoring_case(
            (#[trigger] audited[i]).entry.id,
            (#[trigger] audited[j]).entry.id,
        )
}

/// Each id proposed for deletion is that of a dead, unprotected entry.
proof fn lemma_default_ids(audited: Seq<AuditedEntryView>, facts: NvramFactsView)
    ensures
        forall|j: int|
            0 <= j < default_ids(audited, facts).len() ==> exists|k: int|
                0 <= k < audited.len() && (#[trigger] audited[k]).entry.id == (
                #[trigger] default_ids(audited, facts)[j]) && audited[k].preselectable()
                    && protection_of(audited[k], facts) is None,
    decreases audited.len(),
{
    if audited.len() > 0 {
        let d = audited.drop_last();
        lemma_default_ids(d, facts);
        let all = default_ids(audited, facts);
        let rest = default_ids(d, facts);
        assert forall|j: int| 0 <= j < all.len() implies exists|k: int|
            0 <= k < audited.len() && (#[trigger] audited[k]).entry.id == (#[trigger] all[j])
                && audited[k].preselectable() && protection_of(audited[k], facts) is None by {
            if j < rest.len() {
                assert(all[j] == rest[j]);
                let k = choose|k: int|
                    0 <= k < d.len() && (#[trigger] d[k]).entry.id == rest[j]
                        && d[k].preselectable() && protection_of(d[k], facts) is None;
                assert(audited[k] == d[k]);
            } else {
                assert(audited[audited.len() - 1].entry.id == all[j]);
            }
        }
    }
}

/// With distinct ids, an id finds the entry that has it.
pub proof fn lemma_found_is_the_entry(audited: Seq<AuditedEntryView>, k: int)
    requires
        distinct_ids(audited),
        0 <= k < audited.len(),
    ensures
        entry_with_id(audited, audited[k].entry.id) == Some(audited[k]),
{
    let id = audited[k].entry.id;
    lemma_entry_with_id(audited, id);
    assert(same_ignoring_case(audited[k].entry.id, id));
    let e = entry_with_id(audited, id)->0;
    let m = choose|m: int| 0 <= m < audited.len() && audited[m] == e;
    if m != k {
        if m < k {
            assert(!same_ignoring_case(audited[m].entry.id, audited[k].entry.id));
        } else {
            assert(!same_ignoring_case(audited[k].entry.id, audited[m].entry.id));
        }
    }
}

/// Deletions of dead, unprotected entries are all allowed.
proof fn lemma_default_deletes(
    audited: Seq<AuditedEntryView>,
    facts: NvramFactsView,
    ids: Seq<Seq<char>>,
)
    requires
        distinct_ids(audited),
        forall|j: int|
            0 <= j < ids.len() ==> exists|k: int|
                0 <= k < audited.len() && (#[trigger] audited[k]).entry.id == (#[trigger] ids[j])
                    && audited[k].preselectable() && protection_of(audited[k], facts) is None,
    ensures
        delete_all(audited, facts, Seq::empty(), ids) is Ok,
    decreases ids.len(),
{
    if ids.len() > 0 {
        let d = ids.drop_last();
        assert forall|j: int| 0 <= j < d.len() implies exists|k: int|
            0 <= k < audited.len() && (#[trigger] audited[k]).entry.id == (#[trigger] d[j])
                && audited[k].preselectable() && protection_of(audited[k], facts) is None by {
            assert(d[j] == ids[j]);
        }
        lemma_default_deletes(audited, facts, d);
        let last = ids[ids.len() - 1];
        let k = choose|k: int|
            0 <= k < audited.len() && (#[trigger] audited[k]).entry.id == last
                && audited[k].preselectable() && protection_of(audited[k], facts) is None;
        lemma_found_is_the_entry(audited, k);
    }
}

/// The deletions proposed without asking are always approved, where the ids
/// are distinct and the ESP evidence is plausible.
pub proof fn law_default_selection_is_approved(
    audited: Seq<AuditedEntryView>,
    facts: NvramFactsView,
)
    requires
        distinct_ids(audited),
        with_loader(audited) > 0 ==> any_bootable(audited),
    ensures
        cleanup_of(
            audited,
            facts,
            CleanupSelectionView {
                delete_ids: default_ids(audited, facts),
                renames: Seq::empty(),
            },
        ) is Ok,
{
    let ids = default_ids(audited, facts);
    lemma_default_ids(audited, facts);
    lemma_default_deletes(audited, facts, ids);
    if any_bootable(audited) {
        let k = choose|k: int| 0 <= k < audited.len() && bootable(#[trigger] audited[k]);
        if among(ids, audited[k].entry.id) {
            let j = choose|j: int|
                0 <= j < ids.len() && same_ignoring_case(#[trigger] ids[j], audited[k].entry.id);
            let m = choose|m: int|
                0 <= m < audited.len() && (#[trigger] audited[m]).entry.id == ids[j]
                    && audited[m].preselectable() && protection_of(audited[m], facts) is None;
            assert(m != k);
            if m < k {
                assert(!same_ignoring_case(audited[m].entry.id, audited[k].entry.id));
            } else {
                assert(!same_ignoring_case(audited[k].entry.id, audited[m].entry.id));
            }
        }
        assert(bootable(audited[k]) && !among(ids, audited[k].entry.id));
    }
}

/// Undoing a cleanup that changed nothing does nothing.
pub proof fn law_restore_of_unchanged_is_empty(entries: Seq<BootEntryView>)
    ensures
        restore_ops(entries, None, entries) == Seq::<RestoreOpView>::empty(),
        losses(entries, entries) == Seq::<UnrestorableEntryView>::empty(),
{
    lemma_nothing_missing(entries, entries);
}

/// Where every recorded entry is present there is nothing to restore.
proof fn lemma_nothing_missing(backup: Seq<BootEntryView>, current: Seq<BootEntryView>)
    requires
        forall|k: int| 0 <= k < backup.len() ==> current.contains(#[trigger] backup[k]),
    ensures
        recreations(backup, current) == Seq::<RestoreOpView>::empty(),
        losses(backup, current) == Seq::<UnrestorableEntryView>::empty(),
    decreases backup.len(),
{
    if backup.len() > 0 {
        let d = backup.drop_last();
        assert forall|k: int| 0 <= k < d.len() implies current.contains(#[trigger] d[k]) by {
            assert(d[k] == backup[k]);
        }
        lemma_nothing_missing(d, current);
        let e = backup[backup.len() - 1];
        let m = choose|m: int| 0 <= m < current.len() && current[m] == e;
        assert(same_entry_as(current[m], e));
    }
}

/// Every recorded entry that is missing now is recreated or reported, never
/// both and never dropped.
pub proof fn law_every_missing_entry_is_accounted_for(
    backup: Seq<BootEntryView>,
    current: Seq<BootEntryView>,
)
    ensures
        recreations(backup, current).len() + losses(backup, current).len() == backup.filter(
            |e: BootEntryView| !present(current, e),
        ).len(),
    decreases backup.len(),
{
    reveal(Seq::filter);
    if backup.len() > 0 {
        law_every_missing_entry_is_accounted_for(backup.drop_last(), current);
    }
}

/// A renamed entry keeps its place: replacing ids changes neither the number
/// nor the position of the others.
pub proof fn law_remap_keeps_positions(
    order: Seq<char>,
    remap: Seq<(Seq<char>, Seq<char>)>,
    k: int,
)
    requires
        0 <= k < order_ids(split(order, ',')).len(),
    ensures
        remapped_ids(order, remap).len() == order_ids(split(order, ',')).len(),
        !among_renames(remap, order_ids(split(order, ','))[k]) ==> remapped_ids(order, remap)[k]
            == order_ids(split(order, ','))[k],
{
    let id = order_ids(split(order, ','))[k];
    lemma_unmapped_id(remap, id);
}

/// An id that no pair maps stays as it is.
proof fn lemma_unmapped_id(remap: Seq<(Seq<char>, Seq<char>)>, id: Seq<char>)
    ensures
        !among_renames(remap, id) ==> remapped_id(remap, id) == id,
    decreases remap.len(),
{
    if remap.len() > 0 {
        let rest = remap.skip(1);
        lemma_unmapped_id(rest, id);
        if !among_renames(remap, id) {
            assert(!same_ignoring_case(remap[0].0, id));
            assert(!among_renames(rest, id)) by {
                if among_renames(rest, id) {
                    let k = choose|k: int|
                        0 <= k < rest.len() && same_ignoring_case((#[trigger] rest[k]).0, id);
                    assert(remap[k + 1] == rest[k]);
                }
            }
        }
    }
}

/// An undo removes no boot path: the merged order begins with the restored
/// ids, and every id of the current order is among the merged ones.
pub proof fn law_merge_keeps_every_id(restored: Seq<char>, current: Seq<char>, k: int)
    requires
        0 <= k < order_ids(split(current, ',')).len(),
    ensures
        merged_ids(restored, current).take(order_ids(split(restored, ',')).len() as int)
            == order_ids(split(restored, ',')),
        among(merged_ids(restored, current), order_ids(split(current, ','))[k]),
{
    let ids = order_ids(split(restored, ','));
    let cur = order_ids(split(current, ','));
    let all = merged_ids(restored, current);
    assert(all.take(ids.len() as int) =~= ids);
    lemma_not_among_keeps(cur, ids, k);
    if among(ids, cur[k]) {
        let m = choose|m: int| 0 <= m < ids.len() && same_ignoring_case(#[trigger] ids[m], cur[k]);
        assert(all[m] == ids[m]);
    } else {
        let m = choose|m: int|
            0 <= m < not_among(cur, ids).len() && #[trigger] not_among(cur, ids)[m] == cur[k];
        assert(all[ids.len() + m] == cur[k]);
        assert(same_ignoring_case(all[ids.len() + m], cur[k]));
    }
}

/// Ids that are kept are ids.
proof fn lemma_not_among_ids(ids: Seq<Seq<char>>, others: Seq<Seq<char>>)
    requires
        all_ids(ids),
    ensures
        all_ids(not_among(ids, others)),
    decreases ids.len(),
{
    if ids.len() > 0 {
        let d = ids.drop_last();
        let rest = not_among(d, others);
        let all = not_among(ids, others);
        assert(is_id(ids[ids.len() - 1]));
        assert forall|k: int| 0 <= k < d.len() implies is_id(#[trigger] d[k]) by {
            assert(d[k] == ids[k]);
        }
        lemma_not_among_ids(d, others);
        assert forall|k: int| 0 <= k < all.len() implies is_id(#[trigger] all[k]) by {
            if k < rest.len() {
                assert(all[k] == rest[k]);
            }
        }
    }
}

/// The order that an undo sets is read back as the ids that were merged.
pub proof fn law_merged_order_is_read_back(restored: Seq<char>, current: Seq<char>)
    ensures
        order_ids(split(join(merged_ids(restored, current), ","@), ',')) == merged_ids(
            restored,
            current,
        ),
{
    let ids = order_ids(split(restored, ','));
    let cur = order_ids(split(current, ','));
    let all = merged_ids(restored, current);
    lemma_ids_of_order(restored);
    lemma_ids_of_order(current);
    lemma_not_among_ids(cur, ids);
    let more = not_among(cur, ids);
    assert forall|k: int| 0 <= k < all.len() implies is_id(#[trigger] all[k]) by {
        if k < ids.len() {
            assert(all[k] == ids[k]);
        } else {
            assert(all[k] == more[k - ids.len()]);
        }
    }
    law_orders_are_read_back(all);
}

/// What is not among the others is kept.
proof fn lemma_not_among_keeps(ids: Seq<Seq<char>>, others: Seq<Seq<char>>, k: int)
    requires
        0 <= k < ids.len(),
    ensures
        among(others, ids[k]) || exists|m: int|
            0 <= m < not_among(ids, others).len() && #[trigger] not_among(ids, others)[m] == ids[k],
    decreases ids.len(),
{
    let d = ids.drop_last();
    let kept = not_among(ids, others);
    if k < d.len() {
        lemma_not_among_keeps(d, others, k);
        assert(d[k] == ids[k]);
        if !among(others, ids[k]) {
            let m = choose|m: int|
                0 <= m < not_among(d, others).len() && #[trigger] not_among(d, others)[m] == d[k];
            assert(kept[m] == ids[k]);
        }
    } else if !among(others, ids[k]) {
        assert(kept[kept.len() - 1] == ids[k]);
    }
}

} // verus!

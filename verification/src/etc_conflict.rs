//! Conflicts in `/etc` between two bases.
//!
//! Within one base a user's edit was made against the defaults that the new
//! image ships too, so keeping it is right. Between bases both sides move, and
//! keeping the edit hides the target's new default. Where all three of the
//! source's default, the user's value and the target's default differ, the
//! target's default wins and the user's value is kept beside it. Paths that
//! describe this machine are left alone.

use vstd::prelude::*;

use crate::mergetc::{identity_db, is_identity_db};
use crate::text::compose::{join, joined, pad_right, padded_right};
use crate::text::order::{
    law_sorting_forgets_the_order, law_sorting_keeps_every_text, precedes, sort_texts,
    sorted_texts, text_precedes,
};
use crate::text::paths::{join_path, path_join};
use crate::text::search::{begins, ends_with, finishes, same, starts_with};

verus! {

/// Whether the path describes this machine: its disks, its volumes, its keys,
/// its name or its accounts.
pub open spec fn exempt(path: Seq<char>) -> bool {
    ||| identity_db(path)
    ||| path == "fstab"@
    ||| path == "crypttab"@
    ||| path == "mdadm.conf"@
    ||| path == "hostname"@
    ||| begins(path, "ssh/ssh_host_"@)
    ||| begins(path, "lvm/"@)
    ||| begins(path, "multipath/"@)
}

/// What stands at a path: a file or a symlink.
#[derive(Debug, Clone, PartialEq, Eq)]
pub enum EtcEntry {
    /// A file, with its contents.
    File(Vec<u8>),
    /// A symlink, with its target as it is written.
    Symlink(String),
}

/// What an [`EtcEntry`] holds.
#[verifier::ext_equal]
pub enum EtcEntryView {
    File(Seq<u8>),
    Symlink(Seq<char>),
}

impl DeepView for EtcEntry {
    type V = EtcEntryView;

    open spec fn deep_view(&self) -> EtcEntryView {
        match self {
            EtcEntry::File(b) => EtcEntryView::File(b@),
            EtcEntry::Symlink(t) => EtcEntryView::Symlink(t@),
        }
    }
}

/// One path in the three trees.
#[derive(Debug, Clone, PartialEq, Eq)]
pub struct EtcTriple {
    /// The path relative to `/etc`.
    pub path: String,
    pub source_default: Option<EtcEntry>,
    pub current: Option<EtcEntry>,
    pub target_default: Option<EtcEntry>,
}

/// What an [`EtcTriple`] holds.
#[verifier::ext_equal]
pub struct EtcTripleView {
    pub path: Seq<char>,
    pub source_default: Option<EtcEntryView>,
    pub current: Option<EtcEntryView>,
    pub target_default: Option<EtcEntryView>,
}

impl DeepView for EtcTriple {
    type V = EtcTripleView;

    open spec fn deep_view(&self) -> EtcTripleView {
        EtcTripleView {
            path: self.path@,
            source_default: self.source_default.deep_view(),
            current: self.current.deep_view(),
            target_default: self.target_default.deep_view(),
        }
    }
}

/// What is done about a conflict.
#[derive(Debug, Clone, Copy, PartialEq, Eq, Structural)]
pub enum Decision {
    /// The target's default wins.
    TakeTargetDefault,
    /// The path describes this machine: the user's value stays.
    ExemptKeepCurrent,
}

/// A path where the target's default displaced the user's value.
#[derive(Debug, Clone, PartialEq, Eq)]
pub struct EtcConflict {
    pub path: String,
    /// Where the user's value is kept.
    pub sidecar: String,
}

/// What an [`EtcConflict`] holds.
#[verifier::ext_equal]
pub struct EtcConflictView {
    pub path: Seq<char>,
    pub sidecar: Seq<char>,
}

impl DeepView for EtcConflict {
    type V = EtcConflictView;

    open spec fn deep_view(&self) -> EtcConflictView {
        EtcConflictView { path: self.path@, sidecar: self.sidecar@ }
    }
}

/// What is rewritten, and what was in conflict but is exempt.
#[derive(Debug, Clone, PartialEq, Eq)]
pub struct EtcConflictPlan {
    /// In the order of the paths.
    pub resolved: Vec<EtcConflict>,
    /// In order.
    pub exempt: Vec<String>,
}

impl Default for EtcConflictPlan {
    /// No conflict.
    fn default() -> (r: Self)
        ensures
            r.resolved@.len() == 0,
            r.exempt@.len() == 0,
    {
        EtcConflictPlan { resolved: Vec::new(), exempt: Vec::new() }
    }
}

impl EtcConflictPlan {
    /// Whether nothing is rewritten.
    pub fn is_empty(&self) -> (r: bool)
        ensures
            r == (self.resolved@.len() == 0),
    {
        self.resolved.len() == 0
    }
}

/// Whether both are files or both are symlinks.
pub open spec fn same_kind(a: EtcEntryView, b: EtcEntryView) -> bool {
    a is File == b is File
}

/// Whether the three values are of one kind and all differ: the user changed
/// the source's default, the target has another default, and the user's value
/// is not that one already.
pub open spec fn three_way(s: EtcEntryView, c: EtcEntryView, t: EtcEntryView) -> bool {
    same_kind(s, c) && same_kind(s, t) && c != s && t != s && c != t
}

/// Whether the path is in conflict. A file that an earlier re-base displaced
/// is an archive, and never is.
pub open spec fn in_conflict(triple: EtcTripleView) -> bool {
    !finishes(triple.path, ".rebase-old"@) && match (
        triple.source_default,
        triple.current,
        triple.target_default,
    ) {
        (Some(s), Some(c), Some(t)) => three_way(s, c, t),
        _ => false,
    }
}

/// What is done about the path, if it is in conflict.
pub open spec fn decision_of(triple: EtcTripleView) -> Option<Decision> {
    if !in_conflict(triple) {
        None
    } else if exempt(triple.path) {
        Some(Decision::ExemptKeepCurrent)
    } else {
        Some(Decision::TakeTargetDefault)
    }
}

/// Whether the path, relative to `/etc`, describes this machine.
pub fn is_exempt(rel_path: &str) -> (r: bool)
    ensures
        r == exempt(rel_path@),
{
    is_identity_db(rel_path) || same(rel_path, "fstab") || same(rel_path, "crypttab") || same(
        rel_path,
        "mdadm.conf",
    ) || same(rel_path, "hostname") || starts_with(rel_path, "ssh/ssh_host_") || starts_with(
        rel_path,
        "lvm/",
    ) || starts_with(rel_path, "multipath/")
}

/// Whether two byte strings are the same.
fn same_bytes(a: &[u8], b: &[u8]) -> (r: bool)
    ensures
        r == (a@ == b@),
{
    if a.len() != b.len() {
        return false;
    }
    let mut i: usize = 0;
    while i < a.len()
        invariant
            a@.len() == b@.len(),
            i <= a@.len(),
            forall|k: int| 0 <= k < i ==> a@[k] == b@[k],
        decreases a@.len() - i,
    {
        if a[i] != b[i] {
            return false;
        }
        i = i + 1;
    }
    assert(a@ =~= b@);
    true
}

/// Whether two values are the same.
fn same_value(a: &EtcEntry, b: &EtcEntry) -> (r: bool)
    ensures
        r == (a.deep_view() == b.deep_view()),
{
    match (a, b) {
        (EtcEntry::File(x), EtcEntry::File(y)) => same_bytes(x.as_slice(), y.as_slice()),
        (EtcEntry::Symlink(x), EtcEntry::Symlink(y)) => same(x.as_str(), y.as_str()),
        _ => false,
    }
}

/// Whether the value is a file.
fn is_file(a: &EtcEntry) -> (r: bool)
    ensures
        r == (a.deep_view() is File),
{
    match a {
        EtcEntry::File(_) => true,
        EtcEntry::Symlink(_) => false,
    }
}

/// What is done about one path. `None` leaves it as the merge made it.
pub fn classify(triple: &EtcTriple) -> (r: Option<Decision>)
    ensures
        r == decision_of(triple.deep_view()),
{
    if ends_with(triple.path.as_str(), ".rebase-old") {
        return None;
    }
    match (&triple.source_default, &triple.current, &triple.target_default) {
        (Some(s), Some(c), Some(t)) => {
            if is_file(s) != is_file(c) || is_file(s) != is_file(t) {
                return None;
            }
            if same_value(c, s) || same_value(t, s) || same_value(c, t) {
                return None;
            }
        },
        _ => {
            return None;
        },
    }
    if is_exempt(triple.path.as_str()) {
        Some(Decision::ExemptKeepCurrent)
    } else {
        Some(Decision::TakeTargetDefault)
    }
}

/// The paths about which the decision is `d`.
pub open spec fn paths_decided(triples: Seq<EtcTripleView>, d: Decision) -> Seq<Seq<char>>
    decreases triples.len(),
{
    if triples.len() == 0 {
        Seq::empty()
    } else if decision_of(triples.last()) == Some(d) {
        paths_decided(triples.drop_last(), d).push(triples.last().path)
    } else {
        paths_decided(triples.drop_last(), d)
    }
}

/// The conflict at the path, with the name that the user's value gets.
pub open spec fn conflict_at(path: Seq<char>) -> EtcConflictView {
    EtcConflictView { path, sidecar: path + ".rebase-old"@ }
}

/// The conflicts at the paths that take the target's default, in the order of
/// the paths.
pub open spec fn planned_conflicts(triples: Seq<EtcTripleView>) -> Seq<EtcConflictView> {
    sorted_texts(paths_decided(triples, Decision::TakeTargetDefault)).map_values(
        |p: Seq<char>| conflict_at(p),
    )
}

/// The paths that are in conflict and left alone, in order.
pub open spec fn planned_exempt(triples: Seq<EtcTripleView>) -> Seq<Seq<char>> {
    sorted_texts(paths_decided(triples, Decision::ExemptKeepCurrent))
}

/// What is done about all the paths, in their order.
pub fn plan_etc_conflicts(triples: &[EtcTriple]) -> (r: EtcConflictPlan)
    ensures
        r.resolved.deep_view() == planned_conflicts(triples.deep_view()),
        r.exempt.deep_view() == planned_exempt(triples.deep_view()),
{
    let ghost all = triples.deep_view();
    let mut taken: Vec<String> = Vec::new();
    let mut kept: Vec<String> = Vec::new();
    let mut i: usize = 0;
    assert(taken.deep_view() =~= paths_decided(all.take(0), Decision::TakeTargetDefault));
    assert(kept.deep_view() =~= paths_decided(all.take(0), Decision::ExemptKeepCurrent));
    while i < triples.len()
        invariant
            all == triples.deep_view(),
            i <= triples@.len(),
            taken.deep_view() == paths_decided(all.take(i as int), Decision::TakeTargetDefault),
            kept.deep_view() == paths_decided(all.take(i as int), Decision::ExemptKeepCurrent),
        decreases triples@.len() - i,
    {
        proof {
            assert(all.take(i + 1).drop_last() =~= all.take(i as int));
            assert(all.take(i + 1).last() == triples@[i as int].deep_view());
        }
        let ghost taken_before = taken.deep_view();
        let ghost kept_before = kept.deep_view();
        match classify(&triples[i]) {
            Some(Decision::TakeTargetDefault) => {
                taken.push(triples[i].path.clone());
                assert(taken.deep_view() =~= taken_before.push(triples@[i as int].path@));
            },
            Some(Decision::ExemptKeepCurrent) => {
                kept.push(triples[i].path.clone());
                assert(kept.deep_view() =~= kept_before.push(triples@[i as int].path@));
            },
            None => {},
        }
        i = i + 1;
    }
    assert(all.take(i as int) =~= all);
    let paths: Vec<String> = sort_texts(taken.as_slice());
    let mut resolved: Vec<EtcConflict> = Vec::new();
    let mut j: usize = 0;
    while j < paths.len()
        invariant
            j <= paths@.len(),
            resolved@.len() == j,
            forall|k: int|
                0 <= k < j ==> (#[trigger] resolved@[k]).deep_view() == conflict_at(paths@[k]@),
        decreases paths@.len() - j,
    {
        let mut sidecar: String = paths[j].clone();
        sidecar.append(".rebase-old");
        resolved.push(EtcConflict { path: paths[j].clone(), sidecar });
        j = j + 1;
    }
    assert(resolved.deep_view() =~= paths.deep_view().map_values(|p: Seq<char>| conflict_at(p)));
    EtcConflictPlan { resolved, exempt: sort_texts(kept.as_slice()) }
}

/// Taking one triple out takes its path out where it was decided so.
proof fn lemma_paths_without(triples: Seq<EtcTripleView>, d: Decision, k: int)
    requires
        0 <= k < triples.len(),
    ensures
        paths_decided(triples, d).to_multiset() == if decision_of(triples[k]) == Some(d) {
            paths_decided(triples.remove(k), d).to_multiset().insert(triples[k].path)
        } else {
            paths_decided(triples.remove(k), d).to_multiset()
        },
    decreases triples.len(),
{
    broadcast use vstd::seq_lib::group_to_multiset_ensures;

    let t = triples.drop_last();
    let last = triples.last();
    let without = triples.remove(k);
    if k == triples.len() - 1 {
        assert(without =~= t);
    } else {
        lemma_paths_without(t, d, k);
        assert(without.drop_last() =~= t.remove(k));
        assert(without.last() == last);
        let x = paths_decided(t.remove(k), d);
        if decision_of(last) == Some(d) {
            assert(x.push(last.path).to_multiset() =~= x.to_multiset().insert(last.path));
            if decision_of(triples[k]) == Some(d) {
                assert(x.to_multiset().insert(triples[k].path).insert(last.path)
                    =~= x.to_multiset().insert(last.path).insert(triples[k].path));
            }
        }
    }
}

/// The same triples in another order are decided alike.
proof fn lemma_paths_of_the_same_triples(
    a: Seq<EtcTripleView>,
    b: Seq<EtcTripleView>,
    d: Decision,
)
    requires
        a.to_multiset() == b.to_multiset(),
    ensures
        paths_decided(a, d).to_multiset() == paths_decided(b, d).to_multiset(),
    decreases a.len(),
{
    broadcast use vstd::seq_lib::group_to_multiset_ensures;

    assert(a.to_multiset().len() == a.len() && b.to_multiset().len() == b.len());
    if a.len() > 0 {
        let n = a.len() - 1;
        let x = a.last();
        assert(a[n] == x && a.contains(x));
        assert(b.to_multiset().count(x) > 0);
        assert(b.contains(x));
        let k = choose|k: int| 0 <= k < b.len() && b[k] == x;
        assert(a.remove(n) =~= a.drop_last());
        assert(a.drop_last().to_multiset() =~= a.to_multiset().remove(x));
        assert(b.remove(k).to_multiset() =~= b.to_multiset().remove(x));
        lemma_paths_of_the_same_triples(a.drop_last(), b.remove(k), d);
        lemma_paths_without(a, d, n);
        lemma_paths_without(b, d, k);
    }
}

/// The order in which the triples are read makes no difference to the plan.
pub proof fn law_plan_does_not_depend_on_the_order(a: Seq<EtcTripleView>, b: Seq<EtcTripleView>)
    requires
        a.to_multiset() == b.to_multiset(),
    ensures
        planned_conflicts(a) == planned_conflicts(b),
        planned_exempt(a) == planned_exempt(b),
{
    lemma_paths_of_the_same_triples(a, b, Decision::TakeTargetDefault);
    lemma_paths_of_the_same_triples(a, b, Decision::ExemptKeepCurrent);
    law_sorting_forgets_the_order(
        paths_decided(a, Decision::TakeTargetDefault),
        paths_decided(b, Decision::TakeTargetDefault),
    );
    law_sorting_forgets_the_order(
        paths_decided(a, Decision::ExemptKeepCurrent),
        paths_decided(b, Decision::ExemptKeepCurrent),
    );
}

/// The line of the report on one conflict.
pub open spec fn conflict_line(c: EtcConflictView) -> Seq<char> {
    "  /etc/"@ + pad_right(c.path, 44) + " -> /etc/"@ + c.sidecar + "\n"@
}

/// The lines of the report on the conflicts.
pub open spec fn conflict_lines(cs: Seq<EtcConflictView>) -> Seq<char>
    decreases cs.len(),
{
    if cs.len() == 0 {
        Seq::empty()
    } else {
        conflict_lines(cs.drop_last()) + conflict_line(cs.last())
    }
}

/// The report's part on the conflicts.
pub open spec fn conflict_report(resolved: Seq<EtcConflictView>) -> Seq<char> {
    let title = "=== Cross-base /etc conflict report ===\n"@;
    if resolved.len() == 0 {
        title
            + "No /etc path has a locally-modified value that the target image also redefines — nothing to reconcile.\n"@
    } else {
        title + "Target defaults taken; the previous value is preserved beside each path:\n"@
            + conflict_lines(resolved)
    }
}

/// The report's part on the exempt paths.
pub open spec fn exempt_report(exempt: Seq<Seq<char>>) -> Seq<char> {
    if exempt.len() == 0 {
        Seq::empty()
    } else {
        "Machine-specific paths whose defaults also diverged, kept as-is: "@ + join(
            exempt.map_values(|p: Seq<char>| "/etc/"@ + p),
            ", "@,
        ) + "\n"@
    }
}

/// The report on a plan.
pub fn render_report(plan: &EtcConflictPlan) -> (r: String)
    ensures
        r@ == conflict_report(plan.resolved.deep_view()) + exempt_report(plan.exempt.deep_view()),
{
    let mut out: String = "=== Cross-base /etc conflict report ===\n".to_owned();
    if plan.is_empty() {
        out.append("No /etc path has a locally-modified value that the target image also redefines — nothing to reconcile.\n");
    } else {
        out.append("Target defaults taken; the previous value is preserved beside each path:\n");
        let ghost start = out@;
        let ghost all = plan.resolved.deep_view();
        let mut i: usize = 0;
        assert(out@ =~= start + conflict_lines(all.take(0)));
        while i < plan.resolved.len()
            invariant
                all == plan.resolved.deep_view(),
                i <= plan.resolved@.len(),
                out@ == start + conflict_lines(all.take(i as int)),
            decreases plan.resolved@.len() - i,
        {
            let c: &EtcConflict = &plan.resolved[i];
            let mut line: String = "  /etc/".to_owned();
            line.append(padded_right(c.path.as_str(), 44).as_str());
            line.append(" -> /etc/");
            line.append(c.sidecar.as_str());
            line.append("\n");
            out.append(line.as_str());
            proof {
                assert(all.take(i + 1).drop_last() =~= all.take(i as int));
                assert(all.take(i + 1).last() == c.deep_view());
                let a = conflict_lines(all.take(i as int));
                let b = conflict_line(c.deep_view());
                assert((start + a) + b =~= start + (a + b));
            }
            i = i + 1;
        }
        assert(all.take(i as int) =~= all);
    }
    assert(out@ == conflict_report(plan.resolved.deep_view()));
    if plan.exempt.len() > 0 {
        let mut named: Vec<String> = Vec::new();
        let mut j: usize = 0;
        while j < plan.exempt.len()
            invariant
                j <= plan.exempt@.len(),
                named@.len() == j,
                forall|k: int| 0 <= k < j ==> #[trigger] named@[k]@ == "/etc/"@ + plan.exempt@[k]@,
            decreases plan.exempt@.len() - j,
        {
            let mut p: String = "/etc/".to_owned();
            p.append(plan.exempt[j].as_str());
            named.push(p);
            j = j + 1;
        }
        assert(named.deep_view() =~= plan.exempt.deep_view().map_values(
            |p: Seq<char>| "/etc/"@ + p,
        ));
        let mut line: String = "Machine-specific paths whose defaults also diverged, kept as-is: ".to_owned();
        line.append(joined(named.as_slice(), ", ").as_str());
        line.append("\n");
        out.append(line.as_str());
    } else {
        assert(out@ + Seq::<char>::empty() =~= out@);
    }
    out
}

/// The path of an entry of a directory, relative to the root of the walk.
pub fn relative_path(prefix: &str, name: &str) -> (r: String)
    ensures
        r@ == (if prefix@.len() == 0 {
            name@
        } else {
            prefix@ + "/"@ + name@
        }),
{
    if prefix.is_empty() {
        return name.to_owned();
    }
    let mut r: String = prefix.to_owned();
    r.append("/");
    r.append(name);
    r
}

/// `s` with `x` put before the first triple whose path follows that of `x`.
pub open spec fn insert_triple(s: Seq<EtcTripleView>, x: EtcTripleView) -> Seq<EtcTripleView>
    decreases s.len(),
{
    if s.len() > 0 && precedes(x.path, s.last().path) {
        insert_triple(s.drop_last(), x).push(s.last())
    } else {
        s.push(x)
    }
}

/// The triples that the target has a default for, in the order of their paths.
pub open spec fn candidates(read: Seq<EtcTripleView>) -> Seq<EtcTripleView>
    decreases read.len(),
{
    if read.len() == 0 {
        Seq::empty()
    } else if read.last().target_default is Some {
        insert_triple(candidates(read.drop_last()), read.last())
    } else {
        candidates(read.drop_last())
    }
}

/// Puts the triple into the list, in the order of the paths.
fn insert_by_path(list: &mut Vec<EtcTriple>, x: EtcTriple)
    ensures
        final(list).deep_view() == insert_triple(old(list).deep_view(), x.deep_view()),
{
    let ghost all = list.deep_view();
    let ghost v = x.deep_view();
    let mut i: usize = list.len();
    assert(all.take(i as int) =~= all);
    assert(insert_triple(all, v) =~= insert_triple(all.take(i as int), v) + all.skip(i as int));
    while i > 0
        invariant_except_break
            insert_triple(all, v) == insert_triple(all.take(i as int), v) + all.skip(i as int),
        invariant
            i <= list@.len(),
            all == list.deep_view(),
            v == x.deep_view(),
            list@ == old(list)@,
        ensures
            insert_triple(all, v) == all.take(i as int).push(v) + all.skip(i as int),
        decreases i,
    {
        proof {
            assert(all[i - 1] == list@[i - 1].deep_view());
            assert(all.take(i as int).last() == all[i - 1]);
            assert(all.take(i as int).drop_last() =~= all.take(i - 1));
        }
        if !text_precedes(x.path.as_str(), list[i - 1].path.as_str()) {
            break;
        }
        proof {
            let d = insert_triple(all.take(i - 1), v);
            assert(d.push(all[i - 1]) + all.skip(i as int) =~= d + all.skip(i - 1));
        }
        i = i - 1;
    }
    assert(all.take(i as int).push(v) + all.skip(i as int) =~= all.insert(i as int, v));
    list.insert(i, x);
    assert(list.deep_view() =~= all.insert(i as int, v));
}

/// The triples worth deciding, of those read from the source's defaults: the
/// ones that the target has a default for, in the order of their paths.
pub fn collect_etc_triples(read: Vec<EtcTriple>) -> (r: Vec<EtcTriple>)
    ensures
        r.deep_view() == candidates(read.deep_view()),
{
    let ghost all = read.deep_view();
    let mut rest: Vec<EtcTriple> = read;
    let mut r: Vec<EtcTriple> = Vec::new();
    let ghost mut done: int = 0;
    assert(r.deep_view() =~= candidates(all.take(0)));
    assert(all.skip(0) =~= all);
    while rest.len() > 0
        invariant
            0 <= done <= all.len(),
            rest.deep_view() == all.skip(done),
            r.deep_view() == candidates(all.take(done)),
        decreases rest@.len(),
    {
        let ghost before = rest.deep_view();
        let x: EtcTriple = rest.remove(0);
        proof {
            assert(before[0] == x.deep_view());
            assert(rest.deep_view() =~= before.skip(1));
            assert(all.skip(done)[0] == all[done]);
            assert(all.skip(done).skip(1) =~= all.skip(done + 1));
            assert(all.take(done + 1).drop_last() =~= all.take(done));
            assert(all.take(done + 1).last() == x.deep_view());
            done = done + 1;
        }
        if x.target_default.is_some() {
            insert_by_path(&mut r, x);
        }
    }
    assert(all.take(done) =~= all);
    r
}

/// The tree that a value is written from.
#[derive(Debug, Clone, Copy, PartialEq, Eq, Structural)]
pub enum EtcSource {
    /// The user's live `/etc`.
    Current,
    /// The target's defaults.
    TargetDefault,
}

/// One write into the staged `/etc`: what stands at `path` in the tree is put
/// at `dest`.
#[derive(Debug, Clone, PartialEq, Eq)]
pub struct EtcWrite {
    pub source: EtcSource,
    pub path: String,
    pub dest: String,
}

/// What an [`EtcWrite`] holds.
#[verifier::ext_equal]
pub struct EtcWriteView {
    pub source: EtcSource,
    pub path: Seq<char>,
    pub dest: Seq<char>,
}

impl DeepView for EtcWrite {
    type V = EtcWriteView;

    open spec fn deep_view(&self) -> EtcWriteView {
        EtcWriteView { source: self.source, path: self.path@, dest: self.dest@ }
    }
}

/// The two writes of one conflict: the user's value is kept first, and then
/// the target's default takes its place.
pub open spec fn writes_for(c: EtcConflictView) -> Seq<EtcWriteView> {
    seq![
        EtcWriteView { source: EtcSource::Current, path: c.path, dest: c.sidecar },
        EtcWriteView { source: EtcSource::TargetDefault, path: c.path, dest: c.path },
    ]
}

/// The writes of the conflicts, in order.
pub open spec fn writes_of(cs: Seq<EtcConflictView>) -> Seq<EtcWriteView>
    decreases cs.len(),
{
    if cs.len() == 0 {
        Seq::empty()
    } else {
        writes_of(cs.drop_last()) + writes_for(cs.last())
    }
}

/// How many paths the writes rewrite: one for each default of the target's
/// that is put at its path.
pub open spec fn rewritten(ws: Seq<EtcWriteView>) -> nat
    decreases ws.len(),
{
    if ws.len() == 0 {
        0
    } else {
        rewritten(ws.drop_last()) + if ws.last().source == EtcSource::TargetDefault {
            1nat
        } else {
            0nat
        }
    }
}

/// The writes that apply a plan to the staged `/etc`, in order, and how many
/// paths they rewrite: one for each conflict.
pub fn apply_etc_conflict_plan(plan: &EtcConflictPlan) -> (r: (Vec<EtcWrite>, usize))
    ensures
        r.0.deep_view() == writes_of(plan.resolved.deep_view()),
        r.1 == rewritten(r.0.deep_view()),
        r.1 == plan.resolved@.len(),
{
    let ghost all = plan.resolved.deep_view();
    let mut r: Vec<EtcWrite> = Vec::new();
    let mut i: usize = 0;
    assert(r.deep_view() =~= writes_of(all.take(0)));
    while i < plan.resolved.len()
        invariant
            all == plan.resolved.deep_view(),
            i <= plan.resolved@.len(),
            r.deep_view() == writes_of(all.take(i as int)),
        decreases plan.resolved@.len() - i,
    {
        let c: &EtcConflict = &plan.resolved[i];
        let ghost before = r.deep_view();
        r.push(
            EtcWrite {
                source: EtcSource::Current,
                path: c.path.clone(),
                dest: c.sidecar.clone(),
            },
        );
        r.push(
            EtcWrite {
                source: EtcSource::TargetDefault,
                path: c.path.clone(),
                dest: c.path.clone(),
            },
        );
        proof {
            assert(all.take(i + 1).drop_last() =~= all.take(i as int));
            assert(all.take(i + 1).last() == c.deep_view());
            assert(r.deep_view() =~= before + writes_for(c.deep_view()));
        }
        i = i + 1;
    }
    assert(all.take(i as int) =~= all);
    proof {
        lemma_rewritten(all);
    }
    (r, plan.resolved.len())
}

/// Each conflict rewrites one path.
proof fn lemma_rewritten(cs: Seq<EtcConflictView>)
    ensures
        rewritten(writes_of(cs)) == cs.len(),
    decreases cs.len(),
{
    if cs.len() > 0 {
        let d = writes_of(cs.drop_last());
        let w = writes_for(cs.last());
        lemma_rewritten(cs.drop_last());
        assert((d + w).drop_last() =~= d.push(w[0]));
        assert(d.push(w[0]).drop_last() =~= d);
        reveal_with_fuel(rewritten, 3);
    }
}

/// Who owns a file, and who may do what with it.
#[derive(Debug, Clone, Copy, PartialEq, Eq, Structural)]
pub struct FileRights {
    pub mode: u32,
    pub uid: u32,
    pub gid: u32,
}

/// One move of a write.
#[derive(Debug, Clone, PartialEq, Eq)]
pub enum WriteMove {
    /// Make the directory that the destination is in.
    MakeParent,
    /// Remove what is at the destination.
    Clear,
    /// Make a symlink with the target.
    Link(String),
    /// Write the contents.
    Write(Vec<u8>),
    /// Set the mode.
    SetMode(u32),
    /// Set the owner.
    SetOwner { uid: u32, gid: u32 },
    /// Set the extended attributes that the file which is written has.
    CopyAttributes,
}

/// What a [`WriteMove`] holds.
#[verifier::ext_equal]
pub enum WriteMoveView {
    MakeParent,
    Clear,
    Link(Seq<char>),
    Write(Seq<u8>),
    SetMode(u32),
    SetOwner { uid: u32, gid: u32 },
    CopyAttributes,
}

impl DeepView for WriteMove {
    type V = WriteMoveView;

    open spec fn deep_view(&self) -> WriteMoveView {
        match self {
            WriteMove::MakeParent => WriteMoveView::MakeParent,
            WriteMove::Clear => WriteMoveView::Clear,
            WriteMove::Link(t) => WriteMoveView::Link(t@),
            WriteMove::Write(b) => WriteMoveView::Write(b@),
            WriteMove::SetMode(m) => WriteMoveView::SetMode(*m),
            WriteMove::SetOwner { uid, gid } => WriteMoveView::SetOwner { uid: *uid, gid: *gid },
            WriteMove::CopyAttributes => WriteMoveView::CopyAttributes,
        }
    }
}

/// The moves that reproduce a value. A file keeps its rights and its extended
/// attributes; a symlink has none of its own.
pub open spec fn write_moves(entry: EtcEntryView, rights: FileRights, occupied: bool) -> Seq<
    WriteMoveView,
> {
    seq![WriteMoveView::MakeParent] + (if occupied {
        seq![WriteMoveView::Clear]
    } else {
        Seq::empty()
    }) + match entry {
        EtcEntryView::Symlink(t) => seq![WriteMoveView::Link(t)],
        EtcEntryView::File(b) => seq![
            WriteMoveView::Write(b),
            WriteMoveView::SetMode(rights.mode),
            WriteMoveView::SetOwner { uid: rights.uid, gid: rights.gid },
            WriteMoveView::CopyAttributes,
        ],
    }
}

/// The moves that put what was read at `src` at its destination, in order:
/// `rights` are those of the file that was read, and `occupied` says whether
/// something is at the destination. What is gone since it was planned for cannot
/// be written.
pub fn write_from(src: &str, entry: Option<EtcEntry>, rights: FileRights, occupied: bool) -> (r:
    Result<Vec<WriteMove>, String>)
    ensures
        match entry {
            None => r is Err && r->Err_0@ == src@ + " vanished between planning and apply"@,
            Some(e) => r is Ok && r->Ok_0.deep_view() == write_moves(
                e.deep_view(),
                rights,
                occupied,
            ),
        },
{
    let found: EtcEntry = match entry {
        Some(e) => e,
        None => {
            let mut m: String = src.to_owned();
            m.append(" vanished between planning and apply");
            return Err(m);
        },
    };
    let ghost v = found.deep_view();
    let mut moves: Vec<WriteMove> = Vec::new();
    moves.push(WriteMove::MakeParent);
    if occupied {
        moves.push(WriteMove::Clear);
    }
    match found {
        EtcEntry::Symlink(target) => {
            moves.push(WriteMove::Link(target));
        },
        EtcEntry::File(contents) => {
            moves.push(WriteMove::Write(contents));
            moves.push(WriteMove::SetMode(rights.mode));
            moves.push(WriteMove::SetOwner { uid: rights.uid, gid: rights.gid });
            moves.push(WriteMove::CopyAttributes);
        },
    }
    assert(moves.deep_view() =~= write_moves(v, rights, occupied));
    Ok(moves)
}

/// What stands at a path, with the rights that a file has.
pub enum EtcNode {
    File { contents: Seq<u8>, rights: FileRights },
    Symlink(Seq<char>),
}

/// The value without the rights.
pub open spec fn value_of(n: EtcNode) -> EtcEntryView {
    match n {
        EtcNode::File { contents, .. } => EtcEntryView::File(contents),
        EtcNode::Symlink(t) => EtcEntryView::Symlink(t),
    }
}

/// The tree after one move. A file that is made has the rights `fresh`, one that
/// is written over keeps its own, and a symlink is made only where nothing is.
pub open spec fn after_move(
    tree: Map<Seq<char>, EtcNode>,
    dest: Seq<char>,
    fresh: FileRights,
    m: WriteMoveView,
) -> Map<Seq<char>, EtcNode> {
    let there = tree.contains_key(dest) && tree[dest] is File;
    match m {
        WriteMoveView::Clear => tree.remove(dest),
        WriteMoveView::Link(t) => if tree.contains_key(dest) {
            tree
        } else {
            tree.insert(dest, EtcNode::Symlink(t))
        },
        WriteMoveView::Write(contents) => if there {
            tree.insert(dest, EtcNode::File { contents, rights: tree[dest]->rights })
        } else if tree.contains_key(dest) {
            tree
        } else {
            tree.insert(dest, EtcNode::File { contents, rights: fresh })
        },
        WriteMoveView::SetMode(mode) => if there {
            let rights = FileRights { mode, ..tree[dest]->rights };
            tree.insert(dest, EtcNode::File { contents: tree[dest]->contents, rights })
        } else {
            tree
        },
        WriteMoveView::SetOwner { uid, gid } => if there {
            let rights = FileRights { uid, gid, ..tree[dest]->rights };
            tree.insert(dest, EtcNode::File { contents: tree[dest]->contents, rights })
        } else {
            tree
        },
        _ => tree,
    }
}

/// The tree after the moves.
pub open spec fn after_moves(
    tree: Map<Seq<char>, EtcNode>,
    dest: Seq<char>,
    fresh: FileRights,
    ms: Seq<WriteMoveView>,
) -> Map<Seq<char>, EtcNode>
    decreases ms.len(),
{
    if ms.len() == 0 {
        tree
    } else {
        after_move(after_moves(tree, dest, fresh, ms.drop_last()), dest, fresh, ms.last())
    }
}

/// What is written is what was read, with its rights: the moves put it at the
/// destination and leave every other path alone.
pub proof fn law_write_keeps_mode_and_owner(
    tree: Map<Seq<char>, EtcNode>,
    dest: Seq<char>,
    fresh: FileRights,
    source: EtcNode,
    rights: FileRights,
)
    requires
        source is File ==> source->rights == rights,
    ensures
        after_moves(
            tree,
            dest,
            fresh,
            write_moves(value_of(source), rights, tree.contains_key(dest)),
        ) == tree.insert(dest, source),
{
    let ms = write_moves(value_of(source), rights, tree.contains_key(dest));
    let cleared = tree.remove(dest);
    reveal_with_fuel(after_moves, 7);
    let opened = if tree.contains_key(dest) {
        seq![WriteMoveView::MakeParent, WriteMoveView::Clear]
    } else {
        seq![WriteMoveView::MakeParent]
    };
    assert(opened.drop_last() =~= if tree.contains_key(dest) {
        seq![WriteMoveView::MakeParent]
    } else {
        Seq::empty()
    });
    assert(seq![WriteMoveView::MakeParent].drop_last() =~= Seq::<WriteMoveView>::empty());
    assert(after_moves(tree, dest, fresh, opened) =~= cleared);
    match source {
        EtcNode::Symlink(t) => {
            assert(ms.drop_last() =~= opened);
            assert(ms.last() == WriteMoveView::Link(t));
        },
        EtcNode::File { contents, .. } => {
            let written = opened.push(WriteMoveView::Write(contents));
            let moded = written.push(WriteMoveView::SetMode(rights.mode));
            let owned = moded.push(
                WriteMoveView::SetOwner { uid: rights.uid, gid: rights.gid },
            );
            assert(ms =~= owned.push(WriteMoveView::CopyAttributes));
            assert(ms.drop_last() =~= owned);
            assert(owned.drop_last() =~= moded);
            assert(moded.drop_last() =~= written);
            assert(written.drop_last() =~= opened);
            let a = after_moves(tree, dest, fresh, written);
            assert(a == cleared.insert(dest, EtcNode::File { contents, rights: fresh }));
            assert(after_moves(tree, dest, fresh, owned)[dest]->rights == rights);
        },
    }
    assert(after_moves(tree, dest, fresh, ms) =~= tree.insert(dest, source));
}

/// The tree, as what stands at each path, after the writes into it, each of
/// which puts what it reads at its destination.
pub open spec fn after_writes(
    staged: Map<Seq<char>, EtcNode>,
    current: Map<Seq<char>, EtcNode>,
    target: Map<Seq<char>, EtcNode>,
    ws: Seq<EtcWriteView>,
) -> Map<Seq<char>, EtcNode>
    decreases ws.len(),
{
    if ws.len() == 0 {
        staged
    } else {
        let w = ws.last();
        after_writes(staged, current, target, ws.drop_last()).insert(
            w.dest,
            match w.source {
                EtcSource::Current => current[w.path],
                EtcSource::TargetDefault => target[w.path],
            },
        )
    }
}

/// What the two writes of the last conflict do.
proof fn lemma_last_conflict(
    staged: Map<Seq<char>, EtcNode>,
    current: Map<Seq<char>, EtcNode>,
    target: Map<Seq<char>, EtcNode>,
    cs: Seq<EtcConflictView>,
)
    requires
        cs.len() > 0,
    ensures
        after_writes(staged, current, target, writes_of(cs)) == after_writes(
            staged,
            current,
            target,
            writes_of(cs.drop_last()),
        ).insert(cs.last().sidecar, current[cs.last().path]).insert(
            cs.last().path,
            target[cs.last().path],
        ),
{
    let d = writes_of(cs.drop_last());
    let w = writes_for(cs.last());
    assert((d + w).drop_last() =~= d.push(w[0]));
    assert(d.push(w[0]).drop_last() =~= d);
    reveal_with_fuel(after_writes, 3);
}

/// The writes leave every path alone that is neither in conflict nor the
/// sidecar of one that is.
pub proof fn law_other_paths_are_left_alone(
    staged: Map<Seq<char>, EtcNode>,
    current: Map<Seq<char>, EtcNode>,
    target: Map<Seq<char>, EtcNode>,
    cs: Seq<EtcConflictView>,
    path: Seq<char>,
)
    requires
        forall|k: int|
            0 <= k < cs.len() ==> (#[trigger] cs[k]).path != path && cs[k].sidecar != path,
    ensures
        ({
            let after = after_writes(staged, current, target, writes_of(cs));
            after.dom().contains(path) == staged.dom().contains(path) && after[path] == staged[path]
        }),
    decreases cs.len(),
{
    if cs.len() > 0 {
        let d = cs.drop_last();
        assert forall|k: int| 0 <= k < d.len() implies (#[trigger] d[k]).path != path
            && d[k].sidecar != path by {
            assert(d[k] == cs[k]);
        }
        law_other_paths_are_left_alone(staged, current, target, d, path);
        lemma_last_conflict(staged, current, target, cs);
        let last = cs[cs.len() - 1];
        assert(last.path != path && last.sidecar != path);
    }
}

/// Whether the conflicts are at different paths, none of them a sidecar, each
/// with its own sidecar.
pub open spec fn apart(cs: Seq<EtcConflictView>) -> bool {
    &&& forall|k: int|
        0 <= k < cs.len() ==> (#[trigger] cs[k]) == conflict_at(cs[k].path) && !finishes(
            cs[k].path,
            ".rebase-old"@,
        )
    &&& forall|j: int, k: int|
        0 <= j < k < cs.len() ==> (#[trigger] cs[j]).path != (#[trigger] cs[k]).path
}

/// A path in conflict is one of the triples', and is no sidecar.
proof fn lemma_paths_decided(triples: Seq<EtcTripleView>, d: Decision)
    requires
        forall|j: int, k: int|
            0 <= j < k < triples.len() ==> (#[trigger] triples[j]).path != (
            #[trigger] triples[k]).path,
    ensures
        paths_decided(triples, d).no_duplicates(),
        forall|k: int|
            0 <= k < paths_decided(triples, d).len() ==> exists|m: int|
                0 <= m < triples.len() && (#[trigger] triples[m]).path == #[trigger] paths_decided(
                    triples,
                    d,
                )[k] && decision_of(triples[m]) == Some(d),
    decreases triples.len(),
{
    if triples.len() > 0 {
        let t = triples.drop_last();
        assert forall|i: int, j: int| 0 <= i < j < t.len() implies (#[trigger] t[i]).path != (
        #[trigger] t[j]).path by {
            assert(t[i] == triples[i] && t[j] == triples[j]);
        }
        lemma_paths_decided(t, d);
        let rest = paths_decided(t, d);
        let all = paths_decided(triples, d);
        let last = triples.len() - 1;
        assert forall|k: int| 0 <= k < all.len() implies exists|m: int|
            0 <= m < triples.len() && (#[trigger] triples[m]).path == #[trigger] all[k]
                && decision_of(triples[m]) == Some(d) by {
            if k < rest.len() {
                let m = choose|m: int|
                    0 <= m < t.len() && (#[trigger] t[m]).path == rest[k] && decision_of(t[m])
                        == Some(d);
                assert(triples[m] == t[m]);
                assert(all[k] == rest[k]);
            } else {
                assert(triples[last].path == all[k]);
            }
        }
        assert forall|i: int, j: int| 0 <= i < j < all.len() implies all[i] != all[j] by {
            assert(all[i] == rest[i]);
            let m = choose|m: int|
                0 <= m < t.len() && (#[trigger] t[m]).path == rest[i] && decision_of(t[m]) == Some(
                    d,
                );
            assert(triples[m] == t[m]);
            if j == rest.len() {
                assert(all[j] == triples[last].path);
                assert(triples[m].path != triples[last].path);
            } else {
                assert(all[j] == rest[j]);
            }
        }
    }
}

/// What is planned for triples at different paths is at different paths, none
/// of them a sidecar.
pub proof fn law_planned_conflicts_are_apart(triples: Seq<EtcTripleView>)
    requires
        forall|j: int, k: int|
            0 <= j < k < triples.len() ==> (#[trigger] triples[j]).path != (
            #[trigger] triples[k]).path,
    ensures
        apart(planned_conflicts(triples)),
{
    broadcast use vstd::seq_lib::group_to_multiset_ensures;

    let taken = paths_decided(triples, Decision::TakeTargetDefault);
    let sorted = sorted_texts(taken);
    let cs = planned_conflicts(triples);
    lemma_paths_decided(triples, Decision::TakeTargetDefault);
    law_sorting_keeps_every_text(taken);
    taken.lemma_multiset_has_no_duplicates();
    sorted.lemma_multiset_has_no_duplicates_conv();
    assert forall|k: int| 0 <= k < cs.len() implies (#[trigger] cs[k]) == conflict_at(cs[k].path)
        && !finishes(cs[k].path, ".rebase-old"@) by {
        assert(sorted.contains(sorted[k]));
        assert(sorted.to_multiset().count(sorted[k]) > 0);
        assert(taken.to_multiset().count(sorted[k]) > 0);
        assert(taken.contains(sorted[k]));
        let m = choose|m: int| 0 <= m < taken.len() && taken[m] == sorted[k];
        let t = choose|t: int|
            0 <= t < triples.len() && (#[trigger] triples[t]).path == taken[m] && decision_of(
                triples[t],
            ) == Some(Decision::TakeTargetDefault);
        law_only_three_way_conflicts_are_rewritten(triples[t]);
    }
}

/// After the writes every path in conflict holds the target's default, and its
/// sidecar the user's value, each with the mode and the owner of the file that
/// it came from.
pub proof fn law_conflicts_are_settled(
    staged: Map<Seq<char>, EtcNode>,
    current: Map<Seq<char>, EtcNode>,
    target: Map<Seq<char>, EtcNode>,
    cs: Seq<EtcConflictView>,
    k: int,
)
    requires
        apart(cs),
        0 <= k < cs.len(),
    ensures
        ({
            let after = after_writes(staged, current, target, writes_of(cs));
            after.dom().contains(cs[k].path) && after[cs[k].path] == target[cs[k].path]
                && after.dom().contains(cs[k].sidecar) && after[cs[k].sidecar]
                == current[cs[k].path]
        }),
    decreases cs.len(),
{
    let s = ".rebase-old"@;
    let d = cs.drop_last();
    let last = cs[cs.len() - 1];
    lemma_last_conflict(staged, current, target, cs);
    assert(last == conflict_at(last.path));
    assert((last.path + s).skip(last.path.len() as int) =~= s);
    assert(finishes(last.sidecar, s));
    if k < d.len() {
        let c = cs[k];
        assert forall|m: int| 0 <= m < d.len() implies (#[trigger] d[m]) == conflict_at(d[m].path)
            && !finishes(d[m].path, s) by {
            assert(d[m] == cs[m]);
        }
        assert forall|i: int, j: int| 0 <= i < j < d.len() implies (#[trigger] d[i]).path != (
        #[trigger] d[j]).path by {
            assert(d[i] == cs[i] && d[j] == cs[j]);
        }
        law_conflicts_are_settled(staged, current, target, d, k);
        assert(d[k] == c);
        assert(c == conflict_at(c.path));
        assert((c.path + s).skip(c.path.len() as int) =~= s);
        assert(finishes(c.sidecar, s));
        assert(c.path != last.path);
        if c.sidecar == last.sidecar {
            assert(c.path =~= c.sidecar.take(c.sidecar.len() - s.len()));
            assert(last.path =~= last.sidecar.take(last.sidecar.len() - s.len()));
        }
    }
}

/// Whether the path is one in conflict, or the sidecar of one.
pub open spec fn is_touched(cs: Seq<EtcConflictView>, path: Seq<char>) -> bool {
    exists|k: int| 0 <= k < cs.len() && ((#[trigger] cs[k]).path == path || cs[k].sidecar == path)
}

/// Whether every other path holds what it held.
pub open spec fn left_alone(
    before: Map<Seq<char>, EtcNode>,
    after: Map<Seq<char>, EtcNode>,
    cs: Seq<EtcConflictView>,
) -> bool {
    forall|p: Seq<char>|
        !is_touched(cs, p) ==> (#[trigger] after.contains_key(p) == before.contains_key(p)
            && after[p] == before[p])
}

proof fn lemma_left_alone(
    staged: Map<Seq<char>, EtcNode>,
    current: Map<Seq<char>, EtcNode>,
    target: Map<Seq<char>, EtcNode>,
    cs: Seq<EtcConflictView>,
)
    ensures
        left_alone(staged, after_writes(staged, current, target, writes_of(cs)), cs),
{
    let after = after_writes(staged, current, target, writes_of(cs));
    assert forall|p: Seq<char>| !is_touched(cs, p) implies (#[trigger] after.contains_key(p)
        == staged.contains_key(p) && after[p] == staged[p]) by {
        law_other_paths_are_left_alone(staged, current, target, cs, p);
    }
}

/// A path about which the decision is `d` is among those.
pub proof fn lemma_decided_path(triples: Seq<EtcTripleView>, d: Decision, m: int)
    requires
        0 <= m < triples.len(),
        decision_of(triples[m]) == Some(d),
    ensures
        paths_decided(triples, d).contains(triples[m].path),
    decreases triples.len(),
{
    let t = triples.drop_last();
    let all = paths_decided(triples, d);
    if m < t.len() {
        lemma_decided_path(t, d, m);
        let rest = paths_decided(t, d);
        let k = choose|k: int| 0 <= k < rest.len() && rest[k] == triples[m].path;
        assert(all[k] == triples[m].path);
    } else {
        assert(all[all.len() - 1] == triples[m].path);
    }
}

/// What the plan for three trees does to the staged one, from the triples at
/// different paths that were read: every path that takes the target's default
/// holds what the target has there, and its sidecar what the user has, with
/// mode and owner. Every path that is none of these is as it was, and those
/// left alone as this machine's are none of these.
pub proof fn law_plan_settles_the_trees(
    staged: Map<Seq<char>, EtcNode>,
    current: Map<Seq<char>, EtcNode>,
    target: Map<Seq<char>, EtcNode>,
    triples: Seq<EtcTripleView>,
    m: int,
)
    requires
        forall|j: int, k: int|
            0 <= j < k < triples.len() ==> (#[trigger] triples[j]).path != (
            #[trigger] triples[k]).path,
        0 <= m < triples.len(),
    ensures
        ({
            let cs = planned_conflicts(triples);
            let after = after_writes(staged, current, target, writes_of(cs));
            let path = triples[m].path;
            let sidecar = conflict_at(path).sidecar;
            &&& rewritten(writes_of(cs)) == cs.len()
            &&& decision_of(triples[m]) == Some(Decision::TakeTargetDefault) ==> {
                &&& after.contains_key(path) && after[path] == target[path]
                &&& after.contains_key(sidecar) && after[sidecar] == current[path]
            }
            &&& decision_of(triples[m]) == Some(Decision::ExemptKeepCurrent) ==> !is_touched(
                cs,
                path,
            )
            &&& left_alone(staged, after, cs)
        }),
{
    broadcast use vstd::seq_lib::group_to_multiset_ensures;

    let taken = paths_decided(triples, Decision::TakeTargetDefault);
    let sorted = sorted_texts(taken);
    let cs = planned_conflicts(triples);
    let path = triples[m].path;
    law_planned_conflicts_are_apart(triples);
    law_sorting_keeps_every_text(taken);
    lemma_rewritten(cs);
    if decision_of(triples[m]) == Some(Decision::TakeTargetDefault) {
        lemma_decided_path(triples, Decision::TakeTargetDefault, m);
        assert(taken.to_multiset().count(path) > 0);
        assert(sorted.to_multiset().count(path) > 0);
        assert(sorted.contains(path));
        let k = choose|k: int| 0 <= k < sorted.len() && sorted[k] == path;
        assert(cs[k] == conflict_at(path));
        law_conflicts_are_settled(staged, current, target, cs, k);
    }
    if decision_of(triples[m]) == Some(Decision::ExemptKeepCurrent) {
        lemma_paths_decided(triples, Decision::TakeTargetDefault);
        assert forall|k: int| 0 <= k < cs.len() implies (#[trigger] cs[k]).path != path
            && cs[k].sidecar != path by {
            assert(cs[k] == conflict_at(sorted[k]));
            assert(sorted.contains(sorted[k]));
            assert(sorted.to_multiset().count(sorted[k]) > 0);
            assert(taken.contains(sorted[k]));
            let i = choose|i: int| 0 <= i < taken.len() && taken[i] == sorted[k];
            let t = choose|t: int|
                0 <= t < triples.len() && (#[trigger] triples[t]).path == taken[i] && decision_of(
                    triples[t],
                ) == Some(Decision::TakeTargetDefault);
            assert(t != m);
            assert(triples[t].path != triples[m].path);
            let s = ".rebase-old"@;
            assert((sorted[k] + s).skip(sorted[k].len() as int) =~= s);
        }
        assert(!is_touched(cs, path));
    }
    assert(left_alone(staged, after_writes(staged, current, target, writes_of(cs)), cs)) by {
        lemma_left_alone(staged, current, target, cs);
    }
}

/// Where a deployment keeps its image's defaults for `/etc`.
pub fn vendor_etc_dir(deployment_root: &str) -> (r: String)
    ensures
        r@ == join_path(deployment_root@, "usr/etc"@),
{
    path_join(deployment_root, "usr/etc")
}

/// No value of the user's is destroyed: there are two writes for each
/// conflict, and before the target's default is put at a path the user's
/// value is put at its sidecar.
pub proof fn law_users_value_is_kept_first(cs: Seq<EtcConflictView>, k: int)
    requires
        0 <= k < cs.len(),
    ensures
        writes_of(cs).len() == 2 * cs.len(),
        writes_of(cs)[2 * k] == (EtcWriteView {
            source: EtcSource::Current,
            path: cs[k].path,
            dest: cs[k].sidecar,
        }),
        writes_of(cs)[2 * k + 1] == (EtcWriteView {
            source: EtcSource::TargetDefault,
            path: cs[k].path,
            dest: cs[k].path,
        }),
    decreases cs.len(),
{
    let d = cs.drop_last();
    lemma_writes_len(d);
    if k < d.len() {
        law_users_value_is_kept_first(d, k);
    }
}

/// There are two writes for each conflict.
proof fn lemma_writes_len(cs: Seq<EtcConflictView>)
    ensures
        writes_of(cs).len() == 2 * cs.len(),
    decreases cs.len(),
{
    if cs.len() > 0 {
        lemma_writes_len(cs.drop_last());
    }
}

/// Machine-specific paths and archives of an earlier re-base are never
/// rewritten, and neither is a path that the user left alone, that the target
/// has the source's default for, or that one of the trees lacks.
pub proof fn law_only_three_way_conflicts_are_rewritten(triple: EtcTripleView)
    requires
        decision_of(triple) == Some(Decision::TakeTargetDefault),
    ensures
        !exempt(triple.path),
        !finishes(triple.path, ".rebase-old"@),
        triple.source_default is Some,
        triple.current is Some,
        triple.target_default is Some,
        triple.current != triple.source_default,
        triple.target_default != triple.source_default,
        triple.current != triple.target_default,
{
}

/// Sidecars are never chained: what a rewrite leaves beside a path is left
/// alone by every later one.
pub proof fn law_sidecars_are_left_alone(triple: EtcTripleView, path: Seq<char>)
    requires
        triple.path == conflict_at(path).sidecar,
    ensures
        decision_of(triple) is None,
{
    let s = ".rebase-old"@;
    assert((path + s).skip(path.len() as int) =~= s);
}

} // verus!

//! Laws of what a re-base does to `/etc`, and of the families of bases.

use vstd::prelude::*;

use crate::cross_family::{
    carried_over, carry_over_exact, carry_over_prefixes, chown_lines, decision_on, firstboot_steps,
    firstboot_unit, is_verdict, lemma_paths_with, needs_relabel, paths_with, sidecar_paths,
    CrossFamilyPlanView, CrossFamilyVerdict, EtcCrossFamilyPlan, EtcFate,
};
use crate::etc_conflict::{
    candidates, conflict_at, decision_of, insert_triple, lemma_decided_path, paths_decided,
    planned_conflicts, planned_exempt, Decision, EtcConflictView, EtcTripleView,
};
use crate::mergetc::{decision_for, identity_db, EtcPathStateView};
use crate::ostree_install::follows_policy;
use crate::remap::{IdKind, RemapStep};
use crate::scan::{lineage_ids, lineage_of, share_one, BaseInfoView, Lineage};
use crate::selinux::SelinuxConfigView;
use crate::text::numbers::decimal;
use crate::text::order::{
    law_sorting_keeps_every_text, lemma_precedes_irreflexive, lemma_precedes_total,
    lemma_precedes_transitive, lemma_sorted_set, precedes, sorted_set, sorted_texts,
};
use crate::text::paths::join_path;
use crate::text::pieces::fields;
use crate::text::search::{begins, finishes, holds, occurs_at};

verus! {

/// Whether the path holds accounts, or the machine's own id.
pub open spec fn is_identity_path(path: Seq<char>) -> bool {
    ||| path == "passwd"@ || path == "shadow"@ || path == "group"@ || path == "gshadow"@
    ||| path == "subuid"@ || path == "subgid"@ || path == "machine-id"@
}

/// Whether the path is one that a re-base between bases leaves to this machine.
pub open spec fn is_left_to_the_machine(path: Seq<char>) -> bool {
    ||| is_identity_path(path)
    ||| path == "fstab"@ || path == "crypttab"@ || path == "mdadm.conf"@ || path == "hostname"@
    ||| begins(path, "ssh/ssh_host_"@) || begins(path, "lvm/"@) || begins(path, "multipath/"@)
}

/// Whether the three trees have three different values of one kind at the path,
/// and the path is no archive of an earlier re-base.
pub open spec fn all_three_differ(t: EtcTripleView) -> bool {
    &&& !finishes(t.path, ".rebase-old"@)
    &&& t.source_default is Some && t.current is Some && t.target_default is Some
    &&& {
        let (s, c, n) = (t.source_default->0, t.current->0, t.target_default->0);
        &&& (s is File && c is File && n is File) || (s is Symlink && c is Symlink && n is Symlink)
        &&& s != c && c != n && s != n
    }
}

/// A path takes the target's default if and only if all three values differ,
/// whatever they are, and it is not left to this machine; it is left to this
/// machine, and reported, if and only if all three differ and it is such a path.
pub proof fn law_three_way_conflicts_are_decided(t: EtcTripleView)
    ensures
        decision_of(t) == Some(Decision::TakeTargetDefault) <==> all_three_differ(t)
            && !is_left_to_the_machine(t.path),
        decision_of(t) == Some(Decision::ExemptKeepCurrent) <==> all_three_differ(t)
            && is_left_to_the_machine(t.path),
{
}

proof fn lemma_decided(triples: Seq<EtcTripleView>, d: Decision, p: Seq<char>)
    ensures
        paths_decided(triples, d).contains(p) <==> exists|k: int|
            0 <= k < triples.len() && (#[trigger] triples[k]).path == p && decision_of(triples[k])
                == Some(d),
    decreases triples.len(),
{
    let all = paths_decided(triples, d);
    if exists|k: int|
        0 <= k < triples.len() && (#[trigger] triples[k]).path == p && decision_of(triples[k])
            == Some(d) {
        let k = choose|k: int|
            0 <= k < triples.len() && (#[trigger] triples[k]).path == p && decision_of(triples[k])
                == Some(d);
        lemma_decided_path(triples, d, k);
    }
    if triples.len() > 0 && all.contains(p) {
        let t = triples.drop_last();
        let n = triples.len() - 1;
        let rest = paths_decided(t, d);
        let m = choose|m: int| 0 <= m < all.len() && all[m] == p;
        lemma_decided(t, d, p);
        if m < rest.len() {
            assert(rest[m] == p);
            let k = choose|k: int|
                0 <= k < t.len() && (#[trigger] t[k]).path == p && decision_of(t[k]) == Some(d);
            assert(triples[k] == t[k]);
        } else {
            assert(triples[n].path == p);
        }
    }
}

proof fn lemma_sorted_texts_hold(s: Seq<Seq<char>>, p: Seq<char>)
    ensures
        sorted_texts(s).contains(p) <==> s.contains(p),
{
    broadcast use vstd::seq_lib::group_to_multiset_ensures;

    law_sorting_keeps_every_text(s);
    if s.contains(p) {
        assert(s.to_multiset().count(p) > 0);
    }
    if sorted_texts(s).contains(p) {
        assert(sorted_texts(s).to_multiset().count(p) > 0);
    }
}

/// The plan settles the paths with a conflict that is not left to this machine,
/// each with a sidecar of its name and the ending, and lists those that are; and
/// no others.
pub proof fn law_plan_holds_the_conflicts(triples: Seq<EtcTripleView>, p: Seq<char>)
    ensures
        planned_conflicts(triples).contains(
            EtcConflictView { path: p, sidecar: p + ".rebase-old"@ },
        ) <==> exists|k: int|
            0 <= k < triples.len() && (#[trigger] triples[k]).path == p && all_three_differ(
                triples[k],
            ) && !is_left_to_the_machine(p),
        planned_exempt(triples).contains(p) <==> exists|k: int|
            0 <= k < triples.len() && (#[trigger] triples[k]).path == p && all_three_differ(
                triples[k],
            ) && is_left_to_the_machine(p),
        forall|k: int|
            0 <= k < planned_conflicts(triples).len() ==> (#[trigger] planned_conflicts(
                triples,
            )[k]).sidecar == planned_conflicts(triples)[k].path + ".rebase-old"@,
{
    let taken = paths_decided(triples, Decision::TakeTargetDefault);
    let kept = paths_decided(triples, Decision::ExemptKeepCurrent);
    let cs = planned_conflicts(triples);
    let c = EtcConflictView { path: p, sidecar: p + ".rebase-old"@ };
    lemma_decided(triples, Decision::TakeTargetDefault, p);
    lemma_decided(triples, Decision::ExemptKeepCurrent, p);
    lemma_sorted_texts_hold(taken, p);
    lemma_sorted_texts_hold(kept, p);
    let sorted = sorted_texts(taken);
    if sorted.contains(p) {
        let k = choose|k: int| 0 <= k < sorted.len() && sorted[k] == p;
        assert(cs[k] == conflict_at(p));
        assert(cs[k] == c);
    }
    if cs.contains(c) {
        let k = choose|k: int| 0 <= k < cs.len() && cs[k] == c;
        assert(cs[k] == conflict_at(sorted[k]));
        assert(sorted[k] == p);
    }
    if taken.contains(p) {
        let k = choose|k: int|
            0 <= k < triples.len() && (#[trigger] triples[k]).path == p && decision_of(triples[k])
                == Some(Decision::TakeTargetDefault);
        assert(all_three_differ(triples[k]));
    }
    if kept.contains(p) {
        let k = choose|k: int|
            0 <= k < triples.len() && (#[trigger] triples[k]).path == p && decision_of(triples[k])
                == Some(Decision::ExemptKeepCurrent);
        assert(all_three_differ(triples[k]));
    }
    if exists|k: int|
        0 <= k < triples.len() && (#[trigger] triples[k]).path == p && all_three_differ(triples[k])
            && !is_left_to_the_machine(p) {
        let k = choose|k: int|
            0 <= k < triples.len() && (#[trigger] triples[k]).path == p && all_three_differ(
                triples[k],
            ) && !is_left_to_the_machine(p);
        assert(decision_of(triples[k]) == Some(Decision::TakeTargetDefault));
    }
    if exists|k: int|
        0 <= k < triples.len() && (#[trigger] triples[k]).path == p && all_three_differ(triples[k])
            && is_left_to_the_machine(p) {
        let k = choose|k: int|
            0 <= k < triples.len() && (#[trigger] triples[k]).path == p && all_three_differ(
                triples[k],
            ) && is_left_to_the_machine(p);
        assert(decision_of(triples[k]) == Some(Decision::ExemptKeepCurrent));
    }
    assert forall|k: int| 0 <= k < cs.len() implies (#[trigger] cs[k]).sidecar == cs[k].path
        + ".rebase-old"@ by {
        assert(cs[k] == conflict_at(sorted[k]));
    }
}

/// Whether no triple's path stands before that of an earlier one.
pub open spec fn in_path_order(s: Seq<EtcTripleView>) -> bool {
    forall|i: int, j: int|
        0 <= i < j < s.len() ==> !precedes((#[trigger] s[j]).path, (#[trigger] s[i]).path)
}

proof fn lemma_insert_triple(s: Seq<EtcTripleView>, x: EtcTripleView)
    requires
        in_path_order(s),
    ensures
        in_path_order(insert_triple(s, x)),
        insert_triple(s, x).to_multiset() == s.to_multiset().insert(x),
        forall|k: int|
            0 <= k < insert_triple(s, x).len() ==> s.contains(#[trigger] insert_triple(s, x)[k])
                || insert_triple(s, x)[k] == x,
    decreases s.len(),
{
    broadcast use vstd::seq_lib::group_to_multiset_ensures;

    let r = insert_triple(s, x);
    if s.len() > 0 && precedes(x.path, s.last().path) {
        let d = s.drop_last();
        let e = insert_triple(d, x);
        assert(in_path_order(d)) by {
            assert forall|i: int, j: int| 0 <= i < j < d.len() implies !precedes(
                (#[trigger] d[j]).path,
                (#[trigger] d[i]).path,
            ) by {
                assert(d[i] == s[i] && d[j] == s[j]);
            }
        }
        lemma_insert_triple(d, x);
        assert(s =~= d.push(s.last()));
        assert forall|k: int| 0 <= k < r.len() implies s.contains(#[trigger] r[k]) || r[k] == x by {
            if k < e.len() {
                assert(r[k] == e[k]);
                if d.contains(e[k]) {
                    let m = choose|m: int| 0 <= m < d.len() && d[m] == e[k];
                    assert(s[m] == e[k]);
                }
            } else {
                assert(s[s.len() - 1] == r[k]);
            }
        }
        assert forall|i: int, j: int| 0 <= i < j < r.len() implies !precedes(
            (#[trigger] r[j]).path,
            (#[trigger] r[i]).path,
        ) by {
            if j == r.len() - 1 {
                assert(r[i] == e[i]);
                if d.contains(e[i]) {
                    let m = choose|m: int| 0 <= m < d.len() && d[m] == e[i];
                    assert(s[m] == e[i]);
                    assert(!precedes(s[s.len() - 1].path, s[m].path));
                } else if precedes(s.last().path, x.path) {
                    lemma_precedes_transitive(x.path, s.last().path, x.path);
                    lemma_precedes_irreflexive(x.path);
                }
            } else {
                assert(r[i] == e[i] && r[j] == e[j]);
            }
        }
    } else {
        assert forall|k: int| 0 <= k < r.len() implies s.contains(#[trigger] r[k]) || r[k] == x by {
            if k < s.len() {
                assert(s[k] == r[k]);
            }
        }
        assert forall|i: int, j: int| 0 <= i < j < r.len() implies !precedes(
            (#[trigger] r[j]).path,
            (#[trigger] r[i]).path,
        ) by {
            if j == r.len() - 1 {
                if i < s.len() - 1 {
                    assert(!precedes(s[s.len() - 1].path, s[i].path));
                    if precedes(x.path, s[i].path) {
                        lemma_precedes_total(s[i].path, s.last().path);
                        if precedes(s[i].path, s.last().path) {
                            lemma_precedes_transitive(x.path, s[i].path, s.last().path);
                        }
                    }
                }
            } else {
                assert(r[i] == s[i] && r[j] == s[j]);
            }
        }
    }
}

/// What is worth deciding are all the triples that the target has a default for,
/// and no others, in the order of their paths.
pub proof fn law_candidates_are_those_with_a_target_default(read: Seq<EtcTripleView>)
    ensures
        candidates(read).to_multiset() == read.filter(
            |t: EtcTripleView| t.target_default is Some,
        ).to_multiset(),
        in_path_order(candidates(read)),
    decreases read.len(),
{
    broadcast use vstd::seq_lib::group_to_multiset_ensures;

    reveal(Seq::filter);
    let p = |t: EtcTripleView| t.target_default is Some;
    if read.len() > 0 {
        let d = read.drop_last();
        law_candidates_are_those_with_a_target_default(d);
        lemma_insert_triple(candidates(d), read.last());
        assert(d.filter(p).push(read.last()).to_multiset() =~= d.filter(p).to_multiset().insert(
            read.last(),
        ));
    } else {
        assert(candidates(read) =~= read.filter(p));
    }
}

/// Whether the path is one that a re-base between families leaves to this
/// machine.
pub open spec fn is_machine_state(path: Seq<char>) -> bool {
    ||| path == "fstab"@ || path == "crypttab"@ || path == "mdadm.conf"@ || path == "hostname"@
    ||| path == "hosts"@ || path == "localtime"@ || path == "locale.conf"@
    ||| path == "vconsole.conf"@ || path == "adjtime"@ || path == "machine-info"@
    ||| begins(path, "ssh/ssh_host_"@) || begins(path, "ssh/sshd_config.d/"@)
    ||| begins(path, "NetworkManager/system-connections/"@) || begins(path, "systemd/network/"@)
    ||| begins(path, "sudoers.d/"@) || begins(path, "cryptsetup-keys.d/"@)
}

/// What counts as machine state.
pub proof fn law_machine_state(path: Seq<char>)
    ensures
        carried_over(path) <==> is_machine_state(path),
{
    let e = carry_over_exact();
    let p = carry_over_prefixes();
    assert(e[0] == "fstab"@ && e[1] == "crypttab"@ && e[2] == "mdadm.conf"@ && e[3] == "hostname"@);
    assert(e[4] == "hosts"@ && e[5] == "localtime"@ && e[6] == "locale.conf"@);
    assert(e[7] == "vconsole.conf"@ && e[8] == "adjtime"@ && e[9] == "machine-info"@);
    assert(p[0] == "ssh/ssh_host_"@ && p[1] == "ssh/sshd_config.d/"@);
    assert(p[2] == "NetworkManager/system-connections/"@ && p[3] == "systemd/network/"@);
    assert(p[4] == "sudoers.d/"@ && p[5] == "cryptsetup-keys.d/"@);
    if e.contains(path) {
        let k = choose|k: int| 0 <= k < e.len() && e[k] == path;
        assert(0 <= k < 10);
    }
    if exists|i: int| 0 <= i < p.len() && begins(path, #[trigger] p[i]) {
        let i = choose|i: int| 0 <= i < p.len() && begins(path, #[trigger] p[i]);
        assert(0 <= i < 6);
    }
}

/// Whether the path is neither a database of accounts nor machine state.
pub open spec fn is_vendor_path(path: Seq<char>) -> bool {
    !is_identity_path(path) && !is_machine_state(path)
}

/// What the policy between families does with each path. The target's copy is
/// taken of every path that it ships and that is neither machine state nor a
/// database of accounts; what only the source shipped is dropped; machine state
/// that is there, and what the user added, is carried; databases of accounts are
/// merged. A displaced path gets a sidecar if and only if it is there and the
/// user changed it.
pub proof fn law_policy_between_families(states: Seq<EtcPathStateView>, p: Seq<char>)
    ensures
        sorted_set(paths_with(states, EtcFate::TakeTarget)).contains(p) <==> is_vendor_path(p)
            && exists|k: int|
            0 <= k < states.len() && (#[trigger] states[k]).path == p
                && states[k].in_target_default,
        sorted_set(paths_with(states, EtcFate::Drop)).contains(p) <==> is_vendor_path(p)
            && exists|k: int|
            0 <= k < states.len() && (#[trigger] states[k]).path == p
                && !states[k].in_target_default && states[k].in_source_default,
        sorted_set(paths_with(states, EtcFate::Carry)).contains(p) <==> !is_identity_path(p)
            && exists|k: int|
            0 <= k < states.len() && (#[trigger] states[k]).path == p && states[k].in_current && (
            is_machine_state(p) || !states[k].in_target_default && !states[k].in_source_default),
        sorted_set(paths_with(states, EtcFate::MergeIdentity)).contains(p) <==> is_identity_path(p)
            && exists|k: int| 0 <= k < states.len() && (#[trigger] states[k]).path == p,
        sorted_set(sidecar_paths(states)).contains(p) <==> is_vendor_path(p) && exists|k: int|
            0 <= k < states.len() && (#[trigger] states[k]).path == p && states[k].in_current
                && states[k].user_modified && (states[k].in_target_default
                || states[k].in_source_default),
{
    law_machine_state(p);
    lemma_holds(paths_with(states, EtcFate::TakeTarget), p);
    lemma_holds(paths_with(states, EtcFate::Drop), p);
    lemma_holds(paths_with(states, EtcFate::Carry), p);
    lemma_holds(paths_with(states, EtcFate::MergeIdentity), p);
    lemma_holds(sidecar_paths(states), p);
    lemma_paths_with(states, EtcFate::TakeTarget);
    lemma_paths_with(states, EtcFate::Drop);
    lemma_paths_with(states, EtcFate::Carry);
    lemma_paths_with(states, EtcFate::MergeIdentity);
    lemma_sidecars(states, p);
    assert(identity_db(p) <==> is_identity_path(p));
}

proof fn lemma_holds(s: Seq<Seq<char>>, p: Seq<char>)
    ensures
        sorted_set(s).contains(p) <==> s.contains(p),
{
    lemma_sorted_set(s);
    assert(sorted_set(s).to_set().contains(p) <==> s.to_set().contains(p));
}

proof fn lemma_sidecars(states: Seq<EtcPathStateView>, p: Seq<char>)
    ensures
        sidecar_paths(states).contains(p) <==> exists|k: int|
            0 <= k < states.len() && (#[trigger] states[k]).path == p
                && crate::cross_family::gets_sidecar(states[k]),
    decreases states.len(),
{
    let all = sidecar_paths(states);
    if exists|k: int|
        0 <= k < states.len() && (#[trigger] states[k]).path == p
            && crate::cross_family::gets_sidecar(states[k]) {
        let k = choose|k: int|
            0 <= k < states.len() && (#[trigger] states[k]).path == p
                && crate::cross_family::gets_sidecar(states[k]);
        crate::cross_family::lemma_sidecar_paths(states, k);
    }
    if states.len() > 0 && all.contains(p) {
        let d = states.drop_last();
        let n = states.len() - 1;
        let rest = sidecar_paths(d);
        let m = choose|m: int| 0 <= m < all.len() && all[m] == p;
        lemma_sidecars(d, p);
        if m < rest.len() {
            assert(rest[m] == p);
            let k = choose|k: int|
                0 <= k < d.len() && (#[trigger] d[k]).path == p
                    && crate::cross_family::gets_sidecar(d[k]);
            assert(states[k] == d[k]);
        } else {
            assert(states[n].path == p);
        }
    }
}

/// Whether a base goes by the id: it is its own, or one of those it is like.
pub open spec fn goes_by(b: BaseInfoView, id: Seq<char>) -> bool {
    b.id == id || b.id_like is Some && fields(b.id_like->0).contains(id)
}

/// Two bases are the same where they have one id; they are of one family where
/// there is an id that both go by, and otherwise of two.
pub proof fn law_families(a: BaseInfoView, b: BaseInfoView)
    ensures
        lineage_of(a, b) == Lineage::SameBase <==> a.id == b.id,
        lineage_of(a, b) == Lineage::CrossFamily <==> forall|id: Seq<char>|
            !(goes_by(a, id) && #[trigger] goes_by(b, id)),
{
    let x = lineage_ids(a);
    let y = lineage_ids(b);
    lemma_goes_by(a);
    lemma_goes_by(b);
    if a.id == b.id {
        assert(goes_by(a, a.id) && goes_by(b, a.id));
    }
    if share_one(x, y) {
        let i = choose|i: int| 0 <= i < x.len() && y.contains(#[trigger] x[i]);
        assert(x.contains(x[i]));
        assert(goes_by(a, x[i]) && goes_by(b, x[i]));
    }
    if exists|id: Seq<char>| goes_by(a, id) && #[trigger] goes_by(b, id) {
        let id = choose|id: Seq<char>| goes_by(a, id) && #[trigger] goes_by(b, id);
        assert(x.contains(id) && y.contains(id));
        let i = choose|i: int| 0 <= i < x.len() && x[i] == id;
        assert(y.contains(x[i]));
    }
}

proof fn lemma_goes_by(b: BaseInfoView)
    ensures
        forall|id: Seq<char>| #[trigger] goes_by(b, id) <==> lineage_ids(b).contains(id),
{
    let ids = lineage_ids(b);
    assert forall|id: Seq<char>| #[trigger] goes_by(b, id) <==> ids.contains(id) by {
        assert(ids[0] == b.id);
        if b.id_like is Some {
            let f = fields(b.id_like->0);
            if f.contains(id) {
                let k = choose|k: int| 0 <= k < f.len() && f[k] == id;
                assert(ids[k + 1] == id);
            }
            if ids.contains(id) {
                let k = choose|k: int| 0 <= k < ids.len() && ids[k] == id;
                if k > 0 {
                    assert(f[k - 1] == id);
                }
            }
        }
    }
}

/// Whether no id goes for both bases.
pub open spec fn are_strangers(a: BaseInfoView, b: BaseInfoView) -> bool {
    forall|id: Seq<char>| !(goes_by(a, id) && #[trigger] goes_by(b, id))
}

/// The decision on the pulled image: bases without a common id are refused unless
/// accepted, and accepted ones get the policy between families; the usual merge
/// applies to every other pair, and where an identity is missing.
pub proof fn law_decision_on_families(
    host: Option<BaseInfoView>,
    target: Option<BaseInfoView>,
    accepted: bool,
)
    ensures
        ({
            let d = decision_on(host, target, accepted);
            let strangers = host is Some && target is Some && are_strangers(host->0, target->0);
            &&& d is Err <==> strangers && !accepted
            &&& strangers && accepted ==> d == Ok::<Option<CrossFamilyPlanView>, Seq<char>>(
                Some(CrossFamilyPlanView { host: host->0, target: target->0 }),
            )
            &&& !strangers ==> d == Ok::<Option<CrossFamilyPlanView>, Seq<char>>(None)
        }),
{
    if host is Some && target is Some {
        law_families(host->0, target->0);
    }
}

/// The verdict before the pull: it is unknown exactly where an identity is
/// missing or the target could not be scanned, and otherwise says whether the
/// bases have an id in common.
pub proof fn law_verdict_on_families(
    v: CrossFamilyVerdict,
    host: Option<BaseInfoView>,
    scanned: bool,
    target: Option<BaseInfoView>,
)
    requires
        is_verdict(v, host, scanned, target),
    ensures
        v is Unknown <==> host is None || !scanned || target is None,
        v is CrossFamily <==> host is Some && scanned && target is Some && are_strangers(
            host->0,
            target->0,
        ),
{
    if host is Some && target is Some {
        law_families(host->0, target->0);
    }
}

/// The labels are set anew on the first boot exactly where the target has a
/// policy that is not disabled, and the host had none, had it disabled, or had
/// another.
pub proof fn law_when_labels_are_set_anew(
    host: Option<SelinuxConfigView>,
    target: Option<SelinuxConfigView>,
)
    ensures
        target is None ==> !needs_relabel(host, target),
        target matches Some(t) ==> {
            let enforced = t.selinux_type is Some && t.selinux_type->0.len() > 0 && t.selinux
                != Some("disabled"@);
            &&& !enforced ==> !needs_relabel(host, target)
            &&& enforced && host is None ==> needs_relabel(host, target)
            &&& enforced && host is Some && host->0.selinux == Some("disabled"@) ==> needs_relabel(
                host,
                target,
            )
            &&& enforced && host is Some && host->0.selinux != Some("disabled"@) ==> (
            needs_relabel(host, target) <==> host->0.selinux_type != t.selinux_type)
        },
{
}

proof fn lemma_holds_in(a: Seq<char>, part: Seq<char>, b: Seq<char>)
    ensures
        holds(a + part + b, part),
{
    let s = a + part + b;
    let n = a.len() as int;
    assert(s.subrange(n, n + part.len()) =~= part);
    assert(occurs_at(s, part, n));
}

/// The command of the first boot for one pass over `/var`.
pub open spec fn pass_command(step: RemapStep) -> Seq<char> {
    let mark = match step.kind {
        IdKind::Uid => Seq::<char>::empty(),
        IdKind::Gid => seq![':'],
    };
    "ExecStart=/usr/bin/chown -hR --from="@ + mark + decimal(step.from as nat) + seq![' '] + mark
        + decimal(step.to as nat) + " /var\n"@
}

proof fn lemma_chown_lines(steps: Seq<RemapStep>, k: int)
    requires
        0 <= k < steps.len(),
    ensures
        exists|a: Seq<char>, b: Seq<char>|
            chown_lines(steps) == #[trigger] (a + pass_command(steps[k]) + b) && a == chown_lines(
                steps.take(k),
            ),
    decreases steps.len(),
{
    reveal_strlit(" ");
    reveal_strlit(" :");
    reveal_strlit("\n");
    reveal_strlit(" /var");
    reveal_strlit(" /var\n");
    reveal_strlit("ExecStart=/usr/bin/chown -hR --from=:");
    reveal_strlit("ExecStart=/usr/bin/chown -hR --from=");
    let d = steps.drop_last();
    let none = Seq::<char>::empty();
    if k < d.len() {
        lemma_chown_lines(d, k);
        let (a, b) = choose|a: Seq<char>, b: Seq<char>|
            chown_lines(d) == #[trigger] (a + pass_command(d[k]) + b) && a == chown_lines(d.take(k));
        let line = crate::cross_family::chown_line_of(steps.last()) + "\n"@;
        assert(d.take(k) =~= steps.take(k));
        assert(a + pass_command(steps[k]) + b + line =~= a + pass_command(steps[k]) + (b + line));
    } else {
        assert(steps.take(k) =~= d);
        let line = crate::cross_family::chown_line_of(steps.last()) + "\n"@;
        assert(line =~= pass_command(steps[k]));
        assert(chown_lines(steps) =~= chown_lines(d) + pass_command(steps[k]) + none);
    }
}

/// The unit of the first boot runs the command of every pass, those of earlier
/// passes before it; sets the labels of both trees where that is asked for; and
/// disarms itself.
#[verifier::rlimit(40)]
pub proof fn law_unit_of_the_first_boot(steps: Seq<RemapStep>, relabel: bool, k: int)
    requires
        0 <= k < steps.len(),
    ensures
        exists|a: Seq<char>, b: Seq<char>|
            firstboot_unit(steps, relabel) == #[trigger] (a + pass_command(steps[k]) + b) && (k > 0
                ==> holds(a, pass_command(steps[k - 1]))),
        relabel ==> holds(
            firstboot_unit(steps, relabel),
            "ExecStart=-/usr/sbin/restorecon -RF /etc /var\n"@,
        ),
{
    let unit = firstboot_unit(steps, relabel);
    lemma_chown_lines(steps, k);
    let (a, b) = choose|a: Seq<char>, b: Seq<char>|
        chown_lines(steps) == #[trigger] (a + pass_command(steps[k]) + b) && a == chown_lines(
            steps.take(k),
        );
    let head = "[Unit]\nDescription=bootc-migrate cross-family first boot (UID/GID remap, SELinux relabel)\nConditionPathExists=/etc/bootc-migrate/cross-family-firstboot\nDefaultDependencies=no\nAfter=local-fs.target\nBefore=sysinit.target\n\n[Service]\nType=oneshot\nRemainAfterExit=no\n"@;
    let restore = "ExecStart=-/usr/sbin/restorecon -RF /etc /var\n"@;
    let end = "ExecStart=/usr/bin/rm -f /etc/bootc-migrate/cross-family-firstboot\n\n[Install]\nWantedBy=sysinit.target\n"@;
    let middle = if relabel {
        restore
    } else {
        Seq::empty()
    };
    assert(unit =~= (head + a) + pass_command(steps[k]) + (b + middle + end));
    if relabel {
        assert(unit =~= (head + chown_lines(steps)) + restore + end);
        lemma_holds_in(head + chown_lines(steps), restore, end);
    }
    if k > 0 {
        let before = steps.take(k);
        lemma_chown_lines(before, k - 1);
        let (c, d) = choose|c: Seq<char>, d: Seq<char>|
            chown_lines(before) == #[trigger] (c + pass_command(before[k - 1]) + d) && c
                == chown_lines(before.take(k - 1));
        assert(head + a =~= (head + c) + pass_command(steps[k - 1]) + d);
        lemma_holds_in(head + c, pass_command(steps[k - 1]), d);
    }
}

/// The unit of the first boot is written, enabled by a link to it, and armed at
/// the end; what stands where the link goes is deleted before.
pub proof fn law_first_boot_is_armed(etc: Seq<char>, unit: Seq<char>, present: bool)
    ensures
        ({
            let s = firstboot_steps(etc, unit, present);
            let n = s.len() as int;
            let name = "bootc-migrate-cross-family-firstboot.service"@;
            let dir = join_path(etc, "systemd/system"@);
            let link = join_path(join_path(dir, "sysinit.target.wants"@), name);
            &&& s[1] is Write && s[1]->Write_path == join_path(dir, name) && s[1]->Write_contents
                == unit
            &&& present ==> n == 7 && s[3] is Delete && s[3]->Delete_path == link
            &&& !present ==> n == 6
            &&& s[n - 3] is Link && s[n - 3]->Link_path == link && s[n - 3]->Link_target
                == "../bootc-migrate-cross-family-firstboot.service"@
            &&& s[n - 1] is Write && s[n - 1]->Write_path == join_path(
                etc,
                "bootc-migrate/cross-family-firstboot"@,
            )
        }),
{
}

/// A verdict tells what it was found on: the two identities where they are of two
/// families, and otherwise whether they are one base.
pub proof fn law_verdict_tells_its_grounds(
    v: CrossFamilyVerdict,
    host: Option<BaseInfoView>,
    scanned: bool,
    target: Option<BaseInfoView>,
)
    requires
        is_verdict(v, host, scanned, target),
    ensures
        v matches CrossFamilyVerdict::CrossFamily(plan) ==> plan.deep_view().host == host->0
            && plan.deep_view().target == target->0,
        v matches CrossFamilyVerdict::SameFamily(l) ==> (l is SameBase <==> host->0.id
            == target->0.id) && !(l is CrossFamily),
{
}

/// A plan for `/etc` that follows the policy lists, under what happens to a path,
/// every path to which that happens, and no other.
pub proof fn law_plan_lists_every_path(
    p: EtcCrossFamilyPlan,
    states: Seq<EtcPathStateView>,
    x: Seq<char>,
)
    requires
        follows_policy(p, states),
    ensures
        p.take_target.deep_view().contains(x) <==> paths_with(
            states,
            EtcFate::TakeTarget,
        ).contains(x),
        p.dropped.deep_view().contains(x) <==> paths_with(states, EtcFate::Drop).contains(x),
        p.carried.deep_view().contains(x) <==> paths_with(states, EtcFate::Carry).contains(x),
        p.identity.deep_view().contains(x) <==> paths_with(
            states,
            EtcFate::MergeIdentity,
        ).contains(x),
        p.sidecars.deep_view().contains(x) <==> sidecar_paths(states).contains(x),
{
    lemma_same_members(paths_with(states, EtcFate::TakeTarget), x);
    lemma_same_members(paths_with(states, EtcFate::Drop), x);
    lemma_same_members(paths_with(states, EtcFate::Carry), x);
    lemma_same_members(paths_with(states, EtcFate::MergeIdentity), x);
    lemma_same_members(sidecar_paths(states), x);
}

proof fn lemma_same_members(s: Seq<Seq<char>>, x: Seq<char>)
    ensures
        sorted_set(s).contains(x) <==> s.contains(x),
{
    lemma_sorted_set(s);
    assert(sorted_set(s).to_set().contains(x) <==> s.to_set().contains(x));
}

/// What was decided on a path is what the first decision on it says, and nothing
/// was where there is none.
pub proof fn law_decision_on_a_path(decisions: Seq<(Seq<char>, bool)>, path: Seq<char>, i: int)
    ensures
        0 <= i < decisions.len() && decisions[i].0 == path && (forall|j: int|
            0 <= j < i ==> (#[trigger] decisions[j]).0 != path) ==> decision_for(decisions, path)
            == Some(decisions[i].1),
        (forall|j: int| 0 <= j < decisions.len() ==> (#[trigger] decisions[j]).0 != path)
            ==> decision_for(decisions, path) is None,
    decreases decisions.len(),
{
    if decisions.len() > 0 {
        let d = decisions.skip(1);
        law_decision_on_a_path(d, path, i - 1);
        assert forall|j: int| 0 <= j < d.len() implies #[trigger] d[j] == decisions[j + 1] by {}
        if 0 < i < decisions.len() {
            assert(d[i - 1] == decisions[i]);
        }
    }
}

} // verus!

//! Re-basing onto an image of another family.
//!
//! Within a family the user's copy of a changed file is kept. Between families
//! that would carry one family's `/etc` onto the other, so the default is
//! turned round: what the target ships takes the target's copy, what only the
//! source's vendor shipped is dropped, and machine state, the user's own
//! additions and the account databases are carried over. A displaced file that
//! the user had changed is kept beside its replacement.

use vstd::prelude::*;

use crate::cross_base::{
    identity_gap, is_plan_for, plan_from_tables, plannable, target_base,
};
use crate::mergetc::{
    decision_for, identity_db, is_identity_db, EtcDriftManifest, EtcPathState, EtcPathStateView,
};
use crate::remap::{IdKind, RemapPlan, RemapStep};
use crate::scan::{
    copy_base, lineage, lineage_of, BaseInfo, BaseInfoView, Capabilities, Lineage,
};
use crate::selinux::{SelinuxConfig, SelinuxConfigView};
use crate::steps::{link, make_dir, write_file, Step, StepView};
use crate::text::compose::{join, joined, owned_all};
use crate::text::numbers::{decimal, decimal_of};
use crate::text::order::{lemma_sorted_set, list_contains, sort_unique, sorted_set};
use crate::text::paths::{join_path, path_join};
use crate::text::pieces::{trim, trimmed};
use crate::text::search::{begins, same, starts_with};

verus! {

/// The identities on both sides of a re-base between families.
#[derive(Debug, Clone, PartialEq, Eq)]
pub struct CrossFamilyPlan {
    pub host: BaseInfo,
    pub target: BaseInfo,
}

/// What a [`CrossFamilyPlan`] holds.
#[verifier::ext_equal]
pub struct CrossFamilyPlanView {
    pub host: BaseInfoView,
    pub target: BaseInfoView,
}

impl DeepView for CrossFamilyPlan {
    type V = CrossFamilyPlanView;

    open spec fn deep_view(&self) -> CrossFamilyPlanView {
        CrossFamilyPlanView { host: self.host.deep_view(), target: self.target.deep_view() }
    }
}

/// What could be established about the two identities.
#[derive(Debug)]
pub enum CrossFamilyVerdict {
    /// They have nothing in common.
    CrossFamily(Box<CrossFamilyPlan>),
    /// They are related, in the way given.
    SameFamily(Lineage),
    /// It could not be found out, for the reason given.
    Unknown(&'static str),
}

/// The files that describe this machine.
pub open spec fn carry_over_exact() -> Seq<Seq<char>> {
    seq![
        "fstab"@,
        "crypttab"@,
        "mdadm.conf"@,
        "hostname"@,
        "hosts"@,
        "localtime"@,
        "locale.conf"@,
        "vconsole.conf"@,
        "adjtime"@,
        "machine-info"@,
    ]
}

/// What the paths of host keys, of the administrator's own drop-ins and of
/// saved connections begin with.
pub open spec fn carry_over_prefixes() -> Seq<Seq<char>> {
    seq![
        "ssh/ssh_host_"@,
        "ssh/sshd_config.d/"@,
        "NetworkManager/system-connections/"@,
        "systemd/network/"@,
        "sudoers.d/"@,
        "cryptsetup-keys.d/"@,
    ]
}

/// Whether the path is machine state, which is never replaced.
pub open spec fn carried_over(path: Seq<char>) -> bool {
    ||| carry_over_exact().contains(path)
    ||| exists|i: int|
        0 <= i < carry_over_prefixes().len() && begins(path, #[trigger] carry_over_prefixes()[i])
}

/// The files that describe this machine.
fn exact_list() -> (r: Vec<String>)
    ensures
        r.deep_view() == carry_over_exact(),
{
    let a: [&str; 10] = [
        "fstab",
        "crypttab",
        "mdadm.conf",
        "hostname",
        "hosts",
        "localtime",
        "locale.conf",
        "vconsole.conf",
        "adjtime",
        "machine-info",
    ];
    let r: Vec<String> = owned_all(&a);
    assert(r.deep_view() =~= carry_over_exact());
    r
}

/// What the paths of machine state begin with.
fn prefix_list() -> (r: Vec<String>)
    ensures
        r.deep_view() == carry_over_prefixes(),
{
    let a: [&str; 6] = [
        "ssh/ssh_host_",
        "ssh/sshd_config.d/",
        "NetworkManager/system-connections/",
        "systemd/network/",
        "sudoers.d/",
        "cryptsetup-keys.d/",
    ];
    let r: Vec<String> = owned_all(&a);
    assert(r.deep_view() =~= carry_over_prefixes());
    r
}

/// Whether the path, relative to `/etc`, is machine state.
pub fn is_carried_over(rel_path: &str) -> (r: bool)
    ensures
        r == carried_over(rel_path@),
{
    let exact: Vec<String> = exact_list();
    if list_contains(exact.as_slice(), rel_path) {
        return true;
    }
    let prefixes: Vec<String> = prefix_list();
    let ghost all = prefixes.deep_view();
    let mut i: usize = 0;
    while i < prefixes.len()
        invariant
            all == prefixes.deep_view(),
            all == carry_over_prefixes(),
            i <= prefixes@.len(),
            forall|k: int| 0 <= k < i ==> !begins(rel_path@, #[trigger] all[k]),
        decreases prefixes@.len() - i,
    {
        assert(all[i as int] == prefixes@[i as int]@);
        if starts_with(rel_path, prefixes[i].as_str()) {
            return true;
        }
        i = i + 1;
    }
    false
}

/// A base in words: its id, and what it is like.
pub open spec fn description(b: BaseInfoView) -> Seq<char> {
    match b.id_like {
        Some(like) => if trim(like).len() > 0 {
            b.id + " (ID_LIKE=\""@ + like + "\")"@
        } else {
            b.id + " (no ID_LIKE)"@
        },
        None => b.id + " (no ID_LIKE)"@,
    }
}

/// A base in words.
pub fn describe(base: &BaseInfo) -> (r: String)
    ensures
        r@ == description(base.deep_view()),
{
    let mut s: String = base.id.clone();
    match &base.id_like {
        Some(like) => {
            let t: String = trimmed(like.as_str());
            if !t.as_str().is_empty() {
                s.append(" (ID_LIKE=\"");
                s.append(like.as_str());
                s.append("\")");
                return s;
            }
        },
        None => {},
    }
    s.append(" (no ID_LIKE)");
    s
}

/// The refusal of a re-base between families.
pub open spec fn family_refusal(p: CrossFamilyPlanView) -> Seq<char> {
    "Cross-family re-base detected: this host is "@ + description(p.host)
        + " and the target image is "@ + description(p.target)
        + ". They share no base lineage, so the same-lineage /etc merge would carry this host's "@
        + p.host.id + " configuration onto "@ + p.target.id
        + " — package-manager, PAM, service and policy defaults included — and the migrated system would boot with the wrong family's /etc (bootc-migrate#256).\n\nRe-run with --accept-cross-base to proceed with the cross-family policy: the target's /etc defaults win, machine-specific state ("@
        + join(carry_over_exact(), ", "@)
        + ") and everything you added yourself are carried over, every displaced file you had changed is kept beside its replacement as a .rebase-old sidecar, identity databases are merged target-first, and file ownership under /var is renumbered to the target's accounts. This route is exploratory: review ROADMAP.md \"Cross-family re-base\" before relying on it."@
}

/// The refusal where the family could not be found out.
pub open spec fn unknown_family_refusal(reason: Seq<char>) -> Seq<char> {
    "Cannot determine whether this is a cross-family re-base: "@ + reason
        + ".\n\nThis is not the same as having checked and found nothing. A target from another OS family needs the cross-family /etc policy (bootc-migrate#256), and it cannot be planned without the target's identity.\n\nRe-run with --accept-cross-base to proceed with the same-lineage merge (appropriate only when you already know the two images share a base), or restore access to the target image's registry and try again."@
}

/// The refusal of a re-base between families.
fn cross_family_refusal(plan: &CrossFamilyPlan) -> (r: String)
    ensures
        r@ == family_refusal(plan.deep_view()),
{
    let carry: Vec<String> = exact_list();
    let mut m: String = "Cross-family re-base detected: this host is ".to_owned();
    m.append(describe(&plan.host).as_str());
    m.append(" and the target image is ");
    m.append(describe(&plan.target).as_str());
    m.append(
        ". They share no base lineage, so the same-lineage /etc merge would carry this host's ",
    );
    m.append(plan.host.id.as_str());
    m.append(" configuration onto ");
    m.append(plan.target.id.as_str());
    m.append(" — package-manager, PAM, service and policy defaults included — and the migrated system would boot with the wrong family's /etc (bootc-migrate#256).\n\nRe-run with --accept-cross-base to proceed with the cross-family policy: the target's /etc defaults win, machine-specific state (");
    m.append(joined(carry.as_slice(), ", ").as_str());
    m.append(") and everything you added yourself are carried over, every displaced file you had changed is kept beside its replacement as a .rebase-old sidecar, identity databases are merged target-first, and file ownership under /var is renumbered to the target's accounts. This route is exploratory: review ROADMAP.md \"Cross-family re-base\" before relying on it.");
    m
}

/// The refusal that a verdict calls for.
pub open spec fn family_refusal_of(v: CrossFamilyVerdict, accepted: bool) -> Option<Seq<char>> {
    if accepted {
        None
    } else {
        match v {
            CrossFamilyVerdict::SameFamily(_) => None,
            CrossFamilyVerdict::Unknown(reason) => Some(unknown_family_refusal(reason@)),
            CrossFamilyVerdict::CrossFamily(plan) => Some(family_refusal(plan.deep_view())),
        }
    }
}

impl CrossFamilyVerdict {
    /// The refusal that this verdict calls for, or `None` to proceed.
    pub fn refusal(&self, accepted: bool) -> (r: Option<String>)
        ensures
            r.deep_view() == family_refusal_of(*self, accepted),
    {
        if accepted {
            return None;
        }
        match self {
            CrossFamilyVerdict::SameFamily(_) => None,
            CrossFamilyVerdict::Unknown(reason) => {
                let mut m: String = "Cannot determine whether this is a cross-family re-base: ".to_owned();
                m.append(reason);
                m.append(".\n\nThis is not the same as having checked and found nothing. A target from another OS family needs the cross-family /etc policy (bootc-migrate#256), and it cannot be planned without the target's identity.\n\nRe-run with --accept-cross-base to proceed with the same-lineage merge (appropriate only when you already know the two images share a base), or restore access to the target image's registry and try again.");
                Some(m)
            },
            CrossFamilyVerdict::CrossFamily(plan) => Some(cross_family_refusal(plan)),
        }
    }
}

/// Having checked and found the families related is the only finding that
/// needs no acceptance; acceptance lets every verdict pass.
pub proof fn law_only_a_related_family_passes_unaccepted(v: CrossFamilyVerdict)
    ensures
        family_refusal_of(v, true) is None,
        family_refusal_of(v, false) is None <==> v is SameFamily,
{
}

/// Whether `v` is the verdict on the two identities.
pub open spec fn is_verdict(
    v: CrossFamilyVerdict,
    host: Option<BaseInfoView>,
    scanned: bool,
    target: Option<BaseInfoView>,
) -> bool {
    match identity_gap(host, scanned, target) {
        Some(why) => v matches CrossFamilyVerdict::Unknown(reason) && reason@ == why,
        None => match lineage_of(host->0, target->0) {
            Lineage::CrossFamily => v matches CrossFamilyVerdict::CrossFamily(plan)
                && plan.deep_view() == (CrossFamilyPlanView { host: host->0, target: target->0 }),
            related => v == CrossFamilyVerdict::SameFamily(related),
        },
    }
}

/// The verdict on the host's identity and that of the scanned target.
pub fn build_verdict(host: &Option<BaseInfo>, caps: &Option<Capabilities>) -> (r:
    CrossFamilyVerdict)
    ensures
        is_verdict(r, host.deep_view(), caps is Some, target_base(*caps)),
{
    match host {
        None => CrossFamilyVerdict::Unknown(
            "this host's own /etc/os-release and /usr/lib/os-release are both unreadable",
        ),
        Some(h) => match caps {
            None => CrossFamilyVerdict::Unknown(
                "the target image could not be scanned (see the registry warning above)",
            ),
            Some(c) => match &c.base {
                None => CrossFamilyVerdict::Unknown(
                    "the target image carries no readable os-release identity",
                ),
                Some(t) => match lineage(h, t) {
                    Lineage::CrossFamily => CrossFamilyVerdict::CrossFamily(
                        Box::new(CrossFamilyPlan { host: copy_base(h), target: copy_base(t) }),
                    ),
                    related => CrossFamilyVerdict::SameFamily(related),
                },
            },
        },
    }
}

/// What the early gate says where it lets a re-base pass.
pub open spec fn gate_notice(v: CrossFamilyVerdict) -> Seq<char> {
    match v {
        CrossFamilyVerdict::CrossFamily(plan) => "Cross-family re-base accepted: "@ + description(
            plan.host.deep_view(),
        ) + " -> "@ + description(plan.target.deep_view()) + "."@,
        CrossFamilyVerdict::SameFamily(l) => "Base lineage: host and target are "@ + (if l
            == Lineage::SameBase {
            "the same base"@
        } else {
            "the same base family"@
        }) + "; the standard /etc merge applies."@,
        CrossFamilyVerdict::Unknown(reason) => "Warning: base lineage unknown before the pull — "@
            + reason@
            + ". Phase 4 decides from the pulled image's own os-release; a cross-family target is refused there unless --accept-cross-base was given."@,
    }
}

/// The early gate, before anything is pulled: a re-base between families is
/// refused unless it was accepted. Where the family is unknown it warns and
/// lets pass, since [`decide`] looks again at the pulled image.
pub fn gate(verdict: &CrossFamilyVerdict, accepted: bool) -> (r: Result<String, String>)
    ensures
        match r {
            Ok(notice) => notice@ == gate_notice(*verdict) && !(verdict is CrossFamily && !accepted),
            Err(message) => verdict is CrossFamily && !accepted && family_refusal_of(
                *verdict,
                false,
            ) == Some(message@),
        },
{
    match verdict {
        CrossFamilyVerdict::CrossFamily(plan) => {
            if !accepted {
                return Err(cross_family_refusal(plan));
            }
            let mut s: String = "Cross-family re-base accepted: ".to_owned();
            s.append(describe(&plan.host).as_str());
            s.append(" -> ");
            s.append(describe(&plan.target).as_str());
            s.append(".");
            Ok(s)
        },
        CrossFamilyVerdict::SameFamily(l) => {
            let mut s: String = "Base lineage: host and target are ".to_owned();
            match l {
                Lineage::SameBase => s.append("the same base"),
                _ => s.append("the same base family"),
            }
            s.append("; the standard /etc merge applies.");
            Ok(s)
        },
        CrossFamilyVerdict::Unknown(reason) => {
            let mut s: String = "Warning: base lineage unknown before the pull — ".to_owned();
            s.append(reason);
            s.append(". Phase 4 decides from the pulled image's own os-release; a cross-family target is refused there unless --accept-cross-base was given.");
            Ok(s)
        },
    }
}

/// The decision from the identities of the host and of the pulled image: the
/// plan of the policy between families, `None` for the usual merge, or the
/// refusal. Where an identity is missing there is nothing to compare, and the
/// usual merge applies.
pub open spec fn decision_on(
    host: Option<BaseInfoView>,
    target: Option<BaseInfoView>,
    accepted: bool,
) -> Result<Option<CrossFamilyPlanView>, Seq<char>> {
    if host is None || target is None {
        Ok(None)
    } else if lineage_of(host->0, target->0) != Lineage::CrossFamily {
        Ok(None)
    } else {
        let plan = CrossFamilyPlanView { host: host->0, target: target->0 };
        if accepted {
            Ok(Some(plan))
        } else {
            Err(
                family_refusal(plan)
                    + "\n\nThe pulled image is cached, so re-running with --accept-cross-base skips straight to Phase 4."@,
            )
        }
    }
}

/// What [`decide`] answered, as a value.
pub open spec fn decided(r: Result<Option<CrossFamilyPlan>, String>) -> Result<
    Option<CrossFamilyPlanView>,
    Seq<char>,
> {
    match r {
        Ok(plan) => Ok(plan.deep_view()),
        Err(e) => Err(e@),
    }
}

/// The decision from the identities of the host and of the pulled image.
pub fn decide(host: Option<BaseInfo>, target: Option<BaseInfo>, accepted: bool) -> (r: Result<
    Option<CrossFamilyPlan>,
    String,
>)
    ensures
        decided(r) == decision_on(host.deep_view(), target.deep_view(), accepted),
{
    match (host, target) {
        (Some(h), Some(t)) => match lineage(&h, &t) {
            Lineage::CrossFamily => {
                let plan: CrossFamilyPlan = CrossFamilyPlan { host: h, target: t };
                if !accepted {
                    let mut m: String = cross_family_refusal(&plan);
                    m.append("\n\nThe pulled image is cached, so re-running with --accept-cross-base skips straight to Phase 4.");
                    return Err(m);
                }
                Ok(Some(plan))
            },
            _ => Ok(None),
        },
        _ => Ok(None),
    }
}

/// What is done with each path of `/etc`, each list in order.
#[derive(Debug, Clone, PartialEq, Eq)]
pub struct EtcCrossFamilyPlan {
    /// The target's copy replaces what the host had.
    pub take_target: Vec<String>,
    /// Only the source's vendor shipped it.
    pub dropped: Vec<String>,
    /// Machine state and the user's additions.
    pub carried: Vec<String>,
    /// Account databases, merged entry by entry.
    pub identity: Vec<String>,
    /// Displaced, and changed by the user: kept beside the replacement.
    pub sidecars: Vec<String>,
}

impl Default for EtcCrossFamilyPlan {
    /// No path.
    fn default() -> (r: Self)
        ensures
            r.take_target@.len() == 0,
            r.dropped@.len() == 0,
            r.carried@.len() == 0,
            r.identity@.len() == 0,
            r.sidecars@.len() == 0,
    {
        EtcCrossFamilyPlan {
            take_target: Vec::new(),
            dropped: Vec::new(),
            carried: Vec::new(),
            identity: Vec::new(),
            sidecars: Vec::new(),
        }
    }
}

/// What the policy does with a path.
#[derive(Debug, Clone, Copy, PartialEq, Eq, Structural)]
pub enum EtcFate {
    TakeTarget,
    Drop,
    Carry,
    MergeIdentity,
    /// Nothing is there, and nothing is decided.
    Leave,
}

/// What the policy does with a path.
pub open spec fn fate_of(st: EtcPathStateView) -> EtcFate {
    if identity_db(st.path) {
        EtcFate::MergeIdentity
    } else if carried_over(st.path) {
        if st.in_current {
            EtcFate::Carry
        } else {
            EtcFate::Leave
        }
    } else if st.in_target_default {
        EtcFate::TakeTarget
    } else if st.in_source_default {
        EtcFate::Drop
    } else if st.in_current {
        EtcFate::Carry
    } else {
        EtcFate::Leave
    }
}

/// Whether the user's copy of the path is kept beside its replacement.
pub open spec fn gets_sidecar(st: EtcPathStateView) -> bool {
    (fate_of(st) == EtcFate::TakeTarget || fate_of(st) == EtcFate::Drop) && st.in_current
        && st.user_modified
}

/// The paths with the fate.
pub open spec fn paths_with(states: Seq<EtcPathStateView>, fate: EtcFate) -> Seq<Seq<char>>
    decreases states.len(),
{
    if states.len() == 0 {
        Seq::empty()
    } else if fate_of(states.last()) == fate {
        paths_with(states.drop_last(), fate).push(states.last().path)
    } else {
        paths_with(states.drop_last(), fate)
    }
}

/// The paths whose user's copy is kept beside the replacement.
pub open spec fn sidecar_paths(states: Seq<EtcPathStateView>) -> Seq<Seq<char>>
    decreases states.len(),
{
    if states.len() == 0 {
        Seq::empty()
    } else if gets_sidecar(states.last()) {
        sidecar_paths(states.drop_last()).push(states.last().path)
    } else {
        sidecar_paths(states.drop_last())
    }
}

/// What the policy does with a path.
pub fn etc_fate(st: &EtcPathState) -> (r: EtcFate)
    ensures
        r == fate_of(st.deep_view()),
{
    let path: &str = st.path.as_str();
    if is_identity_db(path) {
        EtcFate::MergeIdentity
    } else if is_carried_over(path) {
        if st.in_current {
            EtcFate::Carry
        } else {
            EtcFate::Leave
        }
    } else if st.in_target_default {
        EtcFate::TakeTarget
    } else if st.in_source_default {
        EtcFate::Drop
    } else if st.in_current {
        EtcFate::Carry
    } else {
        EtcFate::Leave
    }
}

/// Adds the path to the list, if `add` says so.
fn add_path(list: &mut Vec<String>, path: &String, add: bool)
    ensures
        final(list).deep_view() == (if add {
            old(list).deep_view().push(path@)
        } else {
            old(list).deep_view()
        }),
{
    if add {
        list.push(path.clone());
        assert(list.deep_view() =~= old(list).deep_view().push(path@));
    }
}

/// What is done with each path of `/etc`.
pub fn plan_etc(states: &[EtcPathState]) -> (r: EtcCrossFamilyPlan)
    ensures
        r.take_target.deep_view() == sorted_set(
            paths_with(states.deep_view(), EtcFate::TakeTarget),
        ),
        r.dropped.deep_view() == sorted_set(paths_with(states.deep_view(), EtcFate::Drop)),
        r.carried.deep_view() == sorted_set(paths_with(states.deep_view(), EtcFate::Carry)),
        r.identity.deep_view() == sorted_set(
            paths_with(states.deep_view(), EtcFate::MergeIdentity),
        ),
        r.sidecars.deep_view() == sorted_set(sidecar_paths(states.deep_view())),
{
    let ghost all = states.deep_view();
    let mut take_target: Vec<String> = Vec::new();
    let mut dropped: Vec<String> = Vec::new();
    let mut carried: Vec<String> = Vec::new();
    let mut identity: Vec<String> = Vec::new();
    let mut sidecars: Vec<String> = Vec::new();
    let mut i: usize = 0;
    assert(take_target.deep_view() =~= paths_with(all.take(0), EtcFate::TakeTarget));
    assert(dropped.deep_view() =~= paths_with(all.take(0), EtcFate::Drop));
    assert(carried.deep_view() =~= paths_with(all.take(0), EtcFate::Carry));
    assert(identity.deep_view() =~= paths_with(all.take(0), EtcFate::MergeIdentity));
    assert(sidecars.deep_view() =~= sidecar_paths(all.take(0)));
    while i < states.len()
        invariant
            all == states.deep_view(),
            i <= states@.len(),
            take_target.deep_view() == paths_with(all.take(i as int), EtcFate::TakeTarget),
            dropped.deep_view() == paths_with(all.take(i as int), EtcFate::Drop),
            carried.deep_view() == paths_with(all.take(i as int), EtcFate::Carry),
            identity.deep_view() == paths_with(all.take(i as int), EtcFate::MergeIdentity),
            sidecars.deep_view() == sidecar_paths(all.take(i as int)),
        decreases states@.len() - i,
    {
        let st: &EtcPathState = &states[i];
        proof {
            assert(all.take(i + 1).drop_last() =~= all.take(i as int));
            assert(all.take(i + 1).last() == st.deep_view());
        }
        let fate: EtcFate = etc_fate(st);
        let displaced: bool = fate == EtcFate::TakeTarget || fate == EtcFate::Drop;
        add_path(&mut sidecars, &st.path, displaced && st.in_current && st.user_modified);
        add_path(&mut take_target, &st.path, fate == EtcFate::TakeTarget);
        add_path(&mut dropped, &st.path, fate == EtcFate::Drop);
        add_path(&mut carried, &st.path, fate == EtcFate::Carry);
        add_path(&mut identity, &st.path, fate == EtcFate::MergeIdentity);
        i = i + 1;
    }
    assert(all.take(i as int) =~= all);
    EtcCrossFamilyPlan {
        take_target: sort_unique(take_target.as_slice()),
        dropped: sort_unique(dropped.as_slice()),
        carried: sort_unique(carried.as_slice()),
        identity: sort_unique(identity.as_slice()),
        sidecars: sort_unique(sidecars.as_slice()),
    }
}

impl EtcCrossFamilyPlan {
    /// The decisions that make the merge carry out this plan: each replaced or
    /// dropped path takes the target's default. The others are left to the
    /// merge.
    pub fn overrides(&self) -> (r: EtcDriftManifest)
        ensures
            r.decisions.deep_view() == sorted_set(
                self.take_target.deep_view() + self.dropped.deep_view(),
            ).map_values(|p: Seq<char>| (p, false)),
    {
        let mut forced: Vec<String> = crate::text::compose::cloned_all(self.take_target.as_slice());
        let mut more: Vec<String> = crate::text::compose::cloned_all(self.dropped.as_slice());
        let ghost a = forced.deep_view();
        let ghost b = more.deep_view();
        forced.append(&mut more);
        assert(forced.deep_view() =~= a + b);
        let paths: Vec<String> = sort_unique(forced.as_slice());
        let mut decisions: Vec<(String, bool)> = Vec::new();
        let mut i: usize = 0;
        while i < paths.len()
            invariant
                i <= paths@.len(),
                decisions@.len() == i,
                forall|k: int|
                    0 <= k < i ==> (#[trigger] decisions@[k]).0@ == paths@[k]@ && decisions@[k].1
                        == false,
            decreases paths@.len() - i,
        {
            decisions.push((paths[i].clone(), false));
            i = i + 1;
        }
        assert(decisions.deep_view() =~= paths.deep_view().map_values(
            |p: Seq<char>| (p, false),
        ));
        EtcDriftManifest { decisions }
    }
}

/// One of the counts in the report.
pub open spec fn count_line(n: nat, what: Seq<char>) -> Seq<char> {
    "  "@ + decimal(n) + what
}

/// The lines that name the displaced paths.
pub open spec fn sidecar_lines(paths: Seq<Seq<char>>) -> Seq<char>
    decreases paths.len(),
{
    if paths.len() == 0 {
        Seq::empty()
    } else {
        sidecar_lines(paths.drop_last()) + ("    /etc/"@ + paths.last() + "\n"@)
    }
}

/// The report's part on the displaced paths.
pub open spec fn sidecar_report(paths: Seq<Seq<char>>) -> Seq<char> {
    if paths.len() == 0 {
        "  no user-modified path displaced\n"@
    } else {
        count_line(
            paths.len(),
            " user-modified path(s) displaced, each kept as <path>.rebase-old:\n"@,
        ) + sidecar_lines(paths)
    }
}

/// The report on the policy for `/etc`.
pub open spec fn etc_report(
    host: BaseInfoView,
    target: BaseInfoView,
    take_target: nat,
    dropped: nat,
    carried: nat,
    identity: nat,
    sidecars: Seq<Seq<char>>,
) -> Seq<char> {
    "=== Cross-family /etc policy report ===\n"@ + description(host) + " -> "@ + description(
        target,
    ) + "\n"@ + count_line(take_target, " path(s) take the target's default\n"@) + count_line(
        dropped,
        " source-vendor path(s) dropped\n"@,
    ) + count_line(carried, " machine-state / user-added path(s) carried verbatim\n"@)
        + count_line(identity, " identity database(s) union-merged target-first\n"@)
        + sidecar_report(sidecars)
}

/// Adds one of the counts.
fn add_count(out: &mut String, n: usize, what: &str)
    ensures
        final(out)@ == old(out)@ + count_line(n as nat, what@),
{
    let mut line: String = "  ".to_owned();
    line.append(decimal_of(n as u64).as_str());
    line.append(what);
    out.append(line.as_str());
}

/// The report's part on the displaced paths.
fn render_sidecars(paths: &[String]) -> (r: String)
    ensures
        r@ == sidecar_report(paths.deep_view()),
{
    let ghost all = paths.deep_view();
    if paths.len() == 0 {
        return "  no user-modified path displaced\n".to_owned();
    }
    let mut out: String = "  ".to_owned();
    out.append(decimal_of(paths.len() as u64).as_str());
    out.append(" user-modified path(s) displaced, each kept as <path>.rebase-old:\n");
    let ghost start = out@;
    let mut i: usize = 0;
    assert(out@ =~= start + sidecar_lines(all.take(0)));
    while i < paths.len()
        invariant
            all == paths.deep_view(),
            i <= paths@.len(),
            out@ == start + sidecar_lines(all.take(i as int)),
        decreases paths@.len() - i,
    {
        let mut line: String = "    /etc/".to_owned();
        line.append(paths[i].as_str());
        line.append("\n");
        out.append(line.as_str());
        proof {
            assert(all[i as int] == paths@[i as int]@);
            assert(all.take(i + 1).drop_last() =~= all.take(i as int));
            assert(all.take(i + 1).last() == all[i as int]);
            let a = sidecar_lines(all.take(i as int));
            assert((start + a) + line@ =~= start + (a + line@));
        }
        i = i + 1;
    }
    assert(all.take(i as int) =~= all);
    out
}

/// The report on the policy for `/etc`.
pub fn render_etc_report(host: &BaseInfo, target: &BaseInfo, plan: &EtcCrossFamilyPlan) -> (r:
    String)
    ensures
        r@ == etc_report(
            host.deep_view(),
            target.deep_view(),
            plan.take_target@.len(),
            plan.dropped@.len(),
            plan.carried@.len(),
            plan.identity@.len(),
            plan.sidecars.deep_view(),
        ),
{
    let mut out: String = "=== Cross-family /etc policy report ===\n".to_owned();
    out.append(describe(host).as_str());
    out.append(" -> ");
    out.append(describe(target).as_str());
    out.append("\n");
    add_count(&mut out, plan.take_target.len(), " path(s) take the target's default\n");
    add_count(&mut out, plan.dropped.len(), " source-vendor path(s) dropped\n");
    add_count(
        &mut out,
        plan.carried.len(),
        " machine-state / user-added path(s) carried verbatim\n",
    );
    add_count(&mut out, plan.identity.len(), " identity database(s) union-merged target-first\n");
    out.append(render_sidecars(plan.sidecars.as_slice()).as_str());
    out
}

/// Whether the writable trees need new labels on the first boot: the target
/// has a policy type and is not disabled, and the host had none, was disabled,
/// or had another.
pub open spec fn needs_relabel(
    host: Option<SelinuxConfigView>,
    target: Option<SelinuxConfigView>,
) -> bool {
    match target {
        None => false,
        Some(t) => {
            &&& t.selinux_type is Some
            &&& t.selinux_type->0.len() > 0
            &&& t.selinux != Some("disabled"@)
            &&& match host {
                None => true,
                Some(h) => h.selinux == Some("disabled"@) || h.selinux_type != t.selinux_type,
            }
        },
    }
}

/// What an optional configuration holds.
pub open spec fn config_view(c: Option<&SelinuxConfig>) -> Option<SelinuxConfigView> {
    match c {
        Some(x) => Some(x.deep_view()),
        None => None,
    }
}

/// Whether the optional text is `s`.
fn opt_is(o: &Option<String>, s: &str) -> (r: bool)
    ensures
        r == (o.deep_view() == Some(s@)),
{
    match o {
        Some(x) => same(x.as_str(), s),
        None => false,
    }
}

/// Whether the writable trees need new labels on the first boot.
pub fn relabel_needed(host: Option<&SelinuxConfig>, target: Option<&SelinuxConfig>) -> (r: bool)
    ensures
        r == needs_relabel(config_view(host), config_view(target)),
{
    match target {
        None => false,
        Some(t) => match &t.selinux_type {
            None => false,
            Some(ty) => {
                if ty.as_str().is_empty() || opt_is(&t.selinux, "disabled") {
                    return false;
                }
                match host {
                    None => true,
                    Some(h) => opt_is(&h.selinux, "disabled") || !opt_is(
                        &h.selinux_type,
                        ty.as_str(),
                    ),
                }
            },
        },
    }
}

/// The name of the unit that finishes the re-base on the first boot.
pub const FIRSTBOOT_UNIT: &'static str = "bootc-migrate-cross-family-firstboot.service";

/// What arms the unit, relative to `/etc`. The unit removes it at the end.
pub const FIRSTBOOT_MARKER: &'static str = "bootc-migrate/cross-family-firstboot";

/// The name of the record in the deployment directory.
pub const REPORT_FILE: &'static str = "bootc-migrate-cross-family-report.json";

/// The line of the unit that carries out one pass over `/var`.
pub open spec fn chown_line_of(step: RemapStep) -> Seq<char> {
    match step.kind {
        IdKind::Uid => "ExecStart=/usr/bin/chown -hR --from="@ + decimal(step.from as nat) + " "@
            + decimal(step.to as nat) + " /var"@,
        IdKind::Gid => "ExecStart=/usr/bin/chown -hR --from=:"@ + decimal(step.from as nat) + " :"@
            + decimal(step.to as nat) + " /var"@,
    }
}

/// The lines of the unit that carry out the passes.
pub open spec fn chown_lines(steps: Seq<RemapStep>) -> Seq<char>
    decreases steps.len(),
{
    if steps.len() == 0 {
        Seq::empty()
    } else {
        chown_lines(steps.drop_last()) + (chown_line_of(steps.last()) + "\n"@)
    }
}

/// The unit that carries out the passes over `/var` and sets the labels.
pub open spec fn firstboot_unit(steps: Seq<RemapStep>, relabel: bool) -> Seq<char> {
    "[Unit]\nDescription=bootc-migrate cross-family first boot (UID/GID remap, SELinux relabel)\nConditionPathExists=/etc/bootc-migrate/cross-family-firstboot\nDefaultDependencies=no\nAfter=local-fs.target\nBefore=sysinit.target\n\n[Service]\nType=oneshot\nRemainAfterExit=no\n"@
        + chown_lines(steps) + (if relabel {
        "ExecStart=-/usr/sbin/restorecon -RF /etc /var\n"@
    } else {
        Seq::empty()
    })
        + "ExecStart=/usr/bin/rm -f /etc/bootc-migrate/cross-family-firstboot\n\n[Install]\nWantedBy=sysinit.target\n"@
}

/// The line of the unit that carries out one pass over `/var`.
fn chown_line(step: &RemapStep) -> (r: String)
    ensures
        r@ == chown_line_of(*step),
{
    match step.kind {
        IdKind::Uid => {
            let mut s: String = "ExecStart=/usr/bin/chown -hR --from=".to_owned();
            s.append(decimal_of(step.from as u64).as_str());
            s.append(" ");
            s.append(decimal_of(step.to as u64).as_str());
            s.append(" /var");
            s
        },
        IdKind::Gid => {
            let mut s: String = "ExecStart=/usr/bin/chown -hR --from=:".to_owned();
            s.append(decimal_of(step.from as u64).as_str());
            s.append(" :");
            s.append(decimal_of(step.to as u64).as_str());
            s.append(" /var");
            s
        },
    }
}

/// The unit that finishes the re-base on the first boot, or `None` where there
/// is nothing left to do.
pub fn render_firstboot_unit(var_steps: &[RemapStep], relabel: bool) -> (r: Option<String>)
    ensures
        r.deep_view() == (if var_steps@.len() == 0 && !relabel {
            None
        } else {
            Some(firstboot_unit(var_steps@, relabel))
        }),
{
    if var_steps.len() == 0 && !relabel {
        return None;
    }
    let mut unit: String = "[Unit]\nDescription=bootc-migrate cross-family first boot (UID/GID remap, SELinux relabel)\nConditionPathExists=/etc/bootc-migrate/cross-family-firstboot\nDefaultDependencies=no\nAfter=local-fs.target\nBefore=sysinit.target\n\n[Service]\nType=oneshot\nRemainAfterExit=no\n".to_owned();
    let ghost start = unit@;
    let mut i: usize = 0;
    assert(unit@ =~= start + chown_lines(var_steps@.take(0)));
    while i < var_steps.len()
        invariant
            i <= var_steps@.len(),
            unit@ == start + chown_lines(var_steps@.take(i as int)),
        decreases var_steps@.len() - i,
    {
        let mut line: String = chown_line(&var_steps[i]);
        line.append("\n");
        unit.append(line.as_str());
        proof {
            assert(var_steps@.take(i + 1).drop_last() =~= var_steps@.take(i as int));
            assert(var_steps@.take(i + 1).last() == var_steps@[i as int]);
            let a = chown_lines(var_steps@.take(i as int));
            assert((start + a) + line@ =~= start + (a + line@));
        }
        i = i + 1;
    }
    assert(var_steps@.take(i as int) =~= var_steps@);
    if relabel {
        unit.append("ExecStart=-/usr/sbin/restorecon -RF /etc /var\n");
    } else {
        assert(unit@ + Seq::<char>::empty() =~= unit@);
    }
    unit.append("ExecStart=/usr/bin/rm -f /etc/bootc-migrate/cross-family-firstboot\n\n[Install]\nWantedBy=sysinit.target\n");
    Some(unit)
}

/// The steps that install the unit in a staged `/etc`, enable it and arm it.
/// `link_present` says whether something stands where the link goes.
pub open spec fn firstboot_steps(
    etc_dir: Seq<char>,
    unit: Seq<char>,
    link_present: bool,
) -> Seq<StepView> {
    let unit_dir = join_path(etc_dir, "systemd/system"@);
    let wants_dir = join_path(unit_dir, "sysinit.target.wants"@);
    let link = join_path(wants_dir, "bootc-migrate-cross-family-firstboot.service"@);
    let marker = join_path(etc_dir, "bootc-migrate/cross-family-firstboot"@);
    seq![
        StepView::MakeDir { path: unit_dir, context: "failed to create "@ + unit_dir },
        StepView::Write {
            path: join_path(unit_dir, "bootc-migrate-cross-family-firstboot.service"@),
            contents: unit,
            context: "failed to write bootc-migrate-cross-family-firstboot.service"@,
        },
        StepView::MakeDir { path: wants_dir, context: ""@ },
    ] + (if link_present {
        seq![StepView::Delete { path: link, context: ""@ }]
    } else {
        Seq::empty()
    }) + seq![
        StepView::Link {
            target: "../bootc-migrate-cross-family-firstboot.service"@,
            path: link,
            context: "failed to enable bootc-migrate-cross-family-firstboot.service"@,
        },
        StepView::MakeDir { path: join_path(etc_dir, "bootc-migrate"@), context: ""@ },
        StepView::Write {
            path: marker,
            contents: "armed by bootc-migrate; removed by the first-boot unit\n"@,
            context: "failed to write "@ + marker,
        },
    ]
}

/// The steps that install the unit in a staged `/etc`, enable it and arm it.
pub fn install_firstboot_unit(etc_dir: &str, unit: &str, link_present: bool) -> (r: Vec<Step>)
    ensures
        r.deep_view() == firstboot_steps(etc_dir@, unit@, link_present),
{
    let unit_dir: String = path_join(etc_dir, "systemd/system");
    let wants_dir: String = path_join(unit_dir.as_str(), "sysinit.target.wants");
    let unit_path: String = path_join(
        unit_dir.as_str(),
        "bootc-migrate-cross-family-firstboot.service",
    );
    let at: String = path_join(wants_dir.as_str(), "bootc-migrate-cross-family-firstboot.service");
    let marker: String = path_join(etc_dir, "bootc-migrate/cross-family-firstboot");
    let marker_dir: String = path_join(etc_dir, "bootc-migrate");
    let mut making: String = "failed to create ".to_owned();
    making.append(unit_dir.as_str());
    let mut arming: String = "failed to write ".to_owned();
    arming.append(marker.as_str());
    let mut r: Vec<Step> = Vec::new();
    r.push(make_dir(unit_dir.as_str(), making.as_str()));
    r.push(
        write_file(
            unit_path.as_str(),
            unit,
            "failed to write bootc-migrate-cross-family-firstboot.service",
        ),
    );
    r.push(make_dir(wants_dir.as_str(), ""));
    if link_present {
        r.push(Step::Delete { path: at.clone(), context: "".to_owned() });
    }
    r.push(
        link(
            "../bootc-migrate-cross-family-firstboot.service",
            at.as_str(),
            "failed to enable bootc-migrate-cross-family-firstboot.service",
        ),
    );
    r.push(make_dir(marker_dir.as_str(), ""));
    r.push(
        write_file(
            marker.as_str(),
            "armed by bootc-migrate; removed by the first-boot unit\n",
            arming.as_str(),
        ),
    );
    assert(r.deep_view() =~= firstboot_steps(etc_dir@, unit@, link_present));
    r
}

/// What the merge of `/etc` learned from the target while it was mounted.
#[derive(Debug, Clone, PartialEq, Eq)]
pub struct CrossFamilyEtcOutcome {
    pub plan: CrossFamilyPlan,
    pub etc_plan: EtcCrossFamilyPlan,
    pub target_passwd: String,
    pub target_group: String,
    pub target_selinux: Option<SelinuxConfig>,
}

/// Where the staged `/var` is.
#[derive(Debug, Clone, Copy, PartialEq, Eq)]
pub enum StagedVar<'a> {
    /// Copied to the given place: it is renumbered before the reboot.
    Copied(&'a str),
    /// A filesystem of its own, in use by the running system: the first boot
    /// renumbers it.
    InPlace,
    /// Renumbered by an earlier run: a second time would undo it.
    PreviouslyStaged,
}

/// What is needed once `/etc` is merged.
#[derive(Debug)]
pub struct PostMergeInputs<'a> {
    pub etc_outcome: &'a CrossFamilyEtcOutcome,
    pub staged_var: StagedVar<'a>,
    pub host_selinux: Option<SelinuxConfig>,
    pub source_passwd: &'a str,
    pub source_group: &'a str,
}

/// What is done once `/etc` is merged.
#[derive(Debug, Clone, PartialEq, Eq)]
pub struct PostMergePlan {
    pub remap: RemapPlan,
    /// Whether the passes run over `/var` before the reboot. They always run
    /// over the staged `/etc`.
    pub renumber_var_now: bool,
    /// Whether the first boot runs the passes over `/var`.
    pub var_remap_deferred: bool,
    pub relabel_scheduled: bool,
    /// The unit for the first boot, where it has something to do.
    pub firstboot_unit: Option<String>,
}

/// What is done once `/etc` is merged: the accounts are renumbered, in `/var`
/// before the reboot only where it was copied, and what is left is put into
/// the unit of the first boot.
pub fn plan_post_merge(inputs: &PostMergeInputs<'_>) -> (r: PostMergePlan)
    requires
        plannable(
            inputs.source_passwd@,
            inputs.source_group@,
            inputs.etc_outcome.target_passwd@,
            inputs.etc_outcome.target_group@,
        ),
    ensures
        is_plan_for(
            r.remap,
            inputs.source_passwd@,
            inputs.source_group@,
            inputs.etc_outcome.target_passwd@,
            inputs.etc_outcome.target_group@,
        ),
        r.renumber_var_now == (inputs.staged_var is Copied),
        r.var_remap_deferred == (inputs.staged_var is InPlace && r.remap.steps@.len() > 0),
        r.relabel_scheduled == needs_relabel(
            inputs.host_selinux.deep_view(),
            inputs.etc_outcome.target_selinux.deep_view(),
        ),
        r.firstboot_unit.deep_view() == ({
            let steps = if r.var_remap_deferred {
                r.remap.steps@
            } else {
                Seq::empty()
            };
            if steps.len() == 0 && !r.relabel_scheduled {
                None
            } else {
                Some(firstboot_unit(steps, r.relabel_scheduled))
            }
        }),
{
    let remap: RemapPlan = plan_from_tables(
        inputs.source_passwd,
        inputs.source_group,
        inputs.etc_outcome.target_passwd.as_str(),
        inputs.etc_outcome.target_group.as_str(),
    );
    let (renumber_var_now, var_remap_deferred): (bool, bool) = match inputs.staged_var {
        StagedVar::Copied(_) => (true, false),
        StagedVar::InPlace => (false, remap.steps.len() > 0),
        StagedVar::PreviouslyStaged => (false, false),
    };
    let relabel_scheduled: bool = relabel_needed(
        inputs.host_selinux.as_ref(),
        inputs.etc_outcome.target_selinux.as_ref(),
    );
    let none: Vec<RemapStep> = Vec::new();
    let firstboot_unit: Option<String> = if var_remap_deferred {
        render_firstboot_unit(remap.steps.as_slice(), relabel_scheduled)
    } else {
        render_firstboot_unit(none.as_slice(), relabel_scheduled)
    };
    PostMergePlan { remap, renumber_var_now, var_remap_deferred, relabel_scheduled, firstboot_unit }
}

/// The line on what was renumbered before the reboot.
pub open spec fn renumbered_line(n: nat) -> Seq<char> {
    "[phase4] cross-family remap: "@ + decimal(n) + " file(s)/dir(s) renumbered"@
}

/// The line on a `/var` that is renumbered later.
pub open spec fn deferred_line() -> Seq<char> {
    "[phase4] /var is a dedicated filesystem still in use by this system; its renumbering runs from the first-boot unit instead"@
}

/// The line on the unit of the first boot.
pub open spec fn installed_line(relabel: bool, var_steps: nat) -> Seq<char> {
    "[phase4] installed bootc-migrate-cross-family-firstboot.service (relabel: "@ + (if relabel {
        "true"@
    } else {
        "false"@
    }) + ", deferred /var remap steps: "@ + decimal(var_steps) + ")"@
}

/// What is said once the passes have run, and what once the unit is in place.
pub fn post_merge_lines(plan: &PostMergePlan, rechowned_now: usize) -> (r: (
    Vec<String>,
    Option<String>,
))
    ensures
        r.0.deep_view() == (if rechowned_now > 0 {
            seq![renumbered_line(rechowned_now as nat)]
        } else {
            Seq::empty()
        }) + (if plan.var_remap_deferred {
            seq![deferred_line()]
        } else {
            Seq::empty()
        }),
        r.1.deep_view() == (if plan.firstboot_unit is Some {
            Some(
                installed_line(
                    plan.relabel_scheduled,
                    if plan.var_remap_deferred {
                        plan.remap.steps@.len()
                    } else {
                        0
                    },
                ),
            )
        } else {
            None
        }),
{
    let mut passes: Vec<String> = Vec::new();
    if rechowned_now > 0 {
        let mut m: String = "[phase4] cross-family remap: ".to_owned();
        m.append(decimal_of(rechowned_now as u64).as_str());
        m.append(" file(s)/dir(s) renumbered");
        passes.push(m);
    }
    if plan.var_remap_deferred {
        passes.push(
            "[phase4] /var is a dedicated filesystem still in use by this system; its renumbering runs from the first-boot unit instead".to_owned(),
        );
    }
    assert(passes.deep_view() =~= (if rechowned_now > 0 {
        seq![renumbered_line(rechowned_now as nat)]
    } else {
        Seq::empty()
    }) + (if plan.var_remap_deferred {
        seq![deferred_line()]
    } else {
        Seq::empty()
    }));
    let installed: Option<String> = if plan.firstboot_unit.is_some() {
        let var_steps: usize = if plan.var_remap_deferred {
            plan.remap.steps.len()
        } else {
            0
        };
        let mut m: String =
            "[phase4] installed bootc-migrate-cross-family-firstboot.service (relabel: ".to_owned();
        if plan.relabel_scheduled {
            m.append("true");
        } else {
            m.append("false");
        }
        m.append(", deferred /var remap steps: ");
        m.append(decimal_of(var_steps as u64).as_str());
        m.append(")");
        Some(m)
    } else {
        None
    };
    (passes, installed)
}

/// The record of what was done.
#[derive(Debug, Clone)]
pub struct CrossFamilyReport {
    pub host: BaseInfo,
    pub target: BaseInfo,
    pub etc: EtcCrossFamilyPlan,
    pub remap: RemapPlan,
    /// Files and directories renumbered before the reboot.
    pub rechowned_now: usize,
    pub var_remap_deferred: bool,
    pub relabel_scheduled: bool,
    pub firstboot_unit_installed: bool,
}

/// The record of what was done, once the passes have run.
pub fn post_merge_report(
    outcome: CrossFamilyEtcOutcome,
    plan: PostMergePlan,
    rechowned_now: usize,
) -> (r: CrossFamilyReport)
    ensures
        r.host == outcome.plan.host,
        r.target == outcome.plan.target,
        r.etc == outcome.etc_plan,
        r.remap == plan.remap,
        r.rechowned_now == rechowned_now,
        r.var_remap_deferred == plan.var_remap_deferred,
        r.relabel_scheduled == plan.relabel_scheduled,
        r.firstboot_unit_installed == (plan.firstboot_unit is Some),
{
    CrossFamilyReport {
        host: outcome.plan.host,
        target: outcome.plan.target,
        etc: outcome.etc_plan,
        firstboot_unit_installed: plan.firstboot_unit.is_some(),
        remap: plan.remap,
        rechowned_now,
        var_remap_deferred: plan.var_remap_deferred,
        relabel_scheduled: plan.relabel_scheduled,
    }
}

/// A path with the fate is among the paths with it.
pub proof fn lemma_paths_with(states: Seq<EtcPathStateView>, fate: EtcFate)
    ensures
        forall|p: Seq<char>|
            #[trigger] paths_with(states, fate).contains(p) <==> exists|k: int|
                0 <= k < states.len() && (#[trigger] states[k]).path == p && fate_of(states[k])
                    == fate,
    decreases states.len(),
{
    if states.len() > 0 {
        let d = states.drop_last();
        let rest = paths_with(d, fate);
        let all = paths_with(states, fate);
        lemma_paths_with(d, fate);
        assert forall|p: Seq<char>| #[trigger] all.contains(p) <==> exists|k: int|
            0 <= k < states.len() && (#[trigger] states[k]).path == p && fate_of(states[k])
                == fate by {
            if all.contains(p) {
                let m = choose|m: int| 0 <= m < all.len() && all[m] == p;
                if m < rest.len() {
                    assert(rest[m] == p);
                    assert(rest.contains(p));
                    let k = choose|k: int|
                        0 <= k < d.len() && (#[trigger] d[k]).path == p && fate_of(d[k]) == fate;
                    assert(states[k] == d[k]);
                } else {
                    assert(states[states.len() - 1].path == p);
                }
            }
            if exists|k: int|
                0 <= k < states.len() && (#[trigger] states[k]).path == p && fate_of(states[k])
                    == fate {
                let k = choose|k: int|
                    0 <= k < states.len() && (#[trigger] states[k]).path == p && fate_of(states[k])
                        == fate;
                if k < d.len() {
                    assert(d[k] == states[k]);
                    assert(rest.contains(p));
                    let m = choose|m: int| 0 <= m < rest.len() && rest[m] == p;
                    assert(all[m] == p);
                } else {
                    assert(all[all.len() - 1] == p);
                }
            }
        }
    } else {
        assert(paths_with(states, fate) =~= Seq::empty());
    }
}

/// A path that gets a sidecar is among those that do.
pub proof fn lemma_sidecar_paths(states: Seq<EtcPathStateView>, k: int)
    requires
        0 <= k < states.len(),
        gets_sidecar(states[k]),
    ensures
        sidecar_paths(states).contains(states[k].path),
    decreases states.len(),
{
    let d = states.drop_last();
    let all = sidecar_paths(states);
    if k < d.len() {
        assert(d[k] == states[k]);
        lemma_sidecar_paths(d, k);
        let rest = sidecar_paths(d);
        let m = choose|m: int| 0 <= m < rest.len() && rest[m] == states[k].path;
        assert(all[m] == states[k].path);
    } else {
        assert(all[all.len() - 1] == states[k].path);
    }
}

/// Nothing of the user's is destroyed: a path that the host has and the user
/// changed is carried over, merged, or kept beside its replacement.
pub proof fn law_users_changes_survive(states: Seq<EtcPathStateView>, k: int)
    requires
        0 <= k < states.len(),
        states[k].in_current,
        states[k].user_modified,
    ensures
        ({
            let p = states[k].path;
            ||| sorted_set(paths_with(states, EtcFate::Carry)).contains(p)
            ||| sorted_set(paths_with(states, EtcFate::MergeIdentity)).contains(p)
            ||| sorted_set(sidecar_paths(states)).contains(p)
        }),
{
    let p = states[k].path;
    lemma_sorted_set(paths_with(states, EtcFate::Carry));
    lemma_sorted_set(paths_with(states, EtcFate::MergeIdentity));
    lemma_sorted_set(sidecar_paths(states));
    lemma_paths_with(states, EtcFate::Carry);
    lemma_paths_with(states, EtcFate::MergeIdentity);
    if fate_of(states[k]) == EtcFate::Carry {
        assert(paths_with(states, EtcFate::Carry).contains(p));
        assert(paths_with(states, EtcFate::Carry).to_set().contains(p));
        assert(sorted_set(paths_with(states, EtcFate::Carry)).to_set().contains(p));
    } else if fate_of(states[k]) == EtcFate::MergeIdentity {
        assert(paths_with(states, EtcFate::MergeIdentity).contains(p));
        assert(paths_with(states, EtcFate::MergeIdentity).to_set().contains(p));
        assert(sorted_set(paths_with(states, EtcFate::MergeIdentity)).to_set().contains(p));
    } else {
        lemma_sidecar_paths(states, k);
        assert(sidecar_paths(states).to_set().contains(p));
        assert(sorted_set(sidecar_paths(states)).to_set().contains(p));
    }
}

/// Machine state and the account databases are never replaced or dropped.
pub proof fn law_machine_state_is_never_displaced(st: EtcPathStateView)
    requires
        carried_over(st.path) || identity_db(st.path),
    ensures
        fate_of(st) != EtcFate::TakeTarget,
        fate_of(st) != EtcFate::Drop,
        !gets_sidecar(st),
{
}

/// Whether no two states are of one path.
pub open spec fn distinct_paths(states: Seq<EtcPathStateView>) -> bool {
    forall|i: int, j: int|
        0 <= i < j < states.len() ==> (#[trigger] states[i]).path != (#[trigger] states[j]).path
}

/// A path in the sorted list is one of the texts sorted.
proof fn lemma_sorted_contains(s: Seq<Seq<char>>, p: Seq<char>)
    ensures
        sorted_set(s).contains(p) <==> s.contains(p),
{
    lemma_sorted_set(s);
    assert(sorted_set(s).to_set().contains(p) == s.to_set().contains(p));
}

/// Each path has one fate: where the paths are distinct, no path stands in two
/// of the lists.
pub proof fn law_each_path_has_one_fate(
    states: Seq<EtcPathStateView>,
    a: EtcFate,
    b: EtcFate,
    p: Seq<char>,
)
    requires
        distinct_paths(states),
        a != b,
        sorted_set(paths_with(states, a)).contains(p),
    ensures
        !sorted_set(paths_with(states, b)).contains(p),
{
    lemma_sorted_contains(paths_with(states, a), p);
    lemma_sorted_contains(paths_with(states, b), p);
    lemma_paths_with(states, a);
    lemma_paths_with(states, b);
    let i = choose|i: int|
        0 <= i < states.len() && (#[trigger] states[i]).path == p && fate_of(states[i]) == a;
    if paths_with(states, b).contains(p) {
        let j = choose|j: int|
            0 <= j < states.len() && (#[trigger] states[j]).path == p && fate_of(states[j]) == b;
        assert(i != j);
        if i < j {
            assert(states[i].path != states[j].path);
        } else {
            assert(states[j].path != states[i].path);
        }
    }
}

/// The decision for a path is found where the path is listed.
proof fn lemma_decision_for(paths: Seq<Seq<char>>, p: Seq<char>)
    ensures
        decision_for(paths.map_values(|x: Seq<char>| (x, false)), p) == (if paths.contains(p) {
            Some(false)
        } else {
            None
        }),
    decreases paths.len(),
{
    let all = paths.map_values(|x: Seq<char>| (x, false));
    if paths.len() > 0 {
        let rest = paths.skip(1);
        assert(all.skip(1) =~= rest.map_values(|x: Seq<char>| (x, false)));
        lemma_decision_for(rest, p);
        if paths[0] != p && paths.contains(p) {
            let k = choose|k: int| 0 <= k < paths.len() && paths[k] == p;
            assert(rest[k - 1] == p);
        }
        if rest.contains(p) {
            let k = choose|k: int| 0 <= k < rest.len() && rest[k] == p;
            assert(paths[k + 1] == p);
        }
    }
}

/// Every replaced or dropped path, and only those, is forced to the target's
/// default.
pub proof fn law_overrides_are_the_displaced_paths(
    take_target: Seq<Seq<char>>,
    dropped: Seq<Seq<char>>,
    p: Seq<char>,
)
    ensures
        decision_for(
            sorted_set(take_target + dropped).map_values(|x: Seq<char>| (x, false)),
            p,
        ) == (if take_target.contains(p) || dropped.contains(p) {
            Some(false)
        } else {
            None
        }),
{
    let both = take_target + dropped;
    lemma_decision_for(sorted_set(both), p);
    lemma_sorted_contains(both, p);
    if both.contains(p) {
        let k = choose|k: int| 0 <= k < both.len() && both[k] == p;
        if k < take_target.len() {
            assert(take_target[k] == p);
        } else {
            assert(dropped[k - take_target.len()] == p);
        }
    }
    if take_target.contains(p) {
        let k = choose|k: int| 0 <= k < take_target.len() && take_target[k] == p;
        assert(both[k] == p);
    }
    if dropped.contains(p) {
        let k = choose|k: int| 0 <= k < dropped.len() && dropped[k] == p;
        assert(both[take_target.len() + k] == p);
    }
}

} // verus!

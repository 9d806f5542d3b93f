//! Laws of a re-base, from its first check to the deployment that boots next.

use vstd::prelude::*;

use crate::preflight::PreflightReport;
use crate::preflight::readiness::MigrationGateView;
use crate::preflight::system_info::PendingTransactionStatus;
use crate::rebase_controller::{
    bare_image, booted_verity, composefs_argument, core_moves, deploy_moves, early_labels,
    finalize_moves, gate_verdict, is_one_line, latest_other, ostree_refusal, staged_verity,
    staging_verdict, state_after, swap_moves, transports, without_prefix, RebaseActionView,
};
use crate::rebase_plan::Backend;
use crate::text::paths::join_path;
use crate::text::pieces::{fields, lines, trim, trim_start_char};
use crate::text::search::{begins, finishes, holds, occurs_at, past};

verus! {

/// Where nobody can be asked, a migration goes on exactly where its gate says so;
/// a refusal keeps its own words.
pub proof fn law_unattended_gate(gate: MigrationGateView)
    ensures
        gate_verdict(gate) is Ok <==> gate is Proceed,
        gate matches MigrationGateView::Refuse(m) ==> gate_verdict(gate) == Err::<(), Seq<char>>(m),
{
}

/// Whether the one move is made, and the other at some time after it.
pub open spec fn follows(
    moves: Seq<RebaseActionView>,
    a: RebaseActionView,
    b: RebaseActionView,
) -> bool {
    exists|i: int, j: int| 0 <= i < j < moves.len() && #[trigger] moves[i] == a && #[trigger] moves[j]
        == b
}

/// The image is switched to once the host was found to be an OSTree one, its base
/// was compared, and the configuration of the desktop was set aside. What the new
/// base needs comes behind the switch, then what belongs to the new desktop, and
/// the finalization at the end.
pub proof fn law_way_of_a_deployment(image: Seq<char>)
    ensures
        ({
            let m = deploy_moves(image, false);
            &&& follows(m, RebaseActionView::CheckSystem, RebaseActionView::RequireOstree)
            &&& follows(m, RebaseActionView::RequireOstree, RebaseActionView::GateBase)
            &&& follows(m, RebaseActionView::GateBase, RebaseActionView::PlanDesktop)
            &&& follows(m, RebaseActionView::PlanDesktop, RebaseActionView::PreSwitch)
            &&& follows(m, RebaseActionView::PreSwitch, RebaseActionView::Switch)
            &&& follows(m, RebaseActionView::Switch, RebaseActionView::ApplyCrossBase)
            &&& follows(m, RebaseActionView::ApplyCrossBase, RebaseActionView::PostSwitch)
            &&& follows(m, RebaseActionView::PostSwitch, RebaseActionView::Finalize)
            &&& m.contains(RebaseActionView::NoteBootloader)
            &&& m.contains(RebaseActionView::WarnIdentityGap)
        }),
{
    let m = deploy_moves(image, false);
    assert(m[1] == RebaseActionView::CheckSystem);
    assert(m[2] == RebaseActionView::RequireOstree);
    assert(m[3] == RebaseActionView::NoteBootloader);
    assert(m[4] == RebaseActionView::GateBase);
    assert(m[5] == RebaseActionView::WarnIdentityGap);
    assert(m[6] == RebaseActionView::PlanDesktop);
    assert(m[8] == RebaseActionView::PreSwitch);
    assert(m[9] == RebaseActionView::Switch);
    assert(m[10] == RebaseActionView::ApplyCrossBase);
    assert(m[11] == RebaseActionView::PostSwitch);
    assert(m[12] == RebaseActionView::Finalize);
}

/// The image of a composefs host is swapped once the host was found to be one and
/// the target's family was accepted or found to be its own. The files are labelled
/// anew behind the switch, and the finalization comes at the end.
pub proof fn law_way_of_a_swap(image: Seq<char>, accepted: bool)
    ensures
        ({
            let m = swap_moves(image, false, accepted);
            let family = RebaseActionView::GateFamily { accepted };
            &&& follows(m, RebaseActionView::RequireComposefs, family)
            &&& follows(m, family, RebaseActionView::PlanDesktop)
            &&& follows(m, RebaseActionView::PlanDesktop, RebaseActionView::PreSwitch)
            &&& follows(m, RebaseActionView::PreSwitch, RebaseActionView::Switch)
            &&& follows(m, RebaseActionView::Switch, RebaseActionView::PostSwitch)
            &&& follows(m, RebaseActionView::PostSwitch, RebaseActionView::ScheduleRelabel)
            &&& follows(m, RebaseActionView::ScheduleRelabel, RebaseActionView::Finalize)
            &&& (exists|i: int| 0 <= i < m.len() && (#[trigger] m[i]) is Warn) <==> accepted
        }),
{
    let m = swap_moves(image, false, accepted);
    let w: int = if accepted {
        1
    } else {
        0
    };
    assert(m[1] == RebaseActionView::RequireComposefs);
    assert(m[2] == RebaseActionView::GateFamily { accepted });
    if accepted {
        assert(m[3] is Warn);
    }
    assert(m[3 + w] == RebaseActionView::PlanDesktop);
    assert(m[5 + w] == RebaseActionView::PreSwitch);
    assert(m[6 + w] == RebaseActionView::Switch);
    assert(m[7 + w] == RebaseActionView::PostSwitch);
    assert(m[8 + w] == RebaseActionView::ScheduleRelabel);
    assert(m[9 + w] == RebaseActionView::Finalize);
}

/// A conversion migrates once its gates are passed and the configuration of the
/// desktop was set aside; in a dry run it does the same up to the desktop, and
/// only shows what would be done.
pub proof fn law_way_of_a_conversion(image: Seq<char>, dry_run: bool, accepted: bool)
    ensures
        ({
            let m = core_moves(image, dry_run, accepted);
            let family = RebaseActionView::GateFamily { accepted };
            let migrate = RebaseActionView::Migrate { dry_run };
            &&& follows(m, RebaseActionView::CheckSystem, RebaseActionView::ShowReadiness)
            &&& follows(m, RebaseActionView::ShowReadiness, RebaseActionView::GateMigration)
            &&& follows(m, RebaseActionView::GateMigration, family)
            &&& follows(m, family, RebaseActionView::PlanDesktop)
            &&& follows(m, RebaseActionView::PlanDesktop, migrate)
            &&& !dry_run ==> follows(m, RebaseActionView::PlanDesktop, RebaseActionView::PreSwitch)
            &&& !dry_run ==> follows(m, RebaseActionView::PreSwitch, migrate)
            &&& !dry_run ==> follows(m, migrate, RebaseActionView::PostSwitch)
            &&& dry_run ==> follows(m, RebaseActionView::PlanDesktop, RebaseActionView::PreviewDesktop)
        }),
{
    let m = core_moves(image, dry_run, accepted);
    let d: int = if dry_run {
        1
    } else {
        0
    };
    assert(m[1 + d] == RebaseActionView::CheckSystem);
    assert(m[2 + d] == RebaseActionView::ShowReadiness);
    assert(m[3 + d] == RebaseActionView::GateMigration);
    assert(m[4 + d] == RebaseActionView::GateFamily { accepted });
    assert(m[5 + d] == RebaseActionView::PlanDesktop);
    if dry_run {
        assert(m[6 + d] == RebaseActionView::PreviewDesktop);
    } else {
        assert(m[6 + d] == RebaseActionView::PreSwitch);
    }
    assert(m[8 + d] == RebaseActionView::Migrate { dry_run });
    if !dry_run {
        assert(m[9 + d] == RebaseActionView::PostSwitch);
    }
}

/// A dry run makes the same checks as the run itself, in the same order.
pub proof fn law_dry_runs_check_the_same(image: Seq<char>, accepted: bool, n: int)
    ensures
        0 <= n < 7 ==> deploy_moves(image, true)[n + 1] == deploy_moves(image, false)[n],
        0 <= n < 4 ==> swap_moves(image, true, accepted)[n + 1] == swap_moves(
            image,
            false,
            accepted,
        )[n],
        0 <= n < 6 ==> core_moves(image, true, accepted)[n + 1] == core_moves(
            image,
            false,
            accepted,
        )[n],
{
}

/// An OSTree re-base is refused exactly where it was not insisted on and the host
/// has no OSTree deployment booted, or an update is under way that was not to be
/// passed over.
pub proof fn law_when_an_ostree_rebase_is_refused(
    report: PreflightReport,
    force: bool,
    skip_preflight: bool,
)
    ensures
        ostree_refusal(report, force, skip_preflight) is Some <==> !force && !(
        report.booted_backend == Some(Backend::Ostree) && (report.pending_transaction
            == PendingTransactionStatus::Clean || skip_preflight)),
{
}

proof fn lemma_past(image: Seq<char>)
    requires
        !holds(image, "://"@),
    ensures
        past(image, "://"@) is None,
    decreases image.len(),
{
    reveal_strlit("://");
    if image.len() >= 3 {
        if begins(image, "://"@) {
            assert(image.subrange(0, 3) =~= image.take(3));
            assert(occurs_at(image, "://"@, 0));
        }
        let d = image.skip(1);
        if holds(d, "://"@) {
            let i = choose|i: int| occurs_at(d, "://"@, i);
            assert(d.subrange(i, i + 3) =~= image.subrange(i + 1, i + 4));
            assert(occurs_at(image, "://"@, i + 1));
        }
        lemma_past(d);
    }
}

/// A transport before an image makes no difference to it, and an image with none
/// is left as it is.
pub proof fn law_transports_do_not_count(image: Seq<char>)
    ensures
        !holds("ostree-unverified-registry:"@ + image, "://"@) ==> bare_image(
            "ostree-unverified-registry:"@ + image,
        ) == image,
        !holds("ostree-image-signed:"@ + image, "://"@) ==> bare_image(
            "ostree-image-signed:"@ + image,
        ) == image,
        !holds("ostree-remote-registry:"@ + image, "://"@) ==> bare_image(
            "ostree-remote-registry:"@ + image,
        ) == image,
        !holds("containers-storage:"@ + image, "://"@) ==> bare_image(
            "containers-storage:"@ + image,
        ) == image,
        !holds("registry:"@ + image, "://"@) ==> bare_image("registry:"@ + image) == image,
        !image.contains(':') ==> bare_image(image) == image,
{
    reveal_strlit("ostree-unverified-registry:");
    reveal_strlit("ostree-image-signed:");
    reveal_strlit("ostree-remote-registry:");
    reveal_strlit("containers-storage:");
    reveal_strlit("registry:");
    let ts = transports();
    let a = "ostree-unverified-registry:"@;
    let b = "ostree-image-signed:"@;
    let c = "ostree-remote-registry:"@;
    let d = "containers-storage:"@;
    let e = "registry:"@;
    assert(a[7] == 'u' && b[7] == 'i' && c[7] == 'r' && d[7] == 'e' && e[7] == 'y');
    assert(ts[0] == a && ts[1] == b && ts[2] == c && ts[3] == d && ts[4] == e);
    lemma_without(image, ts, 0);
    lemma_without(image, ts, 1);
    lemma_without(image, ts, 2);
    lemma_without(image, ts, 3);
    lemma_without(image, ts, 4);
    if !holds(a + image, "://"@) {
        lemma_past(a + image);
    }
    if !holds(b + image, "://"@) {
        lemma_past(b + image);
    }
    if !holds(c + image, "://"@) {
        lemma_past(c + image);
    }
    if !holds(d + image, "://"@) {
        lemma_past(d + image);
    }
    if !holds(e + image, "://"@) {
        lemma_past(e + image);
    }
    if !image.contains(':') {
        if holds(image, "://"@) {
            reveal_strlit("://");
            let i = choose|i: int| occurs_at(image, "://"@, i);
            assert(image.subrange(i, i + 3)[0] == "://"@[0]);
            assert(image[i] == ':');
            assert(image.contains(image[i]));
        }
        lemma_past(image);
        assert forall|i: int| 0 <= i < ts.len() implies !begins(image, #[trigger] ts[i]) by {
            let t = ts[i];
            assert(t.len() > 0 && t.last() == ':');
            if begins(image, t) {
                let n = t.len() - 1;
                assert(image.take(t.len() as int)[n] == t[n]);
                assert(image.contains(image[n]));
            }
        }
        lemma_without_any(image, ts);
    }
}

proof fn lemma_without_any(image: Seq<char>, ps: Seq<Seq<char>>)
    requires
        forall|i: int| 0 <= i < ps.len() ==> !begins(image, #[trigger] ps[i]),
    ensures
        without_prefix(image, ps) == image,
    decreases ps.len(),
{
    if ps.len() > 0 {
        assert(!begins(image, ps[0]));
        assert forall|i: int| 0 <= i < ps.skip(1).len() implies !begins(
            image,
            #[trigger] ps.skip(1)[i],
        ) by {
            assert(ps.skip(1)[i] == ps[i + 1]);
        }
        lemma_without_any(image, ps.skip(1));
    }
}

proof fn lemma_without(image: Seq<char>, ps: Seq<Seq<char>>, k: int)
    requires
        0 <= k < ps.len(),
        forall|i: int, j: int|
            0 <= i < ps.len() && 0 <= j < ps.len() && i != j ==> (#[trigger] ps[i]).len() > 7 && (
            #[trigger] ps[j]).len() > 7 && ps[i][7] != ps[j][7],
    ensures
        without_prefix(ps[k] + image, ps) == image,
    decreases k,
{
    let s = ps[k] + image;
    if k == 0 {
        assert(s.take(ps[0].len() as int) =~= ps[0]);
        assert(s.skip(ps[0].len() as int) =~= image);
    } else {
        assert(ps[0].len() > 7 && ps[k].len() > 7 && ps[0][7] != ps[k][7]);
        assert(s[7] == ps[k][7]);
        if begins(s, ps[0]) {
            assert(s.take(ps[0].len() as int)[7] == ps[0][7]);
        }
        let d = ps.skip(1);
        assert forall|i: int, j: int| 0 <= i < d.len() && 0 <= j < d.len() && i != j implies (
        #[trigger] d[i]).len() > 7 && (#[trigger] d[j]).len() > 7 && d[i][7] != d[j][7] by {
            assert(d[i] == ps[i + 1]);
            assert(d[j] == ps[j + 1]);
        }
        assert(d[k - 1] == ps[k]);
        lemma_without(image, d, k - 1);
    }
}

/// A switch is taken for done exactly where an image is staged, and it is the one
/// that was asked for, but for the transport.
pub proof fn law_when_a_switch_is_done(requested: Seq<char>, staged: Option<Seq<char>>)
    ensures
        staging_verdict(requested, staged) is Ok <==> staged is Some && bare_image(requested)
            == bare_image(staged->0),
{
}

/// The kernel was booted with the digest of its first argument that names one,
/// whether or not a question mark stands before it.
pub proof fn law_digest_of_the_booted_kernel(
    cmdline: Seq<char>,
    a: Seq<Seq<char>>,
    v: Seq<char>,
    b: Seq<Seq<char>>,
)
    requires
        v.len() > 0,
        v[0] != '?',
        forall|i: int| 0 <= i < a.len() ==> !begins(#[trigger] a[i], "composefs="@),
    ensures
        fields(cmdline) == a + seq!["composefs="@ + v] + b ==> booted_verity(cmdline) == Some(v),
        fields(cmdline) == a + seq!["composefs="@ + (seq!['?'] + v)] + b ==> booted_verity(cmdline)
            == Some(v),
        fields(cmdline) == a ==> booted_verity(cmdline) is None,
{
    lemma_composefs_argument(a, v, b);
    lemma_composefs_argument(a, seq!['?'] + v, b);
    let q = seq!['?'] + v;
    assert(q.skip(1) =~= v);
    reveal_with_fuel(trim_start_char, 2);
    assert(trim_start_char(q, '?') == v);
}

proof fn lemma_composefs_argument(a: Seq<Seq<char>>, v: Seq<char>, b: Seq<Seq<char>>)
    requires
        forall|i: int| 0 <= i < a.len() ==> !begins(#[trigger] a[i], "composefs="@),
    ensures
        composefs_argument(a + seq!["composefs="@ + v] + b) == Some(v),
        composefs_argument(a) is None,
    decreases a.len(),
{
    let key = "composefs="@;
    let all = a + seq![key + v] + b;
    if a.len() == 0 {
        assert(all[0] == key + v);
        assert((key + v).take(key.len() as int) =~= key);
        assert((key + v).skip(key.len() as int) =~= v);
    } else {
        assert(all[0] == a[0]);
        assert(!begins(a[0], key));
        let d = a.skip(1);
        assert forall|i: int| 0 <= i < d.len() implies !begins(#[trigger] d[i], key) by {
            assert(d[i] == a[i + 1]);
        }
        assert(all.skip(1) =~= d + seq![key + v] + b);
        lemma_composefs_argument(d, v, b);
    }
}

/// Whether the deployment at the index is the latest of those that are not the
/// booted one, and the last of them.
pub open spec fn is_latest(c: Seq<(Seq<char>, u64)>, booted: Option<Seq<char>>, i: int) -> bool {
    &&& 0 <= i < c.len()
    &&& Some(c[i].0) != booted
    &&& forall|j: int| 0 <= j < c.len() && Some((#[trigger] c[j]).0) != booted ==> c[j].1 <= c[i].1
    &&& forall|j: int| i < j < c.len() && Some((#[trigger] c[j]).0) != booted ==> c[j].1 < c[i].1
}

/// The deployment that is taken for the staged one is the latest that is not the
/// booted one, the last of several of one time; there is none where every one is
/// the booted one. What bootc reports comes before that.
pub proof fn law_which_deployment_is_staged(
    reported: Option<Seq<char>>,
    booted: Option<Seq<char>>,
    candidates: Seq<(Seq<char>, u64)>,
    i: int,
)
    ensures
        reported is Some && reported->0.len() > 0 ==> staged_verity(reported, booted, candidates)
            == reported,
        (reported is None || reported->0.len() == 0) && is_latest(candidates, booted, i)
            ==> staged_verity(reported, booted, candidates) == Some(candidates[i].0),
        (reported is None || reported->0.len() == 0) && (forall|j: int|
            0 <= j < candidates.len() ==> Some((#[trigger] candidates[j]).0) == booted)
            ==> staged_verity(reported, booted, candidates) is None,
{
    lemma_latest(candidates, booted);
    let l = latest_other(candidates, booted);
    if l is Some {
        let k = choose|k: int| is_latest(candidates, booted, k) && candidates[k] == l->0;
        if is_latest(candidates, booted, i) {
            assert(i == k) by {
                assert(candidates[i].1 <= candidates[k].1);
                assert(candidates[k].1 <= candidates[i].1);
            }
        }
    }
}

proof fn lemma_latest(c: Seq<(Seq<char>, u64)>, booted: Option<Seq<char>>)
    ensures
        latest_other(c, booted) is None <==> forall|j: int|
            0 <= j < c.len() ==> Some((#[trigger] c[j]).0) == booted,
        latest_other(c, booted) is Some ==> exists|k: int|
            #[trigger] is_latest(c, booted, k) && c[k] == latest_other(c, booted)->0,
    decreases c.len(),
{
    if c.len() > 0 {
        let d = c.drop_last();
        let n = c.len() - 1;
        lemma_latest(d, booted);
        assert(c[n] == c.last());
        assert forall|j: int| 0 <= j < n implies #[trigger] c[j] == d[j] by {}
        let best = latest_other(d, booted);
        let now = latest_other(c, booted);
        if best is Some {
            let k = choose|k: int| #[trigger] is_latest(d, booted, k) && d[k] == best->0;
            assert(c[k] == d[k]);
            if Some(c.last().0) != booted && c.last().1 >= d[k].1 {
                assert(is_latest(c, booted, n));
            } else {
                assert(is_latest(c, booted, k));
            }
        } else {
            assert forall|j: int| 0 <= j < n implies Some((#[trigger] c[j]).0) == booted by {
                assert(c[j] == d[j]);
            }
            if Some(c.last().0) != booted {
                assert(is_latest(c, booted, n));
            }
        }
    }
}

/// The finalization does nothing where nothing is staged. Otherwise it stops the
/// unit where that waits, or else runs the command, and looks at the outcome last;
/// `/boot` is mounted before, where it is not.
pub proof fn law_finalization(staged: bool, boot_mounted: bool, unit_active: bool, i: int)
    ensures
        ({
            let m = finalize_moves(staged, boot_mounted, unit_active);
            &&& m.len() == 0 <==> !staged
            &&& staged ==> m.last() is Verify
            &&& staged && unit_active ==> m[m.len() - 2] is Run && m[m.len() - 2]->Run_argv
                == seq!["systemctl"@, "stop"@, "ostree-finalize-staged.service"@]
            &&& staged && !unit_active ==> m[m.len() - 2] is Run && m[m.len() - 2]->Run_argv
                == seq!["ostree"@, "admin"@, "finalize-staged"@]
            &&& staged && !boot_mounted ==> m[1] is Either && m[1]->first == seq![
                "systemctl"@,
                "start"@,
                "boot.mount"@,
            ] && m[1]->otherwise == seq!["mount"@, "/boot"@]
            &&& boot_mounted && 0 <= i < m.len() ==> !(m[i] is Either)
        }),
{
}

/// Whether a line of the status ends so.
pub open spec fn ends_line(status: Seq<char>, end: Seq<char>, i: int) -> bool {
    0 <= i < lines(status).len() && finishes(trim(lines(status)[i]), end)
}

/// A deployment is still staged where a line says so, and pending where none does
/// and a line says that.
pub proof fn law_state_after_the_finalization(status: Seq<char>, i: int)
    ensures
        ends_line(status, "(staged)"@, i) ==> state_after(status) is StillStaged,
        state_after(status) is StillStaged ==> exists|k: int|
            #[trigger] ends_line(status, "(staged)"@, k),
        ends_line(status, "(pending)"@, i) ==> !(state_after(status) is NoOtherDeployment),
        state_after(status) is Pending ==> exists|k: int|
            #[trigger] ends_line(status, "(pending)"@, k),
{
    let ls = lines(status);
    if ends_line(status, "(staged)"@, i) {
        assert(finishes(trim(ls[i]), "(staged)"@));
    }
    if state_after(status) is StillStaged {
        let k = choose|k: int| 0 <= k < ls.len() && finishes(trim(#[trigger] ls[k]), "(staged)"@);
        assert(ends_line(status, "(staged)"@, k));
    }
    if state_after(status) is Pending {
        let k = choose|k: int| 0 <= k < ls.len() && finishes(trim(#[trigger] ls[k]), "(pending)"@);
        assert(ends_line(status, "(pending)"@, k));
    }
}

/// What the first boot runs is labelled at once: the unit and the link to it as a
/// unit, the script and its directory as configuration.
pub proof fn law_what_is_labelled_at_once(etc: Seq<char>)
    ensures
        ({
            let unit = "system_u:object_r:systemd_unit_file_t:s0"@;
            let conf = "system_u:object_r:etc_t:s0"@;
            let dir = join_path(etc, "systemd/system"@);
            let name = "bootc-migrate-cross-family-firstboot.service"@;
            let wants = join_path(dir, "sysinit.target.wants"@);
            let all = early_labels(etc);
            &&& all.len() == 5
            &&& all.contains((join_path(dir, name), unit))
            &&& all.contains((wants, unit))
            &&& all.contains((join_path(wants, name), unit))
            &&& all.contains((join_path(etc, "bootc-migrate"@), conf))
            &&& all.contains((join_path(etc, "bootc-migrate/cross-family-firstboot"@), conf))
        }),
{
    let all = early_labels(etc);
    assert(all.contains(all[0]));
    assert(all.contains(all[1]));
    assert(all.contains(all[2]));
    assert(all.contains(all[3]));
    assert(all.contains(all[4]));
}

/// An image can be named exactly where it holds neither an end of a line nor a
/// NUL.
pub proof fn law_image_on_one_line(image: Seq<char>)
    ensures
        is_one_line(image) <==> !image.contains('\n') && !image.contains('\r') && !image.contains(
            '\0',
        ),
{
    if is_one_line(image) {
        assert forall|c: char| c == '\n' || c == '\r' || c == '\0' implies !image.contains(c) by {
            if image.contains(c) {
                let i = choose|i: int| 0 <= i < image.len() && image[i] == c;
                assert(image[i] != '\n' && image[i] != '\r' && image[i] != '\0');
            }
        }
    } else {
        let i = choose|i: int|
            0 <= i < image.len() && !(#[trigger] image[i] != '\n' && image[i] != '\r' && image[i]
                != '\0');
        assert(image.contains(image[i]));
    }
}

} // verus!

//! Whether a re-base moves desktop configuration, and what it then does.

use vstd::prelude::*;

use crate::de_detect::{
    cross_desktop_pair, detection_text, differing, DesktopDetection, DesktopDetectionView,
};
use crate::de_migrate::{
    build_hook_env, desktop_name, hook_env, lemma_moves, parse_user_homes, paths_of, restore,
    restore_moves, stash, stash_moves, users_in, DesktopEnvironment, Move, MoveView, UserHome,
    UserHomeView,
};
use crate::text::numbers::{decimal, decimal_of};
use crate::text::order::list_contains;
use crate::text::paths::{join_path, path_join};
use crate::text::pieces::lines;

verus! {

/// Where a user's configuration is put away, below the home.
pub const DE_STASH_SUBDIR: &'static str = ".local/share/de-migrate";

/// A change of desktop for the users.
#[derive(Debug, Clone, PartialEq, Eq)]
pub struct DesktopMigrationPlan {
    pub from: DesktopEnvironment,
    pub to: DesktopEnvironment,
    pub users: Vec<UserHome>,
}

/// What a [`DesktopMigrationPlan`] holds.
#[verifier::ext_equal]
pub struct DesktopMigrationPlanView {
    pub from: DesktopEnvironment,
    pub to: DesktopEnvironment,
    pub users: Seq<UserHomeView>,
}

impl DeepView for DesktopMigrationPlan {
    type V = DesktopMigrationPlanView;

    open spec fn deep_view(&self) -> DesktopMigrationPlanView {
        DesktopMigrationPlanView { from: self.from, to: self.to, users: self.users.deep_view() }
    }
}

/// Whether there is a change of desktop, and why not.
#[derive(Debug, Clone, PartialEq, Eq)]
pub enum DesktopMigrationDecision {
    Disabled,
    NotCrossDesktop { host: DesktopDetection, target: DesktopDetection },
    NoUsers { from: DesktopEnvironment, to: DesktopEnvironment },
    Planned(DesktopMigrationPlan),
}

/// What a [`DesktopMigrationDecision`] holds.
#[verifier::ext_equal]
pub enum DesktopMigrationDecisionView {
    Disabled,
    NotCrossDesktop { host: DesktopDetectionView, target: DesktopDetectionView },
    NoUsers { from: DesktopEnvironment, to: DesktopEnvironment },
    Planned(DesktopMigrationPlanView),
}

impl DeepView for DesktopMigrationDecision {
    type V = DesktopMigrationDecisionView;

    open spec fn deep_view(&self) -> DesktopMigrationDecisionView {
        match self {
            DesktopMigrationDecision::Disabled => DesktopMigrationDecisionView::Disabled,
            DesktopMigrationDecision::NotCrossDesktop {
                host,
                target,
            } => DesktopMigrationDecisionView::NotCrossDesktop {
                host: host.deep_view(),
                target: target.deep_view(),
            },
            DesktopMigrationDecision::NoUsers { from, to } => DesktopMigrationDecisionView::NoUsers {
                from: *from,
                to: *to,
            },
            DesktopMigrationDecision::Planned(p) => DesktopMigrationDecisionView::Planned(
                p.deep_view(),
            ),
        }
    }
}

/// The decision for a host and a target, with the accounts in the lines of
/// `/etc/passwd`.
pub open spec fn decision_for(
    host: DesktopDetectionView,
    target: DesktopDetectionView,
    passwd: Seq<char>,
) -> DesktopMigrationDecisionView {
    match differing(host, target) {
        None => DesktopMigrationDecisionView::NotCrossDesktop { host, target },
        Some(pair) => if users_in(lines(passwd)).len() == 0 {
            DesktopMigrationDecisionView::NoUsers { from: pair.0, to: pair.1 }
        } else {
            DesktopMigrationDecisionView::Planned(
                DesktopMigrationPlanView {
                    from: pair.0,
                    to: pair.1,
                    users: users_in(lines(passwd)),
                },
            )
        },
    }
}

/// The decision for a host and a target, with the accounts in the text of
/// `/etc/passwd`.
pub fn decide(host: DesktopDetection, target: DesktopDetection, passwd: &str) -> (r:
    DesktopMigrationDecision)
    ensures
        r.deep_view() == decision_for(host.deep_view(), target.deep_view(), passwd@),
{
    match cross_desktop_pair(&host, &target) {
        None => DesktopMigrationDecision::NotCrossDesktop { host, target },
        Some((from, to)) => {
            let users: Vec<UserHome> = parse_user_homes(passwd);
            assert(users@.len() == users.deep_view().len());
            if users.len() == 0 {
                DesktopMigrationDecision::NoUsers { from, to }
            } else {
                DesktopMigrationDecision::Planned(DesktopMigrationPlan { from, to, users })
            }
        },
    }
}

/// A step of a change of desktop.
#[derive(Debug, Clone, PartialEq, Eq)]
pub enum DesktopStep {
    /// Tell the user.
    Say(String),
    /// Move a file or a directory, or stop with `context`.
    Transfer { from: String, to: String, context: String },
    /// Run each hook with the variables, and report them: those for before the
    /// switch, or those for after it.
    Hooks { before: bool, env: Vec<(String, String)>, dry_run: bool, context: String },
}

/// What a [`DesktopStep`] holds.
#[verifier::ext_equal]
pub enum DesktopStepView {
    Say(Seq<char>),
    Transfer { from: Seq<char>, to: Seq<char>, context: Seq<char> },
    Hooks { before: bool, env: Seq<(Seq<char>, Seq<char>)>, dry_run: bool, context: Seq<char> },
}

impl DeepView for DesktopStep {
    type V = DesktopStepView;

    open spec fn deep_view(&self) -> DesktopStepView {
        match self {
            DesktopStep::Say(s) => DesktopStepView::Say(s@),
            DesktopStep::Transfer { from, to, context } => DesktopStepView::Transfer {
                from: from@,
                to: to@,
                context: context@,
            },
            DesktopStep::Hooks { before, env, dry_run, context } => DesktopStepView::Hooks {
                before: *before,
                env: env.deep_view(),
                dry_run: *dry_run,
                context: context@,
            },
        }
    }
}

/// The moves as steps. In a dry run there are none.
pub open spec fn transfer_steps(
    moves: Seq<MoveView>,
    context: Seq<char>,
    dry_run: bool,
) -> Seq<DesktopStepView> {
    if dry_run {
        Seq::empty()
    } else {
        moves.map_values(
            |m: MoveView| DesktopStepView::Transfer { from: m.from, to: m.to, context },
        )
    }
}

/// A line for each of the moved paths.
pub open spec fn path_lines(moves: Seq<MoveView>) -> Seq<DesktopStepView> {
    moves.map_values(|m: MoveView| DesktopStepView::Say("    "@ + m.relative_path))
}

/// Adds the moves as steps, unless this is a dry run.
fn add_transfers(steps: &mut Vec<DesktopStep>, moves: &[Move], context: &str, dry_run: bool)
    ensures
        final(steps).deep_view() == old(steps).deep_view() + transfer_steps(
            moves.deep_view(),
            context@,
            dry_run,
        ),
{
    let ghost all = moves.deep_view();
    let ghost start = steps.deep_view();
    if dry_run {
        assert(steps.deep_view() =~= start + transfer_steps(all, context@, dry_run));
        return;
    }
    let ghost want = transfer_steps(all, context@, false);
    let mut i: usize = 0;
    assert(steps.deep_view() =~= start + want.take(0));
    while i < moves.len()
        invariant
            all == moves.deep_view(),
            want == transfer_steps(all, context@, false),
            i <= moves@.len(),
            steps.deep_view() == start + want.take(i as int),
        decreases moves@.len() - i,
    {
        let ghost before = steps.deep_view();
        let step: DesktopStep = DesktopStep::Transfer {
            from: moves[i].from.clone(),
            to: moves[i].to.clone(),
            context: context.to_owned(),
        };
        steps.push(step);
        proof {
            assert(all[i as int] == moves@[i as int].deep_view());
            assert(steps.deep_view() =~= before.push(step.deep_view()));
            assert(steps.deep_view() =~= start + want.take(i + 1));
        }
        i = i + 1;
    }
    assert(want.take(i as int) =~= want);
}

/// Adds a line for each of the moved paths.
fn add_path_lines(steps: &mut Vec<DesktopStep>, moves: &[Move])
    ensures
        final(steps).deep_view() == old(steps).deep_view() + path_lines(moves.deep_view()),
{
    let ghost all = moves.deep_view();
    let ghost start = steps.deep_view();
    let ghost want = path_lines(all);
    let mut i: usize = 0;
    assert(steps.deep_view() =~= start + want.take(0));
    while i < moves.len()
        invariant
            all == moves.deep_view(),
            want == path_lines(all),
            i <= moves@.len(),
            steps.deep_view() == start + want.take(i as int),
        decreases moves@.len() - i,
    {
        let ghost before = steps.deep_view();
        let mut l: String = "    ".to_owned();
        l.append(moves[i].relative_path.as_str());
        let step: DesktopStep = DesktopStep::Say(l);
        steps.push(step);
        proof {
            assert(all[i as int] == moves@[i as int].deep_view());
            assert(steps.deep_view() =~= before.push(step.deep_view()));
            assert(steps.deep_view() =~= start + want.take(i + 1));
        }
        i = i + 1;
    }
    assert(want.take(i as int) =~= want);
}

/// Adds a line.
fn add_line(steps: &mut Vec<DesktopStep>, line: String)
    ensures
        final(steps).deep_view() == old(steps).deep_view() + seq![DesktopStepView::Say(line@)],
{
    let ghost start = steps.deep_view();
    steps.push(DesktopStep::Say(line));
    assert(steps.deep_view() =~= start + seq![DesktopStepView::Say(line@)]);
}

/// What marks a dry run in a line.
pub open spec fn dry_mark(dry_run: bool) -> Seq<char> {
    if dry_run {
        " [DRY RUN]"@
    } else {
        ""@
    }
}

/// When hooks run, in words.
pub open spec fn hook_time(before: bool) -> Seq<char> {
    if before {
        "pre-switch"@
    } else {
        "post-switch"@
    }
}

/// The hooks as a step, where there are any.
pub open spec fn hook_steps(
    plan: DesktopMigrationPlanView,
    user: UserHomeView,
    has_hooks: bool,
    dry_run: bool,
    before: bool,
) -> Seq<DesktopStepView> {
    if has_hooks {
        seq![
            DesktopStepView::Hooks {
                before,
                env: hook_env(
                    plan.from,
                    plan.to,
                    join_path(user.home, ".local/share/de-migrate"@),
                    user.home,
                ),
                dry_run,
                context: "running "@ + hook_time(before) + " hooks for "@ + user.name,
            },
        ]
    } else {
        Seq::empty()
    }
}

/// Adds the hooks as a step, where there are any.
fn add_hooks(
    steps: &mut Vec<DesktopStep>,
    plan: &DesktopMigrationPlan,
    user: &UserHome,
    has_hooks: bool,
    dry_run: bool,
    before: bool,
)
    ensures
        final(steps).deep_view() == old(steps).deep_view() + hook_steps(
            plan.deep_view(),
            user.deep_view(),
            has_hooks,
            dry_run,
            before,
        ),
{
    let ghost start = steps.deep_view();
    if has_hooks {
        let dir: String = path_join(user.home.as_str(), ".local/share/de-migrate");
        let env: Vec<(String, String)> = build_hook_env(
            plan.from,
            plan.to,
            dir.as_str(),
            user.home.as_str(),
        );
        let mut context: String = "running ".to_owned();
        context.append(if before { "pre-switch" } else { "post-switch" });
        context.append(" hooks for ");
        context.append(user.name.as_str());
        steps.push(DesktopStep::Hooks { before, env, dry_run, context });
    }
    assert(steps.deep_view() =~= start + hook_steps(
        plan.deep_view(),
        user.deep_view(),
        has_hooks,
        dry_run,
        before,
    ));
}

/// The steps for one user before the switch: the moves, a report of them, and
/// the hooks, which see what was moved.
pub open spec fn user_pre_steps(
    plan: DesktopMigrationPlanView,
    user: UserHomeView,
    existing: Seq<Seq<char>>,
    has_hooks: bool,
    dry_run: bool,
) -> Seq<DesktopStepView> {
    let dir = join_path(user.home, ".local/share/de-migrate"@);
    let moves = stash_moves(plan.from, user.home, dir, existing);
    let context = "stashing "@ + desktop_name(plan.from) + " config for "@ + user.name;
    transfer_steps(moves, context, dry_run) + (if moves.len() == 0 {
        seq![
            DesktopStepView::Say(
                "  "@ + user.name + ": no "@ + desktop_name(plan.from) + " config to stash."@,
            ),
        ]
    } else {
        seq![
            DesktopStepView::Say(
                "  "@ + user.name + ": stashed "@ + decimal(moves.len()) + " path(s) into "@ + dir,
            ),
        ] + path_lines(moves)
    }) + hook_steps(plan, user, has_hooks, dry_run, true)
}

/// The steps for one user after the switch.
pub open spec fn user_post_steps(
    plan: DesktopMigrationPlanView,
    user: UserHomeView,
    existing: Seq<Seq<char>>,
    has_hooks: bool,
    dry_run: bool,
) -> Seq<DesktopStepView> {
    let dir = join_path(user.home, ".local/share/de-migrate"@);
    let moves = restore_moves(plan.to, user.home, dir, existing);
    let context = "restoring "@ + desktop_name(plan.to) + " config for "@ + user.name;
    transfer_steps(moves, context, dry_run) + seq![
        DesktopStepView::Say(
            if moves.len() == 0 {
                "  "@ + user.name + ": no previous "@ + desktop_name(plan.to)
                    + " stash to restore (first switch to it)."@
            } else {
                "  "@ + user.name + ": restored "@ + decimal(moves.len())
                    + " previously-stashed "@ + desktop_name(plan.to) + " path(s)."@
            },
        ),
    ] + hook_steps(plan, user, has_hooks, dry_run, false)
}

/// The moves for one user, of the paths that exist: those of a stash before the
/// switch, and those of a restore after it.
pub open spec fn user_moves(
    plan: DesktopMigrationPlanView,
    user: UserHomeView,
    existing: Seq<Seq<char>>,
    before: bool,
) -> Seq<MoveView> {
    let dir = join_path(user.home, ".local/share/de-migrate"@);
    if before {
        stash_moves(plan.from, user.home, dir, existing)
    } else {
        restore_moves(plan.to, user.home, dir, existing)
    }
}

/// The paths that are moved away.
pub open spec fn sources(moves: Seq<MoveView>) -> Seq<Seq<char>> {
    moves.map_values(|m: MoveView| m.from)
}

/// The paths of `existing` that were not taken.
pub open spec fn left_of(existing: Seq<Seq<char>>, taken: Seq<Seq<char>>) -> Seq<Seq<char>>
    decreases existing.len(),
{
    if existing.len() == 0 {
        Seq::empty()
    } else if taken.contains(existing.last()) {
        left_of(existing.drop_last(), taken)
    } else {
        left_of(existing.drop_last(), taken).push(existing.last())
    }
}

/// What the moves of the users took away: accounts may share a home, and a path
/// is moved once. A dry run takes nothing.
pub open spec fn taken_by(
    plan: DesktopMigrationPlanView,
    users: Seq<UserHomeView>,
    existing: Seq<Seq<Seq<char>>>,
    dry_run: bool,
    before: bool,
) -> Seq<Seq<char>>
    decreases users.len(),
{
    if users.len() == 0 || dry_run {
        Seq::empty()
    } else {
        let taken = taken_by(plan, users.drop_last(), existing, dry_run, before);
        taken + sources(
            user_moves(
                plan,
                users.last(),
                left_of(existing[users.len() - 1], taken),
                before,
            ),
        )
    }
}

/// The steps for the users, each with the paths that exist and that the users
/// before left there.
pub open spec fn users_steps(
    plan: DesktopMigrationPlanView,
    users: Seq<UserHomeView>,
    existing: Seq<Seq<Seq<char>>>,
    has_hooks: bool,
    dry_run: bool,
    before: bool,
) -> Seq<DesktopStepView>
    decreases users.len(),
{
    if users.len() == 0 {
        Seq::empty()
    } else {
        let left = left_of(
            existing[users.len() - 1],
            taken_by(plan, users.drop_last(), existing, dry_run, before),
        );
        users_steps(plan, users.drop_last(), existing, has_hooks, dry_run, before) + (if before {
            user_pre_steps(plan, users.last(), left, has_hooks, dry_run)
        } else {
            user_post_steps(plan, users.last(), left, has_hooks, dry_run)
        })
    }
}

/// The steps before the switch.
pub open spec fn pre_steps(
    plan: DesktopMigrationPlanView,
    existing: Seq<Seq<Seq<char>>>,
    has_hooks: bool,
    dry_run: bool,
) -> Seq<DesktopStepView> {
    seq![
        DesktopStepView::Say(
            "DE migration: "@ + desktop_name(plan.from) + " -> "@ + desktop_name(plan.to) + " for "@
                + decimal(plan.users.len()) + " user(s)"@ + dry_mark(dry_run) + "."@,
        ),
    ] + users_steps(plan, plan.users, existing, has_hooks, dry_run, true)
}

/// The steps after the switch.
pub open spec fn post_steps(
    plan: DesktopMigrationPlanView,
    existing: Seq<Seq<Seq<char>>>,
    has_hooks: bool,
    dry_run: bool,
) -> Seq<DesktopStepView> {
    seq![
        DesktopStepView::Say(
            "DE migration: re-exposing any previous "@ + desktop_name(plan.to) + " stash"@
                + dry_mark(dry_run) + "."@,
        ),
    ] + users_steps(plan, plan.users, existing, has_hooks, dry_run, false)
}

/// Adds the steps for one user before the switch, and gives the moves.
fn add_user_pre(
    steps: &mut Vec<DesktopStep>,
    plan: &DesktopMigrationPlan,
    user: &UserHome,
    existing: &[String],
    has_hooks: bool,
    dry_run: bool,
) -> (r: Vec<Move>)
    ensures
        r.deep_view() == user_moves(
            plan.deep_view(),
            user.deep_view(),
            existing.deep_view(),
            true,
        ),
        final(steps).deep_view() == old(steps).deep_view() + user_pre_steps(
            plan.deep_view(),
            user.deep_view(),
            existing.deep_view(),
            has_hooks,
            dry_run,
        ),
{
    let ghost start = steps.deep_view();
    let dir: String = path_join(user.home.as_str(), ".local/share/de-migrate");
    let moves: Vec<Move> = stash(plan.from, user.home.as_str(), dir.as_str(), existing);
    assert(moves@.len() == moves.deep_view().len());
    let name: String = plan.from.name();
    let mut context: String = "stashing ".to_owned();
    context.append(name.as_str());
    context.append(" config for ");
    context.append(user.name.as_str());
    add_transfers(steps, moves.as_slice(), context.as_str(), dry_run);
    let mut line: String = "  ".to_owned();
    line.append(user.name.as_str());
    if moves.len() == 0 {
        line.append(": no ");
        line.append(name.as_str());
        line.append(" config to stash.");
        add_line(steps, line);
    } else {
        line.append(": stashed ");
        line.append(decimal_of(moves.len() as u64).as_str());
        line.append(" path(s) into ");
        line.append(dir.as_str());
        add_line(steps, line);
        add_path_lines(steps, moves.as_slice());
    }
    add_hooks(steps, plan, user, has_hooks, dry_run, true);
    assert(steps.deep_view() =~= start + user_pre_steps(
        plan.deep_view(),
        user.deep_view(),
        existing.deep_view(),
        has_hooks,
        dry_run,
    ));
    moves
}

/// Adds the steps for one user after the switch, and gives the moves.
fn add_user_post(
    steps: &mut Vec<DesktopStep>,
    plan: &DesktopMigrationPlan,
    user: &UserHome,
    existing: &[String],
    has_hooks: bool,
    dry_run: bool,
) -> (r: Vec<Move>)
    ensures
        r.deep_view() == user_moves(
            plan.deep_view(),
            user.deep_view(),
            existing.deep_view(),
            false,
        ),
        final(steps).deep_view() == old(steps).deep_view() + user_post_steps(
            plan.deep_view(),
            user.deep_view(),
            existing.deep_view(),
            has_hooks,
            dry_run,
        ),
{
    let ghost start = steps.deep_view();
    let dir: String = path_join(user.home.as_str(), ".local/share/de-migrate");
    let moves: Vec<Move> = restore(plan.to, user.home.as_str(), dir.as_str(), existing);
    assert(moves@.len() == moves.deep_view().len());
    let name: String = plan.to.name();
    let mut context: String = "restoring ".to_owned();
    context.append(name.as_str());
    context.append(" config for ");
    context.append(user.name.as_str());
    add_transfers(steps, moves.as_slice(), context.as_str(), dry_run);
    let mut line: String = "  ".to_owned();
    line.append(user.name.as_str());
    if moves.len() == 0 {
        line.append(": no previous ");
        line.append(name.as_str());
        line.append(" stash to restore (first switch to it).");
    } else {
        line.append(": restored ");
        line.append(decimal_of(moves.len() as u64).as_str());
        line.append(" previously-stashed ");
        line.append(name.as_str());
        line.append(" path(s).");
    }
    add_line(steps, line);
    add_hooks(steps, plan, user, has_hooks, dry_run, false);
    assert(steps.deep_view() =~= start + user_post_steps(
        plan.deep_view(),
        user.deep_view(),
        existing.deep_view(),
        has_hooks,
        dry_run,
    ));
    moves
}

/// The paths of `existing` that were not taken.
fn not_taken(existing: &[String], taken: &[String]) -> (r: Vec<String>)
    ensures
        r.deep_view() == left_of(existing.deep_view(), taken.deep_view()),
{
    let ghost all = existing.deep_view();
    let ghost t = taken.deep_view();
    let mut r: Vec<String> = Vec::new();
    let mut i: usize = 0;
    assert(r.deep_view() =~= left_of(all.take(0), t));
    while i < existing.len()
        invariant
            all == existing.deep_view(),
            t == taken.deep_view(),
            i <= existing@.len(),
            r.deep_view() == left_of(all.take(i as int), t),
        decreases existing@.len() - i,
    {
        let ghost before = r.deep_view();
        proof {
            assert(all[i as int] == existing@[i as int]@);
            assert(all.take(i + 1).drop_last() =~= all.take(i as int));
            assert(all.take(i + 1).last() == all[i as int]);
        }
        if !list_contains(taken, existing[i].as_str()) {
            r.push(existing[i].clone());
            assert(r.deep_view() =~= before.push(all[i as int]));
        }
        i = i + 1;
    }
    assert(all.take(i as int) =~= all);
    r
}

/// Adds the paths that the moves take away.
fn add_sources(taken: &mut Vec<String>, moves: &[Move])
    ensures
        final(taken).deep_view() == old(taken).deep_view() + sources(moves.deep_view()),
{
    let ghost start = taken.deep_view();
    let ghost all = moves.deep_view();
    let ghost want = sources(all);
    let mut i: usize = 0;
    assert(taken.deep_view() =~= start + want.take(0));
    while i < moves.len()
        invariant
            all == moves.deep_view(),
            want == sources(all),
            i <= moves@.len(),
            taken.deep_view() == start + want.take(i as int),
        decreases moves@.len() - i,
    {
        let ghost before = taken.deep_view();
        taken.push(moves[i].from.clone());
        proof {
            assert(all[i as int] == moves@[i as int].deep_view());
            assert(taken.deep_view() =~= before.push(want[i as int]));
            assert(taken.deep_view() =~= start + want.take(i + 1));
        }
        i = i + 1;
    }
    assert(want.take(i as int) =~= want);
}

/// Adds the steps for the users.
fn add_users(
    steps: &mut Vec<DesktopStep>,
    plan: &DesktopMigrationPlan,
    existing: &[Vec<String>],
    has_hooks: bool,
    dry_run: bool,
    before: bool,
)
    requires
        existing@.len() == plan.users@.len(),
    ensures
        final(steps).deep_view() == old(steps).deep_view() + users_steps(
            plan.deep_view(),
            plan.deep_view().users,
            existing.deep_view(),
            has_hooks,
            dry_run,
            before,
        ),
{
    let ghost start = steps.deep_view();
    let ghost p = plan.deep_view();
    let ghost all = p.users;
    let ghost ex = existing.deep_view();
    let mut taken: Vec<String> = Vec::new();
    let mut i: usize = 0;
    assert(all.take(0) =~= Seq::empty());
    assert(taken.deep_view() =~= taken_by(p, all.take(0), ex, dry_run, before));
    assert(steps.deep_view() =~= start + users_steps(
        p,
        all.take(0),
        ex,
        has_hooks,
        dry_run,
        before,
    ));
    while i < plan.users.len()
        invariant
            p == plan.deep_view(),
            all == p.users,
            all == plan.users.deep_view(),
            ex == existing.deep_view(),
            existing@.len() == plan.users@.len(),
            i <= plan.users@.len(),
            taken.deep_view() == taken_by(p, all.take(i as int), ex, dry_run, before),
            steps.deep_view() == start + users_steps(
                p,
                all.take(i as int),
                ex,
                has_hooks,
                dry_run,
                before,
            ),
        decreases plan.users@.len() - i,
    {
        proof {
            assert(all[i as int] == plan.users@[i as int].deep_view());
            assert(ex[i as int] == existing@[i as int].deep_view());
            assert(all.take(i + 1).drop_last() =~= all.take(i as int));
            assert(all.take(i + 1).last() == all[i as int]);
        }
        let left: Vec<String> = not_taken(existing[i].as_slice(), taken.as_slice());
        let moves: Vec<Move> = if before {
            add_user_pre(steps, plan, &plan.users[i], left.as_slice(), has_hooks, dry_run)
        } else {
            add_user_post(steps, plan, &plan.users[i], left.as_slice(), has_hooks, dry_run)
        };
        if !dry_run {
            add_sources(&mut taken, moves.as_slice());
        }
        assert(steps.deep_view() =~= start + users_steps(
            p,
            all.take(i + 1),
            ex,
            has_hooks,
            dry_run,
            before,
        ));
        i = i + 1;
    }
    assert(all.take(i as int) =~= all);
}

/// What marks a dry run in a line.
fn mark(dry_run: bool) -> (r: &'static str)
    ensures
        r@ == dry_mark(dry_run),
{
    if dry_run {
        " [DRY RUN]"
    } else {
        ""
    }
}

/// Plans a change of desktop.
#[derive(Debug, Clone, Copy)]
pub struct DesktopMigrationController<'a> {
    pub enabled: bool,
    pub target_image: &'a str,
}

impl<'a> DesktopMigrationController<'a> {
    /// A controller for a re-base to the image.
    pub fn new(enabled: bool, target_image: &'a str) -> (r: Self)
        ensures
            r.enabled == enabled,
            r.target_image@ == target_image@,
    {
        DesktopMigrationController { enabled, target_image }
    }

    /// Whether there is a change of desktop. Where it is not enabled, what was
    /// detected does not matter.
    pub fn plan(&self, host: DesktopDetection, target: DesktopDetection, passwd: &str) -> (r:
        DesktopMigrationDecision)
        ensures
            r.deep_view() == (if self.enabled {
                decision_for(host.deep_view(), target.deep_view(), passwd@)
            } else {
                DesktopMigrationDecisionView::Disabled
            }),
    {
        if !self.enabled {
            return DesktopMigrationDecision::Disabled;
        }
        decide(host, target, passwd)
    }

    /// The plan, or the line that says why there is nothing to do.
    pub fn plan_or_report(&self, decision: DesktopMigrationDecision) -> (r: Result<
        DesktopMigrationPlan,
        String,
    >)
        ensures
            match decision.deep_view() {
                DesktopMigrationDecisionView::Planned(p) => r is Ok && r->Ok_0.deep_view() == p,
                DesktopMigrationDecisionView::Disabled => r is Err && r->Err_0@
                    == "DE migration: skipped (--de-migrate not passed); per-user desktop config is left exactly as it is."@,
                DesktopMigrationDecisionView::NotCrossDesktop { host, target } => r is Err
                    && r->Err_0@ == "DE migration: nothing to do (this host: "@ + detection_text(
                    host,
                ) + ", "@ + self.target_image@ + ": "@ + detection_text(target) + ")."@,
                DesktopMigrationDecisionView::NoUsers { from, to } => r is Err && r->Err_0@
                    == "DE migration: "@ + desktop_name(from) + " -> "@ + desktop_name(to)
                    + ", but /etc/passwd has no human accounts to stash."@,
            },
    {
        match decision {
            DesktopMigrationDecision::Planned(p) => Ok(p),
            DesktopMigrationDecision::Disabled => Err(
                "DE migration: skipped (--de-migrate not passed); per-user desktop config is left exactly as it is.".to_owned(),
            ),
            DesktopMigrationDecision::NotCrossDesktop { host, target } => {
                let mut m: String = "DE migration: nothing to do (this host: ".to_owned();
                m.append(host.describe().as_str());
                m.append(", ");
                m.append(self.target_image);
                m.append(": ");
                m.append(target.describe().as_str());
                m.append(").");
                Err(m)
            },
            DesktopMigrationDecision::NoUsers { from, to } => {
                let mut m: String = "DE migration: ".to_owned();
                m.append(from.name().as_str());
                m.append(" -> ");
                m.append(to.name().as_str());
                m.append(", but /etc/passwd has no human accounts to stash.");
                Err(m)
            },
        }
    }

    /// The steps before the switch: the configuration of the desktop that
    /// leaves is put away for every user. `existing` gives, for each user, the
    /// paths that exist.
    pub fn run_pre_switch(
        &self,
        plan: &DesktopMigrationPlan,
        existing: &[Vec<String>],
        has_hooks: bool,
        dry_run: bool,
    ) -> (r: Vec<DesktopStep>)
        requires
            existing@.len() == plan.users@.len(),
        ensures
            r.deep_view() == pre_steps(plan.deep_view(), existing.deep_view(), has_hooks, dry_run),
    {
        let mut steps: Vec<DesktopStep> = Vec::new();
        assert(steps.deep_view() =~= Seq::empty());
        assert(plan.users@.len() == plan.deep_view().users.len());
        let mut line: String = "DE migration: ".to_owned();
        line.append(plan.from.name().as_str());
        line.append(" -> ");
        line.append(plan.to.name().as_str());
        line.append(" for ");
        line.append(decimal_of(plan.users.len() as u64).as_str());
        line.append(" user(s)");
        line.append(mark(dry_run));
        line.append(".");
        add_line(&mut steps, line);
        assert(steps.deep_view() =~= seq![DesktopStepView::Say(line@)]);
        add_users(&mut steps, plan, existing, has_hooks, dry_run, true);
        steps
    }

    /// The steps after the switch: what a former change put away of the desktop
    /// that comes is brought back for every user. `existing` gives, for each
    /// user, the paths that exist.
    pub fn run_post_switch(
        &self,
        plan: &DesktopMigrationPlan,
        existing: &[Vec<String>],
        has_hooks: bool,
        dry_run: bool,
    ) -> (r: Vec<DesktopStep>)
        requires
            existing@.len() == plan.users@.len(),
        ensures
            r.deep_view() == post_steps(
                plan.deep_view(),
                existing.deep_view(),
                has_hooks,
                dry_run,
            ),
    {
        let mut steps: Vec<DesktopStep> = Vec::new();
        assert(steps.deep_view() =~= Seq::empty());
        let mut line: String = "DE migration: re-exposing any previous ".to_owned();
        line.append(plan.to.name().as_str());
        line.append(" stash");
        line.append(mark(dry_run));
        line.append(".");
        add_line(&mut steps, line);
        assert(steps.deep_view() =~= seq![DesktopStepView::Say(line@)]);
        add_users(&mut steps, plan, existing, has_hooks, dry_run, false);
        steps
    }

    /// Both halves as a dry run.
    pub fn preview(
        &self,
        plan: &DesktopMigrationPlan,
        existing: &[Vec<String>],
        pre_hooks: bool,
        post_hooks: bool,
    ) -> (r: Vec<DesktopStep>)
        requires
            existing@.len() == plan.users@.len(),
        ensures
            r.deep_view() == pre_steps(plan.deep_view(), existing.deep_view(), pre_hooks, true)
                + post_steps(plan.deep_view(), existing.deep_view(), post_hooks, true),
    {
        let mut steps: Vec<DesktopStep> = self.run_pre_switch(plan, existing, pre_hooks, true);
        let mut after: Vec<DesktopStep> = self.run_post_switch(plan, existing, post_hooks, true);
        let ghost a = steps.deep_view();
        let ghost b = after.deep_view();
        steps.append(&mut after);
        assert(steps.deep_view() =~= a + b);
        steps
    }
}

/// Whether a step moves nothing and runs no hook.
pub open spec fn moves_nothing(s: DesktopStepView) -> bool {
    match s {
        DesktopStepView::Say(_) => true,
        DesktopStepView::Transfer { .. } => false,
        DesktopStepView::Hooks { dry_run, .. } => dry_run,
    }
}

/// The steps for the users of a dry run move nothing.
proof fn lemma_dry_users(
    plan: DesktopMigrationPlanView,
    users: Seq<UserHomeView>,
    existing: Seq<Seq<Seq<char>>>,
    has_hooks: bool,
    before: bool,
)
    ensures
        forall|i: int|
            0 <= i < users_steps(plan, users, existing, has_hooks, true, before).len()
                ==> moves_nothing(
                #[trigger] users_steps(plan, users, existing, has_hooks, true, before)[i],
            ),
    decreases users.len(),
{
    if users.len() > 0 {
        lemma_dry_users(plan, users.drop_last(), existing, has_hooks, before);
        let d = users_steps(plan, users.drop_last(), existing, has_hooks, true, before);
        let left = left_of(
            existing[users.len() - 1],
            taken_by(plan, users.drop_last(), existing, true, before),
        );
        let own = if before {
            user_pre_steps(plan, users.last(), left, has_hooks, true)
        } else {
            user_post_steps(plan, users.last(), left, has_hooks, true)
        };
        assert forall|i: int| 0 <= i < own.len() implies moves_nothing(#[trigger] own[i]) by {}
        let all = users_steps(plan, users, existing, has_hooks, true, before);
        assert(all == d + own);
        assert forall|i: int| 0 <= i < all.len() implies moves_nothing(#[trigger] all[i]) by {
            if i < d.len() {
                assert(all[i] == d[i]);
            } else {
                assert(all[i] == own[i - d.len()]);
            }
        }
    }
}

/// A dry run moves nothing and runs no hook.
pub proof fn law_dry_run_moves_nothing(
    plan: DesktopMigrationPlanView,
    existing: Seq<Seq<Seq<char>>>,
    has_hooks: bool,
)
    ensures
        forall|i: int|
            0 <= i < pre_steps(plan, existing, has_hooks, true).len() ==> moves_nothing(
                #[trigger] pre_steps(plan, existing, has_hooks, true)[i],
            ),
        forall|i: int|
            0 <= i < post_steps(plan, existing, has_hooks, true).len() ==> moves_nothing(
                #[trigger] post_steps(plan, existing, has_hooks, true)[i],
            ),
{
    lemma_dry_users(plan, plan.users, existing, has_hooks, true);
    lemma_dry_users(plan, plan.users, existing, has_hooks, false);
}

/// What is left are paths that exist and were not taken.
proof fn lemma_left_of(existing: Seq<Seq<char>>, taken: Seq<Seq<char>>, path: Seq<char>)
    requires
        left_of(existing, taken).contains(path),
    ensures
        existing.contains(path),
        !taken.contains(path),
    decreases existing.len(),
{
    if existing.len() > 0 {
        let d = existing.drop_last();
        let all = left_of(existing, taken);
        let rest = left_of(d, taken);
        let k = choose|k: int| 0 <= k < all.len() && all[k] == path;
        if k < rest.len() {
            assert(rest[k] == path);
            lemma_left_of(d, taken, path);
            let m = choose|m: int| 0 <= m < d.len() && d[m] == path;
            assert(existing[m] == path);
        } else {
            assert(existing[existing.len() - 1] == path);
        }
    }
}

/// Where accounts share a home, no path is moved for a later user that the moves
/// of the earlier ones took.
pub proof fn law_no_path_is_moved_for_two_users(
    plan: DesktopMigrationPlanView,
    users: Seq<UserHomeView>,
    existing: Seq<Seq<Seq<char>>>,
    before: bool,
    k: int,
)
    requires
        users.len() > 0,
        ({
            let taken = taken_by(plan, users.drop_last(), existing, false, before);
            let left = left_of(existing[users.len() - 1], taken);
            0 <= k < user_moves(plan, users.last(), left, before).len()
        }),
    ensures
        ({
            let taken = taken_by(plan, users.drop_last(), existing, false, before);
            let left = left_of(existing[users.len() - 1], taken);
            let m = user_moves(plan, users.last(), left, before)[k];
            existing[users.len() - 1].contains(m.from) && !taken.contains(m.from)
        }),
{
    let taken = taken_by(plan, users.drop_last(), existing, false, before);
    let left = left_of(existing[users.len() - 1], taken);
    let home = users.last().home;
    let dir = join_path(home, ".local/share/de-migrate"@);
    let m = user_moves(plan, users.last(), left, before)[k];
    if before {
        lemma_moves(
            paths_of(plan.from),
            home,
            join_path(dir, desktop_name(plan.from)),
            left,
            k,
        );
    } else {
        lemma_moves(paths_of(plan.to), join_path(dir, desktop_name(plan.to)), home, left, k);
    }
    lemma_left_of(existing[users.len() - 1], taken, m.from);
}

} // verus!

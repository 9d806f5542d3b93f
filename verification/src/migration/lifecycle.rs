//! What a migration holds while it runs: the lock that keeps a second one out,
//! the inhibitor that keeps the machine awake, and file systems that can be
//! written. A dry run takes none of them.

use vstd::prelude::*;

use crate::steps::{run, say, Step, StepView};
use crate::text::compose::owned_all;

verus! {

/// The file that is locked.
pub const LOCK_PATH: &'static str = "/var/run/bootc-migrate.lock";

/// One move of taking hold.
#[derive(Debug, Clone, PartialEq, Eq)]
pub enum LifecycleAction {
    Do(Step),
    /// Lock the file exclusively, without waiting.
    Lock(String),
    /// Keep the command running, so that the machine does not go to sleep.
    InhibitSleep(Vec<String>),
}

/// What a [`LifecycleAction`] holds.
#[verifier::ext_equal]
pub enum LifecycleActionView {
    Do(StepView),
    Lock(Seq<char>),
    InhibitSleep(Seq<Seq<char>>),
}

impl DeepView for LifecycleAction {
    type V = LifecycleActionView;

    open spec fn deep_view(&self) -> LifecycleActionView {
        match self {
            LifecycleAction::Do(s) => LifecycleActionView::Do(s.deep_view()),
            LifecycleAction::Lock(p) => LifecycleActionView::Lock(p@),
            LifecycleAction::InhibitSleep(argv) => LifecycleActionView::InhibitSleep(
                argv.deep_view(),
            ),
        }
    }
}

/// The command that keeps the machine awake.
pub open spec fn inhibitor_argv(why: Seq<char>) -> Seq<Seq<char>> {
    seq![
        "systemd-inhibit"@,
        "--what=sleep"@,
        "--why="@ + why,
        "--mode=block"@,
        "sleep"@,
        "infinity"@,
    ]
}

/// The command that keeps the machine awake for the reason given.
pub fn inhibit_sleep(why: &str) -> (r: Vec<String>)
    ensures
        r.deep_view() == inhibitor_argv(why@),
{
    let mut reason: String = "--why=".to_owned();
    reason.append(why);
    let r: Vec<String> = owned_all(
        &[
            "systemd-inhibit",
            "--what=sleep",
            reason.as_str(),
            "--mode=block",
            "sleep",
            "infinity",
        ],
    );
    assert(r.deep_view() =~= inhibitor_argv(why@));
    r
}

/// What is said of the inhibitor. Without it the migration goes on.
pub fn inhibitor_notice(started: bool) -> (r: String)
    ensures
        r@ == if started {
            "Acquired systemd sleep inhibitor lock."@
        } else {
            "Note: systemd-inhibit unavailable; sleep inhibitor lock was not acquired."@
        },
{
    if started {
        "Acquired systemd sleep inhibitor lock.".to_owned()
    } else {
        "Note: systemd-inhibit unavailable; sleep inhibitor lock was not acquired.".to_owned()
    }
}

/// What came of the attempt to lock.
#[derive(Debug, Clone, Copy, PartialEq, Eq, Structural)]
pub enum LockOutcome {
    Taken,
    /// Somebody else has it.
    Held,
    /// It failed for another reason.
    Failed,
}

/// Whether the migration may go on, and why not.
pub fn acquire_lock(outcome: LockOutcome) -> (r: Result<(), String>)
    ensures
        match outcome {
            LockOutcome::Taken => r is Ok,
            LockOutcome::Held => r is Err && r->Err_0@
                == "Another instance of bootc-migrate is already running (lock held at /var/run/bootc-migrate.lock)."@,
            LockOutcome::Failed => r is Err && r->Err_0@ == "failed to acquire lock"@,
        },
{
    match outcome {
        LockOutcome::Taken => Ok(()),
        LockOutcome::Held => Err(
            "Another instance of bootc-migrate is already running (lock held at /var/run/bootc-migrate.lock).".to_owned(),
        ),
        LockOutcome::Failed => Err("failed to acquire lock".to_owned()),
    }
}

/// The step that makes a file system writable. A migration cannot go on without.
pub open spec fn remount_step(target: Seq<char>) -> StepView {
    StepView::Run {
        argv: seq!["/usr/bin/mount"@, "-o"@, "remount,rw"@, target],
        context: "failed to execute mount remount,rw "@ + target,
        failure: "failed to remount "@ + target
            + " read-write — cannot proceed with migration"@,
    }
}

/// The step that makes a file system writable.
pub fn remount_rw(target: &str) -> (r: Step)
    ensures
        r.deep_view() == remount_step(target@),
{
    let mut context: String = "failed to execute mount remount,rw ".to_owned();
    context.append(target);
    let mut failure: String = "failed to remount ".to_owned();
    failure.append(target);
    failure.append(" read-write — cannot proceed with migration");
    let argv: [&str; 4] = ["/usr/bin/mount", "-o", "remount,rw", target];
    let r: Step = run(&argv, context.as_str(), failure.as_str());
    assert(argv.deep_view() =~= seq!["/usr/bin/mount"@, "-o"@, "remount,rw"@, target@]);
    r
}

/// The moves of taking hold.
pub open spec fn acquisition(dry_run: bool) -> Seq<LifecycleActionView> {
    if dry_run {
        seq![
            LifecycleActionView::Do(
                StepView::Say(
                    "[DRY RUN] Would execute migration phases without making changes."@,
                ),
            ),
            LifecycleActionView::Do(
                StepView::Say("[DRY RUN] Would remount /sysroot and /boot read-write."@),
            ),
        ]
    } else {
        seq![
            LifecycleActionView::Lock("/var/run/bootc-migrate.lock"@),
            LifecycleActionView::InhibitSleep(
                inhibitor_argv("OSTree to ComposeFS migration in progress"@),
            ),
            LifecycleActionView::Do(remount_step("/sysroot"@)),
            LifecycleActionView::Do(remount_step("/boot"@)),
        ]
    }
}

/// The moves of taking hold: the lock first, and only then what changes the
/// system. A dry run says what it would have done.
pub fn acquire(dry_run: bool) -> (r: Vec<LifecycleAction>)
    ensures
        r.deep_view() == acquisition(dry_run),
{
    let mut r: Vec<LifecycleAction> = Vec::new();
    if dry_run {
        r.push(
            LifecycleAction::Do(
                say("[DRY RUN] Would execute migration phases without making changes."),
            ),
        );
        r.push(
            LifecycleAction::Do(say("[DRY RUN] Would remount /sysroot and /boot read-write.")),
        );
    } else {
        r.push(LifecycleAction::Lock("/var/run/bootc-migrate.lock".to_owned()));
        r.push(
            LifecycleAction::InhibitSleep(
                inhibit_sleep("OSTree to ComposeFS migration in progress"),
            ),
        );
        r.push(LifecycleAction::Do(remount_rw("/sysroot")));
        r.push(LifecycleAction::Do(remount_rw("/boot")));
    }
    assert(r.deep_view() =~= acquisition(dry_run));
    r
}

/// A dry run takes no lock, keeps nothing awake and changes nothing.
pub proof fn law_dry_run_takes_nothing()
    ensures
        forall|i: int|
            0 <= i < acquisition(true).len() ==> #[trigger] acquisition(true)[i] is Do
                && acquisition(true)[i]->Do_0 is Say,
{
}

/// Nothing is changed before the lock is held.
pub proof fn law_the_lock_comes_first(i: int)
    requires
        0 <= i < acquisition(false).len(),
    ensures
        acquisition(false)[i] is Lock <==> i == 0,
{
}

} // verus!

//! The change of desktop that goes with a re-base.

use bootc_migrate_core::de_controller::{
    decide, DesktopMigrationController, DesktopMigrationDecision, DesktopMigrationPlan, DesktopStep,
};
use bootc_migrate_core::de_detect::DesktopDetection;
use bootc_migrate_core::de_migrate::{DesktopEnvironment, UserHome};

#[test]
fn planning_decisions_are_separate_from_io() {
    let cases = [
        (
            DesktopDetection::Single(DesktopEnvironment::Gnome),
            DesktopDetection::Single(DesktopEnvironment::Gnome),
            "alice:x:1000:1000::/home/alice:/bin/bash\n",
            "same",
        ),
        (
            DesktopDetection::Single(DesktopEnvironment::Gnome),
            DesktopDetection::Single(DesktopEnvironment::Kde),
            "root:x:0:0::/root:/bin/bash\n",
            "no-users",
        ),
        (
            DesktopDetection::Single(DesktopEnvironment::Gnome),
            DesktopDetection::Single(DesktopEnvironment::Kde),
            "alice:x:1000:1000::/home/alice:/bin/bash\n",
            "planned",
        ),
    ];

    for (host, target, passwd, expected) in cases {
        let actual = match decide(host, target, passwd) {
            DesktopMigrationDecision::NotCrossDesktop { .. } => "same",
            DesktopMigrationDecision::NoUsers { .. } => "no-users",
            DesktopMigrationDecision::Planned(_) => "planned",
            DesktopMigrationDecision::Disabled => "disabled",
        };
        assert_eq!(actual, expected);
    }
}

fn plan() -> DesktopMigrationPlan {
    DesktopMigrationPlan {
        from: DesktopEnvironment::Gnome,
        to: DesktopEnvironment::Kde,
        users: vec![UserHome { name: "alice".into(), uid: 1000, home: "/home/alice".into() }],
    }
}

fn says(steps: &[DesktopStep]) -> Vec<String> {
    steps
        .iter()
        .filter_map(|s| match s {
            DesktopStep::Say(l) => Some(l.clone()),
            _ => None,
        })
        .collect()
}

#[test]
fn a_controller_that_is_off_plans_nothing() {
    let off = DesktopMigrationController::new(false, "img:tag");
    let d = off.plan(
        DesktopDetection::Single(DesktopEnvironment::Gnome),
        DesktopDetection::Single(DesktopEnvironment::Kde),
        "alice:x:1000:1000::/home/alice:/bin/bash\n",
    );
    assert_eq!(d, DesktopMigrationDecision::Disabled);
    assert!(off.plan_or_report(d).unwrap_err().contains("--de-migrate not passed"));

    let on = DesktopMigrationController::new(true, "img:tag");
    let d = on.plan(
        DesktopDetection::Single(DesktopEnvironment::Gnome),
        DesktopDetection::Single(DesktopEnvironment::Gnome),
        "",
    );
    assert_eq!(
        on.plan_or_report(d).unwrap_err(),
        "DE migration: nothing to do (this host: gnome, img:tag: gnome)."
    );
}

#[test]
fn the_steps_before_the_switch_move_and_report() {
    let c = DesktopMigrationController::new(true, "img:tag");
    let existing = vec![vec!["/home/alice/.config/dconf/user".to_string()]];
    let steps = c.run_pre_switch(&plan(), &existing, true, false);
    assert_eq!(
        says(&steps),
        vec![
            "DE migration: gnome -> kde for 1 user(s).",
            "  alice: stashed 1 path(s) into /home/alice/.local/share/de-migrate",
            "    .config/dconf/user",
        ]
    );
    assert!(steps.contains(&DesktopStep::Transfer {
        from: "/home/alice/.config/dconf/user".into(),
        to: "/home/alice/.local/share/de-migrate/gnome/.config/dconf/user".into(),
        context: "stashing gnome config for alice".into(),
    }));
    assert!(matches!(steps.last(), Some(DesktopStep::Hooks { dry_run: false, .. })));
}

#[test]
fn a_dry_run_moves_nothing() {
    let c = DesktopMigrationController::new(true, "img:tag");
    let existing = vec![vec!["/home/alice/.config/dconf/user".to_string()]];
    let steps = c.preview(&plan(), &existing, true, true);
    assert!(!steps.iter().any(|s| matches!(s, DesktopStep::Transfer { .. })));
    assert!(!steps.iter().any(|s| matches!(s, DesktopStep::Hooks { dry_run: false, .. })));
    assert!(says(&steps)[0].contains("[DRY RUN]"));
    let times: Vec<bool> = steps
        .iter()
        .filter_map(|s| match s {
            DesktopStep::Hooks { before, .. } => Some(*before),
            _ => None,
        })
        .collect();
    assert_eq!(times, vec![true, false]);
}

#[test]
fn the_first_switch_to_a_desktop_has_nothing_to_restore() {
    let c = DesktopMigrationController::new(true, "img:tag");
    let steps = c.run_post_switch(&plan(), &[vec![]], false, false);
    assert_eq!(
        says(&steps),
        vec![
            "DE migration: re-exposing any previous kde stash.",
            "  alice: no previous kde stash to restore (first switch to it).",
        ]
    );
}

#[test]
fn accounts_that_share_a_home_move_a_path_once() {
    let c = DesktopMigrationController::new(true, "img:tag");
    let shared = DesktopMigrationPlan {
        users: vec![
            UserHome { name: "alice".into(), uid: 1000, home: "/home/alice".into() },
            UserHome { name: "alias".into(), uid: 1001, home: "/home/alice".into() },
        ],
        ..plan()
    };
    let paths = vec!["/home/alice/.config/dconf/user".to_string()];
    let existing = vec![paths.clone(), paths];
    let steps = c.run_pre_switch(&shared, &existing, false, false);
    assert_eq!(steps.iter().filter(|s| matches!(s, DesktopStep::Transfer { .. })).count(), 1);
    assert_eq!(
        says(&steps),
        vec![
            "DE migration: gnome -> kde for 2 user(s).",
            "  alice: stashed 1 path(s) into /home/alice/.local/share/de-migrate",
            "    .config/dconf/user",
            "  alias: no gnome config to stash.",
        ]
    );
    // A dry run takes nothing away, so both are told of the path.
    let dry = c.run_pre_switch(&shared, &existing, false, true);
    assert_eq!(says(&dry).iter().filter(|l| l.contains("stashed 1 path(s)")).count(), 2);
}

//! Which re-bases there are.

use bootc_migrate_core::rebase_plan::{
    bootloader_plan, plan, route, Backend, BootloaderPolicy, Phase, Strategy,
};

#[test]
fn ostree_to_composefs_is_implemented() {
    let r = route(Backend::Ostree, Backend::Composefs).unwrap();
    assert!(r.implemented);
    assert_eq!(r.strategy, Strategy::CoreMigration);
}

#[test]
fn every_backend_pair_has_a_planned_route() {
    for from in [Backend::Ostree, Backend::Composefs] {
        for to in [Backend::Ostree, Backend::Composefs] {
            assert!(route(from, to).is_some(), "no route for {} -> {}", from.name(), to.name());
        }
    }
}

#[test]
fn composefs_to_composefs_is_implemented() {
    let r = route(Backend::Composefs, Backend::Composefs).unwrap();
    assert!(r.implemented);
    assert_eq!(r.strategy, Strategy::ImageSwap);
}

#[test]
fn ostree_to_ostree_is_implemented() {
    let r = route(Backend::Ostree, Backend::Ostree).unwrap();
    assert!(r.implemented);
    assert_eq!(r.strategy, Strategy::OstreeDeploy);
}

#[test]
fn unimplemented_routes_are_marked() {
    assert!(
        !route(Backend::Composefs, Backend::Ostree)
            .unwrap()
            .implemented
    );
}

#[test]
fn planner_skips_composefs_phases_for_ostree_rebase() {
    let p = plan(Backend::Ostree, Backend::Ostree).unwrap();
    assert_eq!(p.phase_names(), "preflight -> pull -> deploy");
    assert_eq!(p.bootloader, BootloaderPolicy::KeepSource);
    assert!(!p.phases.contains(&Phase::Seal));
}

#[test]
fn planner_selects_full_conversion_pipeline() {
    let p = plan(Backend::Ostree, Backend::Composefs).unwrap();
    assert_eq!(
        p.phase_names(),
        "preflight -> import -> pull -> seal -> deploy -> bootloader"
    );
    assert_eq!(p.bootloader, BootloaderPolicy::Target);
}

#[test]
fn planner_covers_every_backend_pair() {
    for from in [Backend::Ostree, Backend::Composefs] {
        for to in [Backend::Ostree, Backend::Composefs] {
            let p = plan(from, to).unwrap();
            assert_eq!(p.phases.first(), Some(&Phase::Preflight));
            assert!(matches!(
                p.phases.last(),
                Some(&Phase::Deploy) | Some(&Phase::Bootloader)
            ));
        }
    }
}

#[test]
fn standalone_bootloader_plan_does_not_select_rootfs_phases() {
    let p = bootloader_plan();
    assert_eq!(p.phases, vec![Phase::Bootloader]);
    assert_eq!(p.bootloader, BootloaderPolicy::Target);
}

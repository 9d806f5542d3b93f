//! Accounts that have another number on the target.

use bootc_migrate_core::remap::{
    apply_remap_plan, apply_single_step, files_updated, has_room, missing_target_sysusers,
    parse_group, parse_passwd, plan_remap, render_report, GroupEntry, IdKind, OwnerChange,
    PasswdEntry, RemapEntry, RemapPlan, RemapStep, RemapTree,
};
use bootc_migrate_core::scan::SysusersEntry;

const SRC_PASSWD: &str = "\
root:x:0:0:root:/root:/bin/bash
dnsmasq:x:983:983::/var/lib/dnsmasq:/sbin/nologin
sshd:x:74:74::/usr/share/empty.sshd:/sbin/nologin
james:x:1000:1000::/home/james:/bin/bash
";
const TGT_PASSWD: &str = "\
root:x:0:0:root:/root:/bin/bash
dnsmasq:x:984:984::/var/lib/dnsmasq:/sbin/nologin
sshd:x:74:74::/usr/share/empty.sshd:/sbin/nologin
james:x:1000:1000::/home/james:/bin/bash
newsvc:x:985:985::/var/lib/newsvc:/sbin/nologin
";

#[test]
fn missing_target_sysusers_flags_absent_user_and_group() {
    let target_sysusers = vec![
        SysusersEntry {
            kind: 'u',
            name: "messagebus".to_string(),
            id: Some(81),
        },
        SysusersEntry {
            kind: 'g',
            name: "polkitd".to_string(),
            id: Some(999),
        },
    ];
    let host_passwd = parse_passwd(SRC_PASSWD);
    let host_group = parse_group("root:x:0:\nsshd:x:74:\n");

    let missing = missing_target_sysusers(&target_sysusers, &host_passwd, &host_group);

    assert_eq!(
        missing,
        vec!["messagebus".to_string(), "polkitd".to_string()]
    );
}

#[test]
fn missing_target_sysusers_empty_when_all_present() {
    let target_sysusers = vec![SysusersEntry {
        kind: 'u',
        name: "sshd".to_string(),
        id: Some(74),
    }];
    let host_passwd = parse_passwd(SRC_PASSWD);
    let host_group = parse_group("");

    let missing = missing_target_sysusers(&target_sysusers, &host_passwd, &host_group);

    assert!(missing.is_empty());
}

#[test]
fn missing_target_sysusers_deduplicates_and_sorts() {
    let target_sysusers = vec![
        SysusersEntry {
            kind: 'u',
            name: "zzz".to_string(),
            id: None,
        },
        SysusersEntry {
            kind: 'u',
            name: "aaa".to_string(),
            id: None,
        },
        SysusersEntry {
            kind: 'u',
            name: "aaa".to_string(),
            id: None,
        },
    ];
    let missing = missing_target_sysusers(&target_sysusers, &[], &[]);
    assert_eq!(missing, vec!["aaa".to_string(), "zzz".to_string()]);
}

#[test]
fn parses_passwd_and_skips_garbage() {
    let entries = parse_passwd("a:x:1:2::/:/bin/sh\n# comment\nbroken line\n:x:3:4::/:/\n");
    assert_eq!(entries.len(), 1);
    assert_eq!(entries[0].name, "a");
    assert_eq!((entries[0].uid, entries[0].gid), (1, 2));
}

#[test]
fn diverging_system_account_is_remapped_humans_and_root_are_not() {
    let plan = plan_remap(
        &parse_passwd(SRC_PASSWD),
        &[],
        &parse_passwd(TGT_PASSWD),
        &[],
    );
    assert_eq!(plan.remaps.len(), 1);
    let r = &plan.remaps[0];
    assert_eq!((r.name.as_str(), r.old_id, r.new_id), ("dnsmasq", 983, 984));
    assert_eq!(r.kind, IdKind::Uid);
    assert_eq!(plan.target_only, vec!["newsvc".to_string()]);
    assert!(plan.source_only.is_empty());
}

#[test]
fn id_swap_cycle_produces_collision_free_steps() {
    // a: 101→102 while b: 102→101 — naive in-place chown would merge
    // both accounts' files into one id between the steps.
    let src = parse_passwd("a:x:101:101::/:/\nb:x:102:102::/:/\n");
    let tgt = parse_passwd("a:x:102:102::/:/\nb:x:101:101::/:/\n");
    let plan = plan_remap(&src, &[], &tgt, &[]);
    assert_eq!(plan.remaps.len(), 2);
    assert_eq!(plan.steps.len(), 4);

    // Simulate applying the steps over a fake file table and verify no
    // step's `from` id is ambiguous at the time it runs.
    let mut owner_of_file_a = 101u32; // a's file
    let mut owner_of_file_b = 102u32; // b's file
    for step in &plan.steps {
        let hits = [owner_of_file_a, owner_of_file_b]
            .iter()
            .filter(|&&o| o == step.from)
            .count();
        assert!(hits <= 1, "step {step:?} would chown two accounts' files");
        if owner_of_file_a == step.from {
            owner_of_file_a = step.to;
        } else if owner_of_file_b == step.from {
            owner_of_file_b = step.to;
        }
    }
    // Files ended where the target says their owners now live.
    assert_eq!(owner_of_file_a, 102);
    assert_eq!(owner_of_file_b, 101);
}

#[test]
fn scratch_ids_avoid_ids_in_use_on_either_side() {
    let src = parse_passwd("a:x:101:101::/:/\nsvc:x:60000:60000::/:/\n");
    let tgt = parse_passwd("a:x:103:103::/:/\nsvc:x:60000:60000::/:/\n");
    let plan = plan_remap(&src, &[], &tgt, &[]);
    for step in &plan.steps {
        assert_ne!(step.to, 60_000, "scratch id collided with a real id");
    }
}

#[test]
fn group_divergence_is_planned_independently() {
    let src_g = parse_group("wheel:x:10:james\nrender:x:105:\n");
    let tgt_g = parse_group("wheel:x:10:\nrender:x:107:\n");
    let plan = plan_remap(&[], &src_g, &[], &tgt_g);
    assert_eq!(plan.remaps.len(), 1);
    assert_eq!(plan.remaps[0].kind, IdKind::Gid);
    assert_eq!((plan.remaps[0].old_id, plan.remaps[0].new_id), (105, 107));
}

#[test]
fn identical_tables_produce_empty_plan() {
    let p = parse_passwd(SRC_PASSWD);
    let g = parse_group("wheel:x:10:\n");
    let plan = plan_remap(&p, &g, &p, &g);
    assert!(plan.is_empty());
    assert!(plan.steps.is_empty());
    assert!(render_report(&plan).contains("no remapping needed"));
}

#[test]
fn report_and_json_name_the_divergence() {
    let plan = plan_remap(
        &parse_passwd(SRC_PASSWD),
        &[],
        &parse_passwd(TGT_PASSWD),
        &[],
    );
    let report = render_report(&plan);
    assert!(report.contains("dnsmasq"));
    assert!(report.contains("983 -> 984"));
    assert_eq!(plan.remaps[0].old_id, 983);
}

#[test]
fn test_apply_remap_plan_executes_steps() {
    let plan = RemapPlan {
        remaps: vec![RemapEntry {
            name: "testaccount".into(),
            kind: IdKind::Uid,
            old_id: 980,
            new_id: 981,
        }],
        steps: vec![
            RemapStep {
                kind: IdKind::Uid,
                from: 980,
                to: 60000,
            },
            RemapStep {
                kind: IdKind::Uid,
                from: 60000,
                to: 981,
            },
        ],
        ..Default::default()
    };

    assert_eq!(
        apply_remap_plan(&plan, true, false),
        vec![(plan.steps[0], RemapTree::Var), (plan.steps[1], RemapTree::Var)]
    );
    assert_eq!(apply_remap_plan(&plan, true, true).len(), 4);
    assert!(apply_remap_plan(&plan, false, false).is_empty());
    assert_eq!(apply_single_step(&plan.steps[0], 980, 980), Some((Some(60000), None)));
    assert_eq!(apply_single_step(&plan.steps[0], 979, 980), None);
    let groups = RemapStep { kind: IdKind::Gid, from: 10, to: 997 };
    assert_eq!(apply_single_step(&groups, 10, 10), Some((None, Some(997))));
}

#[test]
fn a_primary_group_is_no_scratch_id() {
    let passwd = [PasswdEntry { name: "svc".to_string(), uid: 500, gid: 60_000 }];
    let source = [GroupEntry { name: "a".to_string(), gid: 101 }];
    let target = [GroupEntry { name: "a".to_string(), gid: 103 }];
    assert!(has_room(&passwd, &source, &passwd, &target));
    let plan = plan_remap(&passwd, &source, &passwd, &target);
    assert_eq!(
        plan.steps,
        vec![
            RemapStep { kind: IdKind::Gid, from: 101, to: 60_001 },
            RemapStep { kind: IdKind::Gid, from: 60_001, to: 103 },
        ]
    );
}

#[test]
fn a_divergence_outside_the_system_range_is_listed_for_both_sides() {
    let source = parse_passwd("u:x:1001:1001::/home/u:/bin/sh\nv:x:1003:1003::/home/v:/bin/sh\n");
    let target = parse_passwd("u:x:1002:1002::/home/u:/bin/sh\nv:x:1003:1003::/home/v:/bin/sh\n");
    let plan = plan_remap(&source, &[], &target, &[]);
    assert!(plan.remaps.is_empty());
    assert_eq!(plan.source_only, vec!["u".to_string()]);
    assert_eq!(plan.target_only, vec!["u".to_string()]);
    let root = plan_remap(
        &parse_passwd("root:x:0:0::/:/\n"),
        &[],
        &parse_passwd("root:x:5:5::/:/\n"),
        &[],
    );
    assert!(root.remaps.is_empty() && root.steps.is_empty());
    assert_eq!(root.source_only, vec!["root".to_string()]);
}

/// What every pass of the plan makes of an owner.
fn carried(plan: &RemapPlan, owner: (u32, u32)) -> (u32, u32) {
    plan.steps.iter().fold(owner, |(uid, gid), step| {
        match apply_single_step(step, uid, gid) {
            Some((u, g)) => (u.unwrap_or(uid), g.unwrap_or(gid)),
            None => (uid, gid),
        }
    })
}

#[test]
fn a_file_counts_once_though_it_goes_through_its_scratch_id() {
    let source = parse_passwd("a:x:980:980::/:/\nb:x:981:981::/:/\n");
    let target = parse_passwd("a:x:981:981::/:/\nb:x:980:980::/:/\n");
    let plan = plan_remap(&source, &[], &target, &[]);
    let owners = [(980, 0), (981, 7), (0, 0), (1000, 980)];
    let changes: Vec<OwnerChange> = owners
        .iter()
        .map(|o| OwnerChange { before: *o, after: carried(&plan, *o) })
        .collect();
    assert_eq!(changes[0].after, (981, 0));
    assert_eq!(changes[1].after, (980, 7));
    assert_eq!(files_updated(&changes), 2);
    assert_eq!(files_updated(&[]), 0);
    let group = OwnerChange { before: (1, 2), after: (1, 3) };
    assert_eq!(files_updated(&[group]), 1);
}

#[test]
fn accounts_stay_apart_before_every_pass() {
    let source = parse_passwd("a:x:101:101::/:/\nb:x:102:102::/:/\nc:x:103:103::/:/\n");
    let target = parse_passwd("a:x:102:102::/:/\nb:x:103:103::/:/\nc:x:101:101::/:/\n");
    let plan = plan_remap(&source, &[], &target, &[]);
    assert_eq!(plan.steps.len(), 6);
    let mut owners = [101_u32, 102, 103];
    for step in &plan.steps {
        assert!(owners[0] != owners[1] && owners[0] != owners[2] && owners[1] != owners[2]);
        for owner in owners.iter_mut() {
            if let Some((Some(uid), None)) = apply_single_step(step, *owner, 0) {
                *owner = uid;
            }
        }
    }
    assert_eq!(owners, [102, 103, 101]);
}

//! Re-basing onto another family.

use bootc_migrate_core::cross_family::{
    build_verdict, decide, etc_fate, gate, install_firstboot_unit, is_carried_over, plan_etc,
    plan_post_merge, post_merge_lines, post_merge_report, relabel_needed, render_etc_report,
    render_firstboot_unit, CrossFamilyEtcOutcome, CrossFamilyPlan, CrossFamilyVerdict, EtcFate,
    PostMergeInputs, StagedVar, FIRSTBOOT_MARKER, FIRSTBOOT_UNIT,
};
use bootc_migrate_core::mergetc::EtcPathState;
use bootc_migrate_core::remap::{IdKind, RemapStep};
use bootc_migrate_core::scan::{BaseInfo, Capabilities, Lineage};
use bootc_migrate_core::selinux::SelinuxConfig;
use bootc_migrate_core::steps::Step;

fn base(id: &str, like: Option<&str>) -> BaseInfo {
    BaseInfo {
        id: id.into(),
        id_like: like.map(Into::into),
        version_id: None,
    }
}

fn state(
    path: &str,
    in_source_default: bool,
    in_current: bool,
    in_target_default: bool,
    user_modified: bool,
) -> EtcPathState {
    EtcPathState {
        path: path.into(),
        in_source_default,
        in_current,
        in_target_default,
        user_modified,
    }
}

#[derive(Debug, PartialEq)]
enum Bucket {
    Target,
    Dropped,
    Carried,
    Identity,
    Nowhere,
}

/// The whole policy in one table: each row is (path, presence in
/// source/current/target, user-modified) → which list it lands in and
/// whether a sidecar is written.
#[test]
fn etc_policy_table() {
    let cases: &[(&str, bool, bool, bool, bool, Bucket, bool)] = &[
        // Target ships it, user never touched the source copy: target's
        // copy, no sidecar.
        ("login.defs", true, true, true, false, Bucket::Target, false),
        // Target ships it, user edited the source copy: target's copy,
        // sidecar preserves the edit.
        (
            "default/useradd",
            true,
            true,
            true,
            true,
            Bucket::Target,
            true,
        ),
        // Target ships it, user deleted it: target wins (no sidecar —
        // there is nothing to preserve).
        (
            "pam.d/login",
            true,
            false,
            true,
            true,
            Bucket::Target,
            false,
        ),
        // User-added path the target happens to ship too.
        (
            "zypp/zypp.conf",
            false,
            true,
            true,
            true,
            Bucket::Target,
            true,
        ),
        // Source-vendor-only, untouched: dropped silently.
        (
            "dnf/dnf.conf",
            true,
            true,
            false,
            false,
            Bucket::Dropped,
            false,
        ),
        // Source-vendor-only, edited: dropped, sidecar keeps the edit.
        (
            "yum.repos.d/fedora.repo",
            true,
            true,
            false,
            true,
            Bucket::Dropped,
            true,
        ),
        // Source-vendor-only, already deleted by the user: dropped, nothing to keep.
        (
            "sysconfig/gone",
            true,
            false,
            false,
            true,
            Bucket::Dropped,
            false,
        ),
        // User-added, neither vendor ships it: carried.
        (
            "migration-test/marker.conf",
            false,
            true,
            false,
            true,
            Bucket::Carried,
            false,
        ),
        // Machine state, both ship it, user edited: carried, never replaced.
        ("hostname", true, true, true, true, Bucket::Carried, false),
        ("fstab", true, true, true, true, Bucket::Carried, false),
        ("hosts", true, true, true, true, Bucket::Carried, false),
        // Machine-state prefixes.
        (
            "ssh/ssh_host_ed25519_key",
            false,
            true,
            false,
            true,
            Bucket::Carried,
            false,
        ),
        (
            "sudoers.d/90-realuser",
            false,
            true,
            false,
            true,
            Bucket::Carried,
            false,
        ),
        (
            "NetworkManager/system-connections/wifi.nmconnection",
            false,
            true,
            false,
            true,
            Bucket::Carried,
            false,
        ),
        // Machine state the host lacks: nothing to carry, and not forced
        // either — the default rule decides.
        (
            "crypttab",
            false,
            false,
            true,
            false,
            Bucket::Nowhere,
            false,
        ),
        // Identity databases go to the union merge whatever their state.
        ("passwd", true, true, true, true, Bucket::Identity, false),
        ("shadow", true, true, true, true, Bucket::Identity, false),
        (
            "machine-id",
            true,
            true,
            true,
            true,
            Bucket::Identity,
            false,
        ),
        ("subuid", true, true, false, true, Bucket::Identity, false),
    ];
    let states: Vec<EtcPathState> = cases
        .iter()
        .map(|(p, s, c, t, m, _, _)| state(p, *s, *c, *t, *m))
        .collect();
    let plan = plan_etc(&states);
    for (p, _, _, _, _, bucket, sidecar) in cases {
        let path = p.to_string();
        let got = if plan.take_target.contains(&path) {
            Bucket::Target
        } else if plan.dropped.contains(&path) {
            Bucket::Dropped
        } else if plan.carried.contains(&path) {
            Bucket::Carried
        } else if plan.identity.contains(&path) {
            Bucket::Identity
        } else {
            Bucket::Nowhere
        };
        assert_eq!(&got, bucket, "bucket for {p}");
        assert_eq!(plan.sidecars.contains(&path), *sidecar, "sidecar for {p}");
    }
    // Every replaced or dropped path, and only those, becomes a forced
    // target-default decision for mergetc.
    let overrides = plan.overrides();
    for p in plan.take_target.iter().chain(plan.dropped.iter()) {
        assert_eq!(overrides.get(p), Some(false), "{p}");
    }
    for p in plan.carried.iter().chain(plan.identity.iter()) {
        assert!(
            overrides.get(p).is_none(),
            "{p} must not be overridden"
        );
    }
    assert_eq!(
        overrides.decisions.len(),
        plan.take_target.len() + plan.dropped.len()
    );
    // Sorted, so the report and JSON are stable.
    let mut sorted = plan.take_target.clone();
    sorted.sort();
    assert_eq!(plan.take_target, sorted);
}

#[test]
fn cross_family_refusal_policy_table() {
    let plan = CrossFamilyPlan {
        host: base("fedora", None),
        target: base("opensuse-tumbleweed", Some("opensuse suse")),
    };
    let cross = CrossFamilyVerdict::CrossFamily(Box::new(plan));
    let same = CrossFamilyVerdict::SameFamily(Lineage::SameFamily);
    let unknown = CrossFamilyVerdict::Unknown("the target image could not be scanned");

    // Not accepted: only a positive same-family finding proceeds.
    assert!(same.refusal(false).is_none());
    let cross_msg = cross.refusal(false).expect("cross-family must refuse");
    assert!(cross_msg.contains("Cross-family re-base detected"));
    assert!(cross_msg.contains("fedora"));
    assert!(cross_msg.contains("opensuse-tumbleweed"));
    assert!(cross_msg.contains("--accept-cross-base"));
    assert!(cross_msg.contains("#256"));
    let unknown_msg = unknown.refusal(false).expect("unknown must refuse (#191)");
    assert!(unknown_msg.contains("Cannot determine whether this is a cross-family re-base"));
    assert!(unknown_msg.contains("--accept-cross-base"));

    // Accepted: every verdict proceeds.
    for v in [&cross, &same, &unknown] {
        assert!(v.refusal(true).is_none(), "{v:?}");
    }
}

/// Phase 4's decision from the mounted identities: refuse cross-family
/// unless accepted, plan when accepted, keep the standard merge for
/// same-family and for anything it cannot compare.
#[test]
fn decide_table() {
    let fedora = || Some(base("bluefin", Some("fedora")));
    let dakota = || Some(base("dakota", Some("fedora")));
    let suse = || Some(base("opensuse-tumbleweed", Some("opensuse suse")));

    // Same family: no plan, accepted or not.
    assert!(decide(fedora(), dakota(), false).unwrap().is_none());
    assert!(decide(fedora(), dakota(), true).unwrap().is_none());
    // Cross-family, not accepted: refused, naming both sides.
    let err = decide(fedora(), suse(), false).unwrap_err();
    assert!(err.contains("Cross-family re-base detected"), "{err}");
    assert!(err.contains("opensuse-tumbleweed"));
    assert!(err.contains("--accept-cross-base"));
    // Cross-family, accepted: the plan carries both identities.
    let plan = decide(fedora(), suse(), true).unwrap().unwrap();
    assert_eq!(plan.host.id, "bluefin");
    assert_eq!(plan.target.id, "opensuse-tumbleweed");
    // Unreadable on either side: never a refusal, never a plan.
    assert!(decide(None, suse(), false).unwrap().is_none());
    assert!(decide(fedora(), None, true).unwrap().is_none());
}

#[test]
fn relabel_needed_table() {
    let cfg = |mode: &str, ty: Option<&str>| SelinuxConfig {
        selinux: Some(mode.into()),
        selinux_type: ty.map(Into::into),
    };
    let cases = [
        // (host, target, expected)
        (None, None, false),
        // Target enforces, host had no SELinux at all: labels missing.
        (None, Some(cfg("enforcing", Some("targeted"))), true),
        // Same type on both sides: nothing to do.
        (
            Some(cfg("enforcing", Some("targeted"))),
            Some(cfg("enforcing", Some("targeted"))),
            false,
        ),
        // Type differs.
        (
            Some(cfg("enforcing", Some("targeted"))),
            Some(cfg("enforcing", Some("mls"))),
            true,
        ),
        // Host disabled, target enforcing: labels stale or absent.
        (
            Some(cfg("disabled", Some("targeted"))),
            Some(cfg("enforcing", Some("targeted"))),
            true,
        ),
        // Target disabled or typeless: never.
        (
            Some(cfg("enforcing", Some("targeted"))),
            Some(cfg("disabled", Some("targeted"))),
            false,
        ),
        (
            Some(cfg("enforcing", Some("targeted"))),
            Some(cfg("enforcing", None)),
            false,
        ),
        // Target present, host absent, permissive still needs labels.
        (None, Some(cfg("permissive", Some("targeted"))), true),
    ];
    for (host, target, want) in cases {
        assert_eq!(
            relabel_needed(host.as_ref(), target.as_ref()),
            want,
            "host={host:?} target={target:?}"
        );
    }
}

#[test]
fn firstboot_unit_rendering() {
    // Nothing to do → no unit at all, so a same-numbering, same-policy
    // re-base leaves no trace in the staged /etc.
    assert!(render_firstboot_unit(&[], false).is_none());

    let steps = [
        RemapStep {
            kind: IdKind::Gid,
            from: 10,
            to: 60000,
        },
        RemapStep {
            kind: IdKind::Gid,
            from: 997,
            to: 10,
        },
        RemapStep {
            kind: IdKind::Uid,
            from: 81,
            to: 499,
        },
    ];
    let unit = render_firstboot_unit(&steps, true).unwrap();
    let lines: Vec<&str> = unit.lines().collect();
    // Armed by the marker, runs once, before services start.
    assert!(lines.contains(&format!("ConditionPathExists=/etc/{FIRSTBOOT_MARKER}").as_str()));
    assert!(lines.contains(&"Before=sysinit.target"));
    assert!(lines.contains(&"WantedBy=sysinit.target"));
    assert!(lines.contains(&"Type=oneshot"));
    // Steps in order, gid steps spelled with the leading colon, over /var
    // only (the staged /etc was renumbered before the reboot).
    let execs: Vec<&str> = lines
        .iter()
        .copied()
        .filter(|l| l.starts_with("ExecStart="))
        .collect();
    assert_eq!(
        execs,
        vec![
            "ExecStart=/usr/bin/chown -hR --from=:10 :60000 /var",
            "ExecStart=/usr/bin/chown -hR --from=:997 :10 /var",
            "ExecStart=/usr/bin/chown -hR --from=81 499 /var",
            "ExecStart=-/usr/sbin/restorecon -RF /etc /var",
            &format!("ExecStart=/usr/bin/rm -f /etc/{FIRSTBOOT_MARKER}"),
        ]
    );
    assert!(
        !unit.contains("/etc\n"),
        "chown must never touch /etc: {unit}"
    );

    // Relabel alone: no chown lines.
    let unit = render_firstboot_unit(&[], true).unwrap();
    assert!(!unit.contains("chown"));
    assert!(unit.contains("restorecon"));
    // Remap alone: no restorecon.
    let unit = render_firstboot_unit(&steps[..1], false).unwrap();
    assert!(unit.contains("chown"));
    assert!(!unit.contains("restorecon"));
}

#[test]
fn carry_over_lists_are_machine_state_only() {
    for p in ["fstab", "hostname", "hosts", "localtime"] {
        assert!(is_carried_over(p), "{p}");
    }
    for p in [
        "ssh/ssh_host_rsa_key.pub",
        "sudoers.d/wheel",
        "NetworkManager/system-connections/eth.nmconnection",
    ] {
        assert!(is_carried_over(p), "{p}");
    }
    for p in [
        "pam.d/login",
        "dnf/dnf.conf",
        "zypp/repos.d/oss.repo",
        "ssh/sshd_config",
        "selinux/config",
        "os-release",
    ] {
        assert!(!is_carried_over(p), "{p} must follow the target");
    }
}

#[test]
fn firstboot_unit_installs_enabled_and_armed() {
    let unit = render_firstboot_unit(&[], true).unwrap();
    let steps = install_firstboot_unit("/staged/etc", &unit, false);
    let unit_path = format!("/staged/etc/systemd/system/{FIRSTBOOT_UNIT}");
    let link_path = format!("/staged/etc/systemd/system/sysinit.target.wants/{FIRSTBOOT_UNIT}");
    let marker = format!("/staged/etc/{FIRSTBOOT_MARKER}");
    assert!(steps
        .iter()
        .any(|s| matches!(s, Step::Write { path, contents, .. } if *path == unit_path && *contents == unit)));
    assert!(steps.iter().any(|s| matches!(s, Step::Link { target, path, .. }
        if *path == link_path && *target == format!("../{FIRSTBOOT_UNIT}"))));
    assert!(steps.iter().any(|s| matches!(s, Step::Write { path, .. } if *path == marker)));
    assert!(!steps.iter().any(|s| matches!(s, Step::Delete { .. })));

    // Re-installing (a --force refresh) replaces rather than fails.
    let again = install_firstboot_unit("/staged/etc", &unit, true);
    let gone = again
        .iter()
        .position(|s| matches!(s, Step::Delete { path, .. } if *path == link_path))
        .unwrap();
    let linked = again.iter().position(|s| matches!(s, Step::Link { .. })).unwrap();
    assert!(gone < linked);
}

/// What becomes of the paths of a live `/etc` between two families.
#[test]
fn policy_applied_through_the_merge() {
    let cases = [
        ("login.defs", true, true, true, false, EtcFate::TakeTarget, false),
        ("default/useradd", true, true, true, true, EtcFate::TakeTarget, true),
        ("dnf/dnf.conf", true, true, false, true, EtcFate::Drop, true),
        ("yum.repos.d/fedora.repo", true, true, false, false, EtcFate::Drop, false),
        ("zypp/repos.d/oss.repo", false, false, true, false, EtcFate::TakeTarget, false),
        ("hostname", true, true, true, true, EtcFate::Carry, false),
        ("migration-test/marker.conf", false, true, false, true, EtcFate::Carry, false),
        ("sudoers.d/90-realuser", false, true, false, true, EtcFate::Carry, false),
        ("passwd", true, true, true, true, EtcFate::MergeIdentity, false),
        ("shadow", true, true, true, true, EtcFate::MergeIdentity, false),
    ];
    let states: Vec<EtcPathState> =
        cases.iter().map(|(p, s, c, t, m, _, _)| state(p, *s, *c, *t, *m)).collect();
    let plan = plan_etc(&states);
    for ((p, _, _, _, _, fate, sidecar), st) in cases.iter().zip(states.iter()) {
        assert_eq!(etc_fate(st), *fate, "{p}");
        assert_eq!(plan.sidecars.contains(&p.to_string()), *sidecar, "{p}");
    }
    let report = render_etc_report(
        &base("fedora", None),
        &base("opensuse-tumbleweed", Some("opensuse suse")),
        &plan,
    );
    assert!(report.contains("dnf/dnf.conf"), "{report}");
    assert!(report.contains("opensuse-tumbleweed"), "{report}");
}

#[test]
fn verdicts_follow_the_lineage() {
    let caps = |b: Option<BaseInfo>| {
        Some(Capabilities {
            base: b,
            sysusers: vec![],
            bootc_present: true,
            bootupd_present: false,
            ostree_capable: true,
        })
    };
    let fedora = Some(base("bluefin", Some("fedora")));
    let near = build_verdict(&fedora, &caps(Some(base("dakota", Some("fedora")))));
    assert!(matches!(near, CrossFamilyVerdict::SameFamily(_)));
    assert!(gate(&near, false).is_ok());
    let far = build_verdict(&fedora, &caps(Some(base("arch", None))));
    assert!(matches!(far, CrossFamilyVerdict::CrossFamily(_)));
    assert!(gate(&far, false).is_err());
    assert!(gate(&far, true).is_ok());
    assert!(matches!(build_verdict(&fedora, &None), CrossFamilyVerdict::Unknown(_)));
    assert!(matches!(build_verdict(&None, &caps(None)), CrossFamilyVerdict::Unknown(_)));
}

fn outcome(host: &str, target_passwd: &str) -> CrossFamilyEtcOutcome {
    CrossFamilyEtcOutcome {
        plan: CrossFamilyPlan {
            host: base(host, None),
            target: base("opensuse-tumbleweed", Some("opensuse suse")),
        },
        etc_plan: plan_etc(&[]),
        target_passwd: target_passwd.to_string(),
        target_group: String::new(),
        target_selinux: None,
    }
}

/// The remap that the identity merge implies: wheel 10 -> 997.
#[test]
fn a_var_in_place_is_renumbered_on_the_first_boot() {
    let out = outcome("fedora", "root:x:0:0::/root:/bin/bash\nwheel:x:997:997::/:/sbin/nologin\n");
    let source = "root:x:0:0::/root:/bin/bash\nwheel:x:10:10::/:/sbin/nologin\n";
    let inputs = PostMergeInputs {
        etc_outcome: &out,
        staged_var: StagedVar::InPlace,
        host_selinux: None,
        source_passwd: source,
        source_group: "",
    };
    let plan = plan_post_merge(&inputs);
    let (passes, installed) = post_merge_lines(&plan, 3);
    assert_eq!(passes[0], "[phase4] cross-family remap: 3 file(s)/dir(s) renumbered");
    assert!(passes[1].starts_with("[phase4] /var is a dedicated filesystem"));
    assert_eq!(
        installed.unwrap(),
        "[phase4] installed bootc-migrate-cross-family-firstboot.service (relabel: false, \
         deferred /var remap steps: 2)"
    );
    assert_eq!(plan.remap.remaps.len(), 1);
    assert_eq!(plan.remap.remaps[0].name, "wheel");
    assert_eq!((plan.remap.remaps[0].old_id, plan.remap.remaps[0].new_id), (10, 997));
    assert!(plan.var_remap_deferred);
    assert!(!plan.renumber_var_now);
    assert!(plan.firstboot_unit.as_ref().unwrap().contains("chown -hR --from=10"));

    let copied = PostMergeInputs { staged_var: StagedVar::Copied("/x/var"), ..inputs };
    let plan = plan_post_merge(&copied);
    assert!(plan.renumber_var_now);
    assert!(!plan.var_remap_deferred);
    assert!(plan.firstboot_unit.is_none());
    let report = post_merge_report(out.clone(), plan, 7);
    assert_eq!(report.rechowned_now, 7);
    assert!(!report.firstboot_unit_installed);
    assert_eq!(report.host.id, "fedora");
}

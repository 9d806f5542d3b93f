//! Conflicts of `/etc` between two bases.

use bootc_migrate_core::etc_conflict::{
    apply_etc_conflict_plan, classify, collect_etc_triples, is_exempt, plan_etc_conflicts,
    relative_path, render_report, vendor_etc_dir, write_from, Decision, EtcConflict,
    EtcConflictPlan, EtcEntry, EtcSource, EtcTriple, EtcWrite, FileRights, WriteMove,
};

fn file(content: &str) -> Option<EtcEntry> {
    Some(EtcEntry::File(content.as_bytes().to_vec()))
}

fn link(target: &str) -> Option<EtcEntry> {
    Some(EtcEntry::Symlink(target.to_string()))
}

struct Case {
    name: &'static str,
    path: &'static str,
    source: Option<EtcEntry>,
    current: Option<EtcEntry>,
    target: Option<EtcEntry>,
    expected: Option<Decision>,
}

#[test]
fn classify_covers_every_three_way_shape() {
    let cases = [
        Case {
            name: "all three differ on a policy file -> target default wins",
            path: "dnf/dnf.conf",
            source: file("fedora"),
            current: file("user"),
            target: file("centos"),
            expected: Some(Decision::TakeTargetDefault),
        },
        Case {
            name: "same-family: defaults agree, so the user edit is not a conflict",
            path: "dnf/dnf.conf",
            source: file("same"),
            current: file("user"),
            target: file("same"),
            expected: None,
        },
        Case {
            name: "user never diverged: native merge already took the new default",
            path: "dnf/dnf.conf",
            source: file("fedora"),
            current: file("fedora"),
            target: file("centos"),
            expected: None,
        },
        Case {
            name: "user's value already equals the target default",
            path: "dnf/dnf.conf",
            source: file("fedora"),
            current: file("centos"),
            target: file("centos"),
            expected: None,
        },
        Case {
            name: "absent from the target's defaults",
            path: "dnf/dnf.conf",
            source: file("fedora"),
            current: file("user"),
            target: None,
            expected: None,
        },
        Case {
            name: "absent from the source's defaults (user-added)",
            path: "dnf/dnf.conf",
            source: None,
            current: file("user"),
            target: file("centos"),
            expected: None,
        },
        Case {
            name: "deleted by the user",
            path: "dnf/dnf.conf",
            source: file("fedora"),
            current: None,
            target: file("centos"),
            expected: None,
        },
        Case {
            name: "symlinks all differ -> target default wins",
            path: "localtime",
            source: link("../usr/share/zoneinfo/UTC"),
            current: link("../usr/share/zoneinfo/Europe/Dublin"),
            target: link("../usr/share/zoneinfo/America/New_York"),
            expected: Some(Decision::TakeTargetDefault),
        },
        Case {
            name: "kind change between trees is out of scope",
            path: "resolv.conf",
            source: file("nameserver 1.1.1.1"),
            current: link("../run/systemd/resolve/stub-resolv.conf"),
            target: file("nameserver 8.8.8.8"),
            expected: None,
        },
        Case {
            name: "identity DB is exempt, never force-defaulted (#80)",
            path: "passwd",
            source: file("root:x:0:0"),
            current: file("root:x:0:0\njames:x:1000:1000"),
            target: file("root:x:0:0\nmessagebus:x:81:81"),
            expected: Some(Decision::ExemptKeepCurrent),
        },
        Case {
            name: "machine-id is exempt",
            path: "machine-id",
            source: file("aaaa"),
            current: file("bbbb"),
            target: file("cccc"),
            expected: Some(Decision::ExemptKeepCurrent),
        },
        Case {
            name: "fstab is exempt: the target cannot know this host's disks",
            path: "fstab",
            source: file("UUID=a / xfs defaults 0 0"),
            current: file("UUID=b / btrfs defaults 0 0"),
            target: file("UUID=c / ext4 defaults 0 0"),
            expected: Some(Decision::ExemptKeepCurrent),
        },
        Case {
            name: "crypttab is exempt",
            path: "crypttab",
            source: file("luks-a UUID=a none"),
            current: file("luks-b UUID=b none"),
            target: file("luks-c UUID=c none"),
            expected: Some(Decision::ExemptKeepCurrent),
        },
        Case {
            name: "hostname is machine identity, exempt",
            path: "hostname",
            source: file("localhost"),
            current: file("my-desktop"),
            target: file("centos"),
            expected: Some(Decision::ExemptKeepCurrent),
        },
        Case {
            name: "ssh host keys are exempt by prefix",
            path: "ssh/ssh_host_ed25519_key",
            source: file("src-key"),
            current: file("live-key"),
            target: file("tgt-key"),
            expected: Some(Decision::ExemptKeepCurrent),
        },
        Case {
            name: "ssh/sshd_config is NOT a host key and stays in policy",
            path: "ssh/sshd_config",
            source: file("PermitRootLogin no"),
            current: file("PermitRootLogin yes"),
            target: file("PermitRootLogin prohibit-password"),
            expected: Some(Decision::TakeTargetDefault),
        },
        Case {
            name: "lvm config is exempt by prefix",
            path: "lvm/lvm.conf",
            source: file("a"),
            current: file("b"),
            target: file("c"),
            expected: Some(Decision::ExemptKeepCurrent),
        },
        Case {
            name: "an existing sidecar is never re-displaced",
            path: "dnf/dnf.conf.rebase-old",
            source: file("fedora"),
            current: file("user"),
            target: file("centos"),
            expected: None,
        },
    ];

    for case in cases {
        let triple = EtcTriple {
            path: case.path.to_string(),
            source_default: case.source,
            current: case.current,
            target_default: case.target,
        };
        assert_eq!(classify(&triple), case.expected, "case: {}", case.name);
    }
}

#[test]
fn plan_sorts_and_names_sidecars() {
    let triples = vec![
        EtcTriple {
            path: "zz.conf".to_string(),
            source_default: file("s"),
            current: file("c"),
            target_default: file("t"),
        },
        EtcTriple {
            path: "aa.conf".to_string(),
            source_default: file("s"),
            current: file("c"),
            target_default: file("t"),
        },
        EtcTriple {
            path: "fstab".to_string(),
            source_default: file("s"),
            current: file("c"),
            target_default: file("t"),
        },
        EtcTriple {
            path: "untouched.conf".to_string(),
            source_default: file("s"),
            current: file("s"),
            target_default: file("t"),
        },
    ];

    let plan = plan_etc_conflicts(&triples);
    assert_eq!(
        plan.resolved,
        vec![
            EtcConflict {
                path: "aa.conf".to_string(),
                sidecar: "aa.conf.rebase-old".to_string(),
            },
            EtcConflict {
                path: "zz.conf".to_string(),
                sidecar: "zz.conf.rebase-old".to_string(),
            },
        ]
    );
    assert_eq!(plan.exempt, vec!["fstab".to_string()]);
    assert!(!plan.is_empty());
}

#[test]
fn empty_plan_reports_nothing_to_reconcile() {
    let plan = EtcConflictPlan::default();
    assert!(plan.is_empty());
    let report = render_report(&plan);
    assert!(
        report.contains("nothing to reconcile"),
        "unexpected report: {report}"
    );
}

#[test]
fn report_lists_each_rewrite_and_each_exemption() {
    let plan = EtcConflictPlan {
        resolved: vec![EtcConflict {
            path: "dnf/dnf.conf".to_string(),
            sidecar: "dnf/dnf.conf.rebase-old".to_string(),
        }],
        exempt: vec!["fstab".to_string()],
    };
    let report = render_report(&plan);
    assert!(
        report.contains("/etc/dnf/dnf.conf") && report.contains("/etc/dnf/dnf.conf.rebase-old"),
        "unexpected report: {report}"
    );
    assert!(report.contains("/etc/fstab"), "unexpected report: {report}");
}

#[test]
fn vendor_etc_dir_is_usr_etc_under_the_deployment() {
    assert_eq!(
        vendor_etc_dir("/ostree/deploy/default/deploy/abc.0"),
        "/ostree/deploy/default/deploy/abc.0/usr/etc"
    );
}

fn triple(
    path: &str,
    source_default: Option<EtcEntry>,
    current: Option<EtcEntry>,
    target_default: Option<EtcEntry>,
) -> EtcTriple {
    EtcTriple { path: path.to_string(), source_default, current, target_default }
}

/// Collect, plan and work out what is written, on the contents of three trees.
#[test]
fn collect_plan_apply_round_trip() {
    let read = vec![
        // Symlink conflict.
        triple(
            "localtime",
            link("../usr/share/zoneinfo/UTC"),
            link("../usr/share/zoneinfo/Europe/Dublin"),
            link("../usr/share/zoneinfo/America/New_York"),
        ),
        // Untouched: the user never diverged.
        triple("issue", file("source\n"), file("source\n"), file("target\n")),
        // Exempt: all three differ, but it is fstab.
        triple("fstab", file("source\n"), file("user\n"), file("target\n")),
        // Conflict: all three differ.
        triple(
            "dnf/dnf.conf",
            file("[main]\nsource\n"),
            file("[main]\nuser\n"),
            file("[main]\ntarget\n"),
        ),
        // Present only in the source's defaults: not a candidate.
        triple("source-only.conf", file("source\n"), file("user\n"), None),
    ];
    let triples = collect_etc_triples(read);
    let collected: Vec<&str> = triples.iter().map(|t| t.path.as_str()).collect();
    assert_eq!(
        collected,
        vec!["dnf/dnf.conf", "fstab", "issue", "localtime"],
        "source-only paths must not become candidates"
    );

    let plan = plan_etc_conflicts(&triples);
    assert_eq!(
        plan.resolved.iter().map(|c| c.path.as_str()).collect::<Vec<_>>(),
        vec!["dnf/dnf.conf", "localtime"]
    );
    assert_eq!(plan.exempt, vec!["fstab".to_string()]);

    // The user's value is kept beside the target's default.
    let (writes, rewritten) = apply_etc_conflict_plan(&plan);
    assert_eq!(rewritten, 2);
    let want = |source: EtcSource, path: &str, dest: &str| EtcWrite {
        source,
        path: path.to_string(),
        dest: dest.to_string(),
    };
    assert_eq!(
        writes,
        vec![
            want(EtcSource::Current, "dnf/dnf.conf", "dnf/dnf.conf.rebase-old"),
            want(EtcSource::TargetDefault, "dnf/dnf.conf", "dnf/dnf.conf"),
            want(EtcSource::Current, "localtime", "localtime.rebase-old"),
            want(EtcSource::TargetDefault, "localtime", "localtime"),
        ]
    );
}

#[test]
fn the_order_of_the_triples_does_not_matter() {
    let there = vec![
        triple("b.conf", file("s"), file("u"), file("t")),
        triple("fstab", file("s"), file("u"), file("t")),
        triple("a.conf", file("s"), file("u"), file("t")),
        triple("crypttab", file("s"), file("u"), file("t")),
        triple("left.conf", file("s"), file("s"), file("t")),
    ];
    let mut back = there.clone();
    back.reverse();
    assert_ne!(there, back);
    assert_eq!(plan_etc_conflicts(&there), plan_etc_conflicts(&back));
    assert_eq!(plan_etc_conflicts(&back).exempt, vec!["crypttab", "fstab"]);
}

#[test]
fn a_written_file_has_the_mode_and_owner_of_the_one_read() {
    let rights = FileRights { mode: 0o640, uid: 7, gid: 9 };
    assert_eq!(
        write_from("/etc/a.conf", file("user\n"), rights, true).unwrap(),
        vec![
            WriteMove::MakeParent,
            WriteMove::Clear,
            WriteMove::Write(b"user\n".to_vec()),
            WriteMove::SetMode(0o640),
            WriteMove::SetOwner { uid: 7, gid: 9 },
            WriteMove::CopyAttributes,
        ]
    );
    assert_eq!(
        write_from("/etc/localtime", link("../usr"), rights, false).unwrap(),
        vec![WriteMove::MakeParent, WriteMove::Link("../usr".to_string())]
    );
    assert_eq!(
        write_from("/etc/a.conf", None, rights, false).unwrap_err(),
        "/etc/a.conf vanished between planning and apply"
    );
}

#[test]
fn paths_below_etc_are_relative() {
    assert_eq!(relative_path("", "fstab"), "fstab");
    assert_eq!(relative_path("dnf", "dnf.conf"), "dnf/dnf.conf");
    assert!(is_exempt("fstab"));
    assert!(!is_exempt("dnf/dnf.conf"));
}

#[test]
fn the_writes_touch_no_other_path() {
    let plan = EtcConflictPlan {
        resolved: vec![EtcConflict { path: "issue".into(), sidecar: "issue.rebase-old".into() }],
        ..Default::default()
    };
    let (writes, rewritten) = apply_etc_conflict_plan(&plan);
    assert_eq!(rewritten, 1);
    let touched: Vec<&str> = writes.iter().map(|w| w.dest.as_str()).collect();
    assert_eq!(touched, vec!["issue.rebase-old", "issue"]);
    assert_eq!(apply_etc_conflict_plan(&EtcConflictPlan::default()), (vec![], 0));
}

//! Re-basing onto another base.

use bootc_migrate_core::cross_base::{
    after_scan_failure, build_cross_base_plan, etc_policy_skip, gate_cross_base,
    is_plannable, is_retryable_scan_error, parse_booted_deployment_root, parse_staged_deployment_root,
    scan_retry_delay, total_backoff_secs, warn_identity_merge_gap, CrossBaseVerdict, ScanStep,
    SCAN_ATTEMPTS,
};
use bootc_migrate_core::remap;
use bootc_migrate_core::scan::{BaseInfo, Capabilities, SysusersEntry};

/// A missing `curl` cannot fix itself between attempts. Retrying it wastes
/// the backoff window and buries the real cause under an "after N
/// attempts" preamble that reads like a network fault — which is how
/// bootc-migrate#187 stayed misdiagnosed as unreachable-registry.
#[test]
fn a_missing_curl_is_not_retried_but_a_transport_failure_is() {
    let missing_curl =
        "could not execute `curl` to probe https://ghcr.io/v2/ (is curl installed in this image?)";
    assert!(!is_retryable_scan_error(missing_curl));

    for transient in [
        "curl probe to https://ghcr.io/v2/ failed: Could not resolve host",
        "curl probe to https://ghcr.io/v2/ failed: Connection timed out",
        "unexpected status from https://ghcr.io/v2/: 503",
    ] {
        assert!(is_retryable_scan_error(transient), "should retry: {transient}");
    }
}

/// The window has to be wide enough for a cold guest's network to come up.
/// The flat 2s x 3 it replaced covered only ~4s.
#[test]
fn scan_backoff_widens_and_covers_a_cold_boot_window() {
    let delays: Vec<u64> = (1..SCAN_ATTEMPTS)
        .map(scan_retry_delay)
        .collect();
    assert_eq!(
        delays,
        vec![2_u64, 4, 8],
        "expected exponential backoff, got {delays:?}"
    );
    assert!(
        total_backoff_secs() >= 14,
        "window must exceed the ~4s it replaced, got {}s",
        total_backoff_secs()
    );
}

#[test]
fn staged_deployment_root_picks_non_starred_line() {
    // Real `ostree admin status` output: the booted deployment is
    // prefixed with '*', the staged one is not.
    let status = "* dakota abc123.0\nbluefin def456.1\n";
    let root = parse_staged_deployment_root(status).unwrap();
    assert_eq!(
        root,
        "/ostree/deploy/bluefin/deploy/def456.1"
    );
}

#[test]
fn staged_deployment_root_errors_when_only_booted_present() {
    let only_booted = "* dakota abc123.0\n";
    assert!(parse_staged_deployment_root(only_booted).is_err());
}

#[test]
fn staged_deployment_root_errors_on_malformed_line() {
    let malformed = "* dakota abc123.0\nonly-one-field\n";
    assert!(parse_staged_deployment_root(malformed).is_err());
}

#[test]
fn booted_deployment_root_picks_the_starred_line() {
    // The staged deployment is listed first; the booted one carries the
    // '*' marker wherever it appears.
    let status = "  bluefin def456.1\n* dakota abc123.0\n";
    assert_eq!(
        parse_booted_deployment_root(status).unwrap(),
        "/ostree/deploy/dakota/deploy/abc123.0"
    );
    assert_eq!(
        parse_staged_deployment_root(status).unwrap(),
        "/ostree/deploy/bluefin/deploy/def456.1"
    );
}

#[test]
fn booted_deployment_root_errors_when_nothing_is_booted() {
    assert!(parse_booted_deployment_root("  bluefin def456.1\n").is_err());
    assert!(parse_booted_deployment_root("* only-one-field\n").is_err());
}

/// bootc-migrate#191. The table is the whole point: "we checked and the
/// bases match" and "we could not check" must not decide the same way,
/// because only one of them is evidence of safety.
#[test]
fn cross_base_refusal_policy_table() {
    let unknown = CrossBaseVerdict::Unknown("the target image could not be scanned");
    let same = CrossBaseVerdict::SameLineage;
    let cross = CrossBaseVerdict::CrossBase(Box::new(remap::plan_remap(
        &remap::parse_passwd("dbus:x:81:81::/:/sbin/nologin\n"),
        &remap::parse_group("dbus:x:81:\n"),
        &remap::parse_passwd("dbus:x:82:82::/:/sbin/nologin\n"),
        &remap::parse_group("dbus:x:82:\n"),
    )));

    // Not accepted: only a positive same-lineage finding proceeds.
    assert!(same.refusal(false).is_none(), "same lineage needs no gate");
    assert!(
        unknown.refusal(false).is_some(),
        "an unknown verdict must refuse — this is the #191 regression"
    );
    assert!(cross.refusal(false).is_some(), "cross-base must refuse");

    // Accepted (--accept-cross-base or --force): the operator has opted
    // in, so every verdict proceeds.
    for v in [&unknown, &same, &cross] {
        assert!(
            v.refusal(true).is_none(),
            "explicit acceptance must always proceed: {v:?}"
        );
    }
}

/// The refusal has to be actionable: name the cause, and say that this is
/// not a clean bill of health. A message that reads like "no problems
/// found" would recreate the bug at the human layer.
#[test]
fn unknown_refusal_explains_itself() {
    let msg = CrossBaseVerdict::Unknown("the target image could not be scanned")
        .refusal(false)
        .expect("must refuse");
    assert!(
        msg.contains("the target image could not be scanned"),
        "{msg}"
    );
    assert!(
        msg.contains("not the same as having checked"),
        "must distinguish unknown from clean: {msg}"
    );
    assert!(
        msg.contains("--accept-cross-base"),
        "must name the escape hatch: {msg}"
    );
}

fn base(id: &str, like: Option<&str>) -> BaseInfo {
    BaseInfo { id: id.into(), id_like: like.map(Into::into), version_id: None }
}

fn caps(b: Option<BaseInfo>) -> Option<Capabilities> {
    Some(Capabilities {
        base: b,
        sysusers: vec![],
        bootc_present: true,
        bootupd_present: false,
        ostree_capable: true,
    })
}

#[test]
fn a_failed_scan_is_retried_until_the_attempts_are_used_up() {
    let e = "unexpected status from https://ghcr.io/v2/: 503";
    assert_eq!(after_scan_failure(1, e, "x"), ScanStep::Retry { delay_secs: 2 });
    assert_eq!(after_scan_failure(3, e, "x"), ScanStep::Retry { delay_secs: 8 });
    assert!(matches!(after_scan_failure(4, e, "x"), ScanStep::GiveUp { .. }));
    let hopeless = "could not execute `curl` (is curl installed in this image?)";
    assert!(matches!(after_scan_failure(1, hopeless, "x"), ScanStep::GiveUp { .. }));
}

#[test]
fn the_finding_decides_on_the_plan() {
    let passwd = "dbus:x:81:81::/:/sbin/nologin\n";
    let moved = "dbus:x:82:82::/:/sbin/nologin\n";
    let fedora = Some(base("fedora", None));
    let suse = base("opensuse-tumbleweed", Some("opensuse suse"));
    let cross = build_cross_base_plan(&fedora, &caps(Some(suse)), passwd, "", moved, "");
    match &cross {
        CrossBaseVerdict::CrossBase(plan) => {
            assert_eq!(plan.remaps.len(), 1);
            assert_eq!((plan.remaps[0].old_id, plan.remaps[0].new_id), (81, 82));
        }
        other => panic!("{other:?}"),
    }
    assert!(gate_cross_base(cross, false, false).is_err());
    let same =
        build_cross_base_plan(&fedora, &caps(Some(base("fedora", None))), passwd, "", moved, "");
    assert!(matches!(same, CrossBaseVerdict::SameLineage));
    assert!(gate_cross_base(same, false, false).unwrap().0.is_none());
    let unscanned = build_cross_base_plan(&fedora, &None, passwd, "", moved, "");
    assert!(matches!(unscanned, CrossBaseVerdict::Unknown(_)));
    assert!(gate_cross_base(unscanned, false, true).is_ok());
}

#[test]
fn accounts_that_the_host_lacks_are_told_of() {
    let entry = SysusersEntry { kind: 'u', name: "messagebus".into(), id: Some(81) };
    let warning = warn_identity_merge_gap(&[entry.clone()], "root:x:0:0::/:/\n", "").unwrap();
    assert!(warning.contains("messagebus"), "{warning}");
    assert!(warn_identity_merge_gap(&[entry], "messagebus:x:81:81::/:/\n", "").is_none());
}

#[test]
fn the_policy_is_skipped_where_a_tree_is_missing() {
    assert!(etc_policy_skip("/a", true, "/b", true, "/c", true).is_none());
    assert!(etc_policy_skip("/a", false, "/b", true, "/c", true).unwrap().contains("/a"));
    assert!(etc_policy_skip("/a", true, "/b", false, "/c", true).unwrap().contains("/b"));
}

#[test]
fn lines_that_tell_more_of_a_deployment_are_passed_over() {
    let lone = "* default bef2.0\n    origin: <unknown origin type>\n";
    assert!(parse_staged_deployment_root(lone).is_err());
    let versioned = "* default bef2.0\n    Version: 41.0\n    origin refspec: fedora:x/41.1\n";
    assert!(parse_staged_deployment_root(versioned).is_err());
    let both = "* default bef2.0\n    origin: <unknown origin type>\n  default ab12.1 (pending)\n";
    assert_eq!(
        parse_staged_deployment_root(both).unwrap(),
        "/ostree/deploy/default/deploy/ab12.1"
    );
    for no_deployment in ["  default ab12", "  default .0", "  default xyz.0", "  default ab.0x"] {
        assert!(parse_staged_deployment_root(no_deployment).is_err(), "{no_deployment}");
    }
}

#[test]
fn ordinary_tables_can_be_planned_for() {
    let passwd = "a:x:101:101::/:/\n";
    assert!(is_plannable(passwd, "a:x:101:\n", passwd, ""));
    assert!(is_plannable("", "", "", ""));
}

//! The head of a run's log.

use bootc_migrate_core::runlog::run_header;

#[test]
fn header_starts_on_its_own_line_and_names_the_build() {
    let h = run_header(
        "bootc-rebase",
        "0.5.0",
        1_756_000_000,
        &[
            "rebase".into(),
            "-t".into(),
            "ghcr.io/example/img:tag".into(),
        ],
    );
    // Leading newline: the previous run's last line may not have ended in
    // one, and a header glued to it is the thing a reader scrolls for.
    assert!(h.starts_with('\n'));
    assert!(h.ends_with("===\n"));
    assert!(h.contains("bootc-rebase 0.5.0"));
    assert!(h.contains("unix time 1756000000"));
    assert!(h.contains("args: rebase -t ghcr.io/example/img:tag"));
}

#[test]
fn header_records_a_bare_invocation_explicitly() {
    let h = run_header("bootc-migrate", "abc1234", 0, &[]);
    assert!(h.contains("args: (none)"));
}

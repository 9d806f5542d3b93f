//! The file that keeps the state before a migration.

use bootc_migrate_core::preflight::snapshot::{
    fresh_snapshot_filename, snapshot_filename, SNAPSHOT_DIR,
};

#[test]
fn snapshot_filename_embeds_timestamp() {
    assert_eq!(
        snapshot_filename(1_700_000_000),
        "preflight-1700000000.json"
    );
}

#[test]
fn write_snapshot_targets_the_documented_directory() {
    assert_eq!(SNAPSHOT_DIR, "/var/log/bootc-migrate");
}

#[test]
fn a_run_in_the_same_second_gets_a_name_of_its_own() {
    assert_eq!(fresh_snapshot_filename(5, &[]), "preflight-5.json");
    let mut present = vec!["bootc-migrate.log".to_string(), snapshot_filename(5)];
    assert_eq!(fresh_snapshot_filename(5, &present), "preflight-5-1.json");
    present.push("preflight-5-1.json".to_string());
    assert_eq!(fresh_snapshot_filename(5, &present), "preflight-5-2.json");
    assert_eq!(fresh_snapshot_filename(6, &present), "preflight-6.json");
}

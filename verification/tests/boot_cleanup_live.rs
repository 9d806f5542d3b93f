//! The record of the firmware's entries, and what is made of it.

use bootc_migrate_core::boot_audit::BootEntry;
use bootc_migrate_core::boot_cleanup::live::{
    create_entry_args, delete_entry_args, latest_snapshot, newly_created_id, order_after_rename,
    order_after_undo, parse_snapshot_timestamp, plan_steps, set_boot_order_args, snapshot_filename,
    snapshot_from_output, NvramStep,
};
use bootc_migrate_core::boot_cleanup::plan::{CleanupPlan, PlannedOp};

const SAMPLE: &str = "\
BootCurrent: 0001\n\
Timeout: 1 seconds\n\
BootOrder: 0001,0000\n\
Boot0000* Fedora\tHD(1,GPT,123)/File(\\EFI\\fedora\\shimx64.efi)\n\
Boot0001* Linux Boot Manager\tHD(1,GPT,123)/File(\\EFI\\systemd\\systemd-bootx64.efi)\n";

fn entry(id: &str, label: &str) -> BootEntry {
    BootEntry {
        id: id.to_string(),
        label: label.to_string(),
        active: true,
        loader_path: Some("\\EFI\\x.efi".to_string()),
    }
}

#[test]
fn snapshot_captures_both_representations() {
    let snapshot = snapshot_from_output(SAMPLE, 1_700_000_000);
    assert_eq!(snapshot.taken_at_unix_secs, 1_700_000_000);
    assert_eq!(snapshot.boot_order.as_deref(), Some("0001,0000"));
    assert_eq!(snapshot.boot_current.as_deref(), Some("0001"));
    assert_eq!(snapshot.entries.len(), 2);
    assert_eq!(snapshot.entries[0].label, "Fedora");
    // The raw text is kept verbatim for hand recovery.
    assert_eq!(snapshot.efibootmgr_v, SAMPLE);
}

#[test]
fn snapshot_filename_round_trips() {
    // (timestamp or filename, expectation)
    for secs in [0_u64, 1, 1_700_000_000, u64::MAX] {
        let name = snapshot_filename(secs);
        assert_eq!(parse_snapshot_timestamp(&name), Some(secs), "{name}");
    }
    for bogus in [
        "nvram.json",
        "nvram-.json",
        "nvram-abc.json",
        "nvram-123.txt",
        "other-123.json",
        "",
    ] {
        assert_eq!(parse_snapshot_timestamp(bogus), None, "{bogus}");
    }
}

#[test]
fn newly_created_id_cases() {
    let before = vec![entry("0000", "Fedora"), entry("0001", "Linux Boot Manager")];
    // Exactly one new id: that's ours.
    assert_eq!(
        newly_created_id(
            &before,
            &[
                before[0].clone(),
                before[1].clone(),
                entry("0007", "Dakota")
            ]
        ),
        Some("0007".to_string())
    );
    // Nothing appeared.
    assert_eq!(newly_created_id(&before, &before), None);
    // Two appeared — not attributable to our own --create.
    assert_eq!(
        newly_created_id(
            &before,
            &[
                before[0].clone(),
                entry("0007", "Dakota"),
                entry("0008", "Something else"),
            ]
        ),
        None
    );
    // Case-insensitive id comparison: efibootmgr prints uppercase hex.
    assert_eq!(
        newly_created_id(&[entry("000a", "x")], &[entry("000A", "x")]),
        None
    );
}

#[test]
fn latest_snapshot_picks_the_newest_and_ignores_strays() {
    // An empty directory is "nothing to undo".
    assert!(latest_snapshot(&[]).is_none());

    let mut names: Vec<String> = [1_700_000_000_u64, 1_700_000_500, 999]
        .iter()
        .map(|secs| snapshot_filename(*secs))
        .collect();
    // A stray file must not be mistaken for a snapshot, even though it
    // sorts last.
    names.push("zzz-notes.txt".to_string());

    assert_eq!(latest_snapshot(&names), Some(snapshot_filename(1_700_000_500)));
}

#[test]
fn commands_carry_what_they_are_about() {
    assert_eq!(
        create_entry_args("/dev/sda", "1", "\\EFI\\x.efi", "Dakota"),
        vec![
            "--create", "--disk", "/dev/sda", "--part", "1", "--loader", "\\EFI\\x.efi", "--label",
            "Dakota"
        ]
    );
    assert_eq!(delete_entry_args("0003"), vec!["-b", "0003", "-B"]);
    assert_eq!(set_boot_order_args("0001,0002"), vec!["--bootorder", "0001,0002"]);
}

#[test]
fn a_replacement_is_created_before_the_old_entry_goes() {
    let plan = CleanupPlan {
        ops: vec![
            PlannedOp::Delete { id: "0003".into(), label: "Old Ubuntu".into(), flags: vec![] },
            PlannedOp::Rename {
                id: "0004".into(),
                from_label: "UEFI OS".into(),
                to_label: "Dakota".into(),
                loader_path: "\\EFI\\BOOT\\BOOTX64.EFI".into(),
            },
        ],
    };
    let steps = plan_steps(&plan);
    assert_eq!(steps[0], NvramStep::ResolveEsp);
    let made = steps.iter().position(|s| matches!(s, NvramStep::Create { .. })).unwrap();
    let gone = steps.iter().position(|s| matches!(s, NvramStep::DeleteReplaced { .. })).unwrap();
    assert!(made < gone);
}

#[test]
fn orders_keep_places() {
    assert_eq!(
        order_after_rename(Some("0001,0004,0002"), "0004", "0007"),
        Some("0001,0007,0002".to_string())
    );
    assert_eq!(order_after_rename(None, "0004", "0007"), None);
    assert_eq!(
        order_after_undo("0001,0003", &[("0003".into(), "000B".into())], Some("0009,0001")),
        "0001,000B,0009"
    );
    assert_eq!(order_after_undo("0001,0003", &[], None), "0001,0003");
}

#[test]
fn snapshot_names_sort_by_time() {
    assert_eq!(snapshot_filename(7), "nvram-00000000000000000007.json");
    assert_eq!(snapshot_filename(u64::MAX), "nvram-18446744073709551615.json");
    let times = [0_u64, 9, 10, 999_999_999, 1_000_000_000, 1_700_000_000, u64::MAX];
    let names: Vec<String> = times.iter().map(|t| snapshot_filename(*t)).collect();
    let mut sorted = names.clone();
    sorted.sort();
    assert_eq!(sorted, names);
}

#[test]
fn only_names_that_were_made_give_a_time() {
    for other in [
        "nvram-7.json",
        "nvram-+0000000000000000007.json",
        "nvram-000000000000000000007.json",
        "nvram-18446744073709551616.json",
        "nvram-99999999999999999999.json",
        "nvram-0000000000000000000x.json",
    ] {
        assert_eq!(parse_snapshot_timestamp(other), None, "{other}");
    }
    assert_eq!(parse_snapshot_timestamp("nvram-00000000000000000007.json"), Some(7));
    let names = ["nvram-9.json".to_string(), snapshot_filename(3), snapshot_filename(8)];
    assert_eq!(latest_snapshot(&names), Some(snapshot_filename(8)));
}

//! The way back to OSTree.

use bootc_migrate_core::migration::rollback::{
    build_new_boot_order, is_ostree_rollback_entry, open_rollback, parse_boot_current,
    parse_boot_order, parse_ostree_boot_entry_id, register_rollback, run_rollback,
    verify_rollback_prerequisites, RollbackFacts,
};
use bootc_migrate_core::steps::Step;

#[test]
fn test_parse_ostree_boot_entry_id() {
    let sample = "\
BootCurrent: 0001\n\
Timeout: 1 seconds\n\
BootOrder: 0001,0000,0002\n\
Boot0000* Fedora\tHD(1,GPT,123)/File(\\EFI\\fedora\\shimx64.efi)\n\
Boot0001* Linux Boot Manager\tHD(1,GPT,123)/File(\\EFI\\systemd\\systemd-bootx64.efi)\n\
";
    assert_eq!(parse_ostree_boot_entry_id(sample), Some("0000".to_string()));
}

#[test]
fn test_parse_boot_order() {
    let sample = "\
BootCurrent: 0001\n\
Timeout: 1 seconds\n\
BootOrder: 0001,0000,0002\n\
";
    assert_eq!(parse_boot_order(sample), Some("0001,0000,0002".to_string()));
}

#[test]
fn test_parse_boot_current() {
    let sample = "\
BootCurrent: 0001\n\
Timeout: 1 seconds\n\
BootOrder: 0001,0000,0002\n\
";
    assert_eq!(parse_boot_current(sample), Some("0001".to_string()));
    assert_eq!(parse_boot_current("BootOrder: 0001\n"), None);
}

#[test]
fn test_build_new_boot_order() {
    assert_eq!(
        build_new_boot_order("0001,0000,0002", "0000"),
        "0000,0001,0002"
    );
    assert_eq!(build_new_boot_order("0000,0001", "0000"), "0000,0001");
    assert_eq!(build_new_boot_order("", "0000"), "0000");
}

#[test]
fn is_ostree_rollback_entry_cases() {
    // (label, loader_path, expected) — the rollback entry has to be
    // recognizable from either half, since firmware labels vary.
    let cases: &[(&str, Option<&str>, bool)] = &[
        ("Fedora", Some("\\EFI\\fedora\\shimx64.efi"), true),
        // Label alone is generic, but the loader path names shim.
        ("UEFI OS", Some("\\EFI\\fedora\\shimx64.efi"), true),
        // Loader path alone is generic, but the label names GRUB.
        ("GRUB2 bootloader", Some("\\EFI\\BOOT\\BOOTX64.EFI"), true),
        // No loader path at all: label still decides.
        ("Fedora", None, true),
        // systemd-boot is the *migrated* entry, never the rollback one.
        (
            "Linux Boot Manager",
            Some("\\EFI\\systemd\\systemd-bootx64.efi"),
            false,
        ),
        (
            "Windows Boot Manager",
            Some("\\EFI\\Microsoft\\Boot\\bootmgfw.efi"),
            false,
        ),
        ("UEFI OS", Some("\\EFI\\BOOT\\BOOTX64.EFI"), false),
        // Case-insensitive on both halves.
        ("FEDORA LINUX", None, true),
    ];
    for (label, loader, expected) in cases {
        assert_eq!(
            is_ostree_rollback_entry(label, *loader),
            *expected,
            "label={label} loader={loader:?}"
        );
    }
}

const ENTRIES: &str = "\
BootCurrent: 0001\n\
BootOrder: 0001,0000,0002\n\
Boot0000* Fedora\tHD(1,GPT,123)/File(\\EFI\\fedora\\shimx64.efi)\n\
Boot0001* Linux Boot Manager\tHD(1,GPT,123)/File(\\EFI\\systemd\\systemd-bootx64.efi)\n";

#[test]
fn a_dry_rollback_only_tells() {
    assert!(run_rollback(true, true, ENTRIES).unwrap().iter().all(|s| matches!(s, Step::Say(_))));
    let real = run_rollback(false, false, ENTRIES).unwrap();
    assert!(real.iter().any(|s| match s {
        Step::Run { argv, .. } | Step::Attempt { argv, .. } =>
            argv.contains(&"0000,0001,0002".to_string()),
        _ => false,
    }));
}

#[test]
fn a_registered_loader_is_put_first_under_the_id_it_got() {
    let before = "BootOrder: 0000,0001\n\
Boot0000* Windows Boot Manager\tHD(1,GPT,1)/File(\\EFI\\Microsoft\\Boot\\bootmgfw.efi)\n\
Boot0001* Linux Boot Manager\tHD(1,GPT,1)/File(\\EFI\\systemd\\systemd-bootx64.efi)\n";
    let after = format!(
        "{}Boot0002* Fedora\tHD(1,GPT,1)/File(\\EFI\\fedora\\shimx64.efi)\n",
        before.replace("0000,0001", "0002,0000,0001")
    );

    assert_eq!(register_rollback(false, ENTRIES), vec![]);
    let steps = register_rollback(false, before);
    assert!(matches!(&steps[1], Step::Run { argv, .. }
        if argv.join(" ") == "efibootmgr --create --label Fedora --loader \\EFI\\fedora\\shimx64.efi"));
    assert!(register_rollback(true, before).iter().all(|s| matches!(s, Step::Say(_))));

    let steps = run_rollback(false, false, &after).unwrap();
    assert!(matches!(&steps[1], Step::Run { argv, .. }
        if argv.join(" ") == "efibootmgr --bootorder 0002,0000,0001"));
    assert_eq!(
        run_rollback(false, false, before).unwrap_err(),
        "Failed to re-register Fedora boot entry in UEFI NVRAM via efibootmgr."
    );
    assert!(run_rollback(false, true, before).is_ok());
}

#[test]
fn a_rollback_needs_something_to_go_back_to() {
    let good = RollbackFacts {
        uefi: true,
        ostree_present: true,
        cmdline: "root=UUID=1 composefs=abc".to_string(),
        loader_entries: vec!["ostree-1.conf".to_string()],
    };
    assert!(verify_rollback_prerequisites(&good).is_ok());
    assert!(verify_rollback_prerequisites(&RollbackFacts { uefi: false, ..good.clone() }).is_err());
    let bare = RollbackFacts { ostree_present: false, ..good };
    assert!(verify_rollback_prerequisites(&bare).is_err());
}

#[test]
fn promoting_twice_is_promoting_once() {
    let once = build_new_boot_order("0001, 0003,,0002", "0003");
    assert_eq!(once, "0003,0001,0002");
    assert_eq!(build_new_boot_order(&once, "0003"), once);
}

#[test]
fn a_dry_rollback_asks_nothing_of_the_host() {
    let bare = RollbackFacts {
        uefi: false,
        ostree_present: false,
        cmdline: String::new(),
        loader_entries: vec![],
    };
    assert_eq!(
        open_rollback(true, &bare).unwrap(),
        vec![
            "*** DRY RUN MODE — no changes will be made ***",
            "Checking UEFI NVRAM boot entries..."
        ]
    );
    assert_eq!(open_rollback(false, &bare).unwrap_err(), "rollback requires UEFI firmware.");
    let good = RollbackFacts {
        uefi: true,
        ostree_present: true,
        cmdline: "composefs=abc".to_string(),
        loader_entries: vec!["ostree-1.conf".to_string()],
    };
    assert_eq!(
        open_rollback(false, &good).unwrap(),
        vec!["Checking UEFI NVRAM boot entries..."]
    );
}

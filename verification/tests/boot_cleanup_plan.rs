//! What may be removed from the firmware and what may not.

use bootc_migrate_core::boot_audit::{AuditFlag, AuditedEntry, BootEntry};
use bootc_migrate_core::boot_cleanup::plan::{
    branding_renames, default_delete_selection, delete_protection, merge_boot_order, plan_cleanup,
    plan_restore, remap_boot_order, rename_block, CleanupSelection, DeleteProtection, NvramFacts,
    PlanError, PlannedOp, RenameBlock, RestoreOp,
};

/// Build an audited entry without going through the ESP-touching
/// audit, so planner tests stay filesystem-free.
fn audited(id: &str, label: &str, loader: Option<&str>, flags: &[AuditFlag]) -> AuditedEntry {
    AuditedEntry {
        entry: BootEntry {
            id: id.to_string(),
            label: label.to_string(),
            active: true,
            loader_path: loader.map(str::to_string),
        },
        flags: flags.to_vec(),
    }
}

/// A realistic distrohopper's NVRAM: a live systemd-boot entry, the
/// OSTree/GRUB rollback entry, a dead leftover, a duplicate pair, a
/// generic label, and a firmware entry.
fn sample() -> Vec<AuditedEntry> {
    vec![
        audited(
            "0001",
            "Linux Boot Manager",
            Some("\\EFI\\systemd\\systemd-bootx64.efi"),
            &[],
        ),
        audited("0002", "Fedora", Some("\\EFI\\fedora\\shimx64.efi"), &[]),
        audited(
            "0003",
            "Old Ubuntu",
            Some("\\EFI\\ubuntu\\shimx64.efi"),
            &[AuditFlag::Dead],
        ),
        audited(
            "0004",
            "UEFI OS",
            Some("\\EFI\\BOOT\\BOOTX64.EFI"),
            &[AuditFlag::GenericLabel],
        ),
        audited("0005", "UEFI: PXEv4", None, &[AuditFlag::FirmwareManaged]),
    ]
}

fn facts() -> NvramFacts {
    NvramFacts {
        boot_current: Some("0001".to_string()),
        boot_order: Some("0001,0002,0003,0004,0005".to_string()),
        rollback_entry_id: Some("0002".to_string()),
    }
}

#[test]
fn delete_protection_cases() {
    let entries = sample();
    let facts = facts();
    // (entry id, expected protection)
    let cases: &[(&str, Option<DeleteProtection>)] = &[
        // BootCurrent — booted from this one.
        ("0001", Some(DeleteProtection::CurrentlyBooted)),
        // The OSTree/GRUB rollback escape hatch.
        ("0002", Some(DeleteProtection::RollbackPath)),
        // Dead leftover from a wiped Ubuntu install. Its loader path
        // contains "shim", which the (deliberately broad) rollback
        // markers match — but it is dead and is not the id rollback
        // would use, so it stays removable.
        ("0003", None),
        // Generic label, still alive, not the rollback path: removable
        // (but never pre-selected — see default_delete_selection).
        ("0004", None),
        // Firmware-owned.
        ("0005", Some(DeleteProtection::FirmwareManaged)),
    ];
    for (id, expected) in cases {
        let entry = entries.iter().find(|e| e.entry.id == *id).unwrap();
        assert_eq!(delete_protection(entry, &facts), *expected, "Boot{id}");
    }
}

#[test]
fn firmware_protection_holds_even_when_the_entry_is_also_dead() {
    // A firmware entry that happens to carry a stale loader path must
    // still be unselectable — FirmwareManaged outranks Dead.
    let entry = audited(
        "0009",
        "UEFI: Built-in EFI Shell",
        Some("\\EFI\\shell.efi"),
        &[AuditFlag::FirmwareManaged, AuditFlag::Dead],
    );
    assert_eq!(
        delete_protection(&entry, &NvramFacts::default()),
        Some(DeleteProtection::FirmwareManaged)
    );
    assert!(!entry.safe_to_preselect());
}

/// `(current label, loader path, audit flags, proposed label, expected block)`
type RenameCase = (
    &'static str,
    Option<&'static str>,
    &'static [AuditFlag],
    &'static str,
    Option<RenameBlock>,
);

/// `(BootOrder, [(old id, new id)], expected BootOrder)`
type RemapCase = (
    &'static str,
    &'static [(&'static str, &'static str)],
    &'static str,
);

#[test]
fn rename_block_cases() {
    let cases: &[RenameCase] = &[
        (
            "UEFI OS",
            Some("\\EFI\\BOOT\\BOOTX64.EFI"),
            &[AuditFlag::GenericLabel],
            "Dakota",
            None,
        ),
        (
            "UEFI: PXEv4",
            None,
            &[AuditFlag::FirmwareManaged],
            "Dakota",
            Some(RenameBlock::FirmwareManaged),
        ),
        (
            "Diagnostics",
            None,
            &[],
            "Dakota",
            Some(RenameBlock::NoLoaderPath),
        ),
        (
            "Old Ubuntu",
            Some("\\EFI\\ubuntu\\shimx64.efi"),
            &[AuditFlag::Dead],
            "Dakota",
            Some(RenameBlock::LoaderNotOnThisEsp),
        ),
        (
            "Dakota",
            Some("\\EFI\\systemd\\systemd-bootx64.efi"),
            &[],
            "Dakota",
            Some(RenameBlock::LabelUnchanged),
        ),
    ];
    for (label, loader, flags, new_label, expected) in cases {
        let entry = audited("0000", label, *loader, flags);
        assert_eq!(
            rename_block(&entry, new_label),
            *expected,
            "label={label} -> {new_label}"
        );
    }
}

#[test]
fn default_selection_takes_only_clearly_dead_unprotected_entries() {
    let selection = default_delete_selection(&sample(), &facts());
    assert_eq!(selection, vec!["0003".to_string()]);
}

#[test]
fn the_entry_rollback_would_use_is_protected_even_when_it_looks_dead() {
    // If the ESP resolves badly enough to flag the OSTree entry Dead,
    // rollback would still target it — so it must stay unselectable,
    // and must not be pre-selected either.
    let entries = vec![
        audited(
            "0001",
            "Linux Boot Manager",
            Some("\\EFI\\systemd\\systemd-bootx64.efi"),
            &[],
        ),
        audited(
            "0002",
            "Fedora",
            Some("\\EFI\\fedora\\shimx64.efi"),
            &[AuditFlag::Dead],
        ),
    ];
    let facts = NvramFacts {
        rollback_entry_id: Some("0002".to_string()),
        ..NvramFacts::default()
    };
    assert_eq!(
        delete_protection(&entries[1], &facts),
        Some(DeleteProtection::RollbackPath)
    );
    assert!(default_delete_selection(&entries, &facts).is_empty());
}

/// Booted generic-labelled entry plus a second generic one that must
/// never be swept into the same rename.
fn branding_fixture() -> Vec<AuditedEntry> {
    vec![
        audited(
            "0001",
            "Linux Boot Manager",
            Some("\\EFI\\systemd\\systemd-bootx64.efi"),
            &[AuditFlag::GenericLabel],
        ),
        audited(
            "0004",
            "UEFI OS",
            Some("\\EFI\\BOOT\\BOOTX64.EFI"),
            &[AuditFlag::GenericLabel],
        ),
    ]
}

#[test]
fn branding_renames_cases() {
    let entries = branding_fixture();
    let facts = NvramFacts {
        boot_current: Some("0001".to_string()),
        ..NvramFacts::default()
    };
    // (PRETTY_NAME, expected (id, new label) proposals)
    let cases: &[(&str, &[(&str, &str)])] = &[
        // Only the booted entry — never both generic entries, which
        // would leave two identically-labelled entries.
        ("Dakota", &[("0001", "Dakota")]),
        // Surrounding whitespace is trimmed off PRETTY_NAME.
        ("  Dakota  ", &[("0001", "Dakota")]),
        // Nothing to change.
        ("Linux Boot Manager", &[]),
        // An unusable PRETTY_NAME proposes nothing at all.
        ("", &[]),
        ("   ", &[]),
        ("Dak\nota", &[]),
    ];
    for (pretty, expected) in cases {
        let got = branding_renames(&entries, &facts, pretty);
        let want: Vec<(String, String)> = expected
            .iter()
            .map(|(i, l)| (i.to_string(), l.to_string()))
            .collect();
        assert_eq!(got, want, "PRETTY_NAME={pretty:?}");
    }
}

#[test]
fn one_entry_is_branded_though_its_id_is_listed_twice() {
    let generic = |id: &str| {
        audited(
            id,
            "Linux Boot Manager",
            Some("\\EFI\\systemd\\systemd-bootx64.efi"),
            &[AuditFlag::GenericLabel],
        )
    };
    let facts = NvramFacts {
        boot_current: Some("000a".to_string()),
        ..NvramFacts::default()
    };
    let entries = vec![generic("0001"), generic("000A"), generic("000a")];
    assert_eq!(
        branding_renames(&entries, &facts, "Dakota"),
        vec![("000A".to_string(), "Dakota".to_string())]
    );
}

#[test]
fn branding_rename_needs_a_generic_booted_entry() {
    // (description, entries, BootCurrent) -> no proposal
    let cases: &[(&str, Vec<AuditedEntry>, Option<&str>)] = &[
        ("firmware reported no BootCurrent", branding_fixture(), None),
        (
            "BootCurrent names an entry that is not in the audit",
            branding_fixture(),
            Some("00FF"),
        ),
        (
            "booted entry already carries a distro name",
            vec![audited(
                "0001",
                "Bluefin",
                Some("\\EFI\\systemd\\systemd-bootx64.efi"),
                &[],
            )],
            Some("0001"),
        ),
        (
            "booted entry's loader does not resolve on this ESP",
            vec![audited(
                "0001",
                "Linux Boot Manager",
                Some("\\EFI\\systemd\\systemd-bootx64.efi"),
                &[AuditFlag::GenericLabel, AuditFlag::Dead],
            )],
            Some("0001"),
        ),
        (
            "booted entry is firmware-managed",
            vec![audited(
                "0001",
                "UEFI OS",
                Some("\\EFI\\BOOT\\BOOTX64.EFI"),
                &[AuditFlag::GenericLabel, AuditFlag::FirmwareManaged],
            )],
            Some("0001"),
        ),
    ];
    for (why, entries, boot_current) in cases {
        let facts = NvramFacts {
            boot_current: boot_current.map(str::to_string),
            ..NvramFacts::default()
        };
        assert!(
            branding_renames(entries, &facts, "Dakota").is_empty(),
            "expected no branding rename when {why}"
        );
    }
}

#[test]
fn plan_cleanup_accepts_the_safe_default_selection() {
    let entries = sample();
    let facts = facts();
    let selection = CleanupSelection {
        delete_ids: default_delete_selection(&entries, &facts),
        renames: Vec::new(),
    };
    let plan = plan_cleanup(&entries, &facts, &selection).unwrap();
    assert_eq!(
        plan.ops,
        vec![PlannedOp::Delete {
            id: "0003".to_string(),
            label: "Old Ubuntu".to_string(),
            flags: vec![AuditFlag::Dead],
        }]
    );
    assert_eq!(plan.delete_count(), 1);
    assert_eq!(plan.rename_count(), 0);
}

#[test]
fn plan_cleanup_builds_a_rename_op_carrying_the_loader_path() {
    let entries = sample();
    let selection = CleanupSelection {
        delete_ids: Vec::new(),
        renames: vec![("0004".to_string(), "Dakota".to_string())],
    };
    let plan = plan_cleanup(&entries, &facts(), &selection).unwrap();
    assert_eq!(
        plan.ops,
        vec![PlannedOp::Rename {
            id: "0004".to_string(),
            from_label: "UEFI OS".to_string(),
            to_label: "Dakota".to_string(),
            loader_path: "\\EFI\\BOOT\\BOOTX64.EFI".to_string(),
        }]
    );
}

#[test]
fn plan_cleanup_refusal_cases() {
    let entries = sample();
    let facts = facts();
    // (selection, expected refusal)
    let cases: Vec<(CleanupSelection, PlanError)> = vec![
        (
            CleanupSelection {
                delete_ids: vec!["0005".to_string()],
                renames: Vec::new(),
            },
            PlanError::ProtectedEntry {
                id: "0005".to_string(),
                protection: DeleteProtection::FirmwareManaged,
            },
        ),
        (
            CleanupSelection {
                delete_ids: vec!["0002".to_string()],
                renames: Vec::new(),
            },
            PlanError::ProtectedEntry {
                id: "0002".to_string(),
                protection: DeleteProtection::RollbackPath,
            },
        ),
        (
            CleanupSelection {
                delete_ids: vec!["0001".to_string()],
                renames: Vec::new(),
            },
            PlanError::ProtectedEntry {
                id: "0001".to_string(),
                protection: DeleteProtection::CurrentlyBooted,
            },
        ),
        (
            CleanupSelection {
                delete_ids: vec!["dead".to_string()],
                renames: Vec::new(),
            },
            PlanError::UnknownEntry {
                id: "dead".to_string(),
            },
        ),
        (
            CleanupSelection {
                delete_ids: vec!["0003".to_string()],
                renames: vec![("0003".to_string(), "Dakota".to_string())],
            },
            PlanError::ConflictingOps {
                id: "0003".to_string(),
            },
        ),
        (
            CleanupSelection {
                delete_ids: Vec::new(),
                renames: vec![("0003".to_string(), "Dakota".to_string())],
            },
            PlanError::NotRenameable {
                id: "0003".to_string(),
                block: RenameBlock::LoaderNotOnThisEsp,
            },
        ),
        (
            CleanupSelection {
                delete_ids: Vec::new(),
                renames: vec![("0004".to_string(), "  ".to_string())],
            },
            PlanError::InvalidLabel {
                id: "0004".to_string(),
                label: String::new(),
            },
        ),
    ];
    for (selection, expected) in cases {
        assert_eq!(
            plan_cleanup(&entries, &facts, &selection).unwrap_err(),
            expected,
            "selection={selection:?}"
        );
    }
}

#[test]
fn plan_cleanup_refuses_when_every_loader_entry_looks_dead() {
    // The mis-resolved-ESP failure mode: nothing resolves, so a
    // "select all" would otherwise wipe the working boot path.
    let entries: Vec<AuditedEntry> = sample()
        .into_iter()
        .map(|mut a| {
            if a.entry.loader_path.is_some() && !a.flags.contains(&AuditFlag::Dead) {
                a.flags.push(AuditFlag::Dead);
            }
            a
        })
        .collect();
    let selection = CleanupSelection {
        delete_ids: vec!["0003".to_string()],
        renames: Vec::new(),
    };
    assert_eq!(
        plan_cleanup(&entries, &NvramFacts::default(), &selection).unwrap_err(),
        PlanError::EspEvidenceImplausible { loader_entries: 4 }
    );
    // ...but planning nothing is still fine.
    assert!(
        plan_cleanup(
            &entries,
            &NvramFacts::default(),
            &CleanupSelection::default()
        )
        .unwrap()
        .is_empty()
    );
}

#[test]
fn plan_cleanup_refuses_to_delete_the_last_bootable_entry() {
    // No BootCurrent and no rollback-shaped label, so nothing else
    // protects this entry — only the survivor invariant does.
    let entries = vec![
        audited(
            "0001",
            "Linux Boot Manager",
            Some("\\EFI\\systemd\\x.efi"),
            &[],
        ),
        audited(
            "0002",
            "Old Arch",
            Some("\\EFI\\arch\\x.efi"),
            &[AuditFlag::Dead],
        ),
    ];
    let selection = CleanupSelection {
        delete_ids: vec!["0001".to_string(), "0002".to_string()],
        renames: Vec::new(),
    };
    assert_eq!(
        plan_cleanup(&entries, &NvramFacts::default(), &selection).unwrap_err(),
        PlanError::RemovesLastBootableEntry
    );
}

#[test]
fn plan_restore_cases() {
    let backup = vec![
        BootEntry {
            id: "0001".into(),
            label: "Linux Boot Manager".into(),
            active: true,
            loader_path: Some("\\EFI\\systemd\\systemd-bootx64.efi".into()),
        },
        BootEntry {
            id: "0003".into(),
            label: "Old Ubuntu".into(),
            active: true,
            loader_path: Some("\\EFI\\ubuntu\\shimx64.efi".into()),
        },
        BootEntry {
            id: "0005".into(),
            label: "UEFI: PXEv4".into(),
            active: true,
            loader_path: None,
        },
    ];
    // Boot0003 and Boot0005 are gone; Boot0009 appeared afterwards and
    // must be left alone.
    let current = vec![
        backup[0].clone(),
        BootEntry {
            id: "0009".into(),
            label: "Windows Boot Manager".into(),
            active: true,
            loader_path: Some("\\EFI\\Microsoft\\Boot\\bootmgfw.efi".into()),
        },
    ];

    let plan = plan_restore(&backup, Some("0001,0003,0005"), &current);
    assert_eq!(
        plan.ops,
        vec![
            RestoreOp::Recreate {
                original_id: "0003".into(),
                label: "Old Ubuntu".into(),
                loader_path: "\\EFI\\ubuntu\\shimx64.efi".into(),
            },
            RestoreOp::SetBootOrder {
                order: "0001,0003,0005".into()
            },
        ]
    );
    assert_eq!(plan.unrestorable.len(), 1);
    assert_eq!(plan.unrestorable[0].id, "0005");

    // Nothing missing and no recorded order: nothing to do.
    let noop = plan_restore(&backup, None, &backup);
    assert!(noop.ops.is_empty());
    assert!(noop.unrestorable.is_empty());
}

#[test]
fn remap_boot_order_cases() {
    let cases: &[RemapCase] = &[
        // A renamed entry keeps its position rather than being demoted.
        ("0001,0004,0002", &[("0004", "0007")], "0001,0007,0002"),
        // Unmapped ids pass through untouched.
        ("0001,0002", &[("0009", "000A")], "0001,0002"),
        // Whitespace and empty fields are normalized away.
        (" 0001 , ,0002 ", &[], "0001,0002"),
        // Several remaps at once (an undo recreating two entries).
        (
            "0001,0003,0005",
            &[("0003", "000B"), ("0005", "000C")],
            "0001,000B,000C",
        ),
        // Case-insensitive id matching, as efibootmgr prints uppercase.
        ("000a,0001", &[("000A", "0002")], "0002,0001"),
        ("", &[], ""),
    ];
    for (order, remap, expected) in cases {
        let remap: Vec<(String, String)> = remap
            .iter()
            .map(|(a, b)| (a.to_string(), b.to_string()))
            .collect();
        assert_eq!(remap_boot_order(order, &remap), *expected, "order={order}");
    }
}

#[test]
fn merge_boot_order_cases() {
    // (restored order, current order, expected)
    let cases: &[(&str, &str, &str)] = &[
        // An entry created after the snapshot keeps a place in the
        // order rather than being dropped by the undo.
        ("0001,0003", "0009,0001", "0001,0003,0009"),
        // Nothing new: the restored order wins outright.
        ("0001,0003", "0003,0001", "0001,0003"),
        // Case-insensitive, so a differently-cased id isn't duplicated.
        ("000a,0001", "000A,0002", "000a,0001,0002"),
        // Degenerate inputs.
        ("", "0001,0002", "0001,0002"),
        ("0001", "", "0001"),
        ("", "", ""),
    ];
    for (restored, current, expected) in cases {
        assert_eq!(
            merge_boot_order(restored, current),
            *expected,
            "restored={restored} current={current}"
        );
    }
}

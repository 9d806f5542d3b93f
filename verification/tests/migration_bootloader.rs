//! The change of bootloader.

use bootc_migrate_core::migration::boot_deployments::BootDeployment;
use bootc_migrate_core::migration::bootloader::live::{
    bls_filename, bootnext_command, build_initrd, current_kernel_version, efibootmgr_create_trial,
    find_host_vmlinuz, install_resync_hook, install_systemd_boot_binary, migrate_result,
    migrate_steps,
    migrated_state, next_migrate_stage, populate_esp_kernel, report_removal, require_esp,
    resync_for_kernel_update, resync_hook_script, run_migrate, run_promote, run_undo,
    trial_entry_id, trial_message, write_bls_entry, MigrateInputs, MigrateStage, MigrationState,
    RemovalOutcome, RESYNC_HOOK_PATH,
};
use bootc_migrate_core::migration::bootloader::{BlsEntry, BootStep};
use bootc_migrate_core::migration::standalone_bootloader::{
    deployment_lines, grub_default_saved, migrate_bootloader_standalone, migrate_to_grub2,
    migrate_to_systemd_boot, plan_entries, EntryInputs, StandaloneRefusal, TargetBootloader,
};
use bootc_migrate_core::preflight::system_info::{PendingTransactionStatus, SystemInfo};
use bootc_migrate_core::steps::Step;

fn entry() -> BlsEntry {
    BlsEntry {
        title: "Bluefin".to_string(),
        version: "6.8.0".to_string(),
        linux: "/mytoken/6.8.0/linux".to_string(),
        initrds: vec!["/mytoken/6.8.0/initrd".to_string()],
        options: "root=UUID=abc rw".to_string(),
        filename: "bootc-rebase-mytoken-6.8.0.conf".to_string(),
        sort_key: "bootc-rebase-migrate-bootloader-0".to_string(),
    }
}

fn state() -> MigrationState {
    MigrationState {
        entry_token: "abc123".to_string(),
        esp_path: "/boot/efi".to_string(),
        bls_filename: "bootc-rebase-abc123-6.8.0.conf".to_string(),
        boot_id: "0007".to_string(),
    }
}

#[test]
fn find_host_vmlinuz_prefers_modules_dir() {
    let kver = "6.8.0-test";
    let both = [
        "/boot/vmlinuz-6.8.0-test".to_string(),
        "/usr/lib/modules/6.8.0-test/vmlinuz".to_string(),
    ];
    assert_eq!(
        find_host_vmlinuz(kver, &both).unwrap(),
        "/usr/lib/modules/6.8.0-test/vmlinuz"
    );
    assert_eq!(find_host_vmlinuz(kver, &both[..1]).unwrap(), "/boot/vmlinuz-6.8.0-test");
    assert!(find_host_vmlinuz(kver, &[]).unwrap_err().contains("6.8.0-test"));
}

#[test]
fn populate_esp_kernel_writes_linux_and_initrd() {
    let steps = populate_esp_kernel("/esp", "mytoken", "6.8.0", "/src/vmlinuz", "/src/initrd");
    let copied = |from: &str, to: &str| {
        steps.iter().any(|s| matches!(s, Step::Copy { from: f, to: t, .. } if f == from && t == to))
    };
    assert!(copied("/src/vmlinuz", "/esp/mytoken/6.8.0/linux"));
    assert!(copied("/src/initrd", "/esp/mytoken/6.8.0/initrd"));
}

#[test]
fn write_bls_entry_creates_entries_dir_and_file() {
    let steps = write_bls_entry("/esp", &entry());
    assert!(matches!(&steps[0], BootStep::Do(Step::MakeDir { path, .. })
        if path == "/esp/loader/entries"));
    match &steps[1] {
        BootStep::WriteEntry { path, entry, .. } => {
            assert_eq!(path, "/esp/loader/entries/bootc-rebase-mytoken-6.8.0.conf");
            assert_eq!(entry.title, "Bluefin");
            assert_eq!(entry.linux, "/mytoken/6.8.0/linux");
        }
        other => panic!("{other:?}"),
    }
}

#[test]
fn install_systemd_boot_binary_errors_clearly_when_host_lacks_it() {
    let err = install_systemd_boot_binary("/esp", false).unwrap_err();
    assert!(err.contains("systemd-bootx64.efi"));
    let steps = install_systemd_boot_binary("/esp", true).unwrap();
    assert!(matches!(steps.last(), Some(Step::Copy { to, .. }) if to == "/esp/EFI/BOOT/BOOTX64.EFI"));
}

#[test]
fn resync_hook_script_is_executable_shell_and_names_the_hook_source() {
    let script = resync_hook_script("mytoken", "Bluefin");
    assert!(script.starts_with("#!/bin/sh"));
    assert!(script.contains("COMMAND=\"$1\""));
    assert!(script.contains("[ \"$COMMAND\" = add ] || exit 0"));
    assert!(script.contains("--entry-token mytoken"));
    assert!(script.contains("migrate-bootloader"));
    // The title is quoted as a string literal is.
    assert!(script.ends_with("--title \"Bluefin\"\n"));
    let odd = "a \"b\"\n\u{e9}\u{301}";
    assert!(resync_hook_script("t", odd).ends_with(&format!("--title {odd:?}\n")));
}

#[test]
fn install_resync_hook_writes_executable_file() {
    assert_eq!(
        RESYNC_HOOK_PATH,
        "/etc/kernel/install.d/95-bootc-rebase-esp-sync.install"
    );
    let steps = install_resync_hook("mytoken", "Bluefin");
    assert!(matches!(&steps[1], Step::Write { path, contents, .. }
        if path == RESYNC_HOOK_PATH && *contents == resync_hook_script("mytoken", "Bluefin")));
    assert!(matches!(&steps[2], Step::MakeExecutable { path, .. } if path == RESYNC_HOOK_PATH));
}

#[test]
fn run_undo_with_no_state_is_a_clean_noop() {
    assert!(run_undo(None, &[]).is_none());
}

#[test]
fn undoing_removes_what_was_made() {
    let (steps, argv) = run_undo(Some(&state()), &[]).unwrap();
    assert_eq!(
        steps,
        vec![
            Step::Remove("/boot/efi/loader/entries/bootc-rebase-abc123-6.8.0.conf".to_string()),
            Step::RemoveTree("/boot/efi/abc123".to_string()),
            Step::Remove(RESYNC_HOOK_PATH.to_string()),
        ]
    );
    assert_eq!(argv, vec!["efibootmgr", "-b", "0007", "-B"]);
    assert_eq!(
        report_removal("0007", &RemovalOutcome::Removed),
        "Removed Boot0007 from UEFI NVRAM."
    );
    assert!(report_removal("0007", &RemovalOutcome::Exited("exit status: 5".into()))
        .contains("exited exit status: 5"));
    assert!(report_removal("0007", &RemovalOutcome::NotRun("gone".into())).contains("(gone)"));
}

#[test]
fn undoing_removes_the_entries_of_later_kernels() {
    let listed: Vec<String> = [
        "bootc-rebase-abc123-6.8.0.conf",
        "bootc-rebase-abc123-6.9.1.conf",
        "bootc-rebase-other-6.9.1.conf",
        "bootc-rebase-abc123-6.9.1.conf.bak",
        "bootc-rebase-abc123.conf",
        "fedora.conf",
    ]
    .iter()
    .map(|n| n.to_string())
    .collect();
    let (steps, _) = run_undo(Some(&state()), &listed).unwrap();
    assert_eq!(
        steps,
        vec![
            Step::Remove("/boot/efi/loader/entries/bootc-rebase-abc123-6.8.0.conf".to_string()),
            Step::Remove("/boot/efi/loader/entries/bootc-rebase-abc123-6.9.1.conf".to_string()),
            Step::RemoveTree("/boot/efi/abc123".to_string()),
            Step::Remove(RESYNC_HOOK_PATH.to_string()),
        ]
    );
}

#[test]
fn promotion_needs_a_record_and_an_order() {
    let out = "BootOrder: 0001,0007\n";
    assert_eq!(run_promote(Some(&state()), "/s", out).unwrap(), "0007,0001");
    assert!(run_promote(None, "/s", out).unwrap_err().contains("no migrate-bootloader state found at /s"));
    assert_eq!(
        run_promote(Some(&state()), "/s", "").unwrap_err(),
        "could not parse BootOrder from efibootmgr output"
    );
}

#[test]
fn the_trial_entry_is_found_by_its_label() {
    let out = "Boot0000* Fedora\nBoot00Af* Linux Boot Manager (trial)\tHD(1)\n";
    assert_eq!(trial_entry_id(out, "Linux Boot Manager (trial)").unwrap(), "00Af");
    assert!(trial_entry_id(out, "Nobody").unwrap_err().contains("'Nobody'"));
    assert!(trial_entry_id("BootXYZ trial\n", "trial").is_err());
    assert_eq!(
        efibootmgr_create_trial("/dev/sda", "1", "L"),
        vec![
            "efibootmgr", "--create-only", "--disk", "/dev/sda", "--part", "1", "--loader",
            "\\EFI\\systemd\\systemd-bootx64.efi", "--label", "L"
        ]
    );
    assert_eq!(bootnext_command("0007"), vec!["efibootmgr", "--bootnext", "0007"]);
    assert!(trial_message("0007").contains("(Boot0007 set via BootNext)"));
}

fn inputs() -> MigrateInputs<'static> {
    MigrateInputs {
        esp_path: "/esp",
        state_path: "/state.json",
        title: "Bluefin",
        cmdline: "rw",
        entry_token_file: None,
        machine_id: "m",
    }
}

#[test]
fn a_second_change_makes_no_second_entry() {
    let (stage, said) = run_migrate(true, "/state.json");
    assert_eq!(stage, MigrateStage::Resync);
    assert!(said.unwrap().contains("(state at /state.json)"));
    assert_eq!(next_migrate_stage(stage, true), MigrateStage::Finished);
    let mut stage = run_migrate(false, "/state.json").0;
    let mut seen = vec![stage];
    while stage != MigrateStage::Finished {
        stage = next_migrate_stage(stage, true);
        seen.push(stage);
    }
    assert_eq!(seen.len(), 7);
    assert_eq!(next_migrate_stage(MigrateStage::Place, false), MigrateStage::Failed);
}

/// Two runs on one host: the second finds the record and leaves the firmware
/// alone.
#[test]
fn a_second_change_returns_the_record_of_the_first() {
    let mut record: Option<MigrationState> = None;
    let mut commands: Vec<Vec<String>> = Vec::new();
    let mut results = Vec::new();
    for _ in 0..2 {
        let mut stage = run_migrate(record.is_some(), "/state.json").0;
        while stage != MigrateStage::Finished {
            match stage {
                MigrateStage::CreateTrial => {
                    commands.push(efibootmgr_create_trial("/dev/sda", "1", "trial"));
                    commands.push(bootnext_command("0007"));
                }
                MigrateStage::SaveState => {
                    record = Some(migrated_state(&inputs(), "abc123", "6.8.0", "0007"));
                }
                _ => {}
            }
            stage = next_migrate_stage(stage, true);
        }
        results.push(migrate_result(stage, record.clone()));
    }
    assert_eq!(commands.len(), 2);
    assert_eq!(commands[0][1], "--create-only");
    assert_eq!(commands[1], vec!["efibootmgr", "--bootnext", "0007"]);
    assert_eq!(results[0].as_ref().unwrap().boot_id, "0007");
    assert_eq!(results[0], results[1]);
    assert_eq!(migrate_result(MigrateStage::Failed, record), None);
}

#[test]
fn the_files_are_put_in_place() {
    let steps = migrate_steps(&inputs(), "mytoken", "6.8.0", "/v", "/i", &entry(), true);
    assert_eq!(steps.len(), 12);
    assert!(steps.iter().any(|s| matches!(s, BootStep::WriteEntry { .. })));
    let without = migrate_steps(&inputs(), "mytoken", "6.8.0", "/v", "/i", &entry(), false);
    assert!(matches!(without.last(), Some(BootStep::Stop(m)) if m.contains("systemd-bootx64.efi")));
    assert_eq!(resync_for_kernel_update("/esp", "t", "6.8.0", "/v", "/i", &entry()).len(), 5);
    assert_eq!(
        migrated_state(&inputs(), "abc123", "6.8.0", "0007"),
        MigrationState { esp_path: "/esp".to_string(), ..state() }
    );
    assert_eq!(bls_filename("mytoken", "6.8.0"), "bootc-rebase-mytoken-6.8.0.conf");
    assert_eq!(current_kernel_version("6.8.0\n"), "6.8.0");
    assert_eq!(
        build_initrd("6.8.0", "/d", &["/usr/bin/dracut".to_string()]),
        vec!["/usr/bin/dracut", "--force", "--kver", "6.8.0", "/d"]
    );
    assert_eq!(build_initrd("6.8.0", "/d", &[])[0], "dracut");
    assert!(require_esp("/esp", None).unwrap_err().contains("findmnt /esp"));
    assert!(require_esp("/esp", Some(("a".into(), "1".into()))).is_ok());
}

fn system() -> SystemInfo {
    SystemInfo {
        booted_backend: None,
        pending_transaction: PendingTransactionStatus::Clean,
        is_uefi: true,
        nvram_writable: true,
        esp_path: Some("/boot/efi".to_string()),
        esp_free_space_bytes: 100 * 1024 * 1024,
        esp_fs_type: None,
        esp_detected: true,
        supports_reflink: false,
        is_btrfs: false,
        fs_type: None,
        ostree_repo_size_bytes: 0,
        composefs_free_bytes: 0,
        container_storage_free_bytes: 0,
        container_storage_path: String::new(),
        var_is_separate_mount: false,
        systemd_boot_binaries_present: true,
        grub_tools_available: true,
        sysroot_was_ro: false,
    }
}

fn deployment(checksum: &str, is_composefs: bool) -> BootDeployment {
    BootDeployment {
        root: format!("/d/{checksum}"),
        checksum: checksum.to_string(),
        kver: "6.8.0".to_string(),
        vmlinuz: "/v".to_string(),
        initrd: "/i".to_string(),
        initrd_exists: true,
        is_composefs,
    }
}

fn entry_inputs() -> EntryInputs {
    EntryInputs {
        os_id: "bluefin".to_string(),
        composefs_title: "Bluefin (composefs)".to_string(),
        ostree_title: "Bluefin (ostree)".to_string(),
        options: "root=UUID=1 composefs=x  rw composefs=?y quiet".to_string(),
    }
}

#[test]
fn a_standalone_change_checks_the_host() {
    let deps = [deployment("abc", false)];
    let go = |to: &str, force, sys: &SystemInfo| migrate_bootloader_standalone(to, force, sys, &deps);
    assert_eq!(go("systemd-boot", false, &system()), Ok(TargetBootloader::SystemdBoot));
    assert_eq!(go("grub2", false, &system()), Ok(TargetBootloader::Grub2));
    assert_eq!(
        go("lilo", false, &system()),
        Err(StandaloneRefusal::UnknownTarget("lilo".to_string()))
    );
    let bios = SystemInfo { is_uefi: false, ..system() };
    assert_eq!(go("systemd-boot", false, &bios), Err(StandaloneRefusal::NotUefi));
    let locked = SystemInfo { nvram_writable: false, ..system() };
    assert_eq!(go("systemd-boot", false, &locked), Err(StandaloneRefusal::NvramNotWritable));
    let no_esp = SystemInfo { esp_detected: false, ..system() };
    assert_eq!(go("systemd-boot", false, &no_esp), Err(StandaloneRefusal::NoEsp));
    let full = SystemInfo { esp_free_space_bytes: 1, ..system() };
    assert_eq!(go("systemd-boot", false, &full), Err(StandaloneRefusal::EspTooFull));
    assert_eq!(
        migrate_bootloader_standalone("systemd-boot", false, &system(), &[]),
        Err(StandaloneRefusal::NoDeployments)
    );
    assert!(!StandaloneRefusal::EspTooFull.message("1.00").is_empty());
    assert!(StandaloneRefusal::UnknownTarget("lilo".into()).message("").contains("lilo"));
}

#[test]
fn every_deployment_gets_an_entry() {
    let deps = [deployment("abcdef0123456789", false), deployment("fedcba9876543210", true)];
    let entries = plan_entries(TargetBootloader::SystemdBoot, "tok", &entry_inputs(), &deps);
    assert_eq!(entries.len(), 2);
    assert_eq!(entries[0].linux, "/tok/6.8.0/linux");
    assert_eq!(entries[0].options, "root=UUID=1 rw quiet");
    assert_eq!(entries[1].options, entry_inputs().options);
    assert_ne!(entries[0].filename, entries[1].filename);
    assert!(!deployment_lines(&deps).is_empty());
    let steps =
        migrate_to_systemd_boot("/esp", "tok", &entry_inputs(), &deps, false, None, true);
    assert_eq!(steps.iter().filter(|s| matches!(s, BootStep::WriteEntry { .. })).count(), 2);
    let dry = migrate_to_systemd_boot("/esp", "tok", &entry_inputs(), &deps, true, None, true);
    assert!(dry.iter().all(|s| matches!(s, BootStep::Do(Step::Say(_)))));
    let grub = migrate_to_grub2(&entry_inputs(), &deps, false, true, Some("GRUB_TIMEOUT=5\n"));
    assert_eq!(grub.iter().filter(|s| matches!(s, BootStep::WriteEntry { .. })).count(), 2);
    assert!(grub_default_saved("GRUB_TIMEOUT=5\n").contains("GRUB_DEFAULT=saved"));
}

#[test]
fn entries_of_one_checksum_have_names_of_their_own() {
    let deps = [deployment("abc-1", false), deployment("abc-1", false), deployment("abc", true)];
    for to in [TargetBootloader::SystemdBoot, TargetBootloader::Grub2] {
        let entries = plan_entries(to, "tok", &entry_inputs(), &deps);
        let mut names: Vec<&str> = entries.iter().map(|e| e.filename.as_str()).collect();
        names.sort_unstable();
        names.dedup();
        assert_eq!(names.len(), 3);
    }
    let steps = migrate_to_systemd_boot("/esp", "tok", &entry_inputs(), &deps, false, None, true);
    assert!(steps.iter().any(|s| matches!(s, BootStep::Do(Step::Write { path, contents, .. })
        if path == "/esp/loader/loader.conf"
            && contents == "default bootc_bluefin-abc-1-0\ntimeout 3\nconsole-mode keep\n")));
}

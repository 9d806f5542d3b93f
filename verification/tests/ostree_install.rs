//! A fresh OSTree deployment beside a composefs system.

use bootc_migrate_core::cross_family::CrossFamilyPlan;
use bootc_migrate_core::mergetc::EtcPathState;
use bootc_migrate_core::ostree_install::{
    boot_bind_plan, booted_image_reference, carry_over_kargs, check_capabilities,
    choose_etc_defaults, composefs_esp_paths, dry_run_lines, first_stage, grub_first,
    install_command, install_failure, is_composefs_esp_path, merge_summary, newest_deployment, next_stage,
    paths_to_restore, plan_etc_merge, refuse_install, snapshot_dir, snapshot_is_bootable,
    stage_heading, EtcDefaults, InstallFacts, InstallMove, InstallStage, OstreeInstallConfig, CONTAINER_TARGET,
    PHYSICAL_ROOT,
};
use bootc_migrate_core::scan::{BaseInfo, Capabilities};

#[test]
fn install_command_shape() {
    let argv = install_command(
        "ghcr.io/projectbluefin/bluefin:stable",
        &["console=ttyS0,115200n8".to_string()],
    );
    assert_eq!(argv[0], "podman");
    assert!(argv.contains(&"--privileged".to_string()));
    assert!(argv.contains(&"--pid=host".to_string()));
    assert!(argv.contains(&"/var/lib/containers:/var/lib/containers".to_string()));
    // The physical root, not PID 1's overlay, is what the target's bootc
    // must see at /target — and its submounts must propagate.
    assert!(argv.contains(&format!(
        "type=bind,src={PHYSICAL_ROOT},dst={CONTAINER_TARGET},bind-propagation=rslave"
    )));
    let image_pos = argv
        .iter()
        .position(|a| a == "ghcr.io/projectbluefin/bluefin:stable")
        .unwrap();
    assert_eq!(
        &argv[image_pos + 1..],
        &[
            "bootc",
            "install",
            "to-existing-root",
            "--acknowledge-destructive",
            "--skip-fetch-check",
            "--karg",
            "console=ttyS0,115200n8",
            CONTAINER_TARGET
        ]
    );
    // No kargs: no --karg at all, and the root path stays last.
    let bare = install_command("img", &[]);
    assert!(!bare.contains(&"--karg".to_string()));
    assert_eq!(bare.last().map(String::as_str), Some(CONTAINER_TARGET));
    // Never the composefs backend: the whole point is the ostree one.
    assert!(!argv.iter().any(|a| a.contains("composefs-backend")));
}

/// The snapshot is exactly what alongside mode's ESP wipe would take
/// from the composefs deployment, and never what bootupd writes.
/// The bind layout alongside mode needs, per host boot layout.
#[test]
fn boot_bind_plan_table() {
    let pairs = |v: Vec<(String, String)>| -> Vec<(String, String)> { v };
    // composefs-native host: ESP at /boot, no boot partition. The ESP
    // goes to boot/efi and /target/boot stays the root fs's directory.
    assert_eq!(
        pairs(boot_bind_plan("/boot", &["/boot"])),
        vec![("/boot".to_string(), "boot/efi".to_string())]
    );
    // Classic layout: boot partition at /boot, ESP at /boot/efi.
    assert_eq!(
        pairs(boot_bind_plan("/boot/efi", &["/boot", "/boot/efi"])),
        vec![
            ("/boot".to_string(), "boot".to_string()),
            ("/boot/efi".to_string(), "boot/efi".to_string())
        ]
    );
    // Boot partition, ESP mounted at /efi.
    assert_eq!(
        pairs(boot_bind_plan("/efi", &["/boot", "/efi"])),
        vec![
            ("/boot".to_string(), "boot".to_string()),
            ("/efi".to_string(), "boot/efi".to_string())
        ]
    );
    // /boot on the root fs, ESP mounted by bootc-migrate at /boot/efi.
    assert_eq!(
        pairs(boot_bind_plan("/boot/efi", &["/boot/efi"])),
        vec![("/boot/efi".to_string(), "boot/efi".to_string())]
    );
}

#[test]
fn esp_path_classification_table() {
    let cases = [
        ("EFI/Linux/bootc_composefs-abc123/vmlinuz", true),
        ("EFI/Linux/bootc_composefs-abc123/initrd", true),
        ("/EFI/Linux/bootc_composefs-abc123/initrd", true),
        ("EFI/systemd/systemd-bootx64.efi", true),
        ("loader/loader.conf", true),
        ("loader/entries/bootc_composefs-abc123.conf", true),
        ("loader/entries/ostree-1.conf", true),
        ("loader/random-seed", false),
        ("EFI/BOOT/BOOTX64.EFI", false),
        ("EFI/fedora/shimx64.efi", false),
        ("EFI/fedora/grub.cfg", false),
        ("EFI/centos/grubx64.efi", false),
        ("EFI/Linux/other.efi", false),
    ];
    for (p, want) in cases {
        assert_eq!(is_composefs_esp_path(p), want, "{p}");
    }
    let listing: Vec<String> = cases.iter().map(|(p, _)| p.to_string()).collect();
    let got = composefs_esp_paths(&listing);
    assert_eq!(
        got,
        vec![
            "EFI/Linux/bootc_composefs-abc123/initrd",
            "EFI/Linux/bootc_composefs-abc123/vmlinuz",
            "EFI/systemd/systemd-bootx64.efi",
            "loader/entries/bootc_composefs-abc123.conf",
            "loader/entries/ostree-1.conf",
            "loader/loader.conf",
        ]
    );
}

#[test]
fn newest_deployment_picks_latest_serial_zero() {
    let entries = vec![
        ("aaaa.0".to_string(), 10),
        ("bbbb.0".to_string(), 30),
        ("bbbb.1".to_string(), 40), // a serial-1 rollback clone is never a fresh install
        ("cccc.0".to_string(), 20),
    ];
    assert_eq!(newest_deployment(&entries).as_deref(), Some("bbbb.0"));
    assert_eq!(newest_deployment(&[]), None);
    assert_eq!(newest_deployment(&[("x.1".to_string(), 5)]), None);
}

#[test]
fn carry_over_kargs_table() {
    let cmdline = "BOOT_IMAGE=/EFI/Linux/x/vmlinuz root=UUID=abc rootflags=subvol=root rw \
                   composefs=deadbeef console=ttyS0,115200n8 console=tty0 rd.lvm.lv=vg/root \
                   rd.luks.name=1234=root quiet systemd.log_level=info initrd=/x/initrd";
    assert_eq!(
        carry_over_kargs(cmdline),
        vec![
            "console=ttyS0,115200n8",
            "console=tty0",
            "rd.lvm.lv=vg/root",
            "rd.luks.name=1234=root",
            "systemd.log_level=info",
        ]
    );
}

/// Snapshot then restore over a "wiped" ESP that bootupd has partially
/// repopulated: composefs artifacts come back, bootupd's files are never
/// overwritten, and an unrelated file is not touched.
#[test]
fn esp_snapshot_restore_round_trip() {
    let list = |v: &[&str]| -> Vec<String> { v.iter().map(|p| p.to_string()).collect() };
    let esp = list(&[
        "EFI/Linux/bootc_composefs-abc/vmlinuz",
        "EFI/Linux/bootc_composefs-abc/initrd",
        "EFI/systemd/systemd-bootx64.efi",
        "loader/entries/bootc_composefs-abc.conf",
        "loader/loader.conf",
        "EFI/BOOT/BOOTX64.EFI",
    ]);
    let taken = composefs_esp_paths(&esp);
    assert_eq!(taken.len(), 5);
    assert!(!taken.iter().any(|p| p.starts_with("EFI/BOOT")));
    assert!(snapshot_is_bootable(&taken));

    // bootupd empties the ESP and writes shim/GRUB + its own fallback.
    let present = list(&[
        "EFI/fedora/shimx64.efi",
        "EFI/fedora/grub.cfg",
        "EFI/BOOT/BOOTX64.EFI",
        "loader/loader.conf",
    ]);
    // Existing files are never overwritten.
    assert_eq!(
        paths_to_restore(&taken, &present),
        vec![
            "EFI/Linux/bootc_composefs-abc/initrd",
            "EFI/Linux/bootc_composefs-abc/vmlinuz",
            "EFI/systemd/systemd-bootx64.efi",
            "loader/entries/bootc_composefs-abc.conf",
        ]
    );
}

fn facts() -> InstallFacts {
    InstallFacts {
        cmdline: "composefs=abc".to_string(),
        uefi: true,
        has_podman: true,
        has_efibootmgr: true,
        existing_deployments: vec![],
    }
}

#[test]
fn a_host_that_the_route_is_not_for_is_refused() {
    assert_eq!(refuse_install(&facts(), false), None);
    let plain = InstallFacts { cmdline: "root=1".to_string(), ..facts() };
    assert!(refuse_install(&plain, false).unwrap().contains("no composefs= parameter"));
    assert_eq!(refuse_install(&plain, true), None);
    let bios = InstallFacts { uefi: false, ..facts() };
    assert!(refuse_install(&bios, true).unwrap().contains("requires UEFI"));
    let no_podman = InstallFacts { has_podman: false, ..facts() };
    assert!(refuse_install(&no_podman, false).unwrap().contains("`podman`"));
    let no_tool = InstallFacts { has_efibootmgr: false, ..facts() };
    assert!(refuse_install(&no_tool, false).unwrap().contains("`efibootmgr`"));
    let taken = InstallFacts { existing_deployments: vec!["a.0".into(), "b.0".into()], ..facts() };
    assert!(refuse_install(&taken, false).unwrap().contains("(a.0, b.0)"));

    let config = OstreeInstallConfig {
        target_image: "a:b",
        dry_run: true,
        force: false,
        skip_preflight: false,
        accept_cross_base: false,
    };
    let opening = config.run(&facts());
    assert_eq!(opening.refusal, None);
    assert_eq!(
        opening.lines,
        vec!["*** DRY RUN MODE — no changes will be made ***", "Checking system state..."]
    );
    let bad = OstreeInstallConfig { target_image: "a\0b", ..config }.run(&facts());
    assert!(bad.lines.is_empty() && bad.refusal.is_some());
    assert!(bad.moves.is_empty());
}

#[test]
fn a_dry_run_goes_through_no_stage() {
    let config = OstreeInstallConfig {
        target_image: "a:b",
        dry_run: true,
        force: false,
        skip_preflight: false,
        accept_cross_base: false,
    };
    assert_eq!(first_stage(&config, false), None);
    assert_eq!(
        config.run(&facts()).moves,
        vec![
            InstallMove::GateFamily { accepted: false },
            InstallMove::CheckCapabilities,
            InstallMove::LocateEsp,
            InstallMove::FindBootedImage,
            InstallMove::Preview,
        ]
    );

    let real = OstreeInstallConfig { dry_run: false, skip_preflight: true, ..config };
    assert_eq!(first_stage(&real, false), Some(InstallStage::Pull));
    assert_eq!(first_stage(&real, true), None);
    assert_eq!(
        OstreeInstallConfig { accept_cross_base: true, ..real }.run(&facts()).moves,
        vec![
            InstallMove::GateFamily { accepted: true },
            InstallMove::LocateEsp,
            InstallMove::FindBootedImage,
            InstallMove::InhibitSleep,
            InstallMove::Stages(InstallStage::Pull),
        ]
    );
    let forced = OstreeInstallConfig { force: true, ..real };
    // The acceptance takes a policy, which insisting does not.
    assert_eq!(forced.run(&facts()).moves[0], InstallMove::GateFamily { accepted: false });
    let bios = InstallFacts { uefi: false, ..facts() };
    assert!(forced.run(&bios).moves.is_empty());
}

#[test]
fn the_target_must_bring_its_tools() {
    let caps = |bootc_present, bootupd_present, ostree_capable| Capabilities {
        base: None,
        sysusers: vec![],
        bootc_present,
        bootupd_present,
        ostree_capable,
    };
    assert_eq!(check_capabilities(&caps(true, true, true), "i", false), Ok(None));
    assert!(check_capabilities(&caps(false, true, true), "i", false).unwrap_err().contains("no bootc;"));
    assert!(check_capabilities(&caps(true, false, true), "i", false)
        .unwrap_err()
        .contains("no bootupd"));
    assert!(check_capabilities(&caps(false, false, false), "i", true)
        .unwrap()
        .unwrap()
        .contains("no prepare-root.conf"));
}

#[test]
fn stages_stop_at_a_failure() {
    assert_eq!(next_stage(InstallStage::Pull, true, false), InstallStage::SnapshotEsp);
    assert_eq!(next_stage(InstallStage::SnapshotEsp, false, false), InstallStage::Failed);
    assert_eq!(next_stage(InstallStage::RemountRoot, false, false), InstallStage::BindBoot);
    assert_eq!(next_stage(InstallStage::CopyVar, true, true), InstallStage::PostMerge);
    assert_eq!(next_stage(InstallStage::CopyVar, true, false), InstallStage::RestoreEsp);
    assert_eq!(
        stage_heading(InstallStage::Pull, "a:b", "/efi").as_deref(),
        Some("=== Pull: a:b ===")
    );
    assert_eq!(stage_heading(InstallStage::BindBoot, "a:b", "/efi"), None);
    assert!(install_failure("exit status: 1", "/s").contains("snapshot is at /s"));
    assert_eq!(snapshot_dir(42), "/var/lib/bootc-rebase/esp-snapshot-42");
}

#[test]
fn a_dry_run_tells_what_it_would_do() {
    let lines = dry_run_lines("a:b", "/efi", "console=tty0 quiet", None);
    assert_eq!(lines.len(), 4);
    assert_eq!(lines[0], "[DRY RUN] Would pull a:b with podman.");
    assert!(lines[2].contains("--karg console=tty0"));
    assert!(lines[3].contains("<unknown booted image>"));
}

#[test]
fn defaults_come_from_the_first_source_that_has_them() {
    assert_eq!(choose_etc_defaults(true, true, false), EtcDefaults::PodmanMount);
    assert_eq!(choose_etc_defaults(true, false, true), EtcDefaults::RegistryStream);
    assert_eq!(choose_etc_defaults(false, false, false), EtcDefaults::Nowhere);
    assert_ne!(
        merge_summary(EtcDefaults::PodmanMount, false),
        merge_summary(EtcDefaults::PodmanMount, true)
    );
    assert_eq!(booted_image_reference("docker://a:b"), booted_image_reference("a:b"));
}

#[test]
fn the_policy_goes_with_another_family() {
    let base = |id: &str| BaseInfo { id: id.into(), id_like: None, version_id: None };
    let state = EtcPathState {
        path: "dnf/dnf.conf".into(),
        in_source_default: true,
        in_current: true,
        in_target_default: true,
        user_modified: true,
    };
    let same = plan_etc_merge(None, &[state.clone()], String::new(), String::new(), None);
    assert!(same.overrides.is_none() && same.outcome.is_none() && !same.identity_target_first);
    let plan = CrossFamilyPlan { host: base("fedora"), target: base("arch") };
    let other = plan_etc_merge(Some(plan), &[state], "p".into(), "g".into(), None);
    assert!(other.identity_target_first);
    assert_eq!(other.overrides.unwrap().get("dnf/dnf.conf"), Some(false));
    assert_eq!(other.outcome.unwrap().target_passwd, "p");
}

#[test]
fn grub_comes_first() {
    let out = "BootOrder: 0001,0000\nBoot0000* Fedora\tFile(\\EFI\\fedora\\shimx64.efi)\nBoot0001* Linux Boot Manager\tFile(\\EFI\\systemd\\systemd-bootx64.efi)\n";
    assert_eq!(grub_first(out), Some(("0000".to_string(), "0000,0001".to_string())));
    assert_eq!(grub_first(""), None);
}

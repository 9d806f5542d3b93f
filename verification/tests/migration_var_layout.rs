//! A volume for `/var`.

use bootc_migrate_core::migration::var_layout::{
    blkid_uuid, parse_var_fstab_options, parse_var_mount, resolve_var_mount,
    stateroot_var_mount_kernel_arg, VarMount, VarMountCandidate,
};

#[test]
fn parses_whole_filesystem_var_mount() {
    let parsed =
        parse_var_mount("/var /dev/mapper/sys-var xfs / rw,relatime,attr2,inode64,noquota")
            .unwrap();
    assert_eq!(
        parsed,
        VarMountCandidate {
            device: "/dev/mapper/sys-var".into(),
            fstype: "xfs".into(),
            options: "defaults".into(),
        }
    );
}

#[test]
fn parses_direct_btrfs_var_subvolume() {
    let parsed = parse_var_mount(
        "/var /dev/nvme0n1p3[/var] btrfs /var rw,noatime,subvolid=258,subvol=/var",
    )
    .unwrap();
    assert_eq!(
        parsed,
        VarMountCandidate {
            device: "/dev/nvme0n1p3".into(),
            fstype: "btrfs".into(),
            options: "defaults,subvol=/var".into(),
        }
    );
}

#[test]
fn preserves_matching_var_fstab_policy_options() {
    let candidate = VarMountCandidate {
        device: "/dev/nvme0n1p3".into(),
        fstype: "btrfs".into(),
        options: "defaults,subvol=/var".into(),
    };
    let fstab = "\
UUID=root / btrfs subvol=root,ro 0 0\n\
UUID=root /var btrfs subvol=var,noatime,lazytime,commit=120,discard=async,compress-force=zstd:1,space_cache=v2 0 0\n";
    assert_eq!(
        parse_var_fstab_options(fstab, &candidate).as_deref(),
        Some(
            "rw,subvol=var,noatime,lazytime,commit=120,discard=async,compress-force=zstd:1,space_cache=v2"
        )
    );
}

#[test]
fn rejects_mismatched_var_fstab_subvolume() {
    let candidate = VarMountCandidate {
        device: "/dev/nvme0n1p3".into(),
        fstype: "btrfs".into(),
        options: "defaults,subvol=/var".into(),
    };
    assert!(
        parse_var_fstab_options(
            "UUID=root /var btrfs subvol=other,compress=zstd:1 0 0\n",
            &candidate,
        )
        .is_none()
    );
}

#[test]
fn rejects_ostree_var_bind_inside_another_btrfs_subvolume() {
    assert!(
        parse_var_mount(
            "/var /dev/nvme0n1p3[/root/ostree/deploy/default/var] btrfs /root/ostree/deploy/default/var rw,subvolid=256,subvol=/root",
        )
        .is_none()
    );
}

#[test]
fn rejects_var_that_is_not_its_own_mount() {
    assert!(
        parse_var_mount("/ /dev/nvme0n1p3[/root] btrfs /root rw,subvolid=256,subvol=/root",)
            .is_none()
    );
}

#[test]
fn builds_upgrade_persistent_stateroot_var_mount_arg() {
    let arg = stateroot_var_mount_kernel_arg(&VarMount {
        uuid: "09db668c-49ab-4e29-a634-6ff75ed8d107".into(),
        fstype: "btrfs".into(),
        options: "defaults,subvol=/var".into(),
    });
    assert_eq!(
        arg,
        "rd.systemd.mount-extra=/dev/disk/by-uuid/09db668c-49ab-4e29-a634-6ff75ed8d107:/sysroot/state/os/default/var:btrfs:defaults,subvol=/var,x-systemd.before=bootc-root-setup.service,x-systemd.required-by=bootc-root-setup.service"
    );
}

#[test]
fn escapes_colons_in_stateroot_var_mount_options() {
    let arg = stateroot_var_mount_kernel_arg(&VarMount {
        uuid: "btrfs-uuid".into(),
        fstype: "btrfs".into(),
        options: "rw,subvol=var,compress-force=zstd:1".into(),
    });
    assert!(arg.contains("compress-force=zstd\\x3a1"));
    assert!(!arg.contains("compress-force=zstd:1"));
}

#[test]
fn a_volume_needs_an_identity() {
    let candidate = VarMountCandidate {
        device: "/dev/sda3".into(),
        fstype: "xfs".into(),
        options: "defaults".into(),
    };
    assert_eq!(
        resolve_var_mount(candidate.clone(), blkid_uuid("1-2\n"), None).unwrap(),
        VarMount { uuid: "1-2".into(), fstype: "xfs".into(), options: "defaults".into() }
    );
    assert!(resolve_var_mount(candidate, None, None).is_err());
    assert_eq!(blkid_uuid(" \n"), None);
}

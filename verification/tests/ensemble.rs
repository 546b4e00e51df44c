use distinst::{
    skips_device_type, BlockInfo, BlockLink, Bootloader, DeviceProbe, Disk, Disks,
    FileSystemType, PartitionFlag, PartitionInfo, PartitionProbe, PartitionTable, PartitionType,
    UnmountStep, VerifyError,
};

fn partition(number: i32, target: Option<&str>, flags: Vec<PartitionFlag>) -> PartitionInfo {
    PartitionInfo {
        active: false,
        busy: false,
        is_source: true,
        remove: false,
        format: false,
        swapped: false,
        device_path: format!("/dev/sdz{}", number),
        flags,
        mount_point: None,
        target: target.map(String::from),
        start_sector: 2048 * number as u64,
        end_sector: 2048 * number as u64 + 2047,
        filesystem: Some(FileSystemType::Ext4),
        name: None,
        number,
        part_type: PartitionType::Primary,
    }
}

fn disk(device_path: &str, partitions: Vec<PartitionInfo>) -> Disk {
    Disk {
        model_name: "Test Disk".into(),
        serial: "Test Disk 123".into(),
        device_path: device_path.into(),
        size: 1953525168,
        sector_size: 512,
        device_type: "TEST".into(),
        table_type: Some(PartitionTable::Gpt),
        read_only: false,
        mklabel: false,
        partitions,
    }
}

fn two_disks() -> Disks {
    Disks(vec![
        disk(
            "/dev/sda",
            vec![partition(1, None, vec![]), partition(2, Some("/home"), vec![])],
        ),
        disk(
            "/dev/sdb",
            vec![
                partition(1, Some("/boot/efi"), vec![PartitionFlag::Boot, PartitionFlag::Esp]),
                partition(2, Some("/"), vec![]),
                partition(3, Some("/home"), vec![]),
            ],
        ),
    ])
}

#[test]
fn detect_goes_by_the_firmware() {
    assert_eq!(Bootloader::detect(true), Bootloader::Efi);
    assert_eq!(Bootloader::detect(false), Bootloader::Bios);
}

#[test]
fn find_partition_gives_the_first_with_the_target() {
    let disks = two_disks();
    let (path, part) = disks.find_partition("/home").unwrap();
    assert_eq!(path, "/dev/sda");
    assert_eq!(part, &disks.0[0].partitions[1]);
    let (path, part) = disks.find_partition("/").unwrap();
    assert_eq!(path, "/dev/sdb");
    assert_eq!(part.number, 2);
    assert!(disks.find_partition("/var").is_none());
    assert!(disks.find_partition("").is_none());
    assert!(Disks(vec![]).find_partition("/").is_none());
}

#[test]
fn verify_partitions_wants_a_root() {
    let mut disks = two_disks();
    assert_eq!(disks.verify_partitions(Bootloader::Bios), Ok(()));
    assert_eq!(disks.verify_partitions(Bootloader::Efi), Ok(()));
    disks.0[1].partitions[1].target = None;
    assert_eq!(disks.verify_partitions(Bootloader::Bios), Err(VerifyError::RootMissing));
    assert_eq!(disks.verify_partitions(Bootloader::Efi), Err(VerifyError::RootMissing));
}

#[test]
fn verify_partitions_wants_an_esp_for_efi() {
    let mut disks = two_disks();
    disks.0[1].partitions[0].flags = vec![PartitionFlag::Boot];
    assert_eq!(disks.verify_partitions(Bootloader::Efi), Err(VerifyError::EfiWithoutEsp));
    assert_eq!(disks.verify_partitions(Bootloader::Bios), Ok(()));
    disks.0[1].partitions[0].target = None;
    assert_eq!(disks.verify_partitions(Bootloader::Efi), Err(VerifyError::EfiMissing));
    assert_eq!(disks.verify_partitions(Bootloader::Bios), Ok(()));
}

#[test]
fn verify_error_in_words() {
    assert_eq!(VerifyError::RootMissing.message(), "root partition was not defined");
    assert_eq!(VerifyError::EfiMissing.message(), "EFI partition was not defined");
    assert_eq!(
        VerifyError::EfiWithoutEsp.message(),
        "EFI partition did not have ESP flag set"
    );
}

#[test]
fn get_base_partitions_after_verify() {
    let disks = two_disks();
    assert!(disks.verify_partitions(Bootloader::Efi).is_ok());
    let (root, efi) = disks.get_base_partitions(Bootloader::Efi);
    assert_eq!(root.0, "/dev/sdb");
    assert_eq!(root.1.number, 2);
    let efi = efi.unwrap();
    assert_eq!(efi.0, "/dev/sdb");
    assert_eq!(efi.1.number, 1);
    let (root, efi) = disks.get_base_partitions(Bootloader::Bios);
    assert_eq!(root.1.target, Some("/".to_string()));
    assert!(efi.is_none());
}

fn probed(number: i32, kind_name: &str, fs_name: Option<&str>) -> PartitionProbe {
    PartitionProbe {
        number,
        kind_name: kind_name.into(),
        fs_name: fs_name.map(String::from),
        flags: vec![PartitionFlag::Lba],
        name: Some("label".into()),
        active: true,
        busy: false,
        start_sector: 2048,
        end_sector: 4095,
        device_path: format!("/dev/sdz{}", number),
        mount_point: Some("/mnt".into()),
        swapped: false,
    }
}

fn device(table_name: Option<&str>, partitions: Vec<PartitionProbe>) -> DeviceProbe {
    DeviceProbe {
        model_name: "Model".into(),
        device_path: "/dev/sdz".into(),
        serial: "Serial 1".into(),
        size: 1000000,
        sector_size: 512,
        device_type: "PED_DEVICE_SCSI".into(),
        read_only: true,
        table_name: table_name.map(String::from),
        partitions,
    }
}

#[test]
fn new_disk_takes_the_partitions_of_the_probe() {
    let disk = Disk::new(&device(
        Some("gpt"),
        vec![
            probed(-1, "metadata", None),
            probed(1, "primary", Some("ext4")),
            probed(-1, "free", None),
            probed(2, "extended", None),
            probed(5, "logical", Some("linux-swap(v1)")),
            probed(6, "primary", Some("zfs")),
        ],
    ));
    assert_eq!(disk.model_name, "Model");
    assert_eq!(disk.device_path, "/dev/sdz");
    assert_eq!(disk.serial, "Serial 1");
    assert_eq!(disk.size, 1000000);
    assert_eq!(disk.sector_size, 512);
    assert_eq!(disk.device_type, "PED_DEVICE_SCSI");
    assert!(disk.read_only);
    assert!(!disk.mklabel);
    assert_eq!(disk.table_type, Some(PartitionTable::Gpt));
    assert_eq!(
        disk.partitions,
        vec![
            PartitionInfo {
                is_source: true,
                remove: false,
                format: false,
                active: true,
                busy: false,
                swapped: false,
                number: 1,
                start_sector: 2048,
                end_sector: 4095,
                part_type: PartitionType::Primary,
                filesystem: Some(FileSystemType::Ext4),
                flags: vec![PartitionFlag::Lba],
                name: Some("label".into()),
                device_path: "/dev/sdz1".into(),
                mount_point: Some("/mnt".into()),
                target: None,
            },
            PartitionInfo {
                is_source: true,
                remove: false,
                format: false,
                active: true,
                busy: false,
                swapped: false,
                number: 5,
                start_sector: 2048,
                end_sector: 4095,
                part_type: PartitionType::Logical,
                filesystem: Some(FileSystemType::Swap),
                flags: vec![PartitionFlag::Lba],
                name: Some("label".into()),
                device_path: "/dev/sdz5".into(),
                mount_point: Some("/mnt".into()),
                target: None,
            },
            PartitionInfo {
                is_source: true,
                remove: false,
                format: false,
                active: true,
                busy: false,
                swapped: false,
                number: 6,
                start_sector: 2048,
                end_sector: 4095,
                part_type: PartitionType::Primary,
                filesystem: None,
                flags: vec![PartitionFlag::Lba],
                name: Some("label".into()),
                device_path: "/dev/sdz6".into(),
                mount_point: Some("/mnt".into()),
                target: None,
            },
        ]
    );
}

#[test]
fn new_msdos_disk_has_no_labels() {
    let disk = Disk::new(&device(Some("msdos"), vec![probed(1, "primary", Some("fat32"))]));
    assert_eq!(disk.table_type, Some(PartitionTable::Msdos));
    assert_eq!(disk.partitions.len(), 1);
    assert_eq!(disk.partitions[0].name, None);
    assert_eq!(disk.partitions[0].filesystem, Some(FileSystemType::Fat32));
}

#[test]
fn new_disk_without_a_known_table_has_no_partitions() {
    let parts = vec![probed(1, "primary", Some("ext4"))];
    let disk = Disk::new(&device(None, parts.clone()));
    assert_eq!(disk.table_type, None);
    assert!(disk.partitions.is_empty());
    let disk = Disk::new(&device(Some("loop"), parts));
    assert_eq!(disk.table_type, None);
    assert!(disk.partitions.is_empty());
}

#[test]
fn new_from_probe_skips_what_is_no_partition() {
    assert!(PartitionInfo::new_from_probe(&probed(-1, "primary", None), false).is_none());
    assert!(PartitionInfo::new_from_probe(&probed(3, "extended", None), false).is_none());
    let part = PartitionInfo::new_from_probe(&probed(3, "logical", Some("xfs")), true).unwrap();
    assert_eq!(part.number, 3);
    assert_eq!(part.part_type, PartitionType::Logical);
    assert_eq!(part.name, None);
    assert!(part.is_source);
}

#[test]
fn device_types_that_a_probe_skips() {
    assert!(skips_device_type("PED_DEVICE_UNKNOWN"));
    assert!(skips_device_type("PED_DEVICE_LOOP"));
    assert!(skips_device_type("PED_DEVICE_FILE"));
    assert!(!skips_device_type("PED_DEVICE_SCSI"));
    assert!(!skips_device_type("PED_DEVICE_NVME"));
    assert!(!skips_device_type(""));
}

#[test]
fn file_system_names() {
    let all = [
        (FileSystemType::Btrfs, "btrfs", "btrfs", "defaults"),
        (FileSystemType::Exfat, "exfat", "exfat", "defaults"),
        (FileSystemType::Ext2, "ext2", "ext2", "defaults"),
        (FileSystemType::Ext3, "ext3", "ext3", "defaults"),
        (FileSystemType::Ext4, "ext4", "ext4", "noatime,errors=remount-ro"),
        (FileSystemType::F2fs, "f2fs", "f2fs", "defaults"),
        (FileSystemType::Fat16, "fat16", "vfat", "umask=0077"),
        (FileSystemType::Fat32, "fat32", "vfat", "umask=0077"),
        (FileSystemType::Ntfs, "ntfs", "ntfs", "defaults"),
        (FileSystemType::Swap, "linux-swap(v1)", "swap", "sw"),
        (FileSystemType::Xfs, "xfs", "xfs", "defaults"),
    ];
    for (fs, name, mount_name, options) in all.iter() {
        assert_eq!(fs.name(), *name);
        assert_eq!(FileSystemType::from_name(name), Some(*fs));
        assert_eq!(fs.get_mount_name(), *mount_name);
        assert_eq!(fs.get_preferred_options(), *options);
    }
    assert_eq!(FileSystemType::from_name("swap"), Some(FileSystemType::Swap));
    assert_eq!(FileSystemType::from_name("EXT4"), None);
    assert_eq!(FileSystemType::from_name(""), None);
    assert_eq!(PartitionType::from_name("primary"), Some(PartitionType::Primary));
    assert_eq!(PartitionType::from_name("logical"), Some(PartitionType::Logical));
    assert_eq!(PartitionType::from_name("extended"), None);
}

#[test]
fn reload_keeps_the_targets() {
    let mut old = disk(
        "/dev/sdz",
        vec![partition(1, Some("/boot"), vec![]), partition(2, None, vec![]), {
            let mut new = partition(3, Some("/"), vec![]);
            new.is_source = false;
            new.number = -1;
            new
        }],
    );
    let mut fresh = disk(
        "/dev/sdy",
        vec![partition(1, None, vec![]), partition(2, None, vec![]), partition(3, None, vec![])],
    );
    fresh.serial = "fresh".into();
    assert!(fresh.takes_targets_of(&old));
    old.reload(fresh.clone());
    assert_eq!(old.device_path, "/dev/sdy");
    assert_eq!(old.serial, "fresh");
    assert_eq!(old.partitions[0].target, Some("/boot".to_string()));
    assert_eq!(old.partitions[1].target, None);
    assert_eq!(old.partitions[2].target, Some("/".to_string()));
    assert_eq!(old.partitions[2].number, 3);
    assert!(old.partitions[2].is_source);
    for (new, probed) in old.partitions.iter().zip(fresh.partitions.iter()) {
        assert_eq!(new.number, probed.number);
        assert_eq!(new.start_sector, probed.start_sector);
        assert_eq!(new.end_sector, probed.end_sector);
    }
}

#[test]
fn reload_loses_a_target_without_a_partition() {
    let mut old = disk("/dev/sdz", vec![partition(5, Some("/srv"), vec![])]);
    let fresh = disk("/dev/sdz", vec![partition(1, None, vec![])]);
    assert!(!fresh.takes_targets_of(&old));
    old.reload(fresh.clone());
    assert_eq!(old, fresh);
}

#[test]
fn set_target_at_goes_by_the_sector() {
    let mut disk = disk("/dev/sdz", vec![partition(1, None, vec![]), partition(2, None, vec![])]);
    disk.set_target_at(4096 + 100, "/data".into());
    assert_eq!(disk.partitions[0].target, None);
    assert_eq!(disk.partitions[1].target, Some("/data".to_string()));
    let before = disk.clone();
    disk.set_target_at(0, "/nowhere".into());
    assert_eq!(disk, before);
}

#[test]
fn unmount_steps_let_go_of_each_partition_in_turn() {
    let mut disk = disk(
        "/dev/sdz",
        vec![partition(1, None, vec![]), partition(2, None, vec![]), partition(3, None, vec![])],
    );
    disk.partitions[0].swapped = true;
    disk.partitions[1].mount_point = Some("/mnt/a".into());
    disk.partitions[1].swapped = true;
    let mut steps = Vec::new();
    while let Some(step) = disk.next_unmount() {
        disk.finish_unmount(&step);
        steps.push(step);
        assert!(steps.len() <= 3);
    }
    assert_eq!(
        steps,
        vec![
            UnmountStep::Swapoff { index: 0, device_path: "/dev/sdz1".into() },
            UnmountStep::Unmount { index: 1, mount_point: "/mnt/a".into() },
            UnmountStep::Swapoff { index: 1, device_path: "/dev/sdz2".into() },
        ]
    );
    assert!(disk.partitions.iter().all(|p| p.mount_point.is_none() && !p.swapped));
}

#[test]
fn finish_unmount_of_a_missing_partition_changes_nothing() {
    let mut disk = disk("/dev/sdz", vec![partition(1, None, vec![])]);
    disk.partitions[0].swapped = true;
    let before = disk.clone();
    disk.finish_unmount(&UnmountStep::Swapoff { index: 4, device_path: "/dev/sdz5".into() });
    disk.finish_unmount(&UnmountStep::Unmount { index: 1, mount_point: "/".into() });
    assert_eq!(disk, before);
}

fn uuids() -> Vec<BlockLink> {
    vec![
        BlockLink { device_path: "/dev/sdz2".into(), name: "1111-2222".into() },
        BlockLink { device_path: "/dev/sdz1".into(), name: "AAAA-BBBB".into() },
        BlockLink { device_path: "/dev/sdz2".into(), name: "3333-4444".into() },
    ]
}

#[test]
fn block_info_wants_a_target_a_file_system_and_a_uuid() {
    let mut part = partition(2, Some("/"), vec![]);
    assert_eq!(
        part.get_block_info(&uuids()),
        Some(BlockInfo {
            uuid: "1111-2222".into(),
            mount: "/".into(),
            fs: "ext4".into(),
            options: "noatime,errors=remount-ro".into(),
            dump: false,
            pass: false,
        })
    );
    part.filesystem = Some(FileSystemType::Fat32);
    let info = part.get_block_info(&uuids()).unwrap();
    assert_eq!(info.fs, "vfat");
    assert_eq!(info.options, "umask=0077");
    part.filesystem = None;
    assert_eq!(part.get_block_info(&uuids()), None);
    part.filesystem = Some(FileSystemType::Ext4);
    part.target = None;
    assert_eq!(part.get_block_info(&uuids()), None);
    part.target = Some("/".into());
    part.device_path = "/dev/sdz9".into();
    assert_eq!(part.get_block_info(&uuids()), None);
    assert_eq!(part.get_block_info(&vec![]), None);
}

#[test]
fn fstab_line_has_six_columns() {
    let info = BlockInfo {
        uuid: "AAAA-BBBB".into(),
        mount: "/boot/efi".into(),
        fs: "vfat".into(),
        options: "umask=0077".into(),
        dump: false,
        pass: true,
    };
    assert_eq!(info.fstab_line(), "UUID=AAAA-BBBB  /boot/efi  vfat  umask=0077  0  1\n");
}

#[test]
fn fstab_has_a_line_for_each_partition_with_a_target() {
    let mut disks = Disks(vec![
        disk(
            "/dev/sdz",
            vec![
                partition(1, Some("/boot/efi"), vec![]),
                partition(2, Some("/"), vec![]),
                partition(3, None, vec![]),
            ],
        ),
        disk("/dev/sdy", vec![partition(4, Some("/home"), vec![])]),
    ]);
    disks.0[0].partitions[0].filesystem = Some(FileSystemType::Fat16);
    disks.0[1].partitions[0].filesystem = Some(FileSystemType::Btrfs);
    let mut ids = uuids();
    ids.push(BlockLink { device_path: "/dev/sdz4".into(), name: "home".into() });
    ids.push(BlockLink { device_path: "/dev/sdz3".into(), name: "unused".into() });
    assert_eq!(
        disks.generate_fstab(&ids),
        "UUID=AAAA-BBBB  /boot/efi  vfat  umask=0077  0  0\n\
         UUID=1111-2222  /  ext4  noatime,errors=remount-ro  0  0\n\
         UUID=home  /home  btrfs  defaults  0  0\n"
    );
    assert_eq!(disks.generate_fstab(&vec![]), "");
    assert_eq!(Disks(vec![]).generate_fstab(&ids), "");
}

fn whole_disk(size: u64) -> Disk {
    let mut disk = disk("/dev/sdz", vec![partition(1, Some("/old"), vec![])]);
    disk.size = size;
    disk
}

#[test]
fn partition_for_efi_makes_an_esp_and_a_root() {
    let mut disk = whole_disk(1953525168);
    assert_eq!(disk.partition_for(Bootloader::Efi), Ok(()));
    assert!(disk.mklabel);
    assert_eq!(disk.table_type, Some(PartitionTable::Gpt));
    assert_eq!(disk.partitions.len(), 2);
    let efi = &disk.partitions[0];
    assert_eq!((efi.start_sector, efi.end_sector), (4096, 999_999));
    assert_eq!(efi.filesystem, Some(FileSystemType::Fat32));
    assert_eq!(efi.flags, vec![PartitionFlag::Esp]);
    assert_eq!(efi.target, Some("/boot/efi".to_string()));
    let root = &disk.partitions[1];
    assert_eq!((root.start_sector, root.end_sector), (1_000_000, 1953525168 - 4096 - 1));
    assert_eq!(root.filesystem, Some(FileSystemType::Ext4));
    assert!(root.flags.is_empty());
    assert_eq!(root.target, Some("/".to_string()));
    assert_eq!(Disks(vec![disk]).verify_partitions(Bootloader::Efi), Ok(()));
}

#[test]
fn partition_for_bios_makes_a_bootable_root() {
    let mut disk = whole_disk(1953525168);
    assert_eq!(disk.partition_for(Bootloader::Bios), Ok(()));
    assert!(disk.mklabel);
    assert_eq!(disk.table_type, Some(PartitionTable::Msdos));
    assert_eq!(disk.partitions.len(), 1);
    let root = &disk.partitions[0];
    assert_eq!((root.start_sector, root.end_sector), (4096, 1953525168 - 4096 - 1));
    assert_eq!(root.filesystem, Some(FileSystemType::Ext4));
    assert_eq!(root.flags, vec![PartitionFlag::Boot]);
    assert_eq!(root.part_type, PartitionType::Primary);
    assert_eq!(root.target, Some("/".to_string()));
    assert!(!root.is_source);
}

#[test]
fn partition_for_a_disk_that_is_too_small_is_out_of_bounds() {
    let mut disk = whole_disk(4096);
    assert_eq!(disk.partition_for(Bootloader::Bios), Err(distinst::DiskError::PartitionOOB));
    assert!(disk.mklabel);
    assert!(disk.partitions.is_empty());
    let mut disk = whole_disk(8192);
    assert_eq!(disk.partition_for(Bootloader::Bios), Err(distinst::DiskError::PartitionOOB));
    let mut disk = whole_disk(8193);
    assert_eq!(disk.partition_for(Bootloader::Bios), Ok(()));
    assert_eq!((disk.partitions[0].start_sector, disk.partitions[0].end_sector), (4096, 4096));
    // Room for the EFI system partition, and none for the root partition.
    let mut disk = whole_disk(1_004_096);
    assert_eq!(disk.partition_for(Bootloader::Efi), Err(distinst::DiskError::PartitionOOB));
    assert!(disk.partitions.is_empty());
    let mut disk = whole_disk(1_004_097);
    assert_eq!(disk.partition_for(Bootloader::Efi), Ok(()));
    assert_eq!(disk.partitions[1].start_sector, 1_000_000);
    assert_eq!(disk.partitions[1].end_sector, 1_000_000);
}

#[test]
fn installer_of_each_boot_loader() {
    assert_eq!(
        Bootloader::Bios.get_installer(),
        ("grub-install", vec!["--recheck", "--target=i386-pc"])
    );
    assert_eq!(
        Bootloader::Efi.get_installer(),
        ("grub-install", vec!["--recheck", "--target=x86_64-efi"])
    );
}

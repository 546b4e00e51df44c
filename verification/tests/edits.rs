use distinst::{
    Disk, DiskError, FileSystemType, PartitionBuilder, PartitionFlag, PartitionInfo,
    PartitionTable, PartitionType, Sector,
};

fn source_partition(number: i32, start_sector: u64, end_sector: u64) -> PartitionInfo {
    PartitionInfo {
        active: false,
        busy: false,
        is_source: true,
        remove: false,
        format: false,
        swapped: false,
        device_path: format!("/dev/sdz{}", number),
        flags: vec![],
        mount_point: None,
        target: None,
        start_sector,
        end_sector,
        filesystem: Some(FileSystemType::Ext4),
        name: None,
        number,
        part_type: PartitionType::Primary,
    }
}

fn disk(table_type: Option<PartitionTable>, partitions: Vec<PartitionInfo>) -> Disk {
    Disk {
        model_name: "Test Disk".into(),
        serial: "Test Disk 123".into(),
        device_path: "/dev/sdz".into(),
        size: 1953525168,
        sector_size: 512,
        device_type: "TEST".into(),
        table_type,
        read_only: false,
        mklabel: false,
        partitions,
    }
}

fn get_default() -> Disk {
    disk(
        Some(PartitionTable::Gpt),
        vec![
            source_partition(1, 2048, 1026047),
            source_partition(2, 1026048, 420456447),
            source_partition(3, 420456448, 1936738303),
            source_partition(4, 1936738304, 1953523711),
        ],
    )
}

fn primary(start: u64) -> PartitionBuilder {
    PartitionBuilder::new(start, start + 1000, FileSystemType::Ext4)
}

fn logical(start: u64) -> PartitionBuilder {
    primary(start).partition_type(PartitionType::Logical)
}

fn apart(disk: &Disk) -> bool {
    let parts: Vec<&PartitionInfo> = disk.partitions.iter().filter(|p| !p.remove).collect();
    for (i, p) in parts.iter().enumerate() {
        for q in parts.iter().skip(i + 1) {
            if !(p.end_sector < q.start_sector || p.start_sector > q.end_sector) {
                return false;
            }
        }
    }
    true
}

fn on_disk(disk: &Disk) -> bool {
    disk.partitions.iter().all(|p| p.end_sector < disk.size)
}

fn within_quota(disk: &Disk) -> bool {
    let primaries = disk
        .partitions
        .iter()
        .filter(|p| p.part_type == PartitionType::Primary)
        .count();
    let logicals = disk.partitions.len() - primaries;
    primaries + if logicals > 0 { 1 } else { 0 } <= 4
}

#[test]
fn add_overlapping_names_the_partition() {
    let mut disk = get_default();
    let before = disk.clone();
    assert_eq!(
        disk.add_partition(PartitionBuilder::new(2048, 2_000_000, FileSystemType::Ext4)),
        Err(DiskError::SectorOverlaps { id: 1 })
    );
    assert_eq!(disk, before);
}

#[test]
fn add_names_the_first_partition_that_overlaps() {
    let mut disk = get_default();
    assert_eq!(
        disk.add_partition(PartitionBuilder::new(1026047, 420456450, FileSystemType::Ext4)),
        Err(DiskError::SectorOverlaps { id: 1 })
    );
    assert_eq!(
        disk.add_partition(PartitionBuilder::new(1026048, 420456450, FileSystemType::Ext4)),
        Err(DiskError::SectorOverlaps { id: 2 })
    );
    // A range that holds a partition overlaps it.
    assert_eq!(
        disk.add_partition(PartitionBuilder::new(0, 1953525168, FileSystemType::Ext4)),
        Err(DiskError::SectorOverlaps { id: 1 })
    );
}

#[test]
fn add_beyond_the_disk_is_out_of_bounds() {
    let mut disk = disk(Some(PartitionTable::Gpt), vec![]);
    let before = disk.clone();
    assert_eq!(
        disk.add_partition(PartitionBuilder::new(2048, 1953525170, FileSystemType::Ext4)),
        Err(DiskError::PartitionOOB)
    );
    assert_eq!(disk, before);
    // The sectors of the disk are numbered from zero: the size is none of them.
    assert_eq!(
        disk.add_partition(PartitionBuilder::new(2048, 1953525169, FileSystemType::Ext4)),
        Err(DiskError::PartitionOOB)
    );
    assert_eq!(disk, before);
    // The last sector of the disk may be the last of a partition.
    assert_eq!(
        disk.add_partition(PartitionBuilder::new(2048, 1953525168, FileSystemType::Ext4)),
        Ok(())
    );
    assert_eq!(disk.partitions[0].end_sector, 1953525167);
    assert!(on_disk(&disk));
}

#[test]
fn resize_past_the_end_of_the_disk_is_out_of_bounds() {
    let mut disk = get_default();
    let before = disk.clone();
    assert_eq!(disk.resize_partition(4, 20000000), Err(DiskError::PartitionOOB));
    assert_eq!(disk, before);
    // Up to the last sector of the disk it fits, one more does not.
    assert_eq!(
        disk.resize_partition(4, 1953525168 - 1936738304 + 1),
        Err(DiskError::PartitionOOB)
    );
    assert_eq!(disk, before);
    assert_eq!(disk.resize_partition(4, 1953525168 - 1936738304), Ok(()));
    assert_eq!(disk.partitions[3].end_sector, 1953525167);
    assert!(on_disk(&disk));
}

#[test]
fn move_past_the_end_of_the_disk_is_out_of_bounds() {
    let mut disk = get_default();
    let before = disk.clone();
    assert_eq!(disk.move_partition(4, 1940000000), Err(DiskError::PartitionOOB));
    assert_eq!(disk, before);
    // The partition has 16785408 sectors; it fits where it ends with the disk.
    assert_eq!(
        disk.move_partition(4, 1953525168 - 16785408 + 1),
        Err(DiskError::PartitionOOB)
    );
    assert_eq!(disk.move_partition(4, 1953525168 - 16785408), Ok(()));
    assert_eq!(disk.partitions[3].end_sector, 1953525167);
    assert!(on_disk(&disk));
}

#[test]
fn placing_reports_the_bounds_before_the_overlap() {
    let mut disk = get_default();
    let before = disk.clone();
    // Partition 1 would run over every other partition and past the disk.
    assert_eq!(disk.resize_partition(1, 1953525168), Err(DiskError::PartitionOOB));
    assert_eq!(disk, before);
}

#[test]
fn edits_keep_the_partitions_on_the_disk() {
    let mut disk = get_default();
    assert!(on_disk(&disk));
    let _ = disk.remove_partition(4);
    let _ = disk.add_partition(PartitionBuilder::new(1936738304, 2_000_000_000, FileSystemType::Ext4));
    assert!(on_disk(&disk));
    let _ = disk.add_partition(PartitionBuilder::new(1936738304, 1953525168, FileSystemType::Ext4));
    assert!(on_disk(&disk));
    let _ = disk.resize_partition(-1, 30_000_000);
    assert!(on_disk(&disk));
    let _ = disk.move_partition(3, 900_000_000);
    assert!(on_disk(&disk));
    let _ = disk.resize_partition(3, 1_000_000_000);
    assert!(on_disk(&disk));
    let _ = disk.format_partition(3, FileSystemType::Xfs);
    assert!(on_disk(&disk));
    assert_eq!(disk.partitions.len(), 5);
}

#[test]
fn msdos_partitions_get_no_label() {
    let mut disk = disk(Some(PartitionTable::Msdos), vec![]);
    disk.add_partition(primary(2048).name("root".into()).mount("/".into())).unwrap();
    assert_eq!(disk.partitions[0].name, None);
    assert_eq!(disk.partitions[0].target, Some("/".to_string()));
    let mut disk = self::disk(Some(PartitionTable::Gpt), vec![]);
    disk.add_partition(primary(2048).name("root".into())).unwrap();
    assert_eq!(disk.partitions[0].name, Some("root".to_string()));
}

#[test]
fn add_without_a_table_is_refused() {
    let mut disk = disk(None, vec![]);
    assert_eq!(disk.add_partition(primary(2048)), Err(DiskError::PartitionTableNotFound));
    assert!(disk.partitions.is_empty());
}

#[test]
fn add_reports_the_overlap_before_the_bounds_and_the_table() {
    let mut disk = disk(None, vec![source_partition(1, 2048, 4096)]);
    assert_eq!(
        disk.add_partition(PartitionBuilder::new(4000, 1953525170, FileSystemType::Ext4)),
        Err(DiskError::SectorOverlaps { id: 1 })
    );
    assert_eq!(
        disk.add_partition(PartitionBuilder::new(5000, 1953525170, FileSystemType::Ext4)),
        Err(DiskError::PartitionOOB)
    );
}

#[test]
fn add_builds_a_partition_that_is_not_on_the_device() {
    let mut disk = disk(Some(PartitionTable::Gpt), vec![]);
    disk.add_partition(
        PartitionBuilder::new(2048, 4097, FileSystemType::Fat32)
            .name("boot".into())
            .flag(PartitionFlag::Esp)
            .flag(PartitionFlag::Boot)
            .mount("/boot/efi".into()),
    )
    .unwrap();
    assert_eq!(
        disk.partitions,
        vec![PartitionInfo {
            active: false,
            busy: false,
            is_source: false,
            remove: false,
            format: true,
            swapped: false,
            device_path: String::new(),
            flags: vec![PartitionFlag::Esp, PartitionFlag::Boot],
            mount_point: None,
            target: Some("/boot/efi".into()),
            start_sector: 2048,
            end_sector: 4096,
            filesystem: Some(FileSystemType::Fat32),
            name: Some("boot".into()),
            number: -1,
            part_type: PartitionType::Primary,
        }]
    );
}

#[test]
fn msdos_takes_four_primaries() {
    let mut disk = disk(Some(PartitionTable::Msdos), vec![]);
    for n in 0..4 {
        assert_eq!(disk.add_partition(primary(2048 + n * 2000)), Ok(()));
        assert!(within_quota(&disk));
    }
    let before = disk.clone();
    assert_eq!(disk.add_partition(primary(20000)), Err(DiskError::PrimaryPartitionsExceeded));
    assert_eq!(disk.add_partition(logical(20000)), Err(DiskError::PrimaryPartitionsExceeded));
    assert_eq!(disk, before);
}

#[test]
fn msdos_takes_three_primaries_beside_a_logical() {
    let mut disk = disk(Some(PartitionTable::Msdos), vec![]);
    for n in 0..3 {
        assert_eq!(disk.add_partition(primary(2048 + n * 2000)), Ok(()));
    }
    assert_eq!(disk.add_partition(logical(10000)), Ok(()));
    assert!(within_quota(&disk));
    assert_eq!(disk.add_partition(primary(20000)), Err(DiskError::PrimaryPartitionsExceeded));
    // More logical partitions fit into the container.
    assert_eq!(disk.add_partition(logical(20000)), Ok(()));
    assert!(within_quota(&disk));
    assert_eq!(disk.get_partition_type_count(), (3, 2));
}

#[test]
fn gpt_has_no_quota() {
    let mut disk = disk(Some(PartitionTable::Gpt), vec![]);
    for n in 0..6 {
        assert_eq!(disk.add_partition(primary(2048 + n * 2000)), Ok(()));
    }
    assert_eq!(disk.get_partition_type_count(), (6, 0));
}

#[test]
fn remove_marks_a_source_partition() {
    let mut disk = get_default();
    assert_eq!(disk.remove_partition(1), Ok(()));
    assert_eq!(disk.partitions.len(), 4);
    assert!(disk.partitions[0].remove);
    assert!(!disk.partitions[1].remove);
    // Its sectors are free again.
    assert_eq!(disk.overlaps_region(2048, 4096), None);
    assert_eq!(disk.get_partition_at(2048), None);
}

#[test]
fn remove_drops_a_new_partition() {
    let mut disk = disk(Some(PartitionTable::Gpt), vec![]);
    disk.add_partition(primary(2048)).unwrap();
    assert_eq!(disk.remove_partition(-1), Ok(()));
    assert!(disk.partitions.is_empty());

    let mut disk = get_default();
    disk.remove_partition(4).unwrap();
    disk.add_partition(primary(1936738304)).unwrap();
    assert_eq!(disk.partitions.len(), 5);
    assert_eq!(disk.remove_partition(-1), Ok(()));
    assert_eq!(disk.partitions.len(), 4);
    assert_eq!(disk.partitions[3].number, 4);
}

#[test]
fn remove_of_a_missing_partition_is_not_found() {
    let mut disk = get_default();
    let before = disk.clone();
    assert_eq!(disk.remove_partition(9), Err(DiskError::PartitionNotFound { partition: 9 }));
    assert_eq!(disk, before);
}

#[test]
fn resize_too_small_keeps_the_end() {
    let mut disk = get_default();
    assert_eq!(disk.resize_partition(2, 1024), Err(DiskError::ResizeTooSmall));
    assert_eq!(disk.partitions[1].end_sector, 420456447);
    // Ten mebibytes are 20480 sectors: the length has to be above that.
    assert_eq!(disk.resize_partition(2, 20480), Err(DiskError::ResizeTooSmall));
    assert_eq!(disk.resize_partition(2, 20481), Ok(()));
    assert_eq!(disk.partitions[1].start_sector, 1026048);
    assert_eq!(disk.partitions[1].end_sector, 1026048 + 20481 - 1);
}

#[test]
fn resize_checks_the_length_before_the_number() {
    let mut disk = get_default();
    assert_eq!(disk.resize_partition(9, 1024), Err(DiskError::ResizeTooSmall));
    assert_eq!(
        disk.resize_partition(9, 50000),
        Err(DiskError::PartitionNotFound { partition: 9 })
    );
}

#[test]
fn resize_into_the_next_partition_is_rolled_back() {
    let mut disk = get_default();
    let before = disk.clone();
    // One sector too long: the last sector would be the first of partition 2.
    assert_eq!(
        disk.resize_partition(1, 1026048 - 2048 + 1),
        Err(DiskError::SectorOverlaps { id: 2 })
    );
    assert_eq!(disk, before);
    // Up to the sector before partition 2 it fits, and changes nothing else.
    assert_eq!(disk.resize_partition(1, 1026048 - 2048), Ok(()));
    assert_eq!(disk, before);
    assert!(apart(&disk));
}

#[test]
fn resize_may_grow_over_a_removed_partition() {
    let mut disk = get_default();
    disk.remove_partition(4).unwrap();
    assert_eq!(disk.resize_partition(3, 1953523711 - 420456448 + 1), Ok(()));
    assert_eq!(disk.partitions[2].end_sector, 1953523711);
    assert!(apart(&disk));
}

#[test]
fn resize_beyond_64_bits_is_out_of_bounds() {
    let mut disk = get_default();
    let before = disk.clone();
    assert_eq!(disk.resize_partition(4, u64::MAX), Err(DiskError::PartitionOOB));
    assert_eq!(disk, before);
}

#[test]
fn move_keeps_the_length() {
    let mut disk = get_default();
    disk.remove_partition(1).unwrap();
    disk.remove_partition(2).unwrap();
    disk.resize_partition(3, 100_000).unwrap();
    assert_eq!(disk.move_partition(3, 2048), Ok(()));
    assert_eq!(disk.partitions[2].start_sector, 2048);
    assert_eq!(disk.partitions[2].end_sector, 2048 + 100_000 - 1);
    assert_eq!(disk.move_partition(3, 500_000), Ok(()));
    assert_eq!(disk.partitions[2].start_sector, 500_000);
    assert_eq!(disk.partitions[2].end_sector, 500_000 + 100_000 - 1);
    assert!(apart(&disk));
}

#[test]
fn move_to_the_same_start_changes_nothing() {
    let mut disk = get_default();
    let before = disk.clone();
    assert_eq!(disk.move_partition(2, 1026048), Ok(()));
    assert_eq!(disk, before);
}

#[test]
fn move_onto_another_partition_is_refused() {
    let mut disk = get_default();
    let before = disk.clone();
    assert_eq!(disk.move_partition(1, 4096), Err(DiskError::SectorOverlaps { id: 2 }));
    assert_eq!(disk.move_partition(4, 1936738303), Err(DiskError::SectorOverlaps { id: 3 }));
    assert_eq!(disk, before);
}

#[test]
fn move_of_a_missing_partition_is_not_found() {
    let mut disk = get_default();
    assert_eq!(disk.move_partition(7, 0), Err(DiskError::PartitionNotFound { partition: 7 }));
}

#[test]
fn move_beyond_64_bits_is_out_of_bounds() {
    let mut disk = get_default();
    let before = disk.clone();
    assert_eq!(disk.move_partition(4, u64::MAX), Err(DiskError::PartitionOOB));
    assert_eq!(disk, before);
}

#[test]
fn move_below_zero_is_out_of_bounds() {
    // The end of this partition lies before its start, so that moving it
    // down by more than its end would put the end below sector zero.
    let mut disk = disk(Some(PartitionTable::Gpt), vec![source_partition(1, 5000, 10)]);
    let before = disk.clone();
    assert_eq!(disk.move_partition(1, 100), Err(DiskError::PartitionOOB));
    assert_eq!(disk, before);
}

#[test]
fn format_sets_the_file_system() {
    let mut disk = get_default();
    assert_eq!(disk.format_partition(3, FileSystemType::Xfs), Ok(()));
    assert!(disk.partitions[2].format);
    assert_eq!(disk.partitions[2].filesystem, Some(FileSystemType::Xfs));
    assert!(!disk.partitions[1].format);
    assert_eq!(
        disk.format_partition(8, FileSystemType::Xfs),
        Err(DiskError::PartitionNotFound { partition: 8 })
    );
}

#[test]
fn get_partition_mut_finds_the_first_with_the_number() {
    let mut disk = get_default();
    assert!(disk.get_partition_mut(5).is_none());
    {
        let part = disk.get_partition_mut(3).unwrap();
        assert_eq!(part.start_sector, 420456448);
        part.target = Some("/home".into());
    }
    assert_eq!(disk.partitions[2].target, Some("/home".to_string()));
    assert_eq!(disk.partitions[1].target, None);
}

#[test]
fn mklabel_clears_the_partitions() {
    let mut disk = get_default();
    disk.mklabel(PartitionTable::Msdos);
    assert!(disk.partitions.is_empty());
    assert!(disk.mklabel);
    assert_eq!(disk.table_type, Some(PartitionTable::Msdos));
    assert_eq!(disk.size, 1953525168);
    assert_eq!(disk.serial, "Test Disk 123");
}

#[test]
fn edits_keep_the_partitions_apart() {
    let mut disk = get_default();
    assert!(apart(&disk));
    let _ = disk.remove_partition(2);
    assert!(apart(&disk));
    let _ = disk.add_partition(PartitionBuilder::new(1026048, 2_000_000, FileSystemType::Ext4));
    assert!(apart(&disk));
    let _ = disk.add_partition(PartitionBuilder::new(1_500_000, 3_000_000, FileSystemType::Ext4));
    assert!(apart(&disk));
    let _ = disk.resize_partition(-1, 5_000_000);
    assert!(apart(&disk));
    let _ = disk.move_partition(-1, 2_500_000);
    assert!(apart(&disk));
    let _ = disk.move_partition(1, 2_400_000);
    assert!(apart(&disk));
    let _ = disk.format_partition(3, FileSystemType::Btrfs);
    assert!(apart(&disk));
    assert_eq!(disk.partitions.len(), 5);
}

#[test]
fn second_new_partition_is_not_overrun_by_the_first() {
    // Both new partitions have the number -1; a resize of the first one is
    // still held against the second.
    let mut disk = disk(Some(PartitionTable::Gpt), vec![]);
    disk.add_partition(PartitionBuilder::new(2048, 100_000, FileSystemType::Ext4)).unwrap();
    disk.add_partition(PartitionBuilder::new(100_000, 200_000, FileSystemType::Ext4)).unwrap();
    assert_eq!(
        disk.resize_partition(-1, 150_000),
        Err(DiskError::SectorOverlaps { id: -1 })
    );
    assert!(apart(&disk));
}

#[test]
fn overlaps_region_sees_both_end_points() {
    let disk = get_default();
    assert_eq!(disk.overlaps_region(0, 2047), None);
    assert_eq!(disk.overlaps_region(0, 2048), Some(1));
    assert_eq!(disk.overlaps_region(1026047, 1026047), Some(1));
    assert_eq!(disk.overlaps_region(1026048, 1026048), Some(2));
    assert_eq!(disk.overlaps_region(1953523712, 1953525167), None);
    assert_eq!(disk.overlaps_region_excluding(0, 2048, 0), None);
    assert_eq!(disk.overlaps_region_excluding(0, 1026048, 0), Some(2));
    assert_eq!(disk.overlap_index(0, 1026048, Some(1)), Some(0));
}

#[test]
fn get_partition_at_finds_the_holder_of_a_sector() {
    let disk = get_default();
    assert_eq!(disk.get_partition_at(2047), None);
    assert_eq!(disk.get_partition_at(2048), Some(1));
    assert_eq!(disk.get_partition_at(1026047), Some(1));
    assert_eq!(disk.get_partition_at(1026048), Some(2));
    assert_eq!(disk.get_partition_at(1953523712), None);
}

#[test]
fn position_is_the_first_index_with_the_number() {
    let mut disk = get_default();
    assert_eq!(disk.position(1), Some(0));
    assert_eq!(disk.position(4), Some(3));
    assert_eq!(disk.position(5), None);
    disk.partitions[3].number = 2;
    assert_eq!(disk.position(2), Some(1));
}

#[test]
fn path_is_the_device_node() {
    let disk = get_default();
    assert_eq!(disk.path(), "/dev/sdz");
    assert_eq!(disk.partitions[1].path(), "/dev/sdz2");
}

#[test]
fn start_and_end_keep_two_mebibytes_free() {
    let disk = get_default();
    assert_eq!(disk.get_sector(Sector::Start), 4096);
    assert_eq!(disk.get_sector(Sector::End), 1953525168 - 4096);
    let mut large = get_default();
    large.sector_size = 4096;
    assert_eq!(large.get_sector(Sector::Start), 512);
    assert_eq!(large.get_sector(Sector::End), 1953525168 - 512);
}

#[test]
fn unit_is_the_sector_itself() {
    let disk = get_default();
    assert_eq!(disk.get_sector(Sector::Unit(0)), 0);
    assert_eq!(disk.get_sector(Sector::Unit(123456)), 123456);
    assert_eq!(disk.get_sector(Sector::Unit(u64::MAX)), u64::MAX);
}

#[test]
fn megabyte_is_decimal() {
    let disk = get_default();
    assert_eq!(disk.get_sector(Sector::Megabyte(0)), 0);
    assert_eq!(disk.get_sector(Sector::Megabyte(1)), 1953);
    assert_eq!(disk.get_sector(Sector::Megabyte(20)), 39062);
    assert_eq!(disk.get_sector(Sector::Megabyte(500)), 976562);
    // The product does not fit in 64 bits; the sector does.
    assert_eq!(disk.get_sector(Sector::Megabyte(18_446_744_073_710)), 36028797018964843);
}

#[test]
fn percent_goes_by_sixteen_bits() {
    let disk = get_default();
    assert_eq!(disk.get_sector(Sector::Percent(0)), 0);
    // floor(1953525168 * 512 / 65535) = 15262148, times 65535, by 512.
    assert_eq!(disk.get_sector(Sector::Percent(u16::MAX)), 1953525135);
    assert_eq!(disk.get_sector(Sector::Percent(32768)), 976777472);
    assert_eq!(disk.get_sector(Sector::Percent(1)), 29808);
}

#[test]
fn percent_of_the_largest_disk_fits() {
    let mut disk = get_default();
    disk.size = u64::MAX;
    disk.sector_size = u64::MAX;
    assert_eq!(disk.get_sector(Sector::Percent(u16::MAX)), u64::MAX);
}

#[test]
fn builder_ends_one_sector_before_its_end() {
    let builder = PartitionBuilder::new(2048, 4096, FileSystemType::Ext4);
    assert_eq!(builder.start_sector, 2048);
    assert_eq!(builder.end_sector, 4095);
    let part = builder.partition_type(PartitionType::Logical).build();
    assert_eq!(part.part_type, PartitionType::Logical);
    assert_eq!(part.number, -1);
    assert!(!part.is_source);
    assert!(part.format);
    assert_eq!(part.filesystem, Some(FileSystemType::Ext4));
}

#[test]
fn set_mount_declares_the_target() {
    let mut part = source_partition(1, 0, 10);
    part.set_mount("/".into());
    assert_eq!(part.target, Some("/".to_string()));
    assert_eq!(part.mount_point, None);
    assert!(!part.is_swap());
    part.filesystem = Some(FileSystemType::Swap);
    assert!(part.is_swap());
}

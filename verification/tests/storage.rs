//! Storage logic: ATA command encoding, IDENTIFY parsing, data-port word
//! packing, the cluster filesystem, the RAM-disk filesystem, the
//! sector-granular filesystem, and PCI configuration parsing.

use sos::ata::{
    ATA_CMD_IDENTIFY, ATA_CMD_READ_SECTORS, ATA_CMD_READ_SECTORS_EXT, ATA_CMD_WRITE_SECTORS,
    AtaController, AtaControllers, AtaDevice, AtaError, AtaFileSystem, DriveInfo, FatEntry,
    WaitDecision, assemble_file, bytes_to_words, fs_create_file, fs_delete_file, fs_list_files,
    fs_read_file, has_mbr_signature, identify_drive, init_global_filesystem,
    plan_global_filesystem, read_sectors, wait_data_step, wait_ready_step, words_to_bytes,
    write_sectors,
};
use sos::fs::{AtaFilesystem, RamDiskFs};
use sos::pci::{
    PciBar, PciBarType, PciDevice, calculate_bar_size, calculate_bar_size_64, is_virtio_gpu,
    pci_config_address, read_bars,
};

#[test]
fn controller_port_map() {
    let c = AtaController::new(0x1F0);
    assert_eq!(c.data_port, 0x1F0);
    assert_eq!(c.error_port, 0x1F1);
    assert_eq!(c.sector_count_port, 0x1F2);
    assert_eq!(c.lba_low_port, 0x1F3);
    assert_eq!(c.lba_mid_port, 0x1F4);
    assert_eq!(c.lba_high_port, 0x1F5);
    assert_eq!(c.device_port, 0x1F6);
    assert_eq!(c.status_port, 0x1F7);
    assert_eq!(c.command_port, 0x1F7);
    assert_eq!(c.control_port, 0x1F0 + 0x206);
}

#[test]
fn read_plan_lba28_values() {
    let c = AtaController::new(0x1F0);
    let plan = c.read_sectors(AtaDevice::Master, 0x123456, 2, 1024).unwrap();
    assert_eq!(plan.select.port, 0x1F6);
    assert_eq!(plan.select.value, 0xA0);
    assert_eq!(plan.sectors, 2);
    assert!(!plan.flush_after);
    let vals: Vec<(u16, u8)> = plan.setup.iter().map(|w| (w.port, w.value)).collect();
    assert_eq!(
        vals,
        vec![
            (0x1F2, 2),
            (0x1F3, 0x56),
            (0x1F4, 0x34),
            (0x1F5, 0x12),
            (0x1F6, 0xE0),
            (0x1F7, ATA_CMD_READ_SECTORS),
        ]
    );
}

#[test]
fn read_plan_lba48_for_large_addresses() {
    let c = AtaController::new(0x1F0);
    let plan = c.read_sectors(AtaDevice::Slave, 0x1_0000_0000, 1, 512).unwrap();
    assert_eq!(plan.setup.len(), 10);
    assert_eq!(plan.setup[8].value, 0x40 | 0x10, "48-bit device select for the slave");
    assert_eq!(plan.setup[9].value, ATA_CMD_READ_SECTORS_EXT);
    assert_eq!(plan.setup[1].value, 0x00, "address bits 24..32");
    assert_eq!(plan.setup[2].value, 0x01, "address bits 32..40");
}

#[test]
fn read_plan_rejects_short_buffer() {
    let c = AtaController::new(0x1F0);
    assert_eq!(
        c.read_sectors(AtaDevice::Master, 0, 2, 1023).unwrap_err(),
        AtaError::BufferTooSmall
    );
}

#[test]
fn write_plan_and_sector_size_error() {
    let c = AtaController::new(0x170);
    assert_eq!(
        c.write_sectors(AtaDevice::Master, 0, 700).unwrap_err(),
        AtaError::InvalidSectorSize
    );
    let plan = c.write_sectors(AtaDevice::Master, 5, 512).unwrap();
    assert_eq!(plan.sectors, 1);
    assert!(plan.flush_after);
    assert_eq!(plan.setup[5].value, ATA_CMD_WRITE_SECTORS);
}

#[test]
fn controller_pair_dispatch() {
    let ctls = AtaControllers {
        primary: AtaController::new(0x1F0),
        secondary: AtaController::new(0x170),
    };
    let p = read_sectors(&ctls, true, AtaDevice::Master, 0, 1, 512).unwrap();
    assert_eq!(p.data_port, 0x1F0);
    let s = read_sectors(&ctls, false, AtaDevice::Master, 0, 1, 512).unwrap();
    assert_eq!(s.data_port, 0x170);
    let w = write_sectors(&ctls, false, AtaDevice::Slave, 0, 512).unwrap();
    assert_eq!(w.select.port, 0x176);
}

#[test]
fn wait_steps() {
    assert_eq!(wait_ready_step(0xFF, 0), WaitDecision::Fail(AtaError::DeviceNotFound));
    assert_eq!(wait_ready_step(0x01, 4), WaitDecision::Fail(AtaError::Error(4)));
    assert_eq!(wait_ready_step(0x20, 0), WaitDecision::Fail(AtaError::DeviceFault));
    assert_eq!(wait_ready_step(0x80, 0), WaitDecision::Retry);
    assert_eq!(wait_ready_step(0x40, 0), WaitDecision::Done);
    assert_eq!(wait_data_step(0x08, 0), WaitDecision::Done);
    assert_eq!(wait_data_step(0x80, 0), WaitDecision::Retry);
}

#[test]
fn words_and_bytes_round_trip() {
    let words = vec![0x3412u16, 0x7856, 0xBC9A];
    let bytes = words_to_bytes(&words);
    assert_eq!(bytes, vec![0x12, 0x34, 0x56, 0x78, 0x9A, 0xBC]);
    let back = bytes_to_words(&bytes);
    assert_eq!(back, words);
}

#[test]
fn identify_parses_lba48_drive() {
    let mut data = [0u16; 256];
    data[0] = 0x0040;
    data[49] = 1 << 9;
    data[83] = 1 << 10;
    data[100] = 0x1000;
    data[101] = 0x0002;
    // model "HELLO   " over two words plus padding
    data[27] = u16::from_be_bytes([b'H', b'E']);
    data[28] = u16::from_be_bytes([b'L', b'L']);
    data[29] = u16::from_be_bytes([b'O', b' ']);
    let info = DriveInfo::from_identify_data(&data);
    assert!(info.supports_lba48);
    assert_eq!(info.sectors, 0x1000 | (0x0002u64 << 16));
    assert_eq!(info.sector_size, 512);
    assert_eq!(info.model, b"HELLO".to_vec());
    assert_eq!(info.serial, b"".to_vec());
}

#[test]
fn identify_no_device() {
    let data = [0u16; 256];
    let info = DriveInfo::from_identify_data(&data);
    assert_eq!(info.model, b"No Device".to_vec());
    assert_eq!(info.sectors, 0);
    assert!(!info.supports_lba48);
}

#[test]
fn identify_chs_fallback() {
    let mut data = [0u16; 256];
    data[0] = 1;
    data[1] = 100;
    data[3] = 16;
    data[6] = 63;
    let info = DriveInfo::from_identify_data(&data);
    assert_eq!(info.sectors, 100 * 16 * 63);
    assert!(!info.supports_lba48);
}

#[test]
fn identify_records_capability_on_controller() {
    let mut ctls = AtaControllers {
        primary: AtaController::new(0x1F0),
        secondary: AtaController::new(0x170),
    };
    let mut data = [0u16; 256];
    data[0] = 1;
    data[49] = 1 << 9;
    data[83] = 1 << 10;
    data[100] = 2048;
    let info = identify_drive(&mut ctls, true, AtaDevice::Slave, &data);
    assert!(info.supports_lba48);
    assert!(ctls.primary.supports_lba48[1]);
    assert_eq!(ctls.primary.max_sectors[1], 2048);
    assert!(!ctls.secondary.supports_lba48[1], "the other channel is untouched");
    // a later read on that device now uses the 48-bit form even for low addresses
    let plan = ctls.primary.read_sectors(AtaDevice::Slave, 10, 1, 512).unwrap();
    assert_eq!(plan.setup.len(), 10);
}

#[test]
fn identify_setup_writes() {
    let c = AtaController::new(0x1F0);
    let ops = c.identify_setup(AtaDevice::Slave);
    assert_eq!(ops.len(), 7);
    assert_eq!(ops[0].port, 0x1F0 + 0x206);
    assert_eq!(ops[0].value, 0x02);
    assert_eq!(ops[5].value, 0xB0, "identify device select for the slave");
    assert_eq!(ops[6].value, ATA_CMD_IDENTIFY);
}

#[test]
fn capacity_formulas() {
    let info = DriveInfo {
        model: vec![],
        serial: vec![],
        firmware: vec![],
        sectors: 4096,
        supports_lba48: false,
        sector_size: 512,
    };
    assert_eq!(info.capacity_mb(), 2);
    assert_eq!(info.capacity_gb(), 0);
}

#[test]
fn mbr_signature() {
    let mut sector = vec![0u8; 512];
    assert!(!has_mbr_signature(&sector));
    sector[510] = 0x55;
    sector[511] = 0xAA;
    assert!(has_mbr_signature(&sector));
}

#[test]
fn cluster_fs_create_read_delete() {
    let mut fs = AtaFileSystem::new(true, AtaDevice::Slave, 100, 500, 10_000).unwrap();
    let name = "notes.txt".to_string();
    let data = vec![7u8; 5000];
    let writes = fs.create_file(&name, &data).unwrap();
    // 5000 bytes: two clusters, written at the region start plus cluster
    assert_eq!(writes.len(), 2);
    assert_eq!(writes[0].lba, 100 + 1 * 8);
    assert_eq!(writes[1].lba, 100 + 2 * 8);
    assert_eq!(writes[0].data.len(), 4096);
    assert_eq!(writes[1].data[0], 7);
    assert_eq!(writes[1].data[5000 - 4096], 0, "the tail of the last cluster is zero padding");
    assert_eq!(fs.fat[1], FatEntry::Next(2));
    assert_eq!(fs.fat[2], FatEntry::End);
    // duplicate names are refused
    assert_eq!(fs.create_file(&name, &data).unwrap_err(), AtaError::CommandFailed);
    // the read plan follows the chain
    let plan = fs.read_file(&name).unwrap();
    assert_eq!(plan.clusters, vec![1, 2]);
    assert_eq!(plan.lbas, vec![108, 116]);
    assert_eq!(plan.size, 5000);
    assert_eq!(plan.sectors_per_cluster, 8);
    // assembling the read-back buffers recovers the bytes
    let buffers = vec![writes[0].data.clone(), writes[1].data.clone()];
    let assembled = assemble_file(plan.size, &buffers);
    assert_eq!(assembled, data);
    // listing and deleting
    let listing = fs.list_files();
    assert_eq!(listing.len(), 1);
    assert_eq!(listing[0].0, name);
    assert_eq!(listing[0].1, 5000);
    assert!(!listing[0].2);
    fs.delete_file(&name).unwrap();
    assert_eq!(fs.delete_file(&name).unwrap_err(), AtaError::DeviceNotFound);
    assert_eq!(fs.fat[1], FatEntry::Free);
    assert_eq!(fs.fat[2], FatEntry::Free);
    assert!(fs.read_file(&name).is_err());
}

#[test]
fn cluster_fs_rejects_oversized_region() {
    match AtaFileSystem::new(true, AtaDevice::Slave, 100, 500, 300) {
        Err(e) => assert_eq!(e, AtaError::InvalidLba),
        Ok(_) => panic!("a region past the drive's end must be refused"),
    }
}

#[test]
fn cluster_fs_format_and_superblock() {
    let mut fs = AtaFileSystem::new(false, AtaDevice::Master, 64, 128, 1000).unwrap();
    let w = fs.format();
    assert_eq!(w.lba, 64);
    assert_eq!(w.data.len(), 512);
    assert_eq!(&w.data[0..6], b"ATA_FS");
    assert!(AtaFileSystem::check_superblock(&w.data));
    let blank = vec![0u8; 512];
    assert!(!AtaFileSystem::check_superblock(&blank));
}

#[test]
fn global_filesystem_policy() {
    assert_eq!(plan_global_filesystem(150).unwrap_err(), AtaError::InvalidLba);
    assert_eq!(plan_global_filesystem(800).unwrap(), (100, 400));
    assert_eq!(plan_global_filesystem(5000).unwrap(), (100, 500));
    let fs = init_global_filesystem(true, AtaDevice::Slave, 5000).unwrap();
    assert_eq!(fs.superblock.start_lba, 100);
    assert_eq!(fs.superblock.total_sectors, 500);
}

#[test]
fn global_filesystem_handles_unmounted_state() {
    let mut none_fs: Option<AtaFileSystem> = None;
    let name = "x".to_string();
    match fs_create_file(&mut none_fs, &name, b"hi") {
        Err(e) => assert_eq!(e, AtaError::DeviceNotFound),
        Ok(_) => panic!("nothing is mounted"),
    }
    match fs_read_file(&none_fs, &name) {
        Err(e) => assert_eq!(e, AtaError::DeviceNotFound),
        Ok(_) => panic!("nothing is mounted"),
    }
    assert_eq!(fs_delete_file(&mut none_fs, &name).unwrap_err(), AtaError::DeviceNotFound);
    assert!(fs_list_files(&none_fs).is_err());
    let mut mounted = Some(init_global_filesystem(true, AtaDevice::Slave, 5000).unwrap());
    fs_create_file(&mut mounted, &name, b"hi").unwrap();
    assert_eq!(fs_list_files(&mounted).unwrap().len(), 1);
    fs_delete_file(&mut mounted, &name).unwrap();
    assert_eq!(fs_list_files(&mounted).unwrap().len(), 0);
}

#[test]
fn ram_disk_round_trip() {
    let mut fs = RamDiskFs::new();
    let name = "big.bin".to_string();
    let data = vec![69u8; 5000];
    fs.create_file(&name, &data);
    let back = fs.read_file(&name).expect("the file just written is there");
    assert_eq!(back, data);
    assert_eq!(fs.read_file(&"missing".to_string()), None);
}

#[test]
fn ram_disk_overwrite_and_second_file() {
    let mut fs = RamDiskFs::new();
    let a = "a".to_string();
    let b = "b".to_string();
    fs.create_file(&a, b"first");
    fs.create_file(&b, &[9u8; 4096]);
    fs.create_file(&a, b"second version");
    assert_eq!(fs.read_file(&a).unwrap(), b"second version".to_vec());
    assert_eq!(fs.read_file(&b).unwrap(), vec![9u8; 4096]);
}

#[test]
fn sector_fs_create_read_delete() {
    let mut fs = AtaFilesystem::new(0);
    let name = "test.txt".to_string();
    let data = b"Hello, filesystem! This is a test file.".to_vec();
    let writes = fs.create_file(&name, &data).unwrap();
    assert_eq!(writes.len(), 2, "one data sector plus the metadata sector");
    assert_eq!(writes[0].lba, 100);
    assert_eq!(writes[0].data.len(), 512);
    assert_eq!(&writes[0].data[..data.len()], &data[..]);
    assert_eq!(writes[0].data[data.len()], 0);
    assert_eq!(writes[1].lba, 1);
    assert_eq!(&writes[1].data[0..8], b"SOS_FS01");
    assert_eq!(writes[1].data[8], 101, "the advanced allocation mark, little-endian");
    let (start, count, size) = fs.read_file(&name).unwrap();
    assert_eq!((start, count, size), (100, 1, data.len()));
    let assembled = assemble_file(size, &vec![writes[0].data.clone()]);
    assert_eq!(assembled, data);
    let listing = fs.list_files();
    assert_eq!(listing, vec![(name.clone(), data.len() as u32)]);
    let meta = fs.delete_file(&name).unwrap();
    assert_eq!(meta.lba, 1);
    assert_eq!(fs.read_file(&name).unwrap_err(), AtaError::DeviceNotFound);
}

#[test]
fn sector_fs_metadata_probe() {
    let fs = AtaFilesystem::new(3);
    let w = fs.save_metadata();
    assert!(AtaFilesystem::load_metadata(&w.data));
    let empty = vec![0u8; 512];
    assert!(!AtaFilesystem::load_metadata(&empty));
}

#[test]
fn pci_address_encoding() {
    let addr = pci_config_address(1, 2, 3, 0x11);
    assert_eq!(addr, (1 << 31) | (1 << 16) | (2 << 11) | (3 << 8) | 0x10);
}

#[test]
fn pci_bar_sizes() {
    assert_eq!(calculate_bar_size(0), 0);
    assert_eq!(calculate_bar_size(0xFFFF_F000), 0x1000);
    assert_eq!(calculate_bar_size_64(0xFFFF_FFFF_FFF0_0000), 0x10_0000);
}

#[test]
fn pci_bar_decoding() {
    // slot 0: 32-bit memory, slot 1: I/O, slot 2/3: one 64-bit pair,
    // slot 4: empty, slot 5: empty probe mask
    let values = [0xFEB0_0008u32, 0x0000_C001, 0xFE00_000C, 0x0000_0001, 0, 0x1234_0000];
    let masks = [0xFFFF_F000u32, 0xFFFF_FFE1, 0xFFF0_000C, 0xFFFF_FFFF, 0xFFFF_FFFF, 0];
    let bars = read_bars(&values, &masks);
    assert_eq!(bars.len(), 6);
    assert_eq!(bars[0].bar_type, PciBarType::Memory32);
    assert_eq!(bars[0].address, 0xFEB0_0000);
    assert_eq!(bars[0].size, 0x1000);
    assert!(bars[0].prefetchable);
    assert_eq!(bars[1].bar_type, PciBarType::Io);
    assert_eq!(bars[1].address, 0xC000);
    assert_eq!(bars[2].bar_type, PciBarType::Memory64);
    assert_eq!(bars[2].address, 0x0000_0001_FE00_0000);
    assert!(bars[2].prefetchable);
    assert_eq!(bars[3].bar_type, PciBarType::Unused, "the high half is consumed by the pair");
    assert_eq!(bars[4].bar_type, PciBarType::Unused);
    assert_eq!(bars[5].bar_type, PciBarType::Unused);
}

#[test]
fn pci_device_parsing() {
    let values = [0u32; 6];
    let masks = [0u32; 6];
    assert!(
        PciDevice::from_location(0, 1, 0, 0xFFFF_FFFF, 0, 0, 0, &values, &masks).is_none(),
        "all ones means no function"
    );
    let dev = PciDevice::from_location(
        0,
        2,
        0,
        0x1050_1AF4,
        0x0010_0007,
        0x0300_0000,
        0x0000_0000,
        &values,
        &masks,
    )
    .unwrap();
    assert_eq!(dev.vendor_id, 0x1AF4);
    assert_eq!(dev.device_id, 0x1050);
    assert_eq!(dev.class_code, 0x03);
    assert_eq!(dev.command, 0x0007);
    assert_eq!(dev.status, 0x0010);
    assert!(is_virtio_gpu(dev.vendor_id, dev.device_id));
    assert!(!is_virtio_gpu(0x8086, 0x1050));
    assert!(dev.get_bar(0).is_none());
    assert_eq!(PciDevice::enable_command_value(0x0400), 0x0407);
}

#[test]
fn pci_get_bar_finds_decoded_slot() {
    let values = [0x0000_C001u32, 0, 0, 0, 0, 0];
    let masks = [0xFFFF_FFE1u32, 0, 0, 0, 0, 0];
    let dev =
        PciDevice::from_location(0, 0, 0, 0x0001_0001, 0, 0, 0, &values, &masks).unwrap();
    let bar = dev.get_bar(0).expect("slot zero decoded");
    assert_eq!(bar.bar_type, PciBarType::Io);
    assert!(dev.get_bar(1).is_none());
    assert!(dev.get_bar(9).is_none());
    let default_bar = PciBar::default();
    assert_eq!(default_bar.size, 0);
}

#[test]
fn assemble_clips_to_size() {
    let buffers = vec![vec![1u8; 4], vec![2u8; 4]];
    assert_eq!(assemble_file(6, &buffers), vec![1, 1, 1, 1, 2, 2]);
    assert_eq!(assemble_file(20, &buffers), vec![1, 1, 1, 1, 2, 2, 2, 2]);
    assert_eq!(assemble_file(0, &buffers), Vec::<u8>::new());
}

#[test]
fn cluster_fs_empty_file() {
    let mut fs = AtaFileSystem::new(true, AtaDevice::Slave, 100, 500, 10_000).unwrap();
    let name = "empty".to_string();
    let writes = fs.create_file(&name, &[]).unwrap();
    assert_eq!(writes.len(), 0, "no data, no cluster writes");
    let plan = fs.read_file(&name).unwrap();
    assert_eq!(plan.size, 0);
    assert_eq!(plan.clusters.len(), 1, "even an empty file's first cluster is visited once");
    let buffers = vec![vec![0u8; 4096]];
    assert_eq!(assemble_file(plan.size, &buffers), Vec::<u8>::new());
}

#[test]
fn cluster_fs_lists_sorted_by_name() {
    let mut fs = AtaFileSystem::new(true, AtaDevice::Slave, 100, 500, 10_000).unwrap();
    fs.create_file(&"b".to_string(), b"2").unwrap();
    fs.create_file(&"a".to_string(), b"1").unwrap();
    fs.create_file(&"c".to_string(), b"3").unwrap();
    let names: Vec<String> = fs.list_files().into_iter().map(|(n, _, _)| n).collect();
    assert_eq!(names, vec!["a", "b", "c"], "the listing is sorted ascending by name");
    fs.delete_file(&"b".to_string()).unwrap();
    let names: Vec<String> = fs.list_files().into_iter().map(|(n, _, _)| n).collect();
    assert_eq!(names, vec!["a", "c"], "deletion keeps the order");
}

#[test]
fn sector_fs_lists_sorted_by_name() {
    let mut fs = AtaFilesystem::new(0);
    fs.create_file(&"bb".to_string(), b"2").unwrap();
    fs.create_file(&"aa".to_string(), b"1").unwrap();
    let names: Vec<String> = fs.list_files().into_iter().map(|(n, _)| n).collect();
    assert_eq!(names, vec!["aa", "bb"]);
    // replacing a file keeps its place
    fs.create_file(&"aa".to_string(), b"111").unwrap();
    let listing = fs.list_files();
    assert_eq!(listing[0].0, "aa");
    assert_eq!(listing[0].1, 3);
    assert_eq!(listing[1].0, "bb");
}

#[test]
fn cluster_fs_delete_frees_exactly_the_chain() {
    let mut fs = AtaFileSystem::new(true, AtaDevice::Slave, 100, 500, 10_000).unwrap();
    fs.create_file(&"keep".to_string(), &vec![1u8; 5000]).unwrap();
    fs.create_file(&"drop".to_string(), &vec![2u8; 9000]).unwrap();
    // keep: clusters 1,2 — drop: clusters 3,4,5
    fs.delete_file(&"drop".to_string()).unwrap();
    assert_eq!(fs.fat[1], FatEntry::Next(2), "the other file's chain is untouched");
    assert_eq!(fs.fat[2], FatEntry::End);
    assert_eq!(fs.fat[3], FatEntry::Free);
    assert_eq!(fs.fat[4], FatEntry::Free);
    assert_eq!(fs.fat[5], FatEntry::Free);
    let plan = fs.read_file(&"keep".to_string()).unwrap();
    assert_eq!(plan.clusters, vec![1, 2]);
}

use alfatch_vmc::{
    bytes_to_string, count_unique_games, decode_entry, fat_flag, fat_next, is_dot_entry_name, le_u16, le_u32,
    load_fat, parse_fs_entry_from_bytes, FSEntry, FatTable, Vmc, VmcError, VmcSuperblock,
    INVALID_CLUSTER_PTR,
};

const MAGIC: &[u8] = b"Sony PS2 Memory Card Format ";
const CS: usize = 1024;
const ALLOC: usize = 8;

fn put_u32(buf: &mut [u8], off: usize, v: u32) {
    buf[off..off + 4].copy_from_slice(&v.to_le_bytes());
}

fn put_u16(buf: &mut [u8], off: usize, v: u16) {
    buf[off..off + 2].copy_from_slice(&v.to_le_bytes());
}

fn blank_card(len: usize) -> Vec<u8> {
    let mut img = vec![0u8; len];
    img[..28].copy_from_slice(MAGIC);
    img
}

fn record(name: &str, mode: u16, length: u32, cluster: u32) -> Vec<u8> {
    let mut r = vec![0u8; 512];
    put_u16(&mut r, 0, mode);
    put_u32(&mut r, 4, length);
    r[8..16].copy_from_slice(&[0x00, 14, 10, 3, 17, 8, 0xE9, 0x07]);
    put_u32(&mut r, 16, cluster);
    r[24..32].copy_from_slice(&[0x00, 30, 45, 12, 1, 2, 0xEA, 0x07]);
    r[64..64 + name.len()].copy_from_slice(name.as_bytes());
    r
}

fn data_cluster(c: usize) -> usize {
    (ALLOC + c) * CS
}

fn file_byte(i: usize) -> u8 {
    (i % 251) as u8
}

// A card with 1024-byte clusters, data area at cluster 8, one IFC at cluster 2
// naming one FAT cluster at cluster 3. Root directory: clusters 0 -> 1, header
// declares 3 records. Save directory at cluster 2, file of 1500 bytes on 3 -> 4.
fn sample_card() -> Vec<u8> {
    let mut img = blank_card(data_cluster(5));
    put_u16(&mut img, 0x28, 512);
    put_u16(&mut img, 0x2A, 2);
    put_u32(&mut img, 0x34, ALLOC as u32);
    put_u32(&mut img, 0x3C, 0);
    put_u32(&mut img, 0x50, 2);
    put_u32(&mut img, 0x154, CS as u32);
    put_u32(&mut img, 0x170, 8000);
    img[0x1C..0x1C + 7].copy_from_slice(b"1.2.0.0");
    // IFC cluster 2: FAT cluster 3, then end of list.
    put_u32(&mut img, 2 * CS, 3);
    put_u32(&mut img, 2 * CS + 4, INVALID_CLUSTER_PTR);
    // FAT cluster 3.
    for i in 0..CS / 4 {
        put_u32(&mut img, 3 * CS + 4 * i, 0x7FFF_FFFF);
    }
    put_u32(&mut img, 3 * CS, 0x8000_0001);
    put_u32(&mut img, 3 * CS + 4, 0xFFFF_FFFF);
    put_u32(&mut img, 3 * CS + 8, 0xFFFF_FFFF);
    put_u32(&mut img, 3 * CS + 12, 0x8000_0004);
    put_u32(&mut img, 3 * CS + 16, 0xFFFF_FFFF);
    // Root directory.
    let root = data_cluster(0);
    img[root..root + 512].copy_from_slice(&record(".", 0x8427, 3, 0));
    img[root + 512..root + 1024].copy_from_slice(&record("..", 0x8427, 0, 0));
    let root2 = data_cluster(1);
    img[root2..root2 + 512].copy_from_slice(&record("BESLES-55673SAVEDATA", 0x8427, 3, 2));
    img[root2 + 512..root2 + 1024].copy_from_slice(&record("HIDDEN", 0x8427, 0, 2));
    // Save directory.
    let save = data_cluster(2);
    img[save..save + 512].copy_from_slice(&record(".", 0x8427, 0, 0));
    img[save + 512..save + 1024].copy_from_slice(&record("DATA.BIN", 0x8407, 1500, 3));
    // File contents.
    for i in 0..CS {
        img[data_cluster(3) + i] = file_byte(i);
        img[data_cluster(4) + i] = file_byte(CS + i);
    }
    img
}

#[test]
fn valid_magic_only_card() {
    let vmc = Vmc::new(blank_card(4096)).unwrap();
    assert_eq!(vmc.count_free_clusters(), 0);
    assert_eq!(vmc.list_root_directory().unwrap_err(), VmcError::InvalidFormat);
}

#[test]
fn invalid_magic_is_rejected() {
    let mut img = vec![0u8; 4096];
    let text = b"Invalid PS2 memory card format...";
    img[..text.len()].copy_from_slice(text);
    assert_eq!(Vmc::new(img).err(), Some(VmcError::InvalidFormat));
}

#[test]
fn short_image_is_a_short_read() {
    let img = blank_card(300);
    assert_eq!(Vmc::new(img).err(), Some(VmcError::Io));
}

#[test]
fn superblock_fields_decode() {
    let img = sample_card();
    let sb = VmcSuperblock::from_bytes(&img).unwrap();
    assert_eq!(sb.magic, "Sony PS2 Memory Card Format ");
    assert_eq!(sb.version, "1.2.0.0");
    assert_eq!(sb.page_size, 512);
    assert_eq!(sb.pages_per_cluster, 2);
    assert_eq!(sb.cluster_size, 1024);
    assert_eq!(sb.clusters_per_card, 65536);
    assert_eq!(sb.alloc_offset, 8);
    assert_eq!(sb.rootdir_cluster, 0);
    assert_eq!(sb.max_allocatable_clusters, 8000);
    assert_eq!(sb.ifc_ptr_list[0], 2);
    assert_eq!(sb.ifc_ptr_list[1], 0);
}

#[test]
fn negative_page_size_decodes() {
    let mut img = sample_card();
    put_u16(&mut img, 0x28, 0xFFFE);
    let sb = VmcSuperblock::from_bytes(&img).unwrap();
    assert_eq!(sb.page_size, -2);
}

#[test]
fn fat_is_loaded_through_the_indirect_cluster() {
    let img = sample_card();
    let sb = VmcSuperblock::from_bytes(&img).unwrap();
    let fat = load_fat(&img, &sb).unwrap();
    assert_eq!(fat.fat.len(), 256);
    assert_eq!(fat.fat[0], 0x8000_0001);
    assert_eq!(fat.fat[3], 0x8000_0004);
    assert_eq!(fat.fat[255], 0x7FFF_FFFF);
}

#[test]
fn fat_cluster_beyond_image_is_a_short_read() {
    let mut img = sample_card();
    put_u32(&mut img, 2 * CS, 500);
    assert_eq!(Vmc::new(img).err(), Some(VmcError::Io));
}

#[test]
fn free_clusters_are_counted() {
    let vmc = Vmc::new(sample_card()).unwrap();
    assert_eq!(vmc.count_free_clusters(), 251);
    let table = FatTable {
        fat: vec![0x7FFF_FFFF, 0x8000_0002, 0x8000_0003, 0x7FFF_FFFF, 0xFFFF_FFFF],
    };
    assert_eq!(table.count_free(), 2);
}

#[test]
fn fat_entries_decode() {
    assert_eq!(fat_flag(0x8000_0001), 0x80);
    assert_eq!(fat_next(0x8000_0001), 1);
    assert_eq!(fat_flag(0x7FFF_FFFF), 0x7F);
    assert_eq!(fat_next(0x7FFF_FFFF), 0xFF_FFFF);
    assert_eq!(fat_flag(0xFFFF_FFFF), 0xFF);
    assert_eq!(fat_next(0xFFFF_FFFF), 0xFF_FFFF);
}

#[test]
fn chain_with_cycle_stops() {
    let table = FatTable {
        fat: vec![0x8000_0001, 0x8000_0000],
    };
    assert_eq!(table.build_cluster_chain(0), vec![0, 1]);
}

#[test]
fn chain_ends_at_last_flag_and_beyond_table() {
    let table = FatTable {
        fat: vec![0x7FFF_FFFF, 0x8000_0002, 0x8000_0003, 0xFFFF_FFFF],
    };
    assert_eq!(table.build_cluster_chain(1), vec![1, 2, 3]);
    assert_eq!(table.build_cluster_chain(9), vec![9]);
    assert_eq!(table.build_cluster_chain(INVALID_CLUSTER_PTR), Vec::<u32>::new());
    let out = FatTable {
        fat: vec![0x8000_0007],
    };
    assert_eq!(out.build_cluster_chain(0), vec![0, 7]);
}

#[test]
fn address_law() {
    let vmc = Vmc::new(sample_card()).unwrap();
    assert_eq!(vmc.data_cluster_offset(3), 11 * 1024);
    assert_eq!(vmc.data_cluster_offset(0), 8 * 1024);
}

#[test]
fn root_listing_respects_declared_count() {
    let vmc = Vmc::new(sample_card()).unwrap();
    let entries = vmc.list_root_directory().unwrap();
    let names: Vec<&str> = entries.iter().map(|e| e.name.as_str()).collect();
    assert_eq!(names, vec![".", "..", "BESLES-55673SAVEDATA"]);
    let save = &entries[2];
    assert!(save.is_directory);
    assert_eq!(save.cluster, 2);
    assert_eq!(save.length, 3);
    assert_eq!(
        (
            save.created_year,
            save.created_month,
            save.created_day,
            save.created_hour,
            save.created_min,
            save.created_sec
        ),
        (2025, 8, 17, 3, 10, 14)
    );
    assert_eq!(
        (
            save.modified_year,
            save.modified_month,
            save.modified_day,
            save.modified_hour,
            save.modified_min,
            save.modified_sec
        ),
        (2026, 2, 1, 12, 45, 30)
    );
}

#[test]
fn root_listing_stops_at_cluster_beyond_image() {
    let mut img = sample_card();
    let root = data_cluster(0);
    put_u32(&mut img, root + 4, 10);
    // Root chain 0 -> 300: cluster 300 lies far beyond the image.
    put_u32(&mut img, 3 * CS, 0x8000_012C);
    let vmc = Vmc::new(img).unwrap();
    let entries = vmc.list_root_directory().unwrap();
    assert_eq!(entries.len(), 2);
}

#[test]
fn root_listing_of_cut_cluster_is_a_short_read() {
    let mut img = sample_card();
    img.truncate(data_cluster(1) + 100);
    let vmc = Vmc::new(img).unwrap();
    assert_eq!(vmc.list_root_directory().unwrap_err(), VmcError::Io);
}

#[test]
fn save_directories_skip_dot_entries() {
    let vmc = Vmc::new(sample_card()).unwrap();
    let saves = vmc.save_directories().unwrap();
    assert_eq!(saves.len(), 1);
    assert_eq!(saves[0].name, "BESLES-55673SAVEDATA");
}

#[test]
fn directory_files_keep_only_files() {
    let vmc = Vmc::new(sample_card()).unwrap();
    let files = vmc.directory_files(2).unwrap();
    assert_eq!(files.len(), 1);
    assert_eq!(files[0].name, "DATA.BIN");
    assert_eq!(files[0].length, 1500);
    assert!(!files[0].is_directory);
}

#[test]
fn file_extraction_reads_along_chain() {
    let vmc = Vmc::new(sample_card()).unwrap();
    let data = vmc.extract_file_data(3, 1500).unwrap();
    assert_eq!(data.len(), 1500);
    for (i, b) in data.iter().enumerate() {
        assert_eq!(*b, file_byte(i));
    }
    assert_eq!(vmc.extract_file_data(0, 1500).unwrap(), Vec::<u8>::new());
    assert_eq!(
        vmc.extract_file_data(INVALID_CLUSTER_PTR, 10).unwrap(),
        Vec::<u8>::new()
    );
    let short = vmc.extract_file_data(3, 10).unwrap();
    assert_eq!(short, (0..10).map(file_byte).collect::<Vec<u8>>());
}

#[test]
fn file_extraction_stops_where_chain_leaves_image() {
    let mut img = sample_card();
    put_u32(&mut img, 3 * CS + 12, 0x8000_012C);
    let vmc = Vmc::new(img).unwrap();
    let data = vmc.extract_file_data(3, 1500).unwrap();
    assert_eq!(data.len(), 1024);
}

#[test]
fn directory_entry_decoding() {
    let rec = record("TEST_SAVE", 0x8407, 1024, 100);
    let raw = parse_fs_entry_from_bytes(&rec).unwrap();
    assert_eq!(raw.mode, 0x8407);
    assert_eq!(raw.length, 1024);
    assert_eq!(raw.cluster, 100);
    assert_eq!(raw.created_sec, 14);
    assert_eq!(raw.created_month, 8);
    assert_eq!(raw.created_year, 2025);
    let e = FSEntry::from_raw(&raw).unwrap();
    assert_eq!(e.name, "TEST_SAVE");
    assert!(!e.is_directory);
    assert!(parse_fs_entry_from_bytes(&rec[..511]).is_none());
    let gone = record("GONE", 0x0407, 0, 0);
    assert!(decode_entry(&gone).is_none());
    let nameless = record("", 0x8407, 0, 0);
    assert!(decode_entry(&nameless).is_none());
    let dir_bit = record("D", 0x8010, 0, 0);
    assert!(decode_entry(&dir_bit).unwrap().is_directory);
}

#[test]
fn game_id_and_description_of_entry() {
    let rec = record("SLUS_123.45DATA", 0x8427, 0, 0);
    let e = decode_entry(&rec).unwrap();
    assert_eq!(e.get_game_id(), "SLUS");
    assert_eq!(e.get_save_description(), "_123.45DATA");
    let plain = decode_entry(&record("BASLUS-21050DAT0", 0x8427, 0, 0)).unwrap();
    assert_eq!(plain.get_game_id(), "BASLUS-21050DAT0");
    assert_eq!(plain.get_save_description(), "");
}

#[test]
fn byte_helpers() {
    let b = [0x34u8, 0x12, 0x78, 0x56, 0x00];
    assert_eq!(le_u16(&b, 0), 0x1234);
    assert_eq!(le_u32(&b, 0), 0x5678_1234);
    assert_eq!(bytes_to_string(b"ab\0cd"), Some("ab".to_string()));
    assert_eq!(bytes_to_string(&[0xFF, 0x41]), None);
    assert!(is_dot_entry_name(&".".to_string()));
    assert!(is_dot_entry_name(&"..".to_string()));
    assert!(!is_dot_entry_name(&"...".to_string()));
}

#[test]
fn unique_games_are_counted_once() {
    let names = [".", "..", "BESLES-55673SAVEDATA", "besles-556732014OPT", "BASLUS-21050DAT0", "BESLES-55673"];
    let entries: Vec<FSEntry> = names
        .iter()
        .map(|n| decode_entry(&record(n, 0x8427, 0, 0)).unwrap())
        .collect();
    assert_eq!(count_unique_games(&entries), 2);
    assert_eq!(count_unique_games(&entries[..2].to_vec()), 0);
}

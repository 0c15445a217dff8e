use alfatch_vmc::has_vmc_magic;
use std::io::{Read, Write};
use tempfile::NamedTempFile;

fn first_bytes(file: &NamedTempFile, n: usize) -> Vec<u8> {
    let mut buf = Vec::new();
    file.reopen().unwrap().read_to_end(&mut buf).unwrap();
    buf.truncate(n);
    buf
}

#[test]
fn test_valid_vmc() {
    let mut temp_file = NamedTempFile::new().unwrap();

    let valid_header = "Sony PS2 Memory Card Format       ";
    temp_file.write_all(valid_header.as_bytes()).unwrap();

    let header = first_bytes(&temp_file, 28);
    assert_eq!(header.len(), 28);
    assert!(has_vmc_magic(&header));
}

#[test]
fn test_invalid_vmc() {
    let mut temp_file = NamedTempFile::new().unwrap();

    let invalid_header = "Invalid PS2 memory card format...";
    temp_file.write_all(invalid_header.as_bytes()).unwrap();

    let header = first_bytes(&temp_file, 28);
    assert_eq!(header.len(), 28);
    assert!(!has_vmc_magic(&header));
}

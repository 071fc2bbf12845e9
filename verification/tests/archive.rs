use std::io::Read;
use zonecfg_backup::archive::{
    compressed, finished, snapshot_zone_configs, ArchiveError, ENTRY_SUFFIX,
};
use zonecfg_backup::zones::{zone_records, Extraction, ZoneRecord};

fn record(identifier: &str, config: &[u8]) -> ZoneRecord {
    ZoneRecord { identifier: identifier.to_string(), config_bytes: config.to_vec() }
}

fn tar_of(snapshot: &[u8]) -> Vec<u8> {
    zstd::stream::decode_all(snapshot).unwrap()
}

fn entries_of(tar_bytes: &[u8]) -> Vec<(String, u64, Vec<u8>)> {
    let mut archive = tar::Archive::new(tar_bytes);
    let mut found = Vec::new();
    for entry in archive.entries().unwrap() {
        let mut entry = entry.unwrap();
        let path = entry.path().unwrap().to_str().unwrap().to_string();
        let size = entry.header().size().unwrap();
        let mut body = Vec::new();
        entry.read_to_end(&mut body).unwrap();
        found.push((path, size, body));
    }
    found
}

fn octal(field: &[u8]) -> u64 {
    let mut value: u64 = 0;
    for byte in field {
        if *byte == 0 || *byte == b' ' {
            break;
        }
        value = value * 8 + (*byte - b'0') as u64;
    }
    value
}

#[test]
fn entry_suffix_is_the_documented_one() {
    assert_eq!(ENTRY_SUFFIX, ".zone");
}

#[test]
fn snapshot_is_a_zstd_frame() {
    let snapshot = snapshot_zone_configs(&vec![record("web", b"config")], 10).unwrap();
    assert_eq!(&snapshot[..4], &[0x28, 0xb5, 0x2f, 0xfd]);
}

#[test]
fn snapshot_holds_one_entry_per_record() {
    let records = vec![record("web", b"web config\n"), record("db", b"db config\n")];
    let snapshot = snapshot_zone_configs(&records, 10).unwrap();
    let entries = entries_of(&tar_of(&snapshot));
    assert_eq!(
        entries,
        vec![
            ("web.zone".to_string(), 11, b"web config\n".to_vec()),
            ("db.zone".to_string(), 10, b"db config\n".to_vec()),
        ]
    );
}

#[test]
fn snapshot_of_no_record_is_an_empty_archive() {
    let snapshot = snapshot_zone_configs(&Vec::new(), 10).unwrap();
    let tar_bytes = tar_of(&snapshot);
    assert_eq!(tar_bytes, vec![0u8; 1024]);
    assert!(entries_of(&tar_bytes).is_empty());
}

#[test]
fn archive_is_laid_out_in_blocks_and_ends_with_two_of_zeros() {
    let snapshot = snapshot_zone_configs(&vec![record("web", b"12345")], 3).unwrap();
    let tar_bytes = tar_of(&snapshot);
    assert_eq!(tar_bytes.len(), 512 + 512 + 1024);
    assert_eq!(&tar_bytes[512..517], b"12345");
    assert!(tar_bytes[517..1024].iter().all(|byte| *byte == 0));
    assert!(tar_bytes[1024..].iter().all(|byte| *byte == 0));
}

#[test]
fn header_is_a_gnu_header_with_size_and_checksum() {
    let snapshot = snapshot_zone_configs(&vec![record("web", b"0123456789")], 10).unwrap();
    let tar_bytes = tar_of(&snapshot);
    let header = &tar_bytes[..512];
    assert_eq!(&header[..8], b"web.zone");
    assert!(header[8..100].iter().all(|byte| *byte == 0));
    assert!(header[100..124].iter().all(|byte| *byte == 0));
    assert_eq!(&header[124..136], b"00000000012\0");
    assert_eq!(&header[136..148], b"00000000000\0");
    assert_eq!(header[156], 0);
    assert!(header[157..257].iter().all(|byte| *byte == 0));
    assert_eq!(&header[257..265], b"ustar  \0");
    assert!(header[265..].iter().all(|byte| *byte == 0));
    let mut sum: u64 = 0;
    for (at, byte) in header.iter().enumerate() {
        sum += if (148..156).contains(&at) { 32 } else { *byte as u64 };
    }
    assert_eq!(octal(&header[148..156]), sum);
}

#[test]
fn declared_size_is_the_length_of_the_configuration() {
    for length in [0usize, 1, 511, 512, 513, 5000] {
        let config = vec![b'x'; length];
        let snapshot = snapshot_zone_configs(&vec![record("z", &config)], 1).unwrap();
        let tar_bytes = tar_of(&snapshot);
        assert_eq!(octal(&tar_bytes[124..136]), length as u64);
        let entries = entries_of(&tar_bytes);
        assert_eq!(entries, vec![("z.zone".to_string(), length as u64, config)]);
    }
}

#[test]
fn configuration_is_kept_byte_for_byte() {
    let config: Vec<u8> = (0..=255u8).collect();
    let snapshot = snapshot_zone_configs(&vec![record("bin", &config)], 10).unwrap();
    let entries = entries_of(&tar_of(&snapshot));
    assert_eq!(entries[0].2, config);
}

#[test]
fn same_records_give_the_same_snapshot() {
    let records = vec![record("web", b"web config\n"), record("db", b"db config\n")];
    let first = snapshot_zone_configs(&records, 10).unwrap();
    let second = snapshot_zone_configs(&records, 10).unwrap();
    assert_eq!(first, second);
}

#[test]
fn changed_configuration_gives_another_snapshot() {
    let first = snapshot_zone_configs(&vec![record("web", b"web config\n")], 10).unwrap();
    let second = snapshot_zone_configs(&vec![record("web", b"web config!\n")], 10).unwrap();
    assert_ne!(first, second);
}

#[test]
fn order_of_records_is_the_order_of_entries() {
    let forward = vec![record("a", b"1"), record("b", b"2")];
    let backward = vec![record("b", b"2"), record("a", b"1")];
    let first = entries_of(&tar_of(&snapshot_zone_configs(&forward, 10).unwrap()));
    let second = entries_of(&tar_of(&snapshot_zone_configs(&backward, 10).unwrap()));
    assert_eq!(first[0].0, "a.zone");
    assert_eq!(second[0].0, "b.zone");
}

#[test]
fn every_level_in_range_gives_a_snapshot_of_the_same_archive() {
    let records = vec![record("web", &vec![b'c'; 3000])];
    let reference = tar_of(&snapshot_zone_configs(&records, 1).unwrap());
    for level in 1..=21 {
        let snapshot = snapshot_zone_configs(&records, level).unwrap();
        assert_eq!(tar_of(&snapshot), reference);
    }
}

#[test]
fn snapshot_is_what_zstd_makes_of_the_archive() {
    let records = vec![record("web", b"web config\n")];
    let snapshot = snapshot_zone_configs(&records, 7).unwrap();
    let tar_bytes = tar_of(&snapshot);
    assert_eq!(snapshot, zstd::stream::encode_all(&tar_bytes[..], 7).unwrap());
}

#[test]
fn long_identifier_is_kept_whole() {
    let identifier = "z".repeat(150);
    let snapshot = snapshot_zone_configs(&vec![record(&identifier, b"c")], 10).unwrap();
    let entries = entries_of(&tar_of(&snapshot));
    assert_eq!(entries.len(), 1);
    assert_eq!(entries[0].0, format!("{}.zone", identifier));
    assert_eq!(entries[0].2, b"c".to_vec());
}

#[test]
fn refused_entry_ends_the_build() {
    let records = vec![record("web", b"1"), record("/rooted", b"2"), record("db", b"3")];
    match snapshot_zone_configs(&records, 10) {
        Err(ArchiveError::EntryRefused { index, .. }) => assert_eq!(index, 1),
        other => panic!("unexpected result: {:?}", other.map(|bytes| bytes.len())),
    }
}

#[test]
fn identifier_that_climbs_out_is_refused() {
    match snapshot_zone_configs(&vec![record("../up", b"1")], 10) {
        Err(ArchiveError::EntryRefused { index, .. }) => assert_eq!(index, 0),
        other => panic!("unexpected result: {:?}", other.map(|bytes| bytes.len())),
    }
}

#[test]
fn closed_archive_is_handed_on() {
    assert_eq!(finished(Ok(vec![1, 2, 3])).unwrap(), vec![1, 2, 3]);
    assert_eq!(compressed(Ok(vec![4, 5])).unwrap(), vec![4, 5]);
}

#[test]
fn failure_to_close_is_reported_as_such() {
    let cause = std::io::Error::new(std::io::ErrorKind::Other, "disk");
    match finished(Err(cause)) {
        Err(ArchiveError::Finish(cause)) => assert_eq!(cause.to_string(), "disk"),
        _ => panic!("expected a failure to close"),
    }
}

#[test]
fn failure_to_compress_is_reported_as_such() {
    let cause = std::io::Error::new(std::io::ErrorKind::Other, "codec");
    match compressed(Err(cause)) {
        Err(ArchiveError::Compress(cause)) => assert_eq!(cause.to_string(), "codec"),
        _ => panic!("expected a failure to compress"),
    }
}

#[test]
fn missing_zone_is_left_out_of_the_snapshot() {
    let sorted = zone_records(&vec![
        Extraction { zone: "web".to_string(), succeeded: true, output: b"web".to_vec() },
        Extraction { zone: "gone".to_string(), succeeded: false, output: Vec::new() },
        Extraction { zone: "db".to_string(), succeeded: true, output: b"db".to_vec() },
    ]);
    let snapshot = snapshot_zone_configs(&sorted.records, 10).unwrap();
    let entries = entries_of(&tar_of(&snapshot));
    assert_eq!(entries.len(), 2);
    assert_eq!(entries[0], ("web.zone".to_string(), 3, b"web".to_vec()));
    assert_eq!(entries[1], ("db.zone".to_string(), 2, b"db".to_vec()));
}

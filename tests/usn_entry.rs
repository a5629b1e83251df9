use usn_journal_rs::filter::should_skip_entry;
use usn_journal_rs::usn_entry::{DecodeError, UsnEntry, HEADER_LEN};
use usn_journal_rs::utils::UnixTime;

fn w(s: &str) -> Vec<u16> {
    s.encode_utf16().collect()
}

/// Lays out one version 2 record, with its name at `name_offset` and the
/// length padded to a multiple of 8.
fn record(major: u16, fid: u64, parent: u64, usn: i64, attrs: u32, name: &[u16], name_offset: u16) -> Vec<u8> {
    let name_bytes = 2 * name.len();
    let unpadded = name_offset as usize + name_bytes;
    let len = (unpadded + 7) / 8 * 8;
    let mut b = Vec::new();
    b.extend_from_slice(&(len as u32).to_le_bytes());
    b.extend_from_slice(&major.to_le_bytes());
    b.extend_from_slice(&7u16.to_le_bytes());
    b.extend_from_slice(&fid.to_le_bytes());
    b.extend_from_slice(&parent.to_le_bytes());
    b.extend_from_slice(&usn.to_le_bytes());
    b.extend_from_slice(&132224440001234560i64.to_le_bytes());
    b.extend_from_slice(&0x8000_0102u32.to_le_bytes());
    b.extend_from_slice(&3u32.to_le_bytes());
    b.extend_from_slice(&0x1234u32.to_le_bytes());
    b.extend_from_slice(&attrs.to_le_bytes());
    b.extend_from_slice(&(name_bytes as u16).to_le_bytes());
    b.extend_from_slice(&name_offset.to_le_bytes());
    b.resize(name_offset as usize, 0xEE);
    for u in name {
        b.extend_from_slice(&u.to_le_bytes());
    }
    b.resize(len, 0);
    b
}

fn entry(attrs: u32, name: &str) -> UsnEntry {
    let b = record(2, 1, 2, 3, attrs, &w(name), 60);
    UsnEntry::new(&b, b.len(), 0).unwrap().0
}

#[test]
fn decode_round_trip_with_surrogate_pairs() {
    let name = w("dé€😀.txt");
    assert!(name.iter().any(|u| (0xD800..0xDC00).contains(u)));
    let mut b = vec![0xAB; 16];
    let rec = record(2, 0x0001_0000_0000_0042, 0x0005_0000_0000_0005, 987654321, 0x20, &name, 60);
    b.extend_from_slice(&rec);
    let (e, next) = UsnEntry::new(&b, b.len(), 16).unwrap();
    assert_eq!(next, 16 + rec.len());
    assert_eq!(e.record_length as usize, rec.len());
    assert_eq!(e.major_version, 2);
    assert_eq!(e.minor_version, 7);
    assert_eq!(e.fid, 0x0001_0000_0000_0042);
    assert_eq!(e.parent_fid, 0x0005_0000_0000_0005);
    assert_eq!(e.usn, 987654321);
    assert_eq!(e.timestamp, 132224440001234560);
    assert_eq!(e.time, UnixTime { secs: 1577970400, nanos: 123456000 });
    assert_eq!(e.reason, 0x8000_0102);
    assert_eq!(e.source_info, 3);
    assert_eq!(e.security_id, 0x1234);
    assert_eq!(e.file_attributes, 0x20);
    assert_eq!(e.file_name, name);
    assert_eq!(String::from_utf16(&e.file_name).unwrap(), "dé€😀.txt");
}

#[test]
fn decode_finds_the_name_through_its_offset() {
    // A later minor version with four more header bytes before the name.
    let b = record(2, 9, 5, 1, 0, &w("later"), 64);
    let (e, next) = UsnEntry::new(&b, b.len(), 0).unwrap();
    assert_eq!(e.file_name, w("later"));
    assert_eq!(next, b.len());
}

#[test]
fn decode_rejects_other_major_versions() {
    let b = record(3, 9, 5, 1, 0, &w("v3"), 60);
    assert_eq!(UsnEntry::new(&b, b.len(), 0).unwrap_err(), DecodeError::UnsupportedVersion);
    let mut z = record(2, 9, 5, 1, 0, &w("zero"), 60);
    z[0..4].copy_from_slice(&0u32.to_le_bytes());
    assert_eq!(UsnEntry::new(&z, z.len(), 0).unwrap_err(), DecodeError::UnsupportedVersion);
}

#[test]
fn decode_rejects_truncated_records() {
    let b = record(2, 9, 5, 1, 0, &w("name"), 60);
    // The record is longer than the valid bytes.
    assert_eq!(UsnEntry::new(&b, b.len() - 1, 0).unwrap_err(), DecodeError::Truncated);
    // Not even the length and version fit.
    assert_eq!(UsnEntry::new(&b, 7, 0).unwrap_err(), DecodeError::Truncated);
    assert_eq!(UsnEntry::new(&b, b.len(), b.len()).unwrap_err(), DecodeError::Truncated);
    // The name runs past the record.
    let mut n = b.clone();
    n[56..58].copy_from_slice(&200u16.to_le_bytes());
    assert_eq!(UsnEntry::new(&n, n.len(), 0).unwrap_err(), DecodeError::Truncated);
    // A length that does not cover the fixed header.
    let mut h = b.clone();
    h[0..4].copy_from_slice(&(HEADER_LEN as u32).to_le_bytes());
    assert_eq!(UsnEntry::new(&h, h.len(), 0).unwrap_err(), DecodeError::Truncated);
}

#[test]
fn entry_attribute_flags() {
    let d = entry(0x10 | 0x2, "dir");
    assert!(d.is_dir());
    assert!(d.is_hidden());
    let f = entry(0x20, "file");
    assert!(!f.is_dir());
    assert!(!f.is_hidden());
}

#[test]
fn should_skip_entry_filters_kind_and_name() {
    let d = entry(0x10, "dir");
    let f = entry(0x20, "file");
    assert!(!should_skip_entry(&d, false, false, None));
    assert!(should_skip_entry(&d, true, false, None));
    assert!(!should_skip_entry(&f, true, false, None));
    assert!(should_skip_entry(&f, false, true, None));
    assert!(!should_skip_entry(&d, false, true, None));
    assert!(should_skip_entry(&f, false, false, Some(false)));
    assert!(!should_skip_entry(&f, false, false, Some(true)));
}

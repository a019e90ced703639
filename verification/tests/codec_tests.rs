//! The blob container: exact layout, round trips, and rejection of
//! malformed input.

use pyrepackager::codec::{read_blob_entries, write_blob_entries, BlobEntry};

fn entry(name: &str, data: &[u8]) -> BlobEntry {
    BlobEntry { name: name.to_string(), data: data.to_vec() }
}

#[test]
fn blob_layout_two_entries() {
    let entries = vec![entry("a", &[0x01, 0x02]), entry("bb", &[0x03])];
    let out = write_blob_entries(&entries).unwrap();
    let expected: Vec<u8> = vec![
        0x02, 0x00, 0x00, 0x00, // count
        0x01, 0x00, 0x00, 0x00, 0x02, 0x00, 0x00, 0x00, // index of "a"
        0x02, 0x00, 0x00, 0x00, 0x01, 0x00, 0x00, 0x00, // index of "bb"
        0x61, 0x62, 0x62, // names
        0x01, 0x02, 0x03, // data
    ];
    assert_eq!(out, expected);
}

#[test]
fn blob_empty() {
    let entries: Vec<BlobEntry> = Vec::new();
    let out = write_blob_entries(&entries).unwrap();
    assert_eq!(out, vec![0x00, 0x00, 0x00, 0x00]);
}

#[test]
fn blob_round_trip() {
    let entries = vec![
        entry("importlib._bootstrap", b"source one"),
        entry("json", b""),
        entry("json.decoder", &[0xff, 0x00, 0x7f]),
    ];
    let out = write_blob_entries(&entries).unwrap();
    let back = read_blob_entries(&out).unwrap();
    assert_eq!(back.len(), entries.len());
    for (i, (name, data)) in back.iter().enumerate() {
        assert_eq!(name.as_slice(), entries[i].name.as_bytes());
        assert_eq!(data.as_slice(), entries[i].data.as_slice());
    }
}

#[test]
fn blob_round_trip_empty() {
    let entries: Vec<BlobEntry> = Vec::new();
    let out = write_blob_entries(&entries).unwrap();
    let back = read_blob_entries(&out).unwrap();
    assert_eq!(back.len(), 0);
}

#[test]
fn blob_reader_rejects_truncated() {
    assert!(read_blob_entries(&vec![0x01, 0x00, 0x00]).is_none());
    // count says one entry but the index is missing
    assert!(read_blob_entries(&vec![0x01, 0x00, 0x00, 0x00]).is_none());
    // trailing garbage after a well-formed empty container
    assert!(read_blob_entries(&vec![0x00, 0x00, 0x00, 0x00, 0xaa]).is_none());
}

#[test]
fn blob_reader_rejects_bad_lengths() {
    // one entry, name length 5, data length 0, but only 3 name bytes
    let bad = vec![
        0x01, 0x00, 0x00, 0x00, 0x05, 0x00, 0x00, 0x00, 0x00, 0x00, 0x00, 0x00, 0x61, 0x62, 0x63,
    ];
    assert!(read_blob_entries(&bad).is_none());
}

#[test]
fn blob_determinism() {
    let make = || vec![entry("x", b"abc"), entry("y", b"def")];
    let a = write_blob_entries(&make()).unwrap();
    let b = write_blob_entries(&make()).unwrap();
    assert_eq!(a, b);
}

use batg::format::{
    decode_triple, encode_triple, read_header, write_header, Entry, ENTRY_SIZE, HEADER_SIZE,
    TRIPLE_LEN,
};
use batg::pack_error::PackError;

fn header(entries: &[Entry]) -> Result<Vec<u8>, PackError> {
    let mut out = Vec::new();
    write_header(&mut out, entries).map(|()| out)
}

fn entry(triple: &str, offset: u64, compressed: u64, uncompressed: u64, checksum: u32) -> Entry {
    Entry {
        target_triple: triple.to_owned(),
        offset,
        compressed_size: compressed,
        uncompressed_size: uncompressed,
        checksum,
    }
}

#[test]
fn encode_triple_pads_with_nul() {
    let field = encode_triple("x86_64-pc-windows-msvc").unwrap();
    assert_eq!(&field[..22], b"x86_64-pc-windows-msvc");
    assert!(field[22..].iter().all(|&b| b == 0));
    assert_eq!(field.len(), TRIPLE_LEN);
}

#[test]
fn encode_triple_rejects_empty_long_and_nul() {
    assert!(matches!(encode_triple(""), Err(PackError::InvalidTriple)));
    assert!(matches!(encode_triple(&"a".repeat(32)), Err(PackError::InvalidTriple)));
    assert!(matches!(encode_triple("a\0b"), Err(PackError::InvalidTriple)));
    assert!(encode_triple(&"a".repeat(31)).is_ok());
}

#[test]
fn triple_roundtrip() {
    for triple in ["aarch64-linux-android", "x86_64-unknown-linux-gnu", "é", &"z".repeat(31)] {
        let field = encode_triple(triple).unwrap();
        assert_eq!(decode_triple(&field).unwrap(), triple);
    }
}

#[test]
fn decode_triple_errors() {
    let mut field = [0u8; 32];
    assert!(matches!(decode_triple(&field), Err(PackError::InvalidTriple)));
    field[0] = b'a';
    field[5] = b'b';
    assert!(matches!(decode_triple(&field), Err(PackError::Invalid)));
    let mut bad = [0u8; 32];
    bad[0] = 0xff;
    assert!(matches!(decode_triple(&bad), Err(PackError::Utf8(_))));
}

#[test]
fn decode_triple_rejects_full_width_field() {
    assert!(matches!(decode_triple(&[b'a'; 32]), Err(PackError::InvalidTriple)));
    assert!(matches!(decode_triple(&[0xff; 32]), Err(PackError::InvalidTriple)));
    assert!(encode_triple(&"a".repeat(32)).is_err());
}

#[test]
fn header_layout_is_exact() {
    let entries = vec![entry("wasm32-unknown-unknown", 68, 10, 20, 0xdeadbeef)];
    let bytes = header(&entries).unwrap();
    assert_eq!(bytes.len(), HEADER_SIZE + ENTRY_SIZE);
    assert_eq!(&bytes[..4], b"FLAT");
    assert_eq!(&bytes[4..6], &[1, 0]);
    assert_eq!(&bytes[6..8], &[1, 0]);
    assert_eq!(&bytes[8..30], b"wasm32-unknown-unknown");
    assert!(bytes[30..40].iter().all(|&b| b == 0));
    assert_eq!(&bytes[40..48], &68u64.to_le_bytes());
    assert_eq!(&bytes[48..56], &10u64.to_le_bytes());
    assert_eq!(&bytes[56..64], &20u64.to_le_bytes());
    assert_eq!(&bytes[64..68], &[0xef, 0xbe, 0xad, 0xde]);
}

#[test]
fn header_roundtrip_with_trailing_data() {
    let entries = vec![
        entry("x86_64-pc-windows-msvc", 128, 3, 4, 7),
        entry("aarch64-apple-darwin", 131, 5, 9, u32::MAX),
    ];
    let mut bytes = header(&entries).unwrap();
    bytes.extend_from_slice(b"payload");
    let file = read_header(&bytes).unwrap();
    assert_eq!(file.version, 1);
    assert_eq!(file.entries.len(), 2);
    for (got, want) in file.entries.iter().zip(&entries) {
        assert_eq!(got.target_triple, want.target_triple);
        assert_eq!(got.offset, want.offset);
        assert_eq!(got.compressed_size, want.compressed_size);
        assert_eq!(got.uncompressed_size, want.uncompressed_size);
        assert_eq!(got.checksum, want.checksum);
    }
}

#[test]
fn write_header_errors() {
    assert!(matches!(header(&[entry("", 0, 0, 0, 0)]), Err(PackError::InvalidTriple)));
    let many: Vec<Entry> = (0..65536).map(|_| entry("", 0, 0, 0, 0)).collect();
    assert!(matches!(header(&many), Err(PackError::Invalid)));
}

#[test]
fn write_header_leaves_what_it_wrote_before_failing() {
    let mut out = b"head".to_vec();
    let entries = vec![
        entry("x86_64-pc-windows-msvc", 1, 2, 3, 4),
        entry("", 5, 6, 7, 8),
        entry("aarch64-apple-darwin", 9, 10, 11, 12),
    ];
    assert!(matches!(write_header(&mut out, &entries), Err(PackError::InvalidTriple)));
    let full = header(&entries[..1]).unwrap();
    assert_eq!(out.len(), 4 + HEADER_SIZE + ENTRY_SIZE);
    assert_eq!(&out[..4], b"head");
    assert_eq!(&out[4..10], b"FLAT\x01\x00");
    assert_eq!(&out[10..12], &[3, 0]);
    assert_eq!(&out[12..], &full[HEADER_SIZE..]);

    let mut out = Vec::new();
    let many: Vec<Entry> = (0..65536).map(|_| entry("a", 0, 0, 0, 0)).collect();
    assert!(matches!(write_header(&mut out, &many), Err(PackError::Invalid)));
    assert_eq!(out, b"FLAT\x01\x00");
}

#[test]
fn read_header_errors_in_field_order() {
    assert!(matches!(read_header(b"FLA"), Err(PackError::Io(_))));
    assert!(matches!(read_header(b"NOPE"), Err(PackError::Invalid)));
    assert!(matches!(read_header(b"FLAT\x01"), Err(PackError::Io(_))));
    assert!(matches!(read_header(b"FLAT\x02\x00"), Err(PackError::UnsupportedVersion(2))));
    assert!(matches!(read_header(b"FLAT\x01\x00\x01"), Err(PackError::Io(_))));
    assert!(matches!(read_header(b"FLAT\x01\x00\x00\x00"), Err(PackError::Empty)));
    assert!(matches!(read_header(b"FLAT\x01\x00\x01\x00abc"), Err(PackError::Io(_))));
    let mut record = vec![0u8; 60];
    let mut bytes = b"FLAT\x01\x00\x01\x00".to_vec();
    bytes.extend_from_slice(&record);
    assert!(matches!(read_header(&bytes), Err(PackError::InvalidTriple)));
    record[0] = b'a';
    record[3] = b'b';
    let mut bytes = b"FLAT\x01\x00\x01\x00".to_vec();
    bytes.extend_from_slice(&record);
    assert!(matches!(read_header(&bytes), Err(PackError::Invalid)));
}

#[test]
fn truncated_read_reports_unexpected_eof() {
    match read_header(b"FL") {
        Err(PackError::Io(e)) => assert_eq!(e.kind(), std::io::ErrorKind::UnexpectedEof),
        other => panic!("unexpected {other:?}"),
    }
}

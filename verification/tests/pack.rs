use batg::format::read_header;
use batg::pack::{check_adds, Packer, LEVEL};
use batg::pack_error::PackError;

fn strings(items: &[&str]) -> Vec<String> {
    items.iter().map(|s| s.to_string()).collect()
}

fn container(packer: Packer) -> Result<Vec<u8>, PackError> {
    let mut out = Vec::new();
    packer.finish(&mut out).map(|()| out)
}

#[test]
fn check_adds_rejects_empty_request() {
    assert!(matches!(check_adds(&[]), Err(PackError::Empty)));
}

#[test]
fn check_adds_accepts_distinct_triples() {
    assert!(check_adds(&strings(&["a", "b", "c"])).is_ok());
}

#[test]
fn check_adds_reports_first_duplicate() {
    match check_adds(&strings(&["a", "b", "a", "b"])) {
        Err(PackError::DuplicateTriple(t)) => assert_eq!(t, "a"),
        other => panic!("unexpected {other:?}"),
    }
}

#[test]
fn check_adds_invalid_before_later_duplicate() {
    assert!(matches!(check_adds(&strings(&["a", "", "a"])), Err(PackError::InvalidTriple)));
    match check_adds(&strings(&["a", "a", ""])) {
        Err(PackError::DuplicateTriple(t)) => assert_eq!(t, "a"),
        other => panic!("unexpected {other:?}"),
    }
}

#[test]
fn packer_records_checksum_and_sizes() {
    let raw = b"hello plugin bytes".to_vec();
    let mut packer = Packer::new();
    packer.add("x86_64-unknown-linux-gnu".to_owned(), &raw).unwrap();
    assert_eq!(packer.len(), 1);
    let frame = zstd::encode_all(raw.as_slice(), LEVEL).unwrap();
    assert_eq!(packer.compressed_len(0), frame.len());
    assert_ne!(frame, raw);
    let bytes = container(packer).unwrap();
    let file = read_header(&bytes).unwrap();
    let e = &file.entries[0];
    assert_eq!(e.checksum, crc32fast::hash(&raw));
    assert_eq!(e.uncompressed_size, raw.len() as u64);
    assert_eq!(e.compressed_size, frame.len() as u64);
    assert_eq!(e.offset, 68);
}

#[test]
fn checksum_of_known_input() {
    let mut packer = Packer::new();
    packer.add("t".to_owned(), b"123456789").unwrap();
    let bytes = container(packer).unwrap();
    let file = read_header(&bytes).unwrap();
    assert_eq!(file.entries[0].checksum, 0xCBF4_3926);
    assert_eq!(file.entries[0].uncompressed_size, 9);
}

#[test]
fn container_offsets_locate_blobs() {
    let plugins: Vec<(&str, Vec<u8>)> = vec![
        ("aarch64-linux-android", vec![1u8; 100]),
        ("x86_64-pc-windows-msvc", b"abc".to_vec()),
        ("wasm32-unknown-unknown", Vec::new()),
    ];
    let mut packer = Packer::new();
    for (triple, raw) in &plugins {
        packer.add((*triple).to_owned(), raw).unwrap();
    }
    let bytes = container(packer).unwrap();
    let file = read_header(&bytes).unwrap();
    assert_eq!(file.entries.len(), 3);
    let mut expected_offset = (8 + 3 * 60) as u64;
    for ((triple, raw), e) in plugins.iter().zip(&file.entries) {
        assert_eq!(e.target_triple, *triple);
        assert_eq!(e.offset, expected_offset);
        let start = e.offset as usize;
        let end = start + e.compressed_size as usize;
        let blob = &bytes[start..end];
        assert_eq!(zstd::decode_all(blob).unwrap(), *raw);
        expected_offset += e.compressed_size;
    }
    assert_eq!(expected_offset as usize, bytes.len());
}

#[test]
fn finish_rejects_invalid_triple() {
    let mut packer = Packer::new();
    packer.add(String::new(), b"x").unwrap();
    let mut out = Vec::new();
    assert!(matches!(packer.finish(&mut out), Err(PackError::InvalidTriple)));
    assert_eq!(&out[..8], b"FLAT\x01\x00\x01\x00");
    assert_eq!(out.len(), 8);
}

/// The bitwise register steps that the library's `crc32` specification
/// describes, written out, against `crc32fast`.
fn crc32_by_bits(data: &[u8]) -> u32 {
    let mut r = 0xFFFF_FFFFu32;
    for &b in data {
        r ^= b as u32;
        for _ in 0..8 {
            r = if r & 1 == 1 { (r >> 1) ^ 0xEDB8_8320 } else { r >> 1 };
        }
    }
    r ^ 0xFFFF_FFFF
}

#[test]
fn crc32_specification_matches_crc32fast() {
    let mut data = Vec::new();
    for n in 0..300u32 {
        assert_eq!(crc32_by_bits(&data), crc32fast::hash(&data));
        data.push((n.wrapping_mul(2654435761) >> 13) as u8);
    }
    assert_eq!(crc32_by_bits(b"123456789"), 0xCBF4_3926);
}

#[test]
fn record_keeps_the_given_frame_and_checksum() {
    let mut packer = Packer::new();
    packer.record("x86_64-unknown-linux-gnu".to_owned(), b"plugin", 7, vec![9, 8, 7]);
    assert_eq!(packer.len(), 1);
    assert_eq!(packer.compressed_len(0), 3);
    let bytes = container(packer).unwrap();
    let file = read_header(&bytes).unwrap();
    let e = &file.entries[0];
    assert_eq!(e.checksum, 7);
    assert_eq!(e.uncompressed_size, 6);
    assert_eq!(e.compressed_size, 3);
    assert_eq!(e.offset, 68);
    assert_eq!(&bytes[68..], &[9, 8, 7]);
}

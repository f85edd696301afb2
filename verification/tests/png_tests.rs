use png_splice::chunk::PngChunk;
use png_splice::codec::PngError;
use png_splice::container::PngFile;
use png_splice::reader::{check_if_png, read_chunk, read_png};

const SIG: [u8; 8] = [137, 80, 78, 71, 13, 10, 26, 10];

fn wire_chunk(tag: &[u8; 4], data: &[u8], crc: &[u8; 4]) -> Vec<u8> {
    let mut out = Vec::new();
    out.extend_from_slice(&(data.len() as u32).to_be_bytes());
    out.extend_from_slice(tag);
    out.extend_from_slice(data);
    out.extend_from_slice(crc);
    out
}

fn sample_stream() -> Vec<u8> {
    let mut bytes = SIG.to_vec();
    bytes.extend_from_slice(&wire_chunk(b"IHDR", &[1, 2, 3, 4], &[0, 0, 0, 0]));
    bytes.extend_from_slice(&wire_chunk(b"IEND", &[], &[0, 0, 0, 0]));
    bytes
}

#[test]
fn create_chunk_invariant() {
    let c = PngChunk::create_chunk("TEST", "somepayload");
    assert_eq!(c.get_length(), 11);
    assert_eq!(c.chunk_crc, [0, 0, 0, 0]);
    assert_eq!(c.get_crc(), 0);
    assert_eq!(c.get_header().unwrap(), "TEST");
    assert_eq!(c.chunk_data, b"somepayload".to_vec());
    assert_eq!(c.chunk_length, [0, 0, 0, 11]);
}

#[test]
fn create_chunk_empty_payload() {
    let c = PngChunk::create_chunk("TEST", "");
    assert_eq!(c.get_length(), 0);
    assert_eq!(c.chunk_crc, [0, 0, 0, 0]);
    assert!(c.chunk_data.is_empty());
}

#[test]
fn length_field_is_big_endian() {
    let c = PngChunk {
        chunk_length: [0, 0, 1, 2],
        chunk_type: *b"IDAT",
        chunk_data: vec![0; 258],
        chunk_crc: [0, 0, 0, 0],
    };
    assert_eq!(c.get_length(), 258);
    let big = PngChunk {
        chunk_length: [0x12, 0x34, 0x56, 0x78],
        chunk_type: *b"IDAT",
        chunk_data: Vec::new(),
        chunk_crc: [0, 0, 0, 0],
    };
    assert_eq!(big.get_length(), 0x12345678);
}

#[test]
fn crc_field_is_little_endian() {
    let c = PngChunk {
        chunk_length: [0, 0, 0, 0],
        chunk_type: *b"IDAT",
        chunk_data: Vec::new(),
        chunk_crc: [1, 0, 0, 0],
    };
    assert_eq!(c.get_crc(), 1);
    let c2 = PngChunk {
        chunk_length: [0, 0, 0, 0],
        chunk_type: *b"IDAT",
        chunk_data: Vec::new(),
        chunk_crc: [0x78, 0x56, 0x34, 0x12],
    };
    assert_eq!(c2.get_crc(), 0x12345678);
}

#[test]
fn header_decodes_text() {
    let c = PngChunk {
        chunk_length: [0, 0, 0, 0],
        chunk_type: *b"IHDR",
        chunk_data: Vec::new(),
        chunk_crc: [0, 0, 0, 0],
    };
    assert_eq!(c.get_header().unwrap(), "IHDR");
}

#[test]
fn header_decodes_multibyte_text() {
    let c = PngChunk {
        chunk_length: [0, 0, 0, 0],
        chunk_type: [0xC3, 0xA9, 0xC3, 0xA9],
        chunk_data: Vec::new(),
        chunk_crc: [0, 0, 0, 0],
    };
    assert_eq!(c.get_header().unwrap(), "\u{e9}\u{e9}");
}

#[test]
fn header_rejects_invalid_utf8() {
    let c = PngChunk {
        chunk_length: [0, 0, 0, 0],
        chunk_type: [0xFF, 0xFF, 0xFF, 0xFF],
        chunk_data: Vec::new(),
        chunk_crc: [0, 0, 0, 0],
    };
    assert_eq!(c.get_header(), Err(PngError::Decode));
}

#[test]
fn signature_check() {
    assert!(check_if_png(&SIG.to_vec()));
    assert!(check_if_png(&sample_stream()));
    assert!(!check_if_png(&vec![137, 80, 78, 71, 13, 10, 26, 11]));
    assert!(!check_if_png(&vec![137, 80]));
    assert!(!check_if_png(&Vec::new()));
}

#[test]
fn read_single_chunk() {
    let stream = sample_stream();
    let (c, next) = read_chunk(&stream, 8).unwrap();
    assert_eq!(c.get_length(), 4);
    assert_eq!(c.get_header().unwrap(), "IHDR");
    assert_eq!(c.chunk_data, vec![1, 2, 3, 4]);
    assert_eq!(next, 8 + 16);
}

#[test]
fn read_chunk_truncated_payload() {
    let mut bytes = SIG.to_vec();
    // declares 4 payload bytes but carries only 2, and no checksum
    bytes.extend_from_slice(&[0, 0, 0, 4]);
    bytes.extend_from_slice(b"IHDR");
    bytes.extend_from_slice(&[1, 2]);
    assert_eq!(read_chunk(&bytes, 8), Err(PngError::Truncated));
}

#[test]
fn parse_concrete_scenario() {
    let png = read_png(&sample_stream()).unwrap();
    assert_eq!(png.file_content.len(), 2);
    assert_eq!(png.file_signature, SIG);
    assert_eq!(png.get_chunk(0).get_header().unwrap(), "IHDR");
    assert_eq!(png.get_chunk(0).get_length(), 4);
    assert_eq!(png.get_chunk(1).get_header().unwrap(), "IEND");
}

#[test]
fn inject_concrete_scenario() {
    let png = read_png(&sample_stream()).unwrap();
    let inj = PngChunk::create_chunk("keKW", "someusefulinfo");
    let out = png.serialize(&inj, "IHDR").unwrap();
    let mut expected = SIG.to_vec();
    expected.extend_from_slice(&wire_chunk(b"IHDR", &[1, 2, 3, 4], &[0, 0, 0, 0]));
    expected.extend_from_slice(&wire_chunk(b"keKW", b"someusefulinfo", &[0, 0, 0, 0]));
    expected.extend_from_slice(&wire_chunk(b"IEND", &[], &[0, 0, 0, 0]));
    assert_eq!(out, expected);
}

#[test]
fn round_trip_without_match() {
    let stream = sample_stream();
    let png = read_png(&stream).unwrap();
    let inj = PngChunk::create_chunk("keKW", "someusefulinfo");
    let out = png.serialize(&inj, "ZZZZ").unwrap();
    assert_eq!(out, stream);
}

#[test]
fn round_trip_ignores_bytes_after_terminator() {
    let mut stream = sample_stream();
    let clean = stream.clone();
    stream.extend_from_slice(&[9, 9, 9, 9]);
    let png = read_png(&stream).unwrap();
    assert_eq!(png.file_content.len(), 2);
    let inj = PngChunk::create_chunk("keKW", "x");
    let out = png.serialize(&inj, "ZZZZ").unwrap();
    assert_eq!(out, clean);
}

#[test]
fn injection_placement() {
    let mut png = PngFile::create();
    let a = PngChunk::create_chunk("AAAA", "first");
    let b = PngChunk::create_chunk("XXYZ", "second");
    let c = PngChunk::create_chunk("CCCC", "third");
    png.insert_chunk(a, 0);
    png.insert_chunk(b, 1);
    png.insert_chunk(c, 2);
    let d = PngChunk::create_chunk("DDDD", "spliced");

    let out = png.serialize(&d, "XXYZ").unwrap();
    let mut expected = SIG.to_vec();
    expected.extend_from_slice(&wire_chunk(b"AAAA", b"first", &[0, 0, 0, 0]));
    expected.extend_from_slice(&wire_chunk(b"XXYZ", b"second", &[0, 0, 0, 0]));
    expected.extend_from_slice(&wire_chunk(b"DDDD", b"spliced", &[0, 0, 0, 0]));
    expected.extend_from_slice(&wire_chunk(b"CCCC", b"third", &[0, 0, 0, 0]));
    assert_eq!(out, expected);

    let out2 = png.serialize(&d, "QQQQ").unwrap();
    let mut expected2 = SIG.to_vec();
    expected2.extend_from_slice(&wire_chunk(b"AAAA", b"first", &[0, 0, 0, 0]));
    expected2.extend_from_slice(&wire_chunk(b"XXYZ", b"second", &[0, 0, 0, 0]));
    expected2.extend_from_slice(&wire_chunk(b"CCCC", b"third", &[0, 0, 0, 0]));
    assert_eq!(out2, expected2);
}

#[test]
fn zero_length_chunk_round_trip() {
    let mut stream = SIG.to_vec();
    stream.extend_from_slice(&wire_chunk(b"IEND", &[], &[0, 0, 0, 0]));
    let png = read_png(&stream).unwrap();
    assert_eq!(png.file_content.len(), 1);
    assert_eq!(png.get_chunk(0).get_length(), 0);
    assert!(png.get_chunk(0).chunk_data.is_empty());
    let inj = PngChunk::create_chunk("keKW", "x");
    let out = png.serialize(&inj, "ZZZZ").unwrap();
    assert_eq!(out, stream);
}

#[test]
fn length_invariant_on_parse() {
    let png = read_png(&sample_stream()).unwrap();
    for i in 0..png.file_content.len() {
        let c = png.get_chunk(i);
        assert_eq!(c.get_length() as usize, c.chunk_data.len());
    }
}

#[test]
fn terminator_is_last() {
    let mut stream = SIG.to_vec();
    stream.extend_from_slice(&wire_chunk(b"IHDR", &[1, 2, 3, 4], &[0, 0, 0, 0]));
    stream.extend_from_slice(&wire_chunk(b"IDAT", &[5, 6], &[1, 2, 3, 4]));
    stream.extend_from_slice(&wire_chunk(b"IEND", &[], &[0, 0, 0, 0]));
    let png = read_png(&stream).unwrap();
    assert_eq!(png.file_content.len(), 3);
    assert_eq!(png.get_last_chunk().get_header().unwrap(), "IEND");
    for i in 0..png.file_content.len() - 1 {
        assert_ne!(png.get_chunk(i).chunk_type, *b"IEND");
    }
}

#[test]
fn truncated_sources_are_rejected() {
    assert_eq!(read_png(&Vec::new()), Err(PngError::Truncated));
    assert_eq!(read_png(&vec![137, 80, 78]), Err(PngError::Truncated));
    assert_eq!(read_png(&SIG.to_vec()), Err(PngError::Truncated));
    // ends before any terminator chunk
    let mut no_end = SIG.to_vec();
    no_end.extend_from_slice(&wire_chunk(b"IHDR", &[1, 2, 3, 4], &[0, 0, 0, 0]));
    assert_eq!(read_png(&no_end), Err(PngError::Truncated));
}

#[test]
fn invalid_tag_is_rejected_when_inspected() {
    let mut stream = SIG.to_vec();
    stream.extend_from_slice(&wire_chunk(&[0xFF, 0xFE, 0xFD, 0xFC], &[1], &[0, 0, 0, 0]));
    stream.extend_from_slice(&wire_chunk(b"IEND", &[], &[0, 0, 0, 0]));
    assert_eq!(read_png(&stream), Err(PngError::Decode));
}

#[test]
fn serialize_rejects_invalid_tag() {
    let mut png = PngFile::create();
    let bad = PngChunk {
        chunk_length: [0, 0, 0, 0],
        chunk_type: [0xFF, 0xFF, 0xFF, 0xFF],
        chunk_data: Vec::new(),
        chunk_crc: [0, 0, 0, 0],
    };
    png.insert_chunk(bad, 0);
    let inj = PngChunk::create_chunk("keKW", "x");
    assert_eq!(png.serialize(&inj, "IHDR"), Err(PngError::Decode));
}

#[test]
fn container_accessors() {
    let mut png = PngFile::create();
    assert_eq!(png.file_signature, SIG);
    assert!(png.file_content.is_empty());
    let a = PngChunk::create_chunk("AAAA", "a");
    let b = PngChunk::create_chunk("BBBB", "b");
    png.insert_chunk(a, 0);
    png.insert_chunk(b, 0);
    assert_eq!(png.get_chunk(0).get_header().unwrap(), "BBBB");
    assert_eq!(png.get_chunk(1).get_header().unwrap(), "AAAA");
    assert_eq!(png.get_last_chunk().get_header().unwrap(), "AAAA");
}

#[test]
fn injection_after_every_match() {
    let mut png = PngFile::create();
    png.insert_chunk(PngChunk::create_chunk("XXYZ", "one"), 0);
    png.insert_chunk(PngChunk::create_chunk("XXYZ", "two"), 1);
    let d = PngChunk::create_chunk("DDDD", "spliced");
    let out = png.serialize(&d, "XXYZ").unwrap();
    let mut expected = SIG.to_vec();
    expected.extend_from_slice(&wire_chunk(b"XXYZ", b"one", &[0, 0, 0, 0]));
    expected.extend_from_slice(&wire_chunk(b"DDDD", b"spliced", &[0, 0, 0, 0]));
    expected.extend_from_slice(&wire_chunk(b"XXYZ", b"two", &[0, 0, 0, 0]));
    expected.extend_from_slice(&wire_chunk(b"DDDD", b"spliced", &[0, 0, 0, 0]));
    assert_eq!(out, expected);
}

#[test]
fn create_chunk_multibyte_length() {
    let payload = "x".repeat(258);
    let c = PngChunk::create_chunk("IDAT", &payload);
    assert_eq!(c.get_length(), 258);
    assert_eq!(c.chunk_length, [0, 0, 1, 2]);
}

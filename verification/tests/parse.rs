use vrmi::gltf::{parse, parse_chunk, parse_header, ParseError};

fn u32le(n: u32) -> Vec<u8> {
    n.to_le_bytes().to_vec()
}

fn container_bytes(magic: &[u8], version: u32, length: u32, chunks: &[(&[u8], &[u8])]) -> Vec<u8> {
    let mut out = Vec::new();
    out.extend_from_slice(magic);
    out.extend_from_slice(&version.to_le_bytes());
    out.extend_from_slice(&length.to_le_bytes());
    for (tag, data) in chunks {
        out.extend_from_slice(&(data.len() as u32).to_le_bytes());
        out.extend_from_slice(tag);
        out.extend_from_slice(data);
    }
    out
}

#[test]
fn end_to_end_single_json_chunk() {
    let mut bytes = Vec::new();
    bytes.extend_from_slice(b"glTF");
    bytes.extend_from_slice(&u32le(2));
    bytes.extend_from_slice(&u32le(32));
    bytes.extend_from_slice(&u32le(8));
    bytes.extend_from_slice(b"JSON");
    bytes.extend_from_slice(b"{\"x\":1} ");
    let c = parse(&bytes).unwrap();
    assert_eq!(c.header.magic, b"glTF".to_vec());
    assert_eq!(c.header.version, 2);
    assert_eq!(c.header.length, 32);
    assert_eq!(c.chunks.len(), 1);
    assert_eq!(c.chunks[0].length, 8);
    assert_eq!(c.chunks[0].type_tag, b"JSON".to_vec());
    assert_eq!(c.chunks[0].data, b"{\"x\":1} ".to_vec());
}

#[test]
fn empty_buffer_is_truncated() {
    assert_eq!(parse(&[]).err(), Some(ParseError::TruncatedInput));
}

#[test]
fn three_bytes_are_truncated() {
    assert_eq!(parse(b"glT").err(), Some(ParseError::TruncatedInput));
}

#[test]
fn eleven_bytes_with_magic_are_truncated() {
    let bytes = b"glTF\x02\x00\x00\x00\x20\x00\x00";
    assert_eq!(parse(bytes).err(), Some(ParseError::TruncatedInput));
}

#[test]
fn wrong_magic_wins_over_short_buffer() {
    // four bytes suffice to read the magic, so the mismatch is reported
    // even though the buffer is shorter than a whole header
    assert_eq!(parse(b"XXXX").err(), Some(ParseError::BadMagic));
}

#[test]
fn wrong_magic_is_bad_magic() {
    let bytes = container_bytes(b"GLTF", 2, 12, &[]);
    assert_eq!(parse(&bytes).err(), Some(ParseError::BadMagic));
}

#[test]
fn header_only_parses_to_empty_chunk_list() {
    let bytes = container_bytes(b"glTF", 2, 12, &[]);
    let c = parse(&bytes).unwrap();
    assert_eq!(c.header.version, 2);
    assert_eq!(c.header.length, 12);
    assert!(c.chunks.is_empty());
}

#[test]
fn chunk_longer_than_buffer_fails_whole_parse() {
    // the chunk declares 100 payload bytes but only 4 follow
    let mut bytes = container_bytes(b"glTF", 2, 0, &[]);
    bytes.extend_from_slice(&u32le(100));
    bytes.extend_from_slice(b"JSON");
    bytes.extend_from_slice(b"{}  ");
    assert_eq!(parse(&bytes).err(), Some(ParseError::ParseFailed));
}

#[test]
fn dangling_tail_fails_whole_parse() {
    // three stray bytes after a complete chunk cannot form another chunk
    let mut bytes = container_bytes(b"glTF", 2, 0, &[(b"BIN\0", b"\x01\x02")]);
    bytes.extend_from_slice(b"\x00\x00\x00");
    assert_eq!(parse(&bytes).err(), Some(ParseError::ParseFailed));
}

#[test]
fn two_chunks_keep_file_order() {
    let bytes = container_bytes(
        b"glTF",
        2,
        0,
        &[(b"JSON", b"{\"a\":[1,2]}"), (b"BIN\0", b"\xde\xad\xbe\xef")],
    );
    let c = parse(&bytes).unwrap();
    assert_eq!(c.chunks.len(), 2);
    assert_eq!(c.chunks[0].type_tag, b"JSON".to_vec());
    assert_eq!(c.chunks[0].data, b"{\"a\":[1,2]}".to_vec());
    assert_eq!(c.chunks[1].type_tag, b"BIN\0".to_vec());
    assert_eq!(c.chunks[1].data, b"\xde\xad\xbe\xef".to_vec());
}

#[test]
fn zero_length_chunks_parse() {
    let bytes = container_bytes(b"glTF", 1, 0, &[(b"AAAA", b""), (b"BBBB", b"")]);
    let c = parse(&bytes).unwrap();
    assert_eq!(c.chunks.len(), 2);
    assert_eq!(c.chunks[0].length, 0);
    assert_eq!(c.chunks[1].data, Vec::<u8>::new());
}

#[test]
fn reassembly_reproduces_input() {
    let bytes = container_bytes(
        b"glTF",
        7,
        1234,
        &[(b"JSON", b"{\"k\":null}"), (b"BIN\0", b"\x00\x01"), (b"Xyz9", b"abc")],
    );
    let c = parse(&bytes).unwrap();
    let mut rebuilt = Vec::new();
    rebuilt.extend_from_slice(&c.header.magic);
    rebuilt.extend_from_slice(&c.header.version.to_le_bytes());
    rebuilt.extend_from_slice(&c.header.length.to_le_bytes());
    for ch in &c.chunks {
        rebuilt.extend_from_slice(&ch.length.to_le_bytes());
        rebuilt.extend_from_slice(&ch.type_tag);
        rebuilt.extend_from_slice(&ch.data);
    }
    assert_eq!(rebuilt, bytes);
}

#[test]
fn header_parser_reads_fields() {
    let bytes = container_bytes(b"glTF", 0x0102_0304, 0xa0b0_c0d0, &[]);
    let h = parse_header(&bytes).unwrap();
    assert_eq!(h.version, 0x0102_0304);
    assert_eq!(h.length, 0xa0b0_c0d0);
}

#[test]
fn chunk_parser_reads_one_chunk_at_offset() {
    let bytes = container_bytes(b"glTF", 2, 0, &[(b"BIN\0", b"xyz")]);
    let c = parse_chunk(&bytes, 12).unwrap();
    assert_eq!(c.length, 3);
    assert_eq!(c.type_tag, b"BIN\0".to_vec());
    assert_eq!(c.data, b"xyz".to_vec());
}

#[test]
fn chunk_parser_rejects_short_tail() {
    let bytes = b"glTF\x02\x00\x00\x00\x00\x00\x00\x00\x05\x00\x00";
    assert_eq!(parse_chunk(bytes, 12).err(), Some(ParseError::TruncatedInput));
}

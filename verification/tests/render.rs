use vrmi::gltf::{parse, Chunk, Header};
use vrmi::json::{render_json_payload, RenderError};
use vrmi::render::{classify, render_chunk, render_container, render_header, u64_to_dec, ChunkKind};

fn chunk(tag: &[u8], data: &[u8]) -> Chunk {
    Chunk { length: data.len() as u32, type_tag: tag.to_vec(), data: data.to_vec() }
}

#[test]
fn decimal_rendering() {
    assert_eq!(u64_to_dec(0), "0");
    assert_eq!(u64_to_dec(7), "7");
    assert_eq!(u64_to_dec(10), "10");
    assert_eq!(u64_to_dec(4294967295), "4294967295");
    assert_eq!(u64_to_dec(1234567890123), "1234567890123");
}

#[test]
fn classify_known_and_unknown_tags() {
    assert_eq!(classify(&b"JSON".to_vec()), ChunkKind::Json);
    assert_eq!(classify(&b"BIN\0".to_vec()), ChunkKind::Binary);
    assert_eq!(classify(&b"BIN ".to_vec()), ChunkKind::Unknown);
    assert_eq!(classify(&b"Xyz9".to_vec()), ChunkKind::Unknown);
    assert_eq!(classify(&b"JS".to_vec()), ChunkKind::Unknown);
}

#[test]
fn header_block_text() {
    let h = Header { magic: b"glTF".to_vec(), version: 2, length: 32 };
    assert_eq!(render_header(&h), "  magic: glTF\n  version: 2\n  length: 32\n");
}

#[test]
fn json_payload_pretty_prints() {
    let r = render_json_payload(b"{\"x\":1}").unwrap();
    assert_eq!(r, "{\n  \"x\": 1\n}");
}

#[test]
fn json_payload_round_trip_preserves_structure() {
    let original = b"{\"a\":1,\"b\":[1,2,3]}";
    let pretty = render_json_payload(original).unwrap();
    let before: serde_json::Value = serde_json::from_slice(original).unwrap();
    let after: serde_json::Value = serde_json::from_str(&pretty).unwrap();
    assert_eq!(before, after);
    // key order of the mapping is preserved in the rendering
    let a = pretty.find("\"a\"").unwrap();
    let b = pretty.find("\"b\"").unwrap();
    assert!(a < b);
}

#[test]
fn json_payload_rejects_invalid_utf8() {
    assert_eq!(render_json_payload(b"\xff\xfe{}").err(), Some(RenderError::InvalidUtf8));
}

#[test]
fn json_payload_rejects_malformed_text() {
    assert_eq!(render_json_payload(b"{\"x\":").err(), Some(RenderError::MalformedJson));
    assert_eq!(render_json_payload(b"not json").err(), Some(RenderError::MalformedJson));
}

#[test]
fn json_chunk_block() {
    let c = chunk(b"JSON", b"{\"x\":1} ");
    assert_eq!(
        render_chunk(&c),
        "  length: 8\n  type: JSON\n{\n  \"x\": 1\n}\n"
    );
}

#[test]
fn binary_chunk_renders_placeholder_even_for_json_payload() {
    // the payload is valid UTF-8 and valid JSON, yet it is never decoded
    let c = chunk(b"BIN\0", b"{\"x\":1}");
    assert_eq!(
        render_chunk(&c),
        "  length: 7\n  type: BIN.\n  data: <binary data>\n"
    );
}

#[test]
fn unknown_chunk_renders_placeholder() {
    let c = chunk(b"Xyz9", b"whatever");
    assert_eq!(
        render_chunk(&c),
        "  length: 8\n  type: Xyz9\n  data: <unknown type>\n"
    );
}

#[test]
fn json_chunk_with_invalid_utf8_payload() {
    let c = chunk(b"JSON", b"\xff\xff");
    assert_eq!(
        render_chunk(&c),
        "  length: 2\n  type: JSON\n  data: <invalid utf-8>\n"
    );
}

#[test]
fn json_chunk_with_malformed_payload() {
    let c = chunk(b"JSON", b"[1,");
    assert_eq!(
        render_chunk(&c),
        "  length: 3\n  type: JSON\n  data: <malformed json>\n"
    );
}

#[test]
fn whole_dump_of_parsed_container() {
    let mut bytes = Vec::new();
    bytes.extend_from_slice(b"glTF");
    bytes.extend_from_slice(&2u32.to_le_bytes());
    bytes.extend_from_slice(&32u32.to_le_bytes());
    bytes.extend_from_slice(&8u32.to_le_bytes());
    bytes.extend_from_slice(b"JSON");
    bytes.extend_from_slice(b"{\"x\":1} ");
    let c = parse(&bytes).unwrap();
    let dump = render_container(&c);
    assert_eq!(
        dump,
        "header:\n  magic: glTF\n  version: 2\n  length: 32\nchunks: 1\nchunk0:\n  length: 8\n  type: JSON\n{\n  \"x\": 1\n}\n"
    );
}

#[test]
fn dump_continues_after_bad_json_chunk() {
    let mut bytes = Vec::new();
    bytes.extend_from_slice(b"glTF");
    bytes.extend_from_slice(&2u32.to_le_bytes());
    bytes.extend_from_slice(&0u32.to_le_bytes());
    bytes.extend_from_slice(&3u32.to_le_bytes());
    bytes.extend_from_slice(b"JSON");
    bytes.extend_from_slice(b"[1,");
    bytes.extend_from_slice(&2u32.to_le_bytes());
    bytes.extend_from_slice(b"BIN\0");
    bytes.extend_from_slice(b"\x00\x01");
    let c = parse(&bytes).unwrap();
    let dump = render_container(&c);
    assert_eq!(
        dump,
        "header:\n  magic: glTF\n  version: 2\n  length: 0\nchunks: 2\nchunk0:\n  length: 3\n  type: JSON\n  data: <malformed json>\nchunk1:\n  length: 2\n  type: BIN.\n  data: <binary data>\n"
    );
}

//! The human-readable dump: decimal rendering of the numeric fields, a total
//! ASCII rendering of four-byte tags, classification of chunks by tag, and
//! the block-by-block text of header and chunks.

use vstd::prelude::*;
use vstd::string::StringExecFns;
use vstd::utf8::valid_utf8;

use crate::gltf::{Chunk, Container, Header};
use crate::json::{json_bytes_ok, json_pretty_of, render_json_payload, RenderError};

verus! {

/// The character of one decimal digit.
pub open spec fn dec_digit(d: int) -> char
    recommends
        0 <= d < 10,
{
    if d == 0 {
        '0'
    } else if d == 1 {
        '1'
    } else if d == 2 {
        '2'
    } else if d == 3 {
        '3'
    } else if d == 4 {
        '4'
    } else if d == 5 {
        '5'
    } else if d == 6 {
        '6'
    } else if d == 7 {
        '7'
    } else if d == 8 {
        '8'
    } else {
        '9'
    }
}

/// The decimal rendering of a number, most significant digit first, with no
/// leading zeros (a single zero for 0).
pub open spec fn dec_str(n: nat) -> Seq<char>
    decreases n,
{
    if n < 10 {
        seq![dec_digit(n as int)]
    } else {
        dec_str(n / 10).push(dec_digit((n % 10) as int))
    }
}

/// The one-character string of one decimal digit.
fn digit_str(d: u64) -> (r: &'static str)
    requires
        d < 10,
    ensures
        r@ == seq![dec_digit(d as int)],
{
    proof {
        reveal_strlit("0");
        reveal_strlit("1");
        reveal_strlit("2");
        reveal_strlit("3");
        reveal_strlit("4");
        reveal_strlit("5");
        reveal_strlit("6");
        reveal_strlit("7");
        reveal_strlit("8");
        reveal_strlit("9");
    }
    match d {
        0 => "0",
        1 => "1",
        2 => "2",
        3 => "3",
        4 => "4",
        5 => "5",
        6 => "6",
        7 => "7",
        8 => "8",
        _ => "9",
    }
}

/// Appends the decimal rendering of `n`.
fn push_dec(out: &mut String, n: u64)
    ensures
        final(out)@ == old(out)@ + dec_str(n as nat),
    decreases n,
{
    if n >= 10 {
        push_dec(out, n / 10);
    }
    let d: u64 = n % 10;
    out.append(digit_str(d));
    proof {
        if n >= 10 {
            assert(old(out)@ + dec_str(n as nat) =~= old(out)@ + dec_str((n / 10) as nat) + seq![
                dec_digit((n % 10) as int),
            ]);
        } else {
            assert(old(out)@ + dec_str(n as nat) =~= old(out)@ + seq![dec_digit(n as int)]);
        }
    }
}

/// The decimal rendering of a number as a fresh string.
pub fn u64_to_dec(n: u64) -> (r: String)
    ensures
        r@ == dec_str(n as nat),
{
    let mut out = String::new();
    push_dec(&mut out, n);
    proof {
        assert(Seq::<char>::empty() + dec_str(n as nat) =~= dec_str(n as nat));
    }
    out
}

/// A byte rendered as text: itself for printable ASCII, a dot otherwise.
/// Raw tag bytes are never decoded as arbitrary text.
pub open spec fn ascii_char(b: u8) -> char {
    if 0x20 <= b && b <= 0x7e {
        b as char
    } else {
        '.'
    }
}

/// A byte sequence rendered with `ascii_char`, one character per byte.
pub open spec fn tag_text(tag: Seq<u8>) -> Seq<char> {
    Seq::new(tag.len(), |i: int| ascii_char(tag[i]))
}

/// Relies on String::push: appends exactly the one character.
#[verifier::external_body]
fn push_char(out: &mut String, c: char)
    ensures
        final(out)@ == old(out)@.push(c),
{
    out.push(c);
}

/// Appends the `ascii_char` rendering of each byte of `tag`.
fn push_tag_text(out: &mut String, tag: &Vec<u8>)
    ensures
        final(out)@ == old(out)@ + tag_text(tag@),
{
    let mut i: usize = 0;
    while i < tag.len()
        invariant
            0 <= i <= tag@.len(),
            out@ == old(out)@ + tag_text(tag@).take(i as int),
        decreases tag@.len() - i,
    {
        let b = tag[i];
        if 0x20 <= b && b <= 0x7e {
            push_char(out, b as char);
        } else {
            push_char(out, '.');
        }
        proof {
            assert(tag_text(tag@).take(i + 1) =~= tag_text(tag@).take(i as int).push(
                ascii_char(tag@[i as int]),
            ));
        }
        i = i + 1;
    }
    proof {
        assert(tag_text(tag@).take(tag@.len() as int) =~= tag_text(tag@));
    }
}

/// The semantic kind of a chunk, decided by its four-byte type tag.
#[derive(Debug, Clone, Copy, PartialEq, Eq, Structural)]
pub enum ChunkKind {
    /// The tag is the ASCII bytes of "JSON": the payload is JSON text.
    Json,
    /// The tag is the ASCII bytes of "BIN" and a null byte: opaque binary.
    Binary,
    /// Any other tag.
    Unknown,
}

/// The tag of a JSON chunk: the ASCII bytes of "JSON".
pub open spec fn spec_json_tag() -> Seq<u8> {
    seq![0x4au8, 0x53u8, 0x4fu8, 0x4eu8]
}

/// The tag of a binary chunk: the ASCII bytes of "BIN" and a null byte.
pub open spec fn spec_bin_tag() -> Seq<u8> {
    seq![0x42u8, 0x49u8, 0x4eu8, 0x00u8]
}

/// The kind a tag maps to.
pub open spec fn spec_classify(tag: Seq<u8>) -> ChunkKind {
    if tag == spec_json_tag() {
        ChunkKind::Json
    } else if tag == spec_bin_tag() {
        ChunkKind::Binary
    } else {
        ChunkKind::Unknown
    }
}

/// Classifies a chunk's type tag.
pub fn classify(tag: &Vec<u8>) -> (k: ChunkKind)
    ensures
        k == spec_classify(tag@),
{
    if tag.len() == 4 && tag[0] == 0x4a && tag[1] == 0x53 && tag[2] == 0x4f && tag[3] == 0x4e {
        proof {
            assert(tag@ =~= spec_json_tag());
        }
        ChunkKind::Json
    } else if tag.len() == 4 && tag[0] == 0x42 && tag[1] == 0x49 && tag[2] == 0x4e && tag[3]
        == 0x00 {
        proof {
            assert(tag@ =~= spec_bin_tag());
        }
        ChunkKind::Binary
    } else {
        proof {
            if tag@ == spec_json_tag() {
                assert(tag@.len() == 4 && tag@[0] == 0x4a && tag@[1] == 0x53 && tag@[2] == 0x4f
                    && tag@[3] == 0x4e);
            }
            if tag@ == spec_bin_tag() {
                assert(tag@.len() == 4 && tag@[0] == 0x42 && tag@[1] == 0x49 && tag@[2] == 0x4e
                    && tag@[3] == 0x00);
            }
        }
        ChunkKind::Unknown
    }
}

/// The text of the header block: magic as text, version, declared length.
pub open spec fn header_text(h: Header) -> Seq<char> {
    "  magic: "@ + tag_text(h.magic@) + "\n  version: "@ + dec_str(h.version as nat)
        + "\n  length: "@ + dec_str(h.length as nat) + "\n"@
}

/// Renders the header block.
pub fn render_header(h: &Header) -> (r: String)
    ensures
        r@ == header_text(*h),
{
    let mut out = String::new();
    out.append("  magic: ");
    push_tag_text(&mut out, &h.magic);
    out.append("\n  version: ");
    push_dec(&mut out, h.version as u64);
    out.append("\n  length: ");
    push_dec(&mut out, h.length as u64);
    out.append("\n");
    proof {
        assert(out@ =~= header_text(*h));
    }
    out
}

/// The leading lines of one chunk block: payload length and tag as text.
pub open spec fn chunk_meta_text(c: Chunk) -> Seq<char> {
    "  length: "@ + dec_str(c.length as nat) + "\n  type: "@ + tag_text(c.type_tag@) + "\n"@
}

/// The fixed placeholder for an opaque binary payload.
pub open spec fn binary_note() -> Seq<char> {
    "  data: <binary data>\n"@
}

/// The fixed placeholder for a payload of unrecognized kind.
pub open spec fn unknown_note() -> Seq<char> {
    "  data: <unknown type>\n"@
}

/// The note for a JSON-tagged payload that is not UTF-8 text.
pub open spec fn invalid_utf8_note() -> Seq<char> {
    "  data: <invalid utf-8>\n"@
}

/// The note for a JSON-tagged payload that is not a JSON document.
pub open spec fn malformed_json_note() -> Seq<char> {
    "  data: <malformed json>\n"@
}

/// What the text of one chunk block must be.  A binary or unknown payload is
/// never decoded: its block is the meta lines and the fixed placeholder,
/// whatever the payload holds.  A JSON payload is pretty-printed when it is
/// UTF-8 and well-formed, and otherwise yields the matching note; a content
/// failure stays local to the one block.
pub open spec fn chunk_text_ok(c: Chunk, out: Seq<char>) -> bool {
    match spec_classify(c.type_tag@) {
        ChunkKind::Json => if !valid_utf8(c.data@) {
            out == chunk_meta_text(c) + invalid_utf8_note()
        } else if !json_bytes_ok(c.data@) {
            out == chunk_meta_text(c) + malformed_json_note()
        } else {
            out == chunk_meta_text(c) + json_pretty_of(c.data@) + "\n"@
        },
        ChunkKind::Binary => out == chunk_meta_text(c) + binary_note(),
        ChunkKind::Unknown => out == chunk_meta_text(c) + unknown_note(),
    }
}

/// A chunk tagged as binary always renders the fixed placeholder, regardless
/// of what its payload holds.
pub proof fn lemma_binary_renders_placeholder(c: Chunk, out: Seq<char>)
    requires
        c.type_tag@ == spec_bin_tag(),
        chunk_text_ok(c, out),
    ensures
        out == chunk_meta_text(c) + binary_note(),
{
    assert(spec_bin_tag() != spec_json_tag());
}

/// Renders one chunk block.
pub fn render_chunk(c: &Chunk) -> (r: String)
    ensures
        chunk_text_ok(*c, r@),
{
    let mut out = String::new();
    out.append("  length: ");
    push_dec(&mut out, c.length as u64);
    out.append("\n  type: ");
    push_tag_text(&mut out, &c.type_tag);
    out.append("\n");
    proof {
        assert(out@ =~= chunk_meta_text(*c));
    }
    match classify(&c.type_tag) {
        ChunkKind::Json => {
            match render_json_payload(c.data.as_slice()) {
                Ok(p) => {
                    out.append(p.as_str());
                    out.append("\n");
                    proof {
                        assert(out@ =~= chunk_meta_text(*c) + json_pretty_of(c.data@) + "\n"@);
                    }
                },
                Err(RenderError::InvalidUtf8) => {
                    out.append("  data: <invalid utf-8>\n");
                },
                Err(RenderError::MalformedJson) => {
                    out.append("  data: <malformed json>\n");
                },
            }
        },
        ChunkKind::Binary => {
            out.append("  data: <binary data>\n");
        },
        ChunkKind::Unknown => {
            out.append("  data: <unknown type>\n");
        },
    }
    out
}

/// The opening text of the dump: the header block and the chunk count.
pub open spec fn dump_header_text(c: Container) -> Seq<char> {
    "header:\n"@ + header_text(c.header) + "chunks: "@ + dec_str(c.chunks@.len()) + "\n"@
}

/// The index label above one chunk block.
pub open spec fn chunk_label(i: nat) -> Seq<char> {
    "chunk"@ + dec_str(i) + ":\n"@
}

/// The labelled chunk blocks from index `i` on, one block text per chunk.
pub open spec fn blocks_text(parts: Seq<Seq<char>>, i: int) -> Seq<char>
    decreases parts.len() - i,
{
    if i >= parts.len() {
        Seq::empty()
    } else {
        chunk_label(i as nat) + parts[i] + blocks_text(parts, i + 1)
    }
}

/// Appending one more block extends the text at its end.
proof fn lemma_blocks_text_push(parts: Seq<Seq<char>>, p: Seq<char>, i: int)
    requires
        0 <= i <= parts.len(),
    ensures
        blocks_text(parts.push(p), i) == blocks_text(parts, i) + chunk_label(parts.len() as nat)
            + p,
    decreases parts.len() - i,
{
    if i == parts.len() {
        assert(blocks_text(parts.push(p), i + 1) =~= Seq::empty());
        assert(blocks_text(parts.push(p), i) =~= blocks_text(parts, i) + chunk_label(
            parts.len() as nat,
        ) + p);
    } else {
        lemma_blocks_text_push(parts, p, i + 1);
        assert(parts.push(p)[i] == parts[i]);
        assert(blocks_text(parts.push(p), i) =~= blocks_text(parts, i) + chunk_label(
            parts.len() as nat,
        ) + p);
    }
}

/// What the text of a whole dump must be, given the text of each chunk
/// block: the header block, the chunk count, then every chunk block in file
/// order under its index label.
pub open spec fn container_text_ok(c: Container, out: Seq<char>, parts: Seq<Seq<char>>) -> bool {
    &&& parts.len() == c.chunks@.len()
    &&& (forall|i: int| 0 <= i < parts.len() ==> chunk_text_ok(c.chunks@[i], #[trigger] parts[i]))
    &&& out == dump_header_text(c) + blocks_text(parts, 0)
}

/// Renders the whole dump of a parsed container.
pub fn render_container(c: &Container) -> (r: String)
    ensures
        exists|parts: Seq<Seq<char>>| container_text_ok(*c, r@, parts),
{
    let mut out = String::new();
    out.append("header:\n");
    let h = render_header(&c.header);
    out.append(h.as_str());
    out.append("chunks: ");
    push_dec(&mut out, c.chunks.len() as u64);
    out.append("\n");
    let ghost mut parts: Seq<Seq<char>> = Seq::empty();
    proof {
        assert(out@ =~= dump_header_text(*c) + blocks_text(parts, 0));
    }
    let mut i: usize = 0;
    while i < c.chunks.len()
        invariant
            0 <= i <= c.chunks@.len(),
            parts.len() == i,
            forall|j: int| 0 <= j < i ==> chunk_text_ok(c.chunks@[j], #[trigger] parts[j]),
            out@ == dump_header_text(*c) + blocks_text(parts, 0),
        decreases c.chunks@.len() - i,
    {
        out.append("chunk");
        push_dec(&mut out, i as u64);
        out.append(":\n");
        let t = render_chunk(&c.chunks[i]);
        out.append(t.as_str());
        proof {
            lemma_blocks_text_push(parts, t@, 0);
            parts = parts.push(t@);
            assert(out@ =~= dump_header_text(*c) + blocks_text(parts, 0));
        }
        i = i + 1;
    }
    proof {
        assert(container_text_ok(*c, out@, parts));
    }
    out
}

} // verus!

//! The binary container: a 12-byte header (magic, version, total length)
//! followed by length-prefixed, type-tagged chunks until the buffer is
//! exhausted.  The spec functions here are the mathematical model of the
//! format; `parse` is proved to produce exactly the container that the model
//! assigns to the input bytes, and to reject exactly the malformed inputs.

use vstd::prelude::*;

use crate::le::{lemma_le32_bounds, lemma_le32_to_bytes, read_u32_le, spec_le32, spec_le32_bytes};

verus! {

/// Why a parse was rejected.
#[derive(Debug, Clone, Copy, PartialEq, Eq, Structural)]
pub enum ParseError {
    /// The first four bytes are not the magic constant.
    BadMagic,
    /// Fewer bytes remain than a field or a chunk declares.
    TruncatedInput,
    /// A chunk mid-sequence could not be parsed; no partial list is kept.
    ParseFailed,
}

/// The fixed leading structure of a container.
pub struct Header {
    /// Exactly four bytes, required to equal the magic constant.
    pub magic: Vec<u8>,
    /// Format version.
    pub version: u32,
    /// Declared size of the whole container, header included (not validated
    /// against the chunk sizes).
    pub length: u32,
}

/// One length-prefixed, type-tagged segment of the container body.
pub struct Chunk {
    /// Byte count of `data`.
    pub length: u32,
    /// Exactly four bytes classifying the payload.
    pub type_tag: Vec<u8>,
    /// Exactly `length` payload bytes.
    pub data: Vec<u8>,
}

/// One fully parsed container: the header and the chunks in file order.
pub struct Container {
    pub header: Header,
    pub chunks: Vec<Chunk>,
}

/// The magic constant: the ASCII bytes of "glTF".
pub open spec fn spec_magic() -> Seq<u8> {
    seq![0x67u8, 0x6cu8, 0x54u8, 0x46u8]
}

impl Header {
    /// The header invariant: the magic is the magic constant.
    pub open spec fn wf(self) -> bool {
        self.magic@ == spec_magic()
    }
}

impl Chunk {
    /// The chunk invariant: a four-byte tag and exactly `length` data bytes.
    pub open spec fn wf(self) -> bool {
        &&& self.type_tag@.len() == 4
        &&& self.data@.len() == self.length
    }
}

impl Container {
    /// The container invariant: the header and every chunk are well formed.
    pub open spec fn wf(self) -> bool {
        &&& self.header.wf()
        &&& forall|i: int| 0 <= i < self.chunks@.len() ==> #[trigger] self.chunks@[i].wf()
    }
}

/// `h` is the header encoded by the first 12 bytes of `s`.
pub open spec fn header_match(s: Seq<u8>, h: Header) -> bool {
    &&& s.len() >= 12
    &&& h.magic@ == s.subrange(0, 4)
    &&& h.version == spec_le32(s.subrange(4, 8))
    &&& h.length == spec_le32(s.subrange(8, 12))
}

/// `c` is the chunk encoded by a prefix of `s`.
pub open spec fn chunk_match(s: Seq<u8>, c: Chunk) -> bool {
    &&& s.len() >= 8
    &&& c.length == spec_le32(s.subrange(0, 4))
    &&& s.len() >= 8 + c.length
    &&& c.type_tag@ == s.subrange(4, 8)
    &&& c.data@ == s.subrange(8, 8 + c.length as int)
}

/// `cs` is the chunk sequence that encodes exactly all of `s`.
pub open spec fn chunks_match(s: Seq<u8>, cs: Seq<Chunk>) -> bool
    decreases cs.len(),
{
    if cs.len() == 0 {
        s.len() == 0
    } else {
        chunk_match(s, cs[0]) && chunks_match(s.skip(8 + cs[0].length as int), cs.drop_first())
    }
}

/// `s` splits into whole chunks with nothing left over.
pub open spec fn chunks_ok(s: Seq<u8>) -> bool
    decreases s.len(),
{
    if s.len() == 0 {
        true
    } else if s.len() < 8 {
        false
    } else if s.len() < 8 + spec_le32(s.subrange(0, 4)) {
        false
    } else {
        chunks_ok(s.skip(8 + spec_le32(s.subrange(0, 4))))
    }
}

/// The bytes that a header writes back out.
pub open spec fn header_bytes(h: Header) -> Seq<u8> {
    h.magic@ + spec_le32_bytes(h.version) + spec_le32_bytes(h.length)
}

/// The bytes that a chunk writes back out.
pub open spec fn chunk_bytes(c: Chunk) -> Seq<u8> {
    spec_le32_bytes(c.length) + c.type_tag@ + c.data@
}

/// The bytes that a chunk sequence writes back out, in order.
pub open spec fn chunks_bytes(cs: Seq<Chunk>) -> Seq<u8>
    decreases cs.len(),
{
    if cs.len() == 0 {
        Seq::empty()
    } else {
        chunk_bytes(cs[0]) + chunks_bytes(cs.drop_first())
    }
}

/// The bytes that a whole container writes back out.
pub open spec fn container_bytes(c: Container) -> Seq<u8> {
    header_bytes(c.header) + chunks_bytes(c.chunks@)
}

/// A matching header writes back exactly the first 12 bytes it was read from.
pub proof fn lemma_header_match_bytes(s: Seq<u8>, h: Header)
    requires
        header_match(s, h),
    ensures
        header_bytes(h) == s.subrange(0, 12),
{
    lemma_le32_bounds(s.subrange(4, 8));
    lemma_le32_bounds(s.subrange(8, 12));
    lemma_le32_to_bytes(s.subrange(4, 8));
    lemma_le32_to_bytes(s.subrange(8, 12));
    assert(header_bytes(h) =~= s.subrange(0, 12));
}

/// A matching chunk writes back exactly the prefix it was read from.
pub proof fn lemma_chunk_match_bytes(s: Seq<u8>, c: Chunk)
    requires
        chunk_match(s, c),
    ensures
        chunk_bytes(c) == s.subrange(0, 8 + c.length as int),
{
    lemma_le32_bounds(s.subrange(0, 4));
    lemma_le32_to_bytes(s.subrange(0, 4));
    assert(chunk_bytes(c) =~= s.subrange(0, 8 + c.length as int));
}

/// A matching chunk still matches the exact region it occupies.
proof fn lemma_chunk_match_take(s: Seq<u8>, c: Chunk)
    requires
        chunk_match(s, c),
    ensures
        chunk_match(s.take(8 + c.length as int), c),
{
    let t = s.take(8 + c.length as int);
    assert(t.subrange(0, 4) =~= s.subrange(0, 4));
    assert(t.subrange(4, 8) =~= s.subrange(4, 8));
    assert(t.subrange(8, 8 + c.length as int) =~= s.subrange(8, 8 + c.length as int));
}

/// A matching chunk sequence writes back exactly the bytes it was read from.
pub proof fn lemma_chunks_match_bytes(s: Seq<u8>, cs: Seq<Chunk>)
    requires
        chunks_match(s, cs),
    ensures
        chunks_bytes(cs) == s,
    decreases cs.len(),
{
    if cs.len() == 0 {
        assert(chunks_bytes(cs) =~= s);
    } else {
        let k = 8 + cs[0].length as int;
        lemma_chunk_match_bytes(s, cs[0]);
        lemma_chunks_match_bytes(s.skip(k), cs.drop_first());
        assert(chunks_bytes(cs) =~= s);
    }
}

/// Reassembling a parsed container's header and chunks reproduces the input
/// bytes, byte for byte.
pub proof fn lemma_container_match_bytes(s: Seq<u8>, c: Container)
    requires
        header_match(s, c.header),
        chunks_match(s.skip(12), c.chunks@),
    ensures
        container_bytes(c) == s,
{
    lemma_header_match_bytes(s, c.header);
    lemma_chunks_match_bytes(s.skip(12), c.chunks@);
    assert(container_bytes(c) =~= s);
}

/// Appending a chunk that matches the next region extends a matching
/// sequence.
proof fn lemma_chunks_match_snoc(u: Seq<u8>, t: Seq<u8>, cs: Seq<Chunk>, c: Chunk)
    requires
        chunks_match(u, cs),
        chunk_match(t, c),
        t.len() == 8 + c.length,
    ensures
        chunks_match(u + t, cs.push(c)),
    decreases cs.len(),
{
    if cs.len() == 0 {
        assert(u + t =~= t);
        assert(cs.push(c)[0] == c);
        assert(cs.push(c).drop_first() =~= Seq::<Chunk>::empty());
        assert((u + t).skip(8 + c.length as int).len() == 0);
        assert(chunks_match((u + t).skip(8 + c.length as int), cs.push(c).drop_first()));
        assert(chunks_match(u + t, cs.push(c)));
    } else {
        let k = 8 + cs[0].length as int;
        assert((u + t).subrange(0, 4) =~= u.subrange(0, 4));
        assert((u + t).subrange(4, 8) =~= u.subrange(4, 8));
        assert((u + t).subrange(8, k) =~= u.subrange(8, k));
        assert(chunk_match(u + t, cs[0]));
        lemma_chunks_match_snoc(u.skip(k), t, cs.drop_first(), c);
        assert((u + t).skip(k) =~= u.skip(k) + t);
        assert(cs.push(c).drop_first() =~= cs.drop_first().push(c));
        assert(cs.push(c)[0] == cs[0]);
        assert(chunks_match((u + t).skip(k), cs.push(c).drop_first()));
        assert(chunks_match(u + t, cs.push(c)));
    }
}

/// Bytes already consumed as whole chunks do not affect whether the rest
/// splits into whole chunks.
proof fn lemma_chunks_ok_decompose(u: Seq<u8>, t: Seq<u8>, cs: Seq<Chunk>)
    requires
        chunks_match(u, cs),
    ensures
        chunks_ok(u + t) <==> chunks_ok(t),
    decreases cs.len(),
{
    if cs.len() == 0 {
        assert(u + t =~= t);
    } else {
        let k = 8 + cs[0].length as int;
        assert((u + t).subrange(0, 4) =~= u.subrange(0, 4));
        lemma_chunks_ok_decompose(u.skip(k), t, cs.drop_first());
        assert((u + t).skip(k) =~= u.skip(k) + t);
    }
}

/// A header-only buffer has a valid, empty chunk region, and any chunk list
/// parsed from it is empty.
pub proof fn lemma_header_only(s: Seq<u8>, cs: Seq<Chunk>)
    requires
        s.len() == 12,
        chunks_match(s.skip(12), cs),
    ensures
        chunks_ok(s.skip(12)),
        cs.len() == 0,
{
    assert(s.skip(12).len() == 0);
}

/// Decodes the fixed 12-byte header at the start of `data`.
pub fn parse_header(data: &[u8]) -> (r: Result<Header, ParseError>)
    ensures
        match r {
            Ok(h) => {
                &&& data@.len() >= 12
                &&& data@.subrange(0, 4) == spec_magic()
                &&& h.wf()
                &&& header_match(data@, h)
            },
            Err(ParseError::BadMagic) => data@.len() >= 4 && data@.subrange(0, 4) != spec_magic(),
            Err(ParseError::TruncatedInput) => data@.len() < 4 || (data@.subrange(0, 4)
                == spec_magic() && data@.len() < 12),
            Err(ParseError::ParseFailed) => false,
        },
{
    if data.len() < 4 {
        return Err(ParseError::TruncatedInput);
    }
    if data[0] != 0x67 || data[1] != 0x6c || data[2] != 0x54 || data[3] != 0x46 {
        proof {
            assert(data@.subrange(0, 4)[0] == data@[0] && data@.subrange(0, 4)[1] == data@[1]
                && data@.subrange(0, 4)[2] == data@[2] && data@.subrange(0, 4)[3] == data@[3]);
        }
        return Err(ParseError::BadMagic);
    }
    proof {
        assert(data@.subrange(0, 4) =~= spec_magic());
    }
    if data.len() < 12 {
        return Err(ParseError::TruncatedInput);
    }
    let magic = vstd::slice::slice_to_vec(vstd::slice::slice_subrange(data, 0, 4));
    let version = read_u32_le(data, 4);
    let length = read_u32_le(data, 8);
    Ok(Header { magic, version, length })
}

/// Decodes the chunk that starts at `pos`.
pub fn parse_chunk(data: &[u8], pos: usize) -> (r: Result<Chunk, ParseError>)
    requires
        pos <= data@.len(),
    ensures
        match r {
            Ok(c) => c.wf() && chunk_match(data@.skip(pos as int), c),
            Err(ParseError::TruncatedInput) => {
                let s = data@.skip(pos as int);
                s.len() < 8 || s.len() < 8 + spec_le32(s.subrange(0, 4))
            },
            Err(ParseError::BadMagic) => false,
            Err(ParseError::ParseFailed) => false,
        },
{
    let ghost s = data@.skip(pos as int);
    let remaining = data.len() - pos;
    if remaining < 8 {
        return Err(ParseError::TruncatedInput);
    }
    let length = read_u32_le(data, pos);
    proof {
        assert(s.subrange(0, 4) =~= data@.subrange(pos as int, pos as int + 4));
    }
    if remaining - 8 < length as usize {
        return Err(ParseError::TruncatedInput);
    }
    let type_tag = vstd::slice::slice_to_vec(
        vstd::slice::slice_subrange(data, pos + 4, pos + 8),
    );
    let chunk_data = vstd::slice::slice_to_vec(
        vstd::slice::slice_subrange(data, pos + 8, pos + 8 + length as usize),
    );
    proof {
        assert(type_tag@ =~= s.subrange(4, 8));
        assert(chunk_data@ =~= s.subrange(8, 8 + length as int));
    }
    Ok(Chunk { length, type_tag, data: chunk_data })
}

/// Parses one whole container: the header, then chunks until the buffer is
/// exhausted.  All chunks or none: a failure mid-sequence aborts the parse
/// and no partial chunk list is surfaced.
#[verifier::rlimit(50)]
pub fn parse(data: &[u8]) -> (r: Result<Container, ParseError>)
    ensures
        match r {
            Ok(c) => {
                &&& c.wf()
                &&& header_match(data@, c.header)
                &&& chunks_match(data@.skip(12), c.chunks@)
                &&& container_bytes(c) == data@
            },
            Err(ParseError::BadMagic) => data@.len() >= 4 && data@.subrange(0, 4) != spec_magic(),
            Err(ParseError::TruncatedInput) => data@.len() < 4 || (data@.subrange(0, 4)
                == spec_magic() && data@.len() < 12),
            Err(ParseError::ParseFailed) => data@.len() >= 12 && data@.subrange(0, 4)
                == spec_magic() && !chunks_ok(data@.skip(12)),
        },
        data@.len() >= 12 && data@.subrange(0, 4) == spec_magic() && chunks_ok(data@.skip(12))
            ==> r is Ok,
        data@.len() < 12 && (data@.len() < 4 || data@.subrange(0, 4) == spec_magic()) ==> r == Err::<
            Container,
            ParseError,
        >(ParseError::TruncatedInput),
        data@.len() >= 4 && data@.subrange(0, 4) != spec_magic() ==> r == Err::<
            Container,
            ParseError,
        >(ParseError::BadMagic),
        data@.len() >= 12 && data@.subrange(0, 4) == spec_magic() && !chunks_ok(data@.skip(12))
            ==> r == Err::<Container, ParseError>(ParseError::ParseFailed),
{
    let header = match parse_header(data) {
        Ok(h) => h,
        Err(e) => {
            return Err(e);
        },
    };
    let mut chunks: Vec<Chunk> = Vec::new();
    let mut pos: usize = 12;
    while pos < data.len()
        invariant
            12 <= pos <= data@.len(),
            header.wf(),
            header_match(data@, header),
            chunks_match(data@.subrange(12, pos as int), chunks@),
            forall|i: int| 0 <= i < chunks@.len() ==> #[trigger] chunks@[i].wf(),
        decreases data@.len() - pos,
    {
        let c = match parse_chunk(data, pos) {
            Ok(c) => c,
            Err(_) => {
                proof {
                    lemma_chunks_ok_decompose(
                        data@.subrange(12, pos as int),
                        data@.skip(pos as int),
                        chunks@,
                    );
                    assert(data@.subrange(12, pos as int) + data@.skip(pos as int) =~= data@.skip(
                        12,
                    ));
                }
                return Err(ParseError::ParseFailed);
            },
        };
        let ghost prevpos = pos as int;
        pos = pos + 8 + (c.length as usize);
        proof {
            lemma_chunk_match_take(data@.skip(prevpos), c);
            assert(data@.skip(prevpos).take(8 + c.length as int) =~= data@.subrange(
                prevpos,
                pos as int,
            ));
            lemma_chunks_match_snoc(
                data@.subrange(12, prevpos),
                data@.subrange(prevpos, pos as int),
                chunks@,
                c,
            );
            assert(data@.subrange(12, prevpos) + data@.subrange(prevpos, pos as int)
                =~= data@.subrange(12, pos as int));
        }
        chunks.push(c);
    }
    proof {
        assert(data@.subrange(12, data@.len() as int) =~= data@.skip(12));
        lemma_chunks_ok_decompose(data@.skip(12), Seq::empty(), chunks@);
        assert(data@.skip(12) + Seq::<u8>::empty() =~= data@.skip(12));
        assert(chunks_ok(Seq::<u8>::empty()));
    }
    let container = Container { header, chunks };
    proof {
        lemma_container_match_bytes(data@, container);
    }
    Ok(container)
}

} // verus!

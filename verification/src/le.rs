//! Little-endian 32-bit integers: the mathematical value of four bytes, the
//! four bytes of a value, proofs that the two are inverse, and the executable
//! reader.

use vstd::prelude::*;

verus! {

/// The value of four bytes read as an unsigned little-endian 32-bit integer.
pub open spec fn spec_le32(s: Seq<u8>) -> int
    recommends
        s.len() == 4,
{
    s[0] + 0x100 * s[1] + 0x1_0000 * s[2] + 0x100_0000 * s[3]
}

/// The four little-endian bytes of an unsigned 32-bit value.
pub open spec fn spec_le32_bytes(n: u32) -> Seq<u8> {
    seq![
        (n % 0x100) as u8,
        ((n / 0x100) % 0x100) as u8,
        ((n / 0x1_0000) % 0x100) as u8,
        ((n / 0x100_0000) % 0x100) as u8,
    ]
}

/// Four bytes always encode a value that fits in 32 bits.
pub proof fn lemma_le32_bounds(s: Seq<u8>)
    requires
        s.len() == 4,
    ensures
        0 <= spec_le32(s) < 0x1_0000_0000,
{
}

/// Reading four bytes and encoding the value back yields the same four bytes.
pub proof fn lemma_le32_to_bytes(s: Seq<u8>)
    requires
        s.len() == 4,
    ensures
        spec_le32_bytes(spec_le32(s) as u32) =~= s,
{
    let b0 = s[0];
    let b1 = s[1];
    let b2 = s[2];
    let b3 = s[3];
    let n = (b0 + 0x100 * b1 + 0x1_0000 * b2 + 0x100_0000 * b3) as u32;
    assert(n % 0x100 == b0 && (n / 0x100) % 0x100 == b1 && (n / 0x1_0000) % 0x100 == b2 && (n
        / 0x100_0000) % 0x100 == b3) by (bit_vector)
        requires
            n == b0 + 0x100 * b1 + 0x1_0000 * b2 + 0x100_0000 * b3,
    ;
}

/// Reads the unsigned little-endian 32-bit integer at `pos`.
pub fn read_u32_le(data: &[u8], pos: usize) -> (r: u32)
    requires
        pos + 4 <= data@.len(),
    ensures
        r == spec_le32(data@.subrange(pos as int, pos as int + 4)),
{
    let b0 = data[pos] as u32;
    let b1 = data[pos + 1] as u32;
    let b2 = data[pos + 2] as u32;
    let b3 = data[pos + 3] as u32;
    let r = b0 + 0x100 * b1 + 0x1_0000 * b2 + 0x100_0000 * b3;
    proof {
        let s = data@.subrange(pos as int, pos as int + 4);
        assert(s[0] == data@[pos as int] && s[1] == data@[pos as int + 1] && s[2] == data@[pos as int
            + 2] && s[3] == data@[pos as int + 3]);
    }
    r
}

} // verus!

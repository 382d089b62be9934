//! BLAKE3 digests of token blocks, chained over the prefix.
use vstd::prelude::*;

verus! {

/// The BLAKE3 digest of a byte string (32 bytes).
pub uninterp spec fn blake3_digest(input: Seq<u8>) -> Seq<u8>;

/// Calls `blake3::hash`, which hashes the whole input at once. The
/// crate documents it as equal to feeding the same bytes to
/// `Hasher::update` in pieces and finalizing. Claimed: the result is
/// the digest of `input`, and nothing else (the function is pure).
#[verifier::external_body]
fn blake3_hash(input: &[u8]) -> (out: [u8; 32])
    ensures
        out@ == blake3_digest(input@),
{
    *blake3::hash(input).as_bytes()
}

/// Little-endian bytes of a token id.
pub open spec fn u32_le_bytes(t: u32) -> Seq<u8> {
    seq![
        (t % 256) as u8,
        ((t / 256) % 256) as u8,
        ((t / 65536) % 256) as u8,
        (t / 16777216) as u8,
    ]
}

/// Little-endian bytes of a sequence of token ids, concatenated.
pub open spec fn tokens_le_bytes(tokens: Seq<u32>) -> Seq<u8>
    decreases tokens.len(),
{
    if tokens.len() == 0 {
        Seq::empty()
    } else {
        tokens_le_bytes(tokens.drop_last()) + u32_le_bytes(tokens.last())
    }
}

/// The bytes hashed for one block: the parent digest (if any) followed
/// by the block's tokens in little-endian order.
pub open spec fn block_input(parent: Option<Seq<u8>>, block: Seq<u32>) -> Seq<u8> {
    match parent {
        Some(p) => p + tokens_le_bytes(block),
        None => tokens_le_bytes(block),
    }
}

/// Digest of one block chained onto its parent digest.
pub open spec fn chained_digest(parent: Option<Seq<u8>>, block: Seq<u32>) -> Seq<u8> {
    blake3_digest(block_input(parent, block))
}

/// Hashes one block of tokens onto its parent digest.
pub fn hash_block(parent: Option<&[u8; 32]>, tokens: &[u32]) -> (out: [u8; 32])
    ensures
        out@ == chained_digest(
            match parent {
                Some(p) => Some(p@),
                None => None,
            },
            tokens@,
        ),
{
    let mut buf: Vec<u8> = Vec::new();
    match parent {
        Some(p) => {
            let mut j: usize = 0;
            while j < 32
                invariant
                    j <= 32,
                    buf@ == p@.take(j as int),
                decreases 32 - j,
            {
                buf.push(p[j]);
                j = j + 1;
                assert(buf@ == p@.take(j as int));
            }
            assert(p@.take(32) == p@);
        },
        None => {},
    }
    let ghost start = buf@;
    let mut i: usize = 0;
    while i < tokens.len()
        invariant
            i <= tokens.len(),
            buf@ == start + tokens_le_bytes(tokens@.take(i as int)),
        decreases tokens.len() - i,
    {
        let t = tokens[i];
        buf.push((t % 256) as u8);
        buf.push(((t / 256) % 256) as u8);
        buf.push(((t / 65536) % 256) as u8);
        buf.push((t / 16777216) as u8);
        proof {
            assert(tokens@.take(i + 1).drop_last() == tokens@.take(i as int));
        }
        i = i + 1;
        assert(buf@ == start + tokens_le_bytes(tokens@.take(i as int)));
    }
    assert(tokens@.take(tokens.len() as int) == tokens@);
    blake3_hash(buf.as_slice())
}

} // verus!

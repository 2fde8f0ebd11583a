//! The BLTE container codec: unwraps one archive payload into plaintext.
//!
//! A container is a 4-byte magic, a 32-bit header size, an optional chunk
//! table (compressed size, decompressed size, 16-byte integrity hash per
//! chunk) and the chunk payloads. Each chunk starts with a type tag:
//! `N` raw, `Z` deflate, `E` encrypted wrapper, `F` reserved (rejected).
//! The decoder is proved equal to the spec-level model [`spec_parse_blte`].

use vstd::prelude::*;

use crate::bytes::{be32_at, le32_at, le64_at, zeros};
use salsa20::cipher::consts::U10;
use salsa20::cipher::{StreamCipher, StreamCipherCoreWrapper};
use crate::errors::CascError;
use crate::keysvc::KeyService;
use crate::text::slice_to_vec;

verus! {

/// Chunk recursion bound: an encrypted chunk may wrap one nested chunk, and
/// observed data never nests further; anything deeper is rejected.
pub const MAX_CHUNK_DEPTH: u32 = 2;

/// One entry of the chunk table.
pub struct BlteChunk {
    pub compressed_size: u32,
    pub decompressed_size: u32,
    pub checksum: [u8; 16],
}

/// The fixed leading fields of a container.
pub struct BlteHeader {
    pub magic: [u8; 4],
    pub header_size: u32,
}

/// A container's parsed shape: its header and its chunk table.
pub struct BlteFile {
    pub header: BlteHeader,
    pub chunks: Vec<BlteChunk>,
}

/// What the MD5 digest of a byte string is. Trusted wrappers below relate
/// the outside implementation to this name; nothing else defines it.
pub uninterp spec fn md5_of(s: Seq<u8>) -> Seq<u8>;

/// What raw-deflate decompression of a byte string yields, or nothing when
/// the stream is malformed.
pub uninterp spec fn inflate_of(s: Seq<u8>) -> Option<Seq<u8>>;

/// What XOR-ing a byte string against the Salsa20 keystream of the given
/// initial state yields.
pub uninterp spec fn salsa20_xor(state: Seq<u32>, data: Seq<u8>) -> Seq<u8>;

/// Relies on md5::compute: the 16-byte MD5 digest of the input, a function
/// of the input bytes alone.
#[verifier::external_body]
fn md5_digest(data: &[u8]) -> (r: [u8; 16])
    ensures
        r@ == md5_of(data@),
{
    md5::compute(data).0
}

/// Relies on flate2::read::DeflateDecoder: raw-deflate decompression, a
/// function of the input bytes alone; `None` when the stream is malformed.
#[verifier::external_body]
fn inflate(data: &[u8]) -> (r: Option<Vec<u8>>)
    ensures
        match r {
            Some(v) => inflate_of(data@) == Some(v@),
            None => inflate_of(data@) is None,
        },
{
    let mut out = Vec::new();
    let mut decoder = flate2::read::DeflateDecoder::new(data);
    match std::io::Read::read_to_end(&mut decoder, &mut out) {
        Ok(_) => Some(out),
        Err(_) => None,
    }
}

/// Relies on salsa20::SalsaCore::from_raw_state and
/// cipher::StreamCipher::apply_keystream: XORs the data against the Salsa20
/// keystream of the given raw state, in place, so the length is kept. The
/// raw state is installed verbatim and words 8 and 9 are the block
/// counter; `apply_keystream` panics when the remaining keystream cannot
/// cover the buffer, so the counter must start at zero, where the
/// remaining keystream exceeds any slice.
#[verifier::external_body]
fn salsa20_apply(state: [u32; 16], data: &[u8]) -> (r: Vec<u8>)
    requires
        state@[8] == 0,
        state@[9] == 0,
    ensures
        r@ == salsa20_xor(state@, data@),
        r@.len() == data@.len(),
{
    let core = salsa20::SalsaCore::<U10>::from_raw_state(state);
    let mut cipher = StreamCipherCoreWrapper::from_core(core);
    let mut out = data.to_vec();
    cipher.apply_keystream(&mut out);
    out
}

/// The Salsa20 initial state for a 128-bit key: the "expand 16-byte k"
/// constants, the key words twice, the 8-byte nonce, and a zero counter.
pub open spec fn spec_salsa_state(key: Seq<u8>, nonce: Seq<u8>) -> Seq<u32> {
    seq![
        0x6170_7865u32,
        le32_at(key, 0),
        le32_at(key, 4),
        le32_at(key, 8),
        le32_at(key, 12),
        0x3120_646eu32,
        le32_at(nonce, 0),
        le32_at(nonce, 4),
        0u32,
        0u32,
        0x7962_2d36u32,
        le32_at(key, 0),
        le32_at(key, 4),
        le32_at(key, 8),
        le32_at(key, 12),
        0x6b20_6574u32,
    ]
}

/// Decrypts with the Salsa20 stream cipher under a 128-bit key.
pub fn salsa20_decrypt_128(key: &[u8; 16], nonce: &[u8; 8], data: &[u8]) -> (r: Vec<u8>)
    ensures
        r@ == salsa20_xor(spec_salsa_state(key@, nonce@), data@),
        r@.len() == data@.len(),
{
    let k0 = key[0] as u32 + key[1] as u32 * 0x100 + key[2] as u32 * 0x1_0000 + key[3] as u32
        * 0x100_0000;
    let k1 = key[4] as u32 + key[5] as u32 * 0x100 + key[6] as u32 * 0x1_0000 + key[7] as u32
        * 0x100_0000;
    let k2 = key[8] as u32 + key[9] as u32 * 0x100 + key[10] as u32 * 0x1_0000 + key[11] as u32
        * 0x100_0000;
    let k3 = key[12] as u32 + key[13] as u32 * 0x100 + key[14] as u32 * 0x1_0000 + key[15] as u32
        * 0x100_0000;
    let n0 = nonce[0] as u32 + nonce[1] as u32 * 0x100 + nonce[2] as u32 * 0x1_0000
        + nonce[3] as u32 * 0x100_0000;
    let n1 = nonce[4] as u32 + nonce[5] as u32 * 0x100 + nonce[6] as u32 * 0x1_0000
        + nonce[7] as u32 * 0x100_0000;
    let state: [u32; 16] = [
        0x6170_7865,
        k0,
        k1,
        k2,
        k3,
        0x3120_646e,
        n0,
        n1,
        0,
        0,
        0x7962_2d36,
        k0,
        k1,
        k2,
        k3,
        0x6b20_6574,
    ];
    proof {
        assert(state@ =~= spec_salsa_state(key@, nonce@));
        assert(state@[8] == 0 && state@[9] == 0);
    }
    salsa20_apply(state, data)
}

/// The recognized chunk type tags.
pub open spec fn is_block_tag(b: u8) -> bool {
    b == 0x4e || b == 0x5a || b == 0x45 || b == 0x46
}

/// An 8-byte nonce: the declared IV, zero-extended, its first four bytes
/// XOR-ed with the little-endian chunk index.
pub open spec fn spec_chunk_nonce(iv: Seq<u8>, index: nat) -> Seq<u8> {
    let padded = if iv.len() >= 8 {
        iv.take(8)
    } else {
        iv + zeros((8 - iv.len()) as nat)
    };
    seq![
        padded[0] ^ ((index % 0x100) as u8),
        padded[1] ^ (((index / 0x100) % 0x100) as u8),
        padded[2] ^ (((index / 0x1_0000) % 0x100) as u8),
        padded[3] ^ (((index / 0x100_0000) % 0x100) as u8),
        padded[4],
        padded[5],
        padded[6],
        padded[7],
    ]
}

/// What decoding one chunk yields: the chunk's bytes after its type tag,
/// interpreted per the tag, bounded by `depth` levels of nesting.
pub open spec fn spec_handle_block(
    block: Seq<u8>,
    index: nat,
    expected: nat,
    keys: Map<u64, Seq<u8>>,
    strict: bool,
    depth: nat,
) -> Result<Seq<u8>, CascError>
    decreases depth, 1int,
{
    if block.len() == 0 {
        Err(CascError::InvalidBlte)
    } else if block[0] == 0x4e {
        if block.len() - 1 == expected {
            Ok(block.skip(1))
        } else {
            Err(CascError::InvalidBlte)
        }
    } else if block[0] == 0x5a {
        if block.len() < 3 {
            Err(CascError::InvalidBlte)
        } else {
            match inflate_of(block.skip(3)) {
                Some(s) => if s.len() == expected {
                    Ok(s)
                } else {
                    Err(CascError::InvalidBlte)
                },
                None => Err(CascError::InvalidBlte),
            }
        }
    } else if block[0] == 0x45 {
        spec_decrypt_block(block.skip(1), index, expected, keys, strict, depth)
    } else {
        Err(CascError::InvalidBlte)
    }
}

/// What decoding an encrypted chunk's payload yields: key-name and IV
/// parsing, per-chunk nonce derivation, then either Salsa20 decryption and
/// one nested decode, or the documented missing-key fallback.
pub open spec fn spec_decrypt_block(
    data: Seq<u8>,
    index: nat,
    expected: nat,
    keys: Map<u64, Seq<u8>>,
    strict: bool,
    depth: nat,
) -> Result<Seq<u8>, CascError>
    decreases depth, 0int,
{
    if data.len() < 14 {
        Err(CascError::InvalidBlte)
    } else if data[0] != 8 {
        Err(CascError::InvalidBlte)
    } else {
        let key_name = le64_at(data, 1);
        let iv_size = data[9];
        if iv_size != 4 && iv_size != 8 {
            Err(CascError::InvalidBlte)
        } else if data.len() < 11 + iv_size {
            Err(CascError::InvalidBlte)
        } else {
            let nonce = spec_chunk_nonce(data.subrange(10, 10 + iv_size), index);
            let enc_type = data[10 + iv_size];
            if enc_type != 0x53 && enc_type != 0x41 {
                Err(CascError::InvalidBlte)
            } else {
                let body = data.skip(11 + iv_size);
                if !keys.contains_key(key_name) {
                    let nested = if body.len() > 0 && is_block_tag(body[0]) && depth > 0 {
                        spec_handle_block(body, index, expected, keys, strict, (depth - 1) as nat)
                    } else {
                        Err(CascError::InvalidBlte)
                    };
                    match nested {
                        Ok(s) => Ok(s),
                        Err(_) => if strict {
                            Err(CascError::MissingDecryptionKey(key_name))
                        } else {
                            Ok(zeros(expected))
                        },
                    }
                } else if enc_type == 0x41 {
                    Err(CascError::InvalidBlte)
                } else {
                    let decrypted = salsa20_xor(spec_salsa_state(keys[key_name], nonce), body);
                    if decrypted.len() == 0 || !is_block_tag(decrypted[0]) {
                        if decrypted.len() == expected {
                            Ok(decrypted)
                        } else {
                            Err(CascError::InvalidBlte)
                        }
                    } else if depth == 0 {
                        Err(CascError::InvalidBlte)
                    } else {
                        spec_handle_block(decrypted, index, expected, keys, strict, (depth - 1) as nat)
                    }
                }
            }
        }
    }
}

/// A successfully decoded chunk always has its declared decompressed size.
pub proof fn lemma_handle_block_len(
    block: Seq<u8>,
    index: nat,
    expected: nat,
    keys: Map<u64, Seq<u8>>,
    strict: bool,
    depth: nat,
)
    ensures
        spec_handle_block(block, index, expected, keys, strict, depth) matches Ok(s) ==> s.len()
            == expected,
    decreases depth, 1int,
{
    if block.len() > 0 && block[0] == 0x45 {
        lemma_decrypt_block_len(block.skip(1), index, expected, keys, strict, depth);
    }
}

pub proof fn lemma_decrypt_block_len(
    data: Seq<u8>,
    index: nat,
    expected: nat,
    keys: Map<u64, Seq<u8>>,
    strict: bool,
    depth: nat,
)
    ensures
        spec_decrypt_block(data, index, expected, keys, strict, depth) matches Ok(s) ==> s.len()
            == expected,
    decreases depth, 0int,
{
    if data.len() >= 14 && data[0] == 8 {
        let iv_size = data[9];
        if (iv_size == 4 || iv_size == 8) && data.len() >= 11 + iv_size {
            let body = data.skip(11 + iv_size);
            if depth > 0 {
                lemma_handle_block_len(body, index, expected, keys, strict, (depth - 1) as nat);
                let key_name = le64_at(data, 1);
                if keys.contains_key(key_name) {
                    let nonce = spec_chunk_nonce(data.subrange(10, 10 + iv_size), index);
                    let decrypted = salsa20_xor(spec_salsa_state(keys[key_name], nonce), body);
                    lemma_handle_block_len(
                        decrypted,
                        index,
                        expected,
                        keys,
                        strict,
                        (depth - 1) as nat,
                    );
                }
            }
        }
    }
}

/// The key model a decode runs against: the key service's table, or the
/// empty table when none is supplied.
pub open spec fn spec_keys_of(ks: Option<&KeyService>) -> Map<u64, Seq<u8>> {
    match ks {
        Some(k) => k@,
        None => Map::empty(),
    }
}

/// Decodes one chunk (tag byte plus payload) into its plaintext.
pub fn handle_block(
    block: &[u8],
    index: usize,
    expected: usize,
    key_service: Option<&KeyService>,
    strict: bool,
    depth: u32,
) -> (r: Result<Vec<u8>, CascError>)
    ensures
        match r {
            Ok(v) => spec_handle_block(
                block@,
                index as nat,
                expected as nat,
                spec_keys_of(key_service),
                strict,
                depth as nat,
            ) == Ok::<Seq<u8>, CascError>(v@),
            Err(e) => spec_handle_block(
                block@,
                index as nat,
                expected as nat,
                spec_keys_of(key_service),
                strict,
                depth as nat,
            ) == Err::<Seq<u8>, CascError>(e),
        },
    decreases depth, 1int,
{
    if block.len() == 0 {
        return Err(CascError::InvalidBlte);
    }
    let tag = block[0];
    if tag == 0x4e {
        if block.len() - 1 != expected {
            return Err(CascError::InvalidBlte);
        }
        let out = slice_to_vec(block, 1, block.len());
        proof {
            assert(out@ =~= block@.skip(1));
        }
        Ok(out)
    } else if tag == 0x5a {
        if block.len() < 3 {
            return Err(CascError::InvalidBlte);
        }
        let payload = &block[3..block.len()];
        proof {
            assert(payload@ =~= block@.skip(3));
        }
        match inflate(payload) {
            Some(v) => {
                if v.len() != expected {
                    return Err(CascError::InvalidBlte);
                }
                Ok(v)
            },
            None => Err(CascError::InvalidBlte),
        }
    } else if tag == 0x45 {
        let payload = &block[1..block.len()];
        proof {
            assert(payload@ =~= block@.skip(1));
        }
        decrypt_and_handle(payload, index, expected, key_service, strict, depth)
    } else {
        Err(CascError::InvalidBlte)
    }
}

/// Decodes the payload of an encrypted (`E`) chunk.
pub fn decrypt_and_handle(
    data: &[u8],
    index: usize,
    expected: usize,
    key_service: Option<&KeyService>,
    strict: bool,
    depth: u32,
) -> (r: Result<Vec<u8>, CascError>)
    ensures
        match r {
            Ok(v) => spec_decrypt_block(
                data@,
                index as nat,
                expected as nat,
                spec_keys_of(key_service),
                strict,
                depth as nat,
            ) == Ok::<Seq<u8>, CascError>(v@),
            Err(e) => spec_decrypt_block(
                data@,
                index as nat,
                expected as nat,
                spec_keys_of(key_service),
                strict,
                depth as nat,
            ) == Err::<Seq<u8>, CascError>(e),
        },
    decreases depth, 0int,
{
    if data.len() < 14 {
        return Err(CascError::InvalidBlte);
    }
    if data[0] != 8 {
        return Err(CascError::InvalidBlte);
    }
    let key_name = match crate::bytes::read_u64_le(data, 1) {
        Some(v) => v,
        None => {
            return Err(CascError::InvalidBlte);
        },
    };
    let iv_size = data[9];
    if iv_size != 4 && iv_size != 8 {
        return Err(CascError::InvalidBlte);
    }
    let iv_size_us = iv_size as usize;
    if data.len() < 11 + iv_size_us {
        return Err(CascError::InvalidBlte);
    }
    let enc_type = data[10 + iv_size_us];
    if enc_type != 0x53 && enc_type != 0x41 {
        return Err(CascError::InvalidBlte);
    }
    // Zero-extend the IV to 8 bytes and fold the chunk index into its first
    // four bytes, little endian.
    let b0 = (index % 0x100) as u8;
    let b1 = ((index / 0x100) % 0x100) as u8;
    let b2 = ((index / 0x1_0000) % 0x100) as u8;
    let b3 = ((index / 0x100_0000) % 0x100) as u8;
    let (iv4, iv5, iv6, iv7) = if iv_size == 8 {
        (data[14], data[15], data[16], data[17])
    } else {
        (0u8, 0u8, 0u8, 0u8)
    };
    let iv: [u8; 8] = [
        data[10] ^ b0,
        data[11] ^ b1,
        data[12] ^ b2,
        data[13] ^ b3,
        iv4,
        iv5,
        iv6,
        iv7,
    ];
    proof {
        let decl = data@.subrange(10, 10 + iv_size_us);
        let sn = spec_chunk_nonce(decl, index as nat);
        let padded = if decl.len() >= 8 {
            decl.take(8)
        } else {
            decl + zeros((8 - decl.len()) as nat)
        };
        if iv_size == 8 {
            assert(padded =~= decl);
        }
        assert(padded[0] == data@[10]);
        assert(padded[1] == data@[11]);
        assert(padded[2] == data@[12]);
        assert(padded[3] == data@[13]);
        assert(iv@ =~= sn);
    }
    let body = &data[11 + iv_size_us..data.len()];
    proof {
        assert(body@ =~= data@.skip(11 + iv_size_us));
    }
    let key_bytes = match key_service {
        Some(ks) => ks.get(key_name),
        None => None,
    };
    match key_bytes {
        None => {
            // The payload may already be an unencrypted nested chunk; try it
            // as-is before falling back.
            if body.len() > 0 && (body[0] == 0x4e || body[0] == 0x5a || body[0] == 0x45 || body[0]
                == 0x46) && depth > 0 {
                match handle_block(body, index, expected, key_service, strict, depth - 1) {
                    Ok(v) => {
                        return Ok(v);
                    },
                    Err(_) => {},
                }
            }
            if strict {
                Err(CascError::MissingDecryptionKey(key_name))
            } else {
                // Missing key: emit the expected number of zero bytes.
                let mut out: Vec<u8> = Vec::new();
                let mut j: usize = 0;
                while j < expected
                    invariant
                        j <= expected,
                        out@.len() == j,
                        forall|t: int| 0 <= t < j ==> out@[t] == 0u8,
                    decreases expected - j,
                {
                    out.push(0);
                    j = j + 1;
                }
                proof {
                    assert(out@ =~= zeros(expected as nat));
                }
                Ok(out)
            }
        },
        Some(key) => {
            if enc_type == 0x41 {
                return Err(CascError::InvalidBlte);
            }
            let decrypted = salsa20_decrypt_128(&key, &iv, body);
            let first_tag = if decrypted.len() == 0 {
                false
            } else {
                let d0 = decrypted[0];
                d0 == 0x4e || d0 == 0x5a || d0 == 0x45 || d0 == 0x46
            };
            if !first_tag {
                if decrypted.len() != expected {
                    return Err(CascError::InvalidBlte);
                }
                Ok(decrypted)
            } else if depth == 0 {
                Err(CascError::InvalidBlte)
            } else {
                handle_block(decrypted.as_slice(), index, expected, key_service, strict, depth - 1)
            }
        },
    }
}

/// The readable form of a chunk type tag.
pub fn printable_block_type(b: u8) -> (r: char)
    ensures
        is_block_tag(b) ==> r == b as char,
        !is_block_tag(b) ==> r == '?',
{
    if b == 0x4e {
        'N'
    } else if b == 0x5a {
        'Z'
    } else if b == 0x45 {
        'E'
    } else if b == 0x46 {
        'F'
    } else {
        '?'
    }
}


/// The declared compressed size of chunk `i` in the chunk table.
pub open spec fn chunk_comp(src: Seq<u8>, i: int) -> u32 {
    be32_at(src, 12 + 24 * i)
}

/// The declared decompressed size of chunk `i` in the chunk table.
pub open spec fn chunk_decomp(src: Seq<u8>, i: int) -> u32 {
    be32_at(src, 12 + 24 * i + 4)
}

/// The declared integrity hash of chunk `i` in the chunk table.
pub open spec fn chunk_hash(src: Seq<u8>, i: int) -> Seq<u8> {
    src.subrange(12 + 24 * i + 8, 12 + 24 * i + 24)
}

/// Where chunk `i`'s payload starts: after the chunk table, past the
/// compressed payloads of every earlier chunk.
pub open spec fn chunk_pos(src: Seq<u8>, n: nat, i: nat) -> int
    decreases i,
{
    if i == 0 {
        12 + 24 * (n as int)
    } else {
        chunk_pos(src, n, (i - 1) as nat) + chunk_comp(src, i - 1)
    }
}

/// The sum of the declared decompressed sizes of chunks `i..n`.
pub open spec fn total_decomp(src: Seq<u8>, n: nat, i: nat) -> int
    decreases n - i,
{
    if i >= n {
        0
    } else {
        chunk_decomp(src, i as int) + total_decomp(src, n, (i + 1) as nat)
    }
}

/// What decoding the single chunk `i` of a tabled container yields: the
/// payload is integrity-checked against its declared hash, then decoded per
/// its type tag.
pub open spec fn spec_chunk_step(
    src: Seq<u8>,
    n: nat,
    i: nat,
    keys: Map<u64, Seq<u8>>,
    strict: bool,
) -> Result<Seq<u8>, CascError> {
    let pos = chunk_pos(src, n, i);
    let comp = chunk_comp(src, i as int) as int;
    if pos + comp > src.len() {
        Err(CascError::InvalidBlte)
    } else {
        let block = src.subrange(pos, pos + comp);
        if md5_of(block) != chunk_hash(src, i as int) {
            Err(CascError::InvalidBlte)
        } else {
            spec_handle_block(
                block,
                i,
                chunk_decomp(src, i as int) as nat,
                keys,
                strict,
                MAX_CHUNK_DEPTH as nat,
            )
        }
    }
}

/// What decoding chunks `i..n` of a tabled container yields: the chunks'
/// plaintexts, concatenated in order.
pub open spec fn spec_decode_chunks(
    src: Seq<u8>,
    n: nat,
    i: nat,
    keys: Map<u64, Seq<u8>>,
    strict: bool,
) -> Result<Seq<u8>, CascError>
    decreases n - i,
{
    if i >= n {
        Ok(Seq::empty())
    } else {
        match spec_chunk_step(src, n, i, keys, strict) {
            Ok(s) => match spec_decode_chunks(src, n, (i + 1) as nat, keys, strict) {
                Ok(rest) => Ok(s + rest),
                Err(e) => Err(e),
            },
            Err(e) => Err(e),
        }
    }
}

/// Folding one successfully decoded chunk into the running plaintext
/// shifts the remaining-chunks equation by one.
proof fn lemma_chunks_shift(
    src: Seq<u8>,
    n: nat,
    i: nat,
    keys: Map<u64, Seq<u8>>,
    strict: bool,
    pre: Seq<u8>,
    piece: Seq<u8>,
)
    requires
        i < n,
        spec_chunk_step(src, n, i, keys, strict) == Ok::<Seq<u8>, CascError>(piece),
    ensures
        (match spec_decode_chunks(src, n, i, keys, strict) {
            Ok(rest) => Ok::<Seq<u8>, CascError>(pre + rest),
            Err(e) => Err::<Seq<u8>, CascError>(e),
        }) == (match spec_decode_chunks(src, n, (i + 1) as nat, keys, strict) {
            Ok(rest) => Ok::<Seq<u8>, CascError>((pre + piece) + rest),
            Err(e) => Err::<Seq<u8>, CascError>(e),
        }),
{
    match spec_decode_chunks(src, n, (i + 1) as nat, keys, strict) {
        Ok(rest) => {
            assert(pre + (piece + rest) =~= (pre + piece) + rest);
        },
        Err(_) => {},
    }
}

/// Integrity-checks and decodes chunk `i`, returning its plaintext and its
/// declared compressed size.
fn decode_chunk_step(
    src: &[u8],
    n: usize,
    i: usize,
    pos: usize,
    key_service: Option<&KeyService>,
    strict: bool,
) -> (r: Result<(Vec<u8>, usize), CascError>)
    requires
        i < n,
        n <= 0xFF_FFFF,
        src@.len() >= 12 + 24 * n,
        src@.len() <= usize::MAX,
        pos <= src@.len(),
        pos == chunk_pos(src@, n as nat, i as nat),
    ensures
        match r {
            Ok(p) => spec_chunk_step(src@, n as nat, i as nat, spec_keys_of(key_service), strict)
                == Ok::<Seq<u8>, CascError>(p.0@) && p.1 == chunk_comp(src@, i as int)
                && pos + p.1 <= src@.len(),
            Err(e) => spec_chunk_step(src@, n as nat, i as nat, spec_keys_of(key_service), strict)
                == Err::<Seq<u8>, CascError>(e),
        },
{
    let to = 12 + 24 * i;
    let comp = src[to] as u32 * 0x100_0000 + src[to + 1] as u32 * 0x1_0000 + src[to + 2] as u32
        * 0x100 + src[to + 3] as u32;
    let decomp = src[to + 4] as u32 * 0x100_0000 + src[to + 5] as u32 * 0x1_0000 + src[to
        + 6] as u32 * 0x100 + src[to + 7] as u32;
    proof {
        assert(comp == chunk_comp(src@, i as int));
        assert(decomp == chunk_decomp(src@, i as int));
    }
    let comp_us = comp as usize;
    if comp_us > src.len() - pos {
        return Err(CascError::InvalidBlte);
    }
    let block = &src[pos..pos + comp_us];
    proof {
        assert(block@ =~= src@.subrange(
            chunk_pos(src@, n as nat, i as nat),
            chunk_pos(src@, n as nat, i as nat) + chunk_comp(src@, i as int),
        ));
    }
    let digest = md5_digest(block);
    proof {
        assert(chunk_hash(src@, i as int) =~= src@.subrange(to + 8, to + 24));
    }
    if !eq16_at(&digest, src, to + 8) {
        return Err(CascError::InvalidBlte);
    }
    match handle_block(block, i, decomp as usize, key_service, strict, MAX_CHUNK_DEPTH) {
        Ok(piece) => Ok((piece, comp_us)),
        Err(e) => Err(e),
    }
}

/// The number of chunks a tabled container declares.
pub open spec fn chunk_count(src: Seq<u8>) -> int {
    (src[9] as int) * 0x1_0000 + (src[10] as int) * 0x100 + (src[11] as int)
}

/// What decoding a whole container yields. A header size of zero or
/// all-ones means a single implicit chunk with no integrity hash; any other
/// header size must match the chunk table exactly.
pub open spec fn spec_parse_blte(src: Seq<u8>, keys: Map<u64, Seq<u8>>, strict: bool) -> Result<
    Seq<u8>,
    CascError,
> {
    if src.len() < 8 {
        Err(CascError::InvalidBlte)
    } else if !(src[0] == 0x42 && src[1] == 0x4c && src[2] == 0x54 && src[3] == 0x45) {
        Err(CascError::InvalidBlte)
    } else {
        let hs = be32_at(src, 4);
        if hs != 0 && hs != 0xFFFF_FFFFu32 {
            if src.len() < 12 {
                Err(CascError::InvalidBlte)
            } else if src[8] != 0x0F {
                Err(CascError::InvalidBlte)
            } else {
                let n = chunk_count(src);
                if n == 0 {
                    Err(CascError::InvalidBlte)
                } else if hs != 12 + 24 * n {
                    Err(CascError::InvalidBlte)
                } else if src.len() < 12 + 24 * n {
                    Err(CascError::InvalidBlte)
                } else {
                    spec_decode_chunks(src, n as nat, 0, keys, strict)
                }
            }
        } else {
            if src.len() < 9 {
                Err(CascError::InvalidBlte)
            } else {
                spec_handle_block(
                    src.skip(8),
                    0,
                    (src.len() - 9) as nat,
                    keys,
                    strict,
                    MAX_CHUNK_DEPTH as nat,
                )
            }
        }
    }
}

/// Whether the bytes at `off` equal the 16-byte array.
fn eq16_at(a: &[u8; 16], s: &[u8], off: usize) -> (r: bool)
    requires
        off + 16 <= s@.len(),
        s@.len() <= usize::MAX,
    ensures
        r == (a@ == s@.subrange(off as int, off + 16)),
{
    let mut i: usize = 0;
    while i < 16
        invariant
            i <= 16,
            off + 16 <= s@.len(),
            s@.len() <= usize::MAX,
            forall|j: int| 0 <= j < i ==> a@[j] == s@[off + j],
        decreases 16 - i,
    {
        if a[i] != s[off + i] {
            assert(a@[i as int] != s@.subrange(off as int, off + 16)[i as int]);
            return false;
        }
        i = i + 1;
    }
    proof {
        assert(a@ =~= s@.subrange(off as int, off + 16));
    }
    true
}

/// Decodes a container without a key service: encrypted chunks fall back to
/// the documented missing-key behaviour.
pub fn parse_blte(src: &[u8]) -> (r: Result<Vec<u8>, CascError>)
    ensures
        match r {
            Ok(v) => spec_parse_blte(src@, Map::empty(), false) == Ok::<Seq<u8>, CascError>(v@),
            Err(e) => spec_parse_blte(src@, Map::empty(), false) == Err::<Seq<u8>, CascError>(e),
        },
{
    parse_blte_with_keys(src, None, false)
}

/// Decodes a container against the given key service. In strict mode an
/// encrypted chunk whose key is unknown fails with `MissingDecryptionKey`;
/// otherwise it decodes to zero bytes of its declared size.
#[verifier::rlimit(100)]
pub fn parse_blte_with_keys(src: &[u8], key_service: Option<&KeyService>, strict: bool) -> (r:
    Result<Vec<u8>, CascError>)
    ensures
        match r {
            Ok(v) => spec_parse_blte(src@, spec_keys_of(key_service), strict) == Ok::<
                Seq<u8>,
                CascError,
            >(v@),
            Err(e) => spec_parse_blte(src@, spec_keys_of(key_service), strict) == Err::<
                Seq<u8>,
                CascError,
            >(e),
        },
{
    let ghost keys = spec_keys_of(key_service);
    if src.len() < 8 {
        return Err(CascError::InvalidBlte);
    }
    if !(src[0] == 0x42 && src[1] == 0x4c && src[2] == 0x54 && src[3] == 0x45) {
        return Err(CascError::InvalidBlte);
    }
    let hs = src[4] as u32 * 0x100_0000 + src[5] as u32 * 0x1_0000 + src[6] as u32 * 0x100
        + src[7] as u32;
    proof {
        assert(hs == be32_at(src@, 4));
    }
    if hs != 0 && hs != 0xFFFF_FFFF {
        if src.len() < 12 {
            return Err(CascError::InvalidBlte);
        }
        if src[8] != 0x0F {
            return Err(CascError::InvalidBlte);
        }
        let n: usize = src[9] as usize * 0x1_0000 + src[10] as usize * 0x100 + src[11] as usize;
        if n == 0 {
            return Err(CascError::InvalidBlte);
        }
        proof {
            assert(n == chunk_count(src@));
        }
        let expected_hs: usize = 12 + 24 * n;
        if hs as usize != expected_hs {
            return Err(CascError::InvalidBlte);
        }
        if src.len() < expected_hs {
            return Err(CascError::InvalidBlte);
        }
        decode_chunks_loop(src, n, key_service, strict)
    } else {
        if src.len() < 9 {
            return Err(CascError::InvalidBlte);
        }
        let block = &src[8..src.len()];
        proof {
            assert(block@ =~= src@.skip(8));
        }
        handle_block(block, 0, src.len() - 9, key_service, strict, MAX_CHUNK_DEPTH)
    }
}

/// Decodes every chunk of a tabled container, in order.
#[verifier::rlimit(100)]
fn decode_chunks_loop(
    src: &[u8],
    n: usize,
    key_service: Option<&KeyService>,
    strict: bool,
) -> (r: Result<Vec<u8>, CascError>)
    requires
        0 < n <= 0xFF_FFFF,
        src@.len() >= 12 + 24 * n,
    ensures
        match r {
            Ok(v) => spec_decode_chunks(src@, n as nat, 0, spec_keys_of(key_service), strict)
                == Ok::<Seq<u8>, CascError>(v@),
            Err(e) => spec_decode_chunks(src@, n as nat, 0, spec_keys_of(key_service), strict)
                == Err::<Seq<u8>, CascError>(e),
        },
{
    let ghost keys = spec_keys_of(key_service);
    let total_len = src.len();
    proof {
        assert(src@.len() == total_len);
    }
    let mut out: Vec<u8> = Vec::new();
    let mut pos: usize = 12 + 24 * n;
    let mut i: usize = 0;
    proof {
        assert(spec_decode_chunks(src@, n as nat, 0, keys, strict) == match spec_decode_chunks(
            src@,
            n as nat,
            0,
            keys,
            strict,
        ) {
            Ok(rest) => Ok::<Seq<u8>, CascError>(out@ + rest),
            Err(e) => Err::<Seq<u8>, CascError>(e),
        }) by {
            match spec_decode_chunks(src@, n as nat, 0, keys, strict) {
                Ok(rest) => {
                    assert(out@ + rest =~= rest);
                },
                Err(_) => {},
            }
        }
    }
    while i < n
            invariant
                i <= n,
                n <= 0xFF_FFFF,
                src@.len() >= 12 + 24 * n,
                src@.len() <= usize::MAX,
                pos <= src@.len(),
                pos == chunk_pos(src@, n as nat, i as nat),
                keys == spec_keys_of(key_service),
                spec_decode_chunks(src@, n as nat, 0, keys, strict) == match spec_decode_chunks(
                    src@,
                    n as nat,
                    i as nat,
                    keys,
                    strict,
                ) {
                    Ok(rest) => Ok::<Seq<u8>, CascError>(out@ + rest),
                    Err(e) => Err::<Seq<u8>, CascError>(e),
                },
            decreases n - i,
        {
            match decode_chunk_step(src, n, i, pos, key_service, strict) {
                Ok(pc) => {
                    let (mut piece, comp_us) = pc;
                    let ghost old_out = out@;
                    let ghost piece_view = piece@;
                    out.append(&mut piece);
                    proof {
                        assert(out@ == old_out + piece_view);
                        lemma_chunks_shift(
                            src@,
                            n as nat,
                            i as nat,
                            keys,
                            strict,
                            old_out,
                            piece_view,
                        );
                    }
                    pos = pos + comp_us;
                    i = i + 1;
                },
                Err(e) => {
                    return Err(e);
                },
            }
        }
    proof {
        assert(spec_decode_chunks(src@, n as nat, i as nat, keys, strict) == Ok::<
            Seq<u8>,
            CascError,
        >(Seq::empty()));
        assert(out@ + Seq::<u8>::empty() =~= out@);
    }
    Ok(out)
}


/// The total output length a container declares: the sum of the chunk
/// table's decompressed sizes, or for a single implicit chunk everything
/// after the header less the type tag.
pub open spec fn spec_declared_out_len(src: Seq<u8>) -> int {
    let hs = be32_at(src, 4);
    if hs != 0 && hs != 0xFFFF_FFFFu32 {
        total_decomp(src, chunk_count(src) as nat, 0)
    } else {
        src.len() - 9
    }
}

proof fn lemma_decode_chunks_len(
    src: Seq<u8>,
    n: nat,
    i: nat,
    keys: Map<u64, Seq<u8>>,
    strict: bool,
)
    ensures
        spec_decode_chunks(src, n, i, keys, strict) matches Ok(v) ==> v.len() == total_decomp(
            src,
            n,
            i,
        ),
    decreases n - i,
{
    if i < n {
        let pos = chunk_pos(src, n, i);
        let comp = chunk_comp(src, i as int) as int;
        if pos + comp <= src.len() {
            let block = src.subrange(pos, pos + comp);
            lemma_handle_block_len(
                block,
                i,
                chunk_decomp(src, i as int) as nat,
                keys,
                strict,
                MAX_CHUNK_DEPTH as nat,
            );
            lemma_decode_chunks_len(src, n, (i + 1) as nat, keys, strict);
        }
    }
}

/// A successful decode always yields exactly the declared number of bytes,
/// whatever the keys and whatever the mode.
pub proof fn lemma_parse_blte_len(src: Seq<u8>, keys: Map<u64, Seq<u8>>, strict: bool)
    ensures
        spec_parse_blte(src, keys, strict) matches Ok(v) ==> v.len() == spec_declared_out_len(src),
{
    if src.len() >= 8 {
        let hs = be32_at(src, 4);
        if hs != 0 && hs != 0xFFFF_FFFFu32 {
            if src.len() >= 12 {
                lemma_decode_chunks_len(src, chunk_count(src) as nat, 0, keys, strict);
            }
        } else {
            if src.len() >= 9 {
                lemma_handle_block_len(
                    src.skip(8),
                    0,
                    (src.len() - 9) as nat,
                    keys,
                    strict,
                    MAX_CHUNK_DEPTH as nat,
                );
            }
        }
    }
}

/// Decoding an encrypted chunk whose key name is absent from the key
/// service, and whose payload does not itself look like a nested chunk,
/// yields exactly the declared number of zero bytes in the permissive mode,
/// and fails with `MissingDecryptionKey` naming the key in strict mode.
pub proof fn lemma_missing_key_fallback(
    block: Seq<u8>,
    index: nat,
    expected: nat,
    keys: Map<u64, Seq<u8>>,
    depth: nat,
)
    requires
        block.len() >= 15,
        block[0] == 0x45,
        block[1] == 8,
        block[10] == 4 || block[10] == 8,
        block.len() >= 12 + block[10],
        block[11 + block[10]] == 0x53 || block[11 + block[10]] == 0x41,
        !keys.contains_key(le64_at(block, 2)),
        block.len() == 12 + block[10] || !is_block_tag(block[12 + block[10]]),
    ensures
        spec_handle_block(block, index, expected, keys, false, depth) == Ok::<Seq<u8>, CascError>(
            zeros(expected),
        ),
        spec_handle_block(block, index, expected, keys, true, depth) == Err::<Seq<u8>, CascError>(
            CascError::MissingDecryptionKey(le64_at(block, 2)),
        ),
{
    let data = block.skip(1);
    let iv_size = block[10];
    assert(data[0] == block[1]);
    assert(data[9] == block[10]);
    assert(data.len() == block.len() - 1);
    assert(data[10 + iv_size] == block[11 + iv_size]);
    assert(le64_at(data, 1) == le64_at(block, 2)) by {
        assert forall|j: int| 1 <= j < 9 implies data[j] == block[j + 1] by {}
    }
    let body = data.skip(11 + iv_size);
    assert(body.len() == block.len() - 12 - iv_size);
    if body.len() > 0 {
        assert(body[0] == block[12 + iv_size]);
    }
}


/// The bytes the payload region takes for the chunks from `i` on: each
/// chunk's length plus its type tag.
#[verifier::opaque]
pub open spec fn payload_total(chunks: Seq<Seq<u8>>, i: nat) -> int
    decreases chunks.len() - i,
{
    if i >= chunks.len() {
        0
    } else {
        chunks[i as int].len() + 1 + payload_total(chunks, (i + 1) as nat)
    }
}

proof fn lemma_payload_total_nonneg(chunks: Seq<Seq<u8>>, i: nat)
    ensures
        payload_total(chunks, i) >= 0,
    decreases chunks.len() - i,
{
    reveal(payload_total);
    if i < chunks.len() {
        lemma_payload_total_nonneg(chunks, (i + 1) as nat);
    }
}

/// With the chunk table in place, a payload position plus what remains to
/// be written is a constant: the full container size.
proof fn lemma_chunk_pos_payload(v: Seq<u8>, n: nat, cs: Seq<Seq<u8>>, i: nat)
    requires
        cs.len() == n,
        i <= n,
        forall|j: nat|
            j < n ==> #[trigger] be32_at(v, 12 + 24 * (j as int)) == cs[j as int].len() + 1,
    ensures
        chunk_pos(v, n, i) + payload_total(cs, i) == 12 + 24 * n + payload_total(cs, 0),
    decreases i,
{
    reveal(payload_total);
    if i > 0 {
        lemma_chunk_pos_payload(v, n, cs, (i - 1) as nat);
        assert(be32_at(v, 12 + 24 * ((i - 1) as int)) == cs[i - 1].len() + 1);
        assert(chunk_pos(v, n, i) == chunk_pos(v, n, (i - 1) as nat) + chunk_comp(v, i - 1));
        assert(payload_total(cs, (i - 1) as nat) == cs[i - 1].len() + 1 + payload_total(cs, i));
    }
}

/// Whether a chunk list fits the container format: a nonzero 24-bit chunk
/// count, every chunk below the 32-bit size fields, and the whole
/// container inside the address space.
#[verifier::opaque]
pub open spec fn spec_chunks_fit(chunks: Seq<Seq<u8>>) -> bool {
    &&& 0 < chunks.len() <= 0xFF_FFFF
    &&& (forall|j: int| 0 <= j < chunks.len() ==> #[trigger] chunks[j].len() < 0xFFFF_FFFF)
    &&& 12 + 24 * chunks.len() + payload_total(chunks, 0) <= usize::MAX
}

/// The concatenation of the chunks from `i` on.
pub open spec fn flatten_from(chunks: Seq<Seq<u8>>, i: nat) -> Seq<u8>
    decreases chunks.len() - i,
{
    if i >= chunks.len() {
        Seq::empty()
    } else {
        chunks[i as int] + flatten_from(chunks, (i + 1) as nat)
    }
}

/// Appends a byte string.
fn append_bytes(out: &mut Vec<u8>, s: &[u8])
    ensures
        final(out)@ == old(out)@ + s@,
{
    let mut i: usize = 0;
    while i < s.len()
        invariant
            i <= s@.len(),
            out@ =~= old(out)@ + s@.take(i as int),
        decreases s@.len() - i,
    {
        out.push(s[i]);
        proof {
            assert(old(out)@ + s@.take(i + 1) =~= (old(out)@ + s@.take(i as int)).push(
                s@[i as int],
            ));
        }
        i = i + 1;
    }
    proof {
        assert(s@.take(s@.len() as int) =~= s@);
    }
}

/// Chunk positions depend only on the chunk table, which both buffers
/// share as a prefix.
proof fn lemma_chunk_pos_table(a: Seq<u8>, b: Seq<u8>, n: nat, i: nat)
    requires
        a.len() >= 12 + 24 * n,
        b.len() >= a.len(),
        forall|q: int| 0 <= q < a.len() ==> b[q] == a[q],
        i <= n,
    ensures
        chunk_pos(b, n, i) == chunk_pos(a, n, i),
    decreases i,
{
    if i > 0 {
        lemma_chunk_pos_table(a, b, n, (i - 1) as nat);
        assert(chunk_comp(b, i - 1) == chunk_comp(a, i - 1));
    }
}

/// A chunk's payload never starts before the end of the chunk table.
proof fn lemma_chunk_pos_ge(v: Seq<u8>, n: nat, i: nat)
    ensures
        chunk_pos(v, n, i) >= 12 + 24 * n,
    decreases i,
{
    if i > 0 {
        lemma_chunk_pos_ge(v, n, (i - 1) as nat);
    }
}

/// The 24 table bytes one raw chunk declares: big-endian sizes and the
/// chunk's tagged digest.
pub open spec fn spec_table_entry(c: Seq<u8>) -> Seq<u8> {
    seq![
        (((c.len() + 1) / 0x100_0000) % 0x100) as u8,
        (((c.len() + 1) / 0x1_0000) % 0x100) as u8,
        (((c.len() + 1) / 0x100) % 0x100) as u8,
        ((c.len() + 1) % 0x100) as u8,
        ((c.len() / 0x100_0000) % 0x100) as u8,
        ((c.len() / 0x1_0000) % 0x100) as u8,
        ((c.len() / 0x100) % 0x100) as u8,
        (c.len() % 0x100) as u8,
    ] + md5_of(seq![0x4eu8] + c)
}

/// Appends one chunk's table entry.
#[verifier::rlimit(100)]
fn emit_table_entry(out: &mut Vec<u8>, chunk: &Vec<u8>)
    requires
        chunk@.len() < 0xFFFF_FFFF,
    ensures
        final(out)@ == old(out)@ + spec_table_entry(chunk@),
        spec_table_entry(chunk@).len() == 24,
{
    let clen = chunk.len();
    let comp: u32 = (clen + 1) as u32;
    let decomp: u32 = clen as u32;
    let mut block: Vec<u8> = Vec::new();
    block.push(0x4e);
    append_bytes(&mut block, chunk.as_slice());
    proof {
        assert(block@ =~= seq![0x4eu8] + chunk@);
    }
    let digest = md5_digest(block.as_slice());
    let entry: [u8; 8] = [
        (comp / 0x100_0000) as u8,
        ((comp / 0x1_0000) % 0x100) as u8,
        ((comp / 0x100) % 0x100) as u8,
        (comp % 0x100) as u8,
        (decomp / 0x100_0000) as u8,
        ((decomp / 0x1_0000) % 0x100) as u8,
        ((decomp / 0x100) % 0x100) as u8,
        (decomp % 0x100) as u8,
    ];
    let ghost pre = out@;
    append_bytes(out, &entry[0..8]);
    append_bytes(out, digest.as_slice());
    proof {
        assert(md5_of(seq![0x4eu8] + chunk@).len() == 16) by {
            assert(digest@ == md5_of(block@));
        }
        assert(out@ =~= pre + spec_table_entry(chunk@));
    }
}

/// The table bytes that the entries of `chunks[..i]` occupy line up with
/// the declared sizes and hashes, entry by entry.
#[verifier::rlimit(100)]
proof fn lemma_table_entries(header: Seq<u8>, chunks: Seq<Seq<u8>>, out: Seq<u8>, i: nat)
    requires
        header.len() == 12,
        i <= chunks.len(),
        forall|j: int| 0 <= j < chunks.len() ==> #[trigger] chunks[j].len() < 0xFFFF_FFFF,
        forall|j: int| 0 <= j < chunks.len() ==> (#[trigger] spec_table_entry(chunks[j])).len()
            == 24,
        out == header + flatten_entries(chunks, i),
    ensures
        out.len() == 12 + 24 * i,
        forall|j: nat|
            j < i ==> #[trigger] be32_at(out, 12 + 24 * (j as int)) == chunks[j as int].len() + 1,
        forall|j: nat|
            j < i ==> #[trigger] be32_at(out, 12 + 24 * (j as int) + 4) == chunks[j as int].len(),
        forall|j: nat|
            j < i ==> #[trigger] out.subrange(12 + 24 * (j as int) + 8, 12 + 24 * (j as int) + 24)
                == md5_of(seq![0x4eu8] + chunks[j as int]),
    decreases i,
{
    if i > 0 {
        let prev = header + flatten_entries(chunks, (i - 1) as nat);
        lemma_table_entries(header, chunks, prev, (i - 1) as nat);
        let e = spec_table_entry(chunks[i - 1]);
        assert(flatten_entries(chunks, i) =~= flatten_entries(chunks, (i - 1) as nat) + e);
        assert(out =~= prev + e);
        assert(out.len() == 12 + 24 * i);
        assert forall|j: nat| j < i implies #[trigger] be32_at(out, 12 + 24 * (j as int))
            == chunks[j as int].len() + 1 by {
            lemma_table_entry_facts(header, chunks, out, prev, e, i, j);
        }
        assert forall|j: nat| j < i implies #[trigger] be32_at(out, 12 + 24 * (j as int) + 4)
            == chunks[j as int].len() by {
            lemma_table_entry_facts(header, chunks, out, prev, e, i, j);
        }
        assert forall|j: nat| j < i implies #[trigger] out.subrange(
            12 + 24 * (j as int) + 8,
            12 + 24 * (j as int) + 24,
        ) == md5_of(seq![0x4eu8] + chunks[j as int]) by {
            lemma_table_entry_facts(header, chunks, out, prev, e, i, j);
        }
    }
}

/// The three declared facts of entry `j` of a table extended by one entry.
#[verifier::rlimit(100)]
proof fn lemma_table_entry_facts(
    header: Seq<u8>,
    chunks: Seq<Seq<u8>>,
    out: Seq<u8>,
    prev: Seq<u8>,
    e: Seq<u8>,
    i: nat,
    j: nat,
)
    requires
        header.len() == 12,
        0 < i <= chunks.len(),
        j < i,
        forall|q: int| 0 <= q < chunks.len() ==> #[trigger] chunks[q].len() < 0xFFFF_FFFF,
        forall|q: int| 0 <= q < chunks.len() ==> (#[trigger] spec_table_entry(chunks[q])).len()
            == 24,
        prev == header + flatten_entries(chunks, (i - 1) as nat),
        e == spec_table_entry(chunks[i - 1]),
        out == prev + e,
        prev.len() == 12 + 24 * (i - 1),
        forall|q: nat|
            q < i - 1 ==> #[trigger] be32_at(prev, 12 + 24 * (q as int)) == chunks[q as int].len()
                + 1,
        forall|q: nat|
            q < i - 1 ==> #[trigger] be32_at(prev, 12 + 24 * (q as int) + 4)
                == chunks[q as int].len(),
        forall|q: nat|
            q < i - 1 ==> #[trigger] prev.subrange(
                12 + 24 * (q as int) + 8,
                12 + 24 * (q as int) + 24,
            ) == md5_of(seq![0x4eu8] + chunks[q as int]),
    ensures
        be32_at(out, 12 + 24 * (j as int)) == chunks[j as int].len() + 1,
        be32_at(out, 12 + 24 * (j as int) + 4) == chunks[j as int].len(),
        out.subrange(12 + 24 * (j as int) + 8, 12 + 24 * (j as int) + 24) == md5_of(
            seq![0x4eu8] + chunks[j as int],
        ),
{
    if j < i - 1 {
        lemma_table_entry_prev(prev, e, out, chunks, j);
    } else {
        lemma_table_entry_new(prev, e, out, chunks, (i - 1) as nat);
    }
}

/// An already-written entry keeps its bytes under the append.
#[verifier::rlimit(100)]
proof fn lemma_table_entry_prev(
    prev: Seq<u8>,
    e: Seq<u8>,
    out: Seq<u8>,
    chunks: Seq<Seq<u8>>,
    j: nat,
)
    requires
        out == prev + e,
        12 + 24 * (j as int) + 24 <= prev.len(),
        j < chunks.len(),
        be32_at(prev, 12 + 24 * (j as int)) == chunks[j as int].len() + 1,
        be32_at(prev, 12 + 24 * (j as int) + 4) == chunks[j as int].len(),
        prev.subrange(12 + 24 * (j as int) + 8, 12 + 24 * (j as int) + 24) == md5_of(
            seq![0x4eu8] + chunks[j as int],
        ),
    ensures
        be32_at(out, 12 + 24 * (j as int)) == chunks[j as int].len() + 1,
        be32_at(out, 12 + 24 * (j as int) + 4) == chunks[j as int].len(),
        out.subrange(12 + 24 * (j as int) + 8, 12 + 24 * (j as int) + 24) == md5_of(
            seq![0x4eu8] + chunks[j as int],
        ),
{
    assert(be32_at(out, 12 + 24 * (j as int)) == be32_at(prev, 12 + 24 * (j as int)));
    assert(be32_at(out, 12 + 24 * (j as int) + 4) == be32_at(prev, 12 + 24 * (j as int) + 4));
    assert(out.subrange(12 + 24 * (j as int) + 8, 12 + 24 * (j as int) + 24) =~= prev.subrange(
        12 + 24 * (j as int) + 8,
        12 + 24 * (j as int) + 24,
    ));
}

/// The freshly appended entry's bytes read back as written.
#[verifier::rlimit(100)]
proof fn lemma_table_entry_new(
    prev: Seq<u8>,
    e: Seq<u8>,
    out: Seq<u8>,
    chunks: Seq<Seq<u8>>,
    j: nat,
)
    requires
        out == prev + e,
        prev.len() == 12 + 24 * (j as int),
        j < chunks.len(),
        chunks[j as int].len() < 0xFFFF_FFFF,
        e == spec_table_entry(chunks[j as int]),
        e.len() == 24,
    ensures
        be32_at(out, 12 + 24 * (j as int)) == chunks[j as int].len() + 1,
        be32_at(out, 12 + 24 * (j as int) + 4) == chunks[j as int].len(),
        out.subrange(12 + 24 * (j as int) + 8, 12 + 24 * (j as int) + 24) == md5_of(
            seq![0x4eu8] + chunks[j as int],
        ),
{
    lemma_table_entry_new_sizes(prev, e, out, chunks, j);
    lemma_table_entry_new_hash(prev, e, out, chunks, j);
}

/// The size words of a freshly appended entry.
#[verifier::rlimit(100)]
proof fn lemma_table_entry_new_sizes(
    prev: Seq<u8>,
    e: Seq<u8>,
    out: Seq<u8>,
    chunks: Seq<Seq<u8>>,
    j: nat,
)
    requires
        out == prev + e,
        prev.len() == 12 + 24 * (j as int),
        j < chunks.len(),
        chunks[j as int].len() < 0xFFFF_FFFF,
        e == spec_table_entry(chunks[j as int]),
        e.len() == 24,
    ensures
        be32_at(out, 12 + 24 * (j as int)) == chunks[j as int].len() + 1,
        be32_at(out, 12 + 24 * (j as int) + 4) == chunks[j as int].len(),
{
    let b = 12 + 24 * (j as int);
    let c = chunks[j as int];
    assert(out[b] == e[0]);
    assert(out[b + 1] == e[1]);
    assert(out[b + 2] == e[2]);
    assert(out[b + 3] == e[3]);
    assert(out[b + 4] == e[4]);
    assert(out[b + 5] == e[5]);
    assert(out[b + 6] == e[6]);
    assert(out[b + 7] == e[7]);
    assert(be32_at(out, b) == c.len() + 1);
    assert(be32_at(out, b + 4) == c.len());
}

/// The digest bytes of a freshly appended entry.
#[verifier::rlimit(100)]
proof fn lemma_table_entry_new_hash(
    prev: Seq<u8>,
    e: Seq<u8>,
    out: Seq<u8>,
    chunks: Seq<Seq<u8>>,
    j: nat,
)
    requires
        out == prev + e,
        prev.len() == 12 + 24 * (j as int),
        j < chunks.len(),
        e == spec_table_entry(chunks[j as int]),
        e.len() == 24,
    ensures
        out.subrange(12 + 24 * (j as int) + 8, 12 + 24 * (j as int) + 24) == md5_of(
            seq![0x4eu8] + chunks[j as int],
        ),
{
    let b = 12 + 24 * (j as int);
    let c = chunks[j as int];
    assert(out.subrange(b + 8, b + 24) =~= md5_of(seq![0x4eu8] + c));
}

/// The concatenated table entries of `chunks[..i]`.
pub open spec fn flatten_entries(chunks: Seq<Seq<u8>>, i: nat) -> Seq<u8>
    decreases i,
{
    if i == 0 {
        Seq::empty()
    } else {
        flatten_entries(chunks, (i - 1) as nat) + spec_table_entry(chunks[i - 1])
    }
}

/// A container whose table declares these chunks as raw (`N`) chunks with
/// correct hashes decodes to their concatenation, chunk by chunk.
#[verifier::rlimit(100)]
proof fn lemma_decode_raw_chunks(
    v: Seq<u8>,
    n: nat,
    chunks: Seq<Seq<u8>>,
    i: nat,
    keys: Map<u64, Seq<u8>>,
    strict: bool,
)
    requires
        chunks.len() == n,
        forall|j: nat|
            j < n ==> #[trigger] chunk_comp(v, j as int) == chunks[j as int].len() + 1,
        forall|j: nat|
            j < n ==> #[trigger] chunk_decomp(v, j as int) == chunks[j as int].len(),
        forall|j: nat|
            j < n ==> #[trigger] chunk_hash(v, j as int) == md5_of(
                seq![0x4eu8] + chunks[j as int],
            ),
        forall|j: nat|
            j < n ==> #[trigger] chunk_pos(v, n, j) + chunk_comp(v, j as int) <= v.len(),
        forall|j: nat|
            j < n ==> #[trigger] v.subrange(
                chunk_pos(v, n, j),
                chunk_pos(v, n, j) + chunk_comp(v, j as int),
            ) == seq![0x4eu8] + chunks[j as int],
        i <= n,
    ensures
        spec_decode_chunks(v, n, i, keys, strict) == Ok::<Seq<u8>, CascError>(
            flatten_from(chunks, i),
        ),
    decreases n - i,
{
    if i < n {
        let pos = chunk_pos(v, n, i);
        let comp = chunk_comp(v, i as int) as int;
        let block = v.subrange(pos, pos + comp);
        assert(block == seq![0x4eu8] + chunks[i as int]);
        assert(block.len() == chunks[i as int].len() + 1);
        assert(block[0] == 0x4e);
        assert(block.skip(1) =~= chunks[i as int]);
        assert(spec_handle_block(
            block,
            i,
            chunk_decomp(v, i as int) as nat,
            keys,
            strict,
            MAX_CHUNK_DEPTH as nat,
        ) == Ok::<Seq<u8>, CascError>(chunks[i as int]));
        assert(spec_chunk_step(v, n, i, keys, strict) == Ok::<Seq<u8>, CascError>(
            chunks[i as int],
        ));
        lemma_decode_raw_chunks(v, n, chunks, (i + 1) as nat, keys, strict);
    }
}

/// Appending one tagged chunk to the buffer preserves every table fact,
/// keeps the earlier payloads in place, and lands the new payload exactly
/// at its declared position.
#[verifier::rlimit(100)]
proof fn lemma_payload_step(
    pre: Seq<u8>,
    out: Seq<u8>,
    n: nat,
    i2: nat,
    schunks: Seq<Seq<u8>>,
    table: Seq<u8>,
    header: Seq<u8>,
)
    requires
        i2 < n,
        n == schunks.len(),
        forall|j: int| 0 <= j < n ==> #[trigger] schunks[j].len() < 0xFFFF_FFFF,
        table.len() == 12 + 24 * n,
        pre.take(table.len() as int) == table,
        pre.len() == chunk_pos(pre, n, i2),
        out == pre + seq![0x4eu8] + schunks[i2 as int],
        forall|j: nat|
            j < n ==> #[trigger] be32_at(pre, 12 + 24 * (j as int)) == schunks[j as int].len() + 1,
        forall|j: nat|
            j < n ==> #[trigger] be32_at(pre, 12 + 24 * (j as int) + 4)
                == schunks[j as int].len(),
        forall|j: nat|
            j < n ==> #[trigger] pre.subrange(12 + 24 * (j as int) + 8, 12 + 24 * (j as int) + 24)
                == md5_of(seq![0x4eu8] + schunks[j as int]),
        forall|j: nat|
            j < i2 ==> #[trigger] chunk_pos(pre, n, j) + chunk_comp(pre, j as int) <= pre.len(),
        forall|j: nat|
            j < i2 ==> #[trigger] pre.subrange(
                chunk_pos(pre, n, j),
                chunk_pos(pre, n, j) + chunk_comp(pre, j as int),
            ) == seq![0x4eu8] + schunks[j as int],
    ensures
        out.take(table.len() as int) == table,
        out.len() == chunk_pos(out, n, (i2 + 1) as nat),
        forall|j: nat|
            j < n ==> #[trigger] be32_at(out, 12 + 24 * (j as int)) == schunks[j as int].len() + 1,
        forall|j: nat|
            j < n ==> #[trigger] be32_at(out, 12 + 24 * (j as int) + 4)
                == schunks[j as int].len(),
        forall|j: nat|
            j < n ==> #[trigger] out.subrange(12 + 24 * (j as int) + 8, 12 + 24 * (j as int) + 24)
                == md5_of(seq![0x4eu8] + schunks[j as int]),
        forall|j: nat|
            j < i2 + 1 ==> #[trigger] chunk_pos(out, n, j) + chunk_comp(out, j as int)
                <= out.len(),
        forall|j: nat|
            j < i2 + 1 ==> #[trigger] out.subrange(
                chunk_pos(out, n, j),
                chunk_pos(out, n, j) + chunk_comp(out, j as int),
            ) == seq![0x4eu8] + schunks[j as int],
{
    assert(forall|q: int| 0 <= q < pre.len() ==> out[q] == pre[q]);
    lemma_chunk_pos_ge(pre, n, i2);
    assert(pre.len() >= 12 + 24 * n);
    assert(out.take(table.len() as int) =~= pre.take(table.len() as int));
    assert forall|j: nat| j < n implies #[trigger] be32_at(out, 12 + 24 * (j as int))
        == schunks[j as int].len() + 1 by {
        assert(be32_at(pre, 12 + 24 * (j as int)) == schunks[j as int].len() + 1);
    }
    assert forall|j: nat| j < n implies #[trigger] be32_at(out, 12 + 24 * (j as int) + 4)
        == schunks[j as int].len() by {
        assert(be32_at(pre, 12 + 24 * (j as int) + 4) == schunks[j as int].len());
    }
    assert forall|j: nat| j < n implies #[trigger] out.subrange(
        12 + 24 * (j as int) + 8,
        12 + 24 * (j as int) + 24,
    ) == md5_of(seq![0x4eu8] + schunks[j as int]) by {
        assert(pre.subrange(12 + 24 * (j as int) + 8, 12 + 24 * (j as int) + 24) == md5_of(
            seq![0x4eu8] + schunks[j as int],
        ));
        assert(out.subrange(12 + 24 * (j as int) + 8, 12 + 24 * (j as int) + 24) =~= pre.subrange(
            12 + 24 * (j as int) + 8,
            12 + 24 * (j as int) + 24,
        ));
    }
    lemma_chunk_pos_table(pre, out, n, i2);
    lemma_chunk_pos_table(pre, out, n, (i2 + 1) as nat);
    assert(chunk_comp(out, i2 as int) == be32_at(out, 12 + 24 * (i2 as int)));
    assert(chunk_comp(out, i2 as int) == schunks[i2 as int].len() + 1);
    assert(chunk_pos(out, n, (i2 + 1) as nat) == chunk_pos(out, n, i2) + chunk_comp(
        out,
        i2 as int,
    ));
    assert(out.len() == pre.len() + 1 + schunks[i2 as int].len());
    assert forall|j: nat| j < i2 + 1 implies #[trigger] chunk_pos(out, n, j) + chunk_comp(
        out,
        j as int,
    ) <= out.len() && out.subrange(
        chunk_pos(out, n, j),
        chunk_pos(out, n, j) + chunk_comp(out, j as int),
    ) == seq![0x4eu8] + schunks[j as int] by {
        lemma_chunk_pos_table(pre, out, n, j);
        lemma_chunk_pos_ge(pre, n, j);
        assert(chunk_comp(out, j as int) == chunk_comp(pre, j as int));
        if j < i2 {
            assert(chunk_pos(pre, n, j) + chunk_comp(pre, j as int) <= pre.len());
            assert(pre.subrange(
                chunk_pos(pre, n, j),
                chunk_pos(pre, n, j) + chunk_comp(pre, j as int),
            ) == seq![0x4eu8] + schunks[j as int]);
            assert(out.subrange(
                chunk_pos(out, n, j),
                chunk_pos(out, n, j) + chunk_comp(out, j as int),
            ) =~= pre.subrange(
                chunk_pos(pre, n, j),
                chunk_pos(pre, n, j) + chunk_comp(pre, j as int),
            ));
        } else {
            assert(chunk_pos(out, n, j) == pre.len());
            assert(out.subrange(pre.len() as int, pre.len() as int + 1 + schunks[j as int].len() as int)
                =~= seq![0x4eu8] + schunks[j as int]);
        }
    }
}


/// Builds the 12-byte container header and the chunk table.
#[verifier::rlimit(100)]
fn build_table(chunks: &Vec<Vec<u8>>) -> (out: Vec<u8>)
    requires
        0 < chunks@.len() <= 0xFF_FFFF,
        forall|j: int|
            0 <= j < chunks@.len() ==> (#[trigger] chunks@[j]@).len() < 0xFFFF_FFFF,
    ensures
        ({
            let n = chunks@.len() as int;
            let schunks = chunks@.map_values(|c: Vec<u8>| c@);
            &&& out@.len() == 12 + 24 * n
            &&& out@[0] == 0x42 && out@[1] == 0x4c && out@[2] == 0x54 && out@[3] == 0x45
            &&& be32_at(out@, 4) == 12 + 24 * n
            &&& out@[8] == 0x0F
            &&& (out@[9] as int) * 0x1_0000 + (out@[10] as int) * 0x100 + (out@[11] as int) == n
            &&& (forall|j: nat|
                j < n ==> #[trigger] be32_at(out@, 12 + 24 * (j as int))
                    == schunks[j as int].len() + 1)
            &&& (forall|j: nat|
                j < n ==> #[trigger] be32_at(out@, 12 + 24 * (j as int) + 4)
                    == schunks[j as int].len())
            &&& (forall|j: nat|
                j < n ==> #[trigger] out@.subrange(
                    12 + 24 * (j as int) + 8,
                    12 + 24 * (j as int) + 24,
                ) == md5_of(seq![0x4eu8] + schunks[j as int]))
        }),
{
    let n = chunks.len();
    let ghost schunks = chunks@.map_values(|c: Vec<u8>| c@);
    proof {
        assert(forall|j: int| 0 <= j < n ==> #[trigger] schunks[j].len() < 0xFFFF_FFFF);
    }
    let hs: u32 = (12 + 24 * n) as u32;
    let hsb = u32_to_be(hs);
    let nb = u24_to_be(n as u32);
    let mut out: Vec<u8> = Vec::new();
    let header: [u8; 12] = [
        0x42,
        0x4c,
        0x54,
        0x45,
        hsb[0],
        hsb[1],
        hsb[2],
        hsb[3],
        0x0F,
        nb[0],
        nb[1],
        nb[2],
    ];
    append_bytes(&mut out, &header[0..12]);
    proof {
        assert(out@ =~= header@);
        assert(be32_at(header@, 4) == hs) by {
            assert(header@[4] == hsb@[0] && header@[5] == hsb@[1] && header@[6] == hsb@[2]
                && header@[7] == hsb@[3]);
        }
        assert((header@[9] as int) * 0x1_0000 + (header@[10] as int) * 0x100 + (
        header@[11] as int) == n);
    }
    let mut i: usize = 0;
    while i < n
        invariant
            i <= n,
            n == chunks@.len(),
            schunks == chunks@.map_values(|c: Vec<u8>| c@),
            forall|j: int| 0 <= j < n ==> #[trigger] schunks[j].len() < 0xFFFF_FFFF,
            out@ == header@ + flatten_entries(schunks, i as nat),
            out@.len() == 12 + 24 * i,
            forall|j: int|
                0 <= j < i ==> (#[trigger] spec_table_entry(schunks[j])).len() == 24,
        decreases n - i,
    {
        proof {
            assert(schunks[i as int] == chunks@[i as int]@);
        }
        emit_table_entry(&mut out, &chunks[i]);
        proof {
            assert(flatten_entries(schunks, (i + 1) as nat) == flatten_entries(schunks, i as nat)
                + spec_table_entry(schunks[i as int]));
            assert(out@ =~= header@ + flatten_entries(schunks, (i + 1) as nat));
        }
        i = i + 1;
    }
    proof {
        lemma_build_table_post(header@, schunks, out@, hs, n as int);
    }
    out
}

/// The finished chunk table satisfies every header and per-entry fact.
#[verifier::rlimit(100)]
proof fn lemma_build_table_post(
    header: Seq<u8>,
    schunks: Seq<Seq<u8>>,
    out: Seq<u8>,
    hs: u32,
    n: int,
)
    requires
        0 < n <= 0xFF_FFFF,
        n == schunks.len(),
        header.len() == 12,
        header[0] == 0x42 && header[1] == 0x4c && header[2] == 0x54 && header[3] == 0x45,
        be32_at(header, 4) == hs,
        header[8] == 0x0F,
        (header[9] as int) * 0x1_0000 + (header[10] as int) * 0x100 + (header[11] as int) == n,
        hs == 12 + 24 * n,
        forall|j: int| 0 <= j < n ==> #[trigger] schunks[j].len() < 0xFFFF_FFFF,
        forall|j: int| 0 <= j < n ==> (#[trigger] spec_table_entry(schunks[j])).len() == 24,
        out == header + flatten_entries(schunks, n as nat),
        out.len() == 12 + 24 * n,
    ensures
        out[0] == 0x42 && out[1] == 0x4c && out[2] == 0x54 && out[3] == 0x45,
        be32_at(out, 4) == 12 + 24 * n,
        out[8] == 0x0F,
        (out[9] as int) * 0x1_0000 + (out[10] as int) * 0x100 + (out[11] as int) == n,
        forall|j: nat|
            j < n ==> #[trigger] be32_at(out, 12 + 24 * (j as int)) == schunks[j as int].len() + 1,
        forall|j: nat|
            j < n ==> #[trigger] be32_at(out, 12 + 24 * (j as int) + 4)
                == schunks[j as int].len(),
        forall|j: nat|
            j < n ==> #[trigger] out.subrange(12 + 24 * (j as int) + 8, 12 + 24 * (j as int) + 24)
                == md5_of(seq![0x4eu8] + schunks[j as int]),
{
    lemma_table_entries(header, schunks, out, n as nat);
    assert(out[0] == header[0]);
    assert(out[4] == header[4] && out[5] == header[5] && out[6] == header[6] && out[7]
        == header[7]);
    assert(out[9] == header[9] && out[10] == header[10] && out[11] == header[11]);
    assert(be32_at(out, 4) == be32_at(header, 4));
}

/// The big-endian bytes of a 32-bit value.
#[verifier::rlimit(100)]
fn u32_to_be(v: u32) -> (r: [u8; 4])
    ensures
        be32_at(r@, 0) == v,
{
    let r: [u8; 4] = [
        (v / 0x100_0000) as u8,
        ((v / 0x1_0000) % 0x100) as u8,
        ((v / 0x100) % 0x100) as u8,
        (v % 0x100) as u8,
    ];
    proof {
        assert(be32_at(r@, 0) == v);
    }
    r
}

/// The three big-endian bytes of a value below 2^24.
#[verifier::rlimit(100)]
fn u24_to_be(v: u32) -> (r: [u8; 3])
    requires
        v < 0x100_0000,
    ensures
        (r@[0] as int) * 0x1_0000 + (r@[1] as int) * 0x100 + (r@[2] as int) == v,
{
    let r: [u8; 3] = [(v / 0x1_0000) as u8, ((v / 0x100) % 0x100) as u8, (v % 0x100) as u8];
    proof {
        assert((r@[0] as int) * 0x1_0000 + (r@[1] as int) * 0x100 + (r@[2] as int) == v);
    }
    r
}

/// A finished raw-chunk container parses, with any keys and in either
/// mode, to the concatenation of its chunks.
#[verifier::rlimit(100)]
proof fn lemma_encode_final(
    out: Seq<u8>,
    n: nat,
    schunks: Seq<Seq<u8>>,
    header: Seq<u8>,
    table: Seq<u8>,
)
    requires
        0 < n <= 0xFF_FFFF,
        n == schunks.len(),
        header.len() == 12,
        header[0] == 0x42 && header[1] == 0x4c && header[2] == 0x54 && header[3] == 0x45,
        be32_at(header, 4) == 12 + 24 * n,
        header[8] == 0x0F,
        (header[9] as int) * 0x1_0000 + (header[10] as int) * 0x100 + (header[11] as int) == n,
        table.len() == 12 + 24 * n,
        table.take(12) == header,
        out.take(table.len() as int) == table,
        forall|j: int| 0 <= j < n ==> #[trigger] schunks[j].len() < 0xFFFF_FFFF,
        forall|j: nat|
            j < n ==> #[trigger] be32_at(out, 12 + 24 * (j as int)) == schunks[j as int].len() + 1,
        forall|j: nat|
            j < n ==> #[trigger] be32_at(out, 12 + 24 * (j as int) + 4)
                == schunks[j as int].len(),
        forall|j: nat|
            j < n ==> #[trigger] out.subrange(12 + 24 * (j as int) + 8, 12 + 24 * (j as int) + 24)
                == md5_of(seq![0x4eu8] + schunks[j as int]),
        forall|j: nat|
            j < n ==> #[trigger] chunk_pos(out, n, j) + chunk_comp(out, j as int) <= out.len(),
        forall|j: nat|
            j < n ==> #[trigger] out.subrange(
                chunk_pos(out, n, j),
                chunk_pos(out, n, j) + chunk_comp(out, j as int),
            ) == seq![0x4eu8] + schunks[j as int],
    ensures
        forall|keys: Map<u64, Seq<u8>>, strict: bool|
            #![auto]
            spec_parse_blte(out, keys, strict) == Ok::<Seq<u8>, CascError>(
                flatten_from(schunks, 0),
            ),
{
    lemma_chunk_pos_ge(out, n, 0);
    assert(out.len() >= 12 + 24 * n);
    assert(forall|q: int| 0 <= q < table.len() ==> out[q] == table[q]) by {
        assert(forall|q: int|
            0 <= q < table.len() ==> out.take(table.len() as int)[q] == out[q]);
    }
    assert(forall|q: int| 0 <= q < 12 ==> table[q] == header[q]) by {
        assert(forall|q: int| 0 <= q < 12 ==> table.take(12)[q] == table[q]);
    }
    assert(out[0] == 0x42 && out[1] == 0x4c && out[2] == 0x54 && out[3] == 0x45);
    assert(be32_at(out, 4) == be32_at(header, 4));
    assert(out[8] == 0x0F);
    assert(chunk_count(out) == n);
    assert forall|keys: Map<u64, Seq<u8>>, strict: bool|
        #![auto]
        spec_parse_blte(out, keys, strict) == Ok::<Seq<u8>, CascError>(
            flatten_from(schunks, 0),
        ) by {
        lemma_decode_raw_chunks(out, n, schunks, 0, keys, strict);
        assert(be32_at(out, 4) == 12 + 24 * n);
    }
}

/// Builds a synthetic container of raw (`N`) chunks: a chunk table with
/// correct integrity hashes, then each chunk's bytes behind its type tag.
/// Decoding the result, with any keys and in either mode, yields exactly
/// the original concatenated bytes.
#[verifier::rlimit(100)]
pub fn encode_raw_container(chunks: &Vec<Vec<u8>>) -> (r: Result<Vec<u8>, CascError>)
    ensures
        r matches Ok(v) ==> forall|keys: Map<u64, Seq<u8>>, strict: bool|
            #![auto]
            spec_parse_blte(v@, keys, strict) == Ok::<Seq<u8>, CascError>(
                flatten_from(chunks@.map_values(|c: Vec<u8>| c@), 0),
            ),
        spec_chunks_fit(chunks@.map_values(|c: Vec<u8>| c@)) ==> r is Ok,
{
    let n = chunks.len();
    if n == 0 || n > 0xFF_FFFF {
        proof {
            reveal(spec_chunks_fit);
        }
        return Err(CascError::InvalidBlte);
    }
    let ghost schunks = chunks@.map_values(|c: Vec<u8>| c@);
    let mut k: usize = 0;
    while k < n
        invariant
            k <= n,
            n == chunks@.len(),
            schunks == chunks@.map_values(|c: Vec<u8>| c@),
            forall|j: int| 0 <= j < k ==> (#[trigger] chunks@[j]@).len() < 0xFFFF_FFFF,
        decreases n - k,
    {
        if chunks[k].len() >= 0xFFFF_FFFF {
            proof {
                reveal(spec_chunks_fit);
                assert(schunks[k as int] == chunks@[k as int]@);
            }
            return Err(CascError::InvalidBlte);
        }
        k = k + 1;
    }
    let mut out = build_table(chunks);
    let ghost header = out@.take(12);
    proof {
        assert(forall|j: int| 0 <= j < n ==> #[trigger] schunks[j].len() < 0xFFFF_FFFF);
        assert(header.len() == 12);
        assert(header[0] == 0x42 && header[1] == 0x4c && header[2] == 0x54 && header[3] == 0x45);
        assert(be32_at(header, 4) == be32_at(out@, 4));
        assert(header[8] == 0x0F);
        assert((header[9] as int) * 0x1_0000 + (header[10] as int) * 0x100 + (header[11] as int)
            == n);
    }
    let ghost table = out@;
    let mut i2: usize = 0;
    while i2 < n
        invariant
            i2 <= n,
            0 < n <= 0xFF_FFFF,
            n == chunks@.len(),
            
            schunks == chunks@.map_values(|c: Vec<u8>| c@),
            forall|j: int| 0 <= j < n ==> #[trigger] schunks[j].len() < 0xFFFF_FFFF,
            table.len() == 12 + 24 * n,
            table.take(12) =~= header,
            out@.take(table.len() as int) == table,
            out@.len() <= usize::MAX,
            out@.len() == chunk_pos(out@, n as nat, i2 as nat),
            forall|j: nat|
                j < n ==> #[trigger] be32_at(out@, 12 + 24 * (j as int)) == schunks[j as int].len()
                    + 1,
            forall|j: nat|
                j < n ==> #[trigger] be32_at(out@, 12 + 24 * (j as int) + 4)
                    == schunks[j as int].len(),
            forall|j: nat|
                j < n ==> #[trigger] out@.subrange(
                    12 + 24 * (j as int) + 8,
                    12 + 24 * (j as int) + 24,
                ) == md5_of(seq![0x4eu8] + schunks[j as int]),
            forall|j: nat|
                j < i2 ==> #[trigger] chunk_pos(out@, n as nat, j) + chunk_comp(out@, j as int)
                    <= out@.len(),
            forall|j: nat|
                j < i2 ==> #[trigger] out@.subrange(
                    chunk_pos(out@, n as nat, j),
                    chunk_pos(out@, n as nat, j) + chunk_comp(out@, j as int),
                ) == seq![0x4eu8] + schunks[j as int],
        decreases n - i2,
    {
        let clen = chunks[i2].len();
        if out.len() > usize::MAX - 1 || clen > usize::MAX - 1 - out.len() {
            proof {
                reveal(spec_chunks_fit);
                reveal(payload_total);
                if spec_chunks_fit(schunks) {
                    lemma_chunk_pos_payload(out@, n as nat, schunks, i2 as nat);
                    lemma_payload_total_nonneg(schunks, (i2 + 1) as nat);
                    assert(schunks[i2 as int] == chunks@[i2 as int]@);
                    assert(payload_total(schunks, i2 as nat) == schunks[i2 as int].len() + 1
                        + payload_total(schunks, (i2 + 1) as nat));
                    assert(out@.len() + payload_total(schunks, i2 as nat) == 12 + 24 * n
                        + payload_total(schunks, 0));
                    assert(false);
                }
            }
            return Err(CascError::InvalidBlte);
        }
        let ghost pre = out@;
        out.push(0x4e);
        append_bytes(&mut out, chunks[i2].as_slice());
        proof {
            assert(out@ =~= pre + seq![0x4eu8] + schunks[i2 as int]);
            lemma_payload_step(pre, out@, n as nat, i2 as nat, schunks, table, header);
        }
        i2 = i2 + 1;
    }
    proof {
        lemma_encode_final(out@, n as nat, schunks, header, table);
    }
    Ok(out)
}



/// Parses a container's header and chunk table without decoding any
/// payload: the declared sizes and integrity hashes, in table order. A
/// container without a table (header size zero or all-ones) yields an
/// empty chunk list.
pub fn parse_chunk_table(src: &[u8]) -> (r: Result<BlteFile, CascError>)
    ensures
        r matches Ok(f) ==> {
            &&& src@.len() >= 8
            &&& f.header.magic@ == src@.subrange(0, 4)
            &&& f.header.header_size == be32_at(src@, 4)
            &&& (f.header.header_size != 0 && f.header.header_size != 0xFFFF_FFFFu32 ==> {
                &&& f.chunks@.len() == chunk_count(src@)
                &&& (forall|i: int|
                    0 <= i < f.chunks@.len() ==> {
                        &&& (#[trigger] f.chunks@[i]).compressed_size == chunk_comp(src@, i)
                        &&& f.chunks@[i].decompressed_size == chunk_decomp(src@, i)
                        &&& f.chunks@[i].checksum@ == chunk_hash(src@, i)
                    })
            })
            &&& (f.header.header_size == 0 || f.header.header_size == 0xFFFF_FFFFu32
                ==> f.chunks@.len() == 0)
        },
{
    if src.len() < 8 {
        return Err(CascError::InvalidBlte);
    }
    if !(src[0] == 0x42 && src[1] == 0x4c && src[2] == 0x54 && src[3] == 0x45) {
        return Err(CascError::InvalidBlte);
    }
    let hs = src[4] as u32 * 0x100_0000 + src[5] as u32 * 0x1_0000 + src[6] as u32 * 0x100
        + src[7] as u32;
    proof {
        assert(hs == be32_at(src@, 4));
    }
    let magic: [u8; 4] = [src[0], src[1], src[2], src[3]];
    proof {
        assert(magic@ =~= src@.subrange(0, 4));
    }
    let header = BlteHeader { magic, header_size: hs };
    if hs == 0 || hs == 0xFFFF_FFFF {
        return Ok(BlteFile { header, chunks: Vec::new() });
    }
    if src.len() < 12 {
        return Err(CascError::InvalidBlte);
    }
    if src[8] != 0x0F {
        return Err(CascError::InvalidBlte);
    }
    let n: usize = src[9] as usize * 0x1_0000 + src[10] as usize * 0x100 + src[11] as usize;
    if n == 0 {
        return Err(CascError::InvalidBlte);
    }
    let expected_hs: usize = 12 + 24 * n;
    if hs as usize != expected_hs {
        return Err(CascError::InvalidBlte);
    }
    if src.len() < expected_hs {
        return Err(CascError::InvalidBlte);
    }
    proof {
        assert(n == chunk_count(src@));
    }
    let mut chunks: Vec<BlteChunk> = Vec::new();
    let mut i: usize = 0;
    while i < n
        invariant
            i <= n,
            n <= 0xFF_FFFF,
            src@.len() >= 12 + 24 * n,
            src@.len() <= usize::MAX,
            chunks@.len() == i,
            forall|j: int|
                0 <= j < i ==> {
                    &&& (#[trigger] chunks@[j]).compressed_size == chunk_comp(src@, j)
                    &&& chunks@[j].decompressed_size == chunk_decomp(src@, j)
                    &&& chunks@[j].checksum@ == chunk_hash(src@, j)
                },
        decreases n - i,
    {
        let to = 12 + 24 * i;
        let comp = src[to] as u32 * 0x100_0000 + src[to + 1] as u32 * 0x1_0000 + src[to
            + 2] as u32 * 0x100 + src[to + 3] as u32;
        let decomp = src[to + 4] as u32 * 0x100_0000 + src[to + 5] as u32 * 0x1_0000 + src[to
            + 6] as u32 * 0x100 + src[to + 7] as u32;
        let h = to + 8;
        let checksum: [u8; 16] = [
            src[h],
            src[h + 1],
            src[h + 2],
            src[h + 3],
            src[h + 4],
            src[h + 5],
            src[h + 6],
            src[h + 7],
            src[h + 8],
            src[h + 9],
            src[h + 10],
            src[h + 11],
            src[h + 12],
            src[h + 13],
            src[h + 14],
            src[h + 15],
        ];
        proof {
            assert(comp == chunk_comp(src@, i as int));
            assert(decomp == chunk_decomp(src@, i as int));
            assert(checksum@ =~= chunk_hash(src@, i as int));
        }
        chunks.push(BlteChunk { compressed_size: comp, decompressed_size: decomp, checksum });
        i = i + 1;
    }
    Ok(BlteFile { header, chunks })
}

} // verus!

//! The addressing types of the storage format: content and encoding keys,
//! index entries, and the tables built from them.

use vstd::prelude::*;

use std::collections::HashMap;

verus! {

/// The little-endian integer reading of a byte string, used to key maps by
/// fixed-size binary keys.
pub open spec fn key_id(s: Seq<u8>) -> int
    decreases s.len(),
{
    if s.len() == 0 {
        0
    } else {
        s[0] + 256 * key_id(s.drop_first())
    }
}

/// A 16-byte hash identifying an asset's content.
#[derive(Clone, Copy, Debug)]
pub struct ContentKey(pub [u8; 16]);

/// A 16-byte hash identifying one encoded representation of some content.
/// Local indices know only its first nine bytes; such truncated keys are
/// stored zero-padded.
#[derive(Clone, Copy, Debug)]
pub struct EncodingKey(pub [u8; 16]);

impl View for ContentKey {
    type V = Seq<u8>;

    open spec fn view(&self) -> Seq<u8> {
        self.0@
    }
}

impl View for EncodingKey {
    type V = Seq<u8>;

    open spec fn view(&self) -> Seq<u8> {
        self.0@
    }
}

/// Where one encoding key's payload lives: a numbered archive, a byte
/// offset and size, and the nine stored key bytes.
#[derive(Clone, Copy, Debug)]
pub struct IndexEntry {
    pub archive: u32,
    pub offset: u32,
    pub size: u32,
    pub key9: [u8; 9],
}

/// The spec-level shape of an index entry.
pub ghost struct SpecIndexEntry {
    pub archive: u32,
    pub offset: u32,
    pub size: u32,
    pub key9: Seq<u8>,
}

impl View for IndexEntry {
    type V = SpecIndexEntry;

    open spec fn view(&self) -> SpecIndexEntry {
        SpecIndexEntry {
            archive: self.archive,
            offset: self.offset,
            size: self.size,
            key9: self.key9@,
        }
    }
}

/// The numeric map key a 16-byte key is stored under.
pub open spec fn spec_key_to_u128(s: Seq<u8>) -> u128 {
    key_id(s) as u128
}

pub proof fn lemma_key_id_bound(s: Seq<u8>)
    ensures
        0 <= key_id(s),
        s.len() <= 16 ==> key_id(s) < 0x1_0000_0000_0000_0000_0000_0000_0000_0000,
    decreases s.len(),
{
    if s.len() > 0 {
        lemma_key_id_bound(s.drop_first());
    }
    if s.len() <= 16 {
        lemma_key_id_pow_bound(s, 16);
        lemma_pow256_16();
    }
}

proof fn lemma_key_id_pow_bound(s: Seq<u8>, k: nat)
    requires
        s.len() <= k,
    ensures
        0 <= key_id(s) < pow256(k),
    decreases k,
{
    if s.len() == 0 {
        lemma_pow256_pos(k);
    } else {
        lemma_key_id_pow_bound(s.drop_first(), (k - 1) as nat);
        assert(pow256(k) == 256 * pow256((k - 1) as nat));
    }
}

pub open spec fn pow256(k: nat) -> int
    decreases k,
{
    if k == 0 {
        1
    } else {
        256 * pow256((k - 1) as nat)
    }
}

proof fn lemma_pow256_16()
    ensures
        pow256(16) == 0x1_0000_0000_0000_0000_0000_0000_0000_0000,
{
    assert(pow256(1) == 256 * pow256(0));
    assert(pow256(2) == 256 * pow256(1));
    assert(pow256(3) == 256 * pow256(2));
    assert(pow256(4) == 256 * pow256(3));
    assert(pow256(5) == 256 * pow256(4));
    assert(pow256(6) == 256 * pow256(5));
    assert(pow256(7) == 256 * pow256(6));
    assert(pow256(8) == 256 * pow256(7));
    assert(pow256(9) == 256 * pow256(8));
    assert(pow256(10) == 256 * pow256(9));
    assert(pow256(11) == 256 * pow256(10));
    assert(pow256(12) == 256 * pow256(11));
    assert(pow256(13) == 256 * pow256(12));
    assert(pow256(14) == 256 * pow256(13));
    assert(pow256(15) == 256 * pow256(14));
    assert(pow256(16) == 256 * pow256(15));
}

proof fn lemma_pow256_pos(k: nat)
    ensures
        pow256(k) >= 1,
    decreases k,
{
    if k > 0 {
        lemma_pow256_pos((k - 1) as nat);
    }
}

/// Converts a 16-byte key into the integer it is stored under.
pub fn key_to_u128(key: &[u8; 16]) -> (r: u128)
    ensures
        r == spec_key_to_u128(key@),
{
    let mut acc: u128 = 0;
    let mut i: usize = 16;
    while i > 0
        invariant
            i <= 16,
            acc == key_id(key@.skip(i as int)),
            acc < pow256((16 - i) as nat),
        decreases i,
    {
        proof {
            assert(key@.skip(i as int - 1).drop_first() =~= key@.skip(i as int));
            lemma_key_id_pow_bound(key@.skip(i as int), (16 - i) as nat);
            lemma_key_id_pow_bound(key@.skip(i as int - 1), (16 - i + 1) as nat);
            lemma_pow256_16();
            lemma_pow256_mono((16 - i + 1) as nat);
        }
        acc = acc * 256 + key[i - 1] as u128;
        proof {
            assert(key@.skip(i as int - 1)[0] == key@[i - 1]);
        }
        i = i - 1;
    }
    proof {
        assert(key@.skip(0) =~= key@);
    }
    acc
}

proof fn lemma_pow256_mono(k: nat)
    requires
        k <= 16,
    ensures
        pow256(k) <= pow256(16),
    decreases 16 - k,
{
    if k < 16 {
        lemma_pow256_mono((k + 1) as nat);
        lemma_pow256_pos(k);
        assert(pow256((k + 1) as nat) == 256 * pow256(k));
    }
}

/// The lookup table mapping an encoding key to its archive location,
/// stored under the key's integer form.
pub struct IndexStore {
    pub entries: HashMap<u128, IndexEntry>,
}

/// A remote index table: identical shape, built from CDN-style indices.
pub struct CdnIndexStore {
    pub entries: HashMap<u128, IndexEntry>,
}

/// One content key's row in the encoding table: the encoded representations
/// and the declared content size.
pub struct EncodingEntry {
    pub encoding_keys: Vec<EncodingKey>,
    pub size: u64,
}

/// The spec-level shape of an encoding entry.
pub ghost struct SpecEncodingEntry {
    pub encoding_keys: Seq<Seq<u8>>,
    pub size: u64,
}

impl View for EncodingEntry {
    type V = SpecEncodingEntry;

    open spec fn view(&self) -> SpecEncodingEntry {
        SpecEncodingEntry {
            encoding_keys: self.encoding_keys@.map_values(|k: EncodingKey| k@),
            size: self.size,
        }
    }
}

/// Maps a content key to its encoded representations, keyed by the content
/// key's integer form; `encryption` records which key names an encoded
/// representation's compression spec demands.
pub struct EncodingTable {
    pub entries: HashMap<u128, EncodingEntry>,
    pub encryption: HashMap<u128, Vec<u64>>,
}

/// The build configuration resolved at startup: hashes, CDN endpoints and
/// archive names, all immutable once parsed.
pub struct CascConfig {
    pub build_name: Vec<u8>,
    pub root_hash: [u8; 16],
    pub encoding_ckey: [u8; 16],
    pub encoding_ekey: [u8; 16],
    pub archives: Vec<Vec<u8>>,
    pub cdn_hosts: Vec<Vec<u8>>,
    pub cdn_path: Vec<u8>,
    pub build_key: [u8; 16],
    pub cdn_key: [u8; 16],
}

} // verus!

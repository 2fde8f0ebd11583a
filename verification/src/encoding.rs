//! The encoding table: maps a content key to its encoded representations.
//! Content-key pages hold variable-count records, each a key count, a
//! 40-bit size, the content key and that many encoding keys; pages are
//! 4 KiB-aligned with one documented off-by-one padding quirk. A second
//! pass over encoding-key pages collects the decryption-key names embedded
//! in compression-spec strings.

use vstd::prelude::*;

use std::collections::HashMap;

use crate::bytes::{be32_at, be40_at, zeros};
use crate::hexutil::{hex_bytes_of, hex_well_formed};
use crate::text::{sep_prefix_len, spec_split};
use crate::errors::CascError;
use crate::types::{
    key_to_u128, spec_key_to_u128, ContentKey, EncodingEntry, EncodingKey, EncodingTable,
    SpecEncodingEntry,
};

verus! {

broadcast use vstd::std_specs::hash::group_hash_axioms;

/// An encoding key truncated to the nine bytes a local index stores,
/// zero-padded back to full width.
pub fn normalize_ekey(ekey: [u8; 16]) -> (r: EncodingKey)
    ensures
        r@ == ekey@.take(9) + zeros(7),
{
    let k = EncodingKey(
        [
            ekey[0],
            ekey[1],
            ekey[2],
            ekey[3],
            ekey[4],
            ekey[5],
            ekey[6],
            ekey[7],
            ekey[8],
            0,
            0,
            0,
            0,
            0,
            0,
            0,
        ],
    );
    proof {
        assert(k@ =~= ekey@.take(9) + zeros(7));
    }
    k
}

/// The spec view of the content-key table.
pub open spec fn entries_view(m: Map<u128, EncodingEntry>) -> Map<u128, SpecEncodingEntry> {
    Map::new(|k: u128| m.contains_key(k), |k: u128| m[k]@)
}

/// What one content-key record folds into the table: the declared
/// encoding keys under the content key's integer form, first record
/// winning on a duplicate key.
pub open spec fn spec_ckey_record(
    data: Seq<u8>,
    pos: int,
    kc: int,
) -> SpecEncodingEntry {
    SpecEncodingEntry {
        encoding_keys: Seq::new(kc as nat, |j: int| data.subrange(pos + 22 + 16 * j, pos + 38 + 16 * j)),
        size: be40_at(data, pos + 1),
    }
}

/// Folds the records of one content-key page: records run until a zero
/// key count, which also ends the page.
pub open spec fn spec_page_fold(data: Seq<u8>, pos: int, m: Map<u128, SpecEncodingEntry>)
    -> Option<(int, Map<u128, SpecEncodingEntry>)>
    decreases data.len() - pos,
{
    if pos < 0 || pos + 1 > data.len() {
        None
    } else if data[pos] == 0 {
        Some((pos + 1, m))
    } else {
        let kc = data[pos] as int;
        let next = pos + 22 + 16 * kc;
        if next > data.len() {
            None
        } else {
            let ck = spec_key_to_u128(data.subrange(pos + 6, pos + 22));
            let m1 = if m.contains_key(ck) {
                m
            } else {
                m.insert(ck, spec_ckey_record(data, pos, kc))
            };
            spec_page_fold(data, next, m1)
        }
    }
}

/// Parses the records of one content-key page, returning the position
/// just past the terminating zero count.
fn parse_ckey_page(data: &[u8], pos: usize, entries: &mut HashMap<u128, EncodingEntry>) -> (r:
    Result<usize, CascError>)
    requires
        pos <= data@.len(),
    ensures
        match spec_page_fold(data@, pos as int, entries_view(old(entries)@)) {
            Some(p) => r matches Ok(np) && np == p.0 && entries_view(final(entries)@) == p.1
                && pos < np <= data@.len(),
            None => r == Err::<usize, CascError>(CascError::InvalidConfig),
        },
{
    let dlen = data.len();
    proof {
        assert(data@.len() == dlen);
    }
    let mut cur = pos;
    let ghost m0 = entries_view(entries@);
    loop
        invariant
            pos <= cur <= data@.len(),
            data@.len() <= usize::MAX,
            m0 == entries_view(old(entries)@),
            spec_page_fold(data@, pos as int, m0) == spec_page_fold(
                data@,
                cur as int,
                entries_view(entries@),
            ),
            cur > pos || entries_view(entries@) == m0,
        decreases data@.len() - cur,
    {
        if cur >= data.len() {
            return Err(CascError::InvalidConfig);
        }
        let kc = data[cur];
        if kc == 0 {
            return Ok(cur + 1);
        }
        let kc_us = kc as usize;
        if 22 + 16 * kc_us > data.len() - cur {
            return Err(CascError::InvalidConfig);
        }
        let next = cur + 22 + 16 * kc_us;
        let size = data[cur + 1] as u64 * 0x1_0000_0000 + data[cur + 2] as u64 * 0x100_0000
            + data[cur + 3] as u64 * 0x1_0000 + data[cur + 4] as u64 * 0x100 + data[cur
            + 5] as u64;
        proof {
            assert(size == be40_at(data@, cur + 1));
        }
        let ckey_full: [u8; 16] = [
            data[cur + 6],
            data[cur + 7],
            data[cur + 8],
            data[cur + 9],
            data[cur + 10],
            data[cur + 11],
            data[cur + 12],
            data[cur + 13],
            data[cur + 14],
            data[cur + 15],
            data[cur + 16],
            data[cur + 17],
            data[cur + 18],
            data[cur + 19],
            data[cur + 20],
            data[cur + 21],
        ];
        proof {
            assert(ckey_full@ =~= data@.subrange(cur + 6, cur + 22));
        }
        let ck = key_to_u128(&ckey_full);
        let mut encoding_keys: Vec<EncodingKey> = Vec::new();
        let mut j: usize = 0;
        while j < kc_us
            invariant
                j <= kc_us,
                cur + 22 + 16 * kc_us <= data@.len(),
                data@.len() <= usize::MAX,
                encoding_keys@.len() == j,
                forall|t: int|
                    0 <= t < j ==> #[trigger] encoding_keys@[t]@ == data@.subrange(
                        cur + 22 + 16 * t,
                        cur + 38 + 16 * t,
                    ),
            decreases kc_us - j,
        {
            let o = cur + 22 + 16 * j;
            let ek = EncodingKey(
                [
                    data[o],
                    data[o + 1],
                    data[o + 2],
                    data[o + 3],
                    data[o + 4],
                    data[o + 5],
                    data[o + 6],
                    data[o + 7],
                    data[o + 8],
                    data[o + 9],
                    data[o + 10],
                    data[o + 11],
                    data[o + 12],
                    data[o + 13],
                    data[o + 14],
                    data[o + 15],
                ],
            );
            proof {
                assert(ek@ =~= data@.subrange(cur + 22 + 16 * j, cur + 38 + 16 * j));
            }
            encoding_keys.push(ek);
            j = j + 1;
        }
        let entry = EncodingEntry { encoding_keys, size };
        proof {
            assert(entry@.encoding_keys =~= spec_ckey_record(data@, cur as int, kc as int)
                .encoding_keys);
            assert(entry@ == spec_ckey_record(data@, cur as int, kc as int));
        }
        let ghost pre = entries_view(entries@);
        if !entries.contains_key(&ck) {
            entries.insert(ck, entry);
            proof {
                assert(entries_view(entries@) =~= pre.insert(ck, spec_ckey_record(
                    data@,
                    cur as int,
                    kc as int,
                )));
            }
        }
        cur = next;
    }
}

/// Folds the content-key pages in order: each page's records, then the
/// 4 KiB alignment skip, with the documented off-by-one step back when a
/// page's terminator lands one byte past its boundary.
pub open spec fn spec_ckey_pages(
    data: Seq<u8>,
    pos: int,
    chunk_start: int,
    i: nat,
    n: nat,
    m: Map<u128, SpecEncodingEntry>,
) -> Option<(int, Map<u128, SpecEncodingEntry>)>
    decreases n - i,
{
    if i >= n {
        Some((pos, m))
    } else {
        match spec_page_fold(data, pos, m) {
            Some(p) => {
                let used = (p.0 - chunk_start) % 4096;
                let rem = 4096 - used;
                if rem == 0x0FFF {
                    spec_ckey_pages(data, p.0 - 1, chunk_start, (i + 1) as nat, n, p.1)
                } else if p.0 + rem > data.len() {
                    None
                } else {
                    spec_ckey_pages(data, p.0 + rem, chunk_start, (i + 1) as nat, n, p.1)
                }
            },
            None => None,
        }
    }
}

/// Whether one encoding-key page scans cleanly from `pos`: 25-byte
/// records until the page runs out of room or an unused spec index ends
/// it; the position past the page comes back.
pub open spec fn spec_ekey_page_end(data: Seq<u8>, pos: int, chunk_start: int, nspecs: int)
    -> Option<int>
    decreases data.len() + 4096 - pos,
{
    if pos < 0 || pos > data.len() {
        None
    } else {
        let used = (pos - chunk_start) % 4096;
        let rem = 4096 - used;
        if rem < 25 {
            if pos + rem > data.len() {
                None
            } else {
                Some(pos + rem)
            }
        } else if pos + 25 > data.len() {
            None
        } else if be32_at(data, pos + 16) == 0xFFFF_FFFFu32 {
            if pos + rem > data.len() {
                None
            } else {
                Some(pos + rem)
            }
        } else if be32_at(data, pos + 16) >= nspecs {
            None
        } else {
            spec_ekey_page_end(data, pos + 25, chunk_start, nspecs)
        }
    }
}

/// Whether the encoding-key pages from `i` on scan cleanly.
pub open spec fn spec_ekey_pages_ok(
    data: Seq<u8>,
    pos: int,
    chunk_start: int,
    i: nat,
    n: nat,
    nspecs: int,
) -> bool
    decreases n - i,
{
    if i >= n {
        true
    } else {
        match spec_ekey_page_end(data, pos, chunk_start, nspecs) {
            Some(np) => spec_ekey_pages_ok(data, np, chunk_start, (i + 1) as nat, n, nspecs),
            None => false,
        }
    }
}

/// When an encoding payload is accepted outright: the header and spec
/// block fit, the content-key page chain folds, the encoding-key page
/// hash table fits, and every encoding-key page scans cleanly.
pub open spec fn spec_encoding_accepts(data: Seq<u8>) -> bool {
    &&& data.len() >= 22
    &&& 22 + be32_at(data, 18) <= data.len()
    &&& spec_ckey_pages_start(data) <= data.len()
    &&& match spec_ckey_pages(
        data,
        spec_ckey_pages_start(data),
        spec_ckey_pages_start(data),
        0,
        be32_at(data, 9) as nat,
        Map::empty(),
    ) {
        Some(p) => {
            let p2 = p.0 + 32 * (be32_at(data, 13) as int);
            &&& p2 <= data.len()
            &&& spec_ekey_pages_ok(
                data,
                p2,
                p2,
                0,
                be32_at(data, 13) as nat,
                spec_split(data.subrange(22, 22 + be32_at(data, 18)), 0).len() as int,
            )
        },
        None => false,
    }
}

/// Where the content-key pages start: after the fixed header, the
/// compression-spec block and the page hash table.
pub open spec fn spec_ckey_pages_start(data: Seq<u8>) -> int {
    22 + be32_at(data, 18) + 32 * (be32_at(data, 9) as int)
}

impl EncodingTable {
    /// Parses an encoding-table payload. The content-key pages are folded
    /// into the table in order, first record winning per content key; the
    /// encoding-key pages are scanned for embedded decryption-key names.
    /// Truncated or malformed layouts fail with `InvalidConfig`.
    #[verifier::rlimit(100)]
    pub fn parse(data: &[u8]) -> (r: Result<EncodingTable, CascError>)
        ensures
            r matches Ok(t) ==> {
                &&& data@.len() >= 22
                &&& (match spec_ckey_pages(
                    data@,
                    spec_ckey_pages_start(data@),
                    spec_ckey_pages_start(data@),
                    0,
                    be32_at(data@, 9) as nat,
                    Map::empty(),
                ) {
                    Some(p) => p.1 == entries_view(t.entries@),
                    None => false,
                })
            },
            spec_encoding_accepts(data@) ==> r is Ok,
    {
        if data.len() < 22 {
            return Err(CascError::InvalidConfig);
        }
        let ckey_page_count = data[9] as u64 * 0x100_0000 + data[10] as u64 * 0x1_0000 + data[11]
            as u64 * 0x100 + data[12] as u64;
        let ekey_page_count = data[13] as u64 * 0x100_0000 + data[14] as u64 * 0x1_0000 + data[15]
            as u64 * 0x100 + data[16] as u64;
        let espec_block_size = data[18] as u64 * 0x100_0000 + data[19] as u64 * 0x1_0000 + data[20]
            as u64 * 0x100 + data[21] as u64;
        if espec_block_size > data.len() as u64 - 22 {
            return Err(CascError::InvalidConfig);
        }
        let espec_start: usize = 22;
        let espec_len = espec_block_size as usize;
        let espec_raw = crate::text::slice_to_vec(data, espec_start, espec_start + espec_len);
        let espec = crate::text::split_byte(espec_raw.as_slice(), 0);
        // Skip the content-key page hash table.
        let after_espec = espec_start + espec_len;
        if ckey_page_count > (data.len() as u64 - after_espec as u64) / 32 {
            return Err(CascError::InvalidConfig);
        }
        let mut pos: usize = after_espec + 32 * ckey_page_count as usize;
        let chunk_start = pos;
        let mut entries: HashMap<u128, EncodingEntry> = HashMap::new();
        let dlen = data.len();
        proof {
            assert(data@.len() == dlen);
            assert(chunk_start as int == spec_ckey_pages_start(data@));
            assert(entries_view(entries@) =~= Map::<u128, SpecEncodingEntry>::empty());
        }
        let mut i: u64 = 0;
        while i < ckey_page_count
            invariant
                chunk_start <= pos <= data@.len(),
                data@.len() <= usize::MAX,
                i <= ckey_page_count,
                ckey_page_count == be32_at(data@, 9),
                chunk_start as int == spec_ckey_pages_start(data@),
                spec_ckey_pages(
                    data@,
                    chunk_start as int,
                    chunk_start as int,
                    0,
                    ckey_page_count as nat,
                    Map::empty(),
                ) == spec_ckey_pages(
                    data@,
                    pos as int,
                    chunk_start as int,
                    i as nat,
                    ckey_page_count as nat,
                    entries_view(entries@),
                ),
            decreases ckey_page_count - i,
        {
            match parse_ckey_page(data, pos, &mut entries) {
                Ok(np) => {
                    pos = np;
                },
                Err(e) => {
                    return Err(e);
                },
            }
            let used = (pos - chunk_start) % 4096;
            let remaining = 4096 - used;
            if remaining == 0x0FFF {
                // Documented off-by-one: step back onto the page boundary.
                pos = pos - 1;
                i = i + 1;
                continue ;
            }
            if remaining > data.len() - pos {
                return Err(CascError::InvalidConfig);
            }
            pos = pos + remaining;
            i = i + 1;
        }
        // Second pass: encoding-key pages, for embedded key names.
        let ghost nspecs = espec@.len() as int;
        proof {
            assert(nspecs == spec_split(data@.subrange(22, 22 + be32_at(data@, 18)), 0).len());
            assert(spec_ckey_pages(data@, chunk_start as int, chunk_start as int, 0,
                ckey_page_count as nat, Map::<u128, SpecEncodingEntry>::empty()) == Some((
                pos as int,
                entries_view(entries@),
            )));
        }
        if ekey_page_count > (data.len() as u64 - pos as u64) / 32 {
            return Err(CascError::InvalidConfig);
        }
        pos = pos + 32 * ekey_page_count as usize;
        let chunk_start2 = pos;
        let mut encryption: HashMap<u128, Vec<u64>> = HashMap::new();
        let dlen2 = data.len();
        proof {
            assert(data@.len() == dlen2);
        }
        let mut i2: u64 = 0;
        while i2 < ekey_page_count
            invariant
                chunk_start2 <= pos <= data@.len(),
                data@.len() <= usize::MAX,
                i2 <= ekey_page_count,
                nspecs == espec@.len() as int,
                nspecs == spec_split(data@.subrange(22, 22 + be32_at(data@, 18)), 0).len() as int,
                ekey_page_count == be32_at(data@, 13),
                (match spec_ckey_pages(
                    data@,
                    spec_ckey_pages_start(data@),
                    spec_ckey_pages_start(data@),
                    0,
                    be32_at(data@, 9) as nat,
                    Map::<u128, SpecEncodingEntry>::empty(),
                ) {
                    Some(p) => p.0 + 32 * (be32_at(data@, 13) as int) == chunk_start2 as int,
                    None => false,
                }),
                spec_ekey_pages_ok(
                    data@,
                    chunk_start2 as int,
                    chunk_start2 as int,
                    0,
                    ekey_page_count as nat,
                    nspecs,
                ) == spec_ekey_pages_ok(
                    data@,
                    pos as int,
                    chunk_start2 as int,
                    i2 as nat,
                    ekey_page_count as nat,
                    nspecs,
                ),
            decreases ekey_page_count - i2,
        {
            match scan_ekey_page(data, pos, chunk_start2, &espec, &mut encryption) {
                Ok(np) => {
                    pos = np;
                },
                Err(e) => {
                    return Err(e);
                },
            }
            i2 = i2 + 1;
        }
        Ok(EncodingTable { entries, encryption })
    }

    /// The encoding entry registered for a content key.
    pub fn get(&self, key: &ContentKey) -> (r: Option<&EncodingEntry>)
        ensures
            match r {
                Some(e) => entries_view(self.entries@).contains_key(spec_key_to_u128(key@))
                    && e@ == entries_view(self.entries@)[spec_key_to_u128(key@)],
                None => !entries_view(self.entries@).contains_key(spec_key_to_u128(key@)),
            },
    {
        let id = key_to_u128(&key.0);
        self.entries.get(&id)
    }
}

/// Walks one encoding-key page: reads 25-byte-plus records until the page
/// runs out of room or an unused spec index ends it, recording any key
/// names embedded in each record's compression spec.
fn scan_ekey_page(
    data: &[u8],
    pos: usize,
    chunk_start: usize,
    espec: &Vec<Vec<u8>>,
    encryption: &mut HashMap<u128, Vec<u64>>,
) -> (r: Result<usize, CascError>)
    requires
        chunk_start <= pos <= data@.len(),
    ensures
        match r {
            Ok(np) => chunk_start <= np <= data@.len() && np > pos && spec_ekey_page_end(
                data@,
                pos as int,
                chunk_start as int,
                espec@.len() as int,
            ) == Some(np as int),
            Err(e) => e == CascError::InvalidConfig && spec_ekey_page_end(
                data@,
                pos as int,
                chunk_start as int,
                espec@.len() as int,
            ) is None,
        },
{
    let dlen = data.len();
    proof {
        assert(data@.len() == dlen);
    }
    let mut cur = pos;
    loop
        invariant
            chunk_start <= cur <= data@.len(),
            data@.len() <= usize::MAX,
            cur >= pos,
            spec_ekey_page_end(data@, pos as int, chunk_start as int, espec@.len() as int)
                == spec_ekey_page_end(data@, cur as int, chunk_start as int, espec@.len() as int),
        decreases data@.len() + 4096 - cur,
    {
        let used = (cur - chunk_start) % 4096;
        let remaining = 4096 - used;
        if remaining < 25 {
            if remaining > data.len() - cur {
                return Err(CascError::InvalidConfig);
            }
            return Ok(cur + remaining);
        }
        if 25 > data.len() - cur {
            return Err(CascError::InvalidConfig);
        }
        let ekey_full: [u8; 16] = [
            data[cur],
            data[cur + 1],
            data[cur + 2],
            data[cur + 3],
            data[cur + 4],
            data[cur + 5],
            data[cur + 6],
            data[cur + 7],
            data[cur + 8],
            data[cur + 9],
            data[cur + 10],
            data[cur + 11],
            data[cur + 12],
            data[cur + 13],
            data[cur + 14],
            data[cur + 15],
        ];
        let espec_index = data[cur + 16] as u32 * 0x100_0000 + data[cur + 17] as u32 * 0x1_0000
            + data[cur + 18] as u32 * 0x100 + data[cur + 19] as u32;
        proof {
            assert(espec_index == be32_at(data@, cur + 16));
        }
        if espec_index == 0xFFFF_FFFF {
            if remaining > data.len() - cur {
                return Err(CascError::InvalidConfig);
            }
            return Ok(cur + remaining);
        }
        if espec_index as u64 >= espec.len() as u64 {
            return Err(CascError::InvalidConfig);
        }
        let names = parse_encryption_keys(espec[espec_index as usize].as_slice());
        if names.len() > 0 {
            let ek = key_to_u128(&ekey_full);
            encryption.insert(ek, names);
        }
        cur = cur + 25;
    }
}

/// The first position at or after `from` where the key marker `e:{`
/// occurs, or -1 when it occurs no more.
pub open spec fn spec_marker_pos(s: Seq<u8>, from: int) -> int
    decreases s.len() - from,
{
    if from < 0 || from + 3 > s.len() {
        -1
    } else if s[from] == 0x65 && s[from + 1] == 0x3a && s[from + 2] == 0x7b {
        from
    } else {
        spec_marker_pos(s, from + 1)
    }
}

proof fn lemma_marker_pos_char(s: Seq<u8>, from: int, i: int)
    requires
        0 <= from <= i,
        i + 3 <= s.len(),
        s[i] == 0x65 && s[i + 1] == 0x3a && s[i + 2] == 0x7b,
        forall|j: int|
            from <= j < i ==> !(#[trigger] s[j] == 0x65 && s[j + 1] == 0x3a && s[j + 2] == 0x7b),
    ensures
        spec_marker_pos(s, from) == i,
    decreases i - from,
{
    if from < i {
        lemma_marker_pos_char(s, from + 1, i);
    }
}

proof fn lemma_marker_pos_none(s: Seq<u8>, from: int)
    requires
        0 <= from,
        forall|j: int|
            from <= j && j + 3 <= s.len() ==> !(#[trigger] s[j] == 0x65 && s[j + 1] == 0x3a && s[j
                + 2] == 0x7b),
    ensures
        spec_marker_pos(s, from) == -1,
    decreases s.len() - from,
{
    if from + 3 <= s.len() {
        lemma_marker_pos_none(s, from + 1);
    }
}

/// The key names embedded from `from` on: every `e:{` marker followed by
/// sixteen hexadecimal digits and a comma contributes the digits' bytes
/// read as a little-endian 64-bit name, in order of appearance.
pub open spec fn spec_enc_key_names(s: Seq<u8>, from: int) -> Seq<u64>
    decreases s.len() + 2 - from,
    via spec_enc_key_names_decreases
{
    let at = spec_marker_pos(s, from);
    if from < 0 || from > s.len() || at < 0 {
        Seq::empty()
    } else {
        let start = at + 3;
        if start >= s.len() {
            Seq::empty()
        } else {
            let cl = sep_prefix_len(s.skip(start), 0x2c) as int;
            if start + cl >= s.len() {
                Seq::empty()
            } else {
                let comma = start + cl;
                let digits = s.subrange(start, comma);
                let head: Seq<u64> = if digits.len() == 16 && hex_well_formed(digits) {
                    seq![spec_le64_name(hex_bytes_of(digits))]
                } else {
                    Seq::empty()
                };
                head + spec_enc_key_names(s, comma + 1)
            }
        }
    }
}

#[via_fn]
proof fn spec_enc_key_names_decreases(s: Seq<u8>, from: int) {
    lemma_marker_pos_range(s, from);
}

proof fn lemma_marker_pos_range(s: Seq<u8>, from: int)
    ensures
        spec_marker_pos(s, from) == -1 || (spec_marker_pos(s, from) >= from && spec_marker_pos(
            s,
            from,
        ) + 3 <= s.len()),
    decreases s.len() - from,
{
    if from >= 0 && from + 3 <= s.len() && !(s[from] == 0x65 && s[from + 1] == 0x3a && s[from + 2]
        == 0x7b) {
        lemma_marker_pos_range(s, from + 1);
    }
}

/// The little-endian 64-bit reading of eight bytes.
pub open spec fn spec_le64_name(b: Seq<u8>) -> u64 {
    crate::bytes::le64_at(b, 0)
}

/// The key names a compression-spec string embeds: every `e:{` marker
/// followed by sixteen hexadecimal digits and a comma names one 64-bit
/// key, read little-endian from the decoded digits.
#[verifier::rlimit(100)]
pub fn parse_encryption_keys(espec: &[u8]) -> (r: Vec<u64>)
    ensures
        r@ == spec_enc_key_names(espec@, 0),
{
    let elen = espec.len();
    proof {
        assert(espec@.len() == elen);
    }
    let mut results: Vec<u64> = Vec::new();
    let mut search: usize = 0;
    let marker: [u8; 3] = [0x65, 0x3a, 0x7b];
    let msl = &marker[0..3];
    loop
        invariant
            search <= espec@.len() + 1,
            espec@.len() <= usize::MAX,
            msl@ =~= seq![0x65u8, 0x3au8, 0x7bu8],
            spec_enc_key_names(espec@, 0) == results@ + spec_enc_key_names(
                espec@,
                search as int,
            ),
        decreases espec@.len() + 2 - search,
    {
        if search > espec.len() {
            proof {
                assert(spec_enc_key_names(espec@, search as int) =~= Seq::<u64>::empty());
                assert(results@ + Seq::<u64>::empty() =~= results@);
            }
            return results;
        }
        let found = crate::text::find_sub(espec, msl, search);
        let at = match found {
            Some(p) => {
                proof {
                    assert forall|j: int|
                        search <= j < p implies !(#[trigger] espec@[j] == 0x65 && espec@[j + 1]
                        == 0x3a && espec@[j + 2] == 0x7b) by {
                        if j + 3 <= espec@.len() {
                            assert(espec@.subrange(j, j + msl@.len()) != msl@);
                            if espec@[j] == 0x65 && espec@[j + 1] == 0x3a && espec@[j + 2]
                                == 0x7b {
                                assert(espec@.subrange(j, j + msl@.len()) =~= msl@);
                            }
                        }
                    }
                    assert(espec@.subrange(p as int, p + msl@.len()) == msl@);
                    assert(espec@[p as int] == 0x65 && espec@[p + 1] == 0x3a && espec@[p + 2]
                        == 0x7b) by {
                        assert(espec@.subrange(p as int, p + 3)[0] == espec@[p as int]);
                        assert(espec@.subrange(p as int, p + 3)[1] == espec@[p + 1]);
                        assert(espec@.subrange(p as int, p + 3)[2] == espec@[p + 2]);
                    }
                    lemma_marker_pos_char(espec@, search as int, p as int);
                }
                p
            },
            None => {
                proof {
                    assert forall|j: int|
                        search <= j && j + 3 <= espec@.len() implies !(#[trigger] espec@[j]
                        == 0x65 && espec@[j + 1] == 0x3a && espec@[j + 2] == 0x7b) by {
                        assert(espec@.subrange(j, j + msl@.len()) != msl@);
                        if espec@[j] == 0x65 && espec@[j + 1] == 0x3a && espec@[j + 2] == 0x7b {
                            assert(espec@.subrange(j, j + msl@.len()) =~= msl@);
                        }
                    }
                    lemma_marker_pos_none(espec@, search as int);
                    assert(spec_enc_key_names(espec@, search as int) =~= Seq::<u64>::empty());
                    assert(results@ + Seq::<u64>::empty() =~= results@);
                }
                return results;
            },
        };
        let start = at + 3;
        if start >= espec.len() {
            proof {
                assert(spec_enc_key_names(espec@, search as int) =~= Seq::<u64>::empty());
                assert(results@ + Seq::<u64>::empty() =~= results@);
            }
            return results;
        }
        let comma = match crate::text::find_byte(espec, start, 0x2c) {
            Some(c) => {
                proof {
                    let rest = espec@.skip(start as int);
                    assert forall|j: int| 0 <= j < c - start implies #[trigger] rest[j] != 0x2c
                        by {
                        assert(rest[j] == espec@[j + start]);
                    }
                    assert(rest[c - start] == espec@[c as int]);
                    crate::text::lemma_sep_prefix_char(rest, 0x2c, c - start);
                }
                c
            },
            None => {
                proof {
                    let rest = espec@.skip(start as int);
                    assert forall|j: int| 0 <= j < rest.len() implies #[trigger] rest[j] != 0x2c
                        by {
                        assert(rest[j] == espec@[j + start]);
                    }
                    crate::text::lemma_sep_prefix_char(rest, 0x2c, rest.len() as int);
                    assert(spec_enc_key_names(espec@, search as int) =~= Seq::<u64>::empty());
                    assert(results@ + Seq::<u64>::empty() =~= results@);
                }
                return results;
            },
        };
        let ghost pre = results@;
        if comma - start == 16 {
            let candidate = &espec[start..comma];
            proof {
                assert(candidate@ =~= espec@.subrange(start as int, comma as int));
            }
            match crate::hexutil::decode_hex(candidate) {
                Some(bytes) => {
                    if bytes.len() == 8 {
                        let name = bytes[0] as u64 + bytes[1] as u64 * 0x100 + bytes[2] as u64
                            * 0x1_0000 + bytes[3] as u64 * 0x100_0000 + bytes[4] as u64
                            * 0x1_0000_0000 + bytes[5] as u64 * 0x100_0000_0000 + bytes[6] as u64
                            * 0x1_0000_0000_0000 + bytes[7] as u64 * 0x100_0000_0000_0000;
                        proof {
                            assert(name == spec_le64_name(bytes@));
                        }
                        results.push(name);
                    }
                },
                None => {},
            }
        }
        proof {
            let sfrom = search as int;
            let digits = espec@.subrange(start as int, comma as int);
            let head: Seq<u64> = if digits.len() == 16 && hex_well_formed(digits) {
                seq![spec_le64_name(hex_bytes_of(digits))]
            } else {
                Seq::<u64>::empty()
            };
            assert(spec_enc_key_names(espec@, sfrom) == head + spec_enc_key_names(
                espec@,
                comma + 1,
            ));
            assert(results@ =~= pre + head);
            assert(pre + (head + spec_enc_key_names(espec@, comma + 1)) =~= (pre + head)
                + spec_enc_key_names(espec@, comma + 1));
        }
        search = comma + 1;
    }
}

} // verus!

//! Heuristic extraction of decryption keys from the two key tables found
//! inside the asset store itself. The tables' internal field widths shift
//! between builds, so a plausible record header and id table are located
//! by scanning, two candidate id-shift widths are tried, and of two
//! parseable record counts the one scoring best against known probe pairs
//! wins, the larger count on a tie.

use vstd::prelude::*;

use std::collections::HashMap;

use crate::bytes::{le32_at, le64_at};
use crate::errors::CascError;
use crate::keysvc::KeyService;
use crate::text::find_sub;

verus! {

broadcast use vstd::std_specs::hash::group_hash_axioms;

/// Whether the sixteen bytes at `off` look like a plausible table header:
/// a sane record count, small auxiliary words, and the expected key size.
pub open spec fn spec_header_ok(payload: Seq<u8>, off: int, expected_key_size: u32) -> bool {
    let rc = le32_at(payload, off);
    let unk1 = le32_at(payload, off + 4);
    let ks = le32_at(payload, off + 8);
    let unk2 = le32_at(payload, off + 12);
    &&& 1 <= rc < 100_000
    &&& unk1 > 0
    &&& unk1 < 0x100
    &&& unk2 < 0x1_0000
    &&& ks == expected_key_size
}

/// Scans forward in 4-byte steps for a plausible table header, returning
/// the first hit and its record count.
pub fn find_static_header(payload: &[u8], expected_key_size: u32) -> (r: Result<
    (usize, u32),
    CascError,
>)
    ensures
        match r {
            Ok(p) => {
                &&& p.0 % 4 == 0
                &&& p.0 + 16 <= payload@.len()
                &&& spec_header_ok(payload@, p.0 as int, expected_key_size)
                &&& p.1 == le32_at(payload@, p.0 as int)
                &&& (forall|o: int|
                    0 <= o < p.0 && o % 4 == 0 ==> !spec_header_ok(
                        payload@,
                        o,
                        expected_key_size,
                    ))
            },
            Err(e) => e == CascError::InvalidConfig && (forall|o: int|
                0 <= o && o % 4 == 0 && o < payload@.len() - 16 ==> !spec_header_ok(
                    payload@,
                    o,
                    expected_key_size,
                )),
        },
{
    if payload.len() < 17 {
        return Err(CascError::InvalidConfig);
    }
    let limit = payload.len() - 16;
    let mut off: usize = 0;
    while off < limit
        invariant
            off % 4 == 0,
            limit == payload@.len() - 16,
            payload@.len() <= usize::MAX,
            forall|o: int|
                0 <= o < off && o % 4 == 0 ==> !spec_header_ok(payload@, o, expected_key_size),
        decreases limit + 4 - off,
    {
        let rc = read32(payload, off);
        let unk1 = read32(payload, off + 4);
        let ks = read32(payload, off + 8);
        let unk2 = read32(payload, off + 12);
        if 1 <= rc && rc < 100_000 && unk1 > 0 && unk1 < 0x100 && unk2 < 0x1_0000 && ks
            == expected_key_size {
            return Ok((off, rc));
        }
        off = off + 4;
    }
    Err(CascError::InvalidConfig)
}

/// The id word of record `i` of a candidate table at `start`.
pub open spec fn spec_id_word(payload: Seq<u8>, start: int, i: int) -> u32 {
    le32_at(payload, start + 4 * i)
}

/// Whether a candidate id table at `start` is plausible under the given
/// encoding: every word's low `mask` bits are clear, every decoded id is
/// within `max_id` (and nonzero where required), and the ids never
/// decrease.
pub open spec fn spec_id_table_ok(
    payload: Seq<u8>,
    start: int,
    count: int,
    mask: u32,
    shift: u32,
    max_id: u32,
    allow_zero: bool,
) -> bool {
    &&& start + 4 * count <= payload.len()
    &&& (forall|i: int|
        0 <= i < count ==> (#[trigger] spec_id_word(payload, start, i) & mask) == 0)
    &&& (forall|i: int|
        0 <= i < count ==> (#[trigger] spec_id_word(payload, start, i) >> shift) <= max_id)
    &&& (allow_zero || (forall|i: int|
        0 <= i < count ==> (#[trigger] spec_id_word(payload, start, i) >> shift) != 0))
    &&& (forall|i: int|
        1 <= i < count ==> (spec_id_word(payload, start, i - 1) >> shift) <= (
        #[trigger] spec_id_word(payload, start, i) >> shift))
}

/// The highest grid start a backwards table scan begins at.
pub open spec fn spec_scan_top(len: int, record_count: int) -> int {
    let ms = len - 4 * record_count;
    ms - (ms % 4)
}

/// What a successful backwards scan means: `start` is a plausible table
/// on the scan grid at or above `min_offset`, and no higher grid start is
/// plausible.
pub open spec fn spec_id_scan_hit(
    payload: Seq<u8>,
    min_offset: int,
    rc: int,
    mask: u32,
    shift: u32,
    max_id: u32,
    allow_zero: bool,
    start: int,
) -> bool {
    let top = spec_scan_top(payload.len() as int, rc);
    &&& min_offset <= start <= top
    &&& start % 4 == top % 4
    &&& spec_id_table_ok(payload, start, rc, mask, shift, max_id, allow_zero)
    &&& (forall|s2: int|
        start < s2 <= top && s2 % 4 == top % 4 ==> !spec_id_table_ok(
            payload,
            s2,
            rc,
            mask,
            shift,
            max_id,
            allow_zero,
        ))
}

/// What a failed backwards scan means: the table cannot fit, or no grid
/// start in range is plausible.
pub open spec fn spec_id_scan_miss(
    payload: Seq<u8>,
    min_offset: int,
    rc: int,
    mask: u32,
    shift: u32,
    max_id: u32,
    allow_zero: bool,
) -> bool {
    ||| 4 * rc > payload.len()
    ||| (forall|s2: int|
        min_offset <= s2 <= spec_scan_top(payload.len() as int, rc) && s2 % 4 == spec_scan_top(
            payload.len() as int,
            rc,
        ) % 4 ==> !spec_id_table_ok(payload, s2, rc, mask, shift, max_id, allow_zero))
}

/// Scans backwards from the end of the payload, on the 4-byte grid below
/// the last possible start, for a plausible id table; the highest
/// plausible start at or above `min_offset` wins.
#[verifier::rlimit(100)]
fn scan_id_table(
    payload: &[u8],
    min_offset: usize,
    record_count: usize,
    mask: u32,
    shift: u32,
    max_id: u32,
    allow_zero: bool,
) -> (r: Option<usize>)
    requires
        shift == 16 || shift == 24,
    ensures
        match r {
            Some(start) => spec_id_scan_hit(
                payload@,
                min_offset as int,
                record_count as int,
                mask,
                shift,
                max_id,
                allow_zero,
                start as int,
            ),
            None => spec_id_scan_miss(
                payload@,
                min_offset as int,
                record_count as int,
                mask,
                shift,
                max_id,
                allow_zero,
            ),
        },
{
    if record_count > payload.len() / 4 {
        return None;
    }
    let table_len = record_count * 4;
    if payload.len() < table_len {
        return None;
    }
    let max_start = payload.len() - table_len;
    let top = max_start - (max_start % 4);
    let ghost stop = spec_scan_top(payload@.len() as int, record_count as int);
    proof {
        assert(top == stop);
    }
    let mut start = top;
    loop
        invariant
            start <= top,
            top == stop,
            stop == spec_scan_top(payload@.len() as int, record_count as int),
            start as int % 4 == stop % 4,
            max_start + 4 * record_count <= payload@.len(),
            top <= max_start,
            payload@.len() <= usize::MAX,
            shift == 16 || shift == 24,
            forall|s2: int|
                start < s2 <= stop && s2 % 4 == stop % 4 ==> !spec_id_table_ok(
                    payload@,
                    s2,
                    record_count as int,
                    mask,
                    shift,
                    max_id,
                    allow_zero,
                ),
        decreases start + 1,
    {
        if start < min_offset {
            return None;
        }
        let mut prev_id: u32 = 0;
        let mut ok = true;
        let mut i: usize = 0;
        while i < record_count && ok
            invariant
                i <= record_count,
                start + 4 * record_count <= payload@.len(),
                payload@.len() <= usize::MAX,
                shift == 16 || shift == 24,
                !ok ==> !spec_id_table_ok(
                    payload@,
                    start as int,
                    record_count as int,
                    mask,
                    shift,
                    max_id,
                    allow_zero,
                ),
                ok ==> (forall|j: int|
                    0 <= j < i ==> (#[trigger] spec_id_word(payload@, start as int, j) & mask)
                        == 0),
                ok ==> (forall|j: int|
                    0 <= j < i ==> (#[trigger] spec_id_word(payload@, start as int, j) >> shift)
                        <= max_id),
                ok && !allow_zero ==> (forall|j: int|
                    0 <= j < i ==> (#[trigger] spec_id_word(payload@, start as int, j) >> shift)
                        != 0),
                ok ==> (forall|j: int|
                    1 <= j < i ==> (spec_id_word(payload@, start as int, j - 1) >> shift) <= (
                    #[trigger] spec_id_word(payload@, start as int, j) >> shift)),
                ok && i > 0 ==> prev_id == (spec_id_word(payload@, start as int, i - 1) >> shift),
            decreases (if ok {
                1int
            } else {
                0int
            }), record_count - i,
        {
            let v = read32(payload, start + 4 * i);
            proof {
                assert(v == spec_id_word(payload@, start as int, i as int));
            }
            let id = v >> shift;
            if (v & mask) != 0 {
                ok = false;
            }
            if id > max_id {
                ok = false;
            }
            if !allow_zero && id == 0 {
                ok = false;
            }
            if i > 0 && id < prev_id {
                ok = false;
            }
            if ok {
                prev_id = id;
                i = i + 1;
            }
        }
        if ok && i == record_count {
            return Some(start);
        }
        proof {
            assert(!spec_id_table_ok(
                payload@,
                start as int,
                record_count as int,
                mask,
                shift,
                max_id,
                allow_zero,
            ));
        }
        if start < 4 {
            return None;
        }
        start = start - 4;
    }
}

/// Locates the key-by-id table of the primary key table (ids shifted left
/// sixteen bits, nonzero, at most five million, nondecreasing).
pub fn find_tactkey_id_table(payload: &[u8], min_offset: usize, record_count: usize) -> (r: Option<
    usize,
>)
    ensures
        match r {
            Some(start) => spec_id_scan_hit(
                payload@,
                min_offset as int,
                record_count as int,
                0xFFFF,
                16,
                5_000_000,
                false,
                start as int,
            ),
            None => spec_id_scan_miss(
                payload@,
                min_offset as int,
                record_count as int,
                0xFFFF,
                16,
                5_000_000,
                false,
            ),
        },
{
    scan_id_table(payload, min_offset, record_count, 0xFFFF, 16, 5_000_000, false)
}

/// Locates the name-lookup id table, preferring the id-shifted-24
/// encoding and falling back to id-shifted-16; returns the start and the
/// shift that matched.
pub fn find_tactkeylookup_id_table(payload: &[u8], min_offset: usize, record_count: usize) -> (r:
    Option<(usize, u32)>)
    ensures
        match r {
            Some(p) => (p.1 == 24 || p.1 == 16) && spec_id_scan_hit(
                payload@,
                min_offset as int,
                record_count as int,
                if p.1 == 24 {
                    0x00FF_FFFF
                } else {
                    0xFFFF
                },
                p.1,
                if p.1 == 24 {
                    100_000
                } else {
                    5_000_000
                },
                true,
                p.0 as int,
            ) && (p.1 == 16 ==> spec_id_scan_miss(
                payload@,
                min_offset as int,
                record_count as int,
                0x00FF_FFFF,
                24,
                100_000,
                true,
            )),
            None => spec_id_scan_miss(
                payload@,
                min_offset as int,
                record_count as int,
                0x00FF_FFFF,
                24,
                100_000,
                true,
            ) && spec_id_scan_miss(
                payload@,
                min_offset as int,
                record_count as int,
                0xFFFF,
                16,
                5_000_000,
                true,
            ),
        },
{
    match find_tactkeylookup_id_table_shift24(payload, min_offset, record_count) {
        Some(start) => Some((start, 24)),
        None => match find_tactkeylookup_id_table_shift16(payload, min_offset, record_count) {
            Some(start) => Some((start, 16)),
            None => None,
        },
    }
}

/// The shifted-24 candidate scan of the name-lookup id table.
pub fn find_tactkeylookup_id_table_shift24(
    payload: &[u8],
    min_offset: usize,
    record_count: usize,
) -> (r: Option<usize>)
    ensures
        match r {
            Some(start) => spec_id_scan_hit(
                payload@,
                min_offset as int,
                record_count as int,
                0x00FF_FFFF,
                24,
                100_000,
                true,
                start as int,
            ),
            None => spec_id_scan_miss(
                payload@,
                min_offset as int,
                record_count as int,
                0x00FF_FFFF,
                24,
                100_000,
                true,
            ),
        },
{
    scan_id_table(payload, min_offset, record_count, 0x00FF_FFFF, 24, 100_000, true)
}

/// The shifted-16 candidate scan of the name-lookup id table.
pub fn find_tactkeylookup_id_table_shift16(
    payload: &[u8],
    min_offset: usize,
    record_count: usize,
) -> (r: Option<usize>)
    ensures
        match r {
            Some(start) => spec_id_scan_hit(
                payload@,
                min_offset as int,
                record_count as int,
                0xFFFF,
                16,
                5_000_000,
                true,
                start as int,
            ),
            None => spec_id_scan_miss(
                payload@,
                min_offset as int,
                record_count as int,
                0xFFFF,
                16,
                5_000_000,
                true,
            ),
        },
{
    scan_id_table(payload, min_offset, record_count, 0xFFFF, 16, 5_000_000, true)
}

/// The ten bytes marking a static-build table.
pub open spec fn spec_static_marker() -> Seq<u8> {
    seq![0x57u8, 0x4f, 0x57, 0x53, 0x54, 0x41, 0x54, 0x49, 0x43, 0x5f]
}

/// Whether the 128-byte build string at offset 8 holds the marker.
pub open spec fn spec_has_static_marker(bytes: Seq<u8>) -> bool {
    exists|i: int|
        8 <= i && i + 10 <= 136 && #[trigger] bytes.subrange(i, i + 10) == spec_static_marker()
}

/// The table payload after the build marker: the 128-byte build string at
/// offset 8 must hold the static-build marker, and everything after it is
/// the payload.
pub fn wowstatic_payload<'a>(bytes: &'a [u8]) -> (r: Result<&'a [u8], CascError>)
    ensures
        match r {
            Ok(p) => bytes@.len() >= 136 && spec_has_static_marker(bytes@) && p@ == bytes@.skip(
                136,
            ),
            Err(e) => e == CascError::InvalidConfig && (bytes@.len() < 136
                || !spec_has_static_marker(bytes@)),
        },
{
    if bytes.len() < 136 {
        return Err(CascError::InvalidConfig);
    }
    let build = &bytes[8..136];
    let marker: [u8; 10] = [0x57, 0x4f, 0x57, 0x53, 0x54, 0x41, 0x54, 0x49, 0x43, 0x5f];
    let msl = &marker[0..10];
    proof {
        assert(msl@ =~= spec_static_marker());
    }
    match find_sub(build, msl, 0) {
        Some(at) => {
            proof {
                let w = at + 8 as int;
                assert(build@.subrange(at as int, at as int + msl@.len()) =~= bytes@.subrange(
                    w,
                    w + 10,
                ));
                assert(spec_has_static_marker(bytes@)) by {
                    assert(bytes@.subrange(w, w + 10) == spec_static_marker());
                }
            }
            let p = &bytes[136..bytes.len()];
            proof {
                assert(p@ =~= bytes@.skip(136));
            }
            Ok(p)
        },
        None => {
            proof {
                assert(!spec_has_static_marker(bytes@)) by {
                    assert forall|i: int|
                        8 <= i && i + 10 <= 136 implies #[trigger] bytes@.subrange(i, i + 10)
                        != spec_static_marker() by {
                        assert(build@.subrange(i - 8, (i - 8) + msl@.len()) =~= bytes@.subrange(
                            i,
                            i + 10,
                        ));
                    }
                }
            }
            Err(CascError::InvalidConfig)
        },
    }
}

/// The id-to-key map a primary key table denotes: record `i`'s id is its
/// word shifted right sixteen bits, its key the sixteen bytes at position
/// `i` of the key blob just before the id table. Later records override
/// earlier ones on a duplicate id.
pub open spec fn spec_tactkey_fold(
    payload: Seq<u8>,
    kb: int,
    ids: int,
    count: nat,
    m: Map<u32, Seq<u8>>,
) -> Map<u32, Seq<u8>>
    decreases count,
{
    if count == 0 {
        m
    } else {
        let i = count - 1;
        let id = le32_at(payload, ids + 4 * i) >> 16u32;
        spec_tactkey_fold(payload, kb, ids, (count - 1) as nat, m).insert(
            id,
            payload.subrange(kb + 16 * i, kb + 16 * i + 16),
        )
    }
}

/// Whether `m` is the key table the payload denotes: the scan locates
/// the lowest plausible header, whose declared count sizes the highest
/// plausible id table, and the key blob precedes that table.
pub open spec fn spec_tactkey_parse_ok(payload: Seq<u8>, m: Map<u32, Seq<u8>>) -> bool {
    exists|off: int, ids: int|
        {
            &&& 0 <= off && off % 4 == 0 && off + 16 <= payload.len()
            &&& #[trigger] spec_header_ok(payload, off, 16)
            &&& #[trigger] spec_id_scan_hit(
                payload,
                off,
                le32_at(payload, off) as int,
                0xFFFF,
                16,
                5_000_000,
                false,
                ids,
            )
            &&& (forall|o: int| 0 <= o < off && o % 4 == 0 ==> !spec_header_ok(payload, o, 16))
            &&& ({
                let rc = le32_at(payload, off) as int;
                &&& rc < 0x8000_0000
                &&& ids >= 16 * rc
                &&& m == spec_tactkey_fold(payload, ids - 16 * rc, ids, rc as nat, Map::empty())
            })
        }
}

/// The spec view of a tact-id key map.
pub open spec fn tact_view(m: Map<u32, [u8; 16]>) -> Map<u32, Seq<u8>> {
    Map::new(|k: u32| m.contains_key(k), |k: u32| m[k]@)
}

/// Parses the primary key table: locates its header and id table, then
/// pairs each id with its key from the blob preceding the id table.
#[verifier::rlimit(100)]
pub fn parse_tactkey_payload(payload: &[u8]) -> (r: Result<HashMap<u32, [u8; 16]>, CascError>)
    ensures
        r matches Ok(m) ==> spec_tactkey_parse_ok(payload@, tact_view(m@)),
{
    let (header_off, record_count) = match find_static_header(payload, 16) {
        Ok(p) => p,
        Err(e) => {
            return Err(e);
        },
    };
    if record_count >= 0x8000_0000 {
        return Err(CascError::InvalidConfig);
    }
    let rc = record_count as usize;
    let id_table_start = match find_tactkey_id_table(payload, header_off, rc) {
        Some(s) => s,
        None => {
            return Err(CascError::InvalidConfig);
        },
    };
    if rc > id_table_start / 16 {
        return Err(CascError::InvalidConfig);
    }
    let key_blob_start = id_table_start - rc * 16;
    let plen = payload.len();
    proof {
        assert(payload@.len() == plen);
    }
    let mut map: HashMap<u32, [u8; 16]> = HashMap::new();
    proof {
        assert(tact_view(map@) =~= spec_tactkey_fold(
            payload@,
            key_blob_start as int,
            id_table_start as int,
            0,
            Map::empty(),
        ));
    }
    let mut i: usize = 0;
    while i < rc
        invariant
            i <= rc,
            key_blob_start + 16 * rc == id_table_start,
            id_table_start + 4 * rc <= payload@.len(),
            payload@.len() <= usize::MAX,
            tact_view(map@) == spec_tactkey_fold(
                payload@,
                key_blob_start as int,
                id_table_start as int,
                i as nat,
                Map::empty(),
            ),
        decreases rc - i,
    {
        let v = read32(payload, id_table_start + 4 * i);
        let tact_id = v >> 16u32;
        let o = key_blob_start + 16 * i;
        let key: [u8; 16] = [
            payload[o],
            payload[o + 1],
            payload[o + 2],
            payload[o + 3],
            payload[o + 4],
            payload[o + 5],
            payload[o + 6],
            payload[o + 7],
            payload[o + 8],
            payload[o + 9],
            payload[o + 10],
            payload[o + 11],
            payload[o + 12],
            payload[o + 13],
            payload[o + 14],
            payload[o + 15],
        ];
        proof {
            assert(key@ =~= payload@.subrange(o as int, o + 16));
        }
        let ghost pre = tact_view(map@);
        map.insert(tact_id, key);
        proof {
            assert(tact_view(map@) =~= pre.insert(tact_id, key@));
        }
        i = i + 1;
    }
    Ok(map)
}

/// The (name, id) pairs a name-lookup table denotes for a given record
/// count: names sit in an 8-byte blob just before the id table.
pub open spec fn spec_lookup_pairs(
    payload: Seq<u8>,
    table_start: int,
    id_shift: u32,
    count: nat,
) -> Seq<(u64, u32)> {
    Seq::new(
        count,
        |i: int|
            (
                le64_at(payload, table_start - 8 * (count as int) + 8 * i),
                le32_at(payload, table_start + 4 * i) >> id_shift,
            ),
    )
}

/// Reads the (name, id) pairs of a candidate name-lookup table.
pub fn parse_tactkeylookup_payload_with_count(
    payload: &[u8],
    table_start: usize,
    id_shift: u32,
    record_count: usize,
) -> (r: Result<Vec<(u64, u32)>, CascError>)
    requires
        id_shift == 16 || id_shift == 24,
    ensures
        match r {
            Ok(v) => v@ == spec_lookup_pairs(
                payload@,
                table_start as int,
                id_shift,
                record_count as nat,
            ) && table_start >= 8 * record_count && table_start + 4 * record_count
                <= payload@.len(),
            Err(e) => e == CascError::InvalidConfig && !(table_start >= 8 * record_count
                && table_start + 4 * record_count <= payload@.len()),
        },
{
    if record_count > table_start / 8 {
        return Err(CascError::InvalidConfig);
    }
    if record_count > payload.len() / 4 || table_start > payload.len() - 4 * record_count {
        return Err(CascError::InvalidConfig);
    }
    let keynames_start = table_start - record_count * 8;
    let plen = payload.len();
    proof {
        assert(payload@.len() == plen);
    }
    let mut out: Vec<(u64, u32)> = Vec::new();
    let mut i: usize = 0;
    while i < record_count
        invariant
            i <= record_count,
            keynames_start == table_start - 8 * record_count,
            table_start + 4 * record_count <= payload@.len(),
            payload@.len() <= usize::MAX,
            id_shift == 16 || id_shift == 24,
            out@.len() == i,
            forall|j: int|
                0 <= j < i ==> #[trigger] out@[j] == (
                    le64_at(payload@, table_start - 8 * (record_count as int) + 8 * j),
                    le32_at(payload@, table_start as int + 4 * j) >> id_shift,
                ),
        decreases record_count - i,
    {
        let name = match crate::bytes::read_u64_le(payload, keynames_start + 8 * i) {
            Some(v) => v,
            None => {
                return Err(CascError::InvalidConfig);
            },
        };
        let v = read32(payload, table_start + 4 * i);
        out.push((name, v >> id_shift));
        i = i + 1;
    }
    proof {
        assert(out@ =~= spec_lookup_pairs(
            payload@,
            table_start as int,
            id_shift,
            record_count as nat,
        ));
    }
    Ok(out)
}

/// The id the candidate pairs resolve a key name to: the last pairing
/// wins, as the later table rows override earlier ones.
pub open spec fn spec_lookup_last(pairs: Seq<(u64, u32)>, name: u64) -> Option<u32>
    decreases pairs.len(),
{
    if pairs.len() == 0 {
        None
    } else if pairs.last().0 == name {
        Some(pairs.last().1)
    } else {
        spec_lookup_last(pairs.drop_last(), name)
    }
}

/// The probe key names the scoring checks against.
pub open spec fn spec_probe_name(k: int) -> u64 {
    if k == 0 {
        0xFA505078126ACB3Eu64
    } else if k == 1 {
        0xE2854509C471C554u64
    } else if k == 2 {
        0x5813810F4EC9B005u64
    } else {
        0x7F9E217166ED43EAu64
    }
}

/// The keys the probe names are expected to resolve to.
pub open spec fn spec_probe_key(k: int) -> Seq<u8> {
    if k == 0 {
        seq![0xBDu8, 0xC5, 0x18, 0x62, 0xAB, 0xED, 0x79, 0xB2, 0xDE, 0x48, 0xC8, 0xE7, 0xE6, 0x6C, 0x62, 0x00]
    } else if k == 1 {
        seq![0x43u8, 0x32, 0x65, 0xF0, 0xCD, 0xEB, 0x2F, 0x4E, 0x65, 0xC0, 0xEE, 0x70, 0x08, 0x71, 0x4D, 0x9E]
    } else if k == 2 {
        seq![0x01u8, 0xBE, 0x8B, 0x43, 0x14, 0x2D, 0xD9, 0x9A, 0x9E, 0x69, 0x0F, 0xAD, 0x28, 0x8B, 0x60, 0x82]
    } else {
        seq![0x05u8, 0xFC, 0x92, 0x7B, 0x9F, 0x4F, 0x5B, 0x05, 0x56, 0x81, 0x42, 0x91, 0x2A, 0x05, 0x2B, 0x0F]
    }
}

/// Whether probe `k` resolves through the candidate pairs to its expected
/// key.
pub open spec fn spec_probe_hit(pairs: Seq<(u64, u32)>, tact: Map<u32, Seq<u8>>, k: int) -> bool {
    match spec_lookup_last(pairs, spec_probe_name(k)) {
        Some(id) => tact.contains_key(id) && tact[id] == spec_probe_key(k),
        None => false,
    }
}

/// How many probes the candidate resolves correctly.
pub open spec fn spec_score(pairs: Seq<(u64, u32)>, tact: Map<u32, Seq<u8>>) -> int {
    (if spec_probe_hit(pairs, tact, 0) {
        1int
    } else {
        0int
    }) + (if spec_probe_hit(pairs, tact, 1) {
        1int
    } else {
        0int
    }) + (if spec_probe_hit(pairs, tact, 2) {
        1int
    } else {
        0int
    }) + (if spec_probe_hit(pairs, tact, 3) {
        1int
    } else {
        0int
    })
}

/// The partial score over the first `k` probes.
pub open spec fn spec_score_upto(pairs: Seq<(u64, u32)>, tact: Map<u32, Seq<u8>>, k: int) -> int
    decreases k,
{
    if k <= 0 {
        0
    } else {
        spec_score_upto(pairs, tact, k - 1) + (if spec_probe_hit(pairs, tact, k - 1) {
            1int
        } else {
            0int
        })
    }
}

/// How many of the known probe pairs a candidate lookup resolves to the
/// expected key, given the id-to-key table.
#[verifier::rlimit(100)]
pub fn score_lookup_candidate(lookup: &Vec<(u64, u32)>, tact_keys: &HashMap<u32, [u8; 16]>) -> (r:
    usize)
    ensures
        r <= 4,
        r == spec_score(lookup@, tact_view(tact_keys@)),
{
    let probes: [(u64, [u8; 16]); 4] = [
        (
            0xFA505078126ACB3E,
            [
                0xBD,
                0xC5,
                0x18,
                0x62,
                0xAB,
                0xED,
                0x79,
                0xB2,
                0xDE,
                0x48,
                0xC8,
                0xE7,
                0xE6,
                0x6C,
                0x62,
                0x00,
            ],
        ),
        (
            0xE2854509C471C554,
            [
                0x43,
                0x32,
                0x65,
                0xF0,
                0xCD,
                0xEB,
                0x2F,
                0x4E,
                0x65,
                0xC0,
                0xEE,
                0x70,
                0x08,
                0x71,
                0x4D,
                0x9E,
            ],
        ),
        (
            0x5813810F4EC9B005,
            [
                0x01,
                0xBE,
                0x8B,
                0x43,
                0x14,
                0x2D,
                0xD9,
                0x9A,
                0x9E,
                0x69,
                0x0F,
                0xAD,
                0x28,
                0x8B,
                0x60,
                0x82,
            ],
        ),
        (
            0x7F9E217166ED43EA,
            [
                0x05,
                0xFC,
                0x92,
                0x7B,
                0x9F,
                0x4F,
                0x5B,
                0x05,
                0x56,
                0x81,
                0x42,
                0x91,
                0x2A,
                0x05,
                0x2B,
                0x0F,
            ],
        ),
    ];
    let ghost tact = tact_view(tact_keys@);
    let mut score: usize = 0;
    let mut p: usize = 0;
    while p < 4
        invariant
            p <= 4,
            score <= p,
            tact == tact_view(tact_keys@),
            probes@.len() == 4,
            forall|k: int|
                0 <= k < 4 ==> (#[trigger] probes@[k]).0 == spec_probe_name(k) && probes@[k].1@
                    == spec_probe_key(k),
            score == spec_score_upto(lookup@, tact, p as int),
        decreases 4 - p,
    {
        let (name, expected) = probes[p];
        // The last pairing of the probe name is the one the candidate
        // denotes.
        let mut found: Option<u32> = None;
        let mut i: usize = 0;
        proof {
            assert(lookup@.take(0) =~= Seq::<(u64, u32)>::empty());
        }
        while i < lookup.len()
            invariant
                i <= lookup@.len(),
                found == spec_lookup_last(lookup@.take(i as int), name),
            decreases lookup@.len() - i,
        {
            proof {
                assert(lookup@.take(i + 1).last() == lookup@[i as int]);
                assert(lookup@.take(i + 1).drop_last() =~= lookup@.take(i as int));
            }
            if lookup[i].0 == name {
                found = Some(lookup[i].1);
            }
            i = i + 1;
        }
        proof {
            assert(lookup@.take(lookup@.len() as int) =~= lookup@);
            assert(found == spec_lookup_last(lookup@, spec_probe_name(p as int)));
        }
        match found {
            Some(id) => {
                match tact_keys.get(&id) {
                    Some(actual) => {
                        if crate::text::bytes_eq(actual.as_slice(), expected.as_slice()) {
                            score = score + 1;
                            proof {
                                assert(spec_probe_hit(lookup@, tact, p as int));
                            }
                        } else {
                            proof {
                                assert(!spec_probe_hit(lookup@, tact, p as int));
                            }
                        }
                    },
                    None => {
                        proof {
                            assert(!spec_probe_hit(lookup@, tact, p as int));
                        }
                    },
                }
            },
            None => {
                proof {
                    assert(!spec_probe_hit(lookup@, tact, p as int));
                }
            },
        }
        p = p + 1;
    }
    proof {
        assert(spec_score_upto(lookup@, tact, 1) == spec_score_upto(lookup@, tact, 0) + (
        if spec_probe_hit(lookup@, tact, 0) {
            1int
        } else {
            0int
        }));
        assert(spec_score_upto(lookup@, tact, 2) == spec_score_upto(lookup@, tact, 1) + (
        if spec_probe_hit(lookup@, tact, 1) {
            1int
        } else {
            0int
        }));
        assert(spec_score_upto(lookup@, tact, 3) == spec_score_upto(lookup@, tact, 2) + (
        if spec_probe_hit(lookup@, tact, 2) {
            1int
        } else {
            0int
        }));
        assert(spec_score_upto(lookup@, tact, 4) == spec_score_upto(lookup@, tact, 3) + (
        if spec_probe_hit(lookup@, tact, 3) {
            1int
        } else {
            0int
        }));
        assert(spec_score_upto(lookup@, tact, 4) == spec_score(lookup@, tact));
    }
    score
}

/// Parses the name-lookup table: locates the id table under the
/// header-declared count or one less, reads both count candidates where
/// they parse, and keeps the one scoring best against the probe pairs,
/// the larger count on a tie.
/// Whether `pairs` is a candidate parse of the name-lookup payload: the
/// lowest plausible header declares the count, the id table is the
/// highest plausible one under the preferred shift (24, then 16; the
/// header count, then one less), and of the two count candidates the one
/// scoring better against the probe pairs wins, the larger count on a
/// tie.
pub open spec fn spec_lookup_parse_ok(
    payload: Seq<u8>,
    tact: Map<u32, Seq<u8>>,
    pairs: Seq<(u64, u32)>,
) -> bool {
    exists|off: int, ts: int, sh: u32, chosen: nat|
        {
            &&& 0 <= off && off % 4 == 0 && off + 16 <= payload.len()
            &&& #[trigger] spec_header_ok(payload, off, 8)
            &&& (forall|o: int| 0 <= o < off && o % 4 == 0 ==> !spec_header_ok(payload, o, 8))
            &&& ({
                let hc = le32_at(payload, off) as int;
                &&& hc < 0x8000_0000
                &&& (sh == 24 || sh == 16)
                &&& spec_lookup_table_located(payload, off, hc, sh, ts)
                &&& (chosen == hc || (hc >= 1 && chosen == hc - 1))
                &&& chosen > 0
                &&& ts >= 8 * chosen && ts + 4 * chosen <= payload.len()
                &&& pairs == #[trigger] spec_lookup_pairs(payload, ts, sh, chosen)
                &&& ({
                    let other: int = if chosen == hc {
                        hc - 1
                    } else {
                        hc
                    };
                    (other > 0 && ts >= 8 * other && ts + 4 * other <= payload.len()) ==> ({
                        let po = spec_lookup_pairs(payload, ts, sh, other as nat);
                        ||| spec_score(po, tact) < spec_score(pairs, tact)
                        ||| (spec_score(po, tact) == spec_score(pairs, tact) && other < chosen)
                    })
                })
            })
        }
}

/// How the id table is located: the shifted-24 encoding under the header
/// count, else shifted-16, else the same two under one count less.
pub open spec fn spec_lookup_table_located(
    payload: Seq<u8>,
    off: int,
    hc: int,
    sh: u32,
    ts: int,
) -> bool {
    ||| (sh == 24 && spec_id_scan_hit(payload, off, hc, 0x00FF_FFFF, 24, 100_000, true, ts))
    ||| (sh == 16 && spec_id_scan_miss(payload, off, hc, 0x00FF_FFFF, 24, 100_000, true)
        && spec_id_scan_hit(payload, off, hc, 0xFFFF, 16, 5_000_000, true, ts))
    ||| (hc >= 1 && spec_id_scan_miss(payload, off, hc, 0x00FF_FFFF, 24, 100_000, true)
        && spec_id_scan_miss(payload, off, hc, 0xFFFF, 16, 5_000_000, true) && ((sh == 24
        && spec_id_scan_hit(payload, off, hc - 1, 0x00FF_FFFF, 24, 100_000, true, ts)) || (sh
        == 16 && spec_id_scan_miss(payload, off, hc - 1, 0x00FF_FFFF, 24, 100_000, true)
        && spec_id_scan_hit(payload, off, hc - 1, 0xFFFF, 16, 5_000_000, true, ts))))
}

/// Parses the name-lookup table: locates the id table under the
/// header-declared count or one less, reads both count candidates where
/// they parse, and keeps the one scoring best against the probe pairs,
/// the larger count on a tie.
#[verifier::rlimit(100)]
pub fn parse_tactkeylookup_payload(payload: &[u8], tact_keys: &HashMap<u32, [u8; 16]>) -> (r:
    Result<Vec<(u64, u32)>, CascError>)
    ensures
        r matches Ok(v) ==> spec_lookup_parse_ok(payload@, tact_view(tact_keys@), v@),
{
    let ghost tact = tact_view(tact_keys@);
    let (header_off, header_count_raw) = match find_static_header(payload, 8) {
        Ok(p) => p,
        Err(e) => {
            return Err(e);
        },
    };
    if header_count_raw >= 0x8000_0000 {
        return Err(CascError::InvalidConfig);
    }
    let hc = header_count_raw as usize;
    let located = match find_tactkeylookup_id_table(payload, header_off, hc) {
        Some(p) => Some(p),
        None => {
            if hc >= 1 {
                find_tactkeylookup_id_table(payload, header_off, hc - 1)
            } else {
                None
            }
        },
    };
    let (table_start, id_shift) = match located {
        Some(p) => p,
        None => {
            return Err(CascError::InvalidConfig);
        },
    };
    proof {
        assert(spec_lookup_table_located(
            payload@,
            header_off as int,
            hc as int,
            id_shift,
            table_start as int,
        ));
    }
    // Read the two count candidates straight: the header count first,
    // then one less, keeping the better-scoring parse (the larger count
    // wins a tie, so the second candidate must strictly beat the first).
    let first = if hc > 0 {
        match parse_tactkeylookup_payload_with_count(payload, table_start, id_shift, hc) {
            Ok(pairs) => Some(pairs),
            Err(_) => None,
        }
    } else {
        None
    };
    let second = if hc >= 1 && hc - 1 > 0 {
        match parse_tactkeylookup_payload_with_count(payload, table_start, id_shift, hc - 1) {
            Ok(pairs) => Some(pairs),
            Err(_) => None,
        }
    } else {
        None
    };
    match (first, second) {
        (Some(p0), Some(p1)) => {
            let s0 = score_lookup_candidate(&p0, tact_keys);
            let s1 = score_lookup_candidate(&p1, tact_keys);
            if s1 > s0 {
                proof {
                    assert(spec_header_ok(payload@, header_off as int, 8));
                    assert(p1@ == spec_lookup_pairs(
                        payload@,
                        table_start as int,
                        id_shift,
                        (hc - 1) as nat,
                    ));
                    assert(p0@ == spec_lookup_pairs(
                        payload@,
                        table_start as int,
                        id_shift,
                        hc as nat,
                    ));
                    assert(spec_lookup_parse_ok(payload@, tact, p1@));
                }
                Ok(p1)
            } else {
                proof {
                    assert(spec_header_ok(payload@, header_off as int, 8));
                    assert(p0@ == spec_lookup_pairs(
                        payload@,
                        table_start as int,
                        id_shift,
                        hc as nat,
                    ));
                    assert(p1@ == spec_lookup_pairs(
                        payload@,
                        table_start as int,
                        id_shift,
                        (hc - 1) as nat,
                    ));
                    assert(spec_lookup_parse_ok(payload@, tact, p0@));
                }
                Ok(p0)
            }
        },
        (Some(p0), None) => {
            proof {
                assert(spec_header_ok(payload@, header_off as int, 8));
                assert(p0@ == spec_lookup_pairs(
                    payload@,
                    table_start as int,
                    id_shift,
                    hc as nat,
                ));
                assert(spec_lookup_parse_ok(payload@, tact, p0@));
            }
            Ok(p0)
        },
        (None, Some(p1)) => {
            proof {
                assert(spec_header_ok(payload@, header_off as int, 8));
                assert(p1@ == spec_lookup_pairs(
                    payload@,
                    table_start as int,
                    id_shift,
                    (hc - 1) as nat,
                ));
                assert(spec_lookup_parse_ok(payload@, tact, p1@));
            }
            Ok(p1)
        },
        (None, None) => Err(CascError::InvalidConfig),
    }
}

/// The key map after seeding: every lookup pair whose id the key table
/// resolves registers its key under its name, in pair order.
pub open spec fn spec_seed_fold(
    m: Map<u64, Seq<u8>>,
    pairs: Seq<(u64, u32)>,
    tact: Map<u32, Seq<u8>>,
) -> Map<u64, Seq<u8>>
    decreases pairs.len(),
{
    if pairs.len() == 0 {
        m
    } else {
        let m1 = if tact.contains_key(pairs[0].1) {
            m.insert(pairs[0].0, tact[pairs[0].1])
        } else {
            m
        };
        spec_seed_fold(m1, pairs.drop_first(), tact)
    }
}

/// Seeds the key service from the two key-table payloads found inside the
/// asset store: every resolvable (name, id) pair registers its key.
/// Returns how many keys were added or changed.
pub fn seed_keys_from_tact_tables(
    keys: &mut KeyService,
    tactkey_bytes: &[u8],
    lookup_bytes: &[u8],
) -> (r: Result<usize, CascError>)
    ensures
        r matches Ok(n) ==> exists|pairs: Seq<(u64, u32)>, tact: Map<u32, Seq<u8>>|
            {
                &&& tactkey_bytes@.len() >= 136 && spec_has_static_marker(tactkey_bytes@)
                &&& lookup_bytes@.len() >= 136 && spec_has_static_marker(lookup_bytes@)
                &&& spec_tactkey_parse_ok(tactkey_bytes@.skip(136), tact)
                &&& spec_lookup_parse_ok(lookup_bytes@.skip(136), tact, pairs)
                &&& final(keys)@ == #[trigger] spec_seed_fold(old(keys)@, pairs, tact)
            },
        r matches Err(e) ==> *final(keys) == *old(keys),
{
    let tactkey_payload = match wowstatic_payload(tactkey_bytes) {
        Ok(p) => p,
        Err(e) => {
            return Err(e);
        },
    };
    let lookup_payload = match wowstatic_payload(lookup_bytes) {
        Ok(p) => p,
        Err(e) => {
            return Err(e);
        },
    };
    let tact_keys_by_id = match parse_tactkey_payload(tactkey_payload) {
        Ok(m) => m,
        Err(e) => {
            return Err(e);
        },
    };
    let lookup = match parse_tactkeylookup_payload(lookup_payload, &tact_keys_by_id) {
        Ok(v) => v,
        Err(e) => {
            return Err(e);
        },
    };
    let ghost tact = tact_view(tact_keys_by_id@);
    let mut inserted: usize = 0;
    let mut i: usize = 0;
    proof {
        assert(lookup@.skip(0) =~= lookup@);
    }
    while i < lookup.len()
        invariant
            i <= lookup@.len(),
            inserted <= i,
            tact == tact_view(tact_keys_by_id@),
            spec_seed_fold(old(keys)@, lookup@, tact) == spec_seed_fold(
                keys@,
                lookup@.skip(i as int),
                tact,
            ),
        decreases lookup@.len() - i,
    {
        proof {
            assert(lookup@.skip(i as int)[0] == lookup@[i as int]);
            assert(lookup@.skip(i as int).drop_first() =~= lookup@.skip(i as int + 1));
        }
        let (name, id) = lookup[i];
        match tact_keys_by_id.get(&id) {
            Some(key) => {
                let k = *key;
                if keys.insert_key(name, k) {
                    inserted = inserted + 1;
                }
            },
            None => {},
        }
        i = i + 1;
    }
    proof {
        assert(lookup@.skip(i as int) =~= Seq::<(u64, u32)>::empty());
        assert(exists|pairs: Seq<(u64, u32)>, t: Map<u32, Seq<u8>>|
            #![auto]
            keys@ == spec_seed_fold(old(keys)@, pairs, t)) by {
            assert(keys@ == spec_seed_fold(old(keys)@, lookup@, tact));
        }
    }
    Ok(inserted)
}

fn read32(data: &[u8], off: usize) -> (r: u32)
    requires
        off + 4 <= data@.len(),
    ensures
        r == le32_at(data@, off as int),
{
    data[off] as u32 + data[off + 1] as u32 * 0x100 + data[off + 2] as u32 * 0x1_0000 + data[off
        + 3] as u32 * 0x100_0000
}

} // verus!

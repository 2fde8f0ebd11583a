//! Remote (CDN-style) archive indices: fixed-format records described by a
//! 20-byte footer, parsed from cached or fetched index files. First-seen
//! entry wins, as in the local index.

use vstd::prelude::*;

use std::collections::HashMap;

use crate::bytes::{be16_at, be32_at, zeros};
use crate::errors::CascError;
use crate::index::view_of;
use crate::text::lower_seq;
use crate::types::{key_to_u128, spec_key_to_u128, CdnIndexStore, IndexEntry, SpecIndexEntry};

verus! {

broadcast use vstd::std_specs::hash::group_hash_axioms;

/// The bytes a record occupies: the full key, the size word, and the
/// footer-declared offset field.
pub open spec fn cdn_entry_size(offset_bytes: u8) -> int {
    16 + 4 + offset_bytes
}

/// The map key of the record at `off`: the stored key truncated to nine
/// bytes and zero-padded, as the local index stores it.
pub open spec fn cdn_key_at(data: Seq<u8>, off: int) -> u128 {
    spec_key_to_u128(data.subrange(off, off + 9) + zeros(7))
}

/// The entry the record at `off` declares. Records do not carry the nine
/// stored key bytes a local index would; that field stays zero.
pub open spec fn spec_cdn_entry(data: Seq<u8>, off: int, data_index: u32, offset_bytes: u8)
    -> SpecIndexEntry {
    let size = be32_at(data, off + 16);
    let archive: u32 = if offset_bytes == 5 {
        data[off + 20] as u32
    } else if offset_bytes == 6 {
        be16_at(data, off + 20) as u32
    } else {
        data_index
    };
    let offset: u32 = if offset_bytes == 4 {
        be32_at(data, off + 20)
    } else if offset_bytes == 5 {
        be32_at(data, off + 21)
    } else if offset_bytes == 6 {
        be32_at(data, off + 22)
    } else {
        0
    };
    SpecIndexEntry { archive, offset, size, key9: zeros(9) }
}

/// Where the cursor stands after the record at `pos`: past the record, and
/// past the rest of its 4 KiB block when no further record fits in it.
pub open spec fn cdn_next_pos(pos: int, offset_bytes: u8) -> int {
    let p = pos + cdn_entry_size(offset_bytes);
    let remaining = 4096 - (p % 4096);
    if remaining < cdn_entry_size(offset_bytes) {
        p + remaining
    } else {
        p
    }
}

/// Folds `k` records into `m`, first entry winning; `None` when a record
/// or a block skip runs past the end.
pub open spec fn spec_cdn_records(
    data: Seq<u8>,
    m: Map<u128, SpecIndexEntry>,
    pos: int,
    k: nat,
    data_index: u32,
    offset_bytes: u8,
) -> Option<Map<u128, SpecIndexEntry>>
    decreases k,
{
    if k == 0 {
        Some(m)
    } else if pos + cdn_entry_size(offset_bytes) > data.len() {
        None
    } else {
        let key = cdn_key_at(data, pos);
        let m1 = if m.contains_key(key) {
            m
        } else {
            m.insert(key, spec_cdn_entry(data, pos, data_index, offset_bytes))
        };
        let next = cdn_next_pos(pos, offset_bytes);
        if next > data.len() {
            None
        } else {
            spec_cdn_records(data, m1, next, (k - 1) as nat, data_index, offset_bytes)
        }
    }
}

/// What parsing one CDN index folds into `m`: the 20-byte footer fixes the
/// record layout, then the records are folded in from the start.
pub open spec fn spec_parse_cdn_index(data: Seq<u8>, data_index: u32, m: Map<u128, SpecIndexEntry>)
    -> Option<Map<u128, SpecIndexEntry>> {
    if data.len() < 20 {
        None
    } else {
        let f = data.len() - 20;
        let version = data[f];
        let unk1 = data[f + 1];
        let unk2 = data[f + 2];
        let block_size_kb = data[f + 3];
        let offset_bytes = data[f + 4];
        let size_bytes = data[f + 5];
        let key_size_bytes = data[f + 6];
        let hash_size = data[f + 7];
        let num_blocks = be32_at(data, f + 8);
        if version != 1 || unk1 != 0 || unk2 != 0 || block_size_kb != 4 {
            None
        } else if offset_bytes != 0 && offset_bytes != 4 && offset_bytes != 5 && offset_bytes
            != 6 {
            None
        } else if size_bytes != 4 || key_size_bytes != 16 || hash_size != 8 {
            None
        } else if num_blocks >= 0x8000_0000 {
            None
        } else {
            spec_cdn_records(data, m, 0, num_blocks as nat, data_index, offset_bytes)
        }
    }
}

/// Parses one CDN index file into the shared map. On success the map is
/// exactly the declared fold; on a structural error the records folded in
/// before the failure stay, but in every outcome the entries already
/// present survive unchanged and every entry of the final map is either
/// an old one or comes verbatim from a record of this file.
pub fn parse_index(data: &[u8], data_index: u32, map: &mut HashMap<u128, IndexEntry>) -> (r:
    Result<(), CascError>)
    ensures
        match spec_parse_cdn_index(data@, data_index, view_of(old(map)@)) {
            Some(m) => r is Ok && view_of(final(map)@) == m,
            None => r == Err::<(), CascError>(CascError::InvalidConfig),
        },
        forall|k: u128|
            #[trigger] view_of(old(map)@).contains_key(k) ==> view_of(final(map)@).contains_key(k)
                && view_of(final(map)@)[k] == view_of(old(map)@)[k],
        forall|k: u128|
            #[trigger] view_of(final(map)@).contains_key(k) ==> view_of(old(map)@).contains_key(k)
                || (exists|off: int, ob: u8|
                (ob == 0 || ob == 4 || ob == 5 || ob == 6) && 0 <= off && off + cdn_entry_size(ob)
                    <= data@.len() && k == cdn_key_at(data@, off) && view_of(final(map)@)[k]
                    == #[trigger] spec_cdn_entry(data@, off, data_index, ob)),
{
    if data.len() < 20 {
        return Err(CascError::InvalidConfig);
    }
    let f = data.len() - 20;
    let version = data[f];
    let unk1 = data[f + 1];
    let unk2 = data[f + 2];
    let block_size_kb = data[f + 3];
    let offset_bytes = data[f + 4];
    let size_bytes = data[f + 5];
    let key_size_bytes = data[f + 6];
    let hash_size = data[f + 7];
    if version != 1 || unk1 != 0 || unk2 != 0 || block_size_kb != 4 {
        return Err(CascError::InvalidConfig);
    }
    if offset_bytes != 0 && offset_bytes != 4 && offset_bytes != 5 && offset_bytes != 6 {
        return Err(CascError::InvalidConfig);
    }
    if size_bytes != 4 || key_size_bytes != 16 || hash_size != 8 {
        return Err(CascError::InvalidConfig);
    }
    let num_blocks = data[f + 8] as u32 * 0x100_0000 + data[f + 9] as u32 * 0x1_0000 + data[f
        + 10] as u32 * 0x100 + data[f + 11] as u32;
    proof {
        assert(num_blocks == be32_at(data@, f + 8));
    }
    if num_blocks >= 0x8000_0000 {
        return Err(CascError::InvalidConfig);
    }
    let ghost m0 = view_of(map@);
    let entry_size: usize = 20 + offset_bytes as usize;
    let mut pos: usize = 0;
    let mut k: u32 = num_blocks;
    while k > 0
        invariant
            pos <= data@.len(),
            data@.len() <= usize::MAX,
            entry_size == cdn_entry_size(offset_bytes),
            offset_bytes == 0 || offset_bytes == 4 || offset_bytes == 5 || offset_bytes == 6,
            m0 == view_of(old(map)@),
            spec_parse_cdn_index(data@, data_index, m0) == spec_cdn_records(
                data@,
                m0,
                0,
                num_blocks as nat,
                data_index,
                offset_bytes,
            ),
            spec_cdn_records(data@, m0, 0, num_blocks as nat, data_index, offset_bytes)
                == spec_cdn_records(
                data@,
                view_of(map@),
                pos as int,
                k as nat,
                data_index,
                offset_bytes,
            ),
            forall|q: u128|
                #[trigger] m0.contains_key(q) ==> view_of(map@).contains_key(q) && view_of(
                    map@,
                )[q] == m0[q],
            forall|q: u128|
                #[trigger] view_of(map@).contains_key(q) ==> m0.contains_key(q) || (exists|
                    off: int,
                    ob: u8,
                |
                    (ob == 0 || ob == 4 || ob == 5 || ob == 6) && 0 <= off && off
                        + cdn_entry_size(ob) <= data@.len() && q == cdn_key_at(data@, off)
                        && view_of(map@)[q] == #[trigger] spec_cdn_entry(
                        data@,
                        off,
                        data_index,
                        ob,
                    )),
        decreases k,
    {
        if entry_size > data.len() - pos {
            return Err(CascError::InvalidConfig);
        }
        let entry = read_cdn_entry(data, pos, data_index, offset_bytes);
        let full: [u8; 16] = [
            data[pos],
            data[pos + 1],
            data[pos + 2],
            data[pos + 3],
            data[pos + 4],
            data[pos + 5],
            data[pos + 6],
            data[pos + 7],
            data[pos + 8],
            0,
            0,
            0,
            0,
            0,
            0,
            0,
        ];
        proof {
            assert(full@ =~= data@.subrange(pos as int, pos + 9) + zeros(7));
        }
        let key = key_to_u128(&full);
        let ghost pre = view_of(map@);
        if !map.contains_key(&key) {
            map.insert(key, entry);
            proof {
                assert(view_of(map@) =~= pre.insert(key, entry@));
                assert forall|q: u128| #[trigger] m0.contains_key(q) implies view_of(
                    map@,
                ).contains_key(q) && view_of(map@)[q] == m0[q] by {
                    assert(pre.contains_key(q) && pre[q] == m0[q]);
                    assert(q != key);
                }
                assert(key == cdn_key_at(data@, pos as int));
                assert(entry@ == spec_cdn_entry(data@, pos as int, data_index, offset_bytes));
                assert forall|q: u128| #[trigger] view_of(map@).contains_key(q) implies
                    m0.contains_key(q) || (exists|off: int, ob: u8|
                    (ob == 0 || ob == 4 || ob == 5 || ob == 6) && 0 <= off && off
                        + cdn_entry_size(ob) <= data@.len() && q == cdn_key_at(data@, off)
                        && view_of(map@)[q] == #[trigger] spec_cdn_entry(
                        data@,
                        off,
                        data_index,
                        ob,
                    )) by {
                    if q == key {
                        assert(0 <= pos as int && pos as int + cdn_entry_size(offset_bytes)
                            <= data@.len() && key == cdn_key_at(data@, pos as int) && view_of(
                            map@,
                        )[key] == spec_cdn_entry(data@, pos as int, data_index, offset_bytes));
                    } else {
                        assert(pre.contains_key(q) && view_of(map@)[q] == pre[q]);
                    }
                }
            }
        }
        let p = pos + entry_size;
        let remaining = 4096 - (p % 4096);
        if remaining < entry_size {
            if remaining > data.len() - p {
                proof {
                    assert(cdn_next_pos(pos as int, offset_bytes) > data@.len());
                }
                return Err(CascError::InvalidConfig);
            }
            pos = p + remaining;
        } else {
            pos = p;
        }
        k = k - 1;
    }
    Ok(())
}

/// Reads the record at `off` into an entry.
fn read_cdn_entry(data: &[u8], off: usize, data_index: u32, offset_bytes: u8) -> (r: IndexEntry)
    requires
        offset_bytes == 0 || offset_bytes == 4 || offset_bytes == 5 || offset_bytes == 6,
        off + 20 + offset_bytes <= data@.len(),
        data@.len() <= usize::MAX,
    ensures
        r@ == spec_cdn_entry(data@, off as int, data_index, offset_bytes),
{
    let size = data[off + 16] as u32 * 0x100_0000 + data[off + 17] as u32 * 0x1_0000 + data[off
        + 18] as u32 * 0x100 + data[off + 19] as u32;
    let archive: u32 = if offset_bytes == 5 {
        data[off + 20] as u32
    } else if offset_bytes == 6 {
        data[off + 20] as u32 * 0x100 + data[off + 21] as u32
    } else {
        data_index
    };
    let offset: u32 = if offset_bytes == 4 {
        data[off + 20] as u32 * 0x100_0000 + data[off + 21] as u32 * 0x1_0000 + data[off
            + 22] as u32 * 0x100 + data[off + 23] as u32
    } else if offset_bytes == 5 {
        data[off + 21] as u32 * 0x100_0000 + data[off + 22] as u32 * 0x1_0000 + data[off
            + 23] as u32 * 0x100 + data[off + 24] as u32
    } else if offset_bytes == 6 {
        data[off + 22] as u32 * 0x100_0000 + data[off + 23] as u32 * 0x1_0000 + data[off
            + 24] as u32 * 0x100 + data[off + 25] as u32
    } else {
        0
    };
    let e = IndexEntry { archive, offset, size, key9: [0, 0, 0, 0, 0, 0, 0, 0, 0] };
    proof {
        assert(e.key9@ =~= zeros(9));
    }
    e
}

impl CdnIndexStore {
    /// An empty remote index, for stores that load none.
    pub fn new_empty() -> (r: CdnIndexStore)
        ensures
            view_of(r.entries@) == Map::<u128, SpecIndexEntry>::empty(),
    {
        let entries: HashMap<u128, IndexEntry> = HashMap::new();
        proof {
            assert(view_of(entries@) =~= Map::<u128, SpecIndexEntry>::empty());
        }
        CdnIndexStore { entries }
    }

    /// The archive location registered for an encoding key.
    pub fn get(&self, key: &crate::types::EncodingKey) -> (r: Option<IndexEntry>)
        ensures
            ({
                let id = spec_key_to_u128(key@.take(9) + zeros(7));
                match r {
                    Some(e) => view_of(self.entries@).contains_key(id) && e@ == view_of(
                        self.entries@,
                    )[id],
                    None => !view_of(self.entries@).contains_key(id),
                }
            }),
    {
        let k = key.0;
        let full: [u8; 16] = [
            k[0],
            k[1],
            k[2],
            k[3],
            k[4],
            k[5],
            k[6],
            k[7],
            k[8],
            0,
            0,
            0,
            0,
            0,
            0,
            0,
        ];
        proof {
            assert(full@ =~= key@.take(9) + zeros(7));
        }
        let id = key_to_u128(&full);
        match self.entries.get(&id) {
            Some(e) => Some(*e),
            None => None,
        }
    }
}

/// A name's leading run of `/` bytes, which URL building strips.
pub open spec fn leading_slashes(s: Seq<u8>) -> nat
    decreases s.len(),
{
    if s.len() == 0 || s[0] != 0x2f {
        0
    } else {
        1 + leading_slashes(s.drop_first())
    }
}

/// A name's trailing run of `/` bytes.
pub open spec fn trailing_slashes(s: Seq<u8>) -> nat
    decreases s.len(),
{
    if s.len() == 0 || s.last() != 0x2f {
        0
    } else {
        1 + trailing_slashes(s.drop_last())
    }
}

/// The CDN URL for an archive or index object:
/// `https://<host>/<path>/data/<xx>/<yy>/<name>[.index]`, with the name
/// lowercased and its first two byte pairs as directory levels.
pub open spec fn spec_cdn_path(host: Seq<u8>, cdn_path: Seq<u8>, name: Seq<u8>, is_index: bool)
    -> Seq<u8> {
    let h = host.take(host.len() - trailing_slashes(host));
    let p = cdn_path.skip(leading_slashes(cdn_path) as int);
    let prefix = lower_seq(name);
    "https://"@.map_values(|c: char| c as u8) + h + seq![0x2fu8] + p + "/data/"@.map_values(
        |c: char| c as u8,
    ) + prefix.take(2) + seq![0x2fu8] + prefix.subrange(2, 4) + seq![0x2fu8] + prefix + (
    if is_index {
        ".index"@.map_values(|c: char| c as u8)
    } else {
        Seq::<u8>::empty()
    })
}

/// Builds the CDN URL for an archive or index object.
pub fn make_cdn_path(host: &[u8], cdn_path: &[u8], name: &[u8], is_index: bool) -> (r: Vec<u8>)
    requires
        name@.len() >= 4,
    ensures
        r@ == spec_cdn_path(host@, cdn_path@, name@, is_index),
{
    let mut out: Vec<u8> = Vec::new();
    push_all(&mut out, &[0x68, 0x74, 0x74, 0x70, 0x73, 0x3a, 0x2f, 0x2f]);
    proof {
        assert("https://"@.map_values(|c: char| c as u8) =~= seq![
            0x68u8,
            0x74,
            0x74,
            0x70,
            0x73,
            0x3a,
            0x2f,
            0x2f,
        ]) by {
            reveal_strlit("https://");
        }
    }
    let mut hend: usize = host.len();
    proof {
        assert(host@.take(host@.len() as int) =~= host@);
    }
    while hend > 0 && host[hend - 1] == 0x2f
        invariant
            hend <= host@.len(),
            trailing_slashes(host@) == host@.len() - hend + trailing_slashes(
                host@.take(hend as int),
            ),
        decreases hend,
    {
        proof {
            assert(host@.take(hend as int).last() == host@[hend - 1]);
            assert(host@.take(hend as int).drop_last() =~= host@.take(hend - 1));
        }
        hend = hend - 1;
    }
    proof {
        if hend > 0 {
            assert(host@.take(hend as int).last() == host@[hend - 1]);
        }
        assert(trailing_slashes(host@.take(hend as int)) == 0);
        assert(host@.len() - trailing_slashes(host@) == hend);
    }
    let h = &host[0..hend];
    proof {
        assert(h@ =~= host@.take(hend as int));
    }
    push_all_slice(&mut out, h);
    out.push(0x2f);
    let mut pstart: usize = 0;
    proof {
        assert(cdn_path@.skip(0) =~= cdn_path@);
    }
    while pstart < cdn_path.len() && cdn_path[pstart] == 0x2f
        invariant
            pstart <= cdn_path@.len(),
            leading_slashes(cdn_path@) == pstart + leading_slashes(cdn_path@.skip(pstart as int)),
        decreases cdn_path@.len() - pstart,
    {
        proof {
            assert(cdn_path@.skip(pstart as int)[0] == cdn_path@[pstart as int]);
            assert(cdn_path@.skip(pstart as int).drop_first() =~= cdn_path@.skip(pstart + 1));
        }
        pstart = pstart + 1;
    }
    proof {
        if pstart < cdn_path@.len() {
            assert(cdn_path@.skip(pstart as int)[0] == cdn_path@[pstart as int]);
        }
        assert(leading_slashes(cdn_path@.skip(pstart as int)) == 0);
        assert(leading_slashes(cdn_path@) == pstart);
    }
    let p = &cdn_path[pstart..cdn_path.len()];
    proof {
        assert(p@ =~= cdn_path@.skip(leading_slashes(cdn_path@) as int));
    }
    push_all_slice(&mut out, p);
    push_all(&mut out, &[0x2f, 0x64, 0x61, 0x74, 0x61, 0x2f]);
    proof {
        assert("/data/"@.map_values(|c: char| c as u8) =~= seq![0x2fu8, 0x64, 0x61, 0x74, 0x61, 0x2f])
            by {
            reveal_strlit("/data/");
        }
    }
    let prefix = crate::text::to_ascii_lowercase(name);
    let pre2 = &prefix.as_slice()[0..2];
    push_all_slice(&mut out, pre2);
    out.push(0x2f);
    let pre4 = &prefix.as_slice()[2..4];
    push_all_slice(&mut out, pre4);
    out.push(0x2f);
    push_all_slice(&mut out, prefix.as_slice());
    if is_index {
        push_all(&mut out, &[0x2e, 0x69, 0x6e, 0x64, 0x65, 0x78]);
        proof {
            assert(".index"@.map_values(|c: char| c as u8) =~= seq![0x2eu8, 0x69, 0x6e, 0x64, 0x65, 0x78])
                by {
                reveal_strlit(".index");
            }
        }
    }
    proof {
        assert(pre2@ =~= lower_seq(name@).take(2));
        assert(pre4@ =~= lower_seq(name@).subrange(2, 4));
        assert(out@ =~= spec_cdn_path(host@, cdn_path@, name@, is_index));
    }
    out
}

proof fn lemma_trailing_slashes_bound(s: Seq<u8>)
    ensures
        trailing_slashes(s) <= s.len(),
    decreases s.len(),
{
    if s.len() > 0 && s.last() == 0x2f {
        lemma_trailing_slashes_bound(s.drop_last());
    }
}

/// Appends a fixed byte string.
fn push_all(out: &mut Vec<u8>, s: &[u8])
    ensures
        final(out)@ == old(out)@ + s@,
{
    push_all_slice(out, s)
}

/// Appends a byte slice.
fn push_all_slice(out: &mut Vec<u8>, s: &[u8])
    ensures
        final(out)@ == old(out)@ + s@,
{
    let mut i: usize = 0;
    while i < s.len()
        invariant
            i <= s@.len(),
            out@ =~= old(out)@ + s@.take(i as int),
        decreases s@.len() - i,
    {
        out.push(s[i]);
        proof {
            assert(old(out)@ + s@.take(i + 1) =~= (old(out)@ + s@.take(i as int)).push(
                s@[i as int],
            ));
        }
        i = i + 1;
    }
    proof {
        assert(s@.take(s@.len() as int) =~= s@);
    }
}

} // verus!

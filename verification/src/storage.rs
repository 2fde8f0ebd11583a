//! The open storage session and the local resolution chain: asset id to
//! content key (root manifest), content key to encoding key (encoding
//! table), encoding key to archive location (local index), then the
//! archive header check and BLTE decode.

use vstd::prelude::*;

use crate::blte::{parse_blte_with_keys, spec_parse_blte};
use crate::bytes::{le32_at, zeros};
use crate::encoding::{entries_view, normalize_ekey};
use crate::errors::CascError;
use crate::index::view_of;
use crate::keysvc::KeyService;
use crate::listfile::Listfile;
use crate::root::{root_view, RootTable};
use crate::types::{
    spec_key_to_u128, CascConfig, CdnIndexStore, EncodingTable, IndexEntry, IndexStore,
};

verus! {

/// How a storage session should be brought up by the embedding
/// application's background worker.
#[derive(Clone, Copy, Debug, PartialEq, Eq, Structural)]
pub struct CascBootstrapOptions {
    pub run_spell_dump: bool,
}

/// An open storage session: the resolution tables built once at startup,
/// and the growing key service.
pub struct CascStorage {
    pub config: CascConfig,
    pub root_table: RootTable,
    pub encoding: EncodingTable,
    pub index_store: IndexStore,
    pub cdn_index: CdnIndexStore,
    pub listfile: Option<Listfile>,
    pub keys: KeyService,
}

/// What the local resolution chain yields for an asset id: the first
/// declared encoding key, or the error naming the first missing link.
pub open spec fn spec_resolve_ekey(storage: &CascStorage, file_data_id: u32) -> Result<
    Seq<u8>,
    CascError,
> {
    let roots = root_view(storage.root_table.by_file_id@);
    if !roots.contains_key(file_data_id) {
        Err(CascError::FileNotFound)
    } else {
        let ckey = roots[file_data_id];
        let encs = entries_view(storage.encoding.entries@);
        if !encs.contains_key(spec_key_to_u128(ckey)) {
            Err(CascError::MissingEncoding)
        } else {
            let entry = encs[spec_key_to_u128(ckey)];
            if entry.encoding_keys.len() == 0 {
                Err(CascError::MissingEncoding)
            } else {
                Ok(entry.encoding_keys[0])
            }
        }
    }
}

impl CascStorage {
    /// Resolves an asset id to its first declared encoding key through the
    /// root manifest and the encoding table.
    pub fn resolve_ekey(&self, file_data_id: u32) -> (r: Result<[u8; 16], CascError>)
        ensures
            match r {
                Ok(k) => spec_resolve_ekey(self, file_data_id) == Ok::<Seq<u8>, CascError>(k@)
                    && k@.len() == 16,
                Err(e) => spec_resolve_ekey(self, file_data_id) == Err::<Seq<u8>, CascError>(e),
            },
    {
        let ckey = match self.root_table.get(file_data_id) {
            Some(ck) => ck,
            None => {
                return Err(CascError::FileNotFound);
            },
        };
        let entry = match self.encoding.get(&ckey) {
            Some(e) => e,
            None => {
                return Err(CascError::MissingEncoding);
            },
        };
        if entry.encoding_keys.len() == 0 {
            return Err(CascError::MissingEncoding);
        }
        let ek = entry.encoding_keys[0];
        Ok(ek.0)
    }

    /// The local archive location of an encoding key, by its nine stored
    /// bytes.
    pub fn locate_local(&self, ekey: [u8; 16]) -> (r: Option<IndexEntry>)
        ensures
            ({
                let id = spec_key_to_u128(ekey@.take(9) + zeros(7));
                match r {
                    Some(e) => view_of(self.index_store.entries@).contains_key(id) && e@ == view_of(
                        self.index_store.entries@,
                    )[id],
                    None => !view_of(self.index_store.entries@).contains_key(id),
                }
            }),
    {
        let norm = normalize_ekey(ekey);
        proof {
            assert(norm@.take(9) + zeros(7) =~= ekey@.take(9) + zeros(7));
        }
        self.index_store.get(&norm)
    }
}

/// What decoding an archive payload yields: the 30-byte local-archive
/// header is checked (reversed leading hash bytes against the stored
/// truncated key, then the declared size), and the BLTE payload after it
/// is decoded.
/// Whether the reversed leading hash bytes disagree with the stored
/// truncated key.
pub open spec fn spec_key9_mismatch(archive: Seq<u8>, off: int, key9: Seq<u8>) -> bool {
    exists|i: int| 0 <= i < 9 && archive[off + 15 - i] != key9[i]
}

pub open spec fn spec_read_blte(
    archive: Seq<u8>,
    entry: crate::types::SpecIndexEntry,
    keys: Map<u64, Seq<u8>>,
    strict: bool,
) -> Result<Seq<u8>, CascError> {
    let off = entry.offset as int;
    if off + 30 > archive.len() {
        Err(CascError::Io)
    } else if spec_key9_mismatch(archive, off, entry.key9) {
        Err(CascError::InvalidBlte)
    } else if le32_at(archive, off + 16) != entry.size {
        Err(CascError::InvalidBlte)
    } else if entry.size < 30 {
        Err(CascError::InvalidBlte)
    } else if off + entry.size > archive.len() {
        Err(CascError::Io)
    } else {
        spec_parse_blte(archive.subrange(off + 30, off + entry.size), keys, strict)
    }
}

/// Checks an index entry's archive header and decodes its BLTE payload
/// out of the archive bytes.
#[verifier::rlimit(100)]
pub fn read_blte(archive: &[u8], entry: &IndexEntry, keys: &KeyService, strict: bool) -> (r:
    Result<Vec<u8>, CascError>)
    ensures
        match r {
            Ok(v) => spec_read_blte(archive@, entry@, keys@, strict) == Ok::<Seq<u8>, CascError>(
                v@,
            ),
            Err(e) => spec_read_blte(archive@, entry@, keys@, strict) == Err::<Seq<u8>, CascError>(
                e,
            ),
        },
{
    let off = entry.offset as usize;
    if off > archive.len() || archive.len() - off < 30 {
        return Err(CascError::Io);
    }
    // The stored hash is reversed on disk: its last bytes mirror the
    // stored truncated key.
    let mut mismatch = false;
    if archive[off + 15] != entry.key9[0] {
        mismatch = true;
    }
    if archive[off + 14] != entry.key9[1] {
        mismatch = true;
    }
    if archive[off + 13] != entry.key9[2] {
        mismatch = true;
    }
    if archive[off + 12] != entry.key9[3] {
        mismatch = true;
    }
    if archive[off + 11] != entry.key9[4] {
        mismatch = true;
    }
    if archive[off + 10] != entry.key9[5] {
        mismatch = true;
    }
    if archive[off + 9] != entry.key9[6] {
        mismatch = true;
    }
    if archive[off + 8] != entry.key9[7] {
        mismatch = true;
    }
    if archive[off + 7] != entry.key9[8] {
        mismatch = true;
    }
    proof {
        assert(mismatch == spec_key9_mismatch(archive@, off as int, entry@.key9)) by {
            if !mismatch {
                assert(forall|j: int|
                    0 <= j < 9 ==> archive@[off + 15 - j] == entry.key9@[j]) by {
                    assert(archive@[off + 15] == entry.key9@[0]);
                    assert(archive@[off + 14] == entry.key9@[1]);
                    assert(archive@[off + 13] == entry.key9@[2]);
                    assert(archive@[off + 12] == entry.key9@[3]);
                    assert(archive@[off + 11] == entry.key9@[4]);
                    assert(archive@[off + 10] == entry.key9@[5]);
                    assert(archive@[off + 9] == entry.key9@[6]);
                    assert(archive@[off + 8] == entry.key9@[7]);
                    assert(archive@[off + 7] == entry.key9@[8]);
                }
            } else {
                assert(spec_key9_mismatch(archive@, off as int, entry@.key9)) by {
                    if archive@[off + 15] != entry.key9@[0] {
                    } else if archive@[off + 14] != entry.key9@[1] {
                    } else if archive@[off + 13] != entry.key9@[2] {
                    } else if archive@[off + 12] != entry.key9@[3] {
                    } else if archive@[off + 11] != entry.key9@[4] {
                    } else if archive@[off + 10] != entry.key9@[5] {
                    } else if archive@[off + 9] != entry.key9@[6] {
                    } else if archive@[off + 8] != entry.key9@[7] {
                    } else {
                        assert(archive@[off + 7] != entry.key9@[8]);
                    }
                }
            }
        }
    }
    if mismatch {
        return Err(CascError::InvalidBlte);
    }
    let size = archive[off + 16] as u32 + archive[off + 17] as u32 * 0x100 + archive[off
        + 18] as u32 * 0x1_0000 + archive[off + 19] as u32 * 0x100_0000;
    proof {
        assert(size == le32_at(archive@, off + 16));
    }
    if size != entry.size {
        return Err(CascError::InvalidBlte);
    }
    if entry.size < 30 {
        return Err(CascError::InvalidBlte);
    }
    let size_us = entry.size as usize;
    if size_us > archive.len() - off {
        return Err(CascError::Io);
    }
    let payload = &archive[off + 30..off + size_us];
    proof {
        assert(payload@ =~= archive@.subrange(off + 30, off + entry.size));
    }
    parse_blte_with_keys(payload, Some(keys), strict)
}

/// Resolves and decodes an asset from local archives alone: the archive
/// buffers stand in for the numbered archive files, indexed by archive id.
/// An id absent from the local index fails with `FileNotFound` (the
/// caller's CDN fallback layer takes over from there).
pub fn read_file_by_filedataid(
    storage: &CascStorage,
    file_data_id: u32,
    archives: &Vec<Vec<u8>>,
    strict: bool,
) -> (r: Result<Vec<u8>, CascError>)
    ensures
        match r {
            Ok(v) => {
                &&& spec_resolve_ekey(storage, file_data_id) matches Ok(ek)
                &&& ({
                    let id = spec_key_to_u128(ek.take(9) + zeros(7));
                    &&& view_of(storage.index_store.entries@).contains_key(id)
                    &&& ({
                        let e = view_of(storage.index_store.entries@)[id];
                        &&& e.archive < archives@.len()
                        &&& spec_read_blte(
                            archives@[e.archive as int]@,
                            e,
                            storage.keys@,
                            strict,
                        ) == Ok::<Seq<u8>, CascError>(v@)
                    })
                })
            },
            Err(e) => match spec_resolve_ekey(storage, file_data_id) {
                Err(e2) => e == e2,
                Ok(ek) => {
                    let id = spec_key_to_u128(ek.take(9) + zeros(7));
                    if !view_of(storage.index_store.entries@).contains_key(id) {
                        e == CascError::FileNotFound
                    } else {
                        let en = view_of(storage.index_store.entries@)[id];
                        if en.archive >= archives@.len() {
                            e == CascError::FileNotFound
                        } else {
                            spec_read_blte(archives@[en.archive as int]@, en, storage.keys@, strict)
                                == Err::<Seq<u8>, CascError>(e)
                        }
                    }
                },
            },
        },
{
    let ekey = match storage.resolve_ekey(file_data_id) {
        Ok(k) => k,
        Err(e) => {
            return Err(e);
        },
    };
    let entry = match storage.locate_local(ekey) {
        Some(e) => e,
        None => {
            return Err(CascError::FileNotFound);
        },
    };
    if entry.archive as usize >= archives.len() {
        return Err(CascError::FileNotFound);
    }
    let archive = &archives[entry.archive as usize];
    let res = read_blte(archive.as_slice(), &entry, &storage.keys, strict);
    match res {
        Ok(v) => {
            proof {
                assert(spec_read_blte(
                    archives@[entry@.archive as int]@,
                    entry@,
                    storage.keys@,
                    strict,
                ) == Ok::<Seq<u8>, CascError>(v@));
            }
            Ok(v)
        },
        Err(e) => Err(e),
    }
}


impl RootTable {
    /// Locates and decodes the root manifest: the root content key
    /// resolves through the encoding table to an encoding key, through
    /// the local index to an archive location, and the decoded payload
    /// parses as the manifest. The caller supplies the bytes of the
    /// archive file the index entry names.
    pub fn load_from_index(
        archive: &[u8],
        indices: &IndexStore,
        encoding: &EncodingTable,
        root_ckey: [u8; 16],
        keys: &KeyService,
    ) -> (r: Result<RootTable, CascError>)
    ensures
        ({
            let encs = entries_view(encoding.entries@);
            let ck = spec_key_to_u128(root_ckey@);
            match r {
                Ok(t) => {
                    &&& encs.contains_key(ck)
                    &&& encs[ck].encoding_keys.len() > 0
                    &&& ({
                        let ek = encs[ck].encoding_keys[0];
                        let id = spec_key_to_u128(ek.take(9) + zeros(7));
                        &&& view_of(indices.entries@).contains_key(id)
                        &&& (exists|payload: Seq<u8>|
                            #![auto]
                            spec_read_blte(archive@, view_of(indices.entries@)[id], keys@, false)
                                == Ok::<Seq<u8>, CascError>(payload)
                                && crate::root::spec_parse_root(payload) == Some(
                                root_view(t.by_file_id@),
                            ))
                    })
                },
                Err(e) => {
                    if !encs.contains_key(ck) || encs[ck].encoding_keys.len() == 0 {
                        e == CascError::MissingEncoding
                    } else {
                        let ek = encs[ck].encoding_keys[0];
                        let id = spec_key_to_u128(ek.take(9) + zeros(7));
                        if !view_of(indices.entries@).contains_key(id) {
                            e == CascError::MissingEncoding
                        } else {
                            ||| spec_read_blte(
                                archive@,
                                view_of(indices.entries@)[id],
                                keys@,
                                false,
                            ) == Err::<Seq<u8>, CascError>(e)
                            ||| ((exists|payload: Seq<u8>|
                                #![auto]
                                spec_read_blte(
                                    archive@,
                                    view_of(indices.entries@)[id],
                                    keys@,
                                    false,
                                ) == Ok::<Seq<u8>, CascError>(payload)
                                    && crate::root::spec_parse_root(payload) is None) && e
                                == CascError::InvalidConfig)
                        }
                    }
                },
            }
        }),
{
    let ckey = crate::types::ContentKey(root_ckey);
    let entry = match encoding.get(&ckey) {
        Some(e) => e,
        None => {
            return Err(CascError::MissingEncoding);
        },
    };
    if entry.encoding_keys.len() == 0 {
        return Err(CascError::MissingEncoding);
    }
    let ekey = entry.encoding_keys[0].0;
    proof {
        assert(ekey@ == entries_view(encoding.entries@)[spec_key_to_u128(
            root_ckey@,
        )].encoding_keys[0]);
    }
    let norm = normalize_ekey(ekey);
    proof {
        assert(norm@.take(9) + zeros(7) =~= ekey@.take(9) + zeros(7));
    }
    let idx_entry = match indices.get(&norm) {
        Some(e) => e,
        None => {
            return Err(CascError::MissingEncoding);
        },
    };
    let decoded = match read_blte(archive, &idx_entry, keys, false) {
        Ok(v) => v,
        Err(e) => {
            return Err(e);
        },
    };
    let table = match crate::root::parse_root(decoded.as_slice()) {
        Ok(t) => t,
        Err(e) => {
            return Err(e);
        },
    };
        proof {
            assert(crate::root::spec_parse_root(decoded@) == Some(root_view(table.by_file_id@)));
        }
        Ok(table)
    }
}


/// The number of trailing path components to drop to go from an account
/// settings directory up to the installation root.
pub open spec fn spec_drop_last_component(p: Seq<u8>) -> Seq<u8> {
    p.take(last_separator(p, p.len() as int))
}

/// The index of the last path separator strictly before `end`, or zero.
pub open spec fn last_separator(p: Seq<u8>, end: int) -> int
    decreases end,
{
    if end <= 0 {
        0
    } else if p[end - 1] == 0x2f || p[end - 1] == 0x5c {
        end - 1
    } else {
        last_separator(p, end - 1)
    }
}

/// Whether the path still holds a separator to strip a component at.
pub open spec fn spec_has_separator(p: Seq<u8>) -> bool {
    exists|i: int| 0 <= i < p.len() && (#[trigger] p[i] == 0x2f || p[i] == 0x5c)
}

/// What deriving the installation root yields: the path with its last
/// three components dropped, or the path unchanged when fewer than three
/// separators remain along the way.
pub open spec fn spec_derive_casc_root(p: Seq<u8>) -> Seq<u8> {
    if !spec_has_separator(p) {
        p
    } else {
        let d1 = spec_drop_last_component(p);
        if !spec_has_separator(d1) {
            p
        } else {
            let d2 = spec_drop_last_component(d1);
            if !spec_has_separator(d2) {
                p
            } else {
                spec_drop_last_component(d2)
            }
        }
    }
}

/// Derives the installation root from an account settings path by
/// dropping its last three components; a path with fewer components comes
/// back unchanged.
pub fn derive_casc_root_from_account_path(account_path: &[u8]) -> (r: Vec<u8>)
    ensures
        r@ == spec_derive_casc_root(account_path@),
{
    let p1 = match drop_last_component(account_path) {
        Some(v) => v,
        None => {
            return crate::text::slice_to_vec(account_path, 0, account_path.len());
        },
    };
    let p2 = match drop_last_component(p1.as_slice()) {
        Some(v) => v,
        None => {
            return crate::text::slice_to_vec(account_path, 0, account_path.len());
        },
    };
    match drop_last_component(p2.as_slice()) {
        Some(v) => v,
        None => crate::text::slice_to_vec(account_path, 0, account_path.len()),
    }
}

/// Drops the last path component, or nothing when no separator remains.
fn drop_last_component(p: &[u8]) -> (r: Option<Vec<u8>>)
    ensures
        match r {
            Some(v) => spec_has_separator(p@) && v@ == spec_drop_last_component(p@),
            None => !spec_has_separator(p@),
        },
{
    let mut end = p.len();
    while end > 0 && p[end - 1] != 0x2f && p[end - 1] != 0x5c
        invariant
            end <= p@.len(),
            last_separator(p@, p@.len() as int) == last_separator(p@, end as int),
            forall|j: int| end <= j < p@.len() ==> !(#[trigger] p@[j] == 0x2f || p@[j] == 0x5c),
        decreases end,
    {
        end = end - 1;
    }
    if end == 0 {
        proof {
            assert(!spec_has_separator(p@));
        }
        return None;
    }
    proof {
        assert(last_separator(p@, end as int) == end - 1);
        assert(spec_has_separator(p@)) by {
            assert(p@[end - 1] == 0x2f || p@[end - 1] == 0x5c);
        }
    }
    Some(crate::text::slice_to_vec(p, 0, end - 1))
}

} // verus!

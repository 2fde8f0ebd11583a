//! The DB2 table container: dispatches on the magic into the legacy
//! contiguous family (WDC1/WDB5/WDB6), the sectioned family (WDC2/WDC3)
//! and the fully described WDC5 layout. Every declared byte range is
//! checked against the buffer before it is trusted.

use vstd::prelude::*;

use crate::bytes::le32_at;
use crate::errors::CascError;
use crate::wdc5::reader::parse_wdc5;
use crate::wdc5::types::Wdc5Meta;

verus! {

/// One section's resolved byte ranges.
#[derive(Clone, Copy, Debug, PartialEq, Eq, Structural)]
pub struct Db2Section {
    pub data_offset: u32,
    pub data_size: u32,
    pub string_offset: u32,
    pub string_size: u32,
}

/// A parsed table container: the header counts and the byte ranges of its
/// sections, plus the full metadata for WDC5 tables.
pub struct Db2File {
    pub magic: [u8; 4],
    pub record_count: u32,
    pub field_count: u32,
    pub record_size: u32,
    pub string_block_size: u32,
    pub section_count: u32,
    pub sections: Vec<Db2Section>,
    pub wdc5: Option<Wdc5Meta>,
}

/// The recognized table magics.
pub open spec fn spec_supported_magic(m: Seq<u8>) -> bool {
    m == "WDC1"@.map_values(|c: char| c as u8) || m == "WDB5"@.map_values(|c: char| c as u8) || m
        == "WDB6"@.map_values(|c: char| c as u8) || m == "WDC2"@.map_values(|c: char| c as u8) || m
        == "WDC3"@.map_values(|c: char| c as u8) || m == "WDC5"@.map_values(|c: char| c as u8)
}

/// Whether the magic names a recognized table format.
pub fn is_supported_magic(magic: &[u8; 4]) -> (r: bool)
    ensures
        r == spec_supported_magic(magic@),
{
    let m = magic;
    let wdc1 = m[0] == 0x57 && m[1] == 0x44 && m[2] == 0x43 && m[3] == 0x31;
    let wdb5 = m[0] == 0x57 && m[1] == 0x44 && m[2] == 0x42 && m[3] == 0x35;
    let wdb6 = m[0] == 0x57 && m[1] == 0x44 && m[2] == 0x42 && m[3] == 0x36;
    let wdc2 = m[0] == 0x57 && m[1] == 0x44 && m[2] == 0x43 && m[3] == 0x32;
    let wdc3 = m[0] == 0x57 && m[1] == 0x44 && m[2] == 0x43 && m[3] == 0x33;
    let wdc5 = m[0] == 0x57 && m[1] == 0x44 && m[2] == 0x43 && m[3] == 0x35;
    let r = wdc1 || wdb5 || wdb6 || wdc2 || wdc3 || wdc5;
    proof {
        reveal_strlit("WDC1");
        reveal_strlit("WDB5");
        reveal_strlit("WDB6");
        reveal_strlit("WDC2");
        reveal_strlit("WDC3");
        reveal_strlit("WDC5");
        assert(m@.len() == 4);
        assert(m@ =~= seq![m@[0], m@[1], m@[2], m@[3]]);
        if wdc1 {
            assert(m@ =~= "WDC1"@.map_values(|c: char| c as u8));
        }
        if wdb5 {
            assert(m@ =~= "WDB5"@.map_values(|c: char| c as u8));
        }
        if wdb6 {
            assert(m@ =~= "WDB6"@.map_values(|c: char| c as u8));
        }
        if wdc2 {
            assert(m@ =~= "WDC2"@.map_values(|c: char| c as u8));
        }
        if wdc3 {
            assert(m@ =~= "WDC3"@.map_values(|c: char| c as u8));
        }
        if wdc5 {
            assert(m@ =~= "WDC5"@.map_values(|c: char| c as u8));
        }
    }
    r
}

/// The section declared at index `i` of a WDC2 or WDC3 table, or nothing
/// when its arithmetic overflows. `shs` is the per-format section header
/// size (36 for WDC2, 40 for WDC3); the sparse end word sits at offset 24
/// for WDC2 and 20 for WDC3.
pub open spec fn spec_wdc23_section(
    data: Seq<u8>,
    is_wdc2: bool,
    sparse: bool,
    rs: u32,
    i: int,
) -> Option<Db2Section> {
    let shs: int = if is_wdc2 {
        36
    } else {
        40
    };
    let base = 72 + i * shs;
    let fo = le32_at(data, base + 8);
    let nr = le32_at(data, base + 12);
    let sts = le32_at(data, base + 16);
    let send = if is_wdc2 {
        le32_at(data, base + 24)
    } else {
        le32_at(data, base + 20)
    };
    let use_sparse = sparse && send > fo;
    if !use_sparse && nr * rs >= 0x1_0000_0000 {
        None
    } else {
        let ds: u32 = if use_sparse {
            (send - fo) as u32
        } else {
            (nr * rs) as u32
        };
        if fo + ds >= 0x1_0000_0000 {
            None
        } else {
            Some(
                Db2Section {
                    data_offset: fo,
                    data_size: ds,
                    string_offset: (fo + ds) as u32,
                    string_size: if sparse {
                        0
                    } else {
                        sts
                    },
                },
            )
        }
    }
}

/// Whether a declared section's data and string ranges lie inside the
/// buffer.
pub open spec fn spec_section_in_bounds(sec: Db2Section, len: int) -> bool {
    &&& sec.data_offset + sec.data_size <= len
    &&& (sec.string_size > 0 ==> sec.string_offset + sec.string_size <= len)
}

/// The contiguous (legacy) family's magics.
pub open spec fn spec_legacy_magic(m: Seq<u8>) -> bool {
    m == "WDC1"@.map_values(|c: char| c as u8) || m == "WDB5"@.map_values(|c: char| c as u8) || m
        == "WDB6"@.map_values(|c: char| c as u8)
}

/// The sectioned family's magics (the fully described layout aside).
pub open spec fn spec_wdc23_magic(m: Seq<u8>) -> bool {
    m == "WDC2"@.map_values(|c: char| c as u8) || m == "WDC3"@.map_values(|c: char| c as u8)
}

/// When a contiguous table is accepted: the record block must not
/// overflow its 32-bit arithmetic, header plus records plus strings must
/// fit, and the implicit section needs the extended-header span.
pub open spec fn spec_legacy_ok(data: Seq<u8>) -> bool {
    let rc = le32_at(data, 4) as int;
    let rs = le32_at(data, 12) as int;
    let sbs = le32_at(data, 16) as int;
    &&& rc * rs < 0x1_0000_0000
    &&& 20 + rc * rs + sbs <= data.len()
    &&& data.len() >= 72
}

/// When a sectioned table is accepted: a sane section count whose headers
/// fit, and every declared section well-formed and inside the buffer.
pub open spec fn spec_wdc23_ok(data: Seq<u8>, is_wdc2: bool) -> bool {
    let sc = le32_at(data, 68) as int;
    let shs: int = if is_wdc2 {
        36
    } else {
        40
    };
    let sparse = le16_at_db2(data) % 2 == 1;
    let rs = le32_at(data, 12);
    &&& data.len() >= 72
    &&& sc < 0x8000_0000
    &&& 72 + sc * shs <= data.len()
    &&& (forall|i: int|
        0 <= i < sc ==> match #[trigger] spec_wdc23_section(data, is_wdc2, sparse, rs, i) {
            Some(sec) => spec_section_in_bounds(sec, data.len() as int),
            None => false,
        })
}

/// Parses a table container. Any section whose declared data or string
/// range exceeds the buffer fails the whole parse; on success every
/// returned section lies inside the buffer.
#[verifier::rlimit(100)]
pub fn parse_db2(data: &[u8]) -> (r: Result<Db2File, CascError>)
    ensures
        r matches Ok(f) ==> {
            &&& data@.len() >= 20
            &&& f.magic@ == data@.subrange(0, 4)
            &&& spec_supported_magic(f.magic@)
            &&& f.sections@.len() == f.section_count
            &&& (f.wdc5 is None ==> (forall|i: int|
                0 <= i < f.sections@.len() ==> spec_section_in_bounds(
                    #[trigger] f.sections@[i],
                    data@.len() as int,
                )))
        },
        r matches Err(e) ==> e == CascError::InvalidConfig,
        data@.len() >= 20 && spec_legacy_magic(data@.subrange(0, 4)) ==> (r is Ok
            <==> spec_legacy_ok(data@)),
        data@.len() >= 20 && spec_legacy_magic(data@.subrange(0, 4)) ==> (r matches Ok(f) ==> {
            &&& f.sections@.len() == 1
            &&& f.sections@[0].data_offset == 72
            &&& f.sections@[0].string_size == 0
            &&& f.sections@[0].data_size == (if data@.len() - 72 > u32::MAX {
                u32::MAX as int
            } else {
                data@.len() - 72
            })
        }),
        data@.len() >= 20 && spec_wdc23_magic(data@.subrange(0, 4)) ==> (r is Ok
            <==> spec_wdc23_ok(data@, data@.subrange(0, 4) == "WDC2"@.map_values(|c: char| c as u8))),
        data@.len() >= 20 && spec_wdc23_magic(data@.subrange(0, 4)) && le32_at(data@, 68) > 0
            && le32_at(data@, 68) < 0x8000_0000 ==> (r matches Ok(f) ==> {
            &&& f.sections@.len() == le32_at(data@, 68)
            &&& (forall|i: int|
                0 <= i < f.sections@.len() ==> Some(#[trigger] f.sections@[i])
                    == spec_wdc23_section(
                    data@,
                    data@.subrange(0, 4) == "WDC2"@.map_values(|c: char| c as u8),
                    le16_at_db2(data@) % 2 == 1,
                    le32_at(data@, 12),
                    i,
                ))
        }),
        data@.len() >= 20 && !spec_supported_magic(data@.subrange(0, 4)) ==> r == Err::<
            Db2File,
            CascError,
        >(CascError::InvalidConfig),
        data@.len() < 20 ==> r == Err::<Db2File, CascError>(CascError::InvalidConfig),
{
    if data.len() < 20 {
        return Err(CascError::InvalidConfig);
    }
    let magic: [u8; 4] = [data[0], data[1], data[2], data[3]];
    proof {
        assert(magic@ =~= data@.subrange(0, 4));
    }
    if !is_supported_magic(&magic) {
        return Err(CascError::InvalidConfig);
    }
    let is_wdc5 = magic[0] == 0x57 && magic[1] == 0x44 && magic[2] == 0x43 && magic[3] == 0x35;
    proof {
        reveal_strlit("WDC1");
        reveal_strlit("WDB5");
        reveal_strlit("WDB6");
        reveal_strlit("WDC2");
        reveal_strlit("WDC3");
        reveal_strlit("WDC5");
        assert(is_wdc5 ==> !spec_legacy_magic(magic@) && !spec_wdc23_magic(magic@));
        assert(!is_wdc5 ==> ((magic@[3] == 0x31 || magic@[3] == 0x35 || magic@[3] == 0x36)
            <==> spec_legacy_magic(magic@)));
        assert(!is_wdc5 ==> (!(magic@[3] == 0x31 || magic@[3] == 0x35 || magic@[3] == 0x36)
            <==> spec_wdc23_magic(magic@)));
        assert(!is_wdc5 ==> (spec_wdc23_magic(magic@) ==> ((magic@[3] == 0x32) <==> magic@
            == "WDC2"@.map_values(|c: char| c as u8))));
    }
    if is_wdc5 {
        let meta = match parse_wdc5(data) {
            Ok(m) => m,
            Err(e) => {
                return Err(e);
            },
        };
        let mut sections: Vec<Db2Section> = Vec::new();
        let mut i: usize = 0;
        while i < meta.sections.len()
            invariant
                i <= meta.sections@.len(),
                data@.len() <= usize::MAX,
                sections@.len() == i,
            decreases meta.sections@.len() - i,
        {
            let sec = &meta.sections[i];
            let dsz = if sec.records_data.len() > u32::MAX as usize {
                u32::MAX
            } else {
                sec.records_data.len() as u32
            };
            sections.push(
                Db2Section {
                    data_offset: 0,
                    data_size: dsz,
                    string_offset: 0,
                    string_size: sec.string_table_size,
                },
            );
            i = i + 1;
        }
        let section_count = sections.len() as u32;
        return Ok(
            Db2File {
                magic,
                record_count: meta.records_count,
                field_count: meta.fields_count,
                record_size: meta.record_size,
                string_block_size: 0,
                section_count,
                sections,
                wdc5: Some(meta),
            },
        );
    }
    let record_count = read32(data, 4);
    let field_count = read32(data, 8);
    let record_size = read32(data, 12);
    let string_block_size = read32(data, 16);
    let legacy = magic[3] == 0x31 || magic[3] == 0x35 || magic[3] == 0x36;
    let mut sections: Vec<Db2Section> = Vec::new();
    if legacy {
        // Contiguous block: header + records + strings, by exact byte
        // count.
        proof {
            vstd::arithmetic::mul::lemma_mul_upper_bound(
                record_count as int,
                0xFFFF_FFFF,
                record_size as int,
                0xFFFF_FFFF,
            );
        }
        let rb = record_count as u64 * record_size as u64;
        proof {
            assert(rb == le32_at(data@, 4) as int * le32_at(data@, 12) as int);
        }
        if rb >= 0x1_0000_0000 {
            proof {
                assert(!spec_legacy_ok(data@));
            }
            return Err(CascError::InvalidConfig);
        }
        let total = 20u64 + rb + string_block_size as u64;
        if total > data.len() as u64 {
            proof {
                assert(!spec_legacy_ok(data@));
            }
            return Err(CascError::InvalidConfig);
        }
    } else {
        // Sectioned family: fixed 72-byte header and one header record per
        // section.
        if data.len() < 72 {
            return Err(CascError::InvalidConfig);
        }
        let flags = data[36] as u16 + data[37] as u16 * 0x100;
        let sparse = flags % 2 == 1;
        let section_count = read32(data, 68);
        let is_wdc2 = magic[3] == 0x32;
        proof {
            assert(flags == le16_at_db2(data@));
            assert(is_wdc2 == (data@.subrange(0, 4) == "WDC2"@.map_values(|c: char| c as u8)));
        }
        let shs: usize = if is_wdc2 {
            36
        } else {
            40
        };
        if section_count >= 0x8000_0000 {
            proof {
                assert(!spec_wdc23_ok(data@, is_wdc2));
            }
            return Err(CascError::InvalidConfig);
        }
        let sc = section_count as usize;
        if sc as u64 * shs as u64 > data.len() as u64 - 72 {
            proof {
                assert(!spec_wdc23_ok(data@, is_wdc2));
            }
            return Err(CascError::InvalidConfig);
        }
        let mut i: usize = 0;
        while i < sc
            invariant
                i <= sc,
                sc < 0x8000_0000,
                shs == 36 || shs == 40,
                shs == (if is_wdc2 {
                    36int
                } else {
                    40int
                }),
                72 + sc * shs <= data@.len(),
                data@.len() <= usize::MAX,
                record_size == le32_at(data@, 12),
                sparse == (le16_at_db2(data@) % 2 == 1),
                is_wdc2 == (data@.subrange(0, 4) == "WDC2"@.map_values(|c: char| c as u8)),
                sc == le32_at(data@, 68),
                spec_wdc23_magic(data@.subrange(0, 4)),
                !spec_legacy_magic(data@.subrange(0, 4)),
                data@.len() >= 72,
                sections@.len() == i,
                forall|s: int|
                    0 <= s < i ==> Some(#[trigger] sections@[s]) == spec_wdc23_section(
                        data@,
                        is_wdc2,
                        sparse,
                        record_size,
                        s,
                    ),
                forall|s: int|
                    0 <= s < i ==> spec_section_in_bounds(
                        #[trigger] sections@[s],
                        data@.len() as int,
                    ),
            decreases sc - i,
        {
            let base = 72 + i * shs;
            let fo = read32(data, base + 8);
            let nr = read32(data, base + 12);
            let sts = read32(data, base + 16);
            let send = if is_wdc2 {
                read32(data, base + 24)
            } else {
                read32(data, base + 20)
            };
            let use_sparse = sparse && send > fo;
            let ds: u32 = if use_sparse {
                send - fo
            } else {
                proof {
                    vstd::arithmetic::mul::lemma_mul_upper_bound(
                        nr as int,
                        0xFFFF_FFFF,
                        record_size as int,
                        0xFFFF_FFFF,
                    );
                }
                let p = nr as u64 * record_size as u64;
                if p >= 0x1_0000_0000 {
                    proof {
                        assert(spec_wdc23_section(
                            data@,
                            is_wdc2,
                            sparse,
                            record_size,
                            i as int,
                        ) is None);
                        assert(!spec_wdc23_ok(data@, is_wdc2));
                    }
                    return Err(CascError::InvalidConfig);
                }
                p as u32
            };
            let so64 = fo as u64 + ds as u64;
            if so64 >= 0x1_0000_0000 {
                proof {
                    assert(spec_wdc23_section(data@, is_wdc2, sparse, record_size, i as int)
                        is None);
                    assert(!spec_wdc23_ok(data@, is_wdc2));
                }
                return Err(CascError::InvalidConfig);
            }
            let string_size: u32 = if sparse {
                0
            } else {
                sts
            };
            let sec = Db2Section {
                data_offset: fo,
                data_size: ds,
                string_offset: so64 as u32,
                string_size,
            };
            proof {
                assert(Some(sec) == spec_wdc23_section(data@, is_wdc2, sparse, record_size,
                    i as int));
            }
            // Bounds safety: reject the whole table on any range that
            // exceeds the buffer.
            if so64 > data.len() as u64 {
                proof {
                    assert(!spec_section_in_bounds(sec, data@.len() as int));
                    assert(!spec_wdc23_ok(data@, is_wdc2));
                }
                return Err(CascError::InvalidConfig);
            }
            if string_size > 0 {
                if so64 + string_size as u64 > data.len() as u64 {
                    proof {
                        assert(!spec_section_in_bounds(sec, data@.len() as int));
                        assert(!spec_wdc23_ok(data@, is_wdc2));
                    }
                    return Err(CascError::InvalidConfig);
                }
            }
            sections.push(sec);
            i = i + 1;
        }
        proof {
            assert(spec_wdc23_ok(data@, is_wdc2)) by {
                assert forall|t: int|
                    0 <= t < le32_at(data@, 68) as int implies match #[trigger] spec_wdc23_section(
                    data@,
                    is_wdc2,
                    sparse,
                    record_size,
                    t,
                ) {
                    Some(sec) => spec_section_in_bounds(sec, data@.len() as int),
                    None => false,
                } by {
                    assert(Some(sections@[t]) == spec_wdc23_section(
                        data@,
                        is_wdc2,
                        sparse,
                        record_size,
                        t,
                    ));
                    assert(spec_section_in_bounds(sections@[t], data@.len() as int));
                }
            }
        }
    }
    if sections.len() == 0 {
        // A table without section headers spans the payload as one
        // implicit section.
        if data.len() < 72 {
            return Err(CascError::InvalidConfig);
        }
        let dsz64 = data.len() as u64 - 72;
        let dsz: u32 = if dsz64 > u32::MAX as u64 {
            u32::MAX
        } else {
            dsz64 as u32
        };
        let send64 = 72u64 + dsz as u64;
        let send: u32 = if send64 > u32::MAX as u64 {
            u32::MAX
        } else {
            send64 as u32
        };
        sections.push(
            Db2Section { data_offset: 72, data_size: dsz, string_offset: send, string_size: 0 },
        );
        proof {
            assert(spec_section_in_bounds(sections@[0], data@.len() as int));
        }
    }
    let section_count = sections.len() as u32;
    Ok(
        Db2File {
            magic,
            record_count,
            field_count,
            record_size,
            string_block_size,
            section_count,
            sections,
            wdc5: None,
        },
    )
}

/// The sparse flag word of a sectioned table.
pub open spec fn le16_at_db2(data: Seq<u8>) -> u16 {
    crate::bytes::le16_at(data, 36)
}

/// A section whose declared range exceeds the buffer poisons the parse:
/// the whole table fails, and no returned section can reach outside the
/// buffer.
pub proof fn lemma_db2_bounds_safety(data: Seq<u8>, r: Result<Db2File, CascError>, i: int)
    requires
        r matches Ok(f) ==> (f.wdc5 is None ==> (forall|j: int|
            0 <= j < f.sections@.len() ==> spec_section_in_bounds(
                #[trigger] f.sections@[j],
                data.len() as int,
            ))),
        r matches Ok(f) && f.wdc5 is None && 0 <= i < f.sections@.len(),
    ensures
        r matches Ok(f) ==> spec_section_in_bounds(f.sections@[i], data.len() as int),
{
}

fn read32(data: &[u8], off: usize) -> (r: u32)
    requires
        off + 4 <= data@.len(),
    ensures
        r == le32_at(data@, off as int),
{
    data[off] as u32 + data[off + 1] as u32 * 0x100 + data[off + 2] as u32 * 0x1_0000 + data[off
        + 3] as u32 * 0x100_0000
}

} // verus!

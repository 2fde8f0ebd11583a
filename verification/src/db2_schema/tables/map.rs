//! The map table: a fixed 528-byte record layout with two name strings at
//! the record's tail.

use vstd::prelude::*;

use crate::bytes::le32_at;
use crate::db2::Db2File;
use crate::db2_schema::record_iter::iter_section_records;
use crate::db2_schema::string_table::{read_string, spec_read_string};

verus! {

/// One decoded map row.
pub struct MapRow {
    pub id: u32,
    pub parent_area_id: u32,
    pub flags: u32,
    pub internal_name: Vec<u8>,
    pub map_name: Vec<u8>,
}

/// The fixed record layout this decoder reads.
pub const MAP_RECORD_SIZE: usize = 528;

/// Whether a decoded row matches the record at absolute offset `base`.
pub open spec fn spec_map_row_at(data: Seq<u8>, base: int, row: MapRow) -> bool {
    &&& row.id == le32_at(data, base)
    &&& row.parent_area_id == le32_at(data, base + 4)
    &&& row.flags == le32_at(data, base + 8)
    &&& match spec_read_string(data, le32_at(data, base + 520)) {
        Some(s) => row.internal_name@ == s,
        None => row.internal_name@ == Seq::<u8>::empty(),
    }
    &&& match spec_read_string(data, le32_at(data, base + 524)) {
        Some(s) => row.map_name@ == s,
        None => row.map_name@ == Seq::<u8>::empty(),
    }
}

/// Whether a row was decoded from some whole record inside the buffer.
pub open spec fn spec_map_row_sourced(data: Seq<u8>, row: MapRow) -> bool {
    exists|base: int| 0 <= base && base + 528 <= data.len() && #[trigger] spec_map_row_at(data, base, row)
}

/// Decodes every whole 528-byte record of every section, resolving the
/// two trailing name offsets against the buffer (empty when an offset
/// lies outside it).
pub fn parse_map(db2: &Db2File, data: &[u8]) -> (rows: Vec<MapRow>)
    ensures
        forall|r: int|
            0 <= r < rows@.len() ==> spec_map_row_sourced(data@, #[trigger] rows@[r]),
{
    let mut rows: Vec<MapRow> = Vec::new();
    let mut s: usize = 0;
    while s < db2.sections.len()
        invariant
            forall|r: int|
                0 <= r < rows@.len() ==> spec_map_row_sourced(data@, #[trigger] rows@[r]),
        decreases db2.sections@.len() - s,
    {
        let section = &db2.sections[s];
        let mut it = iter_section_records(data, section, MAP_RECORD_SIZE);
        loop
            invariant
                it.end <= data@.len(),
                it.size == 528,
                forall|r: int|
                    0 <= r < rows@.len() ==> spec_map_row_sourced(data@, #[trigger] rows@[r]),
            decreases it.end + 1 - it.pos,
        {
            let span = match it.next(data.len()) {
                Some(p) => p,
                None => {
                    break ;
                },
            };
            let base = span.0;
            let id = read32(data, base);
            let parent_area_id = read32(data, base + 4);
            let flags = read32(data, base + 8);
            let internal_off = read32(data, base + 520);
            let map_name_off = read32(data, base + 524);
            let internal_name = match read_string(data, internal_off) {
                Some(v) => v,
                None => Vec::new(),
            };
            let map_name = match read_string(data, map_name_off) {
                Some(v) => v,
                None => Vec::new(),
            };
            let row = MapRow { id, parent_area_id, flags, internal_name, map_name };
            let ghost pre_rows = rows@;
            let ghost b0 = base as int;
            proof {
                assert(spec_map_row_at(data@, b0, row));
            }
            rows.push(row);
            proof {
                assert forall|r: int| 0 <= r < rows@.len() implies spec_map_row_sourced(
                    data@,
                    #[trigger] rows@[r],
                ) by {
                    if r < pre_rows.len() {
                        assert(rows@[r] == pre_rows[r]);
                    } else {
                        assert(rows@[r] == row);
                        assert(0 <= b0 && b0 + 528 <= data@.len() && spec_map_row_at(data@, b0, row));
                    }
                }
            }
        }
        s = s + 1;
    }
    rows
}

fn read32(data: &[u8], off: usize) -> (r: u32)
    requires
        off + 4 <= data@.len(),
    ensures
        r == le32_at(data@, off as int),
{
    data[off] as u32 + data[off + 1] as u32 * 0x100 + data[off + 2] as u32 * 0x1_0000 + data[off
        + 3] as u32 * 0x100_0000
}

} // verus!

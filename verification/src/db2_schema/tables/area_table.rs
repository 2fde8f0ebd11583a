//! The area table: a fixed 20-byte record layout with one name string.

use vstd::prelude::*;

use crate::bytes::{le16_at, le32_at};
use crate::db2::Db2File;
use crate::db2_schema::record_iter::iter_section_records;
use crate::db2_schema::string_table::{read_string, spec_read_string};

verus! {

/// One decoded area row.
pub struct AreaTableRow {
    pub id: u32,
    pub map_id: u16,
    pub parent_area_id: u16,
    pub area_level: i32,
    pub flags: u32,
    pub name: Vec<u8>,
}

/// The fixed record layout this decoder reads.
pub const AREA_TABLE_RECORD_SIZE: usize = 20;

/// Whether a decoded row matches the record at absolute offset `base`.
pub open spec fn spec_area_row_at(data: Seq<u8>, base: int, row: AreaTableRow) -> bool {
    &&& row.id == le32_at(data, base)
    &&& row.map_id == le16_at(data, base + 4)
    &&& row.parent_area_id == le16_at(data, base + 6)
    &&& row.area_level == le32_at(data, base + 8) as i32
    &&& row.flags == le32_at(data, base + 12)
    &&& match spec_read_string(data, le32_at(data, base + 16)) {
        Some(s) => row.name@ == s,
        None => row.name@ == Seq::<u8>::empty(),
    }
}

/// Whether a row was decoded from some whole record inside the buffer.
pub open spec fn spec_area_row_sourced(data: Seq<u8>, row: AreaTableRow) -> bool {
    exists|base: int| 0 <= base && base + 20 <= data.len() && #[trigger] spec_area_row_at(data, base, row)
}

/// Decodes every whole 20-byte record of every section. Each returned row
/// carries the record's declared fields and its name string, resolved
/// from the record's absolute name offset (empty when the offset lies
/// outside the buffer).
pub fn parse_area_table(db2: &Db2File, data: &[u8]) -> (rows: Vec<AreaTableRow>)
    ensures
        forall|r: int|
            0 <= r < rows@.len() ==> spec_area_row_sourced(data@, #[trigger] rows@[r]),
{
    let mut rows: Vec<AreaTableRow> = Vec::new();
    let mut s: usize = 0;
    while s < db2.sections.len()
        invariant
            forall|r: int|
                0 <= r < rows@.len() ==> spec_area_row_sourced(data@, #[trigger] rows@[r]),
        decreases db2.sections@.len() - s,
    {
        let section = &db2.sections[s];
        let mut it = iter_section_records(data, section, AREA_TABLE_RECORD_SIZE);
        loop
            invariant
                it.end <= data@.len(),
                it.size == 20,
                forall|r: int|
                    0 <= r < rows@.len() ==> spec_area_row_sourced(data@, #[trigger] rows@[r]),
            decreases it.end + 1 - it.pos,
        {
            let span = match it.next(data.len()) {
                Some(p) => p,
                None => {
                    break ;
                },
            };
            let base = span.0;
            let id = read32(data, base);
            let map_id = data[base + 4] as u16 + data[base + 5] as u16 * 0x100;
            let parent_area_id = data[base + 6] as u16 + data[base + 7] as u16 * 0x100;
            let area_level = read32(data, base + 8) as i32;
            let flags = read32(data, base + 12);
            let name_offset = read32(data, base + 16);
            let name = match read_string(data, name_offset) {
                Some(v) => v,
                None => Vec::new(),
            };
            let row = AreaTableRow { id, map_id, parent_area_id, area_level, flags, name };
            let ghost pre_rows = rows@;
            let ghost b0 = base as int;
            proof {
                assert(spec_area_row_at(data@, b0, row));
            }
            rows.push(row);
            proof {
                assert forall|r: int| 0 <= r < rows@.len() implies spec_area_row_sourced(
                    data@,
                    #[trigger] rows@[r],
                ) by {
                    if r < pre_rows.len() {
                        assert(rows@[r] == pre_rows[r]);
                    } else {
                        assert(rows@[r] == row);
                        assert(0 <= b0 && b0 + 20 <= data@.len() && spec_area_row_at(data@, b0, row));
                    }
                }
            }
        }
        s = s + 1;
    }
    rows
}

fn read32(data: &[u8], off: usize) -> (r: u32)
    requires
        off + 4 <= data@.len(),
    ensures
        r == le32_at(data@, off as int),
{
    data[off] as u32 + data[off + 1] as u32 * 0x100 + data[off + 2] as u32 * 0x1_0000 + data[off
        + 3] as u32 * 0x100_0000
}

} // verus!

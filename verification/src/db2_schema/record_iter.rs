//! Walking the fixed-size records of one section.

use vstd::prelude::*;

use crate::db2::Db2Section;

verus! {

/// A cursor over the records of one section: `pos` walks from the
/// section's start to its end in steps of the record size.
pub struct SectionRecordIter {
    pub pos: usize,
    pub end: usize,
    pub size: usize,
}

/// A record cursor for one section of the buffer: clipped to the buffer's
/// end, stepping by `record_size`.
pub fn iter_section_records(data: &[u8], section: &Db2Section, record_size: usize) -> (r:
    SectionRecordIter)
    ensures
        r.size == record_size,
        r.pos == section.data_offset,
        r.end <= data@.len(),
        r.end == vstd::math::min(
            section.data_offset + section.data_size,
            data@.len() as int,
        ),
{
    let start = section.data_offset as usize;
    let sum128 = section.data_offset as u128 + section.data_size as u128;
    let end: usize = if sum128 > data.len() as u128 {
        data.len()
    } else {
        sum128 as usize
    };
    SectionRecordIter { pos: start, end, size: record_size }
}

impl SectionRecordIter {
    /// The span of the next record, if a whole one remains.
    pub fn next(&mut self, data_len: usize) -> (r: Option<(usize, usize)>)
        ensures
            match r {
                Some(p) => {
                    &&& old(self).size > 0
                    &&& p.0 == old(self).pos
                    &&& p.1 == old(self).pos + old(self).size
                    &&& p.1 <= old(self).end
                    &&& final(self).pos == p.1
                    &&& final(self).end == old(self).end
                    &&& final(self).size == old(self).size
                },
                None => *final(self) == *old(self) && (old(self).size == 0 || old(self).pos
                    >= old(self).end || old(self).pos + old(self).size > old(self).end),
            },
    {
        if self.size == 0 {
            return None;
        }
        if self.pos >= self.end {
            return None;
        }
        if self.size > self.end - self.pos {
            return None;
        }
        let start = self.pos;
        let next = self.pos + self.size;
        self.pos = next;
        Some((start, next))
    }
}

} // verus!

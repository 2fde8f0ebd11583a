//! Null-terminated string reads out of a table buffer.

use vstd::prelude::*;

use crate::text::sep_prefix_len;

verus! {

/// The bytes of the null-terminated run starting at `offset`, or nothing
/// when the offset lies outside the data. A run missing its terminator
/// extends to the end of the data.
pub open spec fn spec_read_string(data: Seq<u8>, offset: u32) -> Option<Seq<u8>> {
    if offset > data.len() {
        None
    } else {
        let rest = data.skip(offset as int);
        Some(rest.take(sep_prefix_len(rest, 0) as int))
    }
}

/// Reads the null-terminated run at `offset`.
pub fn read_string(data: &[u8], offset: u32) -> (r: Option<Vec<u8>>)
    ensures
        match r {
            Some(v) => spec_read_string(data@, offset) == Some(v@),
            None => spec_read_string(data@, offset) is None,
        },
{
    let start = offset as usize;
    if start > data.len() {
        return None;
    }
    let mut end = start;
    while end < data.len() && data[end] != 0
        invariant
            start <= end <= data@.len(),
            forall|j: int| start <= j < end ==> #[trigger] data@[j] != 0,
        decreases data@.len() - end,
    {
        end = end + 1;
    }
    let out = crate::text::slice_to_vec(data, start, end);
    proof {
        let rest = data@.skip(start as int);
        assert forall|j: int| 0 <= j < end - start implies #[trigger] rest[j] != 0 by {
            assert(rest[j] == data@[j + start]);
        }
        if end < data@.len() {
            assert(rest[end - start] == data@[end as int]);
        }
        crate::text::lemma_sep_prefix_char(rest, 0, end - start);
        assert(out@ =~= rest.take(end - start));
    }
    Some(out)
}

} // verus!

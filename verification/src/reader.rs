//! A bounds-checked cursor over a borrowed byte slice.
//!
//! Each read either returns the value described by the spec functions of
//! [`crate::bytes`] and advances the cursor, or returns the caller-chosen
//! error and leaves the cursor untouched.

use vstd::prelude::*;

use crate::bytes::{be16_at, be32_at, be40_at, le16_at, le32_at, le64_at};
use crate::errors::CascError;

verus! {

pub struct Reader<'a> {
    pub data: &'a [u8],
    pub pos: usize,
}

impl<'a> Reader<'a> {
    /// How many bytes remain from the cursor to the end of the data.
    pub open spec fn spec_remaining(&self) -> int {
        self.data@.len() - self.pos
    }

    pub fn new(data: &'a [u8]) -> (r: Self)
        ensures
            r.data@ == data@,
            r.pos == 0,
    {
        Reader { data, pos: 0 }
    }

    /// The byte at the cursor.
    pub fn read_u8(&mut self, e: CascError) -> (r: Result<u8, CascError>)
        ensures
            final(self).data@ == old(self).data@,
            old(self).pos + 1 <= old(self).data@.len() ==> {
                &&& r == Ok::<u8, CascError>(old(self).data@[old(self).pos as int])
                &&& final(self).pos == old(self).pos + 1
            },
            old(self).pos + 1 > old(self).data@.len() ==> (r == Err::<u8, CascError>(e)
                && *final(self) == *old(self)),
    {
        if self.pos < self.data.len() {
            let b = self.data[self.pos];
            self.pos = self.pos + 1;
            Ok(b)
        } else {
            Err(e)
        }
    }

    /// The little-endian 16-bit value at the cursor.
    pub fn read_u16_le(&mut self, e: CascError) -> (r: Result<u16, CascError>)
        ensures
            final(self).data@ == old(self).data@,
            old(self).pos + 2 <= old(self).data@.len() ==> {
                &&& r == Ok::<u16, CascError>(le16_at(old(self).data@, old(self).pos as int))
                &&& final(self).pos == old(self).pos + 2
            },
            old(self).pos + 2 > old(self).data@.len() ==> (r == Err::<u16, CascError>(e)
                && *final(self) == *old(self)),
    {
        if self.pos < self.data.len() && self.data.len() - self.pos >= 2 {
            let b0 = self.data[self.pos];
            let b1 = self.data[self.pos + 1];
            self.pos = self.pos + 2;
            Ok(b0 as u16 + b1 as u16 * 0x100)
        } else {
            Err(e)
        }
    }

    /// The big-endian 16-bit value at the cursor.
    pub fn read_u16_be(&mut self, e: CascError) -> (r: Result<u16, CascError>)
        ensures
            final(self).data@ == old(self).data@,
            old(self).pos + 2 <= old(self).data@.len() ==> {
                &&& r == Ok::<u16, CascError>(be16_at(old(self).data@, old(self).pos as int))
                &&& final(self).pos == old(self).pos + 2
            },
            old(self).pos + 2 > old(self).data@.len() ==> (r == Err::<u16, CascError>(e)
                && *final(self) == *old(self)),
    {
        if self.pos < self.data.len() && self.data.len() - self.pos >= 2 {
            let b0 = self.data[self.pos];
            let b1 = self.data[self.pos + 1];
            self.pos = self.pos + 2;
            Ok(b0 as u16 * 0x100 + b1 as u16)
        } else {
            Err(e)
        }
    }

    /// The little-endian 32-bit value at the cursor.
    pub fn read_u32_le(&mut self, e: CascError) -> (r: Result<u32, CascError>)
        ensures
            final(self).data@ == old(self).data@,
            old(self).pos + 4 <= old(self).data@.len() ==> {
                &&& r == Ok::<u32, CascError>(le32_at(old(self).data@, old(self).pos as int))
                &&& final(self).pos == old(self).pos + 4
            },
            old(self).pos + 4 > old(self).data@.len() ==> (r == Err::<u32, CascError>(e)
                && *final(self) == *old(self)),
    {
        if self.pos < self.data.len() && self.data.len() - self.pos >= 4 {
            let b0 = self.data[self.pos];
            let b1 = self.data[self.pos + 1];
            let b2 = self.data[self.pos + 2];
            let b3 = self.data[self.pos + 3];
            self.pos = self.pos + 4;
            Ok(b0 as u32 + b1 as u32 * 0x100 + b2 as u32 * 0x1_0000 + b3 as u32 * 0x100_0000)
        } else {
            Err(e)
        }
    }

    /// The big-endian 32-bit value at the cursor.
    pub fn read_u32_be(&mut self, e: CascError) -> (r: Result<u32, CascError>)
        ensures
            final(self).data@ == old(self).data@,
            old(self).pos + 4 <= old(self).data@.len() ==> {
                &&& r == Ok::<u32, CascError>(be32_at(old(self).data@, old(self).pos as int))
                &&& final(self).pos == old(self).pos + 4
            },
            old(self).pos + 4 > old(self).data@.len() ==> (r == Err::<u32, CascError>(e)
                && *final(self) == *old(self)),
    {
        if self.pos < self.data.len() && self.data.len() - self.pos >= 4 {
            let b0 = self.data[self.pos];
            let b1 = self.data[self.pos + 1];
            let b2 = self.data[self.pos + 2];
            let b3 = self.data[self.pos + 3];
            self.pos = self.pos + 4;
            Ok(b0 as u32 * 0x100_0000 + b1 as u32 * 0x1_0000 + b2 as u32 * 0x100 + b3 as u32)
        } else {
            Err(e)
        }
    }

    /// The two's-complement signed reading of the little-endian 32-bit value.
    pub fn read_i32_le(&mut self, e: CascError) -> (r: Result<i32, CascError>)
        ensures
            final(self).data@ == old(self).data@,
            old(self).pos + 4 <= old(self).data@.len() ==> {
                &&& r == Ok::<i32, CascError>(le32_at(old(self).data@, old(self).pos as int) as i32)
                &&& final(self).pos == old(self).pos + 4
            },
            old(self).pos + 4 > old(self).data@.len() ==> (r == Err::<i32, CascError>(e)
                && *final(self) == *old(self)),
    {
        match self.read_u32_le(e) {
            Ok(v) => Ok(v as i32),
            Err(err) => Err(err),
        }
    }

    /// The two's-complement signed reading of the big-endian 32-bit value.
    pub fn read_i32_be(&mut self, e: CascError) -> (r: Result<i32, CascError>)
        ensures
            final(self).data@ == old(self).data@,
            old(self).pos + 4 <= old(self).data@.len() ==> {
                &&& r == Ok::<i32, CascError>(be32_at(old(self).data@, old(self).pos as int) as i32)
                &&& final(self).pos == old(self).pos + 4
            },
            old(self).pos + 4 > old(self).data@.len() ==> (r == Err::<i32, CascError>(e)
                && *final(self) == *old(self)),
    {
        match self.read_u32_be(e) {
            Ok(v) => Ok(v as i32),
            Err(err) => Err(err),
        }
    }

    /// The big-endian 40-bit value at the cursor.
    pub fn read_u40_be(&mut self, e: CascError) -> (r: Result<u64, CascError>)
        ensures
            final(self).data@ == old(self).data@,
            old(self).pos + 5 <= old(self).data@.len() ==> {
                &&& r == Ok::<u64, CascError>(be40_at(old(self).data@, old(self).pos as int))
                &&& final(self).pos == old(self).pos + 5
            },
            old(self).pos + 5 > old(self).data@.len() ==> (r == Err::<u64, CascError>(e)
                && *final(self) == *old(self)),
    {
        if self.pos < self.data.len() && self.data.len() - self.pos >= 5 {
            let b0 = self.data[self.pos];
            let b1 = self.data[self.pos + 1];
            let b2 = self.data[self.pos + 2];
            let b3 = self.data[self.pos + 3];
            let b4 = self.data[self.pos + 4];
            self.pos = self.pos + 5;
            Ok(b0 as u64 * 0x1_0000_0000 + b1 as u64 * 0x100_0000 + b2 as u64 * 0x1_0000
                + b3 as u64 * 0x100 + b4 as u64)
        } else {
            Err(e)
        }
    }

    /// The little-endian 64-bit value at the cursor.
    pub fn read_u64_le(&mut self, e: CascError) -> (r: Result<u64, CascError>)
        ensures
            final(self).data@ == old(self).data@,
            old(self).pos + 8 <= old(self).data@.len() ==> {
                &&& r == Ok::<u64, CascError>(le64_at(old(self).data@, old(self).pos as int))
                &&& final(self).pos == old(self).pos + 8
            },
            old(self).pos + 8 > old(self).data@.len() ==> (r == Err::<u64, CascError>(e)
                && *final(self) == *old(self)),
    {
        if self.pos < self.data.len() && self.data.len() - self.pos >= 8 {
            let b0 = self.data[self.pos];
            let b1 = self.data[self.pos + 1];
            let b2 = self.data[self.pos + 2];
            let b3 = self.data[self.pos + 3];
            let b4 = self.data[self.pos + 4];
            let b5 = self.data[self.pos + 5];
            let b6 = self.data[self.pos + 6];
            let b7 = self.data[self.pos + 7];
            self.pos = self.pos + 8;
            Ok(b0 as u64 + b1 as u64 * 0x100 + b2 as u64 * 0x1_0000 + b3 as u64 * 0x100_0000
                + b4 as u64 * 0x1_0000_0000 + b5 as u64 * 0x100_0000_0000
                + b6 as u64 * 0x1_0000_0000_0000 + b7 as u64 * 0x100_0000_0000_0000)
        } else {
            Err(e)
        }
    }

    /// The next `count` bytes, as a borrowed sub-slice.
    pub fn read_bytes(&mut self, count: usize, e: CascError) -> (r: Result<&'a [u8], CascError>)
        ensures
            final(self).data@ == old(self).data@,
            old(self).pos + count <= old(self).data@.len() ==> {
                &&& r matches Ok(s) && s@ == old(self).data@.subrange(
                    old(self).pos as int,
                    old(self).pos + count,
                )
                &&& final(self).pos == old(self).pos + count
            },
            old(self).pos + count > old(self).data@.len() ==> (r matches Err(err) && err == e
                && *final(self) == *old(self)),
    {
        if self.pos <= self.data.len() && self.data.len() - self.pos >= count {
            let s = &self.data[self.pos..self.pos + count];
            self.pos = self.pos + count;
            Ok(s)
        } else {
            Err(e)
        }
    }

    /// The next 16 bytes as a fixed-size key or digest.
    pub fn read_md5(&mut self, e: CascError) -> (r: Result<[u8; 16], CascError>)
        ensures
            final(self).data@ == old(self).data@,
            old(self).pos + 16 <= old(self).data@.len() ==> {
                &&& r matches Ok(a) && a@ == old(self).data@.subrange(
                    old(self).pos as int,
                    old(self).pos + 16,
                )
                &&& final(self).pos == old(self).pos + 16
            },
            old(self).pos + 16 > old(self).data@.len() ==> (r matches Err(err) && err == e
                && *final(self) == *old(self)),
    {
        if self.pos < self.data.len() && self.data.len() - self.pos >= 16 {
            let p = self.pos;
            let a = [
                self.data[p],
                self.data[p + 1],
                self.data[p + 2],
                self.data[p + 3],
                self.data[p + 4],
                self.data[p + 5],
                self.data[p + 6],
                self.data[p + 7],
                self.data[p + 8],
                self.data[p + 9],
                self.data[p + 10],
                self.data[p + 11],
                self.data[p + 12],
                self.data[p + 13],
                self.data[p + 14],
                self.data[p + 15],
            ];
            self.pos = p + 16;
            proof {
                assert(a@ =~= old(self).data@.subrange(p as int, p + 16));
            }
            Ok(a)
        } else {
            Err(e)
        }
    }

    /// Advances the cursor by `count` bytes.
    pub fn skip(&mut self, count: usize, e: CascError) -> (r: Result<(), CascError>)
        ensures
            final(self).data@ == old(self).data@,
            old(self).pos + count <= old(self).data@.len() ==> r is Ok && final(self).pos
                == old(self).pos + count,
            old(self).pos + count > old(self).data@.len() ==> (r == Err::<(), CascError>(e)
                && *final(self) == *old(self)),
    {
        if self.pos <= self.data.len() && self.data.len() - self.pos >= count {
            self.pos = self.pos + count;
            Ok(())
        } else {
            Err(e)
        }
    }

    /// Places the cursor at an absolute offset, which may be anywhere up to
    /// and including the end of the data.
    pub fn seek(&mut self, pos: usize, e: CascError) -> (r: Result<(), CascError>)
        ensures
            final(self).data@ == old(self).data@,
            pos <= old(self).data@.len() ==> r is Ok && final(self).pos == pos,
            pos > old(self).data@.len() ==> (r == Err::<(), CascError>(e) && *final(self) == *old(
                self,
            )),
    {
        if pos <= self.data.len() {
            self.pos = pos;
            Ok(())
        } else {
            Err(e)
        }
    }
}

} // verus!

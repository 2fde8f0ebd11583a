//! The optional name list: maps normalized asset paths to asset ids,
//! keeping only names whose id the root manifest knows.

use vstd::prelude::*;

use crate::root::{root_view, RootTable};
use crate::text::{bytes_eq, lower_seq, spec_split, spec_trim, split_byte, to_ascii_lowercase, trim};

verus! {

/// A name table entry: the normalized path and its asset id.
pub struct Listfile {
    pub entries: Vec<(Vec<u8>, u32)>,
}

/// Path normalization: trimmed, backslashes forward, ASCII lowercased.
pub open spec fn spec_normalize_name(name: Seq<u8>) -> Seq<u8> {
    lower_seq(spec_trim(name).map_values(|b: u8| if b == 0x5c { 0x2fu8 } else { b }))
}

/// Normalizes an asset path for lookup.
pub fn normalize_name(name: &[u8]) -> (r: Vec<u8>)
    ensures
        r@ == spec_normalize_name(name@),
{
    let t = trim(name);
    let mut out: Vec<u8> = Vec::new();
    let mut i: usize = 0;
    while i < t.len()
        invariant
            i <= t@.len(),
            out@.len() == i,
            forall|j: int|
                0 <= j < i ==> #[trigger] out@[j] == crate::text::to_lower(
                    if t@[j] == 0x5c {
                        0x2fu8
                    } else {
                        t@[j]
                    },
                ),
        decreases t@.len() - i,
    {
        let b = t[i];
        let fixed: u8 = if b == 0x5c {
            0x2f
        } else {
            b
        };
        if 0x41 <= fixed && fixed <= 0x5a {
            out.push(fixed + 0x20);
        } else {
            out.push(fixed);
        }
        i = i + 1;
    }
    proof {
        assert(out@ =~= spec_normalize_name(name@));
    }
    out
}

/// The FNV-1a style hash of a normalized name.
pub open spec fn spec_name_hash(s: Seq<u8>, i: int) -> u64
    decreases i,
{
    if i <= 0 {
        0xcbf29ce484222325u64
    } else {
        crate::root::mul_wrap64((spec_name_hash(s, i - 1) ^ (s[i - 1] as u64)), 0x100000001b3)
    }
}

/// Hashes a normalized name with the 64-bit FNV-1a function.
pub fn name_hash(name: &[u8]) -> (r: u64)
    ensures
        r == spec_name_hash(name@, name@.len() as int),
{
    let mut h: u64 = 0xcbf29ce484222325;
    let mut i: usize = 0;
    while i < name.len()
        invariant
            i <= name@.len(),
            h == spec_name_hash(name@, i as int),
        decreases name@.len() - i,
    {
        let x = h ^ (name[i] as u64);
        h = crate::root::wrap_mul_pub(x, 0x100000001b3);
        i = i + 1;
    }
    h
}

impl Listfile {
    /// Builds the name table from list text (`id,name` or `id;name` per
    /// line), keeping only ids the root manifest maps. Malformed lines are
    /// skipped.
    pub fn from_text(text: &[u8], root: &RootTable) -> (r: Listfile)
        ensures
            forall|i: int|
                0 <= i < r.entries@.len() ==> root_view(root.by_file_id@).contains_key(
                    #[trigger] r.entries@[i].1,
                ),
    {
        let lines = split_byte(text, 0x0a);
        let mut entries: Vec<(Vec<u8>, u32)> = Vec::new();
        let mut i: usize = 0;
        while i < lines.len()
            invariant
                forall|j: int|
                    0 <= j < entries@.len() ==> root_view(root.by_file_id@).contains_key(
                        #[trigger] entries@[j].1,
                    ),
            decreases lines@.len() - i,
        {
            let line = trim(lines[i].as_slice());
            if line.len() > 0 {
                let sep = match crate::text::find_byte(line, 0, 0x2c) {
                    Some(p) => Some(p),
                    None => crate::text::find_byte(line, 0, 0x3b),
                };
                match sep {
                    Some(p) => {
                        let fid_str = trim(&line[0..p]);
                        let name_str = &line[if p + 1 <= line.len() {
                            p + 1
                        } else {
                            line.len()
                        }..line.len()];
                        match parse_decimal_u32(fid_str) {
                            Some(fid) => {
                                match root.get(fid) {
                                    Some(_) => {
                                        let norm = normalize_name(name_str);
                                        entries.push((norm, fid));
                                    },
                                    None => {},
                                }
                            },
                            None => {},
                        }
                    },
                    None => {},
                }
            }
            i = i + 1;
        }
        Listfile { entries }
    }

    /// The asset id registered under a normalized name, first entry
    /// winning.
    pub fn lookup(&self, normalized: &[u8]) -> (r: Option<u32>)
        ensures
            match r {
                Some(fid) => exists|i: int|
                    0 <= i < self.entries@.len() && #[trigger] self.entries@[i].0@ == normalized@
                        && self.entries@[i].1 == fid,
                None => forall|i: int|
                    0 <= i < self.entries@.len() ==> #[trigger] self.entries@[i].0@ != normalized@,
            },
    {
        let mut i: usize = 0;
        while i < self.entries.len()
            invariant
                i <= self.entries@.len(),
                forall|j: int|
                    0 <= j < i ==> #[trigger] self.entries@[j].0@ != normalized@,
            decreases self.entries@.len() - i,
        {
            if bytes_eq(self.entries[i].0.as_slice(), normalized) {
                return Some(self.entries[i].1);
            }
            i = i + 1;
        }
        None
    }
}

/// Parses a decimal asset id, tolerating a UTF-8 byte-order mark before
/// the digits.
pub fn parse_decimal_u32(s: &[u8]) -> (r: Option<u32>)
{
    let start: usize = if s.len() >= 3 && s[0] == 0xef && s[1] == 0xbb && s[2] == 0xbf {
        3
    } else {
        0
    };
    if start >= s.len() {
        return None;
    }
    let mut acc: u64 = 0;
    let mut i = start;
    while i < s.len()
        invariant
            start <= i <= s@.len(),
            acc <= 0xFFFF_FFFF,
        decreases s@.len() - i,
    {
        let c = s[i];
        if c < 0x30 || c > 0x39 {
            return None;
        }
        let d = (c - 0x30) as u64;
        if acc > (0xFFFF_FFFFu64 - d) / 10 {
            return None;
        }
        acc = acc * 10 + d;
        i = i + 1;
    }
    Some(acc as u32)
}

} // verus!

//! Hexadecimal text: decoding key strings and encoding keys for CDN paths.

use vstd::prelude::*;

verus! {

/// Whether `c` is an ASCII hexadecimal digit.
pub open spec fn is_hex_digit(c: u8) -> bool {
    (0x30 <= c && c <= 0x39) || (0x41 <= c && c <= 0x46) || (0x61 <= c && c <= 0x66)
}

/// The numeric value of an ASCII hexadecimal digit (0 for other bytes).
pub open spec fn hex_val(c: u8) -> u8 {
    if 0x30 <= c && c <= 0x39 {
        (c - 0x30) as u8
    } else if 0x41 <= c && c <= 0x46 {
        (c - 0x41 + 10) as u8
    } else if 0x61 <= c && c <= 0x66 {
        (c - 0x61 + 10) as u8
    } else {
        0
    }
}

/// Whether `s` is a well-formed hexadecimal byte string: even length, all
/// hexadecimal digits.
pub open spec fn hex_well_formed(s: Seq<u8>) -> bool {
    s.len() % 2 == 0 && (forall|i: int| 0 <= i < s.len() ==> is_hex_digit(#[trigger] s[i]))
}

/// The bytes denoted by a well-formed hexadecimal string.
pub open spec fn hex_bytes_of(s: Seq<u8>) -> Seq<u8> {
    Seq::new((s.len() / 2) as nat, |i: int| (hex_val(s[2 * i]) * 16 + hex_val(s[2 * i + 1])) as u8)
}

/// The value of a hexadecimal numeral, most significant digit first.
pub open spec fn hex_value_of(s: Seq<u8>) -> int
    decreases s.len(),
{
    if s.len() == 0 {
        0
    } else {
        hex_value_of(s.drop_last()) * 16 + hex_val(s.last())
    }
}

/// The lowercase hexadecimal digit for a value below 16.
pub open spec fn nibble_lower(v: u8) -> u8 {
    if v < 10 {
        (0x30 + v) as u8
    } else {
        (0x61 + (v - 10)) as u8
    }
}

/// The uppercase hexadecimal digit for a value below 16.
pub open spec fn nibble_upper(v: u8) -> u8 {
    if v < 10 {
        (0x30 + v) as u8
    } else {
        (0x41 + (v - 10)) as u8
    }
}

/// The lowercase hexadecimal spelling of a byte string.
pub open spec fn hex_lower_of(s: Seq<u8>) -> Seq<u8> {
    Seq::new(
        s.len() * 2,
        |i: int|
            if i % 2 == 0 {
                nibble_lower(s[i / 2] / 16)
            } else {
                nibble_lower(s[i / 2] % 16)
            },
    )
}

/// The uppercase hexadecimal spelling of a byte string.
pub open spec fn hex_upper_of(s: Seq<u8>) -> Seq<u8> {
    Seq::new(
        s.len() * 2,
        |i: int|
            if i % 2 == 0 {
                nibble_upper(s[i / 2] / 16)
            } else {
                nibble_upper(s[i / 2] % 16)
            },
    )
}

/// The numeric value of one hexadecimal digit, or `None` for any other byte.
pub fn hex_digit_val(c: u8) -> (r: Option<u8>)
    ensures
        is_hex_digit(c) ==> r == Some(hex_val(c)),
        !is_hex_digit(c) ==> r is None,
{
    if 0x30 <= c && c <= 0x39 {
        Some(c - 0x30)
    } else if 0x41 <= c && c <= 0x46 {
        Some(c - 0x41 + 10)
    } else if 0x61 <= c && c <= 0x66 {
        Some(c - 0x61 + 10)
    } else {
        None
    }
}

/// Decodes a hexadecimal string into bytes; `None` exactly when the string
/// has odd length or holds a non-digit.
pub fn decode_hex(s: &[u8]) -> (r: Option<Vec<u8>>)
    ensures
        hex_well_formed(s@) ==> (r matches Some(v) && v@ == hex_bytes_of(s@)),
        !hex_well_formed(s@) ==> r is None,
{
    if s.len() % 2 != 0 {
        proof {
            assert(!hex_well_formed(s@));
        }
        return None;
    }
    let mut out: Vec<u8> = Vec::new();
    let mut i: usize = 0;
    while i < s.len()
        invariant
            i % 2 == 0,
            i <= s@.len(),
            s@.len() % 2 == 0,
            forall|j: int| 0 <= j < i ==> is_hex_digit(#[trigger] s@[j]),
            out@.len() == i / 2,
            forall|j: int|
                0 <= j < i / 2 ==> #[trigger] out@[j] == (hex_val(s@[2 * j]) * 16 + hex_val(
                    s@[2 * j + 1],
                )) as u8,
        decreases s@.len() - i,
    {
        let hi = match hex_digit_val(s[i]) {
            Some(v) => v,
            None => {
                return None;
            },
        };
        let lo = match hex_digit_val(s[i + 1]) {
            Some(v) => v,
            None => {
                return None;
            },
        };
        out.push(hi * 16 + lo);
        i = i + 2;
    }
    proof {
        assert(hex_well_formed(s@));
        assert(out@ =~= hex_bytes_of(s@));
    }
    Some(out)
}

/// Decodes exactly 32 hexadecimal digits into a 16-byte key.
#[verifier::rlimit(50)]
pub fn decode_hex16(s: &[u8]) -> (r: Option<[u8; 16]>)
    ensures
        spec_decode_hex16(s@) is Some ==> (r matches Some(a) && Some(a@) == spec_decode_hex16(s@)),
        spec_decode_hex16(s@) is None ==> r is None,
{
    if s.len() != 32 {
        return None;
    }
    let v = match decode_hex(s) {
        Some(v) => v,
        None => {
            return None;
        },
    };
    let a = [
        v[0],
        v[1],
        v[2],
        v[3],
        v[4],
        v[5],
        v[6],
        v[7],
        v[8],
        v[9],
        v[10],
        v[11],
        v[12],
        v[13],
        v[14],
        v[15],
    ];
    proof {
        assert forall|i: int| 0 <= i < 16 implies a@[i] == hex_bytes_of(s@)[i] by {
            assert(a@[i] == v@[i]);
        }
        assert(a@ =~= hex_bytes_of(s@));
    }
    Some(a)
}

/// The 64-bit value a hexadecimal numeral denotes, most significant digit
/// first; nothing when the string is empty, holds a non-digit, or denotes a
/// value above `u64::MAX`.
pub open spec fn spec_parse_hex_u64(s: Seq<u8>) -> Option<u64> {
    if s.len() > 0 && (forall|i: int| 0 <= i < s.len() ==> is_hex_digit(#[trigger] s[i]))
        && hex_value_of(s) <= u64::MAX {
        Some(hex_value_of(s) as u64)
    } else {
        None
    }
}

/// The 16 bytes denoted by exactly 32 hexadecimal digits.
pub open spec fn spec_decode_hex16(s: Seq<u8>) -> Option<Seq<u8>> {
    if s.len() == 32 && hex_well_formed(s) {
        Some(hex_bytes_of(s))
    } else {
        None
    }
}

/// Parses a hexadecimal numeral into a 64-bit value.
pub fn parse_hex_u64(s: &[u8]) -> (r: Option<u64>)
    ensures
        r == spec_parse_hex_u64(s@),
{
    if s.len() == 0 {
        return None;
    }
    let mut acc: u64 = 0;
    let mut i: usize = 0;
    while i < s.len()
        invariant
            i <= s@.len(),
            forall|j: int| 0 <= j < i ==> is_hex_digit(#[trigger] s@[j]),
            acc == hex_value_of(s@.subrange(0, i as int)),
        decreases s@.len() - i,
    {
        let d = match hex_digit_val(s[i]) {
            Some(v) => v,
            None => {
                proof {
                    lemma_hex_value_mono(s@, i as int);
                }
                return None;
            },
        };
        if acc > (u64::MAX - d as u64) / 16 {
            proof {
                assert(s@.subrange(0, i as int + 1).drop_last() =~= s@.subrange(0, i as int));
                assert(hex_value_of(s@.subrange(0, i as int + 1)) > u64::MAX);
                lemma_hex_value_mono(s@, i as int + 1);
            }
            return None;
        }
        proof {
            assert(s@.subrange(0, i as int + 1).drop_last() =~= s@.subrange(0, i as int));
        }
        acc = acc * 16 + d as u64;
        i = i + 1;
    }
    proof {
        assert(s@.subrange(0, s@.len() as int) =~= s@);
    }
    Some(acc)
}

/// A hexadecimal numeral's value only grows as digits are appended.
proof fn lemma_hex_value_mono(s: Seq<u8>, i: int)
    requires
        0 <= i <= s.len(),
    ensures
        hex_value_of(s) >= hex_value_of(s.subrange(0, i)),
        hex_value_of(s) >= 0,
    decreases s.len(),
{
    lemma_hex_value_nonneg(s.subrange(0, i));
    if s.len() == 0 {
    } else if i == s.len() {
        assert(s.subrange(0, i) =~= s);
        lemma_hex_value_nonneg(s);
    } else {
        assert(s.drop_last().subrange(0, i) =~= s.subrange(0, i));
        lemma_hex_value_mono(s.drop_last(), i);
        lemma_hex_value_nonneg(s.drop_last());
    }
}

proof fn lemma_hex_value_nonneg(s: Seq<u8>)
    ensures
        hex_value_of(s) >= 0,
    decreases s.len(),
{
    if s.len() > 0 {
        lemma_hex_value_nonneg(s.drop_last());
    }
}

/// Encodes bytes as lowercase hexadecimal text.
pub fn encode_hex_lower(data: &[u8]) -> (r: Vec<u8>)
    ensures
        r@ == hex_lower_of(data@),
{
    let mut out: Vec<u8> = Vec::new();
    let mut i: usize = 0;
    while i < data.len()
        invariant
            i <= data@.len(),
            out@.len() == 2 * i,
            forall|j: int| 0 <= j < 2 * i ==> #[trigger] out@[j] == hex_lower_of(data@)[j],
        decreases data@.len() - i,
    {
        let b = data[i];
        let hi = b / 16;
        let lo = b % 16;
        out.push(if hi < 10 { 0x30 + hi } else { 0x61 + (hi - 10) });
        out.push(if lo < 10 { 0x30 + lo } else { 0x61 + (lo - 10) });
        i = i + 1;
    }
    proof {
        assert(out@ =~= hex_lower_of(data@));
    }
    out
}

/// Encodes bytes as uppercase hexadecimal text.
pub fn encode_hex_upper(data: &[u8]) -> (r: Vec<u8>)
    ensures
        r@ == hex_upper_of(data@),
{
    let mut out: Vec<u8> = Vec::new();
    let mut i: usize = 0;
    while i < data.len()
        invariant
            i <= data@.len(),
            out@.len() == 2 * i,
            forall|j: int| 0 <= j < 2 * i ==> #[trigger] out@[j] == hex_upper_of(data@)[j],
        decreases data@.len() - i,
    {
        let b = data[i];
        let hi = b / 16;
        let lo = b % 16;
        out.push(if hi < 10 { 0x30 + hi } else { 0x41 + (hi - 10) });
        out.push(if lo < 10 { 0x30 + lo } else { 0x41 + (lo - 10) });
        i = i + 1;
    }
    proof {
        assert(out@ =~= hex_upper_of(data@));
    }
    out
}

} // verus!

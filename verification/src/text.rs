//! Byte-level text handling for the small textual manifests: trimming,
//! splitting on a delimiter or on whitespace runs, case folding, and
//! substring search. Every exec function is proved against a canonical
//! spec-level description, so the parsers built on top inherit exact
//! semantics.

use vstd::prelude::*;

verus! {

/// ASCII whitespace, as the textual manifests use it.
pub open spec fn is_ws(b: u8) -> bool {
    b == 0x20 || b == 0x09 || b == 0x0a || b == 0x0d || b == 0x0b || b == 0x0c
}

/// Length of the leading whitespace run.
pub open spec fn ws_prefix_len(s: Seq<u8>) -> nat
    decreases s.len(),
{
    if s.len() == 0 || !is_ws(s[0]) {
        0
    } else {
        1 + ws_prefix_len(s.drop_first())
    }
}

/// Length of the trailing whitespace run.
pub open spec fn ws_suffix_len(s: Seq<u8>) -> nat
    decreases s.len(),
{
    if s.len() == 0 || !is_ws(s.last()) {
        0
    } else {
        1 + ws_suffix_len(s.drop_last())
    }
}

/// Length of the leading run of non-whitespace bytes.
pub open spec fn nonws_prefix_len(s: Seq<u8>) -> nat
    decreases s.len(),
{
    if s.len() == 0 || is_ws(s[0]) {
        0
    } else {
        1 + nonws_prefix_len(s.drop_first())
    }
}

/// Index of the first occurrence of `d`, or the length if absent.
pub open spec fn sep_prefix_len(s: Seq<u8>, d: u8) -> nat
    decreases s.len(),
{
    if s.len() == 0 || s[0] == d {
        0
    } else {
        1 + sep_prefix_len(s.drop_first(), d)
    }
}

/// `s` with leading and trailing ASCII whitespace removed.
pub open spec fn spec_trim(s: Seq<u8>) -> Seq<u8> {
    let t = s.skip(ws_prefix_len(s) as int);
    t.take(t.len() - ws_suffix_len(t))
}

/// `s` split on every occurrence of the delimiter `d`; `n` delimiters yield
/// `n + 1` parts, empty parts included.
pub open spec fn spec_split(s: Seq<u8>, d: u8) -> Seq<Seq<u8>>
    decreases s.len(),
{
    let i = sep_prefix_len(s, d);
    if i >= s.len() {
        seq![s]
    } else {
        seq![s.take(i as int)] + spec_split(s.skip(i as int + 1), d)
    }
}

/// `s` split on whitespace runs: the maximal non-whitespace words, in order.
pub open spec fn spec_split_ws(s: Seq<u8>) -> Seq<Seq<u8>>
    decreases s.len(),
{
    if s.len() == 0 {
        seq![]
    } else if is_ws(s[0]) {
        spec_split_ws(s.drop_first())
    } else {
        let n = nonws_prefix_len(s);
        if n >= s.len() {
            seq![s]
        } else {
            seq![s.take(n as int)] + spec_split_ws(s.skip(n as int))
        }
    }
}

/// ASCII lowercase folding of one byte.
pub open spec fn to_lower(b: u8) -> u8 {
    if 0x41 <= b && b <= 0x5a {
        (b + 0x20) as u8
    } else {
        b
    }
}

/// ASCII lowercase folding of a byte string.
pub open spec fn lower_seq(s: Seq<u8>) -> Seq<u8> {
    s.map_values(|b: u8| to_lower(b))
}

pub proof fn lemma_ws_prefix(s: Seq<u8>)
    ensures
        ws_prefix_len(s) <= s.len(),
        forall|j: int| 0 <= j < ws_prefix_len(s) ==> is_ws(#[trigger] s[j]),
        ws_prefix_len(s) == s.len() || !is_ws(s[ws_prefix_len(s) as int]),
    decreases s.len(),
{
    if s.len() > 0 && is_ws(s[0]) {
        lemma_ws_prefix(s.drop_first());
        assert forall|j: int| 0 <= j < ws_prefix_len(s) implies is_ws(#[trigger] s[j]) by {
            if j > 0 {
                assert(s.drop_first()[j - 1] == s[j]);
            }
        }
    }
}

pub proof fn lemma_ws_prefix_char(s: Seq<u8>, i: int)
    requires
        0 <= i <= s.len(),
        forall|j: int| 0 <= j < i ==> is_ws(#[trigger] s[j]),
        i == s.len() || !is_ws(s[i]),
    ensures
        ws_prefix_len(s) == i,
    decreases s.len(),
{
    if s.len() == 0 {
    } else if i == 0 {
    } else {
        assert(is_ws(s[0]));
        assert forall|j: int| 0 <= j < i - 1 implies is_ws(#[trigger] s.drop_first()[j]) by {
            assert(s.drop_first()[j] == s[j + 1]);
        }
        if i < s.len() {
            assert(s.drop_first()[i - 1] == s[i]);
        }
        lemma_ws_prefix_char(s.drop_first(), i - 1);
    }
}

pub proof fn lemma_ws_suffix_char(s: Seq<u8>, i: int)
    requires
        0 <= i <= s.len(),
        forall|j: int| i <= j < s.len() ==> is_ws(#[trigger] s[j]),
        i == 0 || !is_ws(s[i - 1]),
    ensures
        ws_suffix_len(s) == s.len() - i,
    decreases s.len(),
{
    if s.len() == 0 {
    } else if i == s.len() {
    } else {
        assert(is_ws(s.last()));
        assert forall|j: int| i <= j < s.len() - 1 implies is_ws(#[trigger] s.drop_last()[j]) by {
            assert(s.drop_last()[j] == s[j]);
        }
        lemma_ws_suffix_char(s.drop_last(), i);
    }
}

pub proof fn lemma_nonws_prefix_char(s: Seq<u8>, i: int)
    requires
        0 <= i <= s.len(),
        forall|j: int| 0 <= j < i ==> !is_ws(#[trigger] s[j]),
        i == s.len() || is_ws(s[i]),
    ensures
        nonws_prefix_len(s) == i,
    decreases s.len(),
{
    if s.len() == 0 {
    } else if i == 0 {
    } else {
        assert(!is_ws(s[0]));
        assert forall|j: int| 0 <= j < i - 1 implies !is_ws(#[trigger] s.drop_first()[j]) by {
            assert(s.drop_first()[j] == s[j + 1]);
        }
        if i < s.len() {
            assert(s.drop_first()[i - 1] == s[i]);
        }
        lemma_nonws_prefix_char(s.drop_first(), i - 1);
    }
}

pub proof fn lemma_sep_prefix_char(s: Seq<u8>, d: u8, i: int)
    requires
        0 <= i <= s.len(),
        forall|j: int| 0 <= j < i ==> #[trigger] s[j] != d,
        i == s.len() || s[i] == d,
    ensures
        sep_prefix_len(s, d) == i,
    decreases s.len(),
{
    if s.len() == 0 {
    } else if i == 0 {
    } else {
        assert(s[0] != d);
        assert forall|j: int| 0 <= j < i - 1 implies #[trigger] s.drop_first()[j] != d by {
            assert(s.drop_first()[j] == s[j + 1]);
        }
        if i < s.len() {
            assert(s.drop_first()[i - 1] == s[i]);
        }
        lemma_sep_prefix_char(s.drop_first(), d, i - 1);
    }
}

/// When `d` first occurs at position `i`, the separator prefix length is
/// exactly `i`, which is below the length.
pub proof fn lemma_sep_prefix_char_upper(s: Seq<u8>, d: u8, i: int)
    requires
        0 <= i < s.len(),
        forall|j: int| 0 <= j < i ==> #[trigger] s[j] != d,
        s[i] == d,
    ensures
        sep_prefix_len(s, d) == i < s.len(),
{
    lemma_sep_prefix_char(s, d, i);
}

/// The first position at or after `from` holding the byte `d`, if any.
pub fn find_byte(s: &[u8], from: usize, d: u8) -> (r: Option<usize>)
    ensures
        match r {
            Some(i) => from <= i < s@.len() && s@[i as int] == d && (forall|j: int|
                from <= j < i ==> #[trigger] s@[j] != d),
            None => forall|j: int| from <= j < s@.len() ==> #[trigger] s@[j] != d,
        },
{
    let mut i = from;
    while i < s.len()
        invariant
            from <= i,
            forall|j: int| from <= j < i ==> #[trigger] s@[j] != d,
        decreases s@.len() - i,
    {
        if s[i] == d {
            return Some(i);
        }
        i = i + 1;
    }
    None
}

/// Removes leading and trailing ASCII whitespace.
pub fn trim(s: &[u8]) -> (r: &[u8])
    ensures
        r@ == spec_trim(s@),
{
    let mut start: usize = 0;
    while start < s.len() && is_ws_byte(s[start])
        invariant
            start <= s@.len(),
            forall|j: int| 0 <= j < start ==> is_ws(#[trigger] s@[j]),
        decreases s@.len() - start,
    {
        start = start + 1;
    }
    proof {
        lemma_ws_prefix_char(s@, start as int);
    }
    let mut end: usize = s.len();
    while end > start && is_ws_byte(s[end - 1])
        invariant
            start <= end <= s@.len(),
            forall|j: int| end <= j < s@.len() ==> is_ws(#[trigger] s@[j]),
        decreases end,
    {
        end = end - 1;
    }
    let r = &s[start..end];
    proof {
        let t = s@.skip(start as int);
        assert forall|j: int| (end - start) <= j < t.len() implies is_ws(#[trigger] t[j]) by {
            assert(t[j] == s@[j + start]);
        }
        if end > start {
            assert(t[end - start - 1] == s@[end - 1]);
        }
        lemma_ws_suffix_char(t, end - start);
        assert(r@ =~= t.take(end - start));
    }
    r
}

/// Whether the byte is ASCII whitespace.
pub fn is_ws_byte(b: u8) -> (r: bool)
    ensures
        r == is_ws(b),
{
    b == 0x20 || b == 0x09 || b == 0x0a || b == 0x0d || b == 0x0b || b == 0x0c
}

/// Splits on a delimiter byte; `n` delimiters yield `n + 1` parts.
pub fn split_byte(s: &[u8], d: u8) -> (r: Vec<Vec<u8>>)
    ensures
        r@.map_values(|v: Vec<u8>| v@) == spec_split(s@, d),
{
    let mut parts: Vec<Vec<u8>> = Vec::new();
    let mut pos: usize = 0;
    proof {
        assert(s@.skip(0) =~= s@);
        assert(parts@.map_values(|v: Vec<u8>| v@) + spec_split(s@, d) =~= spec_split(s@, d));
    }
    loop
        invariant
            pos <= s@.len(),
            spec_split(s@, d) == parts@.map_values(|v: Vec<u8>| v@) + spec_split(
                s@.skip(pos as int),
                d,
            ),
        decreases s@.len() - pos + 1,
    {
        let next = find_byte(s, pos, d);
        match next {
            Some(k) => {
                let part = slice_to_vec(s, pos, k);
                proof {
                    let rem = s@.skip(pos as int);
                    assert forall|j: int| 0 <= j < k - pos implies #[trigger] rem[j] != d by {
                        assert(rem[j] == s@[j + pos]);
                    }
                    assert(rem[k - pos] == s@[k as int]);
                    lemma_sep_prefix_char(rem, d, k - pos);
                    assert(rem.take(k - pos) =~= s@.subrange(pos as int, k as int));
                    assert(rem.skip(k - pos + 1) =~= s@.skip(k + 1));
                    assert(spec_split(rem, d) == seq![rem.take(k - pos)] + spec_split(
                        s@.skip(k + 1),
                        d,
                    ));
                    assert((parts@ + seq![part]).map_values(|v: Vec<u8>| v@) =~= parts@.map_values(
                        |v: Vec<u8>| v@,
                    ) + seq![part@]);
                }
                parts.push(part);
                assert(k < s.len());
                pos = k + 1;
            },
            None => {
                let part = slice_to_vec(s, pos, s.len());
                proof {
                    let rem = s@.skip(pos as int);
                    assert forall|j: int| 0 <= j < rem.len() implies #[trigger] rem[j] != d by {
                        assert(rem[j] == s@[j + pos]);
                    }
                    lemma_sep_prefix_char(rem, d, rem.len() as int);
                    assert(spec_split(rem, d) == seq![rem]);
                    assert(part@ =~= rem);
                    assert((parts@ + seq![part]).map_values(|v: Vec<u8>| v@) =~= parts@.map_values(
                        |v: Vec<u8>| v@,
                    ) + seq![part@]);
                }
                parts.push(part);
                proof {
                    assert(parts@.map_values(|v: Vec<u8>| v@) + Seq::<Seq<u8>>::empty()
                        =~= parts@.map_values(|v: Vec<u8>| v@));
                }
                return parts;
            },
        }
    }
}

/// Splits on whitespace runs, returning the maximal non-whitespace words.
pub fn split_ws(s: &[u8]) -> (r: Vec<Vec<u8>>)
    ensures
        r@.map_values(|v: Vec<u8>| v@) == spec_split_ws(s@),
{
    let mut parts: Vec<Vec<u8>> = Vec::new();
    let mut pos: usize = 0;
    proof {
        assert(s@.skip(0) =~= s@);
        assert(parts@.map_values(|v: Vec<u8>| v@) + spec_split_ws(s@) =~= spec_split_ws(s@));
    }
    while pos < s.len()
        invariant
            pos <= s@.len(),
            spec_split_ws(s@) == parts@.map_values(|v: Vec<u8>| v@) + spec_split_ws(
                s@.skip(pos as int),
            ),
        decreases s@.len() - pos,
    {
        if is_ws_byte(s[pos]) {
            proof {
                let rem = s@.skip(pos as int);
                assert(rem[0] == s@[pos as int]);
                assert(rem.drop_first() =~= s@.skip(pos as int + 1));
            }
            pos = pos + 1;
        } else {
            let mut end = pos + 1;
            while end < s.len() && !is_ws_byte(s[end])
                invariant
                    pos < end <= s@.len(),
                    forall|j: int| pos <= j < end ==> !is_ws(#[trigger] s@[j]),
                decreases s@.len() - end,
            {
                end = end + 1;
            }
            let part = slice_to_vec(s, pos, end);
            proof {
                let rem = s@.skip(pos as int);
                assert forall|j: int| 0 <= j < end - pos implies !is_ws(#[trigger] rem[j]) by {
                    assert(rem[j] == s@[j + pos]);
                }
                if end < s.len() {
                    assert(rem[end - pos] == s@[end as int]);
                }
                lemma_nonws_prefix_char(rem, end - pos);
                assert(rem.take(end - pos) =~= s@.subrange(pos as int, end as int));
                assert(rem.skip(end - pos) =~= s@.skip(end as int));
                if end == s.len() {
                    assert(rem.take(end - pos) =~= rem);
                    assert(spec_split_ws(rem) == seq![rem]);
                    assert(spec_split_ws(s@.skip(end as int)) =~= Seq::<Seq<u8>>::empty());
                    assert(seq![rem] + Seq::<Seq<u8>>::empty() =~= seq![rem]);
                } else {
                    assert(spec_split_ws(rem) == seq![rem.take(end - pos)] + spec_split_ws(
                        s@.skip(end as int),
                    ));
                }
                assert((parts@ + seq![part]).map_values(|v: Vec<u8>| v@) =~= parts@.map_values(
                    |v: Vec<u8>| v@,
                ) + seq![part@]);
            }
            parts.push(part);
            pos = end;
        }
    }
    proof {
        assert(s@.skip(pos as int) =~= Seq::<u8>::empty());
        assert(parts@.map_values(|v: Vec<u8>| v@) + Seq::<Seq<u8>>::empty() =~= parts@.map_values(
            |v: Vec<u8>| v@,
        ));
    }
    parts
}

/// Copies `s[from..to]` into an owned vector.
pub fn slice_to_vec(s: &[u8], from: usize, to: usize) -> (r: Vec<u8>)
    requires
        from <= to <= s@.len(),
    ensures
        r@ == s@.subrange(from as int, to as int),
{
    let mut out: Vec<u8> = Vec::new();
    let mut i = from;
    while i < to
        invariant
            from <= i <= to <= s@.len(),
            out@ =~= s@.subrange(from as int, i as int),
        decreases to - i,
    {
        out.push(s[i]);
        proof {
            assert(out@ =~= s@.subrange(from as int, i + 1));
        }
        i = i + 1;
    }
    out
}

/// ASCII lowercase folding.
pub fn to_ascii_lowercase(s: &[u8]) -> (r: Vec<u8>)
    ensures
        r@ == lower_seq(s@),
{
    let mut out: Vec<u8> = Vec::new();
    let mut i: usize = 0;
    while i < s.len()
        invariant
            i <= s@.len(),
            out@.len() == i,
            forall|j: int| 0 <= j < i ==> #[trigger] out@[j] == to_lower(s@[j]),
        decreases s@.len() - i,
    {
        let b = s[i];
        if 0x41 <= b && b <= 0x5a {
            out.push(b + 0x20);
        } else {
            out.push(b);
        }
        i = i + 1;
    }
    proof {
        assert(out@ =~= lower_seq(s@));
    }
    out
}

/// Byte-for-byte equality.
pub fn bytes_eq(a: &[u8], b: &[u8]) -> (r: bool)
    ensures
        r == (a@ == b@),
{
    if a.len() != b.len() {
        return false;
    }
    let mut i: usize = 0;
    while i < a.len()
        invariant
            a@.len() == b@.len(),
            i <= a@.len(),
            forall|j: int| 0 <= j < i ==> a@[j] == b@[j],
        decreases a@.len() - i,
    {
        if a[i] != b[i] {
            return false;
        }
        i = i + 1;
    }
    proof {
        assert(a@ =~= b@);
    }
    true
}

/// Case-insensitive ASCII equality.
pub fn eq_ignore_case(a: &[u8], b: &[u8]) -> (r: bool)
    ensures
        r == (lower_seq(a@) == lower_seq(b@)),
{
    let la = to_ascii_lowercase(a);
    let lb = to_ascii_lowercase(b);
    bytes_eq(la.as_slice(), lb.as_slice())
}

/// Whether `s` starts with the given prefix.
pub fn starts_with(s: &[u8], prefix: &[u8]) -> (r: bool)
    ensures
        r == (s@.len() >= prefix@.len() && s@.subrange(0, prefix@.len() as int) == prefix@),
{
    if s.len() < prefix.len() {
        return false;
    }
    let head = &s[0..prefix.len()];
    let e = bytes_eq(head, prefix);
    proof {
        assert(head@ =~= s@.subrange(0, prefix@.len() as int));
    }
    e
}

/// The first position at or after `from` where `needle` occurs in `s`.
pub fn find_sub(s: &[u8], needle: &[u8], from: usize) -> (r: Option<usize>)
    requires
        needle@.len() > 0,
    ensures
        match r {
            Some(i) => from <= i && i + needle@.len() <= s@.len() && s@.subrange(
                i as int,
                i + needle@.len(),
            ) == needle@ && (forall|j: int|
                from <= j < i ==> #[trigger] s@.subrange(j, j + needle@.len()) != needle@),
            None => forall|j: int|
                from <= j && j + needle@.len() <= s@.len() ==> #[trigger] s@.subrange(
                    j,
                    j + needle@.len(),
                ) != needle@,
        },
{
    if s.len() < needle.len() {
        return None;
    }
    let limit = s.len() - needle.len();
    let mut i = from;
    if i > limit {
        return None;
    }
    while i <= limit
        invariant
            from <= i,
            limit == s@.len() - needle@.len(),
            s@.len() <= usize::MAX,
            needle@.len() > 0,
            forall|j: int|
                from <= j < i ==> #[trigger] s@.subrange(j, j + needle@.len()) != needle@,
        decreases limit + 1 - i,
    {
        assert(i + needle@.len() <= s@.len());
        let end = i + needle.len();
        let window = &s[i..end];
        if bytes_eq(window, needle) {
            proof {
                assert(window@ =~= s@.subrange(i as int, i + needle@.len()));
            }
            return Some(i);
        }
        proof {
            assert(window@ =~= s@.subrange(i as int, i + needle@.len()));
        }
        i = i + 1;
    }
    None
}

} // verus!

//! The textual configuration chain: the build-info manifest (delimiter
//! sniffed), the `key = value` build config naming the root and encoding
//! hashes, and the CDN config naming the archive list.

use vstd::prelude::*;

use crate::errors::CascError;
use crate::hexutil::{decode_hex16, spec_decode_hex16};
use crate::text::{
    bytes_eq, eq_ignore_case, find_byte, lower_seq, sep_prefix_len, spec_split, spec_split_ws,
    spec_trim, split_byte, split_ws, to_ascii_lowercase, trim,
};
use crate::types::CascConfig;

verus! {

/// Decodes a 32-digit hexadecimal key field.
pub fn hex16(s: &[u8]) -> (r: Result<[u8; 16], CascError>)
    ensures
        match r {
            Ok(a) => spec_decode_hex16(s@) == Some(a@),
            Err(e) => spec_decode_hex16(s@) is None && e == CascError::InvalidConfig,
        },
{
    match decode_hex16(s) {
        Some(a) => Ok(a),
        None => Err(CascError::InvalidConfig),
    }
}

/// The column delimiter a build-info header line uses: the first of `|`,
/// `!` or tab that occurs in it, else a space.
pub open spec fn spec_detect_delimiter(line: Seq<u8>) -> u8 {
    if sep_prefix_len(line, 0x7c) < line.len() {
        0x7c
    } else if sep_prefix_len(line, 0x21) < line.len() {
        0x21
    } else if sep_prefix_len(line, 0x09) < line.len() {
        0x09
    } else {
        0x20
    }
}

/// Sniffs the build-info column delimiter.
pub fn detect_delimiter(line: &[u8]) -> (r: u8)
    ensures
        r == spec_detect_delimiter(line@),
{
    let cands: [u8; 3] = [0x7c, 0x21, 0x09];
    let mut k: usize = 0;
    while k < 3
        invariant
            k <= 3,
            forall|j: int|
                0 <= j < k ==> sep_prefix_len(line@, cands@[j]) >= line@.len(),
            cands@ =~= seq![0x7cu8, 0x21u8, 0x09u8],
        decreases 3 - k,
    {
        match find_byte(line, 0, cands[k]) {
            Some(i) => {
                proof {
                    crate::text::lemma_sep_prefix_char_upper(line@, cands@[k as int], i as int);
                }
                return cands[k];
            },
            None => {
                proof {
                    crate::text::lemma_sep_prefix_char(line@, cands@[k as int], line@.len() as int);
                }
            },
        }
        k = k + 1;
    }
    0x20
}

/// The archive list a CDN config denotes: the whitespace-split values of
/// the last `archives` line, comment and blank lines skipped.
pub open spec fn spec_cdn_archives(lines: Seq<Seq<u8>>, acc: Seq<Seq<u8>>) -> Seq<Seq<u8>>
    decreases lines.len(),
{
    if lines.len() == 0 {
        acc
    } else {
        let t = spec_trim(lines[0]);
        let acc1 = if t.len() == 0 || t[0] == 0x23 {
            acc
        } else {
            let parts = spec_split(t, 0x3d);
            let key = lower_seq(spec_trim(parts[0]));
            let value = if parts.len() >= 2 {
                spec_trim(parts[1])
            } else {
                Seq::<u8>::empty()
            };
            if key == "archives"@.map_values(|c: char| c as u8) {
                spec_split_ws(value)
            } else {
                acc
            }
        };
        spec_cdn_archives(lines.drop_first(), acc1)
    }
}

/// Parses a CDN config, returning its archive name list.
pub fn parse_cdn_config_text(text: &[u8]) -> (r: Result<Vec<Vec<u8>>, CascError>)
    ensures
        r matches Ok(v) ==> v@.map_values(|x: Vec<u8>| x@) == spec_cdn_archives(
            spec_split(text@, 0x0a),
            Seq::empty(),
        ),
        r is Ok,
{
    let lines = split_byte(text, 0x0a);
    let ghost slines = spec_split(text@, 0x0a);
    let mut archives: Vec<Vec<u8>> = Vec::new();
    let mut i: usize = 0;
    proof {
        assert(slines.skip(0) =~= slines);
        assert(archives@.map_values(|x: Vec<u8>| x@) =~= Seq::<Seq<u8>>::empty());
    }
    while i < lines.len()
        invariant
            i <= lines@.len(),
            lines@.map_values(|v: Vec<u8>| v@) == slines,
            spec_cdn_archives(slines, Seq::empty()) == spec_cdn_archives(
                slines.skip(i as int),
                archives@.map_values(|x: Vec<u8>| x@),
            ),
        decreases lines@.len() - i,
    {
        proof {
            assert(lines@[i as int]@ == slines[i as int]);
            assert(slines.skip(i as int)[0] == slines[i as int]);
            assert(slines.skip(i as int).drop_first() =~= slines.skip(i as int + 1));
        }
        let ghost acc_pre = archives@.map_values(|x: Vec<u8>| x@);
        let ghost line0 = slines[i as int];
        let t = trim(lines[i].as_slice());
        if t.len() > 0 && t[0] != 0x23 {
            let parts = split_byte(t, 0x3d);
            proof {
                assert(parts@.map_values(|v: Vec<u8>| v@) == spec_split(t@, 0x3d));
                assert(parts@[0]@ == spec_split(t@, 0x3d)[0]);
                assert(spec_split(t@, 0x3d).len() >= 1);
            }
            let key = to_ascii_lowercase(trim(parts[0].as_slice()));
            let value: &[u8] = if parts.len() >= 2 {
                proof {
                    assert(parts@[1]@ == spec_split(t@, 0x3d)[1]);
                }
                trim(parts[1].as_slice())
            } else {
                &t[0..0]
            };
            proof {
                if parts@.len() < 2 {
                    assert(value@ =~= Seq::<u8>::empty());
                }
            }
            let akey: [u8; 8] = [0x61, 0x72, 0x63, 0x68, 0x69, 0x76, 0x65, 0x73];
            let asl = &akey[0..8];
            proof {
                reveal_strlit("archives");
                assert(akey@ =~= "archives"@.map_values(|c: char| c as u8));
                assert(asl@ =~= akey@);
            }
            let is_archives = bytes_eq(key.as_slice(), asl);
            proof {
                assert(t@ == spec_trim(line0));
                assert(key@ == lower_seq(spec_trim(spec_split(t@, 0x3d)[0])));
                assert(value@ == (if spec_split(t@, 0x3d).len() >= 2 {
                    spec_trim(spec_split(t@, 0x3d)[1])
                } else {
                    Seq::<u8>::empty()
                }));
            }
            if is_archives {
                let vals = split_ws(value);
                proof {
                    assert(vals@.map_values(|x: Vec<u8>| x@) == spec_split_ws(value@));
                }
                archives = vals;
            }
            proof {
                assert(archives@.map_values(|x: Vec<u8>| x@) == (if is_archives {
                    spec_split_ws(value@)
                } else {
                    acc_pre
                }));
                let sparts = spec_split(spec_trim(line0), 0x3d);
                let skey = lower_seq(spec_trim(sparts[0]));
                let svalue = if sparts.len() >= 2 {
                    spec_trim(sparts[1])
                } else {
                    Seq::<u8>::empty()
                };
                assert(skey == key@);
                assert(svalue == value@);
                let acc1 = if skey == "archives"@.map_values(|c: char| c as u8) {
                    spec_split_ws(svalue)
                } else {
                    acc_pre
                };
                assert(is_archives == (skey == "archives"@.map_values(|c: char| c as u8)));
                assert(acc1 == archives@.map_values(|x: Vec<u8>| x@));
                assert(spec_cdn_archives(slines.skip(i as int), acc_pre) == spec_cdn_archives(
                    slines.skip(i as int).drop_first(),
                    acc1,
                ));
                assert(spec_cdn_archives(slines.skip(i as int), acc_pre) == spec_cdn_archives(
                    slines.skip(i as int + 1),
                    archives@.map_values(|x: Vec<u8>| x@),
                ));
            }
        } else {
            proof {
                assert(spec_trim(line0).len() == 0 || spec_trim(line0)[0] == 0x23);
                assert(spec_cdn_archives(slines.skip(i as int), acc_pre) == spec_cdn_archives(
                    slines.skip(i as int + 1),
                    archives@.map_values(|x: Vec<u8>| x@),
                ));
            }
        }
        i = i + 1;
    }
    proof {
        assert(slines.skip(i as int) =~= Seq::<Seq<u8>>::empty());
    }
    Ok(archives)
}

/// True of a line the build-info table keeps: populated after trimming
/// and not a `#` comment.
pub open spec fn spec_bi_keep(line: Seq<u8>) -> bool {
    spec_trim(line).len() > 0 && spec_trim(line)[0] != 0x23
}

/// The trimmed, kept lines of the build-info manifest from line `i` on.
pub open spec fn spec_bi_rows(lines: Seq<Seq<u8>>, i: int) -> Seq<Seq<u8>>
    decreases lines.len() - i,
{
    if i < 0 || i >= lines.len() {
        Seq::empty()
    } else if spec_bi_keep(lines[i]) {
        seq![spec_trim(lines[i])] + spec_bi_rows(lines, i + 1)
    } else {
        spec_bi_rows(lines, i + 1)
    }
}

/// A header cell as the table reads it: cut at `!`, trimmed, lowercased.
pub open spec fn spec_bi_header(raw: Seq<u8>) -> Seq<u8> {
    let cut = spec_split(raw, 0x21);
    if cut.len() > 0 {
        lower_seq(spec_trim(cut[0]))
    } else {
        Seq::<u8>::empty()
    }
}

/// Whether column `hi` of the header row of `rows` is named `name`.
pub open spec fn spec_bi_col_named(rows: Seq<Seq<u8>>, hi: int, name: Seq<u8>) -> bool {
    let hdrs = spec_split(rows[0], spec_detect_delimiter(rows[0]));
    0 <= hi < hdrs.len() && spec_bi_header(hdrs[hi]) == name
}

/// The trimmed cell of row `ri`, column `hi`, under the header row's
/// delimiter.
pub open spec fn spec_bi_cell(rows: Seq<Seq<u8>>, ri: int, hi: int) -> Seq<u8> {
    spec_trim(spec_split(rows[ri], spec_detect_delimiter(rows[0]))[hi])
}

/// The value `v` is the trimmed cell of some data row of `rows`, in a
/// column whose header reads `name`.
pub open spec fn spec_bi_from_rows(rows: Seq<Seq<u8>>, name: Seq<u8>, v: Seq<u8>) -> bool {
    exists|ri: int, hi: int|
        1 <= ri < rows.len() && #[trigger] spec_bi_col_named(rows, hi, name)
            && hi < spec_split(rows[ri], spec_detect_delimiter(rows[0])).len() && v
            == #[trigger] spec_bi_cell(rows, ri, hi)
}

/// The value `v` stands in `text` as the trimmed cell of a data row,
/// under the header `name`.
pub open spec fn spec_bi_field(text: Seq<u8>, name: Seq<u8>, v: Seq<u8>) -> bool {
    spec_bi_from_rows(spec_bi_rows(spec_split(text, 0x0a), 0), name, v)
}

pub open spec fn spec_bi_build_key_name() -> Seq<u8> {
    "build key"@.map_values(|c: char| c as u8)
}

pub open spec fn spec_bi_cdn_key_name() -> Seq<u8> {
    "cdn key"@.map_values(|c: char| c as u8)
}

pub open spec fn spec_bi_cdn_path_name() -> Seq<u8> {
    "cdn path"@.map_values(|c: char| c as u8)
}

/// The build-info fields the storage chain needs.
pub struct BuildInfo {
    pub build_key: Vec<u8>,
    pub cdn_key: Vec<u8>,
    pub build_name: Option<Vec<u8>>,
    pub cdn_path: Vec<u8>,
    pub cdn_hosts: Vec<Vec<u8>>,
}

/// Parses the build-info manifest: the first non-blank line names the
/// columns (each header cut at `!` and lowercased), and of the remaining
/// rows the one whose `product` column reads `wow` is preferred, else the
/// first row that fills the fields. Fails with `InvalidConfig` when no
/// row supplies a build key, CDN key and CDN path.
pub fn parse_build_info(text: &[u8]) -> (r: Result<BuildInfo, CascError>)
    ensures
        match r {
            Ok(b) => b.build_key@.len() > 0 && b.cdn_key@.len() > 0 && b.cdn_path@.len() > 0
                && spec_bi_field(text@, spec_bi_build_key_name(), b.build_key@)
                && spec_bi_field(text@, spec_bi_cdn_key_name(), b.cdn_key@) && spec_bi_field(
                text@,
                spec_bi_cdn_path_name(),
                b.cdn_path@,
            ),
            Err(e) => e == CascError::InvalidConfig,
        },
{
    let lines = split_byte(text, 0x0a);
    let ghost lviews = lines@.map_values(|x: Vec<u8>| x@);
    let ghost srows = spec_bi_rows(lviews, 0);
    // Keep only populated, non-comment lines.
    let mut rows: Vec<Vec<u8>> = Vec::new();
    let mut i: usize = 0;
    proof {
        assert(rows@.map_values(|x: Vec<u8>| x@) + spec_bi_rows(lviews, 0) =~= srows);
    }
    while i < lines.len()
        invariant
            i <= lviews.len(),
            lviews == lines@.map_values(|x: Vec<u8>| x@),
            lviews == spec_split(text@, 0x0a),
            srows == spec_bi_rows(lviews, 0),
            srows == rows@.map_values(|x: Vec<u8>| x@) + spec_bi_rows(lviews, i as int),
        decreases lines@.len() - i,
    {
        let ghost rows0 = rows@.map_values(|x: Vec<u8>| x@);
        let t = trim(lines[i].as_slice());
        proof {
            assert(lines@[i as int]@ == lviews[i as int]);
            assert(t@ == spec_trim(lviews[i as int]));
        }
        if t.len() > 0 && t[0] != 0x23 {
            let tv = crate::text::slice_to_vec(t, 0, t.len());
            proof {
                assert(tv@ =~= t@);
                assert(spec_bi_keep(lviews[i as int]));
                assert(spec_bi_rows(lviews, i as int) == seq![spec_trim(lviews[i as int])]
                    + spec_bi_rows(lviews, i as int + 1));
            }
            rows.push(tv);
            proof {
                assert(rows@.map_values(|x: Vec<u8>| x@) =~= rows0 + seq![tv@]);
                assert(srows =~= rows@.map_values(|x: Vec<u8>| x@) + spec_bi_rows(
                    lviews,
                    i as int + 1,
                ));
            }
        } else {
            proof {
                assert(!spec_bi_keep(lviews[i as int]));
                assert(spec_bi_rows(lviews, i as int) == spec_bi_rows(lviews, i as int + 1));
            }
        }
        i = i + 1;
    }
    proof {
        assert(spec_bi_rows(lviews, i as int) =~= Seq::<Seq<u8>>::empty());
        assert(srows =~= rows@.map_values(|x: Vec<u8>| x@));
    }
    if rows.len() == 0 {
        return Err(CascError::InvalidConfig);
    }
    proof {
        assert(rows@[0]@ == srows[0]);
    }
    let delim = detect_delimiter(rows[0].as_slice());
    let raw_headers = split_byte(rows[0].as_slice(), delim);
    let ghost hdrs = spec_split(srows[0], delim);
    let mut headers: Vec<Vec<u8>> = Vec::new();
    let mut h: usize = 0;
    while h < raw_headers.len()
        invariant
            h <= raw_headers@.len(),
            raw_headers@.map_values(|x: Vec<u8>| x@) == hdrs,
            headers@.len() == h,
            forall|k: int| 0 <= k < h ==> #[trigger] headers@[k]@ == spec_bi_header(hdrs[k]),
        decreases raw_headers@.len() - h,
    {
        proof {
            assert(raw_headers@[h as int]@ == hdrs[h as int]);
        }
        let cut = split_byte(raw_headers[h].as_slice(), 0x21);
        let first: &[u8] = if cut.len() > 0 {
            proof {
                assert(cut@[0]@ == spec_split(hdrs[h as int], 0x21)[0]);
            }
            cut[0].as_slice()
        } else {
            proof {
                assert(cut@.map_values(|x: Vec<u8>| x@).len() == spec_split(
                    hdrs[h as int],
                    0x21,
                ).len());
                assert(spec_split(hdrs[h as int], 0x21).len() >= 1);
                assert(false);
            }
            &raw_headers[h].as_slice()[0..0]
        };
        let low = to_ascii_lowercase(trim(first));
        proof {
            assert(low@ == spec_bi_header(hdrs[h as int]));
        }
        headers.push(low);
        h = h + 1;
    }
    let product_col = find_header(&headers, &[0x70, 0x72, 0x6f, 0x64, 0x75, 0x63, 0x74]);
    let mut build_key: Option<Vec<u8>> = None;
    let mut cdn_key: Option<Vec<u8>> = None;
    let mut build_name: Option<Vec<u8>> = None;
    let mut cdn_path: Option<Vec<u8>> = None;
    let mut cdn_hosts: Vec<Vec<u8>> = Vec::new();
    let mut best_is_wow = false;
    let mut rix: usize = 1;
    while rix < rows.len()
        invariant
            1 <= rix,
            srows == rows@.map_values(|x: Vec<u8>| x@),
            lviews == spec_split(text@, 0x0a),
            srows == spec_bi_rows(lviews, 0),
            srows.len() > 0,
            delim == spec_detect_delimiter(srows[0]),
            hdrs == spec_split(srows[0], delim),
            headers@.len() == hdrs.len(),
            forall|k: int|
                0 <= k < hdrs.len() ==> #[trigger] headers@[k]@ == spec_bi_header(hdrs[k]),
            match build_key {
                Some(ref k) => k@.len() > 0 && spec_bi_from_rows(
                    srows,
                    spec_bi_build_key_name(),
                    k@,
                ),
                None => true,
            },
            match cdn_key {
                Some(ref k) => k@.len() > 0 && spec_bi_from_rows(srows, spec_bi_cdn_key_name(), k@),
                None => true,
            },
            match cdn_path {
                Some(ref k) => k@.len() > 0 && spec_bi_from_rows(
                    srows,
                    spec_bi_cdn_path_name(),
                    k@,
                ),
                None => true,
            },
        decreases rows@.len() - rix,
    {
        proof {
            assert(rows@[rix as int]@ == srows[rix as int]);
        }
        let cols_raw = split_byte(rows[rix].as_slice(), delim);
        let mut cols: Vec<Vec<u8>> = Vec::new();
        let mut cix: usize = 0;
        while cix < cols_raw.len()
            invariant
                cix <= cols_raw@.len(),
                cols_raw@.map_values(|x: Vec<u8>| x@) == spec_split(srows[rix as int], delim),
                cols@.len() == cix,
                forall|k: int|
                    0 <= k < cix ==> #[trigger] cols@[k]@ == spec_trim(
                        spec_split(srows[rix as int], delim)[k],
                    ),
            decreases cols_raw@.len() - cix,
        {
            proof {
                assert(cols_raw@[cix as int]@ == spec_split(srows[rix as int], delim)[cix as int]);
            }
            let t = trim(cols_raw[cix].as_slice());
            let tv = crate::text::slice_to_vec(t, 0, t.len());
            proof {
                assert(tv@ =~= t@);
            }
            cols.push(tv);
            cix = cix + 1;
        }
        let is_wow = match product_col {
            Some(p) => {
                if p < cols.len() {
                    eq_ignore_case(cols[p].as_slice(), &[0x77, 0x6f, 0x77])
                } else {
                    false
                }
            },
            None => false,
        };
        let should_take = match build_key {
            None => true,
            Some(_) => !best_is_wow && is_wow,
        };
        if should_take {
            best_is_wow = best_is_wow || is_wow;
            let bk_lit: [u8; 9] = [0x62, 0x75, 0x69, 0x6c, 0x64, 0x20, 0x6b, 0x65, 0x79];
            let ck_lit: [u8; 7] = [0x63, 0x64, 0x6e, 0x20, 0x6b, 0x65, 0x79];
            let cp_lit: [u8; 8] = [0x63, 0x64, 0x6e, 0x20, 0x70, 0x61, 0x74, 0x68];
            let bk_sl = &bk_lit[0..9];
            let ck_sl = &ck_lit[0..7];
            let cp_sl = &cp_lit[0..8];
            proof {
                reveal_strlit("build key");
                reveal_strlit("cdn key");
                reveal_strlit("cdn path");
                assert(bk_sl@ =~= spec_bi_build_key_name());
                assert(ck_sl@ =~= spec_bi_cdn_key_name());
                assert(cp_sl@ =~= spec_bi_cdn_path_name());
            }
            let mut hix: usize = 0;
            while hix < headers.len()
                invariant
                    1 <= rix < rows@.len(),
                    srows == rows@.map_values(|x: Vec<u8>| x@),
                    lviews == spec_split(text@, 0x0a),
                    srows == spec_bi_rows(lviews, 0),
                    srows.len() > 0,
                    delim == spec_detect_delimiter(srows[0]),
                    hdrs == spec_split(srows[0], delim),
                    headers@.len() == hdrs.len(),
                    forall|k: int|
                        0 <= k < hdrs.len() ==> #[trigger] headers@[k]@ == spec_bi_header(hdrs[k]),
                    cols@.len() == spec_split(srows[rix as int], delim).len(),
                    forall|k: int|
                        0 <= k < cols@.len() ==> #[trigger] cols@[k]@ == spec_trim(
                            spec_split(srows[rix as int], delim)[k],
                        ),
                    bk_sl@ == spec_bi_build_key_name(),
                    ck_sl@ == spec_bi_cdn_key_name(),
                    cp_sl@ == spec_bi_cdn_path_name(),
                    match build_key {
                        Some(ref k) => k@.len() > 0 && spec_bi_from_rows(
                            srows,
                            spec_bi_build_key_name(),
                            k@,
                        ),
                        None => true,
                    },
                    match cdn_key {
                        Some(ref k) => k@.len() > 0 && spec_bi_from_rows(
                            srows,
                            spec_bi_cdn_key_name(),
                            k@,
                        ),
                        None => true,
                    },
                    match cdn_path {
                        Some(ref k) => k@.len() > 0 && spec_bi_from_rows(
                            srows,
                            spec_bi_cdn_path_name(),
                            k@,
                        ),
                        None => true,
                    },
                decreases headers@.len() - hix,
            {
                let v: &[u8] = if hix < cols.len() {
                    cols[hix].as_slice()
                } else {
                    &[]
                };
                if v.len() > 0 {
                    proof {
                        assert(hix < cols@.len());
                        assert(v@ == spec_trim(spec_split(srows[rix as int], delim)[hix as int]));
                        assert(headers@[hix as int]@ == spec_bi_header(hdrs[hix as int]));
                        assert(spec_split(srows[0], spec_detect_delimiter(srows[0])) == hdrs);
                        assert(spec_split(srows[rix as int], spec_detect_delimiter(srows[0]))
                            == spec_split(srows[rix as int], delim));
                    }
                    let hname = headers[hix].as_slice();
                    if bytes_eq(hname, bk_sl) {
                        let nv = crate::text::slice_to_vec(v, 0, v.len());
                        proof {
                            assert(nv@ =~= v@);
                            assert(spec_bi_col_named(srows, hix as int, spec_bi_build_key_name()));
                            assert(nv@ == spec_bi_cell(srows, rix as int, hix as int));
                            assert(spec_bi_from_rows(srows, spec_bi_build_key_name(), nv@));
                        }
                        build_key = Some(nv);
                    } else if bytes_eq(hname, ck_sl) {
                        let nv = crate::text::slice_to_vec(v, 0, v.len());
                        proof {
                            assert(nv@ =~= v@);
                            assert(spec_bi_col_named(srows, hix as int, spec_bi_cdn_key_name()));
                            assert(nv@ == spec_bi_cell(srows, rix as int, hix as int));
                            assert(spec_bi_from_rows(srows, spec_bi_cdn_key_name(), nv@));
                        }
                        cdn_key = Some(nv);
                    } else if bytes_eq(hname, &[0x76, 0x65, 0x72, 0x73, 0x69, 0x6f, 0x6e])
                        || bytes_eq(
                        hname,
                        &[0x62, 0x75, 0x69, 0x6c, 0x64, 0x20, 0x6e, 0x61, 0x6d, 0x65],
                    ) {
                        build_name = Some(crate::text::slice_to_vec(v, 0, v.len()));
                    } else if bytes_eq(hname, cp_sl) {
                        let nv = crate::text::slice_to_vec(v, 0, v.len());
                        proof {
                            assert(nv@ =~= v@);
                            assert(spec_bi_col_named(srows, hix as int, spec_bi_cdn_path_name()));
                            assert(nv@ == spec_bi_cell(srows, rix as int, hix as int));
                            assert(spec_bi_from_rows(srows, spec_bi_cdn_path_name(), nv@));
                        }
                        cdn_path = Some(nv);
                    } else if bytes_eq(
                        hname,
                        &[0x63, 0x64, 0x6e, 0x20, 0x68, 0x6f, 0x73, 0x74, 0x73],
                    ) {
                        cdn_hosts = split_ws(v);
                    }
                }
                hix = hix + 1;
            }
        }
        rix = rix + 1;
    }
    let bk = match build_key {
        Some(k) => k,
        None => {
            return Err(CascError::InvalidConfig);
        },
    };
    let ck = match cdn_key {
        Some(k) => k,
        None => {
            return Err(CascError::InvalidConfig);
        },
    };
    let cp = match cdn_path {
        Some(k) => k,
        None => {
            return Err(CascError::InvalidConfig);
        },
    };
    proof {
        assert(spec_bi_rows(spec_split(text@, 0x0a), 0) == srows);
    }
    Ok(BuildInfo { build_key: bk, cdn_key: ck, build_name, cdn_path: cp, cdn_hosts })
}

/// The position of a named column among the lowercased headers.
fn find_header(headers: &Vec<Vec<u8>>, name: &[u8]) -> (r: Option<usize>)
    ensures
        r matches Some(i) ==> i < headers@.len(),
{
    let mut i: usize = 0;
    while i < headers.len()
        decreases headers@.len() - i,
    {
        if bytes_eq(headers[i].as_slice(), name) {
            return Some(i);
        }
        i = i + 1;
    }
    None
}

/// The four values a build config accumulates while its lines fold in.
pub ghost struct SpecBuildCfg {
    pub build_name: Option<Seq<u8>>,
    pub root: Option<Seq<u8>>,
    pub ckey: Option<Seq<u8>>,
    pub ekey: Option<Seq<u8>>,
}

/// What one `key = value` line does to the accumulated state: `root`
/// takes its first whitespace token as a 16-byte hex key, `encoding` its
/// first two, `build-name` its raw value; a present token that is not a
/// 32-digit hex string is an error; other keys, comments and blank lines
/// change nothing.
pub open spec fn spec_cfg_line(st: SpecBuildCfg, line: Seq<u8>) -> Result<SpecBuildCfg, ()> {
    let t = spec_trim(line);
    if t.len() == 0 || t[0] == 0x23 {
        Ok(st)
    } else {
        let parts = spec_split(t, 0x3d);
        let key = lower_seq(spec_trim(parts[0]));
        let value = if parts.len() >= 2 {
            spec_trim(parts[1])
        } else {
            Seq::<u8>::empty()
        };
        if key == "build-name"@.map_values(|c: char| c as u8) {
            if value.len() > 0 {
                Ok(SpecBuildCfg { build_name: Some(value), ..st })
            } else {
                Ok(st)
            }
        } else if key == "root"@.map_values(|c: char| c as u8) {
            let toks = spec_split_ws(value);
            if toks.len() > 0 && toks[0].len() > 0 {
                match spec_decode_hex16(toks[0]) {
                    Some(h) => Ok(SpecBuildCfg { root: Some(h), ..st }),
                    None => Err(()),
                }
            } else {
                Ok(st)
            }
        } else if key == "encoding"@.map_values(|c: char| c as u8) {
            let toks = spec_split_ws(value);
            let st1 = if toks.len() > 0 && toks[0].len() > 0 {
                match spec_decode_hex16(toks[0]) {
                    Some(h) => Ok(SpecBuildCfg { ckey: Some(h), ..st }),
                    None => Err(()),
                }
            } else {
                Ok(st)
            };
            match st1 {
                Ok(s1) => if toks.len() > 1 && toks[1].len() > 0 {
                    match spec_decode_hex16(toks[1]) {
                        Some(h) => Ok(SpecBuildCfg { ekey: Some(h), ..s1 }),
                        None => Err(()),
                    }
                } else {
                    Ok(s1)
                },
                Err(e) => Err(e),
            }
        } else {
            Ok(st)
        }
    }
}

/// The state after folding every line, or an error from the first bad
/// hex value.
pub open spec fn spec_cfg_fold(lines: Seq<Seq<u8>>, st: SpecBuildCfg) -> Result<
    SpecBuildCfg,
    (),
>
    decreases lines.len(),
{
    if lines.len() == 0 {
        Ok(st)
    } else {
        match spec_cfg_line(st, lines[0]) {
            Ok(st1) => spec_cfg_fold(lines.drop_first(), st1),
            Err(e) => Err(e),
        }
    }
}

/// The view of an accumulated optional key.
pub open spec fn opt_arr16(o: Option<[u8; 16]>) -> Option<Seq<u8>> {
    match o {
        Some(a) => Some(a@),
        None => None,
    }
}

/// The view of an accumulated optional name.
pub open spec fn opt_bytes(o: Option<Vec<u8>>) -> Option<Seq<u8>> {
    match o {
        Some(v) => Some(v@),
        None => None,
    }
}

/// Parses a build config into the session configuration skeleton. The
/// `key = value` lines fold into the root hash, the encoding content and
/// encoding keys (each a 16-byte hex field, later lines winning) and the
/// optional build name; a present token that is not 32 hex digits, or a
/// missing required field, fails with `InvalidConfig`. The CDN fields
/// start empty and are filled by the caller from the build info.
#[verifier::rlimit(100)]
pub fn parse_config_text(text: &[u8]) -> (r: Result<CascConfig, CascError>)
    ensures
        ({
            let init = SpecBuildCfg { build_name: None, root: None, ckey: None, ekey: None };
            match spec_cfg_fold(spec_split(text@, 0x0a), init) {
                Err(_) => r matches Err(e) && e == CascError::InvalidConfig,
                Ok(st) => if st.root is Some && st.ckey is Some && st.ekey is Some {
                    r matches Ok(c) && Some(c.root_hash@) == st.root && Some(c.encoding_ckey@)
                        == st.ckey && Some(c.encoding_ekey@) == st.ekey && Some(c.build_name@)
                        == (match st.build_name {
                        Some(n) => Some(n),
                        None => Some("unknown"@.map_values(|ch: char| ch as u8)),
                    }) && c.archives@.len() == 0 && c.cdn_hosts@.len() == 0 && c.cdn_path@.len()
                        == 0
                } else {
                    r matches Err(e) && e == CascError::InvalidConfig
                },
            }
        }),
{
    let lines = split_byte(text, 0x0a);
    let ghost slines = spec_split(text@, 0x0a);
    let ghost init = SpecBuildCfg { build_name: None, root: None, ckey: None, ekey: None };
    let mut build_name: Option<Vec<u8>> = None;
    let mut root_hash: Option<[u8; 16]> = None;
    let mut encoding_ckey: Option<[u8; 16]> = None;
    let mut encoding_ekey: Option<[u8; 16]> = None;
    let mut i: usize = 0;
    proof {
        assert(slines.skip(0) =~= slines);
    }
    while i < lines.len()
        invariant
            i <= lines@.len(),
            lines@.map_values(|v: Vec<u8>| v@) == slines,
            slines == spec_split(text@, 0x0a),
            init == (SpecBuildCfg { build_name: None, root: None, ckey: None, ekey: None }),
            spec_cfg_fold(slines, init) == spec_cfg_fold(
                slines.skip(i as int),
                SpecBuildCfg {
                    build_name: opt_bytes(build_name),
                    root: opt_arr16(root_hash),
                    ckey: opt_arr16(encoding_ckey),
                    ekey: opt_arr16(encoding_ekey),
                },
            ),
        decreases lines@.len() - i,
    {
        proof {
            assert(lines@[i as int]@ == slines[i as int]);
            assert(slines.skip(i as int)[0] == slines[i as int]);
            assert(slines.skip(i as int).drop_first() =~= slines.skip(i as int + 1));
        }
        let ghost st_pre = SpecBuildCfg {
            build_name: opt_bytes(build_name),
            root: opt_arr16(root_hash),
            ckey: opt_arr16(encoding_ckey),
            ekey: opt_arr16(encoding_ekey),
        };
        let ghost line0 = slines[i as int];
        let t = trim(lines[i].as_slice());
        if t.len() > 0 && t[0] != 0x23 {
            let parts = split_byte(t, 0x3d);
            proof {
                assert(spec_split(t@, 0x3d).len() >= 1);
                assert(parts@[0]@ == spec_split(t@, 0x3d)[0]);
            }
            let key = trim(parts[0].as_slice());
            let value: &[u8] = if parts.len() >= 2 {
                proof {
                    assert(parts@[1]@ == spec_split(t@, 0x3d)[1]);
                }
                trim(parts[1].as_slice())
            } else {
                &t[0..0]
            };
            proof {
                if parts@.len() < 2 {
                    assert(value@ =~= Seq::<u8>::empty());
                }
                assert(t@ == spec_trim(line0));
                assert(key@ == spec_trim(spec_split(t@, 0x3d)[0]));
            }
            let bn_lit: [u8; 10] = [0x62, 0x75, 0x69, 0x6c, 0x64, 0x2d, 0x6e, 0x61, 0x6d, 0x65];
            let root_lit: [u8; 4] = [0x72, 0x6f, 0x6f, 0x74];
            let enc_lit: [u8; 8] = [0x65, 0x6e, 0x63, 0x6f, 0x64, 0x69, 0x6e, 0x67];
            let bn_sl = &bn_lit[0..10];
            let root_sl = &root_lit[0..4];
            let enc_sl = &enc_lit[0..8];
            proof {
                reveal_strlit("build-name");
                reveal_strlit("root");
                reveal_strlit("encoding");
                assert(bn_sl@ =~= "build-name"@.map_values(|c: char| c as u8));
                assert(root_sl@ =~= "root"@.map_values(|c: char| c as u8));
                assert(enc_sl@ =~= "encoding"@.map_values(|c: char| c as u8));
                assert(lower_seq(bn_sl@) =~= bn_sl@);
                assert(lower_seq(root_sl@) =~= root_sl@);
                assert(lower_seq(enc_sl@) =~= enc_sl@);
            }
            if eq_ignore_case(key, bn_sl) {
                if value.len() > 0 {
                    build_name = Some(crate::text::slice_to_vec(value, 0, value.len()));
                    proof {
                        assert(value@.subrange(0, value@.len() as int) =~= value@);
                    }
                }
            } else if eq_ignore_case(key, root_sl) {
                let toks = split_ws(value);
                proof {
                    assert(toks@.map_values(|x: Vec<u8>| x@) == spec_split_ws(value@));
                    if toks@.len() > 0 {
                        assert(toks@[0]@ == spec_split_ws(value@)[0]);
                    }
                }
                if toks.len() > 0 && toks[0].len() > 0 {
                    match decode_hex16(toks[0].as_slice()) {
                        Some(a) => {
                            root_hash = Some(a);
                        },
                        None => {
                            proof {
                                assert(spec_cfg_line(st_pre, line0) is Err);
                            }
                            return Err(CascError::InvalidConfig);
                        },
                    }
                }
            } else if eq_ignore_case(key, enc_sl) {
                let toks = split_ws(value);
                proof {
                    assert(toks@.map_values(|x: Vec<u8>| x@) == spec_split_ws(value@));
                    if toks@.len() > 0 {
                        assert(toks@[0]@ == spec_split_ws(value@)[0]);
                    }
                    if toks@.len() > 1 {
                        assert(toks@[1]@ == spec_split_ws(value@)[1]);
                    }
                }
                if toks.len() > 0 && toks[0].len() > 0 {
                    match decode_hex16(toks[0].as_slice()) {
                        Some(a) => {
                            encoding_ckey = Some(a);
                        },
                        None => {
                            proof {
                                assert(spec_cfg_line(st_pre, line0) is Err);
                            }
                            return Err(CascError::InvalidConfig);
                        },
                    }
                }
                if toks.len() > 1 && toks[1].len() > 0 {
                    match decode_hex16(toks[1].as_slice()) {
                        Some(a) => {
                            encoding_ekey = Some(a);
                        },
                        None => {
                            proof {
                                assert(spec_cfg_line(st_pre, line0) is Err);
                            }
                            return Err(CascError::InvalidConfig);
                        },
                    }
                }
            }
        }
        proof {
            assert(spec_cfg_line(st_pre, line0) == Ok::<SpecBuildCfg, ()>(
                SpecBuildCfg {
                    build_name: opt_bytes(build_name),
                    root: opt_arr16(root_hash),
                    ckey: opt_arr16(encoding_ckey),
                    ekey: opt_arr16(encoding_ekey),
                },
            ));
        }
        i = i + 1;
    }
    proof {
        assert(slines.skip(i as int) =~= Seq::<Seq<u8>>::empty());
    }
    let root = match root_hash {
        Some(a) => a,
        None => {
            return Err(CascError::InvalidConfig);
        },
    };
    let eck = match encoding_ckey {
        Some(a) => a,
        None => {
            return Err(CascError::InvalidConfig);
        },
    };
    let eek = match encoding_ekey {
        Some(a) => a,
        None => {
            return Err(CascError::InvalidConfig);
        },
    };
    let bn = match build_name {
        Some(v) => v,
        None => {
            let unknown_lit: [u8; 7] = [0x75, 0x6e, 0x6b, 0x6e, 0x6f, 0x77, 0x6e];
            proof {
                reveal_strlit("unknown");
                assert(unknown_lit@ =~= "unknown"@.map_values(|ch: char| ch as u8));
            }
            let unknown: Vec<u8> = crate::text::slice_to_vec(&unknown_lit[0..7], 0, 7);
            unknown
        },
    };
    Ok(
        CascConfig {
            build_name: bn,
            root_hash: root,
            encoding_ckey: eck,
            encoding_ekey: eek,
            archives: Vec::new(),
            cdn_hosts: Vec::new(),
            cdn_path: Vec::new(),
            build_key: [0, 0, 0, 0, 0, 0, 0, 0, 0, 0, 0, 0, 0, 0, 0, 0],
            cdn_key: [0, 0, 0, 0, 0, 0, 0, 0, 0, 0, 0, 0, 0, 0, 0, 0],
        },
    )
}

} // verus!

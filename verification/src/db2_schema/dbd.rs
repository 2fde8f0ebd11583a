//! The table-definition text format: column declarations of the form
//! `type[count] Name`, read into a typed field list.

use vstd::prelude::*;

use crate::errors::CascError;
use crate::text::{bytes_eq, eq_ignore_case, find_byte, spec_trim, split_byte, split_ws,
    to_ascii_lowercase, trim};

verus! {

/// The column value types a table definition can declare.
#[derive(Clone, Copy, Debug, PartialEq, Eq, Structural)]
pub enum DbdType {
    Int,
    UInt,
    Short,
    UShort,
    Byte,
    UByte,
    Long,
    ULong,
    Float,
    Text,
    LocText,
}

impl DbdType {
    /// The type a lowercased keyword names.
    pub fn from_str(s: &[u8]) -> (r: Option<DbdType>) {
        let l = to_ascii_lowercase(s);
        let t = l.as_slice();
        if bytes_eq(t, &[0x69, 0x6e, 0x74]) {
            Some(DbdType::Int)
        } else if bytes_eq(t, &[0x75, 0x69, 0x6e, 0x74]) {
            Some(DbdType::UInt)
        } else if bytes_eq(t, &[0x73, 0x68, 0x6f, 0x72, 0x74]) {
            Some(DbdType::Short)
        } else if bytes_eq(t, &[0x75, 0x73, 0x68, 0x6f, 0x72, 0x74]) {
            Some(DbdType::UShort)
        } else if bytes_eq(t, &[0x62, 0x79, 0x74, 0x65]) {
            Some(DbdType::Byte)
        } else if bytes_eq(t, &[0x75, 0x62, 0x79, 0x74, 0x65]) {
            Some(DbdType::UByte)
        } else if bytes_eq(t, &[0x6c, 0x6f, 0x6e, 0x67]) {
            Some(DbdType::Long)
        } else if bytes_eq(t, &[0x75, 0x6c, 0x6f, 0x6e, 0x67]) {
            Some(DbdType::ULong)
        } else if bytes_eq(t, &[0x66, 0x6c, 0x6f, 0x61, 0x74]) {
            Some(DbdType::Float)
        } else if bytes_eq(t, &[0x73, 0x74, 0x72, 0x69, 0x6e, 0x67]) {
            Some(DbdType::Text)
        } else if bytes_eq(t, &[0x6c, 0x6f, 0x63, 0x73, 0x74, 0x72, 0x69, 0x6e, 0x67]) {
            Some(DbdType::LocText)
        } else {
            None
        }
    }
}

/// One declared column: its name, value type and array length.
pub struct DbdField {
    pub name: Vec<u8>,
    pub ty: DbdType,
    pub array_len: usize,
}

/// A parsed table definition.
pub struct DbdTable {
    pub name: Vec<u8>,
    pub fields: Vec<DbdField>,
}

/// Splits a raw type token into its base keyword and array length,
/// dropping any `<...>` reference annotation.
pub fn parse_type_and_array(raw: &[u8]) -> (r: Option<(Option<DbdType>, usize)>)
    ensures
        r matches Some(p) ==> p.1 >= 1,
{
    // Drop a foreign-key annotation: everything from `<` to `>`.
    let mut base: Vec<u8> = Vec::new();
    match find_byte(raw, 0, 0x3c) {
        Some(lt) => {
            match find_byte(raw, 0, 0x3e) {
                Some(gt) => {
                    base = crate::text::slice_to_vec(raw, 0, lt);
                    if gt < raw.len() && gt + 1 < raw.len() {
                        let rest = crate::text::slice_to_vec(raw, gt + 1, raw.len());
                        let mut t: usize = 0;
                        while t < rest.len()
                            decreases rest@.len() - t,
                        {
                            base.push(rest[t]);
                            t = t + 1;
                        }
                    }
                },
                None => {
                    base = crate::text::slice_to_vec(raw, 0, raw.len());
                },
            }
        },
        None => {
            base = crate::text::slice_to_vec(raw, 0, raw.len());
        },
    }
    let mut array_len: usize = 1;
    let mut ty_end = base.len();
    match find_byte(base.as_slice(), 0, 0x5b) {
        Some(ab) => {
            match find_byte(base.as_slice(), 0, 0x5d) {
                Some(ae) => {
                    if ab + 1 <= ae && ae <= base.len() {
                        let len_str = crate::text::slice_to_vec(base.as_slice(), ab + 1, ae);
                        match crate::listfile::parse_decimal_u32(len_str.as_slice()) {
                            Some(v) => {
                                if v >= 1 {
                                    array_len = v as usize;
                                }
                            },
                            None => {},
                        }
                        ty_end = ab;
                    }
                },
                None => {},
            }
        },
        None => {},
    }
    let ty_str = crate::text::slice_to_vec(base.as_slice(), 0, if ty_end <= base.len() {
        ty_end
    } else {
        base.len()
    });
    Some((DbdType::from_str(ty_str.as_slice()), array_len))
}

/// Parses one column line (`type Name`, `type[3] Name`) into a field.
pub fn parse_field_line(line: &[u8]) -> (r: Option<DbdField>) {
    let parts = split_ws(line);
    if parts.len() < 2 {
        return None;
    }
    let raw_ty = parts[0].as_slice();
    let raw_name = parts[1].as_slice();
    let (ty_opt, array_len) = match parse_type_and_array(raw_ty) {
        Some(p) => p,
        None => {
            return None;
        },
    };
    let ty = match ty_opt {
        Some(t) => t,
        None => {
            return None;
        },
    };
    // A trailing semicolon on the name is dropped.
    let name_end = if raw_name.len() > 0 && raw_name[raw_name.len() - 1] == 0x3b {
        raw_name.len() - 1
    } else {
        raw_name.len()
    };
    let name = crate::text::slice_to_vec(raw_name, 0, name_end);
    Some(DbdField { name, ty, array_len })
}

/// Parses a table definition: the first plain line before the column
/// section names the table, and each line of the column section declares
/// one field. A definition declaring no fields fails with
/// `InvalidConfig`.
pub fn parse_dbd_str(content: &[u8]) -> (r: Result<DbdTable, CascError>)
    ensures
        r matches Ok(t) ==> t.fields@.len() > 0,
        r matches Err(e) ==> e == CascError::InvalidConfig,
{
    let lines = split_byte(content, 0x0a);
    let mut in_columns = false;
    let mut fields: Vec<DbdField> = Vec::new();
    let mut table_name: Vec<u8> = Vec::new();
    let mut i: usize = 0;
    while i < lines.len()
        decreases lines@.len() - i,
    {
        let l = trim(lines[i].as_slice());
        if l.len() == 0 || l[0] == 0x23 {
            i = i + 1;
            continue ;
        }
        if eq_ignore_case(l, &[0x43, 0x4f, 0x4c, 0x55, 0x4d, 0x4e, 0x53]) {
            in_columns = true;
            i = i + 1;
            continue ;
        }
        if !in_columns {
            let is_layout = crate::text::starts_with(l, &[0x4c, 0x41, 0x59, 0x4f, 0x55, 0x54]);
            if table_name.len() == 0 && !is_layout {
                table_name = crate::text::slice_to_vec(l, 0, l.len());
            }
            i = i + 1;
            continue ;
        }
        if eq_ignore_case(l, &[0x4c, 0x41, 0x59, 0x4f, 0x55, 0x54]) || eq_ignore_case(
            l,
            &[0x4c, 0x41, 0x59, 0x4f, 0x55, 0x54, 0x53],
        ) {
            break ;
        }
        match parse_field_line(l) {
            Some(f) => {
                fields.push(f);
            },
            None => {},
        }
        i = i + 1;
    }
    if fields.len() == 0 {
        return Err(CascError::InvalidConfig);
    }
    if table_name.len() == 0 {
        table_name = crate::text::slice_to_vec(&[0x75, 0x6e, 0x6b, 0x6e, 0x6f, 0x77, 0x6e], 0, 7);
    }
    Ok(DbdTable { name: table_name, fields })
}

} // verus!

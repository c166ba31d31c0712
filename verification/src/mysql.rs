//! The column-type catalog: each type's identifier, its metadata-decoding
//! rule, and its value-decoding rule, as published by table-map events and
//! consumed by the row-image decoders.

use vstd::prelude::*;

use crate::codec::{le, u16_at, Cursor, DecodeError};

verus! {

/// A column type descriptor, carrying exactly the metadata needed to decode
/// a value of that type.
#[derive(Debug, Clone, Copy, PartialEq, Eq, Structural)]
pub enum ColTypes {
    Decimal,
    Tiny,
    Short,
    Long,
    Float(u8),
    Double(u8),
    Null,
    Timestamp,
    LongLong,
    Int24,
    Date,
    Time,
    DateTime,
    Year,
    NewDate,
    VarChar(u16),
    Bit(u8, u8),
    NewDecimal(u8, u8),
    Enum,
    SetType,
    TinyBlob,
    MediumBlob,
    LongBlob,
    Blob(u8),
    VarString(u8, u8),
    String(u8, u8),
    Geometry(u8),
}

/// A decoded column value, keeping the raw on-wire bytes of numeric and
/// temporal types and the length-delimited runs of string and blob types.
#[derive(Debug, Clone, PartialEq, Eq)]
pub enum ColValues {
    Decimal(Vec<u8>),
    Tiny(Vec<u8>),
    Short(Vec<u8>),
    Long(Vec<u8>),
    Float(Vec<u8>),
    Double(Vec<u8>),
    Null,
    Timestamp(Vec<u8>),
    LongLong(Vec<u8>),
    Int24(Vec<u8>),
    Date(Vec<u8>),
    Time(Vec<u8>),
    DateTime(Vec<u8>),
    Year(Vec<u8>),
    NewDate,
    VarChar(Vec<u8>),
    Bit(Vec<u8>),
    NewDecimal(Vec<u8>),
    Enum,
    SetValue,
    TinyBlob,
    MediumBlob,
    LongBlob,
    Blob(Vec<u8>),
    VarString(Vec<u8>),
    String(Vec<u8>),
    Geometry(Vec<u8>),
}

/// The mathematical shadow of a column value: the same tag over byte
/// sequences.
pub enum ColValuesV {
    Decimal(Seq<u8>),
    Tiny(Seq<u8>),
    Short(Seq<u8>),
    Long(Seq<u8>),
    Float(Seq<u8>),
    Double(Seq<u8>),
    Null,
    Timestamp(Seq<u8>),
    LongLong(Seq<u8>),
    Int24(Seq<u8>),
    Date(Seq<u8>),
    Time(Seq<u8>),
    DateTime(Seq<u8>),
    Year(Seq<u8>),
    NewDate,
    VarChar(Seq<u8>),
    Bit(Seq<u8>),
    NewDecimal(Seq<u8>),
    Enum,
    SetValue,
    TinyBlob,
    MediumBlob,
    LongBlob,
    Blob(Seq<u8>),
    VarString(Seq<u8>),
    String(Seq<u8>),
    Geometry(Seq<u8>),
}

impl View for ColValues {
    type V = ColValuesV;

    open spec fn view(&self) -> ColValuesV {
        match self {
            ColValues::Decimal(v) => ColValuesV::Decimal(v@),
            ColValues::Tiny(v) => ColValuesV::Tiny(v@),
            ColValues::Short(v) => ColValuesV::Short(v@),
            ColValues::Long(v) => ColValuesV::Long(v@),
            ColValues::Float(v) => ColValuesV::Float(v@),
            ColValues::Double(v) => ColValuesV::Double(v@),
            ColValues::Null => ColValuesV::Null,
            ColValues::Timestamp(v) => ColValuesV::Timestamp(v@),
            ColValues::LongLong(v) => ColValuesV::LongLong(v@),
            ColValues::Int24(v) => ColValuesV::Int24(v@),
            ColValues::Date(v) => ColValuesV::Date(v@),
            ColValues::Time(v) => ColValuesV::Time(v@),
            ColValues::DateTime(v) => ColValuesV::DateTime(v@),
            ColValues::Year(v) => ColValuesV::Year(v@),
            ColValues::NewDate => ColValuesV::NewDate,
            ColValues::VarChar(v) => ColValuesV::VarChar(v@),
            ColValues::Bit(v) => ColValuesV::Bit(v@),
            ColValues::NewDecimal(v) => ColValuesV::NewDecimal(v@),
            ColValues::Enum => ColValuesV::Enum,
            ColValues::SetValue => ColValuesV::SetValue,
            ColValues::TinyBlob => ColValuesV::TinyBlob,
            ColValues::MediumBlob => ColValuesV::MediumBlob,
            ColValues::LongBlob => ColValuesV::LongBlob,
            ColValues::Blob(v) => ColValuesV::Blob(v@),
            ColValues::VarString(v) => ColValuesV::VarString(v@),
            ColValues::String(v) => ColValuesV::String(v@),
            ColValues::Geometry(v) => ColValuesV::Geometry(v@),
        }
    }
}

/// The (identifier, metadata-byte-count) pair of a column type.
pub open spec fn spec_meta(c: ColTypes) -> (u8, u8) {
    match c {
        ColTypes::Decimal => (0u8, 0u8),
        ColTypes::Tiny => (1u8, 0u8),
        ColTypes::Short => (2u8, 0u8),
        ColTypes::Long => (3u8, 0u8),
        ColTypes::Float(_) => (4u8, 1u8),
        ColTypes::Double(_) => (5u8, 1u8),
        ColTypes::Null => (6u8, 0u8),
        ColTypes::Timestamp => (7u8, 0u8),
        ColTypes::LongLong => (8u8, 0u8),
        ColTypes::Int24 => (9u8, 0u8),
        ColTypes::Date => (10u8, 0u8),
        ColTypes::Time => (11u8, 0u8),
        ColTypes::DateTime => (12u8, 0u8),
        ColTypes::Year => (13u8, 0u8),
        ColTypes::NewDate => (14u8, 0u8),
        ColTypes::VarChar(_) => (15u8, 2u8),
        ColTypes::Bit(_, _) => (16u8, 2u8),
        ColTypes::NewDecimal(_, _) => (246u8, 2u8),
        ColTypes::Enum => (247u8, 0u8),
        ColTypes::SetType => (248u8, 0u8),
        ColTypes::TinyBlob => (249u8, 0u8),
        ColTypes::MediumBlob => (250u8, 0u8),
        ColTypes::LongBlob => (251u8, 0u8),
        ColTypes::Blob(_) => (252u8, 1u8),
        ColTypes::VarString(_, _) => (253u8, 2u8),
        ColTypes::String(_, _) => (254u8, 2u8),
        ColTypes::Geometry(_) => (255u8, 1u8),
    }
}

/// The column type a type byte denotes, with its default metadata, or
/// nothing for a byte outside the catalog.
pub open spec fn spec_from_u8(t: u8) -> Option<ColTypes> {
    if t == 0 {
        Some(ColTypes::Decimal)
    } else if t == 1 {
        Some(ColTypes::Tiny)
    } else if t == 2 {
        Some(ColTypes::Short)
    } else if t == 3 {
        Some(ColTypes::Long)
    } else if t == 4 {
        Some(ColTypes::Float(4))
    } else if t == 5 {
        Some(ColTypes::Double(8))
    } else if t == 6 {
        Some(ColTypes::Null)
    } else if t == 7 || t == 17 {
        Some(ColTypes::Timestamp)
    } else if t == 8 {
        Some(ColTypes::LongLong)
    } else if t == 9 {
        Some(ColTypes::Int24)
    } else if t == 10 {
        Some(ColTypes::Date)
    } else if t == 11 || t == 19 {
        Some(ColTypes::Time)
    } else if t == 12 || t == 18 {
        Some(ColTypes::DateTime)
    } else if t == 13 {
        Some(ColTypes::Year)
    } else if t == 14 {
        Some(ColTypes::NewDate)
    } else if t == 15 {
        Some(ColTypes::VarChar(0))
    } else if t == 16 {
        Some(ColTypes::Bit(0, 0))
    } else if t == 246 {
        Some(ColTypes::NewDecimal(10, 0))
    } else if t == 247 {
        Some(ColTypes::Enum)
    } else if t == 248 {
        Some(ColTypes::SetType)
    } else if t == 249 {
        Some(ColTypes::TinyBlob)
    } else if t == 250 {
        Some(ColTypes::MediumBlob)
    } else if t == 251 {
        Some(ColTypes::LongBlob)
    } else if t == 252 {
        Some(ColTypes::Blob(1))
    } else if t == 253 {
        Some(ColTypes::VarString(1, 0))
    } else if t == 254 {
        Some(ColTypes::String(253, 0))
    } else if t == 255 {
        Some(ColTypes::Geometry(1))
    } else {
        None
    }
}

/// How many metadata bytes the descriptor for `c` takes, and the descriptor
/// denoted by the metadata at `i`; an error if the bytes run out.
pub open spec fn spec_col_def(c: ColTypes, s: Seq<u8>, i: int) -> Result<
    (int, ColTypes),
    DecodeError,
> {
    match c {
        ColTypes::Float(_) => if i + 1 <= s.len() {
            Ok((1int, ColTypes::Float(s[i])))
        } else {
            Err(DecodeError::NotEnoughData)
        },
        ColTypes::Double(_) => if i + 1 <= s.len() {
            Ok((1int, ColTypes::Double(s[i])))
        } else {
            Err(DecodeError::NotEnoughData)
        },
        ColTypes::VarChar(_) => if i + 2 <= s.len() {
            Ok((2int, ColTypes::VarChar(u16_at(s, i) as u16)))
        } else {
            Err(DecodeError::NotEnoughData)
        },
        ColTypes::NewDecimal(_, _) => if i + 2 <= s.len() {
            Ok((2int, ColTypes::NewDecimal(s[i], s[i + 1])))
        } else {
            Err(DecodeError::NotEnoughData)
        },
        ColTypes::Blob(_) => if i + 1 <= s.len() {
            Ok((1int, ColTypes::Blob(s[i])))
        } else {
            Err(DecodeError::NotEnoughData)
        },
        ColTypes::VarString(_, _) => if i + 2 <= s.len() {
            Ok((2int, ColTypes::VarString(s[i], s[i + 1])))
        } else {
            Err(DecodeError::NotEnoughData)
        },
        ColTypes::String(_, _) => if i + 2 <= s.len() {
            Ok((2int, ColTypes::String(s[i], s[i + 1])))
        } else {
            Err(DecodeError::NotEnoughData)
        },
        ColTypes::Bit(_, _) => if i + 2 <= s.len() {
            Ok((2int, ColTypes::Bit(s[i], s[i + 1])))
        } else {
            Err(DecodeError::NotEnoughData)
        },
        ColTypes::Geometry(_) => if i + 1 <= s.len() {
            Ok((1int, ColTypes::Geometry(s[i])))
        } else {
            Err(DecodeError::NotEnoughData)
        },
        _ => Ok((0int, c)),
    }
}




/// A fixed-width value taken whole: the `n` bytes at `i`.
pub open spec fn spec_take(s: Seq<u8>, i: int, n: int) -> Result<Seq<u8>, DecodeError> {
    if i + n <= s.len() {
        Ok(s.subrange(i, i + n))
    } else {
        Err(DecodeError::NotEnoughData)
    }
}

/// A temporal value's wire form: a length byte followed by that many bytes,
/// both kept.
pub open spec fn spec_packed(s: Seq<u8>, i: int) -> Result<(int, Seq<u8>), DecodeError> {
    if i + 1 <= s.len() {
        let n = s[i] as int;
        if i + 1 + n <= s.len() {
            Ok((n + 1, seq![s[i]] + s.subrange(i + 1, i + 1 + n)))
        } else {
            Err(DecodeError::NotEnoughData)
        }
    } else {
        Err(DecodeError::NotEnoughData)
    }
}

/// The value of type `c` denoted by the bytes at `i`: the count the row
/// region advances by and the value's shadow record, or the error met
/// reading it. For the var-string and string kinds the advance count is the
/// declared length alone, without its length byte.
#[verifier::opaque]
pub open spec fn spec_col_parse(c: ColTypes, s: Seq<u8>, i: int) -> Result<
    (int, ColValuesV),
    DecodeError,
> {
    match c {
        ColTypes::Decimal => match spec_take(s, i, 4) {
            Ok(v) => Ok((4int, ColValuesV::Decimal(v))),
            Err(e) => Err(e),
        },
        ColTypes::Tiny => match spec_take(s, i, 1) {
            Ok(v) => Ok((1int, ColValuesV::Tiny(v))),
            Err(e) => Err(e),
        },
        ColTypes::Short => match spec_take(s, i, 2) {
            Ok(v) => Ok((2int, ColValuesV::Short(v))),
            Err(e) => Err(e),
        },
        ColTypes::Long => match spec_take(s, i, 4) {
            Ok(v) => Ok((4int, ColValuesV::Long(v))),
            Err(e) => Err(e),
        },
        ColTypes::Float(_) => match spec_take(s, i, 4) {
            Ok(v) => Ok((4int, ColValuesV::Float(v))),
            Err(e) => Err(e),
        },
        ColTypes::Double(_) => match spec_take(s, i, 8) {
            Ok(v) => Ok((8int, ColValuesV::Double(v))),
            Err(e) => Err(e),
        },
        ColTypes::Null => Ok((0int, ColValuesV::Null)),
        ColTypes::LongLong => match spec_take(s, i, 8) {
            Ok(v) => Ok((8int, ColValuesV::LongLong(v))),
            Err(e) => Err(e),
        },
        ColTypes::Int24 => match spec_take(s, i, 4) {
            Ok(v) => Ok((4int, ColValuesV::Int24(v))),
            Err(e) => Err(e),
        },
        ColTypes::Timestamp => match spec_packed(s, i) {
            Ok(p) => Ok((p.0, ColValuesV::Timestamp(p.1))),
            Err(e) => Err(e),
        },
        ColTypes::Date => match spec_packed(s, i) {
            Ok(p) => Ok((p.0, ColValuesV::Date(p.1))),
            Err(e) => Err(e),
        },
        ColTypes::Time => match spec_packed(s, i) {
            Ok(p) => Ok((p.0, ColValuesV::Time(p.1))),
            Err(e) => Err(e),
        },
        ColTypes::DateTime => match spec_packed(s, i) {
            Ok(p) => Ok((p.0, ColValuesV::DateTime(p.1))),
            Err(e) => Err(e),
        },
        ColTypes::Year => match spec_take(s, i, 2) {
            Ok(v) => Ok((2int, ColValuesV::Year(v))),
            Err(e) => Err(e),
        },
        ColTypes::NewDate => Ok((0int, ColValuesV::NewDate)),
        ColTypes::VarChar(max_len) => if max_len > 255 {
            if i + 2 <= s.len() {
                let n = u16_at(s, i) as int;
                match spec_take(s, i + 2, n) {
                    Ok(v) => Ok((n + 2, ColValuesV::VarChar(v))),
                    Err(e) => Err(e),
                }
            } else {
                Err(DecodeError::NotEnoughData)
            }
        } else {
            if i + 1 <= s.len() {
                let n = s[i] as int;
                match spec_take(s, i + 1, n) {
                    Ok(v) => Ok((n + 1, ColValuesV::VarChar(v))),
                    Err(e) => Err(e),
                }
            } else {
                Err(DecodeError::NotEnoughData)
            }
        },
        ColTypes::Bit(b1, b2) => {
            let n = (b1 + 7) / 8 + (b2 + 7) / 8;
            match spec_take(s, i, n as int) {
                Ok(v) => Ok((n as int, ColValuesV::Bit(v))),
                Err(e) => Err(e),
            }
        },
        ColTypes::NewDecimal(_, _) => match spec_take(s, i, 8) {
            Ok(v) => Ok((8int, ColValuesV::NewDecimal(v))),
            Err(e) => Err(e),
        },
        ColTypes::Enum => Ok((0int, ColValuesV::Enum)),
        ColTypes::SetType => Ok((0int, ColValuesV::SetValue)),
        ColTypes::TinyBlob => Ok((0int, ColValuesV::TinyBlob)),
        ColTypes::MediumBlob => Ok((0int, ColValuesV::MediumBlob)),
        ColTypes::LongBlob => Ok((0int, ColValuesV::LongBlob)),
        ColTypes::Blob(len_bytes) => if 1 <= len_bytes <= 4 {
            if i + len_bytes <= s.len() {
                let n = le(s.subrange(i, i + len_bytes)) as int;
                match spec_take(s, i + len_bytes, n) {
                    Ok(v) => Ok((len_bytes + n, ColValuesV::Blob(v))),
                    Err(e) => Err(e),
                }
            } else {
                Err(DecodeError::NotEnoughData)
            }
        } else {
            Err(DecodeError::InvalidData)
        },
        ColTypes::VarString(_, _) => if i + 1 <= s.len() {
            let n = s[i] as int;
            match spec_take(s, i + 1, n) {
                Ok(v) => Ok((n, ColValuesV::VarString(v))),
                Err(e) => Err(e),
            }
        } else {
            Err(DecodeError::NotEnoughData)
        },
        ColTypes::String(_, _) => if i + 1 <= s.len() {
            let n = s[i] as int;
            match spec_take(s, i + 1, n) {
                Ok(v) => Ok((n, ColValuesV::VarChar(v))),
                Err(e) => Err(e),
            }
        } else {
            Err(DecodeError::NotEnoughData)
        },
        ColTypes::Geometry(n) => match spec_take(s, i, n as int) {
            Ok(v) => Ok((n as int, ColValuesV::Geometry(v))),
            Err(e) => Err(e),
        },
    }
}

impl ColTypes {
    /// The (identifier, metadata byte count) of this column type.
    pub fn meta(&self) -> (r: (u8, u8))
        ensures
            r == spec_meta(*self),
    {
        match *self {
            ColTypes::Decimal => (0, 0),
            ColTypes::Tiny => (1, 0),
            ColTypes::Short => (2, 0),
            ColTypes::Long => (3, 0),
            ColTypes::Float(_) => (4, 1),
            ColTypes::Double(_) => (5, 1),
            ColTypes::Null => (6, 0),
            ColTypes::Timestamp => (7, 0),
            ColTypes::LongLong => (8, 0),
            ColTypes::Int24 => (9, 0),
            ColTypes::Date => (10, 0),
            ColTypes::Time => (11, 0),
            ColTypes::DateTime => (12, 0),
            ColTypes::Year => (13, 0),
            ColTypes::NewDate => (14, 0),
            ColTypes::VarChar(_) => (15, 2),
            ColTypes::Bit(_, _) => (16, 2),
            ColTypes::NewDecimal(_, _) => (246, 2),
            ColTypes::Enum => (247, 0),
            ColTypes::SetType => (248, 0),
            ColTypes::TinyBlob => (249, 0),
            ColTypes::MediumBlob => (250, 0),
            ColTypes::LongBlob => (251, 0),
            ColTypes::Blob(_) => (252, 1),
            ColTypes::VarString(_, _) => (253, 2),
            ColTypes::String(_, _) => (254, 2),
            ColTypes::Geometry(_) => (255, 1),
        }
    }

    /// The column type a known type byte denotes; `col_type_of` answers for
    /// an arbitrary byte, and the table-map decoder refuses an unknown one
    /// with `InvalidData`.
    pub fn from_u8(t: u8) -> (r: Self)
        requires
            spec_from_u8(t) is Some,
        ensures
            Some(r) == spec_from_u8(t),
    {
        match t {
            0 => ColTypes::Decimal,
            1 => ColTypes::Tiny,
            2 => ColTypes::Short,
            3 => ColTypes::Long,
            4 => ColTypes::Float(4),
            5 => ColTypes::Double(8),
            6 => ColTypes::Null,
            7 | 17 => ColTypes::Timestamp,
            8 => ColTypes::LongLong,
            9 => ColTypes::Int24,
            10 => ColTypes::Date,
            11 | 19 => ColTypes::Time,
            12 | 18 => ColTypes::DateTime,
            13 => ColTypes::Year,
            14 => ColTypes::NewDate,
            15 => ColTypes::VarChar(0),
            16 => ColTypes::Bit(0, 0),
            246 => ColTypes::NewDecimal(10, 0),
            247 => ColTypes::Enum,
            248 => ColTypes::SetType,
            249 => ColTypes::TinyBlob,
            250 => ColTypes::MediumBlob,
            251 => ColTypes::LongBlob,
            252 => ColTypes::Blob(1),
            253 => ColTypes::VarString(1, 0),
            254 => ColTypes::String(253, 0),
            _ => ColTypes::Geometry(1),
        }
    }

    /// Reads this type's metadata from the table-map metadata block, giving
    /// the bytes consumed and the completed descriptor.
    #[verifier::rlimit(50)]
    #[verifier::spinoff_prover]
    pub fn parse_def(&self, cur: &mut Cursor) -> (r: Result<(usize, ColTypes), DecodeError>)
        requires
            old(cur).wf(),
        ensures
            final(cur).data == old(cur).data,
            final(cur).wf(),
            spec_col_def(*self, old(cur).data@, old(cur).pos as int) matches Ok(p) ==> {
                &&& r is Ok
                &&& (r->Ok_0.0 as int) == p.0
                &&& r->Ok_0.1 == p.1
                &&& final(cur).pos == old(cur).pos + p.0
            },
            spec_col_def(*self, old(cur).data@, old(cur).pos as int) matches Err(e) ==> r == Err::<
                (usize, ColTypes),
                DecodeError,
            >(e) && final(cur).pos == old(cur).pos,
    {
        match *self {
            ColTypes::Float(_) => match cur.read_u8() {
                Ok(v) => Ok((1, ColTypes::Float(v))),
                Err(e) => Err(e),
            },
            ColTypes::Double(_) => match cur.read_u8() {
                Ok(v) => Ok((1, ColTypes::Double(v))),
                Err(e) => Err(e),
            },
            ColTypes::VarChar(_) => match cur.read_u16() {
                Ok(v) => Ok((2, ColTypes::VarChar(v))),
                Err(e) => Err(e),
            },
            ColTypes::NewDecimal(_, _) => {
                if cur.remaining() < 2 {
                    return Err(DecodeError::NotEnoughData);
                }
                let m = match cur.read_u8() {
                    Ok(v) => v,
                    Err(e) => {
                        return Err(e);
                    },
                };
                let d = match cur.read_u8() {
                    Ok(v) => v,
                    Err(e) => {
                        return Err(e);
                    },
                };
                Ok((2, ColTypes::NewDecimal(m, d)))
            },
            ColTypes::Blob(_) => match cur.read_u8() {
                Ok(v) => Ok((1, ColTypes::Blob(v))),
                Err(e) => Err(e),
            },
            ColTypes::VarString(_, _) => {
                if cur.remaining() < 2 {
                    return Err(DecodeError::NotEnoughData);
                }
                let t = match cur.read_u8() {
                    Ok(v) => v,
                    Err(e) => {
                        return Err(e);
                    },
                };
                let len = match cur.read_u8() {
                    Ok(v) => v,
                    Err(e) => {
                        return Err(e);
                    },
                };
                Ok((2, ColTypes::VarString(t, len)))
            },
            ColTypes::String(_, _) => {
                if cur.remaining() < 2 {
                    return Err(DecodeError::NotEnoughData);
                }
                let t = match cur.read_u8() {
                    Ok(v) => v,
                    Err(e) => {
                        return Err(e);
                    },
                };
                let len = match cur.read_u8() {
                    Ok(v) => v,
                    Err(e) => {
                        return Err(e);
                    },
                };
                Ok((2, ColTypes::String(t, len)))
            },
            ColTypes::Bit(_, _) => {
                if cur.remaining() < 2 {
                    return Err(DecodeError::NotEnoughData);
                }
                let b1 = match cur.read_u8() {
                    Ok(v) => v,
                    Err(e) => {
                        return Err(e);
                    },
                };
                let b2 = match cur.read_u8() {
                    Ok(v) => v,
                    Err(e) => {
                        return Err(e);
                    },
                };
                Ok((2, ColTypes::Bit(b1, b2)))
            },
            ColTypes::Geometry(_) => match cur.read_u8() {
                Ok(v) => Ok((1, ColTypes::Geometry(v))),
                Err(e) => Err(e),
            },
            _ => Ok((0, *self)),
        }
    }

    /// Decodes one value of this column type from a row image, giving the
    /// count the row region advances by and the value.
    pub fn parse(&self, cur: &mut Cursor) -> (r: Result<(usize, ColValues), DecodeError>)
        requires
            old(cur).wf(),
        ensures
            final(cur).data == old(cur).data,
            final(cur).wf(),
            col_parse_post(*self, old(cur).data@, old(cur).pos as int, r, final(cur).pos as int),
    {
        match *self {
            ColTypes::Decimal => col_take_fixed(cur, *self),
            ColTypes::Tiny => col_take_fixed(cur, *self),
            ColTypes::Short => col_take_fixed(cur, *self),
            ColTypes::Long => col_take_fixed(cur, *self),
            ColTypes::Float(_) => col_take_fixed(cur, *self),
            ColTypes::Double(_) => col_take_fixed(cur, *self),
            ColTypes::LongLong => col_take_fixed(cur, *self),
            ColTypes::Int24 => col_take_fixed(cur, *self),
            ColTypes::Year => col_take_fixed(cur, *self),
            ColTypes::NewDecimal(_, _) => col_take_fixed(cur, *self),
            ColTypes::Null => col_take_empty(cur, *self),
            ColTypes::NewDate => col_take_empty(cur, *self),
            ColTypes::Enum => col_take_empty(cur, *self),
            ColTypes::SetType => col_take_empty(cur, *self),
            ColTypes::TinyBlob => col_take_empty(cur, *self),
            ColTypes::MediumBlob => col_take_empty(cur, *self),
            ColTypes::LongBlob => col_take_empty(cur, *self),
            ColTypes::Timestamp => col_take_packed(cur, *self),
            ColTypes::Date => col_take_packed(cur, *self),
            ColTypes::Time => col_take_packed(cur, *self),
            ColTypes::DateTime => col_take_packed(cur, *self),
            ColTypes::VarChar(_) => col_take_varchar(cur, *self),
            ColTypes::Bit(_, _) => col_take_bit(cur, *self),
            ColTypes::Blob(_) => col_take_blob(cur, *self),
            ColTypes::VarString(_, _) => col_take_string_kind(cur, *self),
            ColTypes::String(_, _) => col_take_string_kind(cur, *self),
            ColTypes::Geometry(_) => col_take_geometry(cur, *self),
        }
    }
}

/// What every column-value decoder promises of the spec outcome.
pub open spec fn col_parse_post(
    c: ColTypes,
    s: Seq<u8>,
    i: int,
    r: Result<(usize, ColValues), DecodeError>,
    p_new: int,
) -> bool {
    match spec_col_parse(c, s, i) {
        Ok(p) => {
            &&& r is Ok
            &&& (r->Ok_0.0 as int) == p.0
            &&& r->Ok_0.1@ == p.1
            &&& p_new == i + p.0
        },
        Err(e) => r == Err::<(usize, ColValues), DecodeError>(e),
    }
}

/// The fixed-width kinds: a constant run of bytes taken whole.
fn col_take_fixed(cur: &mut Cursor, c: ColTypes) -> (r: Result<(usize, ColValues), DecodeError>)
    requires
        old(cur).wf(),
        c matches ColTypes::Decimal || c matches ColTypes::Tiny || c matches ColTypes::Short
            || c matches ColTypes::Long || c matches ColTypes::Float(_) || c matches
            ColTypes::Double(_) || c matches ColTypes::LongLong || c matches ColTypes::Int24
            || c matches ColTypes::Year || c matches ColTypes::NewDecimal(_, _),
    ensures
        final(cur).data == old(cur).data,
        final(cur).wf(),
        col_parse_post(c, old(cur).data@, old(cur).pos as int, r, final(cur).pos as int),
{
    proof {
        reveal(spec_col_parse);
    }
    match c {
        ColTypes::Decimal => match cur.read_vec(4) {
            Ok(v) => Ok((4, ColValues::Decimal(v))),
            Err(e) => Err(e),
        },
        ColTypes::Tiny => match cur.read_vec(1) {
            Ok(v) => Ok((1, ColValues::Tiny(v))),
            Err(e) => Err(e),
        },
        ColTypes::Short => match cur.read_vec(2) {
            Ok(v) => Ok((2, ColValues::Short(v))),
            Err(e) => Err(e),
        },
        ColTypes::Long => match cur.read_vec(4) {
            Ok(v) => Ok((4, ColValues::Long(v))),
            Err(e) => Err(e),
        },
        ColTypes::Float(_) => match cur.read_vec(4) {
            Ok(v) => Ok((4, ColValues::Float(v))),
            Err(e) => Err(e),
        },
        ColTypes::Double(_) => match cur.read_vec(8) {
            Ok(v) => Ok((8, ColValues::Double(v))),
            Err(e) => Err(e),
        },
        ColTypes::LongLong => match cur.read_vec(8) {
            Ok(v) => Ok((8, ColValues::LongLong(v))),
            Err(e) => Err(e),
        },
        ColTypes::Int24 => match cur.read_vec(4) {
            Ok(v) => Ok((4, ColValues::Int24(v))),
            Err(e) => Err(e),
        },
        ColTypes::Year => match cur.read_vec(2) {
            Ok(v) => Ok((2, ColValues::Year(v))),
            Err(e) => Err(e),
        },
        _ => match cur.read_vec(8) {
            Ok(v) => Ok((8, ColValues::NewDecimal(v))),
            Err(e) => Err(e),
        },
    }
}

/// The kinds that carry no bytes in a row image.
fn col_take_empty(cur: &mut Cursor, c: ColTypes) -> (r: Result<(usize, ColValues), DecodeError>)
    requires
        old(cur).wf(),
        c matches ColTypes::Null || c matches ColTypes::NewDate || c matches ColTypes::Enum
            || c matches ColTypes::SetType || c matches ColTypes::TinyBlob || c matches
            ColTypes::MediumBlob || c matches ColTypes::LongBlob,
    ensures
        final(cur).data == old(cur).data,
        final(cur).wf(),
        col_parse_post(c, old(cur).data@, old(cur).pos as int, r, final(cur).pos as int),
{
    proof {
        reveal(spec_col_parse);
    }
    match c {
        ColTypes::Null => Ok((0, ColValues::Null)),
        ColTypes::NewDate => Ok((0, ColValues::NewDate)),
        ColTypes::Enum => Ok((0, ColValues::Enum)),
        ColTypes::SetType => Ok((0, ColValues::SetValue)),
        ColTypes::TinyBlob => Ok((0, ColValues::TinyBlob)),
        ColTypes::MediumBlob => Ok((0, ColValues::MediumBlob)),
        _ => Ok((0, ColValues::LongBlob)),
    }
}

/// The temporal kinds: a length byte and that many bytes, both kept.
fn col_take_packed(cur: &mut Cursor, c: ColTypes) -> (r: Result<(usize, ColValues), DecodeError>)
    requires
        old(cur).wf(),
        c matches ColTypes::Timestamp || c matches ColTypes::Date || c matches ColTypes::Time
            || c matches ColTypes::DateTime,
    ensures
        final(cur).data == old(cur).data,
        final(cur).wf(),
        col_parse_post(c, old(cur).data@, old(cur).pos as int, r, final(cur).pos as int),
{
    proof {
        reveal(spec_col_parse);
    }
    let p = match parse_packed(cur) {
        Ok(v) => v,
        Err(e) => {
            return Err(e);
        },
    };
    match c {
        ColTypes::Timestamp => Ok((p.0, ColValues::Timestamp(p.1))),
        ColTypes::Date => Ok((p.0, ColValues::Date(p.1))),
        ColTypes::Time => Ok((p.0, ColValues::Time(p.1))),
        _ => Ok((p.0, ColValues::DateTime(p.1))),
    }
}

/// A variable-length character value: a 2-byte length prefix when the
/// declared maximum exceeds 255, a 1-byte prefix otherwise.
fn col_take_varchar(cur: &mut Cursor, c: ColTypes) -> (r: Result<(usize, ColValues), DecodeError>)
    requires
        old(cur).wf(),
        c matches ColTypes::VarChar(_),
    ensures
        final(cur).data == old(cur).data,
        final(cur).wf(),
        col_parse_post(c, old(cur).data@, old(cur).pos as int, r, final(cur).pos as int),
{
    proof {
        reveal(spec_col_parse);
    }
    let max_len = match c {
        ColTypes::VarChar(m) => m,
        _ => 0,
    };
    if max_len > 255 {
        let n = match cur.read_u16() {
            Ok(v) => v,
            Err(e) => {
                return Err(e);
            },
        };
        match cur.read_vec(n as usize) {
            Ok(v) => Ok((n as usize + 2, ColValues::VarChar(v))),
            Err(e) => Err(e),
        }
    } else {
        let n = match cur.read_u8() {
            Ok(v) => v,
            Err(e) => {
                return Err(e);
            },
        };
        match cur.read_vec(n as usize) {
            Ok(v) => Ok((n as usize + 1, ColValues::VarChar(v))),
            Err(e) => Err(e),
        }
    }
}

/// A bit value: one mask's worth of bytes for each width parameter.
fn col_take_bit(cur: &mut Cursor, c: ColTypes) -> (r: Result<(usize, ColValues), DecodeError>)
    requires
        old(cur).wf(),
        c matches ColTypes::Bit(_, _),
    ensures
        final(cur).data == old(cur).data,
        final(cur).wf(),
        col_parse_post(c, old(cur).data@, old(cur).pos as int, r, final(cur).pos as int),
{
    proof {
        reveal(spec_col_parse);
    }
    let (b1, b2) = match c {
        ColTypes::Bit(b1, b2) => (b1, b2),
        _ => (0, 0),
    };
    let n = (b1 as usize + 7) / 8 + (b2 as usize + 7) / 8;
    match cur.read_vec(n) {
        Ok(v) => Ok((n, ColValues::Bit(v))),
        Err(e) => Err(e),
    }
}

/// A blob value: its metadata names the 1- to 4-byte width of the length
/// prefix.
fn col_take_blob(cur: &mut Cursor, c: ColTypes) -> (r: Result<(usize, ColValues), DecodeError>)
    requires
        old(cur).wf(),
        c matches ColTypes::Blob(_),
    ensures
        final(cur).data == old(cur).data,
        final(cur).wf(),
        col_parse_post(c, old(cur).data@, old(cur).pos as int, r, final(cur).pos as int),
{
    proof {
        reveal(spec_col_parse);
    }
    let len_bytes = match c {
        ColTypes::Blob(b) => b,
        _ => 0,
    };
    if len_bytes < 1 || len_bytes > 4 {
        return Err(DecodeError::InvalidData);
    }
    let prefix = match cur.read_le(len_bytes as usize) {
        Ok(v) => v,
        Err(e) => {
            return Err(e);
        },
    };
    proof {
        crate::codec::lemma_pow256_values();
    }
    let n = prefix as usize;
    match cur.read_vec(n) {
        Ok(v) => Ok((len_bytes as usize + n, ColValues::Blob(v))),
        Err(e) => Err(e),
    }
}

/// The var-string and string kinds: a 1-byte length and that many bytes,
/// the advance count being the declared length alone.
fn col_take_string_kind(cur: &mut Cursor, c: ColTypes) -> (r: Result<
    (usize, ColValues),
    DecodeError,
>)
    requires
        old(cur).wf(),
        c matches ColTypes::VarString(_, _) || c matches ColTypes::String(_, _),
    ensures
        final(cur).data == old(cur).data,
        final(cur).wf(),
        col_parse_post(c, old(cur).data@, old(cur).pos as int, r, final(cur).pos as int),
{
    proof {
        reveal(spec_col_parse);
    }
    let var_string = match c {
        ColTypes::VarString(_, _) => true,
        _ => false,
    };
    let n = match cur.read_u8() {
        Ok(v) => v,
        Err(e) => {
            return Err(e);
        },
    };
    match cur.read_vec(n as usize) {
        Ok(v) => {
            cur.pos = cur.pos - 1;
            if var_string {
                Ok((n as usize, ColValues::VarString(v)))
            } else {
                Ok((n as usize, ColValues::VarChar(v)))
            }
        },
        Err(e) => Err(e),
    }
}

/// A geometry value: its metadata byte names the run length taken.
fn col_take_geometry(cur: &mut Cursor, c: ColTypes) -> (r: Result<(usize, ColValues), DecodeError>)
    requires
        old(cur).wf(),
        c matches ColTypes::Geometry(_),
    ensures
        final(cur).data == old(cur).data,
        final(cur).wf(),
        col_parse_post(c, old(cur).data@, old(cur).pos as int, r, final(cur).pos as int),
{
    proof {
        reveal(spec_col_parse);
    }
    let n = match c {
        ColTypes::Geometry(n) => n,
        _ => 0,
    };
    match cur.read_vec(n as usize) {
        Ok(v) => Ok((n as usize, ColValues::Geometry(v))),
        Err(e) => Err(e),
    }
}

/// Reads a temporal value's wire form: a length byte followed by that many
/// bytes, both kept in the value.
fn parse_packed(cur: &mut Cursor) -> (r: Result<(usize, Vec<u8>), DecodeError>)
    requires
        old(cur).wf(),
    ensures
        final(cur).data == old(cur).data,
        final(cur).wf(),
        spec_packed(old(cur).data@, old(cur).pos as int) matches Ok(p) ==> {
            &&& r is Ok
            &&& (r->Ok_0.0 as int) == p.0
            &&& r->Ok_0.1@ == p.1
            &&& final(cur).pos == old(cur).pos + p.0
        },
        spec_packed(old(cur).data@, old(cur).pos as int) matches Err(e) ==> r == Err::<
            (usize, Vec<u8>),
            DecodeError,
        >(e),
{
    let ghost s = cur.data@;
    let ghost i = cur.pos as int;
    let n = match cur.read_u8() {
        Ok(v) => v,
        Err(e) => {
            return Err(e);
        },
    };
    let tail = match cur.read_vec(n as usize) {
        Ok(v) => v,
        Err(e) => {
            return Err(e);
        },
    };
    let mut data: Vec<u8> = Vec::new();
    data.push(n);
    crate::codec::put_bytes(tail.as_slice(), &mut data);
    proof {
        assert(data@ =~= seq![s[i]] + s.subrange(i + 1, i + 1 + (s[i] as int)));
    }
    Ok((n as usize + 1, data))
}

/// The `n` column types the bytes at `j` denote: each byte must be a known
/// type code, else the event is refused with `InvalidData`.
pub open spec fn spec_col_types(s: Seq<u8>, j: int, n: int) -> Result<Seq<ColTypes>, DecodeError>
    decreases n,
{
    if n <= 0 {
        Ok(Seq::empty())
    } else if !(0 <= j < s.len()) {
        Err(DecodeError::NotEnoughData)
    } else {
        match spec_from_u8(s[j]) {
            Some(c) => match spec_col_types(s, j + 1, n - 1) {
                Ok(rest) => Ok(seq![c] + rest),
                Err(e) => Err(e),
            },
            None => Err(DecodeError::InvalidData),
        }
    }
}

/// The completed descriptors read from the metadata block `[j, end)`, one
/// per listed type, in order.
pub open spec fn spec_col_defs(s: Seq<u8>, types: Seq<ColTypes>, j: int, end: int) -> Result<
    Seq<ColTypes>,
    DecodeError,
>
    decreases types.len(),
{
    if types.len() == 0 {
        Ok(Seq::empty())
    } else {
        match spec_col_def(types[0], s, j) {
            Ok(p) => if j + p.0 > end {
                Err(DecodeError::NotEnoughData)
            } else {
                match spec_col_defs(s, types.drop_first(), j + p.0, end) {
                    Ok(rest) => Ok(seq![p.1] + rest),
                    Err(e) => Err(e),
                }
            },
            Err(e) => Err(e),
        }
    }
}

/// The column type a type byte denotes, if any.
pub fn col_type_of(t: u8) -> (r: Option<ColTypes>)
    ensures
        r == spec_from_u8(t),
{
    if t <= 16 || t == 17 || t == 18 || t == 19 || t >= 246 {
        Some(ColTypes::from_u8(t))
    } else {
        None
    }
}

} // verus!
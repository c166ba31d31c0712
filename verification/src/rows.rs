//! The shared pieces of the row-image events: the row-event flag bits and
//! the extra-data chain that precedes the column count.

use vstd::prelude::*;
use vstd::utf8::{decode_utf8, valid_utf8};

use crate::codec::{prefix_to_nul, Cursor, DecodeError};
use crate::mysql::{spec_col_parse, ColTypes, ColValues, ColValuesV};

verus! {

/// The row-event flag bits.
#[derive(Debug, Clone, Copy, PartialEq, Eq, Structural)]
pub struct Flags {
    pub end_of_stmt: bool,
    pub foreign_key_checks: bool,
    pub unique_key_checks: bool,
    pub has_columns: bool,
}

/// One entry of a row event's extra-data chain.
#[derive(Debug, Clone, PartialEq, Eq)]
pub struct ExtraData {
    pub d_type: ExtraDataType,
    pub data: Payload,
}

/// The tag byte of an extra-data entry; an unrecognised value is kept rather
/// than rejected.
#[derive(Debug, Clone, Copy, PartialEq, Eq, Structural)]
pub enum ExtraDataType {
    RW_V_EXTRAINFO_TAG,
    Other(u8),
}

/// The body of an extra-data entry.
#[derive(Debug, Clone, PartialEq, Eq)]
pub enum Payload {
    ExtraDataInfo { length: u8, format: ExtraDataFormat, payload: String },
}

/// The format byte of an extra-data entry; an unrecognised value is kept
/// rather than rejected.
#[derive(Debug, Clone, Copy, PartialEq, Eq, Structural)]
pub enum ExtraDataFormat {
    NDB,
    OPEN1,
    OPEN2,
    MULTI,
    Other(u8),
}

/// A raw row image: its null-bit mask and the value bytes.
#[derive(Debug, Clone, PartialEq, Eq)]
pub struct Row {
    pub null_bit_mask: Vec<u8>,
    pub values: Vec<u8>,
}

/// The mathematical shadow of an extra-data entry.
pub struct ExtraDataV {
    pub d_type: ExtraDataType,
    pub length: u8,
    pub format: ExtraDataFormat,
    pub payload: Seq<char>,
}

impl View for ExtraData {
    type V = ExtraDataV;

    open spec fn view(&self) -> ExtraDataV {
        match self.data {
            Payload::ExtraDataInfo { length, format, payload } => ExtraDataV {
                d_type: self.d_type,
                length,
                format,
                payload: payload@,
            },
        }
    }
}


/// The flag record a row event's 16-bit field denotes.
pub open spec fn spec_row_flags(f: u16) -> Flags {
    Flags {
        end_of_stmt: (f >> 0u16) % 2 == 1,
        foreign_key_checks: (f >> 1u16) % 2 == 0,
        unique_key_checks: (f >> 2u16) % 2 == 0,
        has_columns: (f >> 3u16) % 2 == 0,
    }
}

/// Builds the flag record of a row event.
pub fn row_flags(f: u16) -> (r: Flags)
    ensures
        r == spec_row_flags(f),
{
    Flags {
        end_of_stmt: (f >> 0u16) % 2 == 1,
        foreign_key_checks: (f >> 1u16) % 2 == 0,
        unique_key_checks: (f >> 2u16) % 2 == 0,
        has_columns: (f >> 3u16) % 2 == 0,
    }
}

/// The extra-data tag a byte denotes.
pub open spec fn spec_extra_type(b: u8) -> ExtraDataType {
    if b == 0 {
        ExtraDataType::RW_V_EXTRAINFO_TAG
    } else {
        ExtraDataType::Other(b)
    }
}

/// The extra-data format a byte denotes.
pub open spec fn spec_extra_format(b: u8) -> ExtraDataFormat {
    if b == 0x00 {
        ExtraDataFormat::NDB
    } else if b == 0x40 {
        ExtraDataFormat::OPEN1
    } else if b == 0x41 {
        ExtraDataFormat::OPEN2
    } else if b == 0xff {
        ExtraDataFormat::MULTI
    } else {
        ExtraDataFormat::Other(b)
    }
}

/// One extra-data entry at `j`, inside the chain region ending at `end`.
pub open spec fn spec_extra_entry(s: Seq<u8>, j: int, end: int) -> Result<
    (ExtraDataV, int),
    DecodeError,
> {
    if j + 3 > end {
        Err(DecodeError::NotEnoughData)
    } else {
        let len = s[j + 1] as int;
        if j + 3 + len > end {
            Err(DecodeError::NotEnoughData)
        } else {
            let raw = prefix_to_nul(s.subrange(j + 3, j + 3 + len));
            if valid_utf8(raw) {
                Ok((
                    ExtraDataV {
                        d_type: spec_extra_type(s[j]),
                        length: s[j + 1],
                        format: spec_extra_format(s[j + 2]),
                        payload: decode_utf8(raw),
                    },
                    3 + len,
                ))
            } else {
                Err(DecodeError::InvalidUtf8)
            }
        }
    }
}

/// The whole extra-data chain of `[j, end)`, which it must fill exactly.
pub open spec fn spec_extra_chain(s: Seq<u8>, j: int, end: int) -> Result<
    Seq<ExtraDataV>,
    DecodeError,
>
    decreases end - j,
{
    if j >= end {
        Ok(Seq::empty())
    } else {
        match spec_extra_entry(s, j, end) {
            Ok(p) => if p.1 < 3 {
                Err(DecodeError::InvalidData)
            } else {
                match spec_extra_chain(s, j + p.1, end) {
                    Ok(rest) => Ok(seq![p.0] + rest),
                    Err(e) => Err(e),
                }
            },
            Err(e) => Err(e),
        }
    }
}

/// The views of a list of extra-data entries, in order.
pub open spec fn extra_views(vs: Seq<ExtraData>) -> Seq<ExtraDataV>
    decreases vs.len(),
{
    if vs.len() == 0 {
        Seq::empty()
    } else {
        extra_views(vs.drop_last()).push(vs.last()@)
    }
}

/// Decodes one extra-data entry, staying inside the chain region.
fn parse_extra_entry(cur: &mut Cursor, end: usize) -> (r: Result<ExtraData, DecodeError>)
    requires
        old(cur).wf(),
        old(cur).pos <= end <= old(cur).data@.len(),
    ensures
        final(cur).data == old(cur).data,
        final(cur).wf(),
        spec_extra_entry(old(cur).data@, old(cur).pos as int, end as int) matches Ok(p) ==> {
            &&& r is Ok
            &&& r->Ok_0@ == p.0
            &&& final(cur).pos == old(cur).pos + p.1
            &&& p.1 >= 3
            &&& old(cur).pos + p.1 <= end
        },
        spec_extra_entry(old(cur).data@, old(cur).pos as int, end as int) matches Err(e) ==> r
            == Err::<ExtraData, DecodeError>(e),
{
    if end - cur.pos < 3 {
        return Err(DecodeError::NotEnoughData);
    }
    let t = match cur.read_u8() {
        Ok(v) => v,
        Err(e) => {
            return Err(e);
        },
    };
    let d_type = if t == 0 {
        ExtraDataType::RW_V_EXTRAINFO_TAG
    } else {
        ExtraDataType::Other(t)
    };
    let length = match cur.read_u8() {
        Ok(v) => v,
        Err(e) => {
            return Err(e);
        },
    };
    let fb = match cur.read_u8() {
        Ok(v) => v,
        Err(e) => {
            return Err(e);
        },
    };
    let format = if fb == 0x00 {
        ExtraDataFormat::NDB
    } else if fb == 0x40 {
        ExtraDataFormat::OPEN1
    } else if fb == 0x41 {
        ExtraDataFormat::OPEN2
    } else if fb == 0xff {
        ExtraDataFormat::MULTI
    } else {
        ExtraDataFormat::Other(fb)
    };
    if end - cur.pos < length as usize {
        return Err(DecodeError::NotEnoughData);
    }
    let raw = match cur.read_vec(length as usize) {
        Ok(v) => v,
        Err(e) => {
            return Err(e);
        },
    };
    let payload = {
        let head = crate::codec::extract_prefix(raw.as_slice());
        match crate::codec::slice_to_string(head) {
            Ok(v) => v,
            Err(e) => {
                return Err(e);
            },
        }
    };
    Ok(ExtraData { d_type, data: Payload::ExtraDataInfo { length, format, payload } })
}

/// Decodes the whole extra-data chain of `[pos, end)`, which must be
/// consumed exactly.
pub fn parse_extra_data(cur: &mut Cursor, end: usize) -> (r: Result<Vec<ExtraData>, DecodeError>)
    requires
        old(cur).wf(),
        old(cur).pos <= end <= old(cur).data@.len(),
    ensures
        final(cur).data == old(cur).data,
        final(cur).wf(),
        spec_extra_chain(old(cur).data@, old(cur).pos as int, end as int) matches Ok(es) ==> {
            &&& r is Ok
            &&& extra_views(r->Ok_0@) == es
            &&& final(cur).pos == end
        },
        spec_extra_chain(old(cur).data@, old(cur).pos as int, end as int) matches Err(e) ==> r
            == Err::<Vec<ExtraData>, DecodeError>(e),
{
    let ghost s = cur.data@;
    let mut entries: Vec<ExtraData> = Vec::new();
    let ghost mut done: Seq<ExtraDataV> = Seq::empty();
    while cur.pos < end
        invariant
            cur.wf(),
            cur.data == old(cur).data,
            s == cur.data@,
            cur.pos <= end <= s.len(),
            done == extra_views(entries@),
            match spec_extra_chain(s, cur.pos as int, end as int) {
                Ok(rest) => spec_extra_chain(s, old(cur).pos as int, end as int) == Ok::<
                    _,
                    DecodeError,
                >(done + rest),
                Err(e) => spec_extra_chain(s, old(cur).pos as int, end as int) == Err::<
                    Seq<ExtraDataV>,
                    DecodeError,
                >(e),
            },
        decreases end - cur.pos,
    {
        let ghost pos0 = cur.pos as int;
        let ghost entries0 = entries@;
        let entry = match parse_extra_entry(cur, end) {
            Ok(v) => v,
            Err(e) => {
                return Err(e);
            },
        };
        entries.push(entry);
        proof {
            let p = spec_extra_entry(s, pos0, end as int)->Ok_0;
            let done0 = done;
            assert(entries@.drop_last() =~= entries0);
            done = done.push(p.0);
            assert(done == extra_views(entries@));
            match spec_extra_chain(s, cur.pos as int, end as int) {
                Ok(rest) => {
                    assert(spec_extra_chain(s, pos0, end as int) == Ok::<_, DecodeError>(
                        seq![p.0] + rest,
                    ));
                    assert(done0 + (seq![p.0] + rest) =~= done + rest);
                    assert(spec_extra_chain(s, old(cur).pos as int, end as int) == Ok::<
                        _,
                        DecodeError,
                    >(done + rest));
                },
                Err(e) => {
                    assert(spec_extra_chain(s, pos0, end as int) == Err::<
                        Seq<ExtraDataV>,
                        DecodeError,
                    >(e));
                },
            }
        }
    }
    proof {
        assert(done + Seq::<ExtraDataV>::empty() =~= done);
    }
    Ok(entries)
}

/// Whether present-bit `k` of a column mask is set, low bit of the first
/// byte first.
pub open spec fn spec_mask_bit(mask: Seq<u8>, k: int) -> bool {
    0 <= k / 8 < mask.len() && ((mask[k / 8] >> ((k % 8) as u8)) % 2 == 1)
}

/// Reads present-bit `k` of a column mask; a bit past the mask is clear.
pub fn mask_bit(mask: &Vec<u8>, k: usize) -> (r: bool)
    ensures
        r == spec_mask_bit(mask@, k as int),
{
    if k / 8 >= mask.len() {
        false
    } else {
        (mask[k / 8] >> ((k % 8) as u8)) % 2 == 1
    }
}

/// The values of one row image's columns starting at `j`: a value is decoded
/// per its type where its present-bit is set, and is null otherwise. Gives
/// the position after the image.
pub open spec fn spec_row_cols(
    s: Seq<u8>,
    j: int,
    end: int,
    cols: Seq<ColTypes>,
    mask: Seq<u8>,
    k: int,
) -> Result<(Seq<ColValuesV>, int), DecodeError>
    decreases cols.len(),
{
    if cols.len() == 0 {
        Ok((Seq::empty(), j))
    } else if !spec_mask_bit(mask, k) {
        match spec_row_cols(s, j, end, cols.drop_first(), mask, k + 1) {
            Ok(p) => Ok((seq![ColValuesV::Null] + p.0, p.1)),
            Err(e) => Err(e),
        }
    } else {
        match spec_col_parse(cols[0], s, j) {
            Ok(p) => if p.0 < 0 || j + p.0 > end {
                Err(DecodeError::NotEnoughData)
            } else {
                match spec_row_cols(s, j + p.0, end, cols.drop_first(), mask, k + 1) {
                    Ok(q) => Ok((seq![p.1] + q.0, q.1)),
                    Err(e) => Err(e),
                }
            },
            Err(e) => Err(e),
        }
    }
}

/// The row images filling `[j, end)`: each is a null-bit mask of `bit_len`
/// bytes and one value per column, the present masks alternating between
/// `m1` and `m2` from image to image. At least one image is read.
pub open spec fn spec_row_images(
    s: Seq<u8>,
    j: int,
    end: int,
    cols: Seq<ColTypes>,
    m1: Seq<u8>,
    m2: Seq<u8>,
    bit_len: int,
) -> Result<Seq<Seq<ColValuesV>>, DecodeError>
    decreases end - j,
{
    if j + bit_len > end {
        Err(DecodeError::NotEnoughData)
    } else {
        match spec_row_cols(s, j + bit_len, end, cols, m1, 0) {
            Ok(p) => if p.1 >= end {
                Ok(seq![p.0])
            } else if p.1 <= j {
                Err(DecodeError::InvalidData)
            } else {
                match spec_row_images(s, p.1, end, cols, m2, m1, bit_len) {
                    Ok(rest) => Ok(seq![p.0] + rest),
                    Err(e) => Err(e),
                }
            },
            Err(e) => Err(e),
        }
    }
}

/// The views of a list of column values, in order.
pub open spec fn col_values_views(vs: Seq<ColValues>) -> Seq<ColValuesV>
    decreases vs.len(),
{
    if vs.len() == 0 {
        Seq::empty()
    } else {
        col_values_views(vs.drop_last()).push(vs.last()@)
    }
}

/// The views of a list of row images, in order.
pub open spec fn row_views(vs: Seq<Vec<ColValues>>) -> Seq<Seq<ColValuesV>>
    decreases vs.len(),
{
    if vs.len() == 0 {
        Seq::empty()
    } else {
        row_views(vs.drop_last()).push(col_values_views(vs.last()@))
    }
}

/// Decodes one row image's values, present-bit by present-bit.
pub fn parse_row(cur: &mut Cursor, end: usize, cols: &Vec<ColTypes>, mask: &Vec<u8>) -> (r: Result<
    Vec<ColValues>,
    DecodeError,
>)
    requires
        old(cur).wf(),
        old(cur).pos <= end <= old(cur).data@.len(),
    ensures
        final(cur).data == old(cur).data,
        final(cur).wf(),
        spec_row_cols(old(cur).data@, old(cur).pos as int, end as int, cols@, mask@, 0) matches Ok(
            p,
        ) ==> r is Ok && col_values_views(r->Ok_0@) == p.0 && final(cur).pos == p.1 && old(
            cur,
        ).pos <= p.1 <= end,
        spec_row_cols(old(cur).data@, old(cur).pos as int, end as int, cols@, mask@, 0) matches Err(
            e,
        ) ==> r == Err::<Vec<ColValues>, DecodeError>(e),
{
    let ghost s = cur.data@;
    let mut values: Vec<ColValues> = Vec::new();
    let ghost mut done: Seq<ColValuesV> = Seq::empty();
    let mut k: usize = 0;
    proof {
        assert(cols@.subrange(0, cols@.len() as int) =~= cols@);
    }
    while k < cols.len()
        invariant
            cur.wf(),
            cur.data == old(cur).data,
            s == cur.data@,
            old(cur).pos <= cur.pos <= end <= s.len(),
            k <= cols@.len(),
            values@.len() == k,
            done == col_values_views(values@),
            match spec_row_cols(
                s,
                cur.pos as int,
                end as int,
                cols@.subrange(k as int, cols@.len() as int),
                mask@,
                k as int,
            ) {
                Ok(rest) => spec_row_cols(s, old(cur).pos as int, end as int, cols@, mask@, 0)
                    == Ok::<_, DecodeError>((done + rest.0, rest.1)),
                Err(e) => spec_row_cols(s, old(cur).pos as int, end as int, cols@, mask@, 0)
                    == Err::<(Seq<ColValuesV>, int), DecodeError>(e),
            },
        decreases cols@.len() - k,
    {
        let ghost values0 = values@;
        let ghost pos0 = cur.pos as int;
        let ghost remaining = cols@.subrange(k as int, cols@.len() as int);
        proof {
            assert(remaining[0] == cols@[k as int]);
            assert(remaining.drop_first() =~= cols@.subrange(k + 1, cols@.len() as int));
        }
        let present = mask_bit(mask, k);
        let value = if present {
            let (_, v) = match cols[k].parse(cur) {
                Ok(p) => p,
                Err(e) => {
                    return Err(e);
                },
            };
            if cur.pos > end {
                return Err(DecodeError::NotEnoughData);
            }
            v
        } else {
            ColValues::Null
        };
        values.push(value);
        proof {
            let done0 = done;
            assert(values@.drop_last() =~= values0);
            done = done.push(value@);
            assert(done == col_values_views(values@));
            match spec_row_cols(
                s,
                cur.pos as int,
                end as int,
                cols@.subrange(k + 1, cols@.len() as int),
                mask@,
                k + 1,
            ) {
                Ok(rest) => {
                    assert(spec_row_cols(s, pos0, end as int, remaining, mask@, k as int) == Ok::<
                        _,
                        DecodeError,
                    >((seq![value@] + rest.0, rest.1)));
                    assert(done0 + (seq![value@] + rest.0) =~= done + rest.0);
                    assert(spec_row_cols(s, old(cur).pos as int, end as int, cols@, mask@, 0)
                        == Ok::<_, DecodeError>((done + rest.0, rest.1)));
                },
                Err(e) => {
                    assert(spec_row_cols(s, pos0, end as int, remaining, mask@, k as int) == Err::<
                        (Seq<ColValuesV>, int),
                        DecodeError,
                    >(e));
                },
            }
        }
        k = k + 1;
    }
    proof {
        assert(cols@.subrange(cols@.len() as int, cols@.len() as int) =~= Seq::<ColTypes>::empty());
        assert(done + Seq::<ColValuesV>::empty() =~= done);
    }
    Ok(values)
}

/// Prepending an image to a list of images prepends its view.
proof fn lemma_row_views_cons(x: Vec<ColValues>, vs: Seq<Vec<ColValues>>)
    ensures
        row_views(seq![x] + vs) == seq![col_values_views(x@)] + row_views(vs),
    decreases vs.len(),
{
    if vs.len() == 0 {
        reveal_with_fuel(row_views, 3);
        assert((seq![x] + vs).drop_last() =~= Seq::<Vec<ColValues>>::empty());
        assert((seq![x] + vs).last() == x);
        assert(row_views(seq![x] + vs) =~~= seq![col_values_views(x@)] + row_views(vs));
    } else {
        assert((seq![x] + vs).drop_last() =~= seq![x] + vs.drop_last());
        assert((seq![x] + vs).last() == vs.last());
        lemma_row_views_cons(x, vs.drop_last());
        assert(row_views(seq![x] + vs) =~~= seq![col_values_views(x@)] + row_views(vs));
    }
}

/// Decodes the row images filling `[pos, end)`, alternating the two present
/// masks from image to image; a well-formed region yields at least one
/// image.
pub fn parse_row_images(
    cur: &mut Cursor,
    end: usize,
    cols: &Vec<ColTypes>,
    m1: &Vec<u8>,
    m2: &Vec<u8>,
    bit_len: usize,
) -> (r: Result<Vec<Vec<ColValues>>, DecodeError>)
    requires
        old(cur).wf(),
        old(cur).pos <= end <= old(cur).data@.len(),
    ensures
        final(cur).data == old(cur).data,
        final(cur).wf(),
        final(cur).pos <= old(cur).data@.len(),
        spec_row_images(
            old(cur).data@,
            old(cur).pos as int,
            end as int,
            cols@,
            m1@,
            m2@,
            bit_len as int,
        ) matches Ok(rs) ==> r is Ok && row_views(r->Ok_0@) == rs && final(cur).pos == end,
        spec_row_images(
            old(cur).data@,
            old(cur).pos as int,
            end as int,
            cols@,
            m1@,
            m2@,
            bit_len as int,
        ) matches Err(e) ==> r == Err::<Vec<Vec<ColValues>>, DecodeError>(e),
    decreases end - old(cur).pos,
{
    let ghost s = cur.data@;
    let ghost j = cur.pos as int;
    let start = cur.pos;
    if end - cur.pos < bit_len {
        return Err(DecodeError::NotEnoughData);
    }
    let _ = cur.skip(bit_len);
    let image = match parse_row(cur, end, cols, m1) {
        Ok(v) => v,
        Err(e) => {
            return Err(e);
        },
    };
    if cur.pos >= end {
        let mut rows: Vec<Vec<ColValues>> = Vec::new();
        rows.push(image);
        proof {
            reveal_with_fuel(row_views, 3);
            assert(rows@.drop_last() =~= Seq::<Vec<ColValues>>::empty());
            assert(row_views(rows@) =~~= seq![col_values_views(rows@.last()@)]);
        }
        return Ok(rows);
    }
    if cur.pos <= start {
        return Err(DecodeError::InvalidData);
    }
    let mut rows = match parse_row_images(cur, end, cols, m2, m1, bit_len) {
        Ok(v) => v,
        Err(e) => {
            return Err(e);
        },
    };
    let ghost rest0 = rows@;
    rows.insert(0, image);
    proof {
        assert(rows@ =~= seq![image] + rest0);
        lemma_row_views_cons(image, rest0);
    }
    Ok(rows)
}

/// Copies a present mask, so both image orders can share one.
pub fn copy_mask(v: &Vec<u8>) -> (r: Vec<u8>)
    ensures
        r@ == v@,
{
    let mut out: Vec<u8> = Vec::new();
    let mut k: usize = 0;
    while k < v.len()
        invariant
            k <= v@.len(),
            out@ == v@.subrange(0, k as int),
        decreases v@.len() - k,
    {
        out.push(v[k]);
        proof {
            assert(out@ =~= v@.subrange(0, k + 1));
        }
        k = k + 1;
    }
    proof {
        assert(v@.subrange(0, v@.len() as int) =~= v@);
    }
    out
}

} // verus!
//! The status-variable chain of a query event: one-byte keys introducing
//! variable-shape values, consuming its declared sub-region exactly.

use vstd::prelude::*;
use vstd::utf8::{decode_utf8, valid_utf8};

use crate::codec::{prefix_to_nul, u16_at, u24_at, u32_at, u64_at, Cursor, DecodeError};

verus! {

/// One entry of a query event's status-variable chain.
#[derive(Debug, Clone, PartialEq, Eq)]
pub enum QueryStatusVar {
    Q_FLAGS2_CODE(Q_FLAGS2_CODE_VAL),
    Q_SQL_MODE_CODE(Q_SQL_MODE_CODE_VAL),
    Q_CATALOG(String),
    Q_AUTO_INCREMENT(u16, u16),
    Q_CHARSET_CODE(u16, u16, u16),
    Q_TIME_ZONE_CODE(String),
    Q_CATALOG_NZ_CODE(String),
    Q_LC_TIME_NAMES_CODE(u16),
    Q_CHARSET_DATABASE_CODE(u16),
    Q_TABLE_MAP_FOR_UPDATE_CODE(u64),
    Q_MASTER_DATA_WRITTEN_CODE(u32),
    Q_INVOKERS(String, String),
    Q_UPDATED_DB_NAMES(Vec<String>),
    Q_MICROSECONDS(u32),
}

/// The decoded flags2 bitset.
#[derive(Debug, Clone, Copy, PartialEq, Eq, Structural)]
pub struct Q_FLAGS2_CODE_VAL {
    pub auto_is_null: bool,
    pub auto_commit: bool,
    pub foreign_key_checks: bool,
    pub unique_checks: bool,
}

/// The decoded sql_mode bitset.
#[derive(Debug, Clone, Copy, PartialEq, Eq, Structural)]
pub struct Q_SQL_MODE_CODE_VAL {
    pub real_as_float: bool,
    pub pipes_as_concat: bool,
    pub ansi_quotes: bool,
    pub ignore_space: bool,
    pub not_used: bool,
    pub only_full_group_by: bool,
    pub no_unsigned_subtraction: bool,
    pub no_dir_in_create: bool,
    pub postgresql: bool,
    pub oracle: bool,
    pub mssql: bool,
    pub db2: bool,
    pub maxdb: bool,
    pub no_key_options: bool,
    pub no_table_options: bool,
    pub no_field_options: bool,
    pub mysql323: bool,
    pub mysql40: bool,
    pub ansi: bool,
    pub no_auto_value_on_zero: bool,
    pub no_backslash_escapes: bool,
    pub strict_trans_tables: bool,
    pub strict_all_tables: bool,
    pub no_zero_in_date: bool,
    pub no_zero_date: bool,
    pub invalid_dates: bool,
    pub error_for_division_by_zero: bool,
    pub traditional: bool,
    pub no_auto_create_user: bool,
    pub high_not_precedence: bool,
    pub no_engine_substitution: bool,
    pub pad_char_to_full_length: bool,
}

/// The mathematical shadow of a status variable, with strings as character
/// sequences.
pub enum QueryStatusVarV {
    Q_FLAGS2_CODE(Q_FLAGS2_CODE_VAL),
    Q_SQL_MODE_CODE(Q_SQL_MODE_CODE_VAL),
    Q_CATALOG(Seq<char>),
    Q_AUTO_INCREMENT(u16, u16),
    Q_CHARSET_CODE(u16, u16, u16),
    Q_TIME_ZONE_CODE(Seq<char>),
    Q_CATALOG_NZ_CODE(Seq<char>),
    Q_LC_TIME_NAMES_CODE(u16),
    Q_CHARSET_DATABASE_CODE(u16),
    Q_TABLE_MAP_FOR_UPDATE_CODE(u64),
    Q_MASTER_DATA_WRITTEN_CODE(u32),
    Q_INVOKERS(Seq<char>, Seq<char>),
    Q_UPDATED_DB_NAMES(Seq<Seq<char>>),
    Q_MICROSECONDS(u32),
}

impl View for QueryStatusVar {
    type V = QueryStatusVarV;

    open spec fn view(&self) -> QueryStatusVarV {
        match self {
            QueryStatusVar::Q_FLAGS2_CODE(v) => QueryStatusVarV::Q_FLAGS2_CODE(*v),
            QueryStatusVar::Q_SQL_MODE_CODE(v) => QueryStatusVarV::Q_SQL_MODE_CODE(*v),
            QueryStatusVar::Q_CATALOG(v) => QueryStatusVarV::Q_CATALOG(v@),
            QueryStatusVar::Q_AUTO_INCREMENT(a, b) => QueryStatusVarV::Q_AUTO_INCREMENT(*a, *b),
            QueryStatusVar::Q_CHARSET_CODE(a, b, c) => QueryStatusVarV::Q_CHARSET_CODE(*a, *b, *c),
            QueryStatusVar::Q_TIME_ZONE_CODE(v) => QueryStatusVarV::Q_TIME_ZONE_CODE(v@),
            QueryStatusVar::Q_CATALOG_NZ_CODE(v) => QueryStatusVarV::Q_CATALOG_NZ_CODE(v@),
            QueryStatusVar::Q_LC_TIME_NAMES_CODE(v) => QueryStatusVarV::Q_LC_TIME_NAMES_CODE(*v),
            QueryStatusVar::Q_CHARSET_DATABASE_CODE(v) => QueryStatusVarV::Q_CHARSET_DATABASE_CODE(
                *v,
            ),
            QueryStatusVar::Q_TABLE_MAP_FOR_UPDATE_CODE(v)
                => QueryStatusVarV::Q_TABLE_MAP_FOR_UPDATE_CODE(*v),
            QueryStatusVar::Q_MASTER_DATA_WRITTEN_CODE(v)
                => QueryStatusVarV::Q_MASTER_DATA_WRITTEN_CODE(*v),
            QueryStatusVar::Q_INVOKERS(a, b) => QueryStatusVarV::Q_INVOKERS(a@, b@),
            QueryStatusVar::Q_UPDATED_DB_NAMES(v) => QueryStatusVarV::Q_UPDATED_DB_NAMES(
                str_views(v@),
            ),
            QueryStatusVar::Q_MICROSECONDS(v) => QueryStatusVarV::Q_MICROSECONDS(*v),
        }
    }
}

/// The flags2 record a 32-bit field denotes.
#[verifier::opaque]
pub open spec fn spec_flags2(code: u32) -> Q_FLAGS2_CODE_VAL {
    Q_FLAGS2_CODE_VAL {
        auto_is_null: (code >> 14u32) % 2 == 1,
        auto_commit: (code >> 19u32) % 2 == 0,
        foreign_key_checks: (code >> 26u32) % 2 == 0,
        unique_checks: (code >> 27u32) % 2 == 0,
    }
}

/// The sql_mode record a 64-bit field denotes.
#[verifier::opaque]
pub open spec fn spec_sql_mode(code: u64) -> Q_SQL_MODE_CODE_VAL {
    Q_SQL_MODE_CODE_VAL {
        real_as_float: (code >> 0u64) % 2 == 1,
        pipes_as_concat: (code >> 1u64) % 2 == 1,
        ansi_quotes: (code >> 2u64) % 2 == 1,
        ignore_space: (code >> 3u64) % 2 == 1,
        not_used: (code >> 4u64) % 2 == 1,
        only_full_group_by: (code >> 5u64) % 2 == 1,
        no_unsigned_subtraction: (code >> 6u64) % 2 == 1,
        no_dir_in_create: (code >> 7u64) % 2 == 1,
        postgresql: (code >> 8u64) % 2 == 1,
        oracle: (code >> 9u64) % 2 == 1,
        mssql: (code >> 10u64) % 2 == 1,
        db2: (code >> 11u64) % 2 == 1,
        maxdb: (code >> 12u64) % 2 == 1,
        no_key_options: (code >> 13u64) % 2 == 1,
        no_table_options: (code >> 14u64) % 2 == 1,
        no_field_options: (code >> 15u64) % 2 == 1,
        mysql323: (code >> 16u64) % 2 == 1,
        mysql40: (code >> 17u64) % 2 == 1,
        ansi: (code >> 18u64) % 2 == 1,
        no_auto_value_on_zero: (code >> 19u64) % 2 == 1,
        no_backslash_escapes: (code >> 20u64) % 2 == 1,
        strict_trans_tables: (code >> 21u64) % 2 == 1,
        strict_all_tables: (code >> 22u64) % 2 == 1,
        no_zero_in_date: (code >> 23u64) % 2 == 1,
        no_zero_date: (code >> 24u64) % 2 == 1,
        invalid_dates: (code >> 25u64) % 2 == 1,
        error_for_division_by_zero: (code >> 26u64) % 2 == 1,
        traditional: (code >> 27u64) % 2 == 1,
        no_auto_create_user: (code >> 28u64) % 2 == 1,
        high_not_precedence: (code >> 29u64) % 2 == 1,
        no_engine_substitution: (code >> 30u64) % 2 == 1,
        pad_char_to_full_length: (code >> 31u64) % 2 == 1,
    }
}

/// The first zero byte at or after `i` and before `end`, if any.
pub open spec fn first_nul_before(s: Seq<u8>, i: int, end: int) -> Option<int>
    decreases end - i,
{
    if i < 0 || i >= end || i >= s.len() {
        None
    } else if s[i] == 0 {
        Some(i)
    } else {
        first_nul_before(s, i + 1, end)
    }
}

proof fn lemma_first_nul_before_found(s: Seq<u8>, i: int, end: int, j: int)
    requires
        0 <= i <= j,
        j < end,
        j < s.len(),
        forall|k: int| i <= k < j ==> s[k] != 0,
        s[j] == 0,
    ensures
        first_nul_before(s, i, end) == Some(j),
    decreases j - i,
{
    if i < j {
        lemma_first_nul_before_found(s, i + 1, end, j);
    }
}

proof fn lemma_first_nul_before_none(s: Seq<u8>, i: int, end: int)
    requires
        0 <= i,
        forall|k: int| i <= k < end && k < s.len() ==> s[k] != 0,
    ensures
        first_nul_before(s, i, end) is None,
    decreases end - i,
{
    if i < end && i < s.len() {
        lemma_first_nul_before_none(s, i + 1, end);
    }
}

/// A list of `count` null-terminated names inside `[i, end)`: their views and
/// the index just past the last terminator.
pub open spec fn spec_nul_names(s: Seq<u8>, i: int, end: int, count: nat) -> Result<
    (Seq<Seq<char>>, int),
    DecodeError,
>
    decreases count,
{
    if count == 0 {
        Ok((Seq::empty(), i))
    } else {
        match first_nul_before(s, i, end) {
            Some(j) => {
                let raw = s.subrange(i, j);
                if valid_utf8(raw) {
                    match spec_nul_names(s, j + 1, end, (count - 1) as nat) {
                        Ok(p) => Ok((seq![decode_utf8(raw)] + p.0, p.1)),
                        Err(e) => Err(e),
                    }
                } else {
                    Err(DecodeError::InvalidUtf8)
                }
            },
            None => Err(DecodeError::MissingNullTerminator),
        }
    }
}

/// The flags2 variable's value and size at `i` (its key byte).
#[verifier::opaque]
pub open spec fn sv_spec_flags2(s: Seq<u8>, i: int, end: int) -> Result<
    (QueryStatusVarV, int),
    DecodeError,
> {
    if i + 5 <= end {
        Ok((QueryStatusVarV::Q_FLAGS2_CODE(spec_flags2(u32_at(s, i + 1) as u32)), 5))
    } else {
        Err(DecodeError::NotEnoughData)
    }
}

/// The sql_mode variable's value and size at `i`.
#[verifier::opaque]
pub open spec fn sv_spec_sql_mode(s: Seq<u8>, i: int, end: int) -> Result<
    (QueryStatusVarV, int),
    DecodeError,
> {
    if i + 9 <= end {
        Ok((QueryStatusVarV::Q_SQL_MODE_CODE(spec_sql_mode(u64_at(s, i + 1) as u64)), 9))
    } else {
        Err(DecodeError::NotEnoughData)
    }
}

/// The catalog variable's value and size at `i`.
#[verifier::opaque]
pub open spec fn sv_spec_catalog(s: Seq<u8>, i: int, end: int) -> Result<
    (QueryStatusVarV, int),
    DecodeError,
> {
    if i + 2 <= end && i + 3 + s[i + 1] <= end {
        let raw = s.subrange(i + 2, i + 2 + s[i + 1]);
        if s[i + 2 + s[i + 1]] != 0 {
            Err(DecodeError::InvalidData)
        } else if valid_utf8(raw) {
            Ok((QueryStatusVarV::Q_CATALOG(decode_utf8(raw)), s[i + 1] + 3))
        } else {
            Err(DecodeError::InvalidUtf8)
        }
    } else {
        Err(DecodeError::NotEnoughData)
    }
}

/// The auto-increment pair's value and size at `i`.
#[verifier::opaque]
pub open spec fn sv_spec_auto_increment(s: Seq<u8>, i: int, end: int) -> Result<
    (QueryStatusVarV, int),
    DecodeError,
> {
    if i + 5 <= end {
        Ok((
            QueryStatusVarV::Q_AUTO_INCREMENT(u16_at(s, i + 1) as u16, u16_at(s, i + 3) as u16),
            5,
        ))
    } else {
        Err(DecodeError::NotEnoughData)
    }
}

/// The charset triple's value and size at `i`.
#[verifier::opaque]
pub open spec fn sv_spec_charset(s: Seq<u8>, i: int, end: int) -> Result<
    (QueryStatusVarV, int),
    DecodeError,
> {
    if i + 7 <= end {
        Ok((
            QueryStatusVarV::Q_CHARSET_CODE(
                u16_at(s, i + 1) as u16,
                u16_at(s, i + 3) as u16,
                u16_at(s, i + 5) as u16,
            ),
            7,
        ))
    } else {
        Err(DecodeError::NotEnoughData)
    }
}

/// The time-zone or catalog-nz string's value and size at `i`.
#[verifier::opaque]
pub open spec fn sv_spec_prefixed_str(s: Seq<u8>, i: int, end: int) -> Result<
    (QueryStatusVarV, int),
    DecodeError,
> {
    if i + 2 <= end && i + 2 + s[i + 1] <= end {
        let raw = prefix_to_nul(s.subrange(i + 2, i + 2 + s[i + 1]));
        if valid_utf8(raw) {
            if s[i] == 0x05 {
                Ok((QueryStatusVarV::Q_TIME_ZONE_CODE(decode_utf8(raw)), s[i + 1] + 2))
            } else {
                Ok((QueryStatusVarV::Q_CATALOG_NZ_CODE(decode_utf8(raw)), s[i + 1] + 2))
            }
        } else {
            Err(DecodeError::InvalidUtf8)
        }
    } else {
        Err(DecodeError::NotEnoughData)
    }
}

/// The 16-bit locale or database-charset value and size at `i`.
#[verifier::opaque]
pub open spec fn sv_spec_u16_code(s: Seq<u8>, i: int, end: int) -> Result<
    (QueryStatusVarV, int),
    DecodeError,
> {
    if i + 3 <= end {
        if s[i] == 0x07 {
            Ok((QueryStatusVarV::Q_LC_TIME_NAMES_CODE(u16_at(s, i + 1) as u16), 3))
        } else {
            Ok((QueryStatusVarV::Q_CHARSET_DATABASE_CODE(u16_at(s, i + 1) as u16), 3))
        }
    } else {
        Err(DecodeError::NotEnoughData)
    }
}

/// The table-map-for-update value and size at `i`.
#[verifier::opaque]
pub open spec fn sv_spec_table_map_for_update(s: Seq<u8>, i: int, end: int) -> Result<
    (QueryStatusVarV, int),
    DecodeError,
> {
    if i + 9 <= end {
        Ok((QueryStatusVarV::Q_TABLE_MAP_FOR_UPDATE_CODE(u64_at(s, i + 1) as u64), 9))
    } else {
        Err(DecodeError::NotEnoughData)
    }
}

/// The master-data-written value and size at `i`.
#[verifier::opaque]
pub open spec fn sv_spec_master_data_written(s: Seq<u8>, i: int, end: int) -> Result<
    (QueryStatusVarV, int),
    DecodeError,
> {
    if i + 5 <= end {
        Ok((QueryStatusVarV::Q_MASTER_DATA_WRITTEN_CODE(u32_at(s, i + 1) as u32), 5))
    } else {
        Err(DecodeError::NotEnoughData)
    }
}

/// The invoker pair's value and size at `i`.
#[verifier::opaque]
pub open spec fn sv_spec_invokers(s: Seq<u8>, i: int, end: int) -> Result<
    (QueryStatusVarV, int),
    DecodeError,
> {
    if i + 2 <= end && i + 2 + s[i + 1] + 1 <= end && i + 3 + s[i + 1] + s[i + 2 + s[i + 1]]
        <= end {
        let l1 = s[i + 1] as int;
        let l2 = s[i + 2 + l1] as int;
        let user = s.subrange(i + 2, i + 2 + l1);
        let host = s.subrange(i + 3 + l1, i + 3 + l1 + l2);
        if valid_utf8(user) && valid_utf8(host) {
            Ok((QueryStatusVarV::Q_INVOKERS(decode_utf8(user), decode_utf8(host)), 3 + l1 + l2))
        } else {
            Err(DecodeError::InvalidUtf8)
        }
    } else {
        Err(DecodeError::NotEnoughData)
    }
}

/// The updated-database-name list's value and size at `i`.
#[verifier::opaque]
pub open spec fn sv_spec_db_names(s: Seq<u8>, i: int, end: int) -> Result<
    (QueryStatusVarV, int),
    DecodeError,
> {
    if i + 2 <= end {
        match spec_nul_names(s, i + 2, end, s[i + 1] as nat) {
            Ok(p) => Ok((QueryStatusVarV::Q_UPDATED_DB_NAMES(p.0), p.1 - i)),
            Err(e) => Err(e),
        }
    } else {
        Err(DecodeError::NotEnoughData)
    }
}

/// The microseconds value and size at `i`.
#[verifier::opaque]
pub open spec fn sv_spec_microseconds(s: Seq<u8>, i: int, end: int) -> Result<
    (QueryStatusVarV, int),
    DecodeError,
> {
    if i + 4 <= end {
        Ok((QueryStatusVarV::Q_MICROSECONDS(u24_at(s, i + 1) as u32), 4))
    } else {
        Err(DecodeError::NotEnoughData)
    }
}

/// One status variable at `i`, inside the sub-region ending at `end`: its
/// shadow record and the bytes it consumes, or the error met reading it.
pub open spec fn spec_status_var(s: Seq<u8>, i: int, end: int) -> Result<
    (QueryStatusVarV, int),
    DecodeError,
> {
    if !(0 <= i < end && end <= s.len()) {
        Err(DecodeError::NotEnoughData)
    } else {
        let key = s[i];
        if key == 0x00 {
            sv_spec_flags2(s, i, end)
        } else if key == 0x01 {
            sv_spec_sql_mode(s, i, end)
        } else if key == 0x02 {
            sv_spec_catalog(s, i, end)
        } else if key == 0x03 {
            sv_spec_auto_increment(s, i, end)
        } else if key == 0x04 {
            sv_spec_charset(s, i, end)
        } else if key == 0x05 || key == 0x06 {
            sv_spec_prefixed_str(s, i, end)
        } else if key == 0x07 || key == 0x08 {
            sv_spec_u16_code(s, i, end)
        } else if key == 0x09 {
            sv_spec_table_map_for_update(s, i, end)
        } else if key == 0x0a {
            sv_spec_master_data_written(s, i, end)
        } else if key == 0x0b {
            sv_spec_invokers(s, i, end)
        } else if key == 0x0c {
            sv_spec_db_names(s, i, end)
        } else if key == 0x0d {
            sv_spec_microseconds(s, i, end)
        } else {
            Err(DecodeError::InvalidData)
        }
    }
}

/// The whole status-variable chain of `[i, end)`, which it must fill exactly.
pub open spec fn spec_status_vars(s: Seq<u8>, i: int, end: int) -> Result<
    Seq<QueryStatusVarV>,
    DecodeError,
>
    decreases end - i,
{
    if i >= end {
        Ok(Seq::empty())
    } else {
        match spec_status_var(s, i, end) {
            Ok(p) => if p.1 < 1 || i + p.1 > end {
                Err(DecodeError::InvalidData)
            } else {
                match spec_status_vars(s, i + p.1, end) {
                    Ok(rest) => Ok(seq![p.0] + rest),
                    Err(e) => Err(e),
                }
            },
            Err(e) => Err(e),
        }
    }
}

/// A successful name list ends between its start and the region's end.
pub proof fn lemma_nul_names_bounds(s: Seq<u8>, i: int, end: int, count: nat)
    requires
        0 <= i <= end,
    ensures
        spec_nul_names(s, i, end, count) matches Ok(p) ==> i <= p.1 <= end,
    decreases count,
{
    if count > 0 {
        match first_nul_before(s, i, end) {
            Some(j) => {
                lemma_first_nul_before_in_range(s, i, end);
                lemma_nul_names_bounds(s, j + 1, end, (count - 1) as nat);
            },
            None => {},
        }
    }
}

/// A found terminator lies inside the region.
proof fn lemma_first_nul_before_in_range(s: Seq<u8>, i: int, end: int)
    requires
        0 <= i,
    ensures
        first_nul_before(s, i, end) matches Some(j) ==> i <= j < end && j < s.len(),
    decreases end - i,
{
    if 0 <= i && i < end && i < s.len() && s[i] != 0 {
        lemma_first_nul_before_in_range(s, i + 1, end);
    }
}

/// Scans for a terminator strictly before `end` and returns the bytes up to
/// it, advancing past it.
fn read_nul_term_before(cur: &mut Cursor, end: usize) -> (r: Result<Vec<u8>, DecodeError>)
    requires
        old(cur).wf(),
        end <= old(cur).data@.len(),
    ensures
        final(cur).data == old(cur).data,
        final(cur).wf(),
        first_nul_before(old(cur).data@, old(cur).pos as int, end as int) matches Some(j) ==> {
            &&& r is Ok
            &&& r->Ok_0@ == old(cur).data@.subrange(old(cur).pos as int, j)
            &&& final(cur).pos == j + 1
        },
        first_nul_before(old(cur).data@, old(cur).pos as int, end as int) is None ==> r == Err::<
            Vec<u8>,
            DecodeError,
        >(DecodeError::MissingNullTerminator) && final(cur).pos == old(cur).pos,
{
    let ghost start = cur.pos as int;
    let mut i: usize = 0;
    loop
        invariant
            cur.wf(),
            cur.data == old(cur).data,
            cur.pos == start,
            start == old(cur).pos,
            end <= cur.data@.len(),
            start + i <= cur.data@.len(),
            forall|k: int| start <= k < start + i ==> cur.data@[k] != 0,
        decreases cur.data@.len() - start - i,
    {
        if cur.pos + i >= end {
            proof {
                lemma_first_nul_before_none(cur.data@, start, end as int);
            }
            return Err(DecodeError::MissingNullTerminator);
        }
        if cur.data[cur.pos + i] == 0 {
            proof {
                lemma_first_nul_before_found(cur.data@, start, end as int, start + i);
            }
            let v = match cur.read_vec(i) {
                Ok(v) => v,
                Err(e) => {
                    return Err(e);
                },
            };
            let _ = cur.skip(1);
            return Ok(v);
        }
        i = i + 1;
    }
}

/// The views of a list of strings, in order.
pub open spec fn str_views(vs: Seq<String>) -> Seq<Seq<char>>
    decreases vs.len(),
{
    if vs.len() == 0 {
        Seq::empty()
    } else {
        str_views(vs.drop_last()).push(vs.last()@)
    }
}

/// Reads `count` null-terminated names before `end`.
pub(crate) fn read_nul_names(cur: &mut Cursor, end: usize, count: u32) -> (r: Result<Vec<String>, DecodeError>)
    requires
        old(cur).wf(),
        end <= old(cur).data@.len(),
    ensures
        final(cur).data == old(cur).data,
        final(cur).wf(),
        spec_nul_names(old(cur).data@, old(cur).pos as int, end as int, count as nat) matches Ok(p)
            ==> r is Ok && str_views(r->Ok_0@) == p.0 && final(cur).pos == p.1,
        spec_nul_names(old(cur).data@, old(cur).pos as int, end as int, count as nat) matches Err(e)
            ==> r == Err::<Vec<String>, DecodeError>(e),
{
    let ghost s = cur.data@;
    let mut names: Vec<String> = Vec::new();
    let ghost mut done: Seq<Seq<char>> = Seq::empty();
    let mut k: u32 = 0;
    while k < count
        invariant
            cur.wf(),
            cur.data == old(cur).data,
            end <= s.len(),
            s == cur.data@,
            k <= count,
            done == str_views(names@),
            match spec_nul_names(s, cur.pos as int, end as int, (count - k) as nat) {
                Ok(p) => spec_nul_names(s, old(cur).pos as int, end as int, count as nat) == Ok::<
                    _,
                    DecodeError,
                >((done + p.0, p.1)),
                Err(e) => spec_nul_names(s, old(cur).pos as int, end as int, count as nat) == Err::<
                    (Seq<Seq<char>>, int),
                    DecodeError,
                >(e),
            },
        decreases count - k,
    {
        let ghost pos0 = cur.pos as int;
        let ghost names0 = names@;
        let raw = match read_nul_term_before(cur, end) {
            Ok(v) => v,
            Err(e) => {
                return Err(e);
            },
        };
        let name = match crate::codec::vec_to_string(raw) {
            Ok(v) => v,
            Err(e) => {
                return Err(e);
            },
        };
        names.push(name);
        proof {
            let j = first_nul_before(s, pos0, end as int)->Some_0;
            let raw_s = s.subrange(pos0, j);
            let done0 = done;
            assert(names@.drop_last() =~= names0);
            done = done.push(decode_utf8(raw_s));
            assert(done == str_views(names@));
            match spec_nul_names(s, cur.pos as int, end as int, (count - k - 1) as nat) {
                Ok(p) => {
                    assert(spec_nul_names(s, pos0, end as int, (count - k) as nat) == Ok::<
                        _,
                        DecodeError,
                    >((seq![decode_utf8(raw_s)] + p.0, p.1)));
                    assert(done0 + (seq![decode_utf8(raw_s)] + p.0) =~= done + p.0);
                    assert(spec_nul_names(s, old(cur).pos as int, end as int, count as nat)
                        == Ok::<_, DecodeError>((done + p.0, p.1)));
                },
                Err(e) => {
                    assert(spec_nul_names(s, pos0, end as int, (count - k) as nat) == Err::<
                        (Seq<Seq<char>>, int),
                        DecodeError,
                    >(e));
                },
            }
        }
        k = k + 1;
    }
    proof {
        assert(done + Seq::<Seq<char>>::empty() =~= done);
    }
    Ok(names)
}

/// Whether bit `k` of `code` is set.
fn bit64(code: u64, k: u64) -> (b: bool)
    requires
        k < 64,
    ensures
        b == ((code >> k) % 2 == 1),
{
    (code >> k) % 2 == 1
}

/// Whether bit `k` of `code` is set.
fn bit32(code: u32, k: u32) -> (b: bool)
    requires
        k < 32,
    ensures
        b == ((code >> k) % 2 == 1),
{
    (code >> k) % 2 == 1
}

/// Builds the flags2 record from its 32-bit field.
fn build_flags2(code: u32) -> (r: Q_FLAGS2_CODE_VAL)
    ensures
        r == spec_flags2(code),
{
    proof {
        reveal(spec_flags2);
    }
    Q_FLAGS2_CODE_VAL {
        auto_is_null: bit32(code, 14),
        auto_commit: !bit32(code, 19),
        foreign_key_checks: !bit32(code, 26),
        unique_checks: !bit32(code, 27),
    }
}

/// Builds the sql_mode record from its 64-bit field.
#[verifier::spinoff_prover]
fn build_sql_mode(code: u64) -> (r: Q_SQL_MODE_CODE_VAL)
    ensures
        r == spec_sql_mode(code),
{
    proof {
        reveal(spec_sql_mode);
    }
    Q_SQL_MODE_CODE_VAL {
        real_as_float: bit64(code, 0),
        pipes_as_concat: bit64(code, 1),
        ansi_quotes: bit64(code, 2),
        ignore_space: bit64(code, 3),
        not_used: bit64(code, 4),
        only_full_group_by: bit64(code, 5),
        no_unsigned_subtraction: bit64(code, 6),
        no_dir_in_create: bit64(code, 7),
        postgresql: bit64(code, 8),
        oracle: bit64(code, 9),
        mssql: bit64(code, 10),
        db2: bit64(code, 11),
        maxdb: bit64(code, 12),
        no_key_options: bit64(code, 13),
        no_table_options: bit64(code, 14),
        no_field_options: bit64(code, 15),
        mysql323: bit64(code, 16),
        mysql40: bit64(code, 17),
        ansi: bit64(code, 18),
        no_auto_value_on_zero: bit64(code, 19),
        no_backslash_escapes: bit64(code, 20),
        strict_trans_tables: bit64(code, 21),
        strict_all_tables: bit64(code, 22),
        no_zero_in_date: bit64(code, 23),
        no_zero_date: bit64(code, 24),
        invalid_dates: bit64(code, 25),
        error_for_division_by_zero: bit64(code, 26),
        traditional: bit64(code, 27),
        no_auto_create_user: bit64(code, 28),
        high_not_precedence: bit64(code, 29),
        no_engine_substitution: bit64(code, 30),
        pad_char_to_full_length: bit64(code, 31),
    }
}

/// What every per-key decoder promises, stated of the key's own index.
pub open spec fn sv_post(
    s: Seq<u8>,
    i: int,
    end: int,
    r: Result<QueryStatusVar, DecodeError>,
    p_new: int,
) -> bool {
    match spec_status_var(s, i, end) {
        Ok(p) => {
            &&& r is Ok
            &&& r->Ok_0@ == p.0
            &&& p_new == i + p.1
            &&& p.1 >= 1
            &&& i + p.1 <= end
        },
        Err(e) => r == Err::<QueryStatusVar, DecodeError>(e),
    }
}

/// The flags2 status variable, after its key byte.
fn sv_flags2(cur: &mut Cursor, end: usize) -> (r: Result<QueryStatusVar, DecodeError>)
    requires
        old(cur).wf(),
        end <= old(cur).data@.len(),
        1 <= old(cur).pos <= end,
        old(cur).data@[old(cur).pos - 1] == 0x00,
    ensures
        final(cur).data == old(cur).data,
        final(cur).wf(),
        sv_post(old(cur).data@, old(cur).pos - 1, end as int, r, final(cur).pos as int),
{
    proof {
        reveal(sv_spec_flags2);
    }
    if end - cur.pos < 4 {
        return Err(DecodeError::NotEnoughData);
    }
    let code = match cur.read_u32() {
        Ok(v) => v,
        Err(e) => {
            return Err(e);
        },
    };
    Ok(QueryStatusVar::Q_FLAGS2_CODE(build_flags2(code)))
}

/// The sql_mode status variable, after its key byte.
fn sv_sql_mode(cur: &mut Cursor, end: usize) -> (r: Result<QueryStatusVar, DecodeError>)
    requires
        old(cur).wf(),
        end <= old(cur).data@.len(),
        1 <= old(cur).pos <= end,
        old(cur).data@[old(cur).pos - 1] == 0x01,
    ensures
        final(cur).data == old(cur).data,
        final(cur).wf(),
        sv_post(old(cur).data@, old(cur).pos - 1, end as int, r, final(cur).pos as int),
{
    proof {
        reveal(sv_spec_sql_mode);
    }
    if end - cur.pos < 8 {
        return Err(DecodeError::NotEnoughData);
    }
    let code = match cur.read_u64() {
        Ok(v) => v,
        Err(e) => {
            return Err(e);
        },
    };
    Ok(QueryStatusVar::Q_SQL_MODE_CODE(build_sql_mode(code)))
}

/// The catalog status variable: length, bytes, and a checked terminator.
fn sv_catalog(cur: &mut Cursor, end: usize) -> (r: Result<QueryStatusVar, DecodeError>)
    requires
        old(cur).wf(),
        end <= old(cur).data@.len(),
        1 <= old(cur).pos <= end,
        old(cur).data@[old(cur).pos - 1] == 0x02,
    ensures
        final(cur).data == old(cur).data,
        final(cur).wf(),
        sv_post(old(cur).data@, old(cur).pos - 1, end as int, r, final(cur).pos as int),
{
    proof {
        reveal(sv_spec_catalog);
    }
    if cur.pos >= end {
        return Err(DecodeError::NotEnoughData);
    }
    let len = match cur.read_u8() {
        Ok(v) => v,
        Err(e) => {
            return Err(e);
        },
    };
    if end - cur.pos < len as usize + 1 {
        return Err(DecodeError::NotEnoughData);
    }
    let raw = match cur.read_vec(len as usize) {
        Ok(v) => v,
        Err(e) => {
            return Err(e);
        },
    };
    let term = match cur.read_u8() {
        Ok(v) => v,
        Err(e) => {
            return Err(e);
        },
    };
    if term != 0 {
        return Err(DecodeError::InvalidData);
    }
    let val = match crate::codec::vec_to_string(raw) {
        Ok(v) => v,
        Err(e) => {
            return Err(e);
        },
    };
    Ok(QueryStatusVar::Q_CATALOG(val))
}

/// The auto-increment pair, after its key byte.
fn sv_auto_increment(cur: &mut Cursor, end: usize) -> (r: Result<QueryStatusVar, DecodeError>)
    requires
        old(cur).wf(),
        end <= old(cur).data@.len(),
        1 <= old(cur).pos <= end,
        old(cur).data@[old(cur).pos - 1] == 0x03,
    ensures
        final(cur).data == old(cur).data,
        final(cur).wf(),
        sv_post(old(cur).data@, old(cur).pos - 1, end as int, r, final(cur).pos as int),
{
    proof {
        reveal(sv_spec_auto_increment);
    }
    if end - cur.pos < 4 {
        return Err(DecodeError::NotEnoughData);
    }
    let incr = match cur.read_u16() {
        Ok(v) => v,
        Err(e) => {
            return Err(e);
        },
    };
    let offset = match cur.read_u16() {
        Ok(v) => v,
        Err(e) => {
            return Err(e);
        },
    };
    Ok(QueryStatusVar::Q_AUTO_INCREMENT(incr, offset))
}

/// The charset triple, after its key byte.
fn sv_charset(cur: &mut Cursor, end: usize) -> (r: Result<QueryStatusVar, DecodeError>)
    requires
        old(cur).wf(),
        end <= old(cur).data@.len(),
        1 <= old(cur).pos <= end,
        old(cur).data@[old(cur).pos - 1] == 0x04,
    ensures
        final(cur).data == old(cur).data,
        final(cur).wf(),
        sv_post(old(cur).data@, old(cur).pos - 1, end as int, r, final(cur).pos as int),
{
    proof {
        reveal(sv_spec_charset);
    }
    if end - cur.pos < 6 {
        return Err(DecodeError::NotEnoughData);
    }
    let client = match cur.read_u16() {
        Ok(v) => v,
        Err(e) => {
            return Err(e);
        },
    };
    let conn = match cur.read_u16() {
        Ok(v) => v,
        Err(e) => {
            return Err(e);
        },
    };
    let server = match cur.read_u16() {
        Ok(v) => v,
        Err(e) => {
            return Err(e);
        },
    };
    Ok(QueryStatusVar::Q_CHARSET_CODE(client, conn, server))
}

/// The time-zone and catalog-nz variables: a zero-padded, length-prefixed
/// string.
fn sv_prefixed_str(cur: &mut Cursor, end: usize) -> (r: Result<QueryStatusVar, DecodeError>)
    requires
        old(cur).wf(),
        end <= old(cur).data@.len(),
        1 <= old(cur).pos <= end,
        old(cur).data@[old(cur).pos - 1] == 0x05 || old(cur).data@[old(cur).pos - 1] == 0x06,
    ensures
        final(cur).data == old(cur).data,
        final(cur).wf(),
        sv_post(old(cur).data@, old(cur).pos - 1, end as int, r, final(cur).pos as int),
{
    proof {
        reveal(sv_spec_prefixed_str);
    }
    let tz = cur.data[cur.pos - 1] == 0x05;
    if cur.pos >= end {
        return Err(DecodeError::NotEnoughData);
    }
    let len = match cur.read_u8() {
        Ok(v) => v,
        Err(e) => {
            return Err(e);
        },
    };
    if end - cur.pos < len as usize {
        return Err(DecodeError::NotEnoughData);
    }
    let raw = match cur.read_vec(len as usize) {
        Ok(v) => v,
        Err(e) => {
            return Err(e);
        },
    };
    let head = crate::codec::extract_prefix(raw.as_slice());
    let val = match crate::codec::slice_to_string(head) {
        Ok(v) => v,
        Err(e) => {
            return Err(e);
        },
    };
    if tz {
        Ok(QueryStatusVar::Q_TIME_ZONE_CODE(val))
    } else {
        Ok(QueryStatusVar::Q_CATALOG_NZ_CODE(val))
    }
}

/// The two plain 16-bit variables.
fn sv_u16_code(cur: &mut Cursor, end: usize) -> (r: Result<QueryStatusVar, DecodeError>)
    requires
        old(cur).wf(),
        end <= old(cur).data@.len(),
        1 <= old(cur).pos <= end,
        old(cur).data@[old(cur).pos - 1] == 0x07 || old(cur).data@[old(cur).pos - 1] == 0x08,
    ensures
        final(cur).data == old(cur).data,
        final(cur).wf(),
        sv_post(old(cur).data@, old(cur).pos - 1, end as int, r, final(cur).pos as int),
{
    proof {
        reveal(sv_spec_u16_code);
    }
    let lc = cur.data[cur.pos - 1] == 0x07;
    if end - cur.pos < 2 {
        return Err(DecodeError::NotEnoughData);
    }
    let v = match cur.read_u16() {
        Ok(v) => v,
        Err(e) => {
            return Err(e);
        },
    };
    if lc {
        Ok(QueryStatusVar::Q_LC_TIME_NAMES_CODE(v))
    } else {
        Ok(QueryStatusVar::Q_CHARSET_DATABASE_CODE(v))
    }
}

/// The table-map-for-update variable, after its key byte.
fn sv_table_map_for_update(cur: &mut Cursor, end: usize) -> (r: Result<
    QueryStatusVar,
    DecodeError,
>)
    requires
        old(cur).wf(),
        end <= old(cur).data@.len(),
        1 <= old(cur).pos <= end,
        old(cur).data@[old(cur).pos - 1] == 0x09,
    ensures
        final(cur).data == old(cur).data,
        final(cur).wf(),
        sv_post(old(cur).data@, old(cur).pos - 1, end as int, r, final(cur).pos as int),
{
    proof {
        reveal(sv_spec_table_map_for_update);
    }
    if end - cur.pos < 8 {
        return Err(DecodeError::NotEnoughData);
    }
    let v = match cur.read_u64() {
        Ok(v) => v,
        Err(e) => {
            return Err(e);
        },
    };
    Ok(QueryStatusVar::Q_TABLE_MAP_FOR_UPDATE_CODE(v))
}

/// The master-data-written variable, after its key byte.
fn sv_master_data_written(cur: &mut Cursor, end: usize) -> (r: Result<QueryStatusVar, DecodeError>)
    requires
        old(cur).wf(),
        end <= old(cur).data@.len(),
        1 <= old(cur).pos <= end,
        old(cur).data@[old(cur).pos - 1] == 0x0a,
    ensures
        final(cur).data == old(cur).data,
        final(cur).wf(),
        sv_post(old(cur).data@, old(cur).pos - 1, end as int, r, final(cur).pos as int),
{
    proof {
        reveal(sv_spec_master_data_written);
    }
    if end - cur.pos < 4 {
        return Err(DecodeError::NotEnoughData);
    }
    let v = match cur.read_u32() {
        Ok(v) => v,
        Err(e) => {
            return Err(e);
        },
    };
    Ok(QueryStatusVar::Q_MASTER_DATA_WRITTEN_CODE(v))
}

/// The invoker pair: two length-prefixed strings.
fn sv_invokers(cur: &mut Cursor, end: usize) -> (r: Result<QueryStatusVar, DecodeError>)
    requires
        old(cur).wf(),
        end <= old(cur).data@.len(),
        1 <= old(cur).pos <= end,
        old(cur).data@[old(cur).pos - 1] == 0x0b,
    ensures
        final(cur).data == old(cur).data,
        final(cur).wf(),
        sv_post(old(cur).data@, old(cur).pos - 1, end as int, r, final(cur).pos as int),
{
    proof {
        reveal(sv_spec_invokers);
    }
    if cur.pos >= end {
        return Err(DecodeError::NotEnoughData);
    }
    let l1 = match cur.read_u8() {
        Ok(v) => v,
        Err(e) => {
            return Err(e);
        },
    };
    if end - cur.pos < l1 as usize + 1 {
        return Err(DecodeError::NotEnoughData);
    }
    let user_raw = match cur.read_vec(l1 as usize) {
        Ok(v) => v,
        Err(e) => {
            return Err(e);
        },
    };
    let l2 = match cur.read_u8() {
        Ok(v) => v,
        Err(e) => {
            return Err(e);
        },
    };
    if end - cur.pos < l2 as usize {
        return Err(DecodeError::NotEnoughData);
    }
    let host_raw = match cur.read_vec(l2 as usize) {
        Ok(v) => v,
        Err(e) => {
            return Err(e);
        },
    };
    let user = match crate::codec::vec_to_string(user_raw) {
        Ok(v) => v,
        Err(e) => {
            return Err(e);
        },
    };
    let host = match crate::codec::vec_to_string(host_raw) {
        Ok(v) => v,
        Err(e) => {
            return Err(e);
        },
    };
    Ok(QueryStatusVar::Q_INVOKERS(user, host))
}

/// The updated-database-name list: a count, then that many terminated names.
fn sv_db_names(cur: &mut Cursor, end: usize) -> (r: Result<QueryStatusVar, DecodeError>)
    requires
        old(cur).wf(),
        end <= old(cur).data@.len(),
        1 <= old(cur).pos <= end,
        old(cur).data@[old(cur).pos - 1] == 0x0c,
    ensures
        final(cur).data == old(cur).data,
        final(cur).wf(),
        sv_post(old(cur).data@, old(cur).pos - 1, end as int, r, final(cur).pos as int),
{
    proof {
        reveal(sv_spec_db_names);
    }
    let ghost s = cur.data@;
    let ghost i = cur.pos - 1;
    if cur.pos >= end {
        return Err(DecodeError::NotEnoughData);
    }
    let count = match cur.read_u8() {
        Ok(v) => v,
        Err(e) => {
            return Err(e);
        },
    };
    proof {
        lemma_nul_names_bounds(s, i + 2, end as int, count as nat);
    }
    let names = match read_nul_names(cur, end, count as u32) {
        Ok(v) => v,
        Err(e) => {
            return Err(e);
        },
    };
    Ok(QueryStatusVar::Q_UPDATED_DB_NAMES(names))
}

/// The microseconds variable: a 24-bit value.
fn sv_microseconds(cur: &mut Cursor, end: usize) -> (r: Result<QueryStatusVar, DecodeError>)
    requires
        old(cur).wf(),
        end <= old(cur).data@.len(),
        1 <= old(cur).pos <= end,
        old(cur).data@[old(cur).pos - 1] == 0x0d,
    ensures
        final(cur).data == old(cur).data,
        final(cur).wf(),
        sv_post(old(cur).data@, old(cur).pos - 1, end as int, r, final(cur).pos as int),
{
    proof {
        reveal(sv_spec_microseconds);
    }
    if end - cur.pos < 3 {
        return Err(DecodeError::NotEnoughData);
    }
    let v = match cur.read_u24() {
        Ok(v) => v,
        Err(e) => {
            return Err(e);
        },
    };
    Ok(QueryStatusVar::Q_MICROSECONDS(v))
}

/// Decodes one status variable, staying inside the sub-region ending at
/// `end`.
pub fn parse_status_var(cur: &mut Cursor, end: usize) -> (r: Result<QueryStatusVar, DecodeError>)
    requires
        old(cur).wf(),
        end <= old(cur).data@.len(),
    ensures
        final(cur).data == old(cur).data,
        final(cur).wf(),
        spec_status_var(old(cur).data@, old(cur).pos as int, end as int) matches Ok(p) ==> {
            &&& r is Ok
            &&& r->Ok_0@ == p.0
            &&& final(cur).pos == old(cur).pos + p.1
            &&& p.1 >= 1
            &&& old(cur).pos + p.1 <= end
        },
        spec_status_var(old(cur).data@, old(cur).pos as int, end as int) matches Err(e) ==> r
            == Err::<QueryStatusVar, DecodeError>(e),
{
    if cur.pos >= end {
        return Err(DecodeError::NotEnoughData);
    }
    let key = match cur.read_u8() {
        Ok(v) => v,
        Err(e) => {
            return Err(e);
        },
    };
    if key == 0x00 {
        sv_flags2(cur, end)
    } else if key == 0x01 {
        sv_sql_mode(cur, end)
    } else if key == 0x02 {
        sv_catalog(cur, end)
    } else if key == 0x03 {
        sv_auto_increment(cur, end)
    } else if key == 0x04 {
        sv_charset(cur, end)
    } else if key == 0x05 || key == 0x06 {
        sv_prefixed_str(cur, end)
    } else if key == 0x07 || key == 0x08 {
        sv_u16_code(cur, end)
    } else if key == 0x09 {
        sv_table_map_for_update(cur, end)
    } else if key == 0x0a {
        sv_master_data_written(cur, end)
    } else if key == 0x0b {
        sv_invokers(cur, end)
    } else if key == 0x0c {
        sv_db_names(cur, end)
    } else if key == 0x0d {
        sv_microseconds(cur, end)
    } else {
        Err(DecodeError::InvalidData)
    }
}
/// The views of a list of status variables, in order.
pub open spec fn var_views(vs: Seq<QueryStatusVar>) -> Seq<QueryStatusVarV>
    decreases vs.len(),
{
    if vs.len() == 0 {
        Seq::empty()
    } else {
        var_views(vs.drop_last()).push(vs.last()@)
    }
}

/// Decodes the whole status-variable chain of the sub-region `[pos, end)`,
/// which must be consumed exactly.
pub fn parse_status_vars(cur: &mut Cursor, end: usize) -> (r: Result<
    Vec<QueryStatusVar>,
    DecodeError,
>)
    requires
        old(cur).wf(),
        end <= old(cur).data@.len(),
        old(cur).pos <= end,
    ensures
        final(cur).data == old(cur).data,
        final(cur).wf(),
        spec_status_vars(old(cur).data@, old(cur).pos as int, end as int) matches Ok(vs) ==> {
            &&& r is Ok
            &&& var_views(r->Ok_0@) == vs
            &&& final(cur).pos == end
        },
        spec_status_vars(old(cur).data@, old(cur).pos as int, end as int) matches Err(e) ==> r
            == Err::<Vec<QueryStatusVar>, DecodeError>(e),
{
    let ghost s = cur.data@;
    let mut vars: Vec<QueryStatusVar> = Vec::new();
    let ghost mut done: Seq<QueryStatusVarV> = Seq::empty();
    while cur.pos < end
        invariant
            cur.wf(),
            cur.data == old(cur).data,
            s == cur.data@,
            cur.pos <= end <= s.len(),
            done == var_views(vars@),
            match spec_status_vars(s, cur.pos as int, end as int) {
                Ok(rest) => spec_status_vars(s, old(cur).pos as int, end as int) == Ok::<
                    _,
                    DecodeError,
                >(done + rest),
                Err(e) => spec_status_vars(s, old(cur).pos as int, end as int) == Err::<
                    Seq<QueryStatusVarV>,
                    DecodeError,
                >(e),
            },
        decreases end - cur.pos,
    {
        let ghost pos0 = cur.pos as int;
        let ghost vars0 = vars@;
        let var = match parse_status_var(cur, end) {
            Ok(v) => v,
            Err(e) => {
                return Err(e);
            },
        };
        vars.push(var);
        proof {
            let p = spec_status_var(s, pos0, end as int)->Ok_0;
            let done0 = done;
            assert(vars@.drop_last() =~= vars0);
            done = done.push(p.0);
            assert(done == var_views(vars@));
            match spec_status_vars(s, cur.pos as int, end as int) {
                Ok(rest) => {
                    assert(spec_status_vars(s, pos0, end as int) == Ok::<_, DecodeError>(
                        seq![p.0] + rest,
                    ));
                    assert(done0 + (seq![p.0] + rest) =~= done + rest);
                    assert(spec_status_vars(s, old(cur).pos as int, end as int) == Ok::<
                        _,
                        DecodeError,
                    >(done + rest));
                },
                Err(e) => {
                    assert(spec_status_vars(s, pos0, end as int) == Err::<
                        Seq<QueryStatusVarV>,
                        DecodeError,
                    >(e));
                },
            }
        }
    }
    proof {
        assert(done + Seq::<QueryStatusVarV>::empty() =~= done);
    }
    Ok(vars)
}

} // verus!

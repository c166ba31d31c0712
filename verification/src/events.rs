//! The binlog event format: the 19-byte event header, the tagged event
//! record, and one decoder per event kind. Every decoder consumes exactly
//! `event_size - 19` bytes on success and leaves the trailing 4-byte checksum
//! as the last field of the returned record.

use vstd::prelude::*;
use vstd::utf8::{decode_utf8, valid_utf8};

use crate::codec::{u16_at, u32_at, u48_at, u64_at, Cursor, DecodeError};
use crate::query::QueryStatusVar;
use crate::rows::{ExtraData, Flags};
use crate::context::TableMapContext;
use crate::mysql::{ColTypes, ColValues};

verus! {

/// The event header's flag bitfield, one name per bit, low bit first.
#[derive(Debug, Clone, Copy, PartialEq, Eq, Structural)]
pub struct EventFlag {
    pub in_use: bool,
    pub forced_rotate: bool,
    pub thread_specific: bool,
    pub suppress_use: bool,
    pub update_table_map_version: bool,
    pub artificial: bool,
    pub relay_log: bool,
    pub ignorable: bool,
    pub no_filter: bool,
    pub mts_isolate: bool,
}

/// The flag record a 16-bit field denotes.
pub open spec fn spec_event_flag(f: u16) -> EventFlag {
    EventFlag {
        in_use: (f >> 0u16) % 2 == 1,
        forced_rotate: (f >> 1u16) % 2 == 1,
        thread_specific: (f >> 2u16) % 2 == 1,
        suppress_use: (f >> 3u16) % 2 == 1,
        update_table_map_version: (f >> 4u16) % 2 == 1,
        artificial: (f >> 5u16) % 2 == 1,
        relay_log: (f >> 6u16) % 2 == 1,
        ignorable: (f >> 7u16) % 2 == 1,
        no_filter: (f >> 8u16) % 2 == 1,
        mts_isolate: (f >> 9u16) % 2 == 1,
    }
}

impl EventFlag {
    pub fn from_bits(f: u16) -> (r: EventFlag)
        ensures
            r == spec_event_flag(f),
    {
        EventFlag {
            in_use: (f >> 0u16) % 2 == 1,
            forced_rotate: (f >> 1u16) % 2 == 1,
            thread_specific: (f >> 2u16) % 2 == 1,
            suppress_use: (f >> 3u16) % 2 == 1,
            update_table_map_version: (f >> 4u16) % 2 == 1,
            artificial: (f >> 5u16) % 2 == 1,
            relay_log: (f >> 6u16) % 2 == 1,
            ignorable: (f >> 7u16) % 2 == 1,
            no_filter: (f >> 8u16) % 2 == 1,
            mts_isolate: (f >> 9u16) % 2 == 1,
        }
    }
}

/// The fixed 19-byte header every event begins with.
#[derive(Debug, Clone, Copy, PartialEq, Eq, Structural)]
pub struct Header {
    pub timestamp: u32,
    pub event_type: u8,
    pub server_id: u32,
    pub event_size: u32,
    pub log_pos: u32,
    pub flags: EventFlag,
}

/// The header denoted by the 19 bytes at `i`.
pub open spec fn header_matches(s: Seq<u8>, i: int, h: Header) -> bool {
    &&& (h.timestamp as nat) == u32_at(s, i)
    &&& h.event_type == s[i + 4]
    &&& (h.server_id as nat) == u32_at(s, i + 5)
    &&& (h.event_size as nat) == u32_at(s, i + 9)
    &&& (h.log_pos as nat) == u32_at(s, i + 13)
    &&& h.flags == spec_event_flag((u16_at(s, i + 17) as u16))
}

pub fn parse_header(cur: &mut Cursor) -> (r: Result<Header, DecodeError>)
    requires
        old(cur).wf(),
    ensures
        final(cur).data == old(cur).data,
        final(cur).wf(),
        old(cur).remaining_spec() >= 19 ==> {
            &&& r is Ok
            &&& header_matches(old(cur).data@, old(cur).pos as int, r->Ok_0)
            &&& final(cur).pos == old(cur).pos + 19
        },
        old(cur).remaining_spec() < 19 ==> r == Err::<Header, DecodeError>(
            DecodeError::NotEnoughData,
        ) && final(cur).pos == old(cur).pos,
{
    if cur.remaining() < 19 {
        return Err(DecodeError::NotEnoughData);
    }
    let timestamp = match cur.read_u32() {
        Ok(v) => v,
        Err(e) => {
            return Err(e);
        },
    };
    let event_type = match cur.read_u8() {
        Ok(v) => v,
        Err(e) => {
            return Err(e);
        },
    };
    let server_id = match cur.read_u32() {
        Ok(v) => v,
        Err(e) => {
            return Err(e);
        },
    };
    let event_size = match cur.read_u32() {
        Ok(v) => v,
        Err(e) => {
            return Err(e);
        },
    };
    let log_pos = match cur.read_u32() {
        Ok(v) => v,
        Err(e) => {
            return Err(e);
        },
    };
    let f = match cur.read_u16() {
        Ok(v) => v,
        Err(e) => {
            return Err(e);
        },
    };
    let flags = EventFlag::from_bits(f);
    Ok(Header { timestamp, event_type, server_id, event_size, log_pos, flags })
}

/// The four magic bytes a binlog file begins with.
pub fn check_start(cur: &mut Cursor) -> (r: Result<(), DecodeError>)
    requires
        old(cur).wf(),
    ensures
        final(cur).data == old(cur).data,
        final(cur).wf(),
        old(cur).remaining_spec() < 4 ==> r == Err::<(), DecodeError>(DecodeError::NotEnoughData)
            && final(cur).pos == old(cur).pos,
        old(cur).remaining_spec() >= 4 ==> {
            let magic = old(cur).data@.subrange(old(cur).pos as int, old(cur).pos + 4);
            &&& magic =~= seq![254u8, 98u8, 105u8, 110u8] ==> r is Ok && final(cur).pos == old(cur).pos + 4
            &&& !(magic =~= seq![254u8, 98u8, 105u8, 110u8]) ==> r == Err::<(), DecodeError>(
                DecodeError::InvalidData,
            ) && final(cur).pos == old(cur).pos
        },
{
    let ghost s = cur.data@;
    let ghost p = cur.pos as int;
    if cur.remaining() < 4 {
        return Err(DecodeError::NotEnoughData);
    }
    let b0 = cur.data[cur.pos];
    let b1 = cur.data[cur.pos + 1];
    let b2 = cur.data[cur.pos + 2];
    let b3 = cur.data[cur.pos + 3];
    if b0 == 254 && b1 == 98 && b2 == 105 && b3 == 110 {
        let _ = cur.skip(4);
        proof {
            assert(s.subrange(p, p + 4) =~= seq![254u8, 98u8, 105u8, 110u8]);
        }
        Ok(())
    } else {
        proof {
            assert(!(s.subrange(p, p + 4) =~= seq![254u8, 98u8, 105u8, 110u8])) by {
                assert(s.subrange(p, p + 4)[0] == b0 && s.subrange(p, p + 4)[1] == b1
                    && s.subrange(p, p + 4)[2] == b2 && s.subrange(p, p + 4)[3] == b3);
            }
        }
        Err(DecodeError::InvalidData)
    }
}

#[derive(Debug, Clone, Copy, PartialEq, Eq, Structural)]
pub enum IntVarEventType {
    InvalidIntEvent,
    LastInsertIdEvent,
    InsertIdEvent,
}

#[derive(Debug, Clone, Copy, PartialEq, Eq, Structural)]
pub struct EmptyFlags {
    pub field_term_empty: bool,
    pub enclosed_empty: bool,
    pub line_term_empty: bool,
    pub line_start_empty: bool,
    pub escape_empty: bool,
}

#[derive(Debug, Clone, Copy, PartialEq, Eq, Structural)]
pub struct OptFlags {
    pub dump_file: bool,
    pub opt_enclosed: bool,
    pub replace: bool,
    pub ignore: bool,
}

#[derive(Debug, Clone, Copy, PartialEq, Eq, Structural)]
pub enum DupHandlingFlags {
    Error,
    Ignore,
    Replace,
}

#[derive(Debug, Clone, Copy, PartialEq, Eq, Structural)]
pub enum IncidentEventType {
    NoIncident,
    LostEvents,
}

/// One parsed binlog event: the header plus a kind-specific payload, with the
/// trailing 4-byte checksum kept as an opaque field.
#[derive(Debug, Clone, PartialEq, Eq)]
pub enum Event {
    Unknown {
        header: Header,
        payload: Vec<u8>,
        checksum: u32,
    },
    Query {
        header: Header,
        slave_proxy_id: u32,
        execution_time: u32,
        schema_length: u8,
        error_code: u16,
        status_vars_length: u16,
        status_vars: Vec<QueryStatusVar>,
        schema: String,
        query: String,
        checksum: u32,
    },
    Stop {
        header: Header,
        checksum: u32,
    },
    Rotate {
        header: Header,
        position: u64,
        next_binlog: String,
        checksum: u32,
    },
    IntVar {
        header: Header,
        e_type: IntVarEventType,
        value: u64,
        checksum: u32,
    },
    Load {
        header: Header,
        thread_id: u32,
        execution_time: u32,
        skip_lines: u32,
        table_name_length: u8,
        schema_length: u8,
        num_fields: u32,
        field_term: u8,
        enclosed_by: u8,
        line_term: u8,
        line_start: u8,
        escaped_by: u8,
        opt_flags: OptFlags,
        empty_flags: EmptyFlags,
        field_name_lengths: Vec<u8>,
        field_names: Vec<String>,
        table_name: String,
        schema_name: String,
        file_name: String,
        checksum: u32,
    },
    Slave {
        header: Header,
        checksum: u32,
    },
    CreateFile {
        header: Header,
        file_id: u32,
        block_data: String,
        checksum: u32,
    },
    AppendFile {
        header: Header,
        file_id: u32,
        block_data: String,
        checksum: u32,
    },
    ExecLoad {
        header: Header,
        file_id: u16,
        checksum: u32,
    },
    DeleteFile {
        header: Header,
        file_id: u16,
        checksum: u32,
    },
    NewLoad {
        header: Header,
        thread_id: u32,
        execution_time: u32,
        skip_lines: u32,
        table_name_length: u8,
        schema_length: u8,
        num_fields: u32,
        field_term_length: u8,
        field_term: String,
        enclosed_by_length: u8,
        enclosed_by: String,
        line_term_length: u8,
        line_term: String,
        line_start_length: u8,
        line_start: String,
        escaped_by_length: u8,
        escaped_by: String,
        opt_flags: OptFlags,
        field_name_lengths: Vec<u8>,
        field_names: Vec<String>,
        table_name: String,
        schema_name: String,
        file_name: String,
        checksum: u32,
    },
    Rand {
        header: Header,
        seed1: u64,
        seed2: u64,
        checksum: u32,
    },
    UserVar {
        header: Header,
        name_length: u32,
        name: String,
        is_null: bool,
        d_type: Option<u8>,
        charset: Option<u32>,
        value_length: Option<u32>,
        value: Option<Vec<u8>>,
        flags: Option<u8>,
        checksum: u32,
    },
    FormatDesc {
        header: Header,
        binlog_version: u16,
        mysql_server_version: String,
        create_timestamp: u32,
        event_header_length: u8,
        supported_types: Vec<u8>,
        checksum_alg: u8,
        checksum: u32,
    },
    XID {
        header: Header,
        xid: u64,
        checksum: u32,
    },
    BeginLoadQuery {
        header: Header,
        file_id: u32,
        block_data: String,
        checksum: u32,
    },
    ExecuteLoadQueryEvent {
        header: Header,
        thread_id: u32,
        execution_time: u32,
        schema_length: u8,
        error_code: u16,
        status_vars_length: u16,
        file_id: u32,
        start_pos: u32,
        end_pos: u32,
        dup_handling_flags: DupHandlingFlags,
        checksum: u32,
    },
    TableMap {
        header: Header,
        table_id: u64,
        flags: u16,
        schema_length: u8,
        schema: String,
        table_name_length: u8,
        table_name: String,
        column_count: u64,
        columns_type: Vec<ColTypes>,
        null_bits: Vec<u8>,
        checksum: u32,
    },
    Incident {
        header: Header,
        d_type: IncidentEventType,
        message_length: u8,
        message: String,
        checksum: u32,
    },
    Heartbeat {
        header: Header,
        checksum: u32,
    },
    RowQuery {
        header: Header,
        length: u8,
        query_text: String,
        checksum: u32,
    },
    Gtid {
        header: Header,
        rbr_only: bool,
        source_id: String,
        transaction_id: String,
        ts_type: u8,
        last_committed: i64,
        sequence_number: i64,
        checksum: u32,
    },
    AnonymousGtid {
        header: Header,
        rbr_only: bool,
        source_id: String,
        transaction_id: String,
        ts_type: u8,
        last_committed: i64,
        sequence_number: i64,
        checksum: u32,
    },
    PreviousGtids {
        header: Header,
        gtid_sets: Vec<u8>,
        buf_size: u32,
        checksum: u32,
    },
    WriteRowsV2 {
        header: Header,
        table_id: u64,
        flags: Flags,
        extra_data_len: u16,
        extra_data: Vec<ExtraData>,
        column_count: u64,
        inserted_image_bits: Vec<u8>,
        rows: Vec<Vec<ColValues>>,
        checksum: u32,
    },
    UpdateRowsV2 {
        header: Header,
        table_id: u64,
        flags: Flags,
        extra_data_len: u16,
        extra_data: Vec<ExtraData>,
        column_count: u64,
        before_image_bits: Vec<u8>,
        after_image_bits: Vec<u8>,
        rows: Vec<Vec<ColValues>>,
        checksum: u32,
    },
    DeleteRowsV2 {
        header: Header,
        table_id: u64,
        flags: Flags,
        extra_data_len: u16,
        extra_data: Vec<ExtraData>,
        column_count: u64,
        deleted_image_bits: Vec<u8>,
        rows: Vec<Vec<ColValues>>,
        checksum: u32,
    },
}

/// The payload region of an event: what remains of `event_size` after the
/// header, or nothing if the size claims less than a header.
pub open spec fn body_len(h: Header) -> int {
    h.event_size - 19
}

pub open spec fn unknown_wf(s: Seq<u8>, i: int, h: Header) -> bool {
    &&& body_len(h) >= 4
    &&& i + body_len(h) <= s.len()
}

pub open spec fn unknown_matches(s: Seq<u8>, i: int, h: Header, e: Event) -> bool {
    e matches Event::Unknown { header, payload, checksum } && header == h && payload@
        == s.subrange(i, i + body_len(h) - 4) && (checksum as nat) == u32_at(
        s,
        i + body_len(h) - 4,
    )
}

/// Any event whose type code is not recognised is kept opaque rather than
/// rejected, for forward compatibility.
pub fn parse_unknown(cur: &mut Cursor, header: Header) -> (r: Result<Event, DecodeError>)
    requires
        old(cur).wf(),
    ensures
        final(cur).data == old(cur).data,
        final(cur).wf(),
        r is Ok <==> unknown_wf(old(cur).data@, old(cur).pos as int, header),
        r is Ok ==> unknown_matches(old(cur).data@, old(cur).pos as int, header, r->Ok_0)
            && final(cur).pos == old(cur).pos + body_len(header),
        r is Err ==> final(cur).pos == old(cur).pos && r->Err_0 == (if body_len(header) < 4 {
            DecodeError::InvalidData
        } else {
            DecodeError::NotEnoughData
        }),
{
    if header.event_size < 23 {
        return Err(DecodeError::InvalidData);
    }
    let blen = (header.event_size - 19) as usize;
    if cur.remaining() < blen {
        return Err(DecodeError::NotEnoughData);
    }
    let payload = match cur.read_vec(blen - 4) {
        Ok(v) => v,
        Err(e) => {
            return Err(e);
        },
    };
    let checksum = match cur.read_u32() {
        Ok(v) => v,
        Err(e) => {
            return Err(e);
        },
    };
    Ok(Event::Unknown { header, payload, checksum })
}

/// An event whose payload is the checksum alone.
pub open spec fn bare_wf(s: Seq<u8>, i: int, h: Header) -> bool {
    &&& body_len(h) == 4
    &&& i + 4 <= s.len()
}

pub open spec fn bare_err(s: Seq<u8>, i: int, h: Header) -> DecodeError {
    if body_len(h) != 4 {
        DecodeError::InvalidData
    } else {
        DecodeError::NotEnoughData
    }
}

/// Reads the lone checksum of a payload-less event.
fn parse_checksum_only(cur: &mut Cursor, header: &Header) -> (r: Result<u32, DecodeError>)
    requires
        old(cur).wf(),
    ensures
        final(cur).data == old(cur).data,
        final(cur).wf(),
        r is Ok <==> bare_wf(old(cur).data@, old(cur).pos as int, *header),
        r is Ok ==> (r->Ok_0 as nat) == u32_at(old(cur).data@, old(cur).pos as int) && final(cur).pos == old(cur).pos + 4,
        r is Err ==> final(cur).pos == old(cur).pos && r->Err_0 == bare_err(
            old(cur).data@,
            old(cur).pos as int,
            *header,
        ),
{
    if header.event_size != 23 {
        return Err(DecodeError::InvalidData);
    }
    if cur.remaining() < 4 {
        return Err(DecodeError::NotEnoughData);
    }
    cur.read_u32()
}

pub open spec fn stop_matches(s: Seq<u8>, i: int, h: Header, e: Event) -> bool {
    e matches Event::Stop { header, checksum } && header == h && (checksum as nat) == u32_at(s, i)
}

pub fn parse_stop(cur: &mut Cursor, header: Header) -> (r: Result<Event, DecodeError>)
    requires
        old(cur).wf(),
    ensures
        final(cur).data == old(cur).data,
        final(cur).wf(),
        r is Ok <==> bare_wf(old(cur).data@, old(cur).pos as int, header),
        r is Ok ==> stop_matches(old(cur).data@, old(cur).pos as int, header, r->Ok_0) && final(cur).pos == old(cur).pos + 4,
        r is Err ==> final(cur).pos == old(cur).pos && r->Err_0 == bare_err(
            old(cur).data@,
            old(cur).pos as int,
            header,
        ),
{
    let checksum = match parse_checksum_only(cur, &header) {
        Ok(v) => v,
        Err(e) => {
            return Err(e);
        },
    };
    Ok(Event::Stop { header, checksum })
}

pub open spec fn slave_matches(s: Seq<u8>, i: int, h: Header, e: Event) -> bool {
    e matches Event::Slave { header, checksum } && header == h && (checksum as nat) == u32_at(s, i)
}

pub fn parse_slave(cur: &mut Cursor, header: Header) -> (r: Result<Event, DecodeError>)
    requires
        old(cur).wf(),
    ensures
        final(cur).data == old(cur).data,
        final(cur).wf(),
        r is Ok <==> bare_wf(old(cur).data@, old(cur).pos as int, header),
        r is Ok ==> slave_matches(old(cur).data@, old(cur).pos as int, header, r->Ok_0) && final(cur).pos == old(cur).pos + 4,
        r is Err ==> final(cur).pos == old(cur).pos && r->Err_0 == bare_err(
            old(cur).data@,
            old(cur).pos as int,
            header,
        ),
{
    let checksum = match parse_checksum_only(cur, &header) {
        Ok(v) => v,
        Err(e) => {
            return Err(e);
        },
    };
    Ok(Event::Slave { header, checksum })
}

pub open spec fn heartbeat_matches(s: Seq<u8>, i: int, h: Header, e: Event) -> bool {
    e matches Event::Heartbeat { header, checksum } && header == h && (checksum as nat) == u32_at(
        s,
        i,
    )
}

pub fn parse_heartbeat(cur: &mut Cursor, header: Header) -> (r: Result<Event, DecodeError>)
    requires
        old(cur).wf(),
    ensures
        final(cur).data == old(cur).data,
        final(cur).wf(),
        r is Ok <==> bare_wf(old(cur).data@, old(cur).pos as int, header),
        r is Ok ==> heartbeat_matches(old(cur).data@, old(cur).pos as int, header, r->Ok_0)
            && final(cur).pos == old(cur).pos + 4,
        r is Err ==> final(cur).pos == old(cur).pos && r->Err_0 == bare_err(
            old(cur).data@,
            old(cur).pos as int,
            header,
        ),
{
    let checksum = match parse_checksum_only(cur, &header) {
        Ok(v) => v,
        Err(e) => {
            return Err(e);
        },
    };
    Ok(Event::Heartbeat { header, checksum })
}

/// An event with a fixed payload of `n` value bytes plus the checksum.
pub open spec fn fixed_wf(s: Seq<u8>, i: int, h: Header, n: int) -> bool {
    &&& body_len(h) == n + 4
    &&& i + n + 4 <= s.len()
}

pub open spec fn fixed_err(s: Seq<u8>, i: int, h: Header, n: int) -> DecodeError {
    if body_len(h) != n + 4 {
        DecodeError::InvalidData
    } else {
        DecodeError::NotEnoughData
    }
}

/// Checks the exact payload size of a fixed-shape event and that it is all
/// present.
fn require_fixed(cur: &Cursor, header: &Header, n: u32) -> (r: Result<(), DecodeError>)
    requires
        cur.wf(),
        n <= 0xffff,
    ensures
        r is Ok <==> fixed_wf(cur.data@, cur.pos as int, *header, n as int),
        r is Err ==> r->Err_0 == fixed_err(cur.data@, cur.pos as int, *header, n as int),
{
    if header.event_size != 19 + n + 4 {
        return Err(DecodeError::InvalidData);
    }
    if cur.remaining() < (n + 4) as usize {
        return Err(DecodeError::NotEnoughData);
    }
    Ok(())
}

pub open spec fn xid_matches(s: Seq<u8>, i: int, h: Header, e: Event) -> bool {
    e matches Event::XID { header, xid, checksum } && header == h && (xid as nat) == u64_at(s, i)
        && (checksum as nat) == u32_at(s, i + 8)
}

pub fn parse_xid(cur: &mut Cursor, header: Header) -> (r: Result<Event, DecodeError>)
    requires
        old(cur).wf(),
    ensures
        final(cur).data == old(cur).data,
        final(cur).wf(),
        r is Ok <==> fixed_wf(old(cur).data@, old(cur).pos as int, header, 8),
        r is Ok ==> xid_matches(old(cur).data@, old(cur).pos as int, header, r->Ok_0) && final(cur).pos == old(cur).pos + 12,
        r is Err ==> final(cur).pos == old(cur).pos && r->Err_0 == fixed_err(
            old(cur).data@,
            old(cur).pos as int,
            header,
            8,
        ),
{
    match require_fixed(cur, &header, 8) {
        Ok(_) => (),
        Err(e) => {
            return Err(e);
        },
    }
    let xid = match cur.read_u64() {
        Ok(v) => v,
        Err(e) => {
            return Err(e);
        },
    };
    let checksum = match cur.read_u32() {
        Ok(v) => v,
        Err(e) => {
            return Err(e);
        },
    };
    Ok(Event::XID { header, xid, checksum })
}

pub open spec fn rand_matches(s: Seq<u8>, i: int, h: Header, e: Event) -> bool {
    e matches Event::Rand { header, seed1, seed2, checksum } && header == h && (seed1 as nat)
        == u64_at(s, i) && (seed2 as nat) == u64_at(s, i + 8) && (checksum as nat) == u32_at(
        s,
        i + 16,
    )
}

pub fn parse_rand(cur: &mut Cursor, header: Header) -> (r: Result<Event, DecodeError>)
    requires
        old(cur).wf(),
    ensures
        final(cur).data == old(cur).data,
        final(cur).wf(),
        r is Ok <==> fixed_wf(old(cur).data@, old(cur).pos as int, header, 16),
        r is Ok ==> rand_matches(old(cur).data@, old(cur).pos as int, header, r->Ok_0) && final(cur).pos == old(cur).pos + 20,
        r is Err ==> final(cur).pos == old(cur).pos && r->Err_0 == fixed_err(
            old(cur).data@,
            old(cur).pos as int,
            header,
            16,
        ),
{
    match require_fixed(cur, &header, 16) {
        Ok(_) => (),
        Err(e) => {
            return Err(e);
        },
    }
    let seed1 = match cur.read_u64() {
        Ok(v) => v,
        Err(e) => {
            return Err(e);
        },
    };
    let seed2 = match cur.read_u64() {
        Ok(v) => v,
        Err(e) => {
            return Err(e);
        },
    };
    let checksum = match cur.read_u32() {
        Ok(v) => v,
        Err(e) => {
            return Err(e);
        },
    };
    Ok(Event::Rand { header, seed1, seed2, checksum })
}

pub open spec fn exec_load_matches(s: Seq<u8>, i: int, h: Header, e: Event) -> bool {
    e matches Event::ExecLoad { header, file_id, checksum } && header == h && (file_id as nat)
        == u16_at(s, i) && (checksum as nat) == u32_at(s, i + 2)
}

pub fn parse_exec_load(cur: &mut Cursor, header: Header) -> (r: Result<Event, DecodeError>)
    requires
        old(cur).wf(),
    ensures
        final(cur).data == old(cur).data,
        final(cur).wf(),
        r is Ok <==> fixed_wf(old(cur).data@, old(cur).pos as int, header, 2),
        r is Ok ==> exec_load_matches(old(cur).data@, old(cur).pos as int, header, r->Ok_0)
            && final(cur).pos == old(cur).pos + 6,
        r is Err ==> final(cur).pos == old(cur).pos && r->Err_0 == fixed_err(
            old(cur).data@,
            old(cur).pos as int,
            header,
            2,
        ),
{
    match require_fixed(cur, &header, 2) {
        Ok(_) => (),
        Err(e) => {
            return Err(e);
        },
    }
    let file_id = match cur.read_u16() {
        Ok(v) => v,
        Err(e) => {
            return Err(e);
        },
    };
    let checksum = match cur.read_u32() {
        Ok(v) => v,
        Err(e) => {
            return Err(e);
        },
    };
    Ok(Event::ExecLoad { header, file_id, checksum })
}

pub open spec fn delete_file_matches(s: Seq<u8>, i: int, h: Header, e: Event) -> bool {
    e matches Event::DeleteFile { header, file_id, checksum } && header == h && (file_id as nat)
        == u16_at(s, i) && (checksum as nat) == u32_at(s, i + 2)
}

pub fn parse_delete_file(cur: &mut Cursor, header: Header) -> (r: Result<Event, DecodeError>)
    requires
        old(cur).wf(),
    ensures
        final(cur).data == old(cur).data,
        final(cur).wf(),
        r is Ok <==> fixed_wf(old(cur).data@, old(cur).pos as int, header, 2),
        r is Ok ==> delete_file_matches(old(cur).data@, old(cur).pos as int, header, r->Ok_0)
            && final(cur).pos == old(cur).pos + 6,
        r is Err ==> final(cur).pos == old(cur).pos && r->Err_0 == fixed_err(
            old(cur).data@,
            old(cur).pos as int,
            header,
            2,
        ),
{
    match require_fixed(cur, &header, 2) {
        Ok(_) => (),
        Err(e) => {
            return Err(e);
        },
    }
    let file_id = match cur.read_u16() {
        Ok(v) => v,
        Err(e) => {
            return Err(e);
        },
    };
    let checksum = match cur.read_u32() {
        Ok(v) => v,
        Err(e) => {
            return Err(e);
        },
    };
    Ok(Event::DeleteFile { header, file_id, checksum })
}

/// The subtype an intvar event's lead byte denotes, if it is one of the three
/// defined values.
pub open spec fn spec_intvar_type(b: u8) -> Option<IntVarEventType> {
    if b == 0 {
        Some(IntVarEventType::InvalidIntEvent)
    } else if b == 1 {
        Some(IntVarEventType::LastInsertIdEvent)
    } else if b == 2 {
        Some(IntVarEventType::InsertIdEvent)
    } else {
        None
    }
}

pub open spec fn intvar_wf(s: Seq<u8>, i: int, h: Header) -> bool {
    &&& fixed_wf(s, i, h, 9)
    &&& spec_intvar_type(s[i]) is Some
}

pub open spec fn intvar_matches(s: Seq<u8>, i: int, h: Header, e: Event) -> bool {
    e matches Event::IntVar { header, e_type, value, checksum } && header == h && Some(e_type)
        == spec_intvar_type(s[i]) && (value as nat) == u64_at(s, i + 1) && (checksum as nat)
        == u32_at(s, i + 9)
}

pub fn parse_intvar(cur: &mut Cursor, header: Header) -> (r: Result<Event, DecodeError>)
    requires
        old(cur).wf(),
    ensures
        final(cur).data == old(cur).data,
        final(cur).wf(),
        r is Ok <==> intvar_wf(old(cur).data@, old(cur).pos as int, header),
        r is Ok ==> intvar_matches(old(cur).data@, old(cur).pos as int, header, r->Ok_0) && final(cur).pos == old(cur).pos + 13,
        r is Err ==> r->Err_0 == (if !fixed_wf(old(cur).data@, old(cur).pos as int, header, 9) {
            fixed_err(old(cur).data@, old(cur).pos as int, header, 9)
        } else {
            DecodeError::InvalidData
        }),
{
    match require_fixed(cur, &header, 9) {
        Ok(_) => (),
        Err(e) => {
            return Err(e);
        },
    }
    let t = match cur.read_u8() {
        Ok(v) => v,
        Err(e) => {
            return Err(e);
        },
    };
    let e_type = if t == 0 {
        IntVarEventType::InvalidIntEvent
    } else if t == 1 {
        IntVarEventType::LastInsertIdEvent
    } else if t == 2 {
        IntVarEventType::InsertIdEvent
    } else {
        return Err(DecodeError::InvalidData);
    };
    let value = match cur.read_u64() {
        Ok(v) => v,
        Err(e) => {
            return Err(e);
        },
    };
    let checksum = match cur.read_u32() {
        Ok(v) => v,
        Err(e) => {
            return Err(e);
        },
    };
    Ok(Event::IntVar { header, e_type, value, checksum })
}

pub open spec fn previous_gtids_wf(s: Seq<u8>, i: int, h: Header) -> bool {
    &&& body_len(h) >= 8
    &&& i + body_len(h) <= s.len()
}

pub open spec fn previous_gtids_matches(s: Seq<u8>, i: int, h: Header, e: Event) -> bool {
    let n = body_len(h) - 8;
    e matches Event::PreviousGtids { header, gtid_sets, buf_size, checksum } && header == h
        && gtid_sets@ == s.subrange(i, i + n) && (buf_size as nat) == u32_at(s, i + n) && (
    checksum as nat) == u32_at(s, i + n + 4)
}

pub fn parse_previous_gtids(cur: &mut Cursor, header: Header) -> (r: Result<Event, DecodeError>)
    requires
        old(cur).wf(),
    ensures
        final(cur).data == old(cur).data,
        final(cur).wf(),
        r is Ok <==> previous_gtids_wf(old(cur).data@, old(cur).pos as int, header),
        r is Ok ==> previous_gtids_matches(old(cur).data@, old(cur).pos as int, header, r->Ok_0)
            && final(cur).pos == old(cur).pos + body_len(header),
        r is Err ==> final(cur).pos == old(cur).pos && r->Err_0 == (if body_len(header) < 8 {
            DecodeError::InvalidData
        } else {
            DecodeError::NotEnoughData
        }),
{
    if header.event_size < 19 + 8 {
        return Err(DecodeError::InvalidData);
    }
    let blen = (header.event_size - 19) as usize;
    if cur.remaining() < blen {
        return Err(DecodeError::NotEnoughData);
    }
    let gtid_sets = match cur.read_vec(blen - 8) {
        Ok(v) => v,
        Err(e) => {
            return Err(e);
        },
    };
    let buf_size = match cur.read_u32() {
        Ok(v) => v,
        Err(e) => {
            return Err(e);
        },
    };
    let checksum = match cur.read_u32() {
        Ok(v) => v,
        Err(e) => {
            return Err(e);
        },
    };
    Ok(Event::PreviousGtids { header, gtid_sets, buf_size, checksum })
}

/// The failure of a decoder whose payload must hold at least `minlen` bytes
/// and whose only later failure is a bad string.
pub open spec fn var_err(s: Seq<u8>, i: int, h: Header, minlen: int) -> DecodeError {
    if body_len(h) < minlen {
        DecodeError::InvalidData
    } else if i + body_len(h) > s.len() {
        DecodeError::NotEnoughData
    } else {
        DecodeError::InvalidUtf8
    }
}

pub open spec fn rotate_wf(s: Seq<u8>, i: int, h: Header) -> bool {
    &&& body_len(h) >= 12
    &&& i + body_len(h) <= s.len()
    &&& valid_utf8(s.subrange(i + 8, i + body_len(h) - 4))
}

pub open spec fn rotate_matches(s: Seq<u8>, i: int, h: Header, e: Event) -> bool {
    e matches Event::Rotate { header, position, next_binlog, checksum } && header == h && (
    position as nat) == u64_at(s, i) && next_binlog@ == decode_utf8(
        s.subrange(i + 8, i + body_len(h) - 4),
    ) && (checksum as nat) == u32_at(s, i + body_len(h) - 4)
}

pub fn parse_rotate(cur: &mut Cursor, header: Header) -> (r: Result<Event, DecodeError>)
    requires
        old(cur).wf(),
    ensures
        final(cur).data == old(cur).data,
        final(cur).wf(),
        r is Ok <==> rotate_wf(old(cur).data@, old(cur).pos as int, header),
        r is Ok ==> rotate_matches(old(cur).data@, old(cur).pos as int, header, r->Ok_0) && final(cur).pos == old(cur).pos + body_len(header),
        r is Err ==> r->Err_0 == var_err(old(cur).data@, old(cur).pos as int, header, 12),
{
    if header.event_size < 19 + 12 {
        return Err(DecodeError::InvalidData);
    }
    let blen = (header.event_size - 19) as usize;
    if cur.remaining() < blen {
        return Err(DecodeError::NotEnoughData);
    }
    let position = match cur.read_u64() {
        Ok(v) => v,
        Err(e) => {
            return Err(e);
        },
    };
    let next_binlog = match cur.read_str(blen - 12) {
        Ok(v) => v,
        Err(e) => {
            return Err(e);
        },
    };
    let checksum = match cur.read_u32() {
        Ok(v) => v,
        Err(e) => {
            return Err(e);
        },
    };
    Ok(Event::Rotate { header, position, next_binlog, checksum })
}

/// The file-carrying events share one payload shape: a file id and a
/// zero-padded block of data.
pub open spec fn file_data_wf(s: Seq<u8>, i: int, h: Header) -> bool {
    &&& body_len(h) >= 8
    &&& i + body_len(h) <= s.len()
    &&& valid_utf8(crate::codec::prefix_to_nul(s.subrange(i + 4, i + body_len(h) - 4)))
}

/// The (file_id, block_data view, checksum) denoted by a file-data payload.
pub open spec fn file_data_fields(s: Seq<u8>, i: int, h: Header, file_id: u32, block: Seq<char>, checksum: u32) -> bool {
    &&& (file_id as nat) == u32_at(s, i)
    &&& block == decode_utf8(crate::codec::prefix_to_nul(s.subrange(i + 4, i + body_len(h) - 4)))
    &&& (checksum as nat) == u32_at(s, i + body_len(h) - 4)
}

fn parse_file_data(cur: &mut Cursor, header: &Header) -> (r: Result<
    (u32, String, u32),
    DecodeError,
>)
    requires
        old(cur).wf(),
    ensures
        final(cur).data == old(cur).data,
        final(cur).wf(),
        r is Ok <==> file_data_wf(old(cur).data@, old(cur).pos as int, *header),
        r is Ok ==> file_data_fields(
            old(cur).data@,
            old(cur).pos as int,
            *header,
            r->Ok_0.0,
            r->Ok_0.1@,
            r->Ok_0.2,
        ) && final(cur).pos == old(cur).pos + body_len(*header),
        r is Err ==> r->Err_0 == var_err(old(cur).data@, old(cur).pos as int, *header, 8),
{
    if header.event_size < 19 + 8 {
        return Err(DecodeError::InvalidData);
    }
    let blen = (header.event_size - 19) as usize;
    if cur.remaining() < blen {
        return Err(DecodeError::NotEnoughData);
    }
    let file_id = match cur.read_u32() {
        Ok(v) => v,
        Err(e) => {
            return Err(e);
        },
    };
    let raw = match cur.read_vec(blen - 8) {
        Ok(v) => v,
        Err(e) => {
            return Err(e);
        },
    };
    let block_data = {
        let head = crate::codec::extract_prefix(raw.as_slice());
        match crate::codec::slice_to_string(head) {
            Ok(v) => v,
            Err(e) => {
                return Err(e);
            },
        }
    };
    let checksum = match cur.read_u32() {
        Ok(v) => v,
        Err(e) => {
            return Err(e);
        },
    };
    Ok((file_id, block_data, checksum))
}

pub open spec fn create_file_matches(s: Seq<u8>, i: int, h: Header, e: Event) -> bool {
    e matches Event::CreateFile { header, file_id, block_data, checksum } && header == h
        && file_data_fields(s, i, h, file_id, block_data@, checksum)
}

pub fn parse_create_file(cur: &mut Cursor, header: Header) -> (r: Result<Event, DecodeError>)
    requires
        old(cur).wf(),
    ensures
        final(cur).data == old(cur).data,
        final(cur).wf(),
        r is Ok <==> file_data_wf(old(cur).data@, old(cur).pos as int, header),
        r is Ok ==> create_file_matches(old(cur).data@, old(cur).pos as int, header, r->Ok_0)
            && final(cur).pos == old(cur).pos + body_len(header),
        r is Err ==> r->Err_0 == var_err(old(cur).data@, old(cur).pos as int, header, 8),
{
    let (file_id, block_data, checksum) = match parse_file_data(cur, &header) {
        Ok(v) => v,
        Err(e) => {
            return Err(e);
        },
    };
    Ok(Event::CreateFile { header, file_id, block_data, checksum })
}

pub open spec fn append_file_matches(s: Seq<u8>, i: int, h: Header, e: Event) -> bool {
    e matches Event::AppendFile { header, file_id, block_data, checksum } && header == h
        && file_data_fields(s, i, h, file_id, block_data@, checksum)
}

pub fn parse_append_file(cur: &mut Cursor, header: Header) -> (r: Result<Event, DecodeError>)
    requires
        old(cur).wf(),
    ensures
        final(cur).data == old(cur).data,
        final(cur).wf(),
        r is Ok <==> file_data_wf(old(cur).data@, old(cur).pos as int, header),
        r is Ok ==> append_file_matches(old(cur).data@, old(cur).pos as int, header, r->Ok_0)
            && final(cur).pos == old(cur).pos + body_len(header),
        r is Err ==> r->Err_0 == var_err(old(cur).data@, old(cur).pos as int, header, 8),
{
    let (file_id, block_data, checksum) = match parse_file_data(cur, &header) {
        Ok(v) => v,
        Err(e) => {
            return Err(e);
        },
    };
    Ok(Event::AppendFile { header, file_id, block_data, checksum })
}

pub open spec fn begin_load_query_matches(s: Seq<u8>, i: int, h: Header, e: Event) -> bool {
    e matches Event::BeginLoadQuery { header, file_id, block_data, checksum } && header == h
        && file_data_fields(s, i, h, file_id, block_data@, checksum)
}

pub fn parse_begin_load_query(cur: &mut Cursor, header: Header) -> (r: Result<Event, DecodeError>)
    requires
        old(cur).wf(),
    ensures
        final(cur).data == old(cur).data,
        final(cur).wf(),
        r is Ok <==> file_data_wf(old(cur).data@, old(cur).pos as int, header),
        r is Ok ==> begin_load_query_matches(old(cur).data@, old(cur).pos as int, header, r->Ok_0)
            && final(cur).pos == old(cur).pos + body_len(header),
        r is Err ==> r->Err_0 == var_err(old(cur).data@, old(cur).pos as int, header, 8),
{
    let (file_id, block_data, checksum) = match parse_file_data(cur, &header) {
        Ok(v) => v,
        Err(e) => {
            return Err(e);
        },
    };
    Ok(Event::BeginLoadQuery { header, file_id, block_data, checksum })
}

pub open spec fn format_desc_wf(s: Seq<u8>, i: int, h: Header) -> bool {
    &&& body_len(h) >= 62
    &&& i + body_len(h) <= s.len()
    &&& valid_utf8(crate::codec::prefix_to_nul(s.subrange(i + 2, i + 52)))
}

pub open spec fn format_desc_matches(s: Seq<u8>, i: int, h: Header, e: Event) -> bool {
    e matches Event::FormatDesc {
        header,
        binlog_version,
        mysql_server_version,
        create_timestamp,
        event_header_length,
        supported_types,
        checksum_alg,
        checksum,
    } && header == h && (binlog_version as nat) == u16_at(s, i) && mysql_server_version@
        == decode_utf8(crate::codec::prefix_to_nul(s.subrange(i + 2, i + 52))) && (
    create_timestamp as nat) == u32_at(s, i + 52) && event_header_length == s[i + 56]
        && supported_types@ == s.subrange(i + 57, i + body_len(h) - 5) && checksum_alg == s[i
        + body_len(h) - 5] && (checksum as nat) == u32_at(s, i + body_len(h) - 4)
}

pub fn parse_format_desc(cur: &mut Cursor, header: Header) -> (r: Result<Event, DecodeError>)
    requires
        old(cur).wf(),
    ensures
        final(cur).data == old(cur).data,
        final(cur).wf(),
        r is Ok <==> format_desc_wf(old(cur).data@, old(cur).pos as int, header),
        r is Ok ==> format_desc_matches(old(cur).data@, old(cur).pos as int, header, r->Ok_0)
            && final(cur).pos == old(cur).pos + body_len(header),
        r is Err ==> r->Err_0 == var_err(old(cur).data@, old(cur).pos as int, header, 62),
{
    if header.event_size < 19 + 62 {
        return Err(DecodeError::InvalidData);
    }
    let blen = (header.event_size - 19) as usize;
    if cur.remaining() < blen {
        return Err(DecodeError::NotEnoughData);
    }
    let binlog_version = match cur.read_u16() {
        Ok(v) => v,
        Err(e) => {
            return Err(e);
        },
    };
    let raw = match cur.read_vec(50) {
        Ok(v) => v,
        Err(e) => {
            return Err(e);
        },
    };
    let mysql_server_version = {
        let head = crate::codec::extract_prefix(raw.as_slice());
        match crate::codec::slice_to_string(head) {
            Ok(v) => v,
            Err(e) => {
                return Err(e);
            },
        }
    };
    let create_timestamp = match cur.read_u32() {
        Ok(v) => v,
        Err(e) => {
            return Err(e);
        },
    };
    let event_header_length = match cur.read_u8() {
        Ok(v) => v,
        Err(e) => {
            return Err(e);
        },
    };
    let supported_types = match cur.read_vec(blen - 62) {
        Ok(v) => v,
        Err(e) => {
            return Err(e);
        },
    };
    let checksum_alg = match cur.read_u8() {
        Ok(v) => v,
        Err(e) => {
            return Err(e);
        },
    };
    let checksum = match cur.read_u32() {
        Ok(v) => v,
        Err(e) => {
            return Err(e);
        },
    };
    Ok(Event::FormatDesc {
        header,
        binlog_version,
        mysql_server_version,
        create_timestamp,
        event_header_length,
        supported_types,
        checksum_alg,
        checksum,
    })
}

pub open spec fn spec_incident_type(v: nat) -> Option<IncidentEventType> {
    if v == 0 {
        Some(IncidentEventType::NoIncident)
    } else if v == 1 {
        Some(IncidentEventType::LostEvents)
    } else {
        None
    }
}

pub open spec fn incident_wf(s: Seq<u8>, i: int, h: Header) -> bool {
    &&& body_len(h) >= 7
    &&& i + body_len(h) <= s.len()
    &&& spec_incident_type(u16_at(s, i)) is Some
    &&& body_len(h) == 7 + s[i + 2]
    &&& valid_utf8(s.subrange(i + 3, i + 3 + s[i + 2]))
}

pub open spec fn incident_err(s: Seq<u8>, i: int, h: Header) -> DecodeError {
    if body_len(h) < 7 {
        DecodeError::InvalidData
    } else if i + body_len(h) > s.len() {
        DecodeError::NotEnoughData
    } else if spec_incident_type(u16_at(s, i)) is None || body_len(h) != 7 + s[i + 2] {
        DecodeError::InvalidData
    } else {
        DecodeError::InvalidUtf8
    }
}

pub open spec fn incident_matches(s: Seq<u8>, i: int, h: Header, e: Event) -> bool {
    e matches Event::Incident { header, d_type, message_length, message, checksum } && header == h
        && Some(d_type) == spec_incident_type(u16_at(s, i)) && message_length == s[i + 2]
        && message@ == decode_utf8(s.subrange(i + 3, i + 3 + s[i + 2])) && (checksum as nat)
        == u32_at(s, i + 3 + s[i + 2])
}

pub fn parse_incident(cur: &mut Cursor, header: Header) -> (r: Result<Event, DecodeError>)
    requires
        old(cur).wf(),
    ensures
        final(cur).data == old(cur).data,
        final(cur).wf(),
        r is Ok <==> incident_wf(old(cur).data@, old(cur).pos as int, header),
        r is Ok ==> incident_matches(old(cur).data@, old(cur).pos as int, header, r->Ok_0)
            && final(cur).pos == old(cur).pos + body_len(header),
        r is Err ==> r->Err_0 == incident_err(old(cur).data@, old(cur).pos as int, header),
{
    if header.event_size < 19 + 7 {
        return Err(DecodeError::InvalidData);
    }
    let blen = (header.event_size - 19) as usize;
    if cur.remaining() < blen {
        return Err(DecodeError::NotEnoughData);
    }
    let t = match cur.read_u16() {
        Ok(v) => v,
        Err(e) => {
            return Err(e);
        },
    };
    let d_type = if t == 0 {
        IncidentEventType::NoIncident
    } else if t == 1 {
        IncidentEventType::LostEvents
    } else {
        return Err(DecodeError::InvalidData);
    };
    let message_length = match cur.read_u8() {
        Ok(v) => v,
        Err(e) => {
            return Err(e);
        },
    };
    if blen != 7 + message_length as usize {
        return Err(DecodeError::InvalidData);
    }
    let message = match cur.read_str(message_length as usize) {
        Ok(v) => v,
        Err(e) => {
            return Err(e);
        },
    };
    let checksum = match cur.read_u32() {
        Ok(v) => v,
        Err(e) => {
            return Err(e);
        },
    };
    Ok(Event::Incident { header, d_type, message_length, message, checksum })
}

pub open spec fn row_query_wf(s: Seq<u8>, i: int, h: Header) -> bool {
    &&& body_len(h) >= 5
    &&& i + body_len(h) <= s.len()
    &&& body_len(h) == 5 + s[i]
    &&& valid_utf8(s.subrange(i + 1, i + 1 + s[i]))
}

pub open spec fn row_query_err(s: Seq<u8>, i: int, h: Header) -> DecodeError {
    if body_len(h) < 5 {
        DecodeError::InvalidData
    } else if i + body_len(h) > s.len() {
        DecodeError::NotEnoughData
    } else if body_len(h) != 5 + s[i] {
        DecodeError::InvalidData
    } else {
        DecodeError::InvalidUtf8
    }
}

pub open spec fn row_query_matches(s: Seq<u8>, i: int, h: Header, e: Event) -> bool {
    e matches Event::RowQuery { header, length, query_text, checksum } && header == h && length
        == s[i] && query_text@ == decode_utf8(s.subrange(i + 1, i + 1 + s[i])) && (checksum as nat)
        == u32_at(s, i + 1 + s[i])
}

pub fn parse_row_query(cur: &mut Cursor, header: Header) -> (r: Result<Event, DecodeError>)
    requires
        old(cur).wf(),
    ensures
        final(cur).data == old(cur).data,
        final(cur).wf(),
        r is Ok <==> row_query_wf(old(cur).data@, old(cur).pos as int, header),
        r is Ok ==> row_query_matches(old(cur).data@, old(cur).pos as int, header, r->Ok_0)
            && final(cur).pos == old(cur).pos + body_len(header),
        r is Err ==> r->Err_0 == row_query_err(old(cur).data@, old(cur).pos as int, header),
{
    if header.event_size < 19 + 5 {
        return Err(DecodeError::InvalidData);
    }
    let blen = (header.event_size - 19) as usize;
    if cur.remaining() < blen {
        return Err(DecodeError::NotEnoughData);
    }
    let length = match cur.read_u8() {
        Ok(v) => v,
        Err(e) => {
            return Err(e);
        },
    };
    if blen != 5 + length as usize {
        return Err(DecodeError::InvalidData);
    }
    let query_text = match cur.read_str(length as usize) {
        Ok(v) => v,
        Err(e) => {
            return Err(e);
        },
    };
    let checksum = match cur.read_u32() {
        Ok(v) => v,
        Err(e) => {
            return Err(e);
        },
    };
    Ok(Event::RowQuery { header, length, query_text, checksum })
}

pub open spec fn spec_dup_flags(b: u8) -> Option<DupHandlingFlags> {
    if b == 0 {
        Some(DupHandlingFlags::Error)
    } else if b == 1 {
        Some(DupHandlingFlags::Ignore)
    } else if b == 2 {
        Some(DupHandlingFlags::Replace)
    } else {
        None
    }
}

pub open spec fn execute_load_query_wf(s: Seq<u8>, i: int, h: Header) -> bool {
    &&& body_len(h) >= 30
    &&& i + body_len(h) <= s.len()
    &&& spec_dup_flags(s[i + 25]) is Some
}

pub open spec fn execute_load_query_err(s: Seq<u8>, i: int, h: Header) -> DecodeError {
    if body_len(h) < 30 {
        DecodeError::InvalidData
    } else if i + body_len(h) > s.len() {
        DecodeError::NotEnoughData
    } else {
        DecodeError::InvalidData
    }
}

pub open spec fn execute_load_query_matches(s: Seq<u8>, i: int, h: Header, e: Event) -> bool {
    e matches Event::ExecuteLoadQueryEvent {
        header,
        thread_id,
        execution_time,
        schema_length,
        error_code,
        status_vars_length,
        file_id,
        start_pos,
        end_pos,
        dup_handling_flags,
        checksum,
    } && header == h && (thread_id as nat) == u32_at(s, i) && (execution_time as nat) == u32_at(
        s,
        i + 4,
    ) && schema_length == s[i + 8] && (error_code as nat) == u16_at(s, i + 9) && (
    status_vars_length as nat) == u16_at(s, i + 11) && (file_id as nat) == u32_at(s, i + 13) && (
    start_pos as nat) == u32_at(s, i + 17) && (end_pos as nat) == u32_at(s, i + 21) && Some(
        dup_handling_flags,
    ) == spec_dup_flags(s[i + 25]) && (checksum as nat) == u32_at(s, i + body_len(h) - 4)
}

/// Decodes the fixed part of an execute-load-query event; the variable tail
/// before the checksum is consumed but not interpreted.
pub fn parse_execute_load_query(cur: &mut Cursor, header: Header) -> (r: Result<
    Event,
    DecodeError,
>)
    requires
        old(cur).wf(),
    ensures
        final(cur).data == old(cur).data,
        final(cur).wf(),
        r is Ok <==> execute_load_query_wf(old(cur).data@, old(cur).pos as int, header),
        r is Ok ==> execute_load_query_matches(old(cur).data@, old(cur).pos as int, header, r->Ok_0)
            && final(cur).pos == old(cur).pos + body_len(header),
        r is Err ==> r->Err_0 == execute_load_query_err(old(cur).data@, old(cur).pos as int, header),
{
    if header.event_size < 19 + 30 {
        return Err(DecodeError::InvalidData);
    }
    let blen = (header.event_size - 19) as usize;
    if cur.remaining() < blen {
        return Err(DecodeError::NotEnoughData);
    }
    let thread_id = match cur.read_u32() {
        Ok(v) => v,
        Err(e) => {
            return Err(e);
        },
    };
    let execution_time = match cur.read_u32() {
        Ok(v) => v,
        Err(e) => {
            return Err(e);
        },
    };
    let schema_length = match cur.read_u8() {
        Ok(v) => v,
        Err(e) => {
            return Err(e);
        },
    };
    let error_code = match cur.read_u16() {
        Ok(v) => v,
        Err(e) => {
            return Err(e);
        },
    };
    let status_vars_length = match cur.read_u16() {
        Ok(v) => v,
        Err(e) => {
            return Err(e);
        },
    };
    let file_id = match cur.read_u32() {
        Ok(v) => v,
        Err(e) => {
            return Err(e);
        },
    };
    let start_pos = match cur.read_u32() {
        Ok(v) => v,
        Err(e) => {
            return Err(e);
        },
    };
    let end_pos = match cur.read_u32() {
        Ok(v) => v,
        Err(e) => {
            return Err(e);
        },
    };
    let d = match cur.read_u8() {
        Ok(v) => v,
        Err(e) => {
            return Err(e);
        },
    };
    let dup_handling_flags = if d == 0 {
        DupHandlingFlags::Error
    } else if d == 1 {
        DupHandlingFlags::Ignore
    } else if d == 2 {
        DupHandlingFlags::Replace
    } else {
        return Err(DecodeError::InvalidData);
    };
    let _ = cur.skip(blen - 30);
    let checksum = match cur.read_u32() {
        Ok(v) => v,
        Err(e) => {
            return Err(e);
        },
    };
    Ok(Event::ExecuteLoadQueryEvent {
        header,
        thread_id,
        execution_time,
        schema_length,
        error_code,
        status_vars_length,
        file_id,
        start_pos,
        end_pos,
        dup_handling_flags,
        checksum,
    })
}

/// The ASCII decimal digits of `v`, most significant first.
pub open spec fn dec_bytes(v: nat) -> Seq<u8>
    decreases v,
{
    if v < 10 {
        seq![(48 + v) as u8]
    } else {
        dec_bytes(v / 10) + seq![(48 + v % 10) as u8]
    }
}

/// The digits of each byte of `s`, concatenated in order.
pub open spec fn dec_concat(s: Seq<u8>) -> Seq<u8>
    decreases s.len(),
{
    if s.len() == 0 {
        Seq::empty()
    } else {
        dec_concat(s.drop_last()) + dec_bytes(s.last() as nat)
    }
}

proof fn lemma_dec_bytes_ascii(v: nat)
    requires
        v < 256,
    ensures
        forall|k: int| 0 <= k < dec_bytes(v).len() ==> 48 <= #[trigger] dec_bytes(v)[k] <= 57,
    decreases v,
{
    if v < 10 {
        assert(dec_bytes(v)[0] == (48 + v) as u8);
    } else {
        lemma_dec_bytes_ascii(v / 10);
        let a = dec_bytes(v / 10);
        let b = seq![(48 + v % 10) as u8];
        assert forall|k: int| 0 <= k < dec_bytes(v).len() implies 48 <= #[trigger] dec_bytes(
            v,
        )[k] <= 57 by {
            if k < a.len() {
                assert(dec_bytes(v)[k] == a[k]);
            } else {
                assert(dec_bytes(v)[k] == b[k - a.len()]);
            }
        }
    }
}

proof fn lemma_dec_concat_ascii(s: Seq<u8>)
    ensures
        forall|k: int| 0 <= k < dec_concat(s).len() ==> 48 <= #[trigger] dec_concat(s)[k] <= 57,
    decreases s.len(),
{
    if s.len() > 0 {
        lemma_dec_concat_ascii(s.drop_last());
        lemma_dec_bytes_ascii(s.last() as nat);
        let a = dec_concat(s.drop_last());
        let b = dec_bytes(s.last() as nat);
        assert forall|k: int| 0 <= k < dec_concat(s).len() implies 48 <= #[trigger] dec_concat(
            s,
        )[k] <= 57 by {
            if k < a.len() {
                assert(dec_concat(s)[k] == a[k]);
            } else {
                assert(dec_concat(s)[k] == b[k - a.len()]);
            }
        }
    }
}

/// Appends the decimal digits of one byte.
fn push_dec(buf: &mut Vec<u8>, b: u8)
    ensures
        final(buf)@ == old(buf)@ + dec_bytes(b as nat),
{
    if b < 10 {
        buf.push(48 + b);
        proof {
            assert(final(buf)@ =~= old(buf)@ + dec_bytes(b as nat));
        }
    } else if b < 100 {
        buf.push(48 + b / 10);
        buf.push(48 + b % 10);
        proof {
            assert(dec_bytes((b / 10) as nat) =~= seq![(48 + b / 10) as u8]);
            assert(final(buf)@ =~= old(buf)@ + (dec_bytes((b / 10) as nat) + seq![(48 + b
                % 10) as u8]));
        }
    } else {
        buf.push(48 + b / 100);
        buf.push(48 + (b / 10) % 10);
        buf.push(48 + b % 10);
        proof {
            vstd::arithmetic::div_mod::lemma_div_denominator(b as int, 10, 10);
            assert((b / 10) / 10 == b / 100);
            assert(dec_bytes((b / 100) as nat) =~= seq![(48 + b / 100) as u8]);
            assert(dec_bytes((b / 10) as nat) =~= dec_bytes(((b / 10) / 10) as nat) + seq![(48 + (b
                / 10) % 10) as u8]);
            assert(final(buf)@ =~= old(buf)@ + (dec_bytes((b / 10) as nat) + seq![(48 + b
                % 10) as u8]));
        }
    }
}

/// Appends the concatenated digits of `data[from..to]`.
fn push_dec_group(buf: &mut Vec<u8>, data: &Vec<u8>, from: usize, to: usize)
    requires
        from <= to <= data@.len(),
    ensures
        final(buf)@ == old(buf)@ + dec_concat(data@.subrange(from as int, to as int)),
{
    let mut k = from;
    proof {
        assert(old(buf)@ + dec_concat(data@.subrange(from as int, from as int)) =~= old(buf)@);
    }
    while k < to
        invariant
            from <= k <= to <= data@.len(),
            buf@ == old(buf)@ + dec_concat(data@.subrange(from as int, k as int)),
        decreases to - k,
    {
        let b = data[k];
        push_dec(buf, b);
        proof {
            let pre = data@.subrange(from as int, k as int);
            let post = data@.subrange(from as int, k + 1);
            assert(post.drop_last() =~= pre);
            assert(post.last() == b);
            assert(old(buf)@ + dec_concat(pre) + dec_bytes(b as nat) =~= old(buf)@ + (dec_concat(
                pre,
            ) + dec_bytes(b as nat)));
        }
        k = k + 1;
    }
}

/// The dash-joined decimal rendering of the 16 source-uuid bytes at `u`.
pub open spec fn gtid_source_bytes(s: Seq<u8>, u: int) -> Seq<u8> {
    dec_concat(s.subrange(u, u + 4)) + seq![45u8] + dec_concat(s.subrange(u + 4, u + 6))
        + seq![45u8] + dec_concat(s.subrange(u + 6, u + 8)) + seq![45u8] + dec_concat(
        s.subrange(u + 8, u + 10),
    ) + seq![45u8] + dec_concat(s.subrange(u + 10, u + 16))
}

/// The decimal rendering of the 8 transaction-number bytes at `t`.
pub open spec fn gtid_txn_bytes(s: Seq<u8>, t: int) -> Seq<u8> {
    dec_concat(s.subrange(t, t + 8))
}

/// The characters of an all-ASCII byte run.
pub open spec fn ascii_chars(b: Seq<u8>) -> Seq<char> {
    Seq::new(b.len(), |k: int| b[k] as char)
}

/// The common payload of the two GTID event kinds.
pub open spec fn gtid_fields(
    s: Seq<u8>,
    i: int,
    rbr_only: bool,
    source_id: Seq<char>,
    transaction_id: Seq<char>,
    ts_type: u8,
    last_committed: i64,
    sequence_number: i64,
    checksum: u32,
) -> bool {
    &&& rbr_only == (s[i] == 0)
    &&& source_id == ascii_chars(gtid_source_bytes(s, i + 1))
    &&& transaction_id == ascii_chars(gtid_txn_bytes(s, i + 17))
    &&& ts_type == s[i + 25]
    &&& last_committed == (u64_at(s, i + 26) as u64) as i64
    &&& sequence_number == (u64_at(s, i + 34) as u64) as i64
    &&& (checksum as nat) == u32_at(s, i + 42)
}

pub open spec fn gtid_matches(s: Seq<u8>, i: int, h: Header, e: Event) -> bool {
    e matches Event::Gtid {
        header,
        rbr_only,
        source_id,
        transaction_id,
        ts_type,
        last_committed,
        sequence_number,
        checksum,
    } && header == h && gtid_fields(
        s,
        i,
        rbr_only,
        source_id@,
        transaction_id@,
        ts_type,
        last_committed,
        sequence_number,
        checksum,
    )
}

pub open spec fn anonymous_gtid_matches(s: Seq<u8>, i: int, h: Header, e: Event) -> bool {
    e matches Event::AnonymousGtid {
        header,
        rbr_only,
        source_id,
        transaction_id,
        ts_type,
        last_committed,
        sequence_number,
        checksum,
    } && header == h && gtid_fields(
        s,
        i,
        rbr_only,
        source_id@,
        transaction_id@,
        ts_type,
        last_committed,
        sequence_number,
        checksum,
    )
}

/// Decodes the shared GTID payload: the flag byte, the decimal renderings of
/// the source uuid and transaction number, and the remaining fixed fields.
fn parse_events_gtid(cur: &mut Cursor, header: &Header) -> (r: Result<
    (bool, String, String, u8, i64, i64, u32),
    DecodeError,
>)
    requires
        old(cur).wf(),
    ensures
        final(cur).data == old(cur).data,
        final(cur).wf(),
        r is Ok <==> fixed_wf(old(cur).data@, old(cur).pos as int, *header, 42),
        r is Ok ==> gtid_fields(
            old(cur).data@,
            old(cur).pos as int,
            r->Ok_0.0,
            r->Ok_0.1@,
            r->Ok_0.2@,
            r->Ok_0.3,
            r->Ok_0.4,
            r->Ok_0.5,
            r->Ok_0.6,
        ) && final(cur).pos == old(cur).pos + 46,
        r is Err ==> final(cur).pos == old(cur).pos && r->Err_0 == fixed_err(
            old(cur).data@,
            old(cur).pos as int,
            *header,
            42,
        ),
{
    let ghost s = cur.data@;
    let ghost i = cur.pos as int;
    match require_fixed(cur, header, 42) {
        Ok(_) => (),
        Err(e) => {
            return Err(e);
        },
    }
    let flag = match cur.read_u8() {
        Ok(v) => v,
        Err(e) => {
            return Err(e);
        },
    };
    let rbr_only = flag == 0;
    let uuid = match cur.read_vec(16) {
        Ok(v) => v,
        Err(e) => {
            return Err(e);
        },
    };
    let mut src: Vec<u8> = Vec::new();
    push_dec_group(&mut src, &uuid, 0, 4);
    src.push(45);
    push_dec_group(&mut src, &uuid, 4, 6);
    src.push(45);
    push_dec_group(&mut src, &uuid, 6, 8);
    src.push(45);
    push_dec_group(&mut src, &uuid, 8, 10);
    src.push(45);
    push_dec_group(&mut src, &uuid, 10, 16);
    proof {
        assert(uuid@.subrange(0, 4) =~= s.subrange(i + 1, i + 5));
        assert(uuid@.subrange(4, 6) =~= s.subrange(i + 5, i + 7));
        assert(uuid@.subrange(6, 8) =~= s.subrange(i + 7, i + 9));
        assert(uuid@.subrange(8, 10) =~= s.subrange(i + 9, i + 11));
        assert(uuid@.subrange(10, 16) =~= s.subrange(i + 11, i + 17));
        assert(src@ =~= gtid_source_bytes(s, i + 1));
        lemma_dec_concat_ascii(s.subrange(i + 1, i + 5));
        lemma_dec_concat_ascii(s.subrange(i + 5, i + 7));
        lemma_dec_concat_ascii(s.subrange(i + 7, i + 9));
        lemma_dec_concat_ascii(s.subrange(i + 9, i + 11));
        lemma_dec_concat_ascii(s.subrange(i + 11, i + 17));
        crate::codec::lemma_ascii_decode_utf8(src@);
        assert(decode_utf8(src@) =~= ascii_chars(gtid_source_bytes(s, i + 1)));
    }
    let source_id = match crate::codec::slice_to_string(src.as_slice()) {
        Ok(v) => v,
        Err(_) => {
            proof {
                assert(false);
            }
            return Err(DecodeError::InvalidUtf8);
        },
    };
    let txn_raw = match cur.read_vec(8) {
        Ok(v) => v,
        Err(e) => {
            return Err(e);
        },
    };
    let mut txn: Vec<u8> = Vec::new();
    push_dec_group(&mut txn, &txn_raw, 0, 8);
    proof {
        assert(txn_raw@.subrange(0, 8) =~= s.subrange(i + 17, i + 25));
        assert(txn@ =~= gtid_txn_bytes(s, i + 17));
        lemma_dec_concat_ascii(s.subrange(i + 17, i + 25));
        crate::codec::lemma_ascii_decode_utf8(txn@);
        assert(decode_utf8(txn@) =~= ascii_chars(gtid_txn_bytes(s, i + 17)));
    }
    let transaction_id = match crate::codec::slice_to_string(txn.as_slice()) {
        Ok(v) => v,
        Err(_) => {
            proof {
                assert(false);
            }
            return Err(DecodeError::InvalidUtf8);
        },
    };
    let ts_type = match cur.read_u8() {
        Ok(v) => v,
        Err(e) => {
            return Err(e);
        },
    };
    let last_committed = match cur.read_u64() {
        Ok(v) => v as i64,
        Err(e) => {
            return Err(e);
        },
    };
    let sequence_number = match cur.read_u64() {
        Ok(v) => v as i64,
        Err(e) => {
            return Err(e);
        },
    };
    let checksum = match cur.read_u32() {
        Ok(v) => v,
        Err(e) => {
            return Err(e);
        },
    };
    Ok((rbr_only, source_id, transaction_id, ts_type, last_committed, sequence_number, checksum))
}

pub fn parse_gtid(cur: &mut Cursor, header: Header) -> (r: Result<Event, DecodeError>)
    requires
        old(cur).wf(),
    ensures
        final(cur).data == old(cur).data,
        final(cur).wf(),
        r is Ok <==> fixed_wf(old(cur).data@, old(cur).pos as int, header, 42),
        r is Ok ==> gtid_matches(old(cur).data@, old(cur).pos as int, header, r->Ok_0) && final(cur).pos == old(cur).pos + 46,
        r is Err ==> final(cur).pos == old(cur).pos && r->Err_0 == fixed_err(
            old(cur).data@,
            old(cur).pos as int,
            header,
            42,
        ),
{
    let (rbr_only, source_id, transaction_id, ts_type, last_committed, sequence_number, checksum) =
        match parse_events_gtid(cur, &header) {
        Ok(v) => v,
        Err(e) => {
            return Err(e);
        },
    };
    Ok(Event::Gtid {
        header,
        rbr_only,
        source_id,
        transaction_id,
        ts_type,
        last_committed,
        sequence_number,
        checksum,
    })
}

pub fn parse_anonymous_gtid(cur: &mut Cursor, header: Header) -> (r: Result<Event, DecodeError>)
    requires
        old(cur).wf(),
    ensures
        final(cur).data == old(cur).data,
        final(cur).wf(),
        r is Ok <==> fixed_wf(old(cur).data@, old(cur).pos as int, header, 42),
        r is Ok ==> anonymous_gtid_matches(old(cur).data@, old(cur).pos as int, header, r->Ok_0)
            && final(cur).pos == old(cur).pos + 46,
        r is Err ==> final(cur).pos == old(cur).pos && r->Err_0 == fixed_err(
            old(cur).data@,
            old(cur).pos as int,
            header,
            42,
        ),
{
    let (rbr_only, source_id, transaction_id, ts_type, last_committed, sequence_number, checksum) =
        match parse_events_gtid(cur, &header) {
        Ok(v) => v,
        Err(e) => {
            return Err(e);
        },
    };
    Ok(Event::AnonymousGtid {
        header,
        rbr_only,
        source_id,
        transaction_id,
        ts_type,
        last_committed,
        sequence_number,
        checksum,
    })
}

pub open spec fn user_var_wf(s: Seq<u8>, i: int, h: Header) -> bool {
    let bl = body_len(h);
    let nl = u32_at(s, i) as int;
    &&& bl >= 9
    &&& i + bl <= s.len()
    &&& nl + 9 <= bl
    &&& valid_utf8(s.subrange(i + 4, i + 4 + nl))
    &&& if s[i + 4 + nl] == 1 {
        bl == 9 + nl
    } else {
        &&& bl >= 19 + nl
        &&& bl == 19 + nl + u32_at(s, i + 4 + nl + 6)
    }
}

pub open spec fn user_var_err(s: Seq<u8>, i: int, h: Header) -> DecodeError {
    let bl = body_len(h);
    let nl = u32_at(s, i) as int;
    if bl < 9 {
        DecodeError::InvalidData
    } else if i + bl > s.len() {
        DecodeError::NotEnoughData
    } else if nl + 9 > bl {
        DecodeError::InvalidData
    } else if !valid_utf8(s.subrange(i + 4, i + 4 + nl)) {
        DecodeError::InvalidUtf8
    } else {
        DecodeError::InvalidData
    }
}

pub open spec fn user_var_matches(s: Seq<u8>, i: int, h: Header, e: Event) -> bool {
    let nl = u32_at(s, i) as int;
    let j = i + 4 + nl + 1;
    e matches Event::UserVar {
        header,
        name_length,
        name,
        is_null,
        d_type,
        charset,
        value_length,
        value,
        flags,
        checksum,
    } && header == h && (name_length as nat) == u32_at(s, i) && name@ == decode_utf8(
        s.subrange(i + 4, i + 4 + nl),
    ) && is_null == (s[i + 4 + nl] == 1) && if s[i + 4 + nl] == 1 {
        &&& d_type is None
        &&& charset is None
        &&& value_length is None
        &&& value is None
        &&& flags is None
        &&& (checksum as nat) == u32_at(s, j)
    } else {
        let vl = u32_at(s, j + 5) as int;
        &&& d_type == Some(s[j])
        &&& charset matches Some(c) && (c as nat) == u32_at(s, j + 1)
        &&& value_length matches Some(v) && (v as nat) == u32_at(s, j + 5)
        &&& value matches Some(b) && b@ == s.subrange(j + 9, j + 9 + vl)
        &&& flags == Some(s[j + 9 + vl])
        &&& (checksum as nat) == u32_at(s, j + 10 + vl)
    }
}

pub fn parse_user_var(cur: &mut Cursor, header: Header) -> (r: Result<Event, DecodeError>)
    requires
        old(cur).wf(),
    ensures
        final(cur).data == old(cur).data,
        final(cur).wf(),
        r is Ok <==> user_var_wf(old(cur).data@, old(cur).pos as int, header),
        r is Ok ==> user_var_matches(old(cur).data@, old(cur).pos as int, header, r->Ok_0)
            && final(cur).pos == old(cur).pos + body_len(header),
        r is Err ==> r->Err_0 == user_var_err(old(cur).data@, old(cur).pos as int, header),
{
    if header.event_size < 19 + 9 {
        return Err(DecodeError::InvalidData);
    }
    let blen = (header.event_size - 19) as u64;
    if (cur.remaining() as u64) < blen {
        return Err(DecodeError::NotEnoughData);
    }
    let name_length = match cur.read_u32() {
        Ok(v) => v,
        Err(e) => {
            return Err(e);
        },
    };
    if name_length as u64 + 9 > blen {
        return Err(DecodeError::InvalidData);
    }
    let name = match cur.read_str(name_length as usize) {
        Ok(v) => v,
        Err(e) => {
            return Err(e);
        },
    };
    let nul_byte = match cur.read_u8() {
        Ok(v) => v,
        Err(e) => {
            return Err(e);
        },
    };
    let is_null = nul_byte == 1;
    if is_null {
        if blen != 9 + name_length as u64 {
            return Err(DecodeError::InvalidData);
        }
        let checksum = match cur.read_u32() {
            Ok(v) => v,
            Err(e) => {
                return Err(e);
            },
        };
        Ok(Event::UserVar {
            header,
            name_length,
            name,
            is_null,
            d_type: None,
            charset: None,
            value_length: None,
            value: None,
            flags: None,
            checksum,
        })
    } else {
        if blen < 19 + name_length as u64 {
            return Err(DecodeError::InvalidData);
        }
        let d_type = match cur.read_u8() {
            Ok(v) => v,
            Err(e) => {
                return Err(e);
            },
        };
        let charset = match cur.read_u32() {
            Ok(v) => v,
            Err(e) => {
                return Err(e);
            },
        };
        let value_length = match cur.read_u32() {
            Ok(v) => v,
            Err(e) => {
                return Err(e);
            },
        };
        if blen != 19 + name_length as u64 + value_length as u64 {
            return Err(DecodeError::InvalidData);
        }
        let value = match cur.read_vec(value_length as usize) {
            Ok(v) => v,
            Err(e) => {
                return Err(e);
            },
        };
        let flags = match cur.read_u8() {
            Ok(v) => v,
            Err(e) => {
                return Err(e);
            },
        };
        let checksum = match cur.read_u32() {
            Ok(v) => v,
            Err(e) => {
                return Err(e);
            },
        };
        Ok(Event::UserVar {
            header,
            name_length,
            name,
            is_null,
            d_type: Some(d_type),
            charset: Some(charset),
            value_length: Some(value_length),
            value: Some(value),
            flags: Some(flags),
            checksum,
        })
    }
}


/// The status-variable sub-region of a query payload: `[i + 13, i + 13 + svl)`.
pub open spec fn query_wf(s: Seq<u8>, i: int, h: Header) -> bool {
    let bl = body_len(h);
    let svl = u16_at(s, i + 11) as int;
    let sl = s[i + 8] as int;
    &&& bl >= 18
    &&& i + bl <= s.len()
    &&& 13 + svl + sl + 5 <= bl
    &&& crate::query::spec_status_vars(s, i + 13, i + 13 + svl) is Ok
    &&& valid_utf8(s.subrange(i + 13 + svl, i + 13 + svl + sl))
    &&& valid_utf8(
        crate::codec::prefix_to_nul(s.subrange(i + 14 + svl + sl, i + bl - 4)),
    )
}

pub open spec fn query_err(s: Seq<u8>, i: int, h: Header) -> DecodeError {
    let bl = body_len(h);
    let svl = u16_at(s, i + 11) as int;
    let sl = s[i + 8] as int;
    if bl < 18 {
        DecodeError::InvalidData
    } else if i + bl > s.len() {
        DecodeError::NotEnoughData
    } else if 13 + svl + sl + 5 > bl {
        DecodeError::InvalidData
    } else if crate::query::spec_status_vars(s, i + 13, i + 13 + svl) is Err {
        crate::query::spec_status_vars(s, i + 13, i + 13 + svl)->Err_0
    } else {
        DecodeError::InvalidUtf8
    }
}

pub open spec fn query_matches(s: Seq<u8>, i: int, h: Header, e: Event) -> bool {
    let bl = body_len(h);
    let svl = u16_at(s, i + 11) as int;
    let sl = s[i + 8] as int;
    e matches Event::Query {
        header,
        slave_proxy_id,
        execution_time,
        schema_length,
        error_code,
        status_vars_length,
        status_vars,
        schema,
        query,
        checksum,
    } && header == h && (slave_proxy_id as nat) == u32_at(s, i) && (execution_time as nat)
        == u32_at(s, i + 4) && schema_length == s[i + 8] && (error_code as nat) == u16_at(s, i + 9)
        && (status_vars_length as nat) == u16_at(s, i + 11) && Ok::<_, DecodeError>(
        crate::query::var_views(status_vars@),
    ) == crate::query::spec_status_vars(s, i + 13, i + 13 + svl) && schema@ == decode_utf8(
        s.subrange(i + 13 + svl, i + 13 + svl + sl),
    ) && query@ == decode_utf8(
        crate::codec::prefix_to_nul(s.subrange(i + 14 + svl + sl, i + bl - 4)),
    ) && (checksum as nat) == u32_at(s, i + bl - 4)
}

/// Decodes a query event: the fixed part, the status-variable chain (which
/// must fill its declared sub-region exactly), the schema, and the statement
/// text.
pub fn parse_query(cur: &mut Cursor, header: Header) -> (r: Result<Event, DecodeError>)
    requires
        old(cur).wf(),
    ensures
        final(cur).data == old(cur).data,
        final(cur).wf(),
        r is Ok <==> query_wf(old(cur).data@, old(cur).pos as int, header),
        r is Ok ==> query_matches(old(cur).data@, old(cur).pos as int, header, r->Ok_0) && final(cur).pos == old(cur).pos + body_len(header),
        r is Err ==> r->Err_0 == query_err(old(cur).data@, old(cur).pos as int, header),
{
    if header.event_size < 19 + 18 {
        return Err(DecodeError::InvalidData);
    }
    let blen = (header.event_size - 19) as usize;
    if cur.remaining() < blen {
        return Err(DecodeError::NotEnoughData);
    }
    let slave_proxy_id = match cur.read_u32() {
        Ok(v) => v,
        Err(e) => {
            return Err(e);
        },
    };
    let execution_time = match cur.read_u32() {
        Ok(v) => v,
        Err(e) => {
            return Err(e);
        },
    };
    let schema_length = match cur.read_u8() {
        Ok(v) => v,
        Err(e) => {
            return Err(e);
        },
    };
    let error_code = match cur.read_u16() {
        Ok(v) => v,
        Err(e) => {
            return Err(e);
        },
    };
    let status_vars_length = match cur.read_u16() {
        Ok(v) => v,
        Err(e) => {
            return Err(e);
        },
    };
    if 13 + status_vars_length as u64 + schema_length as u64 + 5 > blen as u64 {
        return Err(DecodeError::InvalidData);
    }
    let dlen = cur.data.len();
    proof {
        assert(cur.pos + status_vars_length <= dlen);
    }
    let sv_end = cur.pos + status_vars_length as usize;
    let status_vars = match crate::query::parse_status_vars(cur, sv_end) {
        Ok(v) => v,
        Err(e) => {
            return Err(e);
        },
    };
    let schema = match cur.read_str(schema_length as usize) {
        Ok(v) => v,
        Err(e) => {
            return Err(e);
        },
    };
    let _ = cur.skip(1);
    let qlen = blen - 18 - status_vars_length as usize - schema_length as usize;
    let q_raw = match cur.read_vec(qlen) {
        Ok(v) => v,
        Err(e) => {
            return Err(e);
        },
    };
    let query = {
        let head = crate::codec::extract_prefix(q_raw.as_slice());
        match crate::codec::slice_to_string(head) {
            Ok(v) => v,
            Err(e) => {
                return Err(e);
            },
        }
    };
    let checksum = match cur.read_u32() {
        Ok(v) => v,
        Err(e) => {
            return Err(e);
        },
    };
    Ok(Event::Query {
        header,
        slave_proxy_id,
        execution_time,
        schema_length,
        error_code,
        status_vars_length,
        status_vars,
        schema,
        query,
        checksum,
    })
}


/// The mathematical shadow of a table-map event's payload.
pub struct TableMapV {
    pub table_id: nat,
    pub flags: nat,
    pub schema_length: u8,
    pub schema: Seq<char>,
    pub table_name_length: u8,
    pub table_name: Seq<char>,
    pub column_count: u64,
    pub columns_type: Seq<ColTypes>,
    pub null_bits: Seq<u8>,
    pub checksum: nat,
}

/// The table-map payload at `i`: names, the column types with their
/// completed metadata, and the null-bit mask of `(columns + 7) / 8` bytes,
/// filling the payload exactly; or the error met reading it, in read order.
#[verifier::opaque]
pub open spec fn spec_table_map(s: Seq<u8>, i: int, h: Header) -> Result<TableMapV, DecodeError> {
    let bl = body_len(h);
    if bl < 18 {
        Err(DecodeError::InvalidData)
    } else if i + bl > s.len() {
        Err(DecodeError::NotEnoughData)
    } else {
        let end = i + bl - 4;
        let sl = s[i + 8] as int;
        if i + 10 + sl > end {
            Err(DecodeError::NotEnoughData)
        } else if !valid_utf8(s.subrange(i + 9, i + 9 + sl)) {
            Err(DecodeError::InvalidUtf8)
        } else if s[i + 9 + sl] != 0 {
            Err(DecodeError::InvalidData)
        } else {
            let p1 = i + 10 + sl;
            let tnl = s[p1] as int;
            if p1 + 2 + tnl > end {
                Err(DecodeError::NotEnoughData)
            } else if !valid_utf8(s.subrange(p1 + 1, p1 + 1 + tnl)) {
                Err(DecodeError::InvalidUtf8)
            } else if s[p1 + 1 + tnl] != 0 {
                Err(DecodeError::InvalidData)
            } else {
                match crate::codec::spec_lenenc(s, p1 + 2 + tnl) {
                    Err(e) => Err(e),
                    Ok(ccp) => {
                        let cc = ccp.0 as int;
                        let q = p1 + 2 + tnl + ccp.1;
                        if q + cc > end {
                            Err(DecodeError::NotEnoughData)
                        } else {
                            match crate::mysql::spec_col_types(s, q, cc) {
                                Err(e) => Err(e),
                                Ok(types) => match crate::codec::spec_lenenc(s, q + cc) {
                                    Err(e) => Err(e),
                                    Ok(mcp) => {
                                        let mc = mcp.0 as int;
                                        let m = q + cc + mcp.1;
                                        if m + mc > end {
                                            Err(DecodeError::NotEnoughData)
                                        } else {
                                            match crate::mysql::spec_col_defs(
                                                s,
                                                types,
                                                m,
                                                m + mc,
                                            ) {
                                                Err(e) => Err(e),
                                                Ok(cols) => {
                                                    let mask = (cc + 7) / 8;
                                                    if m + mc + mask != end {
                                                        Err(DecodeError::InvalidData)
                                                    } else {
                                                        Ok(TableMapV {
                                                            table_id: u48_at(s, i),
                                                            flags: u16_at(s, i + 6),
                                                            schema_length: s[i + 8],
                                                            schema: decode_utf8(
                                                                s.subrange(i + 9, i + 9 + sl),
                                                            ),
                                                            table_name_length: s[p1],
                                                            table_name: decode_utf8(
                                                                s.subrange(p1 + 1, p1 + 1 + tnl),
                                                            ),
                                                            column_count: ccp.0,
                                                            columns_type: cols,
                                                            null_bits: s.subrange(m + mc, end),
                                                            checksum: u32_at(s, end),
                                                        })
                                                    }
                                                },
                                            }
                                        }
                                    },
                                },
                            }
                        }
                    },
                }
            }
        }
    }
}

/// The table-map record a decoded payload denotes.
pub open spec fn table_map_matches(tm: TableMapV, h: Header, e: Event) -> bool {
    e matches Event::TableMap {
        header,
        table_id,
        flags,
        schema_length,
        schema,
        table_name_length,
        table_name,
        column_count,
        columns_type,
        null_bits,
        checksum,
    } && header == h && (table_id as nat) == tm.table_id && (flags as nat) == tm.flags
        && schema_length == tm.schema_length && schema@ == tm.schema && table_name_length
        == tm.table_name_length && table_name@ == tm.table_name && column_count == tm.column_count
        && columns_type@ == tm.columns_type && null_bits@ == tm.null_bits && (checksum as nat)
        == tm.checksum
}

/// Reads `cc` column-type bytes, each of which must be a known type code.
fn parse_col_type_list(cur: &mut Cursor, cc: usize) -> (r: Result<Vec<ColTypes>, DecodeError>)
    requires
        old(cur).wf(),
        old(cur).pos + cc <= old(cur).data@.len(),
    ensures
        final(cur).data == old(cur).data,
        final(cur).wf(),
        crate::mysql::spec_col_types(old(cur).data@, old(cur).pos as int, cc as int) matches Ok(
            ts,
        ) ==> r is Ok && r->Ok_0@ == ts && final(cur).pos == old(cur).pos + cc,
        crate::mysql::spec_col_types(old(cur).data@, old(cur).pos as int, cc as int) matches Err(e)
            ==> r == Err::<Vec<ColTypes>, DecodeError>(e),
{
    let ghost s = cur.data@;
    let ghost q = cur.pos as int;
    let mut types: Vec<ColTypes> = Vec::new();
    let mut k: usize = 0;
    while k < cc
        invariant
            cur.wf(),
            cur.data == old(cur).data,
            s == cur.data@,
            q == old(cur).pos,
            cur.pos == q + k,
            k <= cc,
            q + cc <= s.len(),
            types@.len() == k,
            match crate::mysql::spec_col_types(s, q + k, cc - k) {
                Ok(rest) => crate::mysql::spec_col_types(s, q, cc as int) == Ok::<_, DecodeError>(
                    types@ + rest,
                ),
                Err(e) => crate::mysql::spec_col_types(s, q, cc as int) == Err::<
                    Seq<ColTypes>,
                    DecodeError,
                >(e),
            },
        decreases cc - k,
    {
        let ghost types0 = types@;
        let b = match cur.read_u8() {
            Ok(v) => v,
            Err(e) => {
                return Err(e);
            },
        };
        let c = match crate::mysql::col_type_of(b) {
            Some(c) => c,
            None => {
                return Err(DecodeError::InvalidData);
            },
        };
        types.push(c);
        proof {
            assert(types@ =~= types0.push(c));
            match crate::mysql::spec_col_types(s, q + k + 1, cc - k - 1) {
                Ok(rest) => {
                    assert(crate::mysql::spec_col_types(s, q + k, cc - k) == Ok::<_, DecodeError>(
                        seq![c] + rest,
                    ));
                    assert(types0 + (seq![c] + rest) =~= types@ + rest);
                },
                Err(_) => {},
            }
        }
        k = k + 1;
    }
    proof {
        assert(types@ + Seq::<ColTypes>::empty() =~= types@);
    }
    Ok(types)
}

/// Reads one completed descriptor per listed type from the metadata block
/// ending at `meta_end`.
fn parse_col_def_list(cur: &mut Cursor, types: &Vec<ColTypes>, meta_end: usize) -> (r: Result<
    Vec<ColTypes>,
    DecodeError,
>)
    requires
        old(cur).wf(),
        old(cur).pos <= meta_end <= old(cur).data@.len(),
    ensures
        final(cur).data == old(cur).data,
        final(cur).wf(),
        final(cur).pos <= old(cur).data@.len(),
        crate::mysql::spec_col_defs(
            old(cur).data@,
            types@,
            old(cur).pos as int,
            meta_end as int,
        ) matches Ok(cs) ==> r is Ok && r->Ok_0@ == cs && final(cur).pos <= meta_end,
        crate::mysql::spec_col_defs(
            old(cur).data@,
            types@,
            old(cur).pos as int,
            meta_end as int,
        ) matches Err(e) ==> r == Err::<Vec<ColTypes>, DecodeError>(e),
{
    let ghost s = cur.data@;
    let ghost m = cur.pos as int;
    let mut columns: Vec<ColTypes> = Vec::new();
    let mut k: usize = 0;
    proof {
        assert(types@.subrange(0, types@.len() as int) =~= types@);
    }
    while k < types.len()
        invariant
            cur.wf(),
            cur.data == old(cur).data,
            s == cur.data@,
            m == old(cur).pos,
            k <= types@.len(),
            cur.pos <= meta_end <= s.len(),
            columns@.len() == k,
            match crate::mysql::spec_col_defs(
                s,
                types@.subrange(k as int, types@.len() as int),
                cur.pos as int,
                meta_end as int,
            ) {
                Ok(rest) => crate::mysql::spec_col_defs(s, types@, m, meta_end as int) == Ok::<
                    _,
                    DecodeError,
                >(columns@ + rest),
                Err(e) => crate::mysql::spec_col_defs(s, types@, m, meta_end as int) == Err::<
                    Seq<ColTypes>,
                    DecodeError,
                >(e),
            },
        decreases types@.len() - k,
    {
        let ghost cols0 = columns@;
        let ghost pos0 = cur.pos as int;
        let ghost remaining_types = types@.subrange(k as int, types@.len() as int);
        let ty = types[k];
        proof {
            assert(remaining_types[0] == types@[k as int]);
        }
        let def = match ty.parse_def(cur) {
            Ok(v) => v.1,
            Err(e) => {
                return Err(e);
            },
        };
        if cur.pos > meta_end {
            return Err(DecodeError::NotEnoughData);
        }
        columns.push(def);
        proof {
            assert(columns@ =~= cols0.push(def));
            assert(remaining_types.drop_first() =~= types@.subrange(k + 1, types@.len() as int));
            match crate::mysql::spec_col_defs(
                s,
                types@.subrange(k + 1, types@.len() as int),
                cur.pos as int,
                meta_end as int,
            ) {
                Ok(rest) => {
                    assert(crate::mysql::spec_col_defs(s, remaining_types, pos0, meta_end as int)
                        == Ok::<_, DecodeError>(seq![def] + rest));
                    assert(cols0 + (seq![def] + rest) =~= columns@ + rest);
                },
                Err(_) => {},
            }
        }
        k = k + 1;
    }
    proof {
        assert(columns@ + Seq::<ColTypes>::empty() =~= columns@);
        assert(types@.subrange(types@.len() as int, types@.len() as int)
            =~= Seq::<ColTypes>::empty());
    }
    Ok(columns)
}

/// Copies a column-type list, so the registry and the event each keep one.
fn copy_cols(v: &Vec<ColTypes>) -> (r: Vec<ColTypes>)
    ensures
        r@ == v@,
{
    let mut out: Vec<ColTypes> = Vec::new();
    let mut k: usize = 0;
    while k < v.len()
        invariant
            k <= v@.len(),
            out@ == v@.subrange(0, k as int),
        decreases v@.len() - k,
    {
        out.push(v[k]);
        proof {
            assert(out@ =~= v@.subrange(0, k + 1));
        }
        k = k + 1;
    }
    proof {
        assert(v@.subrange(0, v@.len() as int) =~= v@);
    }
    out
}

/// Decodes a table-map event and installs its column types in the registry,
/// so that the row events that follow can be decoded.
#[verifier::rlimit(100)]
#[verifier::spinoff_prover]
pub fn parse_table_map(cur: &mut Cursor, header: Header, ctx: &mut TableMapContext) -> (r: Result<
    Event,
    DecodeError,
>)
    requires
        old(cur).wf(),
    ensures
        final(cur).data == old(cur).data,
        final(cur).wf(),
        r is Ok <==> spec_table_map(old(cur).data@, old(cur).pos as int, header) is Ok,
        r matches Ok(e) ==> ({
            let tm = spec_table_map(old(cur).data@, old(cur).pos as int, header)->Ok_0;
            &&& table_map_matches(tm, header, e)
            &&& final(cur).pos == old(cur).pos + body_len(header)
            &&& e matches Event::TableMap { table_id, .. } && final(ctx)@.contains_key(table_id)
                && final(ctx)@[table_id]@ == tm.columns_type && final(ctx)@.remove(table_id)
                == old(ctx)@.remove(table_id)
        }),
        r is Err ==> r->Err_0 == spec_table_map(old(cur).data@, old(cur).pos as int, header)->Err_0
            && final(ctx)@ == old(ctx)@,
{
    proof {
        reveal(spec_table_map);
    }
    let ghost s = cur.data@;
    let ghost i = cur.pos as int;
    if header.event_size < 19 + 18 {
        return Err(DecodeError::InvalidData);
    }
    let blen = (header.event_size - 19) as usize;
    let dlen = cur.data.len();
    if dlen - cur.pos < blen {
        return Err(DecodeError::NotEnoughData);
    }
    let end = cur.pos + (blen - 4);
    let table_id = match cur.read_u48() {
        Ok(v) => v,
        Err(e) => {
            return Err(e);
        },
    };
    let flags = match cur.read_u16() {
        Ok(v) => v,
        Err(e) => {
            return Err(e);
        },
    };
    let schema_length = match cur.read_u8() {
        Ok(v) => v,
        Err(e) => {
            return Err(e);
        },
    };
    if end - cur.pos < schema_length as usize + 1 {
        return Err(DecodeError::NotEnoughData);
    }
    let schema = match cur.read_str(schema_length as usize) {
        Ok(v) => v,
        Err(e) => {
            return Err(e);
        },
    };
    let term = match cur.read_u8() {
        Ok(v) => v,
        Err(e) => {
            return Err(e);
        },
    };
    if term != 0 {
        return Err(DecodeError::InvalidData);
    }
    if end - cur.pos < 1 {
        return Err(DecodeError::NotEnoughData);
    }
    let table_name_length = match cur.read_u8() {
        Ok(v) => v,
        Err(e) => {
            return Err(e);
        },
    };
    if end - cur.pos < table_name_length as usize + 1 {
        return Err(DecodeError::NotEnoughData);
    }
    let table_name = match cur.read_str(table_name_length as usize) {
        Ok(v) => v,
        Err(e) => {
            return Err(e);
        },
    };
    let term = match cur.read_u8() {
        Ok(v) => v,
        Err(e) => {
            return Err(e);
        },
    };
    if term != 0 {
        return Err(DecodeError::InvalidData);
    }
    let column_count = match crate::codec::VLenInt::decode(cur) {
        Ok(v) => v.0,
        Err(e) => {
            return Err(e);
        },
    };
    if cur.pos > end || column_count > (end - cur.pos) as u64 {
        return Err(DecodeError::NotEnoughData);
    }
    let types = match parse_col_type_list(cur, column_count as usize) {
        Ok(v) => v,
        Err(e) => {
            return Err(e);
        },
    };
    let meta_count = match crate::codec::VLenInt::decode(cur) {
        Ok(v) => v.0,
        Err(e) => {
            return Err(e);
        },
    };
    if cur.pos > end || meta_count > (end - cur.pos) as u64 {
        return Err(DecodeError::NotEnoughData);
    }
    let meta_end = cur.pos + meta_count as usize;
    let columns = match parse_col_def_list(cur, &types, meta_end) {
        Ok(v) => v,
        Err(e) => {
            return Err(e);
        },
    };
    let _ = cur.skip(meta_end - cur.pos);
    let mask = ((column_count as u128 + 7) / 8) as u64;
    if mask != (end - cur.pos) as u64 {
        return Err(DecodeError::InvalidData);
    }
    let null_bits = match cur.read_vec(mask as usize) {
        Ok(v) => v,
        Err(e) => {
            return Err(e);
        },
    };
    let checksum = match cur.read_u32() {
        Ok(v) => v,
        Err(e) => {
            return Err(e);
        },
    };
    let installed = copy_cols(&columns);
    ctx.install(table_id, installed);
    Ok(Event::TableMap {
        header,
        table_id,
        flags,
        schema_length,
        schema,
        table_name_length,
        table_name,
        column_count,
        columns_type: columns,
        null_bits,
        checksum,
    })
}

/// The mathematical shadow of a row event's payload.
pub struct RowsEventV {
    pub table_id: nat,
    pub flags: Flags,
    pub extra_data_len: nat,
    pub extra_data: Seq<crate::rows::ExtraDataV>,
    pub column_count: u64,
    pub mask1: Seq<u8>,
    pub mask2: Seq<u8>,
    pub rows: Seq<Seq<crate::mysql::ColValuesV>>,
    pub checksum: nat,
}

/// A row event's payload at `i`, decoded against the registry `reg`: the
/// table id, the flag bits, the extra-data chain, the present masks (one, or
/// two for an update), and the row images filling the rest before the
/// checksum. A table id with no prior table-map installed is refused with
/// `InvalidData`.
#[verifier::opaque]
pub open spec fn spec_rows_event(
    s: Seq<u8>,
    i: int,
    h: Header,
    reg: Map<u64, Vec<ColTypes>>,
    two_masks: bool,
) -> Result<RowsEventV, DecodeError> {
    let bl = body_len(h);
    if bl < 15 {
        Err(DecodeError::InvalidData)
    } else if i + bl > s.len() {
        Err(DecodeError::NotEnoughData)
    } else {
        let end = i + bl - 4;
        let tid = u48_at(s, i) as u64;
        let edl = u16_at(s, i + 8) as int;
        if edl < 2 {
            Err(DecodeError::InvalidData)
        } else if i + 8 + edl > end {
            Err(DecodeError::NotEnoughData)
        } else {
            match crate::rows::spec_extra_chain(s, i + 10, i + 8 + edl) {
                Err(e) => Err(e),
                Ok(extra) => match crate::codec::spec_lenenc(s, i + 8 + edl) {
                    Err(e) => Err(e),
                    Ok(ccp) => {
                        let cc = ccp.0 as int;
                        let bit_len = (cc + 7) / 8;
                        let nmasks: int = if two_masks {
                            2
                        } else {
                            1
                        };
                        let mp = i + 8 + edl + ccp.1;
                        if mp + bit_len * nmasks > end {
                            Err(DecodeError::NotEnoughData)
                        } else {
                            let m1 = s.subrange(mp, mp + bit_len);
                            let m2 = if two_masks {
                                s.subrange(mp + bit_len, mp + 2 * bit_len)
                            } else {
                                m1
                            };
                            if !reg.contains_key(tid) {
                                Err(DecodeError::InvalidData)
                            } else {
                                match crate::rows::spec_row_images(
                                    s,
                                    mp + bit_len * nmasks,
                                    end,
                                    reg[tid]@,
                                    m1,
                                    m2,
                                    bit_len,
                                ) {
                                    Err(e) => Err(e),
                                    Ok(rows) => Ok(RowsEventV {
                                        table_id: u48_at(s, i),
                                        flags: crate::rows::spec_row_flags(
                                            u16_at(s, i + 6) as u16,
                                        ),
                                        extra_data_len: u16_at(s, i + 8),
                                        extra_data: extra,
                                        column_count: ccp.0,
                                        mask1: m1,
                                        mask2: m2,
                                        rows,
                                        checksum: u32_at(s, end),
                                    }),
                                }
                            }
                        }
                    },
                },
            }
        }
    }
}

/// The shared worker of the three row-event kinds: every component of the
/// denoted record, in order.
#[verifier::rlimit(100)]
#[verifier::spinoff_prover]
fn parse_rows_common(cur: &mut Cursor, header: &Header, ctx: &TableMapContext, two_masks: bool)
    -> (r: Result<(u64, Flags, u16, Vec<ExtraData>, u64, Vec<u8>, Vec<u8>, Vec<Vec<ColValues>>, u32), DecodeError>)
    requires
        old(cur).wf(),
    ensures
        final(cur).data == old(cur).data,
        final(cur).wf(),
        r is Ok <==> spec_rows_event(old(cur).data@, old(cur).pos as int, *header, ctx@, two_masks)
            is Ok,
        r matches Ok(p) ==> ({
            let re = spec_rows_event(
                old(cur).data@,
                old(cur).pos as int,
                *header,
                ctx@,
                two_masks,
            )->Ok_0;
            &&& (p.0 as nat) == re.table_id
            &&& p.1 == re.flags
            &&& (p.2 as nat) == re.extra_data_len
            &&& crate::rows::extra_views(p.3@) == re.extra_data
            &&& p.4 == re.column_count
            &&& p.5@ == re.mask1
            &&& p.6@ == re.mask2
            &&& crate::rows::row_views(p.7@) == re.rows
            &&& (p.8 as nat) == re.checksum
            &&& final(cur).pos == old(cur).pos + body_len(*header)
        }),
        r is Err ==> r->Err_0 == spec_rows_event(
            old(cur).data@,
            old(cur).pos as int,
            *header,
            ctx@,
            two_masks,
        )->Err_0,
{
    proof {
        reveal(spec_rows_event);
    }
    let ghost s = cur.data@;
    let ghost i = cur.pos as int;
    if header.event_size < 19 + 15 {
        return Err(DecodeError::InvalidData);
    }
    let blen = (header.event_size - 19) as usize;
    let dlen = cur.data.len();
    if dlen - cur.pos < blen {
        return Err(DecodeError::NotEnoughData);
    }
    let end = cur.pos + (blen - 4);
    let table_id = match cur.read_u48() {
        Ok(v) => v,
        Err(e) => {
            return Err(e);
        },
    };
    let f = match cur.read_u16() {
        Ok(v) => v,
        Err(e) => {
            return Err(e);
        },
    };
    let flags = crate::rows::row_flags(f);
    let extra_data_len = match cur.read_u16() {
        Ok(v) => v,
        Err(e) => {
            return Err(e);
        },
    };
    if extra_data_len < 2 {
        return Err(DecodeError::InvalidData);
    }
    if end - cur.pos < extra_data_len as usize - 2 {
        return Err(DecodeError::NotEnoughData);
    }
    let chain_end = cur.pos + (extra_data_len as usize - 2);
    let extra_data = match crate::rows::parse_extra_data(cur, chain_end) {
        Ok(v) => v,
        Err(e) => {
            return Err(e);
        },
    };
    let column_count = match crate::codec::VLenInt::decode(cur) {
        Ok(v) => v.0,
        Err(e) => {
            return Err(e);
        },
    };
    let bit_len = ((column_count as u128 + 7) / 8) as u64;
    let nmasks: u64 = if two_masks {
        2
    } else {
        1
    };
    if cur.pos > end || (bit_len as u128) * (nmasks as u128) > (end - cur.pos) as u128 {
        return Err(DecodeError::NotEnoughData);
    }
    let mask1 = match cur.read_vec(bit_len as usize) {
        Ok(v) => v,
        Err(e) => {
            return Err(e);
        },
    };
    let mask2 = if two_masks {
        match cur.read_vec(bit_len as usize) {
            Ok(v) => v,
            Err(e) => {
                return Err(e);
            },
        }
    } else {
        crate::rows::copy_mask(&mask1)
    };
    let cols = match ctx.lookup(table_id) {
        Some(c) => c,
        None => {
            return Err(DecodeError::InvalidData);
        },
    };
    let rows = match crate::rows::parse_row_images(cur, end, cols, &mask1, &mask2, bit_len as usize)
        {
        Ok(v) => v,
        Err(e) => {
            return Err(e);
        },
    };
    let checksum = match cur.read_u32() {
        Ok(v) => v,
        Err(e) => {
            return Err(e);
        },
    };
    Ok((table_id, flags, extra_data_len, extra_data, column_count, mask1, mask2, rows, checksum))
}

pub open spec fn write_rows_matches(re: RowsEventV, h: Header, e: Event) -> bool {
    e matches Event::WriteRowsV2 {
        header,
        table_id,
        flags,
        extra_data_len,
        extra_data,
        column_count,
        inserted_image_bits,
        rows,
        checksum,
    } && header == h && (table_id as nat) == re.table_id && flags == re.flags && (
    extra_data_len as nat) == re.extra_data_len && crate::rows::extra_views(extra_data@)
        == re.extra_data && column_count == re.column_count && inserted_image_bits@ == re.mask1
        && crate::rows::row_views(rows@) == re.rows && (checksum as nat) == re.checksum
}

pub open spec fn delete_rows_matches(re: RowsEventV, h: Header, e: Event) -> bool {
    e matches Event::DeleteRowsV2 {
        header,
        table_id,
        flags,
        extra_data_len,
        extra_data,
        column_count,
        deleted_image_bits,
        rows,
        checksum,
    } && header == h && (table_id as nat) == re.table_id && flags == re.flags && (
    extra_data_len as nat) == re.extra_data_len && crate::rows::extra_views(extra_data@)
        == re.extra_data && column_count == re.column_count && deleted_image_bits@ == re.mask1
        && crate::rows::row_views(rows@) == re.rows && (checksum as nat) == re.checksum
}

pub open spec fn update_rows_matches(re: RowsEventV, h: Header, e: Event) -> bool {
    e matches Event::UpdateRowsV2 {
        header,
        table_id,
        flags,
        extra_data_len,
        extra_data,
        column_count,
        before_image_bits,
        after_image_bits,
        rows,
        checksum,
    } && header == h && (table_id as nat) == re.table_id && flags == re.flags && (
    extra_data_len as nat) == re.extra_data_len && crate::rows::extra_views(extra_data@)
        == re.extra_data && column_count == re.column_count && before_image_bits@ == re.mask1
        && after_image_bits@ == re.mask2 && crate::rows::row_views(rows@) == re.rows && (
    checksum as nat) == re.checksum
}

/// Decodes an insert row event against the registry's column types.
pub fn parse_write_rows_v2(cur: &mut Cursor, header: Header, ctx: &TableMapContext) -> (r: Result<
    Event,
    DecodeError,
>)
    requires
        old(cur).wf(),
    ensures
        final(cur).data == old(cur).data,
        final(cur).wf(),
        r is Ok <==> spec_rows_event(old(cur).data@, old(cur).pos as int, header, ctx@, false)
            is Ok,
        r matches Ok(e) ==> write_rows_matches(
            spec_rows_event(old(cur).data@, old(cur).pos as int, header, ctx@, false)->Ok_0,
            header,
            e,
        ) && final(cur).pos == old(cur).pos + body_len(header),
        r is Err ==> r->Err_0 == spec_rows_event(
            old(cur).data@,
            old(cur).pos as int,
            header,
            ctx@,
            false,
        )->Err_0,
{
    let (table_id, flags, extra_data_len, extra_data, column_count, mask1, _mask2, rows, checksum)
        = match parse_rows_common(cur, &header, ctx, false) {
        Ok(v) => v,
        Err(e) => {
            return Err(e);
        },
    };
    Ok(Event::WriteRowsV2 {
        header,
        table_id,
        flags,
        extra_data_len,
        extra_data,
        column_count,
        inserted_image_bits: mask1,
        rows,
        checksum,
    })
}

/// Decodes a delete row event against the registry's column types.
pub fn parse_delete_rows_v2(cur: &mut Cursor, header: Header, ctx: &TableMapContext) -> (r: Result<
    Event,
    DecodeError,
>)
    requires
        old(cur).wf(),
    ensures
        final(cur).data == old(cur).data,
        final(cur).wf(),
        r is Ok <==> spec_rows_event(old(cur).data@, old(cur).pos as int, header, ctx@, false)
            is Ok,
        r matches Ok(e) ==> delete_rows_matches(
            spec_rows_event(old(cur).data@, old(cur).pos as int, header, ctx@, false)->Ok_0,
            header,
            e,
        ) && final(cur).pos == old(cur).pos + body_len(header),
        r is Err ==> r->Err_0 == spec_rows_event(
            old(cur).data@,
            old(cur).pos as int,
            header,
            ctx@,
            false,
        )->Err_0,
{
    let (table_id, flags, extra_data_len, extra_data, column_count, mask1, _mask2, rows, checksum)
        = match parse_rows_common(cur, &header, ctx, false) {
        Ok(v) => v,
        Err(e) => {
            return Err(e);
        },
    };
    Ok(Event::DeleteRowsV2 {
        header,
        table_id,
        flags,
        extra_data_len,
        extra_data,
        column_count,
        deleted_image_bits: mask1,
        rows,
        checksum,
    })
}

/// Decodes an update row event: the images alternate between the before and
/// after present masks.
pub fn parse_update_rows_v2(cur: &mut Cursor, header: Header, ctx: &TableMapContext) -> (r: Result<
    Event,
    DecodeError,
>)
    requires
        old(cur).wf(),
    ensures
        final(cur).data == old(cur).data,
        final(cur).wf(),
        r is Ok <==> spec_rows_event(old(cur).data@, old(cur).pos as int, header, ctx@, true)
            is Ok,
        r matches Ok(e) ==> update_rows_matches(
            spec_rows_event(old(cur).data@, old(cur).pos as int, header, ctx@, true)->Ok_0,
            header,
            e,
        ) && final(cur).pos == old(cur).pos + body_len(header),
        r is Err ==> r->Err_0 == spec_rows_event(
            old(cur).data@,
            old(cur).pos as int,
            header,
            ctx@,
            true,
        )->Err_0,
{
    let (table_id, flags, extra_data_len, extra_data, column_count, mask1, mask2, rows, checksum) =
        match parse_rows_common(cur, &header, ctx, true) {
        Ok(v) => v,
        Err(e) => {
            return Err(e);
        },
    };
    Ok(Event::UpdateRowsV2 {
        header,
        table_id,
        flags,
        extra_data_len,
        extra_data,
        column_count,
        before_image_bits: mask1,
        after_image_bits: mask2,
        rows,
        checksum,
    })
}

/// The sum of a run of length bytes.
pub open spec fn sum_bytes(s: Seq<u8>) -> int
    decreases s.len(),
{
    if s.len() == 0 {
        0
    } else {
        sum_bytes(s.drop_last()) + s.last()
    }
}

/// The bulk-load option flag record a byte denotes.
pub open spec fn spec_opt_flags(f: u8) -> OptFlags {
    OptFlags {
        dump_file: (f >> 0u8) % 2 == 1,
        opt_enclosed: (f >> 1u8) % 2 == 1,
        replace: (f >> 2u8) % 2 == 1,
        ignore: (f >> 3u8) % 2 == 1,
    }
}

/// The bulk-load empty flag record a byte denotes.
pub open spec fn spec_empty_flags(f: u8) -> EmptyFlags {
    EmptyFlags {
        field_term_empty: (f >> 0u8) % 2 == 1,
        enclosed_empty: (f >> 1u8) % 2 == 1,
        line_term_empty: (f >> 2u8) % 2 == 1,
        line_start_empty: (f >> 3u8) % 2 == 1,
        escape_empty: (f >> 4u8) % 2 == 1,
    }
}

fn build_opt_flags(f: u8) -> (r: OptFlags)
    ensures
        r == spec_opt_flags(f),
{
    OptFlags {
        dump_file: (f >> 0u8) % 2 == 1,
        opt_enclosed: (f >> 1u8) % 2 == 1,
        replace: (f >> 2u8) % 2 == 1,
        ignore: (f >> 3u8) % 2 == 1,
    }
}

fn build_empty_flags(f: u8) -> (r: EmptyFlags)
    ensures
        r == spec_empty_flags(f),
{
    EmptyFlags {
        field_term_empty: (f >> 0u8) % 2 == 1,
        enclosed_empty: (f >> 1u8) % 2 == 1,
        line_term_empty: (f >> 2u8) % 2 == 1,
        line_start_empty: (f >> 3u8) % 2 == 1,
        escape_empty: (f >> 4u8) % 2 == 1,
    }
}

/// The mathematical shadow of a bulk-load event's variable tail: the field
/// name lengths and names, and the three zero-padded names that follow.
pub struct ManyFieldsV {
    pub field_name_lengths: Seq<u8>,
    pub field_names: Seq<Seq<char>>,
    pub table_name: Seq<char>,
    pub schema_name: Seq<char>,
    pub file_name: Seq<char>,
}

/// The variable tail of a bulk-load event at `j`: `nf` name-length bytes, a
/// region of that many terminated names, the table and schema names with
/// their terminators, and the file name filling the rest of `[j, end)`.
pub open spec fn spec_many_fields(s: Seq<u8>, j: int, end: int, nf: int, tnl: int, sl: int)
    -> Result<ManyFieldsV, DecodeError> {
    if j + nf > end {
        Err(DecodeError::NotEnoughData)
    } else {
        let lens = s.subrange(j, j + nf);
        let total = sum_bytes(lens) + nf;
        let a = j + nf;
        if a + total > end {
            Err(DecodeError::NotEnoughData)
        } else {
            match crate::query::spec_nul_names(s, a, a + total, nf as nat) {
                Err(e) => Err(e),
                Ok(np) => {
                    let b = a + total;
                    if b + tnl + sl + 2 > end {
                        Err(DecodeError::NotEnoughData)
                    } else {
                        let traw = crate::codec::prefix_to_nul(s.subrange(b, b + tnl + 1));
                        let c = b + tnl + 1;
                        let sraw = crate::codec::prefix_to_nul(s.subrange(c, c + sl + 1));
                        let d = c + sl + 1;
                        let fraw = crate::codec::prefix_to_nul(s.subrange(d, end));
                        if valid_utf8(traw) && valid_utf8(sraw) && valid_utf8(fraw) {
                            Ok(ManyFieldsV {
                                field_name_lengths: lens,
                                field_names: np.0,
                                table_name: decode_utf8(traw),
                                schema_name: decode_utf8(sraw),
                                file_name: decode_utf8(fraw),
                            })
                        } else {
                            Err(DecodeError::InvalidUtf8)
                        }
                    }
                },
            }
        }
    }
}

/// Reads a zero-padded name region of `n` bytes.
fn read_padded_name(cur: &mut Cursor, n: usize) -> (r: Result<String, DecodeError>)
    requires
        old(cur).wf(),
        old(cur).remaining_spec() >= n,
    ensures
        final(cur).data == old(cur).data,
        final(cur).wf(),
        ({
            let raw = crate::codec::prefix_to_nul(
                old(cur).data@.subrange(old(cur).pos as int, old(cur).pos + n),
            );
            &&& (r is Ok <==> valid_utf8(raw))
            &&& r matches Ok(v) ==> v@ == decode_utf8(raw) && final(cur).pos == old(cur).pos + n
            &&& !valid_utf8(raw) ==> r == Err::<String, DecodeError>(DecodeError::InvalidUtf8)
        }),
{
    let raw = match cur.read_vec(n) {
        Ok(v) => v,
        Err(e) => {
            return Err(e);
        },
    };
    let head = crate::codec::extract_prefix(raw.as_slice());
    crate::codec::slice_to_string(head)
}

/// Reads the variable tail of a bulk-load event, which fills `[pos, end)`
/// exactly.
fn extract_many_fields(cur: &mut Cursor, end: usize, nf: u32, tnl: u8, sl: u8) -> (r: Result<
    (Vec<u8>, Vec<String>, String, String, String),
    DecodeError,
>)
    requires
        old(cur).wf(),
        old(cur).pos <= end <= old(cur).data@.len(),
    ensures
        final(cur).data == old(cur).data,
        final(cur).wf(),
        spec_many_fields(
            old(cur).data@,
            old(cur).pos as int,
            end as int,
            nf as int,
            tnl as int,
            sl as int,
        ) matches Ok(m) ==> {
            &&& r is Ok
            &&& r->Ok_0.0@ == m.field_name_lengths
            &&& crate::query::str_views(r->Ok_0.1@) == m.field_names
            &&& r->Ok_0.2@ == m.table_name
            &&& r->Ok_0.3@ == m.schema_name
            &&& r->Ok_0.4@ == m.file_name
            &&& final(cur).pos == end
        },
        spec_many_fields(
            old(cur).data@,
            old(cur).pos as int,
            end as int,
            nf as int,
            tnl as int,
            sl as int,
        ) matches Err(e) ==> r == Err::<(Vec<u8>, Vec<String>, String, String, String), DecodeError>(
            e,
        ),
{
    let ghost s = cur.data@;
    let ghost j = cur.pos as int;
    if end - cur.pos < nf as usize {
        return Err(DecodeError::NotEnoughData);
    }
    let lens = match cur.read_vec(nf as usize) {
        Ok(v) => v,
        Err(e) => {
            return Err(e);
        },
    };
    let mut sum: u64 = 0;
    let mut k: usize = 0;
    proof {
        assert(lens@.subrange(0, 0) =~= Seq::<u8>::empty());
    }
    while k < lens.len()
        invariant
            k <= lens@.len(),
            lens@.len() <= 0xffffffff,
            sum <= 255 * k,
            sum == sum_bytes(lens@.subrange(0, k as int)),
        decreases lens@.len() - k,
    {
        let b = lens[k];
        proof {
            assert(lens@.subrange(0, k + 1).drop_last() =~= lens@.subrange(0, k as int));
            assert(lens@.subrange(0, k + 1).last() == lens@[k as int]);
        }
        sum = sum + b as u64;
        k = k + 1;
    }
    proof {
        assert(lens@.subrange(0, lens@.len() as int) =~= lens@);
    }
    let total = sum + nf as u64;
    if ((end - cur.pos) as u64) < total {
        return Err(DecodeError::NotEnoughData);
    }
    let names_end = cur.pos + total as usize;
    proof {
        crate::query::lemma_nul_names_bounds(s, cur.pos as int, names_end as int, nf as nat);
    }
    let names = match crate::query::read_nul_names(cur, names_end, nf) {
        Ok(v) => v,
        Err(e) => {
            return Err(e);
        },
    };
    let _ = cur.skip(names_end - cur.pos);
    if end - cur.pos < tnl as usize + sl as usize + 2 {
        return Err(DecodeError::NotEnoughData);
    }
    let table_name = match read_padded_name(cur, tnl as usize + 1) {
        Ok(v) => v,
        Err(e) => {
            return Err(e);
        },
    };
    let schema_name = match read_padded_name(cur, sl as usize + 1) {
        Ok(v) => v,
        Err(e) => {
            return Err(e);
        },
    };
    let file_name = match read_padded_name(cur, end - cur.pos) {
        Ok(v) => v,
        Err(e) => {
            return Err(e);
        },
    };
    Ok((lens, names, table_name, schema_name, file_name))
}

/// The mathematical shadow of a bulk-load event's payload.
pub struct LoadV {
    pub thread_id: nat,
    pub execution_time: nat,
    pub skip_lines: nat,
    pub table_name_length: u8,
    pub schema_length: u8,
    pub num_fields: nat,
    pub field_term: u8,
    pub enclosed_by: u8,
    pub line_term: u8,
    pub line_start: u8,
    pub escaped_by: u8,
    pub opt_flags: OptFlags,
    pub empty_flags: EmptyFlags,
    pub fields: ManyFieldsV,
    pub checksum: nat,
}

/// The bulk-load payload at `i`: the fixed descriptors, the flag bytes, and
/// the variable tail filling the rest before the checksum.
#[verifier::opaque]
pub open spec fn spec_load(s: Seq<u8>, i: int, h: Header) -> Result<LoadV, DecodeError> {
    let bl = body_len(h);
    if bl < 31 {
        Err(DecodeError::InvalidData)
    } else if i + bl > s.len() {
        Err(DecodeError::NotEnoughData)
    } else {
        let end = i + bl - 4;
        let nf = u32_at(s, i + 14) as int;
        match spec_many_fields(s, i + 25, end, nf, s[i + 12] as int, s[i + 13] as int) {
            Err(e) => Err(e),
            Ok(m) => Ok(LoadV {
                thread_id: u32_at(s, i),
                execution_time: u32_at(s, i + 4),
                skip_lines: u32_at(s, i + 8),
                table_name_length: s[i + 12],
                schema_length: s[i + 13],
                num_fields: u32_at(s, i + 14),
                field_term: s[i + 18],
                enclosed_by: s[i + 19],
                line_term: s[i + 20],
                line_start: s[i + 21],
                escaped_by: s[i + 22],
                opt_flags: spec_opt_flags(s[i + 23]),
                empty_flags: spec_empty_flags(s[i + 24]),
                fields: m,
                checksum: u32_at(s, end),
            }),
        }
    }
}

pub open spec fn load_matches(lv: LoadV, h: Header, e: Event) -> bool {
    e matches Event::Load {
        header,
        thread_id,
        execution_time,
        skip_lines,
        table_name_length,
        schema_length,
        num_fields,
        field_term,
        enclosed_by,
        line_term,
        line_start,
        escaped_by,
        opt_flags,
        empty_flags,
        field_name_lengths,
        field_names,
        table_name,
        schema_name,
        file_name,
        checksum,
    } && header == h && (thread_id as nat) == lv.thread_id && (execution_time as nat)
        == lv.execution_time && (skip_lines as nat) == lv.skip_lines && table_name_length
        == lv.table_name_length && schema_length == lv.schema_length && (num_fields as nat)
        == lv.num_fields && field_term == lv.field_term && enclosed_by == lv.enclosed_by
        && line_term == lv.line_term && line_start == lv.line_start && escaped_by == lv.escaped_by
        && opt_flags == lv.opt_flags && empty_flags == lv.empty_flags && field_name_lengths@
        == lv.fields.field_name_lengths && crate::query::str_views(field_names@)
        == lv.fields.field_names && table_name@ == lv.fields.table_name && schema_name@
        == lv.fields.schema_name && file_name@ == lv.fields.file_name && (checksum as nat)
        == lv.checksum
}

/// Decodes a legacy bulk-load event.
#[verifier::rlimit(100)]
#[verifier::spinoff_prover]
pub fn parse_load(cur: &mut Cursor, header: Header) -> (r: Result<Event, DecodeError>)
    requires
        old(cur).wf(),
    ensures
        final(cur).data == old(cur).data,
        final(cur).wf(),
        r is Ok <==> spec_load(old(cur).data@, old(cur).pos as int, header) is Ok,
        r matches Ok(e) ==> load_matches(
            spec_load(old(cur).data@, old(cur).pos as int, header)->Ok_0,
            header,
            e,
        ) && final(cur).pos == old(cur).pos + body_len(header),
        r is Err ==> r->Err_0 == spec_load(old(cur).data@, old(cur).pos as int, header)->Err_0,
{
    proof {
        reveal(spec_load);
    }
    if header.event_size < 19 + 31 {
        return Err(DecodeError::InvalidData);
    }
    let blen = (header.event_size - 19) as usize;
    let dlen = cur.data.len();
    if dlen - cur.pos < blen {
        return Err(DecodeError::NotEnoughData);
    }
    let end = cur.pos + (blen - 4);
    let thread_id = match cur.read_u32() {
        Ok(v) => v,
        Err(e) => {
            return Err(e);
        },
    };
    let execution_time = match cur.read_u32() {
        Ok(v) => v,
        Err(e) => {
            return Err(e);
        },
    };
    let skip_lines = match cur.read_u32() {
        Ok(v) => v,
        Err(e) => {
            return Err(e);
        },
    };
    let table_name_length = match cur.read_u8() {
        Ok(v) => v,
        Err(e) => {
            return Err(e);
        },
    };
    let schema_length = match cur.read_u8() {
        Ok(v) => v,
        Err(e) => {
            return Err(e);
        },
    };
    let num_fields = match cur.read_u32() {
        Ok(v) => v,
        Err(e) => {
            return Err(e);
        },
    };
    let field_term = match cur.read_u8() {
        Ok(v) => v,
        Err(e) => {
            return Err(e);
        },
    };
    let enclosed_by = match cur.read_u8() {
        Ok(v) => v,
        Err(e) => {
            return Err(e);
        },
    };
    let line_term = match cur.read_u8() {
        Ok(v) => v,
        Err(e) => {
            return Err(e);
        },
    };
    let line_start = match cur.read_u8() {
        Ok(v) => v,
        Err(e) => {
            return Err(e);
        },
    };
    let escaped_by = match cur.read_u8() {
        Ok(v) => v,
        Err(e) => {
            return Err(e);
        },
    };
    let of = match cur.read_u8() {
        Ok(v) => v,
        Err(e) => {
            return Err(e);
        },
    };
    let opt_flags = build_opt_flags(of);
    let ef = match cur.read_u8() {
        Ok(v) => v,
        Err(e) => {
            return Err(e);
        },
    };
    let empty_flags = build_empty_flags(ef);
    let (field_name_lengths, field_names, table_name, schema_name, file_name) =
        match extract_many_fields(cur, end, num_fields, table_name_length, schema_length) {
        Ok(v) => v,
        Err(e) => {
            return Err(e);
        },
    };
    let checksum = match cur.read_u32() {
        Ok(v) => v,
        Err(e) => {
            return Err(e);
        },
    };
    Ok(Event::Load {
        header,
        thread_id,
        execution_time,
        skip_lines,
        table_name_length,
        schema_length,
        num_fields,
        field_term,
        enclosed_by,
        line_term,
        line_start,
        escaped_by,
        opt_flags,
        empty_flags,
        field_name_lengths,
        field_names,
        table_name,
        schema_name,
        file_name,
        checksum,
    })
}

/// A length-prefixed separator string of a bulk-load descriptor: the length
/// byte, the characters, and the position after them.
pub open spec fn spec_prev_str(s: Seq<u8>, j: int, end: int) -> Result<
    (u8, Seq<char>, int),
    DecodeError,
> {
    if j + 1 > end {
        Err(DecodeError::NotEnoughData)
    } else {
        let l = s[j] as int;
        if j + 1 + l > end {
            Err(DecodeError::NotEnoughData)
        } else {
            let raw = s.subrange(j + 1, j + 1 + l);
            if valid_utf8(raw) {
                Ok((s[j], decode_utf8(raw), j + 1 + l))
            } else {
                Err(DecodeError::InvalidUtf8)
            }
        }
    }
}

/// Reads one length-prefixed separator string, staying before `end`.
fn read_prev_str(cur: &mut Cursor, end: usize) -> (r: Result<(u8, String), DecodeError>)
    requires
        old(cur).wf(),
        end <= old(cur).data@.len(),
    ensures
        final(cur).data == old(cur).data,
        final(cur).wf(),
        spec_prev_str(old(cur).data@, old(cur).pos as int, end as int) matches Ok(p) ==> {
            &&& r is Ok
            &&& r->Ok_0.0 == p.0
            &&& r->Ok_0.1@ == p.1
            &&& final(cur).pos == p.2
            &&& p.2 <= end
        },
        spec_prev_str(old(cur).data@, old(cur).pos as int, end as int) matches Err(e) ==> r
            == Err::<(u8, String), DecodeError>(e),
{
    if cur.pos >= end {
        return Err(DecodeError::NotEnoughData);
    }
    let l = match cur.read_u8() {
        Ok(v) => v,
        Err(e) => {
            return Err(e);
        },
    };
    if end - cur.pos < l as usize {
        return Err(DecodeError::NotEnoughData);
    }
    let v = match cur.read_str(l as usize) {
        Ok(v) => v,
        Err(e) => {
            return Err(e);
        },
    };
    Ok((l, v))
}

/// The mathematical shadow of the newer bulk-load event's payload.
pub struct NewLoadV {
    pub thread_id: nat,
    pub execution_time: nat,
    pub skip_lines: nat,
    pub table_name_length: u8,
    pub schema_length: u8,
    pub num_fields: nat,
    pub field_term_length: u8,
    pub field_term: Seq<char>,
    pub enclosed_by_length: u8,
    pub enclosed_by: Seq<char>,
    pub line_term_length: u8,
    pub line_term: Seq<char>,
    pub line_start_length: u8,
    pub line_start: Seq<char>,
    pub escaped_by_length: u8,
    pub escaped_by: Seq<char>,
    pub opt_flags: OptFlags,
    pub fields: ManyFieldsV,
    pub checksum: nat,
}

/// The newer bulk-load payload at `i`: the fixed descriptors, five
/// length-prefixed separator strings, the option flags, and the variable
/// tail filling the rest before the checksum.
#[verifier::opaque]
pub open spec fn spec_new_load(s: Seq<u8>, i: int, h: Header) -> Result<NewLoadV, DecodeError> {
    let bl = body_len(h);
    if bl < 30 {
        Err(DecodeError::InvalidData)
    } else if i + bl > s.len() {
        Err(DecodeError::NotEnoughData)
    } else {
        let end = i + bl - 4;
        match spec_prev_str(s, i + 18, end) {
            Err(e) => Err(e),
            Ok(ft) => match spec_prev_str(s, ft.2, end) {
                Err(e) => Err(e),
                Ok(en) => match spec_prev_str(s, en.2, end) {
                    Err(e) => Err(e),
                    Ok(lt) => match spec_prev_str(s, lt.2, end) {
                        Err(e) => Err(e),
                        Ok(ls) => match spec_prev_str(s, ls.2, end) {
                            Err(e) => Err(e),
                            Ok(es) => if es.2 + 1 > end {
                                Err(DecodeError::NotEnoughData)
                            } else {
                                match spec_many_fields(
                                    s,
                                    es.2 + 1,
                                    end,
                                    u32_at(s, i + 14) as int,
                                    s[i + 12] as int,
                                    s[i + 13] as int,
                                ) {
                                    Err(e) => Err(e),
                                    Ok(m) => Ok(NewLoadV {
                                        thread_id: u32_at(s, i),
                                        execution_time: u32_at(s, i + 4),
                                        skip_lines: u32_at(s, i + 8),
                                        table_name_length: s[i + 12],
                                        schema_length: s[i + 13],
                                        num_fields: u32_at(s, i + 14),
                                        field_term_length: ft.0,
                                        field_term: ft.1,
                                        enclosed_by_length: en.0,
                                        enclosed_by: en.1,
                                        line_term_length: lt.0,
                                        line_term: lt.1,
                                        line_start_length: ls.0,
                                        line_start: ls.1,
                                        escaped_by_length: es.0,
                                        escaped_by: es.1,
                                        opt_flags: spec_opt_flags(s[es.2]),
                                        fields: m,
                                        checksum: u32_at(s, end),
                                    }),
                                }
                            },
                        },
                    },
                },
            },
        }
    }
}

pub open spec fn new_load_matches(lv: NewLoadV, h: Header, e: Event) -> bool {
    e matches Event::NewLoad {
        header,
        thread_id,
        execution_time,
        skip_lines,
        table_name_length,
        schema_length,
        num_fields,
        field_term_length,
        field_term,
        enclosed_by_length,
        enclosed_by,
        line_term_length,
        line_term,
        line_start_length,
        line_start,
        escaped_by_length,
        escaped_by,
        opt_flags,
        field_name_lengths,
        field_names,
        table_name,
        schema_name,
        file_name,
        checksum,
    } && header == h && (thread_id as nat) == lv.thread_id && (execution_time as nat)
        == lv.execution_time && (skip_lines as nat) == lv.skip_lines && table_name_length
        == lv.table_name_length && schema_length == lv.schema_length && (num_fields as nat)
        == lv.num_fields && field_term_length == lv.field_term_length && field_term@
        == lv.field_term && enclosed_by_length == lv.enclosed_by_length && enclosed_by@
        == lv.enclosed_by && line_term_length == lv.line_term_length && line_term@ == lv.line_term
        && line_start_length == lv.line_start_length && line_start@ == lv.line_start
        && escaped_by_length == lv.escaped_by_length && escaped_by@ == lv.escaped_by && opt_flags
        == lv.opt_flags && field_name_lengths@ == lv.fields.field_name_lengths
        && crate::query::str_views(field_names@) == lv.fields.field_names && table_name@
        == lv.fields.table_name && schema_name@ == lv.fields.schema_name && file_name@
        == lv.fields.file_name && (checksum as nat) == lv.checksum
}

/// Decodes the newer bulk-load event.
#[verifier::rlimit(100)]
#[verifier::spinoff_prover]
pub fn parse_new_load(cur: &mut Cursor, header: Header) -> (r: Result<Event, DecodeError>)
    requires
        old(cur).wf(),
    ensures
        final(cur).data == old(cur).data,
        final(cur).wf(),
        r is Ok <==> spec_new_load(old(cur).data@, old(cur).pos as int, header) is Ok,
        r matches Ok(e) ==> new_load_matches(
            spec_new_load(old(cur).data@, old(cur).pos as int, header)->Ok_0,
            header,
            e,
        ) && final(cur).pos == old(cur).pos + body_len(header),
        r is Err ==> r->Err_0 == spec_new_load(old(cur).data@, old(cur).pos as int, header)->Err_0,
{
    proof {
        reveal(spec_new_load);
    }
    if header.event_size < 19 + 30 {
        return Err(DecodeError::InvalidData);
    }
    let blen = (header.event_size - 19) as usize;
    let dlen = cur.data.len();
    if dlen - cur.pos < blen {
        return Err(DecodeError::NotEnoughData);
    }
    let end = cur.pos + (blen - 4);
    let thread_id = match cur.read_u32() {
        Ok(v) => v,
        Err(e) => {
            return Err(e);
        },
    };
    let execution_time = match cur.read_u32() {
        Ok(v) => v,
        Err(e) => {
            return Err(e);
        },
    };
    let skip_lines = match cur.read_u32() {
        Ok(v) => v,
        Err(e) => {
            return Err(e);
        },
    };
    let table_name_length = match cur.read_u8() {
        Ok(v) => v,
        Err(e) => {
            return Err(e);
        },
    };
    let schema_length = match cur.read_u8() {
        Ok(v) => v,
        Err(e) => {
            return Err(e);
        },
    };
    let num_fields = match cur.read_u32() {
        Ok(v) => v,
        Err(e) => {
            return Err(e);
        },
    };
    let (field_term_length, field_term) = match read_prev_str(cur, end) {
        Ok(v) => v,
        Err(e) => {
            return Err(e);
        },
    };
    let (enclosed_by_length, enclosed_by) = match read_prev_str(cur, end) {
        Ok(v) => v,
        Err(e) => {
            return Err(e);
        },
    };
    let (line_term_length, line_term) = match read_prev_str(cur, end) {
        Ok(v) => v,
        Err(e) => {
            return Err(e);
        },
    };
    let (line_start_length, line_start) = match read_prev_str(cur, end) {
        Ok(v) => v,
        Err(e) => {
            return Err(e);
        },
    };
    let (escaped_by_length, escaped_by) = match read_prev_str(cur, end) {
        Ok(v) => v,
        Err(e) => {
            return Err(e);
        },
    };
    if cur.pos >= end {
        return Err(DecodeError::NotEnoughData);
    }
    let of = match cur.read_u8() {
        Ok(v) => v,
        Err(e) => {
            return Err(e);
        },
    };
    let opt_flags = build_opt_flags(of);
    let (field_name_lengths, field_names, table_name, schema_name, file_name) =
        match extract_many_fields(cur, end, num_fields, table_name_length, schema_length) {
        Ok(v) => v,
        Err(e) => {
            return Err(e);
        },
    };
    let checksum = match cur.read_u32() {
        Ok(v) => v,
        Err(e) => {
            return Err(e);
        },
    };
    Ok(Event::NewLoad {
        header,
        thread_id,
        execution_time,
        skip_lines,
        table_name_length,
        schema_length,
        num_fields,
        field_term_length,
        field_term,
        enclosed_by_length,
        enclosed_by,
        line_term_length,
        line_term,
        line_start_length,
        line_start,
        escaped_by_length,
        escaped_by,
        opt_flags,
        field_name_lengths,
        field_names,
        table_name,
        schema_name,
        file_name,
        checksum,
    })
}

/// Whether the payload at `j` decodes for the given header, by its type
/// code; an unrecognised code decodes as an opaque record.
pub open spec fn event_wf(s: Seq<u8>, j: int, h: Header, reg: Map<u64, Vec<ColTypes>>) -> bool {
    let t = h.event_type;
    if t == 0x00 {
        unknown_wf(s, j, h)
    } else if t == 0x02 {
        query_wf(s, j, h)
    } else if t == 0x03 {
        bare_wf(s, j, h)
    } else if t == 0x04 {
        rotate_wf(s, j, h)
    } else if t == 0x05 {
        intvar_wf(s, j, h)
    } else if t == 0x06 {
        spec_load(s, j, h) is Ok
    } else if t == 0x07 {
        bare_wf(s, j, h)
    } else if t == 0x08 || t == 0x09 || t == 0x11 {
        file_data_wf(s, j, h)
    } else if t == 0x0a || t == 0x0b {
        fixed_wf(s, j, h, 2)
    } else if t == 0x0c {
        spec_new_load(s, j, h) is Ok
    } else if t == 0x0d {
        fixed_wf(s, j, h, 16)
    } else if t == 0x0e {
        user_var_wf(s, j, h)
    } else if t == 0x0f {
        format_desc_wf(s, j, h)
    } else if t == 0x10 {
        fixed_wf(s, j, h, 8)
    } else if t == 0x12 {
        execute_load_query_wf(s, j, h)
    } else if t == 0x13 {
        spec_table_map(s, j, h) is Ok
    } else if t == 0x1a {
        incident_wf(s, j, h)
    } else if t == 0x1b {
        bare_wf(s, j, h)
    } else if t == 0x1d {
        row_query_wf(s, j, h)
    } else if t == 0x1e {
        spec_rows_event(s, j, h, reg, false) is Ok
    } else if t == 0x1f {
        spec_rows_event(s, j, h, reg, true) is Ok
    } else if t == 0x20 {
        spec_rows_event(s, j, h, reg, false) is Ok
    } else if t == 0x21 || t == 0x22 {
        fixed_wf(s, j, h, 42)
    } else if t == 0x23 {
        previous_gtids_wf(s, j, h)
    } else {
        unknown_wf(s, j, h)
    }
}

/// The record the payload at `j` denotes for the given header, by its type
/// code.
pub open spec fn parsed_event_ok(
    s: Seq<u8>,
    j: int,
    h: Header,
    reg: Map<u64, Vec<ColTypes>>,
    e: Event,
) -> bool {
    let t = h.event_type;
    if t == 0x00 {
        e matches Event::Unknown { header, payload, checksum } && header == h && payload@
            == s.subrange(j, j + body_len(h) - 4) && (checksum as nat) == u32_at(
            s,
            j + body_len(h) - 4,
        )
    } else if t == 0x02 {
        query_matches(s, j, h, e)
    } else if t == 0x03 {
        stop_matches(s, j, h, e)
    } else if t == 0x04 {
        rotate_matches(s, j, h, e)
    } else if t == 0x05 {
        intvar_matches(s, j, h, e)
    } else if t == 0x06 {
        spec_load(s, j, h) matches Ok(lv) && load_matches(lv, h, e)
    } else if t == 0x07 {
        slave_matches(s, j, h, e)
    } else if t == 0x08 {
        create_file_matches(s, j, h, e)
    } else if t == 0x09 {
        append_file_matches(s, j, h, e)
    } else if t == 0x0a {
        exec_load_matches(s, j, h, e)
    } else if t == 0x0b {
        delete_file_matches(s, j, h, e)
    } else if t == 0x0c {
        spec_new_load(s, j, h) matches Ok(lv) && new_load_matches(lv, h, e)
    } else if t == 0x0d {
        rand_matches(s, j, h, e)
    } else if t == 0x0e {
        user_var_matches(s, j, h, e)
    } else if t == 0x0f {
        format_desc_matches(s, j, h, e)
    } else if t == 0x10 {
        xid_matches(s, j, h, e)
    } else if t == 0x11 {
        begin_load_query_matches(s, j, h, e)
    } else if t == 0x12 {
        execute_load_query_matches(s, j, h, e)
    } else if t == 0x13 {
        spec_table_map(s, j, h) matches Ok(tm) && table_map_matches(tm, h, e)
    } else if t == 0x1a {
        incident_matches(s, j, h, e)
    } else if t == 0x1b {
        heartbeat_matches(s, j, h, e)
    } else if t == 0x1d {
        row_query_matches(s, j, h, e)
    } else if t == 0x1e {
        spec_rows_event(s, j, h, reg, false) matches Ok(re) && write_rows_matches(re, h, e)
    } else if t == 0x1f {
        spec_rows_event(s, j, h, reg, true) matches Ok(re) && update_rows_matches(re, h, e)
    } else if t == 0x20 {
        spec_rows_event(s, j, h, reg, false) matches Ok(re) && delete_rows_matches(re, h, e)
    } else if t == 0x21 {
        gtid_matches(s, j, h, e)
    } else if t == 0x22 {
        anonymous_gtid_matches(s, j, h, e)
    } else if t == 0x23 {
        previous_gtids_matches(s, j, h, e)
    } else {
        unknown_matches(s, j, h, e)
    }
}

impl Event {
    /// Decodes one event: the 19-byte header, then the payload by its type
    /// code. Only a successfully decoded table-map event changes the
    /// registry, and exactly as its own decoder says.
    #[verifier::rlimit(100)]
    #[verifier::spinoff_prover]
    pub fn parse(cur: &mut Cursor, ctx: &mut TableMapContext) -> (r: Result<Event, DecodeError>)
        requires
            old(cur).wf(),
        ensures
            final(cur).data == old(cur).data,
            final(cur).wf(),
            old(cur).remaining_spec() < 19 ==> r == Err::<Event, DecodeError>(
                DecodeError::NotEnoughData,
            ) && final(ctx)@ == old(ctx)@,
            r matches Ok(e) ==> ({
                let s = old(cur).data@;
                let i = old(cur).pos as int;
                exists|h: Header|
                    {
                        &&& #[trigger] header_matches(s, i, h)
                        &&& event_wf(s, i + 19, h, old(ctx)@)
                        &&& parsed_event_ok(s, i + 19, h, old(ctx)@, e)
                        &&& final(cur).pos == i + 19 + body_len(h)
                        &&& h.event_type != 0x13 ==> final(ctx)@ == old(ctx)@
                    }
            }) && final(cur).pos > old(cur).pos,
            (r is Err && old(cur).remaining_spec() >= 19) ==> ({
                let s = old(cur).data@;
                let i = old(cur).pos as int;
                forall|h: Header| #[trigger]
                    header_matches(s, i, h) ==> !event_wf(s, i + 19, h, old(ctx)@)
            }) && final(ctx)@ == old(ctx)@,
    {
        let ghost s = cur.data@;
        let ghost i = cur.pos as int;
        let header = match parse_header(cur) {
            Ok(h) => h,
            Err(e) => {
                return Err(e);
            },
        };
        proof {
            assert forall|h2: Header| #[trigger] header_matches(s, i, h2) implies h2 == header by {
                lemma_header_unique(s, i, h2, header);
            }
        }
        let t = header.event_type;
        let r = if t == 0x00 {
            parse_unknown(cur, header)
        } else if t == 0x02 {
            parse_query(cur, header)
        } else if t == 0x03 {
            parse_stop(cur, header)
        } else if t == 0x04 {
            parse_rotate(cur, header)
        } else if t == 0x05 {
            parse_intvar(cur, header)
        } else if t == 0x06 {
            parse_load(cur, header)
        } else if t == 0x07 {
            parse_slave(cur, header)
        } else if t == 0x08 {
            parse_create_file(cur, header)
        } else if t == 0x09 {
            parse_append_file(cur, header)
        } else if t == 0x0a {
            parse_exec_load(cur, header)
        } else if t == 0x0b {
            parse_delete_file(cur, header)
        } else if t == 0x0c {
            parse_new_load(cur, header)
        } else if t == 0x0d {
            parse_rand(cur, header)
        } else if t == 0x0e {
            parse_user_var(cur, header)
        } else if t == 0x0f {
            parse_format_desc(cur, header)
        } else if t == 0x10 {
            parse_xid(cur, header)
        } else if t == 0x11 {
            parse_begin_load_query(cur, header)
        } else if t == 0x12 {
            parse_execute_load_query(cur, header)
        } else if t == 0x13 {
            parse_table_map(cur, header, ctx)
        } else if t == 0x1a {
            parse_incident(cur, header)
        } else if t == 0x1b {
            parse_heartbeat(cur, header)
        } else if t == 0x1d {
            parse_row_query(cur, header)
        } else if t == 0x1e {
            parse_write_rows_v2(cur, header, ctx)
        } else if t == 0x1f {
            parse_update_rows_v2(cur, header, ctx)
        } else if t == 0x20 {
            parse_delete_rows_v2(cur, header, ctx)
        } else if t == 0x21 {
            parse_gtid(cur, header)
        } else if t == 0x22 {
            parse_anonymous_gtid(cur, header)
        } else if t == 0x23 {
            parse_previous_gtids(cur, header)
        } else {
            parse_unknown(cur, header)
        };
        proof {
            if r is Ok {
                let e = r->Ok_0;
                assert(header_matches(s, i, header));
                assert(event_wf(s, i + 19, header, old(ctx)@));
                assert(parsed_event_ok(s, i + 19, header, old(ctx)@, e));
                assert(cur.pos == i + 19 + body_len(header));
                if header.event_type == 0x06 {
                    reveal(spec_load);
                } else if header.event_type == 0x0c {
                    reveal(spec_new_load);
                } else if header.event_type == 0x13 {
                    reveal(spec_table_map);
                } else if header.event_type == 0x1e || header.event_type == 0x1f
                    || header.event_type == 0x20 {
                    reveal(spec_rows_event);
                }
                assert(cur.pos > i);
                assert(header.event_type != 0x13 ==> ctx@ == old(ctx)@);
            }
        }
        r
    }
}

/// Two headers denoted by the same nineteen bytes are the same header.
pub proof fn lemma_header_unique(s: Seq<u8>, i: int, h1: Header, h2: Header)
    requires
        header_matches(s, i, h1),
        header_matches(s, i, h2),
    ensures
        h1 == h2,
{
}

impl Event {
    /// Parses a whole binlog buffer: the four magic bytes, then one event
    /// after another until the buffer is exhausted. A well-formed file holds
    /// at least one event.
    pub fn from_bytes(data: &[u8], ctx: &mut TableMapContext) -> (r: Result<
        Vec<Event>,
        DecodeError,
    >)
        ensures
            r matches Ok(es) ==> es@.len() >= 1 && data@.len() >= 4 && data@.subrange(0, 4)
                == seq![254u8, 98u8, 105u8, 110u8],
    {
        let mut cur = Cursor::new(data);
        match check_start(&mut cur) {
            Ok(_) => (),
            Err(e) => {
                return Err(e);
            },
        }
        let mut events: Vec<Event> = Vec::new();
        while cur.remaining() > 0
            invariant
                cur.wf(),
                cur.data@ == data@,
            decreases cur.data@.len() - cur.pos,
        {
            let e = match Event::parse(&mut cur, ctx) {
                Ok(e) => e,
                Err(err) => {
                    return Err(err);
                },
            };
            events.push(e);
        }
        if events.len() == 0 {
            return Err(DecodeError::NotEnoughData);
        }
        Ok(events)
    }
}

/// Two event records are equivalent when they are the same kind and every
/// field agrees, strings and byte runs by their views.
pub open spec fn event_equiv(e1: Event, e2: Event) -> bool {
    match (e1, e2) {
        (Event::Unknown { header: a_header, payload: a_payload, checksum: a_checksum }, Event::Unknown { header: b_header, payload: b_payload, checksum: b_checksum }) => {
            &&& a_header == b_header
            &&& a_payload@ == b_payload@
            &&& a_checksum == b_checksum
        },
        (Event::Query { header: a_header, slave_proxy_id: a_slave_proxy_id, execution_time: a_execution_time, schema_length: a_schema_length, error_code: a_error_code, status_vars_length: a_status_vars_length, status_vars: a_status_vars, schema: a_schema, query: a_query, checksum: a_checksum }, Event::Query { header: b_header, slave_proxy_id: b_slave_proxy_id, execution_time: b_execution_time, schema_length: b_schema_length, error_code: b_error_code, status_vars_length: b_status_vars_length, status_vars: b_status_vars, schema: b_schema, query: b_query, checksum: b_checksum }) => {
            &&& a_header == b_header
            &&& a_slave_proxy_id == b_slave_proxy_id
            &&& a_execution_time == b_execution_time
            &&& a_schema_length == b_schema_length
            &&& a_error_code == b_error_code
            &&& a_status_vars_length == b_status_vars_length
            &&& crate::query::var_views(a_status_vars@) == crate::query::var_views(b_status_vars@)
            &&& a_schema@ == b_schema@
            &&& a_query@ == b_query@
            &&& a_checksum == b_checksum
        },
        (Event::Stop { header: a_header, checksum: a_checksum }, Event::Stop { header: b_header, checksum: b_checksum }) => {
            &&& a_header == b_header
            &&& a_checksum == b_checksum
        },
        (Event::Rotate { header: a_header, position: a_position, next_binlog: a_next_binlog, checksum: a_checksum }, Event::Rotate { header: b_header, position: b_position, next_binlog: b_next_binlog, checksum: b_checksum }) => {
            &&& a_header == b_header
            &&& a_position == b_position
            &&& a_next_binlog@ == b_next_binlog@
            &&& a_checksum == b_checksum
        },
        (Event::IntVar { header: a_header, e_type: a_e_type, value: a_value, checksum: a_checksum }, Event::IntVar { header: b_header, e_type: b_e_type, value: b_value, checksum: b_checksum }) => {
            &&& a_header == b_header
            &&& a_e_type == b_e_type
            &&& a_value == b_value
            &&& a_checksum == b_checksum
        },
        (Event::Load { header: a_header, thread_id: a_thread_id, execution_time: a_execution_time, skip_lines: a_skip_lines, table_name_length: a_table_name_length, schema_length: a_schema_length, num_fields: a_num_fields, field_term: a_field_term, enclosed_by: a_enclosed_by, line_term: a_line_term, line_start: a_line_start, escaped_by: a_escaped_by, opt_flags: a_opt_flags, empty_flags: a_empty_flags, field_name_lengths: a_field_name_lengths, field_names: a_field_names, table_name: a_table_name, schema_name: a_schema_name, file_name: a_file_name, checksum: a_checksum }, Event::Load { header: b_header, thread_id: b_thread_id, execution_time: b_execution_time, skip_lines: b_skip_lines, table_name_length: b_table_name_length, schema_length: b_schema_length, num_fields: b_num_fields, field_term: b_field_term, enclosed_by: b_enclosed_by, line_term: b_line_term, line_start: b_line_start, escaped_by: b_escaped_by, opt_flags: b_opt_flags, empty_flags: b_empty_flags, field_name_lengths: b_field_name_lengths, field_names: b_field_names, table_name: b_table_name, schema_name: b_schema_name, file_name: b_file_name, checksum: b_checksum }) => {
            &&& a_header == b_header
            &&& a_thread_id == b_thread_id
            &&& a_execution_time == b_execution_time
            &&& a_skip_lines == b_skip_lines
            &&& a_table_name_length == b_table_name_length
            &&& a_schema_length == b_schema_length
            &&& a_num_fields == b_num_fields
            &&& a_field_term == b_field_term
            &&& a_enclosed_by == b_enclosed_by
            &&& a_line_term == b_line_term
            &&& a_line_start == b_line_start
            &&& a_escaped_by == b_escaped_by
            &&& a_opt_flags == b_opt_flags
            &&& a_empty_flags == b_empty_flags
            &&& a_field_name_lengths@ == b_field_name_lengths@
            &&& crate::query::str_views(a_field_names@) == crate::query::str_views(b_field_names@)
            &&& a_table_name@ == b_table_name@
            &&& a_schema_name@ == b_schema_name@
            &&& a_file_name@ == b_file_name@
            &&& a_checksum == b_checksum
        },
        (Event::Slave { header: a_header, checksum: a_checksum }, Event::Slave { header: b_header, checksum: b_checksum }) => {
            &&& a_header == b_header
            &&& a_checksum == b_checksum
        },
        (Event::CreateFile { header: a_header, file_id: a_file_id, block_data: a_block_data, checksum: a_checksum }, Event::CreateFile { header: b_header, file_id: b_file_id, block_data: b_block_data, checksum: b_checksum }) => {
            &&& a_header == b_header
            &&& a_file_id == b_file_id
            &&& a_block_data@ == b_block_data@
            &&& a_checksum == b_checksum
        },
        (Event::AppendFile { header: a_header, file_id: a_file_id, block_data: a_block_data, checksum: a_checksum }, Event::AppendFile { header: b_header, file_id: b_file_id, block_data: b_block_data, checksum: b_checksum }) => {
            &&& a_header == b_header
            &&& a_file_id == b_file_id
            &&& a_block_data@ == b_block_data@
            &&& a_checksum == b_checksum
        },
        (Event::ExecLoad { header: a_header, file_id: a_file_id, checksum: a_checksum }, Event::ExecLoad { header: b_header, file_id: b_file_id, checksum: b_checksum }) => {
            &&& a_header == b_header
            &&& a_file_id == b_file_id
            &&& a_checksum == b_checksum
        },
        (Event::DeleteFile { header: a_header, file_id: a_file_id, checksum: a_checksum }, Event::DeleteFile { header: b_header, file_id: b_file_id, checksum: b_checksum }) => {
            &&& a_header == b_header
            &&& a_file_id == b_file_id
            &&& a_checksum == b_checksum
        },
        (Event::NewLoad { header: a_header, thread_id: a_thread_id, execution_time: a_execution_time, skip_lines: a_skip_lines, table_name_length: a_table_name_length, schema_length: a_schema_length, num_fields: a_num_fields, field_term_length: a_field_term_length, field_term: a_field_term, enclosed_by_length: a_enclosed_by_length, enclosed_by: a_enclosed_by, line_term_length: a_line_term_length, line_term: a_line_term, line_start_length: a_line_start_length, line_start: a_line_start, escaped_by_length: a_escaped_by_length, escaped_by: a_escaped_by, opt_flags: a_opt_flags, field_name_lengths: a_field_name_lengths, field_names: a_field_names, table_name: a_table_name, schema_name: a_schema_name, file_name: a_file_name, checksum: a_checksum }, Event::NewLoad { header: b_header, thread_id: b_thread_id, execution_time: b_execution_time, skip_lines: b_skip_lines, table_name_length: b_table_name_length, schema_length: b_schema_length, num_fields: b_num_fields, field_term_length: b_field_term_length, field_term: b_field_term, enclosed_by_length: b_enclosed_by_length, enclosed_by: b_enclosed_by, line_term_length: b_line_term_length, line_term: b_line_term, line_start_length: b_line_start_length, line_start: b_line_start, escaped_by_length: b_escaped_by_length, escaped_by: b_escaped_by, opt_flags: b_opt_flags, field_name_lengths: b_field_name_lengths, field_names: b_field_names, table_name: b_table_name, schema_name: b_schema_name, file_name: b_file_name, checksum: b_checksum }) => {
            &&& a_header == b_header
            &&& a_thread_id == b_thread_id
            &&& a_execution_time == b_execution_time
            &&& a_skip_lines == b_skip_lines
            &&& a_table_name_length == b_table_name_length
            &&& a_schema_length == b_schema_length
            &&& a_num_fields == b_num_fields
            &&& a_field_term_length == b_field_term_length
            &&& a_field_term@ == b_field_term@
            &&& a_enclosed_by_length == b_enclosed_by_length
            &&& a_enclosed_by@ == b_enclosed_by@
            &&& a_line_term_length == b_line_term_length
            &&& a_line_term@ == b_line_term@
            &&& a_line_start_length == b_line_start_length
            &&& a_line_start@ == b_line_start@
            &&& a_escaped_by_length == b_escaped_by_length
            &&& a_escaped_by@ == b_escaped_by@
            &&& a_opt_flags == b_opt_flags
            &&& a_field_name_lengths@ == b_field_name_lengths@
            &&& crate::query::str_views(a_field_names@) == crate::query::str_views(b_field_names@)
            &&& a_table_name@ == b_table_name@
            &&& a_schema_name@ == b_schema_name@
            &&& a_file_name@ == b_file_name@
            &&& a_checksum == b_checksum
        },
        (Event::Rand { header: a_header, seed1: a_seed1, seed2: a_seed2, checksum: a_checksum }, Event::Rand { header: b_header, seed1: b_seed1, seed2: b_seed2, checksum: b_checksum }) => {
            &&& a_header == b_header
            &&& a_seed1 == b_seed1
            &&& a_seed2 == b_seed2
            &&& a_checksum == b_checksum
        },
        (Event::UserVar { header: a_header, name_length: a_name_length, name: a_name, is_null: a_is_null, d_type: a_d_type, charset: a_charset, value_length: a_value_length, value: a_value, flags: a_flags, checksum: a_checksum }, Event::UserVar { header: b_header, name_length: b_name_length, name: b_name, is_null: b_is_null, d_type: b_d_type, charset: b_charset, value_length: b_value_length, value: b_value, flags: b_flags, checksum: b_checksum }) => {
            &&& a_header == b_header
            &&& a_name_length == b_name_length
            &&& a_name@ == b_name@
            &&& a_is_null == b_is_null
            &&& a_d_type == b_d_type
            &&& a_charset == b_charset
            &&& a_value_length == b_value_length
            &&& ((a_value matches Some(x) && b_value matches Some(y) && x@ == y@) || (a_value is None && b_value is None))
            &&& a_flags == b_flags
            &&& a_checksum == b_checksum
        },
        (Event::FormatDesc { header: a_header, binlog_version: a_binlog_version, mysql_server_version: a_mysql_server_version, create_timestamp: a_create_timestamp, event_header_length: a_event_header_length, supported_types: a_supported_types, checksum_alg: a_checksum_alg, checksum: a_checksum }, Event::FormatDesc { header: b_header, binlog_version: b_binlog_version, mysql_server_version: b_mysql_server_version, create_timestamp: b_create_timestamp, event_header_length: b_event_header_length, supported_types: b_supported_types, checksum_alg: b_checksum_alg, checksum: b_checksum }) => {
            &&& a_header == b_header
            &&& a_binlog_version == b_binlog_version
            &&& a_mysql_server_version@ == b_mysql_server_version@
            &&& a_create_timestamp == b_create_timestamp
            &&& a_event_header_length == b_event_header_length
            &&& a_supported_types@ == b_supported_types@
            &&& a_checksum_alg == b_checksum_alg
            &&& a_checksum == b_checksum
        },
        (Event::XID { header: a_header, xid: a_xid, checksum: a_checksum }, Event::XID { header: b_header, xid: b_xid, checksum: b_checksum }) => {
            &&& a_header == b_header
            &&& a_xid == b_xid
            &&& a_checksum == b_checksum
        },
        (Event::BeginLoadQuery { header: a_header, file_id: a_file_id, block_data: a_block_data, checksum: a_checksum }, Event::BeginLoadQuery { header: b_header, file_id: b_file_id, block_data: b_block_data, checksum: b_checksum }) => {
            &&& a_header == b_header
            &&& a_file_id == b_file_id
            &&& a_block_data@ == b_block_data@
            &&& a_checksum == b_checksum
        },
        (Event::ExecuteLoadQueryEvent { header: a_header, thread_id: a_thread_id, execution_time: a_execution_time, schema_length: a_schema_length, error_code: a_error_code, status_vars_length: a_status_vars_length, file_id: a_file_id, start_pos: a_start_pos, end_pos: a_end_pos, dup_handling_flags: a_dup_handling_flags, checksum: a_checksum }, Event::ExecuteLoadQueryEvent { header: b_header, thread_id: b_thread_id, execution_time: b_execution_time, schema_length: b_schema_length, error_code: b_error_code, status_vars_length: b_status_vars_length, file_id: b_file_id, start_pos: b_start_pos, end_pos: b_end_pos, dup_handling_flags: b_dup_handling_flags, checksum: b_checksum }) => {
            &&& a_header == b_header
            &&& a_thread_id == b_thread_id
            &&& a_execution_time == b_execution_time
            &&& a_schema_length == b_schema_length
            &&& a_error_code == b_error_code
            &&& a_status_vars_length == b_status_vars_length
            &&& a_file_id == b_file_id
            &&& a_start_pos == b_start_pos
            &&& a_end_pos == b_end_pos
            &&& a_dup_handling_flags == b_dup_handling_flags
            &&& a_checksum == b_checksum
        },
        (Event::TableMap { header: a_header, table_id: a_table_id, flags: a_flags, schema_length: a_schema_length, schema: a_schema, table_name_length: a_table_name_length, table_name: a_table_name, column_count: a_column_count, columns_type: a_columns_type, null_bits: a_null_bits, checksum: a_checksum }, Event::TableMap { header: b_header, table_id: b_table_id, flags: b_flags, schema_length: b_schema_length, schema: b_schema, table_name_length: b_table_name_length, table_name: b_table_name, column_count: b_column_count, columns_type: b_columns_type, null_bits: b_null_bits, checksum: b_checksum }) => {
            &&& a_header == b_header
            &&& a_table_id == b_table_id
            &&& a_flags == b_flags
            &&& a_schema_length == b_schema_length
            &&& a_schema@ == b_schema@
            &&& a_table_name_length == b_table_name_length
            &&& a_table_name@ == b_table_name@
            &&& a_column_count == b_column_count
            &&& a_columns_type@ == b_columns_type@
            &&& a_null_bits@ == b_null_bits@
            &&& a_checksum == b_checksum
        },
        (Event::Incident { header: a_header, d_type: a_d_type, message_length: a_message_length, message: a_message, checksum: a_checksum }, Event::Incident { header: b_header, d_type: b_d_type, message_length: b_message_length, message: b_message, checksum: b_checksum }) => {
            &&& a_header == b_header
            &&& a_d_type == b_d_type
            &&& a_message_length == b_message_length
            &&& a_message@ == b_message@
            &&& a_checksum == b_checksum
        },
        (Event::Heartbeat { header: a_header, checksum: a_checksum }, Event::Heartbeat { header: b_header, checksum: b_checksum }) => {
            &&& a_header == b_header
            &&& a_checksum == b_checksum
        },
        (Event::RowQuery { header: a_header, length: a_length, query_text: a_query_text, checksum: a_checksum }, Event::RowQuery { header: b_header, length: b_length, query_text: b_query_text, checksum: b_checksum }) => {
            &&& a_header == b_header
            &&& a_length == b_length
            &&& a_query_text@ == b_query_text@
            &&& a_checksum == b_checksum
        },
        (Event::Gtid { header: a_header, rbr_only: a_rbr_only, source_id: a_source_id, transaction_id: a_transaction_id, ts_type: a_ts_type, last_committed: a_last_committed, sequence_number: a_sequence_number, checksum: a_checksum }, Event::Gtid { header: b_header, rbr_only: b_rbr_only, source_id: b_source_id, transaction_id: b_transaction_id, ts_type: b_ts_type, last_committed: b_last_committed, sequence_number: b_sequence_number, checksum: b_checksum }) => {
            &&& a_header == b_header
            &&& a_rbr_only == b_rbr_only
            &&& a_source_id@ == b_source_id@
            &&& a_transaction_id@ == b_transaction_id@
            &&& a_ts_type == b_ts_type
            &&& a_last_committed == b_last_committed
            &&& a_sequence_number == b_sequence_number
            &&& a_checksum == b_checksum
        },
        (Event::AnonymousGtid { header: a_header, rbr_only: a_rbr_only, source_id: a_source_id, transaction_id: a_transaction_id, ts_type: a_ts_type, last_committed: a_last_committed, sequence_number: a_sequence_number, checksum: a_checksum }, Event::AnonymousGtid { header: b_header, rbr_only: b_rbr_only, source_id: b_source_id, transaction_id: b_transaction_id, ts_type: b_ts_type, last_committed: b_last_committed, sequence_number: b_sequence_number, checksum: b_checksum }) => {
            &&& a_header == b_header
            &&& a_rbr_only == b_rbr_only
            &&& a_source_id@ == b_source_id@
            &&& a_transaction_id@ == b_transaction_id@
            &&& a_ts_type == b_ts_type
            &&& a_last_committed == b_last_committed
            &&& a_sequence_number == b_sequence_number
            &&& a_checksum == b_checksum
        },
        (Event::PreviousGtids { header: a_header, gtid_sets: a_gtid_sets, buf_size: a_buf_size, checksum: a_checksum }, Event::PreviousGtids { header: b_header, gtid_sets: b_gtid_sets, buf_size: b_buf_size, checksum: b_checksum }) => {
            &&& a_header == b_header
            &&& a_gtid_sets@ == b_gtid_sets@
            &&& a_buf_size == b_buf_size
            &&& a_checksum == b_checksum
        },
        (Event::WriteRowsV2 { header: a_header, table_id: a_table_id, flags: a_flags, extra_data_len: a_extra_data_len, extra_data: a_extra_data, column_count: a_column_count, inserted_image_bits: a_inserted_image_bits, rows: a_rows, checksum: a_checksum }, Event::WriteRowsV2 { header: b_header, table_id: b_table_id, flags: b_flags, extra_data_len: b_extra_data_len, extra_data: b_extra_data, column_count: b_column_count, inserted_image_bits: b_inserted_image_bits, rows: b_rows, checksum: b_checksum }) => {
            &&& a_header == b_header
            &&& a_table_id == b_table_id
            &&& a_flags == b_flags
            &&& a_extra_data_len == b_extra_data_len
            &&& crate::rows::extra_views(a_extra_data@) == crate::rows::extra_views(b_extra_data@)
            &&& a_column_count == b_column_count
            &&& a_inserted_image_bits@ == b_inserted_image_bits@
            &&& crate::rows::row_views(a_rows@) == crate::rows::row_views(b_rows@)
            &&& a_checksum == b_checksum
        },
        (Event::UpdateRowsV2 { header: a_header, table_id: a_table_id, flags: a_flags, extra_data_len: a_extra_data_len, extra_data: a_extra_data, column_count: a_column_count, before_image_bits: a_before_image_bits, after_image_bits: a_after_image_bits, rows: a_rows, checksum: a_checksum }, Event::UpdateRowsV2 { header: b_header, table_id: b_table_id, flags: b_flags, extra_data_len: b_extra_data_len, extra_data: b_extra_data, column_count: b_column_count, before_image_bits: b_before_image_bits, after_image_bits: b_after_image_bits, rows: b_rows, checksum: b_checksum }) => {
            &&& a_header == b_header
            &&& a_table_id == b_table_id
            &&& a_flags == b_flags
            &&& a_extra_data_len == b_extra_data_len
            &&& crate::rows::extra_views(a_extra_data@) == crate::rows::extra_views(b_extra_data@)
            &&& a_column_count == b_column_count
            &&& a_before_image_bits@ == b_before_image_bits@
            &&& a_after_image_bits@ == b_after_image_bits@
            &&& crate::rows::row_views(a_rows@) == crate::rows::row_views(b_rows@)
            &&& a_checksum == b_checksum
        },
        (Event::DeleteRowsV2 { header: a_header, table_id: a_table_id, flags: a_flags, extra_data_len: a_extra_data_len, extra_data: a_extra_data, column_count: a_column_count, deleted_image_bits: a_deleted_image_bits, rows: a_rows, checksum: a_checksum }, Event::DeleteRowsV2 { header: b_header, table_id: b_table_id, flags: b_flags, extra_data_len: b_extra_data_len, extra_data: b_extra_data, column_count: b_column_count, deleted_image_bits: b_deleted_image_bits, rows: b_rows, checksum: b_checksum }) => {
            &&& a_header == b_header
            &&& a_table_id == b_table_id
            &&& a_flags == b_flags
            &&& a_extra_data_len == b_extra_data_len
            &&& crate::rows::extra_views(a_extra_data@) == crate::rows::extra_views(b_extra_data@)
            &&& a_column_count == b_column_count
            &&& a_deleted_image_bits@ == b_deleted_image_bits@
            &&& crate::rows::row_views(a_rows@) == crate::rows::row_views(b_rows@)
            &&& a_checksum == b_checksum
        },
        _ => false,
    }
}

/// Re-parsing is deterministic for every event kind: two records that the
/// same bytes, header and registry denote are equivalent.
#[verifier::rlimit(100)]
#[verifier::spinoff_prover]
pub proof fn lemma_reparse_equivalent(
    s: Seq<u8>,
    j: int,
    h: Header,
    reg: Map<u64, Vec<ColTypes>>,
    e1: Event,
    e2: Event,
)
    requires
        parsed_event_ok(s, j, h, reg, e1),
        parsed_event_ok(s, j, h, reg, e2),
    ensures
        event_equiv(e1, e2),
{
}

} // verus!
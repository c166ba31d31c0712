//! The packet framer and the connection-phase protocol messages: the
//! 3-byte-length + 1-byte-sequence packet header, the OK and error packets,
//! and the client commands.

use vstd::prelude::*;
use vstd::utf8::{decode_utf8, valid_utf8};

use crate::codec::{le_of, lossy_decode, spec_lenenc, u16_at, Cursor, DecodeError, VLenInt};

verus! {

/// One wire packet: its declared length, its sequence id, and its payload.
/// The length field always equals the payload's byte count.
#[derive(Debug, Clone, PartialEq, Eq)]
pub struct Packet {
    pub len: u32,
    pub seq_id: u8,
    pub payload: Vec<u8>,
}

/// The framed form of a payload: three length bytes, the sequence id, then
/// the payload itself.
pub open spec fn spec_frame(seq_id: u8, payload: Seq<u8>) -> Seq<u8> {
    le_of(payload.len(), 3) + seq![seq_id] + payload
}

/// Frames a payload. The length field is the payload byte count, which must
/// fit the 3-byte header field.
pub fn encode_packet(seq_id: u8, payload: &[u8], buf: &mut Vec<u8>)
    requires
        payload@.len() < 0x1000000,
    ensures
        final(buf)@ == old(buf)@ + spec_frame(seq_id, payload@),
{
    crate::codec::push_le(buf, payload.len() as u64, 3);
    buf.push(seq_id);
    crate::codec::put_bytes(payload, buf);
    proof {
        assert((old(buf)@ + le_of(payload@.len(), 3)).push(seq_id) + payload@ =~= old(buf)@
            + spec_frame(seq_id, payload@));
    }
}

/// Reads one frame: the length, the sequence id, and exactly that many
/// payload bytes.
pub fn decode_packet(cur: &mut Cursor) -> (r: Result<Packet, DecodeError>)
    requires
        old(cur).wf(),
    ensures
        final(cur).data == old(cur).data,
        final(cur).wf(),
        ({
            let s = old(cur).data@;
            let i = old(cur).pos as int;
            let n = crate::codec::u24_at(s, i) as int;
            &&& (old(cur).remaining_spec() >= 4 && old(cur).remaining_spec() >= 4 + n) ==> {
                &&& r is Ok
                &&& (r->Ok_0.len as nat) == crate::codec::u24_at(s, i)
                &&& r->Ok_0.seq_id == s[i + 3]
                &&& r->Ok_0.payload@ == s.subrange(i + 4, i + 4 + n)
                &&& final(cur).pos == old(cur).pos + 4 + n
            }
            &&& !(old(cur).remaining_spec() >= 4 && old(cur).remaining_spec() >= 4 + n) ==> r
                == Err::<Packet, DecodeError>(DecodeError::NotEnoughData) && final(cur).pos == old(
                cur,
            ).pos
        }),
{
    let ghost p0 = cur.pos as int;
    if cur.remaining() < 4 {
        return Err(DecodeError::NotEnoughData);
    }
    let len = match cur.read_u24() {
        Ok(v) => v,
        Err(e) => {
            return Err(e);
        },
    };
    let seq_id = match cur.read_u8() {
        Ok(v) => v,
        Err(e) => {
            return Err(e);
        },
    };
    if cur.remaining() < len as usize {
        cur.pos = cur.pos - 4;
        return Err(DecodeError::NotEnoughData);
    }
    let payload = match cur.read_vec(len as usize) {
        Ok(v) => v,
        Err(e) => {
            return Err(e);
        },
    };
    Ok(Packet { len, seq_id, payload })
}

/// Framing round trip: decoding an encoded packet gives back the sequence id
/// and the payload, and consumes exactly the frame.
pub proof fn lemma_packet_round_trip(seq_id: u8, payload: Seq<u8>)
    requires
        payload.len() < 0x1000000,
    ensures
        ({
            let s = spec_frame(seq_id, payload);
            &&& crate::codec::u24_at(s, 0) == payload.len()
            &&& s[3] == seq_id
            &&& s.subrange(4, s.len() as int) == payload
            &&& s.len() == 4 + payload.len()
        }),
{
    let s = spec_frame(seq_id, payload);
    crate::codec::lemma_le_of_len(payload.len(), 3);
    crate::codec::lemma_pow256_values();
    assert(s.subrange(0, 3) =~= le_of(payload.len(), 3));
    crate::codec::lemma_le_of_le(payload.len(), 3);
    assert(s.subrange(4, s.len() as int) =~= payload);
}

/// The end-of-result rule: a packet payload closes a text result set exactly
/// when it leads with the marker byte and is shorter than nine bytes.
pub fn is_end_of_result(payload: &Vec<u8>) -> (r: bool)
    ensures
        r <==> (payload@.len() > 0 && payload@[0] == 0xfe && payload@.len() < 9),
{
    payload.len() > 0 && payload[0] == 0xfe && payload.len() < 9
}

/// The server's OK packet, also used (with a 0xfe header) where an
/// end-of-result marker is expected.
#[derive(Debug, Clone, PartialEq, Eq)]
pub struct OkPacket {
    pub header: u8,
    pub affected_rows: VLenInt,
    pub last_insert_id: VLenInt,
    pub status_flags: u16,
    pub warnings: u16,
    pub info: String,
}

/// When an OK payload decodes: the header byte, two well-formed
/// length-encoded integers, and the two 16-bit fields all fit.
pub open spec fn ok_packet_wf(s: Seq<u8>, i: int) -> bool {
    &&& 0 <= i < s.len()
    &&& spec_lenenc(s, i + 1) matches Ok(a) && spec_lenenc(s, i + 1 + a.1) matches Ok(b) && i + 1
        + a.1 + b.1 + 4 <= s.len()
}

/// The error an ill-formed OK payload is refused with, in read order.
pub open spec fn ok_packet_err(s: Seq<u8>, i: int) -> DecodeError {
    if !(0 <= i < s.len()) {
        DecodeError::NotEnoughData
    } else if spec_lenenc(s, i + 1) is Err {
        spec_lenenc(s, i + 1)->Err_0
    } else if spec_lenenc(s, i + 1 + spec_lenenc(s, i + 1)->Ok_0.1) is Err {
        spec_lenenc(s, i + 1 + spec_lenenc(s, i + 1)->Ok_0.1)->Err_0
    } else {
        DecodeError::NotEnoughData
    }
}

/// The OK record the payload at `i` denotes: every field a function of the
/// bytes, the info text being the whole rest.
pub open spec fn ok_packet_matches(s: Seq<u8>, i: int, p: OkPacket) -> bool {
    &&& p.header == s[i]
    &&& spec_lenenc(s, i + 1) matches Ok(a) && p.affected_rows.0 == a.0
    &&& ({
        let a = spec_lenenc(s, i + 1)->Ok_0;
        spec_lenenc(s, i + 1 + a.1) matches Ok(b) && p.last_insert_id.0 == b.0 && (
        p.status_flags as nat) == u16_at(s, i + 1 + a.1 + b.1) && (p.warnings as nat) == u16_at(
            s,
            i + 1 + a.1 + b.1 + 2,
        ) && p.info@ == lossy_decode(s.subrange(i + 1 + a.1 + b.1 + 4, s.len() as int))
    })
}

impl OkPacket {
    pub fn is_ok(&self) -> (r: bool)
        ensures
            r == (self.header == 0x00),
    {
        self.header == 0x00
    }

    pub fn is_eof(&self) -> (r: bool)
        ensures
            r == (self.header == 0xfe),
    {
        self.header == 0xfe
    }

    /// Decodes an OK packet, taking the whole rest of the payload as the
    /// human-readable info text; nothing is left unread on success.
    pub fn decode(cur: &mut Cursor) -> (r: Result<OkPacket, DecodeError>)
        requires
            old(cur).wf(),
        ensures
            final(cur).data == old(cur).data,
            final(cur).wf(),
            r is Ok <==> ok_packet_wf(old(cur).data@, old(cur).pos as int),
            r matches Ok(p) ==> ok_packet_matches(old(cur).data@, old(cur).pos as int, p) && final(cur).pos == final(cur).data@.len(),
            r is Err ==> r->Err_0 == ok_packet_err(old(cur).data@, old(cur).pos as int),
    {
        let header = match cur.read_u8() {
            Ok(v) => v,
            Err(e) => {
                return Err(e);
            },
        };
        let affected_rows = match VLenInt::decode(cur) {
            Ok(v) => v,
            Err(e) => {
                return Err(e);
            },
        };
        let last_insert_id = match VLenInt::decode(cur) {
            Ok(v) => v,
            Err(e) => {
                return Err(e);
            },
        };
        let status_flags = match cur.read_u16() {
            Ok(v) => v,
            Err(e) => {
                return Err(e);
            },
        };
        let warnings = match cur.read_u16() {
            Ok(v) => v,
            Err(e) => {
                return Err(e);
            },
        };
        let rest = match cur.read_vec(cur.remaining()) {
            Ok(v) => v,
            Err(e) => {
                return Err(e);
            },
        };
        let info = crate::codec::utf8_to_string_lossy(rest.as_slice());
        Ok(OkPacket { header, affected_rows, last_insert_id, status_flags, warnings, info })
    }
}

/// The server's error packet.
#[derive(Debug, Clone, PartialEq, Eq)]
pub struct ErrPacket {
    pub header: u8,
    pub code: u16,
    pub sql_state_marker: u8,
    pub sql_state: String,
    pub error_msg: String,
}

/// When an error payload decodes: the fixed nine bytes are present and both
/// string regions are valid UTF-8.
pub open spec fn err_packet_wf(s: Seq<u8>, i: int) -> bool {
    &&& 0 <= i
    &&& i + 9 <= s.len()
    &&& valid_utf8(s.subrange(i + 4, i + 9))
    &&& valid_utf8(s.subrange(i + 9, s.len() as int))
}

/// The error an ill-formed error payload is refused with.
pub open spec fn err_packet_err(s: Seq<u8>, i: int) -> DecodeError {
    if i + 9 > s.len() {
        DecodeError::NotEnoughData
    } else {
        DecodeError::InvalidUtf8
    }
}

/// The error record the payload at `i` denotes.
pub open spec fn err_packet_matches(s: Seq<u8>, i: int, p: ErrPacket) -> bool {
    &&& p.header == s[i]
    &&& (p.code as nat) == u16_at(s, i + 1)
    &&& p.sql_state_marker == s[i + 3]
    &&& p.sql_state@ == decode_utf8(s.subrange(i + 4, i + 9))
    &&& p.error_msg@ == decode_utf8(s.subrange(i + 9, s.len() as int))
}

impl ErrPacket {
    /// Decodes an error packet; the message takes the whole rest of the
    /// payload, so nothing is left unread on success.
    pub fn decode(cur: &mut Cursor) -> (r: Result<ErrPacket, DecodeError>)
        requires
            old(cur).wf(),
        ensures
            final(cur).data == old(cur).data,
            final(cur).wf(),
            r is Ok <==> err_packet_wf(old(cur).data@, old(cur).pos as int),
            r matches Ok(p) ==> err_packet_matches(old(cur).data@, old(cur).pos as int, p)
                && final(cur).pos == final(cur).data@.len(),
            r is Err ==> r->Err_0 == err_packet_err(old(cur).data@, old(cur).pos as int),
    {
        let header = match cur.read_u8() {
            Ok(v) => v,
            Err(e) => {
                return Err(e);
            },
        };
        let code = match cur.read_u16() {
            Ok(v) => v,
            Err(e) => {
                return Err(e);
            },
        };
        let sql_state_marker = match cur.read_u8() {
            Ok(v) => v,
            Err(e) => {
                return Err(e);
            },
        };
        let sql_state = match cur.read_str(5) {
            Ok(v) => v,
            Err(e) => {
                return Err(e);
            },
        };
        let error_msg = match cur.read_str(cur.remaining()) {
            Ok(v) => v,
            Err(e) => {
                return Err(e);
            },
        };
        Ok(ErrPacket { header, code, sql_state_marker, sql_state, error_msg })
    }
}

/// Either outcome of a command: the server answers OK or with an error.
#[derive(Debug, Clone, PartialEq, Eq)]
pub enum OkOrErr {
    Success(OkPacket),
    Failure(ErrPacket),
}

impl OkOrErr {
    /// Chooses the decoder by the packet's first byte: 0xff is an error
    /// packet, 0x00 and the end-of-result marker are OK packets, anything
    /// else is rejected.
    pub fn decode(cur: &mut Cursor) -> (r: Result<OkOrErr, DecodeError>)
        requires
            old(cur).wf(),
        ensures
            final(cur).data == old(cur).data,
            final(cur).wf(),
            old(cur).remaining_spec() == 0 ==> r == Err::<OkOrErr, DecodeError>(
                DecodeError::NotEnoughData,
            ),
            old(cur).remaining_spec() >= 1 ==> ({
                let s = old(cur).data@;
                let i = old(cur).pos as int;
                let b = s[i];
                &&& b == 0xff ==> {
                    &&& (r is Ok <==> err_packet_wf(s, i))
                    &&& r matches Ok(p) ==> p matches OkOrErr::Failure(q) && err_packet_matches(
                        s,
                        i,
                        q,
                    ) && final(cur).pos == s.len()
                    &&& r is Err ==> r->Err_0 == err_packet_err(s, i)
                }
                &&& (b == 0xfe || b == 0x00) ==> {
                    &&& (r is Ok <==> ok_packet_wf(s, i))
                    &&& r matches Ok(p) ==> p matches OkOrErr::Success(q) && ok_packet_matches(
                        s,
                        i,
                        q,
                    ) && final(cur).pos == s.len()
                    &&& r is Err ==> r->Err_0 == ok_packet_err(s, i)
                }
                &&& (b != 0xff && b != 0xfe && b != 0x00) ==> r == Err::<OkOrErr, DecodeError>(
                    DecodeError::InvalidData,
                )
            }),
    {
        let b = match cur.peek() {
            Ok(v) => v,
            Err(e) => {
                return Err(e);
            },
        };
        if b == 0xff {
            match ErrPacket::decode(cur) {
                Ok(p) => Ok(OkOrErr::Failure(p)),
                Err(e) => Err(e),
            }
        } else if b == 0xfe || b == 0x00 {
            match OkPacket::decode(cur) {
                Ok(p) => Ok(OkOrErr::Success(p)),
                Err(e) => Err(e),
            }
        } else {
            Err(DecodeError::InvalidData)
        }
    }
}

/// The quit command: a single command byte.
#[derive(Debug, Clone, Copy, PartialEq, Eq, Structural)]
pub struct ComQuit;

impl ComQuit {
    pub fn encode(&self, buf: &mut Vec<u8>)
        ensures
            final(buf)@ == old(buf)@ + seq![0x01u8],
    {
        buf.push(0x01);
        proof {
            assert(buf@ =~= old(buf)@ + seq![0x01u8]);
        }
    }
}

/// A text query command: the command byte followed by the statement text.
#[derive(Debug, Clone, PartialEq, Eq)]
pub struct ComQuery {
    pub query: String,
}

impl ComQuery {
    pub fn encode(&self, buf: &mut Vec<u8>)
        ensures
            final(buf)@ == old(buf)@ + seq![0x03u8] + vstd::utf8::encode_utf8(self.query@),
    {
        buf.push(0x03);
        crate::codec::put_bytes(self.query.as_str().as_bytes(), buf);
        proof {
            assert(old(buf)@.push(0x03u8) + vstd::utf8::encode_utf8(self.query@) =~= old(buf)@
                + seq![0x03u8] + vstd::utf8::encode_utf8(self.query@));
        }
    }
}

/// The binlog-dump command: start streaming from a file and offset.
#[derive(Debug, Clone, PartialEq, Eq)]
pub struct ComBinLogDump {
    pub pos: u32,
    pub flags: u16,
    pub server_id: u32,
    pub filename: String,
}

impl ComBinLogDump {
    pub fn encode(&self, buf: &mut Vec<u8>)
        ensures
            final(buf)@ == old(buf)@ + seq![0x12u8] + le_of(self.pos as nat, 4) + le_of(
                self.flags as nat,
                2,
            ) + le_of(self.server_id as nat, 4) + vstd::utf8::encode_utf8(self.filename@),
    {
        buf.push(0x12);
        crate::codec::push_le(buf, self.pos as u64, 4);
        crate::codec::push_le(buf, self.flags as u64, 2);
        crate::codec::push_le(buf, self.server_id as u64, 4);
        crate::codec::put_bytes(self.filename.as_str().as_bytes(), buf);
        proof {
            assert(old(buf)@.push(0x12u8) + le_of(self.pos as nat, 4) + le_of(self.flags as nat, 2)
                + le_of(self.server_id as nat, 4) + vstd::utf8::encode_utf8(self.filename@)
                =~= old(buf)@ + seq![0x12u8] + le_of(self.pos as nat, 4) + le_of(
                self.flags as nat,
                2,
            ) + le_of(self.server_id as nat, 4) + vstd::utf8::encode_utf8(self.filename@));
        }
    }
}

/// One row of a text result set: its column values as raw byte runs.
#[derive(Debug, Clone, PartialEq, Eq)]
pub struct TextResult {
    pub columns: Vec<Vec<u8>>,
}

/// A whole text result set: the column count, the column definitions, and
/// the rows.
#[derive(Debug, Clone, PartialEq, Eq)]
pub struct TextResultSet {
    pub column_count: VLenInt,
    pub col_defs: Vec<ColDef>,
    pub rows: Vec<TextResult>,
}

/// A column definition of a text result set.
#[derive(Debug, Clone, PartialEq, Eq)]
pub struct ColDef {
    pub catalog: String,
    pub schema: String,
    pub table: String,
    pub original_table: String,
    pub name: String,
    pub original_name: String,
    pub length_of_fixed_length_fields: VLenInt,
    pub charset: u16,
    pub column_length: u32,
    pub ty: u8,
    pub flags: u16,
    pub decimals: u8,
}

/// The chain of length-prefixed byte runs filling `[i, s.len())` exactly:
/// the runs in order, or the error met reading them.
pub open spec fn spec_text_columns(s: Seq<u8>, i: int) -> Result<Seq<Seq<u8>>, DecodeError>
    decreases s.len() - i,
{
    if i >= s.len() {
        Ok(Seq::empty())
    } else {
        match spec_lenenc(s, i) {
            Ok(p) => if p.0 > s.len() - (i + p.1) {
                Err(DecodeError::NotEnoughData)
            } else if p.1 < 1 {
                Err(DecodeError::InvalidData)
            } else {
                match spec_text_columns(s, i + p.1 + p.0) {
                    Ok(rest) => Ok(seq![s.subrange(i + p.1, i + p.1 + p.0)] + rest),
                    Err(e) => Err(e),
                }
            },
            Err(e) => Err(e),
        }
    }
}

/// The views of a list of byte runs, in order.
pub open spec fn runs_views(vs: Seq<Vec<u8>>) -> Seq<Seq<u8>>
    decreases vs.len(),
{
    if vs.len() == 0 {
        Seq::empty()
    } else {
        runs_views(vs.drop_last()).push(vs.last()@)
    }
}

impl TextResult {
    /// Reads length-prefixed column values until the payload is exhausted,
    /// which a well-formed row payload fills exactly.
    pub fn decode(cur: &mut Cursor) -> (r: Result<TextResult, DecodeError>)
        requires
            old(cur).wf(),
        ensures
            final(cur).data == old(cur).data,
            final(cur).wf(),
            r is Ok <==> spec_text_columns(old(cur).data@, old(cur).pos as int) is Ok,
            r matches Ok(p) ==> runs_views(p.columns@) == spec_text_columns(
                old(cur).data@,
                old(cur).pos as int,
            )->Ok_0 && final(cur).pos == final(cur).data@.len(),
            r is Err ==> r->Err_0 == spec_text_columns(old(cur).data@, old(cur).pos as int)->Err_0,
    {
        let ghost s = cur.data@;
        let mut columns: Vec<Vec<u8>> = Vec::new();
        let ghost mut done: Seq<Seq<u8>> = Seq::empty();
        while cur.remaining() > 0
            invariant
                cur.wf(),
                cur.data == old(cur).data,
                s == cur.data@,
                done == runs_views(columns@),
                match spec_text_columns(s, cur.pos as int) {
                    Ok(rest) => spec_text_columns(s, old(cur).pos as int) == Ok::<_, DecodeError>(
                        done + rest,
                    ),
                    Err(e) => spec_text_columns(s, old(cur).pos as int) == Err::<
                        Seq<Seq<u8>>,
                        DecodeError,
                    >(e),
                },
            decreases cur.data@.len() - cur.pos,
        {
            let ghost pos0 = cur.pos as int;
            let ghost cols0 = columns@;
            let col = match crate::codec::get_var_bytes(cur) {
                Ok(v) => v,
                Err(e) => {
                    return Err(e);
                },
            };
            columns.push(col);
            proof {
                let p = spec_lenenc(s, pos0)->Ok_0;
                let run = s.subrange(pos0 + p.1, pos0 + p.1 + p.0);
                let done0 = done;
                assert(columns@.drop_last() =~= cols0);
                done = done.push(run);
                assert(done == runs_views(columns@));
                match spec_text_columns(s, cur.pos as int) {
                    Ok(rest) => {
                        assert(spec_text_columns(s, pos0) == Ok::<_, DecodeError>(
                            seq![run] + rest,
                        ));
                        assert(done0 + (seq![run] + rest) =~= done + rest);
                        assert(spec_text_columns(s, old(cur).pos as int) == Ok::<_, DecodeError>(
                            done + rest,
                        ));
                    },
                    Err(e) => {
                        assert(spec_text_columns(s, pos0) == Err::<Seq<Seq<u8>>, DecodeError>(e));
                    },
                }
            }
        }
        proof {
            assert(done + Seq::<Seq<u8>>::empty() =~= done);
        }
        Ok(TextResult { columns })
    }
}

/// Whether capability bit `k` is advertised.
pub open spec fn spec_cap_bit(caps: u32, k: u32) -> bool {
    (caps >> k) % 2 == 1
}

fn cap_bit(caps: u32, k: u32) -> (r: bool)
    requires
        k < 32,
    ensures
        r == spec_cap_bit(caps, k),
{
    (caps >> k) % 2 == 1
}

/// The client's handshake response, protocol version 41.
#[derive(Debug, Clone, PartialEq, Eq)]
pub struct HandshakeResponse41 {
    pub caps: u32,
    pub max_packet_size: u32,
    pub charset: u8,
    pub user_name: String,
    pub auth_resp: Vec<u8>,
    pub database: Option<String>,
    pub plugin_name: Option<String>,
    pub connect_attrs: Vec<(String, String)>,
    pub zstd_level: u8,
}

/// The wire form of the auth-response region: length-encoded when the
/// corresponding capability is advertised, a one-byte length otherwise. An
/// empty password therefore always puts a single zero byte on the wire.
pub open spec fn spec_auth_segment(caps: u32, auth: Seq<u8>) -> Seq<u8> {
    if spec_cap_bit(caps, 21) {
        crate::codec::spec_lenenc_bytes(auth.len() as u64) + auth
    } else {
        seq![auth.len() as u8] + auth
    }
}

/// The wire form of the connect attributes: each name and value as a
/// length-encoded run.
pub open spec fn spec_attrs_bytes(attrs: Seq<(String, String)>) -> Seq<u8>
    decreases attrs.len(),
{
    if attrs.len() == 0 {
        Seq::empty()
    } else {
        spec_attrs_bytes(attrs.drop_last()) + crate::codec::spec_lenenc_bytes(
            vstd::utf8::encode_utf8(attrs.last().0@).len() as u64,
        ) + vstd::utf8::encode_utf8(attrs.last().0@) + crate::codec::spec_lenenc_bytes(
            vstd::utf8::encode_utf8(attrs.last().1@).len() as u64,
        ) + vstd::utf8::encode_utf8(attrs.last().1@)
    }
}

/// A run of `n` zero bytes.
pub open spec fn spec_zeros(n: int) -> Seq<u8> {
    Seq::new(n as nat, |k: int| 0u8)
}

/// The whole wire form of a handshake response, driven by its capability
/// bits.
pub open spec fn spec_hsr41_bytes(r: HandshakeResponse41) -> Seq<u8> {
    le_of(r.caps as nat, 4) + le_of(r.max_packet_size as nat, 2 + 2) + seq![r.charset]
        + spec_zeros(23) + vstd::utf8::encode_utf8(r.user_name@) + seq![0u8] + spec_auth_segment(
        r.caps,
        r.auth_resp@,
    ) + (if spec_cap_bit(r.caps, 3) {
        (match r.database {
            Some(d) => vstd::utf8::encode_utf8(d@),
            None => vstd::utf8::encode_utf8("default"@),
        }) + seq![0u8]
    } else {
        Seq::empty()
    }) + (if spec_cap_bit(r.caps, 19) {
        (match r.plugin_name {
            Some(p) => vstd::utf8::encode_utf8(p@),
            None => Seq::empty(),
        }) + seq![0u8]
    } else {
        Seq::empty()
    }) + (if spec_cap_bit(r.caps, 20) {
        seq![r.connect_attrs@.len() as u8] + spec_attrs_bytes(r.connect_attrs@)
    } else {
        Seq::empty()
    }) + seq![r.zstd_level]
}

/// An empty auth response is a single zero byte on the wire, whichever way
/// the capabilities say lengths are written.
pub proof fn lemma_empty_auth_response_on_wire(caps: u32, auth: Seq<u8>)
    requires
        auth.len() == 0,
    ensures
        spec_auth_segment(caps, auth) == seq![0u8],
{
    if spec_cap_bit(caps, 21) {
        assert(crate::codec::spec_lenenc_bytes(0) =~= seq![0u8]);
        assert(spec_auth_segment(caps, auth) =~= seq![0u8]);
    } else {
        assert(spec_auth_segment(caps, auth) =~= seq![0u8]);
    }
}

/// Writes the auth-response region in the shape the capabilities call for.
fn put_auth_segment(caps: u32, auth: &Vec<u8>, buf: &mut Vec<u8>)
    requires
        !spec_cap_bit(caps, 21) ==> auth@.len() < 256,
    ensures
        final(buf)@ == old(buf)@ + spec_auth_segment(caps, auth@),
{
    if cap_bit(caps, 21) {
        crate::codec::put_var_bytes(auth.as_slice(), buf);
        proof {
            assert(old(buf)@ + crate::codec::spec_lenenc_bytes(auth@.len() as u64) + auth@
                =~= old(buf)@ + spec_auth_segment(caps, auth@));
        }
    } else {
        buf.push(auth.len() as u8);
        crate::codec::put_bytes(auth.as_slice(), buf);
        proof {
            assert(old(buf)@.push(auth@.len() as u8) + auth@ =~= old(buf)@ + spec_auth_segment(
                caps,
                auth@,
            ));
        }
    }
}

/// Writes the connect-database region, if the capability asks for one.
fn put_db_segment(caps: u32, database: &Option<String>, buf: &mut Vec<u8>)
    ensures
        final(buf)@ == old(buf)@ + (if spec_cap_bit(caps, 3) {
            (match database {
                Some(d) => vstd::utf8::encode_utf8(d@),
                None => vstd::utf8::encode_utf8("default"@),
            }) + seq![0u8]
        } else {
            Seq::<u8>::empty()
        }),
{
    if cap_bit(caps, 3) {
        match database {
            Some(d) => crate::codec::put_null_term_bytes(d.as_str().as_bytes(), buf),
            None => crate::codec::put_null_term_bytes("default".as_bytes(), buf),
        }
    } else {
        proof {
            assert(buf@ + Seq::<u8>::empty() =~= buf@);
        }
    }
}

/// Writes the plugin-name region, if the capability asks for one.
fn put_plugin_segment(caps: u32, plugin: &Option<String>, buf: &mut Vec<u8>)
    ensures
        final(buf)@ == old(buf)@ + (if spec_cap_bit(caps, 19) {
            (match plugin {
                Some(p) => vstd::utf8::encode_utf8(p@),
                None => Seq::<u8>::empty(),
            }) + seq![0u8]
        } else {
            Seq::<u8>::empty()
        }),
{
    if cap_bit(caps, 19) {
        match plugin {
            Some(p) => crate::codec::put_null_term_bytes(p.as_str().as_bytes(), buf),
            None => {
                buf.push(0);
                proof {
                    assert(old(buf)@.push(0u8) =~= old(buf)@ + (Seq::<u8>::empty() + seq![0u8]));
                }
            },
        }
    } else {
        proof {
            assert(buf@ + Seq::<u8>::empty() =~= buf@);
        }
    }
}

/// Writes the connect-attribute region, if the capability asks for one.
fn put_attrs_segment(caps: u32, attrs: &Vec<(String, String)>, buf: &mut Vec<u8>)
    requires
        spec_cap_bit(caps, 20) ==> attrs@.len() < 256,
    ensures
        final(buf)@ == old(buf)@ + (if spec_cap_bit(caps, 20) {
            seq![attrs@.len() as u8] + spec_attrs_bytes(attrs@)
        } else {
            Seq::<u8>::empty()
        }),
{
    if cap_bit(caps, 20) {
        buf.push(attrs.len() as u8);
        let ghost base = buf@;
        let mut a: usize = 0;
        proof {
            assert(attrs@.subrange(0, 0) =~= Seq::<(String, String)>::empty());
            assert(base + spec_attrs_bytes(attrs@.subrange(0, 0)) =~= base);
        }
        while a < attrs.len()
            invariant
                a <= attrs@.len(),
                buf@ == base + spec_attrs_bytes(attrs@.subrange(0, a as int)),
            decreases attrs@.len() - a,
        {
            let ghost pre = attrs@.subrange(0, a as int);
            crate::codec::put_var_bytes(attrs[a].0.as_str().as_bytes(), buf);
            crate::codec::put_var_bytes(attrs[a].1.as_str().as_bytes(), buf);
            proof {
                let cur_pre = attrs@.subrange(0, a + 1);
                assert(cur_pre.drop_last() =~= pre);
                assert(cur_pre.last() == attrs@[a as int]);
                assert(buf@ =~= base + spec_attrs_bytes(cur_pre));
            }
            a = a + 1;
        }
        proof {
            assert(attrs@.subrange(0, attrs@.len() as int) =~= attrs@);
            assert(old(buf)@.push(attrs@.len() as u8) + spec_attrs_bytes(attrs@) =~= old(buf)@
                + (seq![attrs@.len() as u8] + spec_attrs_bytes(attrs@)));
        }
    } else {
        proof {
            assert(buf@ + Seq::<u8>::empty() =~= buf@);
        }
    }
}

impl HandshakeResponse41 {
    /// Writes the response in its wire form. Where the length-encoded
    /// capability is not advertised, the auth response must fit a one-byte
    /// length; the attribute count is likewise a single byte.
    #[verifier::rlimit(100)]
    #[verifier::spinoff_prover]
    pub fn encode(&self, buf: &mut Vec<u8>)
        requires
            !spec_cap_bit(self.caps, 21) ==> self.auth_resp@.len() < 256,
            spec_cap_bit(self.caps, 20) ==> self.connect_attrs@.len() < 256,
        ensures
            final(buf)@ == old(buf)@ + spec_hsr41_bytes(*self),
    {
        crate::codec::push_le(buf, self.caps as u64, 4);
        crate::codec::push_le(buf, self.max_packet_size as u64, 4);
        buf.push(self.charset);
        let mut k: usize = 0;
        let ghost mid = buf@;
        while k < 23
            invariant
                k <= 23,
                buf@ == mid + spec_zeros(k as int),
            decreases 23 - k,
        {
            buf.push(0);
            proof {
                assert(mid + spec_zeros(k as int) + seq![0u8] =~= mid + spec_zeros(k + 1));
            }
            k = k + 1;
        }
        crate::codec::put_null_term_bytes(self.user_name.as_str().as_bytes(), buf);
        put_auth_segment(self.caps, &self.auth_resp, buf);
        put_db_segment(self.caps, &self.database, buf);
        put_plugin_segment(self.caps, &self.plugin_name, buf);
        put_attrs_segment(self.caps, &self.connect_attrs, buf);
        buf.push(self.zstd_level);
        proof {
            assert(buf@ =~= old(buf)@ + spec_hsr41_bytes(*self));
        }
    }
}

/// The mathematical shadow of a decoded handshake response.
pub struct Hsr41V {
    pub caps: nat,
    pub max_packet_size: nat,
    pub charset: u8,
    pub user_name: Seq<char>,
    pub auth_resp: Seq<u8>,
    pub database: Option<Seq<char>>,
    pub plugin_name: Option<Seq<char>>,
    pub connect_attrs: Seq<(Seq<char>, Seq<char>)>,
    pub zstd_level: u8,
}

/// A length-encoded string at `j`: its characters and the position after.
pub open spec fn spec_var_str(s: Seq<u8>, j: int) -> Result<(Seq<char>, int), DecodeError> {
    match spec_lenenc(s, j) {
        Err(e) => Err(e),
        Ok(p) => {
            let n = p.0 as int;
            if j + p.1 + n > s.len() {
                Err(DecodeError::NotEnoughData)
            } else {
                let raw = s.subrange(j + p.1, j + p.1 + n);
                if valid_utf8(raw) {
                    Ok((decode_utf8(raw), j + p.1 + n))
                } else {
                    Err(DecodeError::InvalidUtf8)
                }
            }
        },
    }
}

/// `n` name-value attribute pairs at `j`, each a pair of length-encoded
/// strings: the pairs and the position after them.
pub open spec fn spec_attrs(s: Seq<u8>, j: int, n: int) -> Result<
    (Seq<(Seq<char>, Seq<char>)>, int),
    DecodeError,
>
    decreases n,
{
    if n <= 0 {
        Ok((Seq::empty(), j))
    } else {
        match spec_var_str(s, j) {
            Err(e) => Err(e),
            Ok(k) => match spec_var_str(s, k.1) {
                Err(e) => Err(e),
                Ok(v) => match spec_attrs(s, v.1, n - 1) {
                    Ok(rest) => Ok((seq![(k.0, v.0)] + rest.0, rest.1)),
                    Err(e) => Err(e),
                },
            },
        }
    }
}

/// A null-terminated string at `j`: its characters and the position past
/// the terminator.
pub open spec fn spec_nul_str(s: Seq<u8>, j: int) -> Result<(Seq<char>, int), DecodeError> {
    match crate::codec::first_nul(s, j) {
        Some(z) => {
            let raw = s.subrange(j, z);
            if valid_utf8(raw) {
                Ok((decode_utf8(raw), z + 1))
            } else {
                Err(DecodeError::InvalidUtf8)
            }
        },
        None => Err(DecodeError::MissingNullTerminator),
    }
}

/// The auth-response region at `j`: length-encoded when bit 21 is
/// advertised, one-byte-length otherwise.
pub open spec fn spec_auth_read(s: Seq<u8>, j: int, caps: u32) -> Result<
    (Seq<u8>, int),
    DecodeError,
> {
    if spec_cap_bit(caps, 21) {
        match spec_lenenc(s, j) {
            Err(e) => Err(e),
            Ok(p) => if j + p.1 + p.0 > s.len() {
                Err(DecodeError::NotEnoughData)
            } else {
                Ok((s.subrange(j + p.1, j + p.1 + p.0), j + p.1 + p.0))
            },
        }
    } else {
        if j + 1 > s.len() {
            Err(DecodeError::NotEnoughData)
        } else if j + 1 + s[j] > s.len() {
            Err(DecodeError::NotEnoughData)
        } else {
            Ok((s.subrange(j + 1, j + 1 + s[j]), j + 1 + s[j]))
        }
    }
}

/// A null-terminated string at `j` when `want` holds, and nothing
/// otherwise.
pub open spec fn spec_opt_nul_str(s: Seq<u8>, j: int, want: bool) -> Result<
    (Option<Seq<char>>, int),
    DecodeError,
> {
    if want {
        match spec_nul_str(s, j) {
            Err(e) => Err(e),
            Ok(d) => Ok((Some(d.0), d.1)),
        }
    } else {
        Ok((None, j))
    }
}

/// A count byte and that many attribute pairs at `j` when `want` holds, and
/// nothing otherwise.
pub open spec fn spec_opt_attrs(s: Seq<u8>, j: int, want: bool) -> Result<
    (Seq<(Seq<char>, Seq<char>)>, int),
    DecodeError,
> {
    if want {
        if j + 1 > s.len() {
            Err(DecodeError::NotEnoughData)
        } else {
            spec_attrs(s, j + 1, s[j] as int)
        }
    } else {
        Ok((Seq::empty(), j))
    }
}

/// The handshake response the payload at `i` denotes, field by field as the
/// capability bits dictate; trailing bytes after the compression level are
/// permitted.
#[verifier::opaque]
pub open spec fn spec_hsr41(s: Seq<u8>, i: int) -> Result<Hsr41V, DecodeError> {
    if i + 32 > s.len() {
        Err(DecodeError::NotEnoughData)
    } else {
        let caps = crate::codec::u32_at(s, i) as u32;
        match spec_nul_str(s, i + 32) {
            Err(e) => Err(e),
            Ok(user) => match spec_auth_read(s, user.1, caps) {
                Err(e) => Err(e),
                Ok(auth) => match spec_opt_nul_str(s, auth.1, spec_cap_bit(caps, 3)) {
                    Err(e) => Err(e),
                    Ok(db) => match spec_opt_nul_str(s, db.1, spec_cap_bit(caps, 19)) {
                        Err(e) => Err(e),
                        Ok(pl) => match spec_opt_attrs(s, pl.1, spec_cap_bit(caps, 20)) {
                            Err(e) => Err(e),
                            Ok(at) => if at.1 + 1 > s.len() {
                                Err(DecodeError::NotEnoughData)
                            } else {
                                Ok(Hsr41V {
                                    caps: crate::codec::u32_at(s, i),
                                    max_packet_size: crate::codec::u32_at(s, i + 4),
                                    charset: s[i + 8],
                                    user_name: user.0,
                                    auth_resp: auth.0,
                                    database: db.0,
                                    plugin_name: pl.0,
                                    connect_attrs: at.0,
                                    zstd_level: s[at.1],
                                })
                            },
                        },
                    },
                },
            },
        }
    }
}

/// The views of a list of attribute pairs, in order.
pub open spec fn attr_views(vs: Seq<(String, String)>) -> Seq<(Seq<char>, Seq<char>)>
    decreases vs.len(),
{
    if vs.len() == 0 {
        Seq::empty()
    } else {
        attr_views(vs.drop_last()).push((vs.last().0@, vs.last().1@))
    }
}

/// Reads `n` attribute pairs.
fn read_attrs(cur: &mut Cursor, n: u8) -> (r: Result<Vec<(String, String)>, DecodeError>)
    requires
        old(cur).wf(),
    ensures
        final(cur).data == old(cur).data,
        final(cur).wf(),
        spec_attrs(old(cur).data@, old(cur).pos as int, n as int) matches Ok(p) ==> r is Ok
            && attr_views(r->Ok_0@) == p.0 && final(cur).pos == p.1,
        spec_attrs(old(cur).data@, old(cur).pos as int, n as int) matches Err(e) ==> r == Err::<
            Vec<(String, String)>,
            DecodeError,
        >(e),
{
    let ghost s = cur.data@;
    let mut attrs: Vec<(String, String)> = Vec::new();
    let ghost mut done: Seq<(Seq<char>, Seq<char>)> = Seq::empty();
    let mut k: u8 = 0;
    while k < n
        invariant
            cur.wf(),
            cur.data == old(cur).data,
            s == cur.data@,
            k <= n,
            done == attr_views(attrs@),
            match spec_attrs(s, cur.pos as int, n - k) {
                Ok(rest) => spec_attrs(s, old(cur).pos as int, n as int) == Ok::<_, DecodeError>(
                    (done + rest.0, rest.1),
                ),
                Err(e) => spec_attrs(s, old(cur).pos as int, n as int) == Err::<
                    (Seq<(Seq<char>, Seq<char>)>, int),
                    DecodeError,
                >(e),
            },
        decreases n - k,
    {
        let ghost pos0 = cur.pos as int;
        let ghost attrs0 = attrs@;
        let key = match crate::codec::get_var_str(cur) {
            Ok(v) => v,
            Err(e) => {
                return Err(e);
            },
        };
        let val = match crate::codec::get_var_str(cur) {
            Ok(v) => v,
            Err(e) => {
                return Err(e);
            },
        };
        attrs.push((key, val));
        proof {
            let kp = spec_var_str(s, pos0)->Ok_0;
            let vp = spec_var_str(s, kp.1)->Ok_0;
            let done0 = done;
            assert(attrs@.drop_last() =~= attrs0);
            done = done.push((kp.0, vp.0));
            assert(done == attr_views(attrs@));
            match spec_attrs(s, cur.pos as int, n - k - 1) {
                Ok(rest) => {
                    assert(spec_attrs(s, pos0, n - k) == Ok::<_, DecodeError>(
                        (seq![(kp.0, vp.0)] + rest.0, rest.1),
                    ));
                    assert(done0 + (seq![(kp.0, vp.0)] + rest.0) =~= done + rest.0);
                    assert(spec_attrs(s, old(cur).pos as int, n as int) == Ok::<_, DecodeError>(
                        (done + rest.0, rest.1),
                    ));
                },
                Err(e) => {
                    assert(spec_attrs(s, pos0, n - k) == Err::<
                        (Seq<(Seq<char>, Seq<char>)>, int),
                        DecodeError,
                    >(e));
                },
            }
        }
        k = k + 1;
    }
    proof {
        assert(done + Seq::<(Seq<char>, Seq<char>)>::empty() =~= done);
    }
    Ok(attrs)
}

/// Reads the auth-response region in the shape the capabilities call for.
fn read_auth_segment(cur: &mut Cursor, caps: u32) -> (r: Result<Vec<u8>, DecodeError>)
    requires
        old(cur).wf(),
    ensures
        final(cur).data == old(cur).data,
        final(cur).wf(),
        spec_auth_read(old(cur).data@, old(cur).pos as int, caps) matches Ok(p) ==> r is Ok
            && r->Ok_0@ == p.0 && final(cur).pos == p.1,
        spec_auth_read(old(cur).data@, old(cur).pos as int, caps) matches Err(e) ==> r == Err::<
            Vec<u8>,
            DecodeError,
        >(e),
{
    if cap_bit(caps, 21) {
        crate::codec::get_var_bytes(cur)
    } else {
        let n = match cur.read_u8() {
            Ok(v) => v,
            Err(e) => {
                return Err(e);
            },
        };
        cur.read_vec(n as usize)
    }
}

/// Reads a null-terminated string when `want` holds.
fn read_opt_nul_str(cur: &mut Cursor, want: bool) -> (r: Result<Option<String>, DecodeError>)
    requires
        old(cur).wf(),
    ensures
        final(cur).data == old(cur).data,
        final(cur).wf(),
        spec_opt_nul_str(old(cur).data@, old(cur).pos as int, want) matches Ok(p) ==> r is Ok && ((
        r->Ok_0 matches Some(d) && p.0 matches Some(dv) && d@ == dv) || (r->Ok_0 is None && p.0
            is None)) && final(cur).pos == p.1,
        spec_opt_nul_str(old(cur).data@, old(cur).pos as int, want) matches Err(e) ==> r == Err::<
            Option<String>,
            DecodeError,
        >(e),
{
    if want {
        match cur.read_null_term_str() {
            Ok(v) => Ok(Some(v)),
            Err(e) => Err(e),
        }
    } else {
        Ok(None)
    }
}

/// Reads the attribute region when `want` holds.
fn read_opt_attrs(cur: &mut Cursor, want: bool) -> (r: Result<Vec<(String, String)>, DecodeError>)
    requires
        old(cur).wf(),
    ensures
        final(cur).data == old(cur).data,
        final(cur).wf(),
        spec_opt_attrs(old(cur).data@, old(cur).pos as int, want) matches Ok(p) ==> r is Ok
            && attr_views(r->Ok_0@) == p.0 && final(cur).pos == p.1,
        spec_opt_attrs(old(cur).data@, old(cur).pos as int, want) matches Err(e) ==> r == Err::<
            Vec<(String, String)>,
            DecodeError,
        >(e),
{
    if want {
        let n = match cur.read_u8() {
            Ok(v) => v,
            Err(e) => {
                return Err(e);
            },
        };
        read_attrs(cur, n)
    } else {
        proof {
            assert(attr_views(Seq::<(String, String)>::empty()) =~= Seq::<
                (Seq<char>, Seq<char>),
            >::empty());
        }
        Ok(Vec::new())
    }
}

impl HandshakeResponse41 {
    /// Decodes a handshake response, field by field as its own capability
    /// bits dictate.
    #[verifier::rlimit(100)]
    #[verifier::spinoff_prover]
    pub fn decode(cur: &mut Cursor) -> (r: Result<HandshakeResponse41, DecodeError>)
        requires
            old(cur).wf(),
        ensures
            final(cur).data == old(cur).data,
            final(cur).wf(),
            r is Ok <==> spec_hsr41(old(cur).data@, old(cur).pos as int) is Ok,
            r matches Ok(p) ==> ({
                let v = spec_hsr41(old(cur).data@, old(cur).pos as int)->Ok_0;
                &&& (p.caps as nat) == v.caps
                &&& (p.max_packet_size as nat) == v.max_packet_size
                &&& p.charset == v.charset
                &&& p.user_name@ == v.user_name
                &&& p.auth_resp@ == v.auth_resp
                &&& (p.database matches Some(d) && v.database matches Some(dv) && d@ == dv) || (
                p.database is None && v.database is None)
                &&& (p.plugin_name matches Some(g) && v.plugin_name matches Some(gv) && g@ == gv)
                    || (p.plugin_name is None && v.plugin_name is None)
                &&& attr_views(p.connect_attrs@) == v.connect_attrs
                &&& p.zstd_level == v.zstd_level
            }),
            r is Err ==> r->Err_0 == spec_hsr41(old(cur).data@, old(cur).pos as int)->Err_0,
    {
        proof {
            reveal(spec_hsr41);
        }
        if cur.remaining() < 32 {
            return Err(DecodeError::NotEnoughData);
        }
        let caps = match cur.read_u32() {
            Ok(v) => v,
            Err(e) => {
                return Err(e);
            },
        };
        let max_packet_size = match cur.read_u32() {
            Ok(v) => v,
            Err(e) => {
                return Err(e);
            },
        };
        let charset = match cur.read_u8() {
            Ok(v) => v,
            Err(e) => {
                return Err(e);
            },
        };
        let _ = cur.skip(23);
        let user_name = match cur.read_null_term_str() {
            Ok(v) => v,
            Err(e) => {
                return Err(e);
            },
        };
        let auth_resp = match read_auth_segment(cur, caps) {
            Ok(v) => v,
            Err(e) => {
                return Err(e);
            },
        };
        let database = match read_opt_nul_str(cur, cap_bit(caps, 3)) {
            Ok(v) => v,
            Err(e) => {
                return Err(e);
            },
        };
        let plugin_name = match read_opt_nul_str(cur, cap_bit(caps, 19)) {
            Ok(v) => v,
            Err(e) => {
                return Err(e);
            },
        };
        let connect_attrs = match read_opt_attrs(cur, cap_bit(caps, 20)) {
            Ok(v) => v,
            Err(e) => {
                return Err(e);
            },
        };
        let zstd_level = match cur.read_u8() {
            Ok(v) => v,
            Err(e) => {
                return Err(e);
            },
        };
        Ok(HandshakeResponse41 {
            caps,
            max_packet_size,
            charset,
            user_name,
            auth_resp,
            database,
            plugin_name,
            connect_attrs,
            zstd_level,
        })
    }
}

/// The server's greeting, protocol version 10.
#[derive(Debug, Clone, PartialEq, Eq)]
pub struct HandshakeV10 {
    pub protocol_version: u8,
    pub server_version: String,
    pub thread_id: u32,
    pub caps: u32,
    pub charset: u8,
    pub status: u16,
    pub auth_plugin_name: String,
    pub auth_plugin_data: Vec<u8>,
}

/// The mathematical shadow of a decoded greeting.
pub struct HsV10V {
    pub protocol_version: u8,
    pub server_version: Seq<char>,
    pub thread_id: nat,
    pub caps: u32,
    pub charset: u8,
    pub status: u16,
    pub auth_plugin_name: Seq<char>,
    pub auth_plugin_data: Seq<u8>,
}

/// The second challenge block's length: what the declared length claims
/// beyond the first eight bytes, and never fewer than thirteen.
pub open spec fn spec_auth_ext_len(adl: u8) -> int {
    if adl > 8 && adl - 8 > 13 {
        adl - 8
    } else {
        13
    }
}

/// The greeting the payload at `i` denotes. A protocol version other than
/// ten is refused with `InvalidData`; the capability bits join a low and a
/// high 16-bit half; the challenge is the first eight bytes plus, when a
/// length is declared, the second block.
#[verifier::opaque]
pub open spec fn spec_handshake_v10(s: Seq<u8>, i: int) -> Result<HsV10V, DecodeError> {
    if i + 1 > s.len() {
        Err(DecodeError::NotEnoughData)
    } else if s[i] != 10 {
        Err(DecodeError::InvalidData)
    } else {
        match spec_nul_str(s, i + 1) {
            Err(e) => Err(e),
            Ok(ver) => {
                let p = ver.1;
                if p + 31 > s.len() {
                    Err(DecodeError::NotEnoughData)
                } else {
                    let caps = (u16_at(s, p + 13) + 0x10000 * u16_at(s, p + 18)) as u32;
                    let adl = s[p + 20];
                    let q = p + 31;
                    let part1 = s.subrange(p + 4, p + 12);
                    let ext_r = if adl > 0 {
                        let n = spec_auth_ext_len(adl);
                        if q + n > s.len() {
                            Err(DecodeError::NotEnoughData)
                        } else {
                            Ok((s.subrange(q, q + n), q + n))
                        }
                    } else {
                        Ok((Seq::<u8>::empty(), q))
                    };
                    match ext_r {
                        Err(e) => Err(e),
                        Ok(ext) => match spec_opt_nul_str(s, ext.1, spec_cap_bit(caps, 19)) {
                            Err(e) => Err(e),
                            Ok(pl) => Ok(HsV10V {
                                protocol_version: s[i],
                                server_version: ver.0,
                                thread_id: crate::codec::u32_at(s, p),
                                caps,
                                charset: s[p + 15],
                                status: u16_at(s, p + 16) as u16,
                                auth_plugin_name: match pl.0 {
                                    Some(n) => n,
                                    None => Seq::empty(),
                                },
                                auth_plugin_data: part1 + ext.0,
                            }),
                        },
                    }
                }
            },
        }
    }
}

impl HandshakeV10 {
    /// Decodes the server greeting.
    #[verifier::rlimit(100)]
    #[verifier::spinoff_prover]
    pub fn decode(cur: &mut Cursor) -> (r: Result<HandshakeV10, DecodeError>)
        requires
            old(cur).wf(),
        ensures
            final(cur).data == old(cur).data,
            final(cur).wf(),
            r is Ok <==> spec_handshake_v10(old(cur).data@, old(cur).pos as int) is Ok,
            r matches Ok(p) ==> ({
                let v = spec_handshake_v10(old(cur).data@, old(cur).pos as int)->Ok_0;
                &&& p.protocol_version == v.protocol_version
                &&& p.server_version@ == v.server_version
                &&& (p.thread_id as nat) == v.thread_id
                &&& p.caps == v.caps
                &&& p.charset == v.charset
                &&& p.status == v.status
                &&& p.auth_plugin_name@ == v.auth_plugin_name
                &&& p.auth_plugin_data@ == v.auth_plugin_data
            }),
            r is Err ==> r->Err_0 == spec_handshake_v10(old(cur).data@, old(cur).pos as int)
                ->Err_0,
    {
        proof {
            reveal(spec_handshake_v10);
        }
        let ghost s = cur.data@;
        let protocol_version = match cur.read_u8() {
            Ok(v) => v,
            Err(e) => {
                return Err(e);
            },
        };
        if protocol_version != 10 {
            return Err(DecodeError::InvalidData);
        }
        let server_version = match cur.read_null_term_str() {
            Ok(v) => v,
            Err(e) => {
                return Err(e);
            },
        };
        if cur.remaining() < 31 {
            return Err(DecodeError::NotEnoughData);
        }
        let thread_id = match cur.read_u32() {
            Ok(v) => v,
            Err(e) => {
                return Err(e);
            },
        };
        let part1 = match cur.read_vec(8) {
            Ok(v) => v,
            Err(e) => {
                return Err(e);
            },
        };
        let _ = cur.skip(1);
        let l_cap = match cur.read_u16() {
            Ok(v) => v,
            Err(e) => {
                return Err(e);
            },
        };
        let charset = match cur.read_u8() {
            Ok(v) => v,
            Err(e) => {
                return Err(e);
            },
        };
        let status = match cur.read_u16() {
            Ok(v) => v,
            Err(e) => {
                return Err(e);
            },
        };
        let h_cap = match cur.read_u16() {
            Ok(v) => v,
            Err(e) => {
                return Err(e);
            },
        };
        let caps = l_cap as u32 + 0x10000 * (h_cap as u32);
        let adl = match cur.read_u8() {
            Ok(v) => v,
            Err(e) => {
                return Err(e);
            },
        };
        let _ = cur.skip(10);
        let mut auth_plugin_data = part1;
        if adl > 0 {
            let d: usize = if adl >= 8 {
                (adl - 8) as usize
            } else {
                0
            };
            let n: usize = if d > 13 {
                d
            } else {
                13
            };
            let ext = match cur.read_vec(n) {
                Ok(v) => v,
                Err(e) => {
                    return Err(e);
                },
            };
            crate::codec::append_bytes(&mut auth_plugin_data, ext.as_slice());
        } else {
            proof {
                assert(auth_plugin_data@ + Seq::<u8>::empty() =~= auth_plugin_data@);
            }
        }
        let auth_plugin_name = match read_opt_nul_str(cur, cap_bit(caps, 19)) {
            Ok(Some(n)) => n,
            Ok(None) => String::new(),
            Err(e) => {
                return Err(e);
            },
        };
        Ok(HandshakeV10 {
            protocol_version,
            server_version,
            thread_id,
            caps,
            charset,
            status,
            auth_plugin_name,
            auth_plugin_data,
        })
    }
}

/// The server's request to switch authentication plugins.
#[derive(Debug, Clone, PartialEq, Eq)]
pub struct AuthSwitchReq {
    pub plugin_name: String,
    pub plugin_data: Vec<u8>,
}

/// The switch request the payload at `i` denotes: the marker byte, the
/// plugin name, and the fresh challenge (all but the payload's last byte).
pub open spec fn spec_auth_switch(s: Seq<u8>, i: int) -> Result<(Seq<char>, Seq<u8>), DecodeError> {
    if i >= s.len() {
        Err(DecodeError::NotEnoughData)
    } else if s[i] != 0xfe {
        Err(DecodeError::InvalidData)
    } else {
        match spec_nul_str(s, i + 1) {
            Err(e) => Err(e),
            Ok(name) => if name.1 < s.len() {
                Ok((name.0, s.subrange(name.1, s.len() - 1)))
            } else {
                Ok((name.0, Seq::empty()))
            },
        }
    }
}

impl AuthSwitchReq {
    /// Decodes an auth-switch request.
    pub fn decode(cur: &mut Cursor) -> (r: Result<AuthSwitchReq, DecodeError>)
        requires
            old(cur).wf(),
        ensures
            final(cur).data == old(cur).data,
            final(cur).wf(),
            r is Ok <==> spec_auth_switch(old(cur).data@, old(cur).pos as int) is Ok,
            r matches Ok(p) ==> ({
                let v = spec_auth_switch(old(cur).data@, old(cur).pos as int)->Ok_0;
                p.plugin_name@ == v.0 && p.plugin_data@ == v.1
            }),
            r is Err ==> r->Err_0 == spec_auth_switch(old(cur).data@, old(cur).pos as int)->Err_0,
    {
        let tag = match cur.read_u8() {
            Ok(v) => v,
            Err(e) => {
                return Err(e);
            },
        };
        if tag != 0xfe {
            return Err(DecodeError::InvalidData);
        }
        let plugin_name = match cur.read_null_term_str() {
            Ok(v) => v,
            Err(e) => {
                return Err(e);
            },
        };
        let rem = cur.remaining();
        let plugin_data = if rem > 0 {
            match cur.read_vec(rem - 1) {
                Ok(v) => v,
                Err(e) => {
                    return Err(e);
                },
            }
        } else {
            let empty: Vec<u8> = Vec::new();
            proof {
                assert(empty@ =~= Seq::<u8>::empty());
            }
            empty
        };
        Ok(AuthSwitchReq { plugin_name, plugin_data })
    }
}

/// The client's answer to an auth-switch request: the raw challenge
/// response.
#[derive(Debug, Clone, PartialEq, Eq)]
pub struct AuthSwitchResp {
    pub data: Vec<u8>,
}

impl AuthSwitchResp {
    pub fn encode(&self, buf: &mut Vec<u8>)
        ensures
            final(buf)@ == old(buf)@ + self.data@,
    {
        crate::codec::put_bytes(self.data.as_slice(), buf);
    }
}

/// The mathematical shadow of a column definition.
pub struct ColDefV {
    pub catalog: Seq<char>,
    pub schema: Seq<char>,
    pub table: Seq<char>,
    pub original_table: Seq<char>,
    pub name: Seq<char>,
    pub original_name: Seq<char>,
    pub length_of_fixed_length_fields: u64,
    pub charset: u16,
    pub column_length: nat,
    pub ty: u8,
    pub flags: u16,
    pub decimals: u8,
}

/// The column definition the payload at `i` denotes: six length-encoded
/// names, then the fixed fields.
#[verifier::opaque]
pub open spec fn spec_col_def_packet(s: Seq<u8>, i: int) -> Result<ColDefV, DecodeError> {
    match spec_var_str(s, i) {
        Err(e) => Err(e),
        Ok(catalog) => match spec_var_str(s, catalog.1) {
            Err(e) => Err(e),
            Ok(schema) => match spec_var_str(s, schema.1) {
                Err(e) => Err(e),
                Ok(table) => match spec_var_str(s, table.1) {
                    Err(e) => Err(e),
                    Ok(original_table) => match spec_var_str(s, original_table.1) {
                        Err(e) => Err(e),
                        Ok(name) => match spec_var_str(s, name.1) {
                            Err(e) => Err(e),
                            Ok(original_name) => match spec_lenenc(s, original_name.1) {
                                Err(e) => Err(e),
                                Ok(lf) => {
                                    let p = original_name.1 + lf.1;
                                    if p + 10 > s.len() {
                                        Err(DecodeError::NotEnoughData)
                                    } else {
                                        Ok(ColDefV {
                                            catalog: catalog.0,
                                            schema: schema.0,
                                            table: table.0,
                                            original_table: original_table.0,
                                            name: name.0,
                                            original_name: original_name.0,
                                            length_of_fixed_length_fields: lf.0,
                                            charset: u16_at(s, p) as u16,
                                            column_length: crate::codec::u32_at(s, p + 2),
                                            ty: s[p + 6],
                                            flags: u16_at(s, p + 7) as u16,
                                            decimals: s[p + 9],
                                        })
                                    }
                                },
                            },
                        },
                    },
                },
            },
        },
    }
}

impl ColDef {
    /// Decodes a column definition of a text result set.
    #[verifier::rlimit(100)]
    #[verifier::spinoff_prover]
    pub fn decode(cur: &mut Cursor) -> (r: Result<ColDef, DecodeError>)
        requires
            old(cur).wf(),
        ensures
            final(cur).data == old(cur).data,
            final(cur).wf(),
            r is Ok <==> spec_col_def_packet(old(cur).data@, old(cur).pos as int) is Ok,
            r matches Ok(p) ==> ({
                let v = spec_col_def_packet(old(cur).data@, old(cur).pos as int)->Ok_0;
                &&& p.catalog@ == v.catalog
                &&& p.schema@ == v.schema
                &&& p.table@ == v.table
                &&& p.original_table@ == v.original_table
                &&& p.name@ == v.name
                &&& p.original_name@ == v.original_name
                &&& p.length_of_fixed_length_fields.0 == v.length_of_fixed_length_fields
                &&& p.charset == v.charset
                &&& (p.column_length as nat) == v.column_length
                &&& p.ty == v.ty
                &&& p.flags == v.flags
                &&& p.decimals == v.decimals
            }),
            r is Err ==> r->Err_0 == spec_col_def_packet(old(cur).data@, old(cur).pos as int)
                ->Err_0,
    {
        proof {
            reveal(spec_col_def_packet);
        }
        let catalog = match read_lenenc_str(cur) {
            Ok(v) => v,
            Err(e) => {
                return Err(e);
            },
        };
        let schema = match read_lenenc_str(cur) {
            Ok(v) => v,
            Err(e) => {
                return Err(e);
            },
        };
        let table = match read_lenenc_str(cur) {
            Ok(v) => v,
            Err(e) => {
                return Err(e);
            },
        };
        let original_table = match read_lenenc_str(cur) {
            Ok(v) => v,
            Err(e) => {
                return Err(e);
            },
        };
        let name = match read_lenenc_str(cur) {
            Ok(v) => v,
            Err(e) => {
                return Err(e);
            },
        };
        let original_name = match read_lenenc_str(cur) {
            Ok(v) => v,
            Err(e) => {
                return Err(e);
            },
        };
        let length_of_fixed_length_fields = match VLenInt::decode(cur) {
            Ok(v) => v,
            Err(e) => {
                return Err(e);
            },
        };
        if cur.remaining() < 10 {
            return Err(DecodeError::NotEnoughData);
        }
        let charset = match cur.read_u16() {
            Ok(v) => v,
            Err(e) => {
                return Err(e);
            },
        };
        let column_length = match cur.read_u32() {
            Ok(v) => v,
            Err(e) => {
                return Err(e);
            },
        };
        let ty = match cur.read_u8() {
            Ok(v) => v,
            Err(e) => {
                return Err(e);
            },
        };
        let flags = match cur.read_u16() {
            Ok(v) => v,
            Err(e) => {
                return Err(e);
            },
        };
        let decimals = match cur.read_u8() {
            Ok(v) => v,
            Err(e) => {
                return Err(e);
            },
        };
        Ok(ColDef {
            catalog,
            schema,
            table,
            original_table,
            name,
            original_name,
            length_of_fixed_length_fields,
            charset,
            column_length,
            ty,
            flags,
            decimals,
        })
    }
}

/// Reads one length-encoded string, phrased against its spec.
fn read_lenenc_str(cur: &mut Cursor) -> (r: Result<String, DecodeError>)
    requires
        old(cur).wf(),
    ensures
        final(cur).data == old(cur).data,
        final(cur).wf(),
        spec_var_str(old(cur).data@, old(cur).pos as int) matches Ok(p) ==> r is Ok && r->Ok_0@
            == p.0 && final(cur).pos == p.1,
        spec_var_str(old(cur).data@, old(cur).pos as int) matches Err(e) ==> r == Err::<
            String,
            DecodeError,
        >(e),
{
    crate::codec::get_var_str(cur)
}

/// Whether a packet payload is the end-of-result marker.
pub open spec fn spec_end_marker(p: Seq<u8>) -> bool {
    p.len() > 0 && p[0] == 0xfe && p.len() < 9
}

/// The column definitions in `packets[k ..= k + n)`, each filling its own
/// packet.
pub open spec fn spec_result_defs(packets: Seq<Seq<u8>>, k: int, n: int) -> Result<
    Seq<ColDefV>,
    DecodeError,
>
    decreases n,
{
    if n <= 0 {
        Ok(Seq::empty())
    } else if k >= packets.len() {
        Err(DecodeError::NotEnoughData)
    } else {
        match spec_col_def_packet(packets[k], 0) {
            Err(e) => Err(e),
            Ok(d) => match spec_result_defs(packets, k + 1, n - 1) {
                Ok(rest) => Ok(seq![d] + rest),
                Err(e) => Err(e),
            },
        }
    }
}

/// The text rows in `packets[k..]` up to the end-of-result marker, which
/// must itself be a well-formed OK packet.
pub open spec fn spec_result_rows(packets: Seq<Seq<u8>>, k: int) -> Result<
    Seq<Seq<Seq<u8>>>,
    DecodeError,
>
    decreases packets.len() - k,
{
    if k >= packets.len() {
        Err(DecodeError::NotEnoughData)
    } else if spec_end_marker(packets[k]) {
        if ok_packet_wf(packets[k], 0) {
            Ok(Seq::empty())
        } else {
            Err(ok_packet_err(packets[k], 0))
        }
    } else {
        match spec_text_columns(packets[k], 0) {
            Err(e) => Err(e),
            Ok(cols) => match spec_result_rows(packets, k + 1) {
                Ok(rest) => Ok(seq![cols] + rest),
                Err(e) => Err(e),
            },
        }
    }
}

/// The views of a list of packet payloads.
pub open spec fn packet_views(vs: Seq<Vec<u8>>) -> Seq<Seq<u8>>
    decreases vs.len(),
{
    if vs.len() == 0 {
        Seq::empty()
    } else {
        packet_views(vs.drop_last()).push(vs.last()@)
    }
}

/// The views of a list of column definitions.
pub open spec fn col_def_views(vs: Seq<ColDef>) -> Seq<ColDefV>
    decreases vs.len(),
{
    if vs.len() == 0 {
        Seq::empty()
    } else {
        col_def_views(vs.drop_last()).push(col_def_view(vs.last()))
    }
}

/// The shadow of one decoded column definition.
pub open spec fn col_def_view(d: ColDef) -> ColDefV {
    ColDefV {
        catalog: d.catalog@,
        schema: d.schema@,
        table: d.table@,
        original_table: d.original_table@,
        name: d.name@,
        original_name: d.original_name@,
        length_of_fixed_length_fields: d.length_of_fixed_length_fields.0,
        charset: d.charset,
        column_length: d.column_length as nat,
        ty: d.ty,
        flags: d.flags,
        decimals: d.decimals,
    }
}

/// The views of a list of text rows.
pub open spec fn text_row_views(vs: Seq<TextResult>) -> Seq<Seq<Seq<u8>>>
    decreases vs.len(),
{
    if vs.len() == 0 {
        Seq::empty()
    } else {
        text_row_views(vs.drop_last()).push(runs_views(vs.last().columns@))
    }
}

/// Reads the column definitions, one packet each.
fn read_result_defs(packets: &Vec<Vec<u8>>, n: usize) -> (r: Result<Vec<ColDef>, DecodeError>)
    requires
        n + 1 <= packets@.len(),
    ensures
        ({
            let ps = packet_views(packets@);
            &&& spec_result_defs(ps, 1, n as int) matches Ok(defs) ==> r is Ok && col_def_views(
                r->Ok_0@,
            ) == defs
            &&& spec_result_defs(ps, 1, n as int) matches Err(e) ==> r == Err::<
                Vec<ColDef>,
                DecodeError,
            >(e)
        }),
{
    let ghost ps = packet_views(packets@);
    proof {
        lemma_packet_views_index(packets@);
    }
    let mut col_defs: Vec<ColDef> = Vec::new();
    let ghost mut done_defs: Seq<ColDefV> = Seq::empty();
    let mut k: usize = 0;
    while k < n
        invariant
            k <= n,
            n + 1 <= packets@.len(),
            ps == packet_views(packets@),
            ps.len() == packets@.len(),
            forall|j: int| 0 <= j < packets@.len() ==> ps[j] == #[trigger] packets@[j]@,
            done_defs == col_def_views(col_defs@),
            match spec_result_defs(ps, 1 + k, n - k) {
                Ok(rest) => spec_result_defs(ps, 1, n as int) == Ok::<_, DecodeError>(
                    done_defs + rest,
                ),
                Err(e) => spec_result_defs(ps, 1, n as int) == Err::<Seq<ColDefV>, DecodeError>(e),
            },
        decreases n - k,
    {
        let ghost defs0 = col_defs@;
        let mut dcur = Cursor::new(packets[1 + k].as_slice());
        let def = match ColDef::decode(&mut dcur) {
            Ok(v) => v,
            Err(e) => {
                return Err(e);
            },
        };
        col_defs.push(def);
        proof {
            let d = spec_col_def_packet(ps[1 + k], 0)->Ok_0;
            let done0 = done_defs;
            assert(col_defs@.drop_last() =~= defs0);
            done_defs = done_defs.push(col_def_view(col_defs@.last()));
            assert(col_def_view(col_defs@.last()) == d);
            assert(done_defs == col_def_views(col_defs@));
            match spec_result_defs(ps, 1 + k + 1, n - k - 1) {
                Ok(rest) => {
                    assert(spec_result_defs(ps, 1 + k, n - k) == Ok::<_, DecodeError>(
                        seq![d] + rest,
                    ));
                    assert(done0 + (seq![d] + rest) =~= done_defs + rest);
                },
                Err(_) => {},
            }
        }
        k = k + 1;
    }
    proof {
        assert(done_defs + Seq::<ColDefV>::empty() =~= done_defs);
    }
    Ok(col_defs)
}

/// Reads the text rows up to the end-of-result marker.
fn read_result_rows(packets: &Vec<Vec<u8>>, start: usize) -> (r: Result<
    Vec<TextResult>,
    DecodeError,
>)
    ensures
        ({
            let ps = packet_views(packets@);
            &&& spec_result_rows(ps, start as int) matches Ok(rows) ==> r is Ok && text_row_views(
                r->Ok_0@,
            ) == rows
            &&& spec_result_rows(ps, start as int) matches Err(e) ==> r == Err::<
                Vec<TextResult>,
                DecodeError,
            >(e)
        }),
{
    let ghost ps = packet_views(packets@);
    proof {
        lemma_packet_views_index(packets@);
    }
    let mut rows: Vec<TextResult> = Vec::new();
    let ghost mut done_rows: Seq<Seq<Seq<u8>>> = Seq::empty();
    let mut k: usize = start;
    loop
        invariant
            start <= k,
            ps == packet_views(packets@),
            ps.len() == packets@.len(),
            forall|j: int| 0 <= j < packets@.len() ==> ps[j] == #[trigger] packets@[j]@,
            done_rows == text_row_views(rows@),
            match spec_result_rows(ps, k as int) {
                Ok(rest) => spec_result_rows(ps, start as int) == Ok::<_, DecodeError>(
                    done_rows + rest,
                ),
                Err(e) => spec_result_rows(ps, start as int) == Err::<
                    Seq<Seq<Seq<u8>>>,
                    DecodeError,
                >(e),
            },
        decreases packets@.len() - k,
    {
        if k >= packets.len() {
            return Err(DecodeError::NotEnoughData);
        }
        let p = &packets[k];
        if is_end_of_result(p) {
            let mut ecur = Cursor::new(p.as_slice());
            match OkPacket::decode(&mut ecur) {
                Ok(_) => (),
                Err(e) => {
                    return Err(e);
                },
            }
            proof {
                assert(done_rows + Seq::<Seq<Seq<u8>>>::empty() =~= done_rows);
            }
            return Ok(rows);
        }
        let ghost rows0 = rows@;
        let mut rcur = Cursor::new(p.as_slice());
        let row = match TextResult::decode(&mut rcur) {
            Ok(v) => v,
            Err(e) => {
                return Err(e);
            },
        };
        rows.push(row);
        proof {
            let cols = spec_text_columns(ps[k as int], 0)->Ok_0;
            let done0 = done_rows;
            assert(rows@.drop_last() =~= rows0);
            done_rows = done_rows.push(runs_views(rows@.last().columns@));
            assert(runs_views(rows@.last().columns@) == cols);
            assert(done_rows == text_row_views(rows@));
            match spec_result_rows(ps, k + 1) {
                Ok(rest) => {
                    assert(spec_result_rows(ps, k as int) == Ok::<_, DecodeError>(
                        seq![cols] + rest,
                    ));
                    assert(done0 + (seq![cols] + rest) =~= done_rows + rest);
                },
                Err(_) => {},
            }
        }
        k = k + 1;
    }
}

/// Assembles a text result set from the command's reply packets: the column
/// count, that many column definitions, then rows up to the end-of-result
/// marker.
#[verifier::rlimit(100)]
#[verifier::spinoff_prover]
pub fn decode_text_result_set(packets: &Vec<Vec<u8>>) -> (r: Result<TextResultSet, DecodeError>)
    ensures
        ({
            let ps = packet_views(packets@);
            &&& ps.len() == 0 ==> r == Err::<TextResultSet, DecodeError>(
                DecodeError::NotEnoughData,
            )
            &&& ps.len() > 0 ==> match spec_lenenc(ps[0], 0) {
                Err(e) => r == Err::<TextResultSet, DecodeError>(e),
                Ok(n) => {
                    &&& (n.0 > 0x10000 || 1 + n.0 > ps.len()) ==> r == Err::<
                        TextResultSet,
                        DecodeError,
                    >(DecodeError::NotEnoughData)
                    &&& (n.0 <= 0x10000 && 1 + n.0 <= ps.len()) ==> match spec_result_defs(
                        ps,
                        1,
                        n.0 as int,
                    ) {
                        Err(e) => r == Err::<TextResultSet, DecodeError>(e),
                        Ok(defs) => match spec_result_rows(ps, 1 + n.0 as int) {
                            Err(e) => r == Err::<TextResultSet, DecodeError>(e),
                            Ok(rows) => r matches Ok(t) && t.column_count.0 == n.0
                                && col_def_views(t.col_defs@) == defs && text_row_views(t.rows@)
                                == rows,
                        },
                    }
                },
            }
        }),
{
    let ghost ps = packet_views(packets@);
    proof {
        lemma_packet_views_index(packets@);
    }
    if packets.len() == 0 {
        return Err(DecodeError::NotEnoughData);
    }
    let first = &packets[0];
    let mut cur = Cursor::new(first.as_slice());
    let column_count = match crate::codec::VLenInt::decode(&mut cur) {
        Ok(v) => v,
        Err(e) => {
            return Err(e);
        },
    };
    if column_count.0 > 0x10000 || column_count.0 > (packets.len() - 1) as u64 {
        return Err(DecodeError::NotEnoughData);
    }
    let n = column_count.0 as usize;
    let col_defs = match read_result_defs(packets, n) {
        Ok(v) => v,
        Err(e) => {
            return Err(e);
        },
    };
    let rows = match read_result_rows(packets, n + 1) {
        Ok(v) => v,
        Err(e) => {
            return Err(e);
        },
    };
    Ok(TextResultSet { column_count, col_defs, rows })
}

/// Packet views line up with the packets, index by index.
proof fn lemma_packet_views_index(vs: Seq<Vec<u8>>)
    ensures
        packet_views(vs).len() == vs.len(),
        forall|j: int| 0 <= j < vs.len() ==> packet_views(vs)[j] == #[trigger] vs[j]@,
    decreases vs.len(),
{
    if vs.len() > 0 {
        lemma_packet_views_index(vs.drop_last());
        assert forall|j: int| 0 <= j < vs.len() implies packet_views(vs)[j] == #[trigger] vs[j]@
            by {
            if j < vs.len() - 1 {
                assert(packet_views(vs)[j] == packet_views(vs.drop_last())[j]);
                assert(vs.drop_last()[j] == vs[j]);
            }
        }
    }
}

} // verus!
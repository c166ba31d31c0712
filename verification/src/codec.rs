//! Wire codec primitives: a bounds-checked byte cursor, little-endian
//! fixed-width integers, length-encoded integers, null-terminated and
//! length-prefixed byte runs and strings, and the symmetric encoders.

use vstd::prelude::*;
use vstd::utf8::{decode_utf8, valid_utf8};

verus! {

/// The error taxonomy of the codec and of everything built on it.
#[derive(Debug, Clone, Copy, PartialEq, Eq, Structural)]
pub enum DecodeError {
    /// The cursor ran out in the middle of a field.
    NotEnoughData,
    /// A string field's bytes are not valid UTF-8.
    InvalidUtf8,
    /// A null-terminated field reached the end of the buffer.
    MissingNullTerminator,
    /// A structurally impossible value was found.
    InvalidData,
    /// The server answered the connection phase with an error packet.
    AuthFailed,
    /// A lower-layer I/O failure surfaced through the parser interface.
    Transport,
}

/// 256 to the power `n`: the number of values `n` bytes can hold.
pub open spec fn pow256(n: nat) -> nat
    decreases n,
{
    if n == 0 {
        1
    } else {
        256 * pow256((n - 1) as nat)
    }
}

/// The unsigned value of a little-endian byte sequence.
pub open spec fn le(s: Seq<u8>) -> nat
    decreases s.len(),
{
    if s.len() == 0 {
        0
    } else {
        s[0] as nat + 256 * le(s.drop_first())
    }
}

/// The `n`-byte little-endian encoding of `v` (mod 256^n).
pub open spec fn le_of(v: nat, n: nat) -> Seq<u8>
    decreases n,
{
    if n == 0 {
        Seq::empty()
    } else {
        seq![(v % 256) as u8] + le_of(v / 256, (n - 1) as nat)
    }
}

pub proof fn lemma_pow256_monotone(m: nat, n: nat)
    requires
        m <= n,
    ensures
        pow256(m) <= pow256(n),
    decreases n,
{
    if m < n && n > 0 {
        lemma_pow256_monotone(m, (n - 1) as nat);
    }
}

pub proof fn lemma_le_bound(s: Seq<u8>)
    ensures
        le(s) < pow256(s.len()),
    decreases s.len(),
{
    if s.len() > 0 {
        lemma_le_bound(s.drop_first());
    }
}

/// Appending a byte at the high end adds its value times 256^len.
pub proof fn lemma_le_push(s: Seq<u8>, b: u8)
    ensures
        le(s.push(b)) == le(s) + (b as nat) * pow256(s.len()),
    decreases s.len(),
{
    if s.len() == 0 {
        reveal_with_fuel(le, 3);
        assert(s.push(b)[0] == b);
        assert(s.push(b).drop_first() =~= Seq::<u8>::empty());
        assert(le(s.push(b)) == b as nat);
        assert(le(s) == 0);
        assert(pow256(s.len()) == 1);
        assert((b as nat) * 1 == b as nat);
    } else {
        assert(s.push(b)[0] == s[0]);
        assert(s.push(b).drop_first() =~= s.drop_first().push(b));
        lemma_le_push(s.drop_first(), b);
        assert(le(s.push(b)) == s[0] as nat + 256 * (le(s.drop_first()) + (b as nat) * pow256(
            (s.len() - 1) as nat,
        )));
        let p = pow256((s.len() - 1) as nat);
        assert(pow256(s.len()) == 256 * p);
        assert(256 * ((b as nat) * p) == (b as nat) * (256 * p)) by (nonlinear_arith);
    }
}

pub proof fn lemma_le_of_len(v: nat, n: nat)
    ensures
        le_of(v, n).len() == n,
    decreases n,
{
    if n > 0 {
        lemma_le_of_len(v / 256, (n - 1) as nat);
    }
}

/// Decoding an encoding gives the value back: the fixed-width round trip.
pub proof fn lemma_le_of_le(v: nat, n: nat)
    requires
        v < pow256(n),
    ensures
        le(le_of(v, n)) == v,
    decreases n,
{
    if n > 0 {
        assert(le_of(v, n).drop_first() =~= le_of(v / 256, (n - 1) as nat));
        assert(v / 256 < pow256((n - 1) as nat)) by {
            assert(v < 256 * pow256((n - 1) as nat));
        }
        lemma_le_of_le(v / 256, (n - 1) as nat);
        assert(v == 256 * (v / 256) + v % 256);
    }
}

/// Encoding a decoding gives the bytes back: the other direction.
pub proof fn lemma_le_le_of(s: Seq<u8>)
    ensures
        le_of(le(s), s.len()) == s,
    decreases s.len(),
{
    if s.len() > 0 {
        let v = le(s);
        assert(v == s[0] as nat + 256 * le(s.drop_first()));
        assert(v % 256 == s[0] as nat && v / 256 == le(s.drop_first())) by {
            assert(s[0] < 256);
        }
        lemma_le_le_of(s.drop_first());
        assert(le_of(v, s.len()) =~= s);
    }
}

/// The concrete values of the byte-count powers a decoder meets.
pub proof fn lemma_pow256_values()
    ensures
        pow256(0) == 1,
        pow256(1) == 0x100,
        pow256(2) == 0x10000,
        pow256(3) == 0x1000000,
        pow256(4) == 0x100000000,
        pow256(5) == 0x10000000000,
        pow256(6) == 0x1000000000000,
        pow256(7) == 0x100000000000000,
        pow256(8) == 0x10000000000000000,
{
    reveal_with_fuel(pow256, 9);
}

/// The little-endian value of the 2 bytes at `i`.
pub open spec fn u16_at(s: Seq<u8>, i: int) -> nat {
    le(s.subrange(i, i + 2))
}

/// The little-endian value of the 3 bytes at `i`.
pub open spec fn u24_at(s: Seq<u8>, i: int) -> nat {
    le(s.subrange(i, i + 3))
}

/// The little-endian value of the 4 bytes at `i`.
pub open spec fn u32_at(s: Seq<u8>, i: int) -> nat {
    le(s.subrange(i, i + 4))
}

/// The little-endian value of the 6 bytes at `i`.
pub open spec fn u48_at(s: Seq<u8>, i: int) -> nat {
    le(s.subrange(i, i + 6))
}

/// The little-endian value of the 8 bytes at `i`.
pub open spec fn u64_at(s: Seq<u8>, i: int) -> nat {
    le(s.subrange(i, i + 8))
}

/// Bytes below 0x80 are one-scalar encodings: such a run is valid UTF-8 and
/// decodes byte for byte.
pub proof fn lemma_ascii_decode_utf8(s: Seq<u8>)
    requires
        forall|k: int| 0 <= k < s.len() ==> s[k] < 0x80,
    ensures
        valid_utf8(s),
        decode_utf8(s) == Seq::new(s.len(), |k: int| s[k] as char),
    decreases s.len(),
{
    if s.len() > 0 {
        let b = s[0];
        assert(b & 0x7f == b) by (bit_vector)
            requires
                b < 0x80,
        ;
        assert(vstd::utf8::valid_first_scalar(s));
        assert(vstd::utf8::length_of_first_scalar(s) == 1);
        assert(vstd::utf8::pop_first_scalar(s) =~= s.drop_first());
        lemma_ascii_decode_utf8(s.drop_first());
        assert(vstd::utf8::decode_first_scalar(s) == b as u32);
        assert(decode_utf8(s) =~= Seq::new(s.len(), |k: int| s[k] as char));
    }
}

/// A bounds-checked read position over a borrowed byte buffer. Every read
/// primitive either succeeds and advances the position, or fails without
/// advancing.
pub struct Cursor<'a> {
    pub data: &'a [u8],
    pub pos: usize,
}

impl<'a> Cursor<'a> {
    /// The position never passes the end of the buffer.
    pub open spec fn wf(&self) -> bool {
        self.pos <= self.data@.len()
    }

    pub open spec fn remaining_spec(&self) -> int {
        self.data@.len() - self.pos
    }

    /// The bytes not yet consumed.
    pub open spec fn rest(&self) -> Seq<u8> {
        self.data@.subrange(self.pos as int, self.data@.len() as int)
    }

    pub fn new(data: &'a [u8]) -> (c: Cursor<'a>)
        ensures
            c.data@ == data@,
            c.pos == 0,
            c.wf(),
    {
        Cursor { data, pos: 0 }
    }

    pub fn remaining(&self) -> (n: usize)
        requires
            self.wf(),
        ensures
            n == self.remaining_spec(),
    {
        self.data.len() - self.pos
    }

    pub fn read_u8(&mut self) -> (r: Result<u8, DecodeError>)
        requires
            old(self).wf(),
        ensures
            final(self).data == old(self).data,
            final(self).wf(),
            old(self).remaining_spec() >= 1 ==> r == Ok::<u8, DecodeError>(
                old(self).data@[old(self).pos as int],
            ) && final(self).pos == old(self).pos + 1,
            old(self).remaining_spec() < 1 ==> r == Err::<u8, DecodeError>(
                DecodeError::NotEnoughData,
            ) && final(self).pos == old(self).pos,
    {
        if self.pos < self.data.len() {
            let b = self.data[self.pos];
            self.pos = self.pos + 1;
            Ok(b)
        } else {
            Err(DecodeError::NotEnoughData)
        }
    }

    /// Reads `n` bytes as a little-endian unsigned integer.
    pub fn read_le(&mut self, n: usize) -> (r: Result<u64, DecodeError>)
        requires
            old(self).wf(),
            n <= 8,
        ensures
            final(self).data == old(self).data,
            final(self).wf(),
            old(self).remaining_spec() >= n ==> {
                &&& r is Ok
                &&& (r->Ok_0 as nat) == le(
                    old(self).data@.subrange(old(self).pos as int, old(self).pos + n),
                )
                &&& (r->Ok_0 as nat) < pow256(n as nat)
                &&& final(self).pos == old(self).pos + n
            },
            old(self).remaining_spec() < n ==> r == Err::<u64, DecodeError>(
                DecodeError::NotEnoughData,
            ) && final(self).pos == old(self).pos,
    {
        let dlen = self.data.len();
        if dlen - self.pos < n {
            return Err(DecodeError::NotEnoughData);
        }
        let ghost start = self.pos as int;
        let mut acc: u128 = 0;
        let mut scale: u128 = 1;
        let mut i: usize = 0;
        while i < n
            invariant
                self.wf(),
                self.data == old(self).data,
                self.data@.len() == dlen,
                self.pos == start,
                start + n <= dlen,
                i <= n <= 8,
                scale == pow256(i as nat),
                acc == le(self.data@.subrange(start, start + i)),
                acc < scale,
            decreases n - i,
        {
            let b = self.data[self.pos + i];
            proof {
                assert(self.data@.subrange(start, start + i + 1) =~= self.data@.subrange(
                    start,
                    start + i,
                ).push(b));
                lemma_le_push(self.data@.subrange(start, start + i), b);
                let p = pow256(i as nat);
                lemma_pow256_monotone(i as nat, 7);
                lemma_pow256_monotone((i + 1) as nat, 8);
                reveal_with_fuel(pow256, 9);
                assert(pow256((i + 1) as nat) == 256 * p);
                assert((b as nat) * p + p <= 256 * p) by (nonlinear_arith)
                    requires
                        b <= 255,
                        p >= 0,
                ;
            }
            acc = acc + (b as u128) * scale;
            scale = scale * 256;
            i = i + 1;
        }
        proof {
            lemma_pow256_monotone(n as nat, 8);
            reveal_with_fuel(pow256, 9);
        }
        self.pos = self.pos + n;
        Ok(acc as u64)
    }

    /// Copies the next `n` bytes out.
    pub fn read_vec(&mut self, n: usize) -> (r: Result<Vec<u8>, DecodeError>)
        requires
            old(self).wf(),
        ensures
            final(self).data == old(self).data,
            final(self).wf(),
            old(self).remaining_spec() >= n ==> {
                &&& r is Ok
                &&& r->Ok_0@ == old(self).data@.subrange(old(self).pos as int, old(self).pos + n)
                &&& final(self).pos == old(self).pos + n
            },
            old(self).remaining_spec() < n ==> r == Err::<Vec<u8>, DecodeError>(
                DecodeError::NotEnoughData,
            ) && final(self).pos == old(self).pos,
    {
        let dlen = self.data.len();
        if dlen - self.pos < n {
            return Err(DecodeError::NotEnoughData);
        }
        let ghost start = self.pos as int;
        let mut v: Vec<u8> = Vec::new();
        let mut i: usize = 0;
        while i < n
            invariant
                self.wf(),
                self.data == old(self).data,
                self.data@.len() == dlen,
                self.pos == start,
                start + n <= dlen,
                i <= n,
                v@ == self.data@.subrange(start, start + i),
            decreases n - i,
        {
            let b = self.data[self.pos + i];
            v.push(b);
            proof {
                assert(v@ =~= self.data@.subrange(start, start + i + 1));
            }
            i = i + 1;
        }
        self.pos = self.pos + n;
        Ok(v)
    }

    /// Advances past `n` bytes without copying them.
    pub fn skip(&mut self, n: usize) -> (r: Result<(), DecodeError>)
        requires
            old(self).wf(),
        ensures
            final(self).data == old(self).data,
            final(self).wf(),
            old(self).remaining_spec() >= n ==> r is Ok && final(self).pos == old(self).pos + n,
            old(self).remaining_spec() < n ==> r == Err::<(), DecodeError>(
                DecodeError::NotEnoughData,
            ) && final(self).pos == old(self).pos,
    {
        if self.data.len() - self.pos < n {
            return Err(DecodeError::NotEnoughData);
        }
        self.pos = self.pos + n;
        Ok(())
    }

    /// Looks at the next byte without consuming it.
    pub fn peek(&self) -> (r: Result<u8, DecodeError>)
        requires
            self.wf(),
        ensures
            self.remaining_spec() >= 1 ==> r == Ok::<u8, DecodeError>(self.data@[self.pos as int]),
            self.remaining_spec() < 1 ==> r == Err::<u8, DecodeError>(DecodeError::NotEnoughData),
    {
        if self.pos < self.data.len() {
            Ok(self.data[self.pos])
        } else {
            Err(DecodeError::NotEnoughData)
        }
    }
}

impl<'a> Cursor<'a> {
    pub fn read_u16(&mut self) -> (r: Result<u16, DecodeError>)
        requires
            old(self).wf(),
        ensures
            final(self).data == old(self).data,
            final(self).wf(),
            old(self).remaining_spec() >= 2 ==> r is Ok && (r->Ok_0 as nat) == u16_at(
                old(self).data@,
                old(self).pos as int,
            ) && final(self).pos == old(self).pos + 2,
            old(self).remaining_spec() < 2 ==> r == Err::<u16, DecodeError>(
                DecodeError::NotEnoughData,
            ) && final(self).pos == old(self).pos,
    {
        proof {
            lemma_pow256_values();
        }
        match self.read_le(2) {
            Ok(v) => Ok(v as u16),
            Err(e) => Err(e),
        }
    }

    pub fn read_u24(&mut self) -> (r: Result<u32, DecodeError>)
        requires
            old(self).wf(),
        ensures
            final(self).data == old(self).data,
            final(self).wf(),
            old(self).remaining_spec() >= 3 ==> r is Ok && (r->Ok_0 as nat) == u24_at(
                old(self).data@,
                old(self).pos as int,
            ) && final(self).pos == old(self).pos + 3,
            old(self).remaining_spec() < 3 ==> r == Err::<u32, DecodeError>(
                DecodeError::NotEnoughData,
            ) && final(self).pos == old(self).pos,
    {
        proof {
            lemma_pow256_values();
        }
        match self.read_le(3) {
            Ok(v) => Ok(v as u32),
            Err(e) => Err(e),
        }
    }

    pub fn read_u32(&mut self) -> (r: Result<u32, DecodeError>)
        requires
            old(self).wf(),
        ensures
            final(self).data == old(self).data,
            final(self).wf(),
            old(self).remaining_spec() >= 4 ==> r is Ok && (r->Ok_0 as nat) == u32_at(
                old(self).data@,
                old(self).pos as int,
            ) && final(self).pos == old(self).pos + 4,
            old(self).remaining_spec() < 4 ==> r == Err::<u32, DecodeError>(
                DecodeError::NotEnoughData,
            ) && final(self).pos == old(self).pos,
    {
        proof {
            lemma_pow256_values();
        }
        match self.read_le(4) {
            Ok(v) => Ok(v as u32),
            Err(e) => Err(e),
        }
    }

    pub fn read_u48(&mut self) -> (r: Result<u64, DecodeError>)
        requires
            old(self).wf(),
        ensures
            final(self).data == old(self).data,
            final(self).wf(),
            old(self).remaining_spec() >= 6 ==> r is Ok && (r->Ok_0 as nat) == u48_at(
                old(self).data@,
                old(self).pos as int,
            ) && final(self).pos == old(self).pos + 6,
            old(self).remaining_spec() < 6 ==> r == Err::<u64, DecodeError>(
                DecodeError::NotEnoughData,
            ) && final(self).pos == old(self).pos,
    {
        self.read_le(6)
    }

    pub fn read_u64(&mut self) -> (r: Result<u64, DecodeError>)
        requires
            old(self).wf(),
        ensures
            final(self).data == old(self).data,
            final(self).wf(),
            old(self).remaining_spec() >= 8 ==> r is Ok && (r->Ok_0 as nat) == u64_at(
                old(self).data@,
                old(self).pos as int,
            ) && final(self).pos == old(self).pos + 8,
            old(self).remaining_spec() < 8 ==> r == Err::<u64, DecodeError>(
                DecodeError::NotEnoughData,
            ) && final(self).pos == old(self).pos,
    {
        self.read_le(8)
    }
}

/// The index of the first zero byte at or after `i`, if any.
pub open spec fn first_nul(s: Seq<u8>, i: int) -> Option<int>
    decreases s.len() - i,
{
    if i < 0 || i >= s.len() {
        None
    } else if s[i] == 0 {
        Some(i)
    } else {
        first_nul(s, i + 1)
    }
}

proof fn lemma_first_nul_found(s: Seq<u8>, i: int, j: int)
    requires
        0 <= i <= j < s.len(),
        forall|k: int| i <= k < j ==> s[k] != 0,
        s[j] == 0,
    ensures
        first_nul(s, i) == Some(j),
    decreases j - i,
{
    if i < j {
        lemma_first_nul_found(s, i + 1, j);
    }
}

proof fn lemma_first_nul_none(s: Seq<u8>, i: int)
    requires
        0 <= i,
        forall|k: int| i <= k < s.len() ==> s[k] != 0,
    ensures
        first_nul(s, i) is None,
    decreases s.len() - i,
{
    if i < s.len() {
        lemma_first_nul_none(s, i + 1);
    }
}

impl<'a> Cursor<'a> {
    /// A run of non-zero bytes up to a terminator, which is consumed but not
    /// included in the value.
    pub fn read_null_term_bytes(&mut self) -> (r: Result<Vec<u8>, DecodeError>)
        requires
            old(self).wf(),
        ensures
            final(self).data == old(self).data,
            final(self).wf(),
            first_nul(old(self).data@, old(self).pos as int) matches Some(j) ==> {
                &&& r is Ok
                &&& r->Ok_0@ == old(self).data@.subrange(old(self).pos as int, j)
                &&& final(self).pos == j + 1
            },
            first_nul(old(self).data@, old(self).pos as int) is None ==> r == Err::<
                Vec<u8>,
                DecodeError,
            >(DecodeError::MissingNullTerminator) && final(self).pos == old(self).pos,
    {
        let ghost start = self.pos as int;
        let mut i: usize = 0;
        loop
            invariant
                self.wf(),
                self.data == old(self).data,
                self.pos == start,
                start == old(self).pos,
                start + i <= self.data@.len(),
                forall|k: int| start <= k < start + i ==> self.data@[k] != 0,
            decreases self.data@.len() - start - i,
        {
            if i >= self.data.len() - self.pos {
                proof {
                    lemma_first_nul_none(self.data@, start);
                }
                return Err(DecodeError::MissingNullTerminator);
            }
            if self.data[self.pos + i] == 0 {
                proof {
                    lemma_first_nul_found(self.data@, start, start + i);
                }
                let v = match self.read_vec(i) {
                    Ok(v) => v,
                    Err(e) => {
                        return Err(e);
                    },
                };
                let _ = self.skip(1);
                return Ok(v);
            }
            i = i + 1;
        }
    }
}

/// Appends the `n`-byte little-endian encoding of `v`.
pub fn push_le(buf: &mut Vec<u8>, v: u64, n: usize)
    requires
        n <= 8,
    ensures
        final(buf)@ == old(buf)@ + le_of(v as nat, n as nat),
{
    let mut x = v;
    let mut i: usize = 0;
    while i < n
        invariant
            i <= n,
            old(buf)@ + le_of(v as nat, n as nat) == buf@ + le_of(x as nat, (n - i) as nat),
        decreases n - i,
    {
        proof {
            assert(le_of(x as nat, (n - i) as nat) == seq![(x % 256) as u8] + le_of(
                (x / 256) as nat,
                (n - i - 1) as nat,
            ));
            assert(buf@ + (seq![(x % 256) as u8] + le_of((x / 256) as nat, (n - i - 1) as nat))
                =~= (buf@ + seq![(x % 256) as u8]) + le_of((x / 256) as nat, (n - i - 1) as nat));
            assert(buf@.push((x % 256) as u8) =~= buf@ + seq![(x % 256) as u8]);
        }
        buf.push((x % 256) as u8);
        x = x / 256;
        i = i + 1;
    }
    proof {
        assert(buf@ + le_of(x as nat, 0) =~= buf@);
    }
}

/// A variable-length ("length-encoded") integer.
#[derive(Debug, Clone, Copy, PartialEq, Eq, Structural)]
pub struct VLenInt(pub u64);

/// What decoding a length-encoded integer at index `i` of `s` yields:
/// the value and the number of bytes consumed.
pub open spec fn spec_lenenc(s: Seq<u8>, i: int) -> Result<(u64, int), DecodeError> {
    if !(0 <= i < s.len()) {
        Err(DecodeError::NotEnoughData)
    } else {
        let b = s[i];
        if b <= 0xfa {
            Ok((b as u64, 1))
        } else if b == 0xfc {
            if i + 3 <= s.len() {
                Ok(((le(s.subrange(i + 1, i + 3)) as u64), 3))
            } else {
                Err(DecodeError::NotEnoughData)
            }
        } else if b == 0xfd {
            if i + 4 <= s.len() {
                Ok(((le(s.subrange(i + 1, i + 4)) as u64), 4))
            } else {
                Err(DecodeError::NotEnoughData)
            }
        } else if b == 0xfe {
            if i + 9 <= s.len() {
                Ok(((le(s.subrange(i + 1, i + 9)) as u64), 9))
            } else {
                Err(DecodeError::NotEnoughData)
            }
        } else {
            Err(DecodeError::InvalidData)
        }
    }
}

/// The encoded form of `v`: the shortest of the 1-, 3-, 4- and 9-byte shapes
/// that holds it.
pub open spec fn spec_lenenc_bytes(v: u64) -> Seq<u8> {
    if v <= 250 {
        seq![v as u8]
    } else if v <= 0xffff {
        seq![0xfcu8] + le_of(v as nat, 2)
    } else if v <= 0xffffff {
        seq![0xfdu8] + le_of(v as nat, 3)
    } else {
        seq![0xfeu8] + le_of(v as nat, 8)
    }
}

impl VLenInt {
    pub fn new(val: u64) -> (r: Self)
        ensures
            r.0 == val,
    {
        Self(val)
    }

    pub fn value(&self) -> (r: u64)
        ensures
            r == self.0,
    {
        self.0
    }

    /// The encoded form as a fresh buffer.
    pub fn bytes(&self) -> (r: Vec<u8>)
        ensures
            r@ == spec_lenenc_bytes(self.0),
    {
        let mut buf: Vec<u8> = Vec::new();
        self.encode(&mut buf);
        buf
    }

    pub fn decode(cur: &mut Cursor) -> (r: Result<VLenInt, DecodeError>)
        requires
            old(cur).wf(),
        ensures
            final(cur).data == old(cur).data,
            final(cur).wf(),
            spec_lenenc(old(cur).data@, old(cur).pos as int) matches Ok(p) ==> r == Ok::<
                VLenInt,
                DecodeError,
            >(VLenInt(p.0)) && final(cur).pos == old(cur).pos + p.1,
            spec_lenenc(old(cur).data@, old(cur).pos as int) matches Err(e) ==> r == Err::<
                VLenInt,
                DecodeError,
            >(e) && final(cur).pos == old(cur).pos,
    {
        let ghost s = cur.data@;
        let ghost p0 = cur.pos as int;
        let b = match cur.peek() {
            Ok(b) => b,
            Err(e) => {
                return Err(e);
            },
        };
        if b <= 0xfa {
            let _ = cur.skip(1);
            Ok(VLenInt(b as u64))
        } else if b == 0xfc {
            if cur.remaining() < 3 {
                return Err(DecodeError::NotEnoughData);
            }
            let _ = cur.skip(1);
            let v = match cur.read_le(2) {
                Ok(v) => v,
                Err(e) => {
                    return Err(e);
                },
            };
            Ok(VLenInt(v))
        } else if b == 0xfd {
            if cur.remaining() < 4 {
                return Err(DecodeError::NotEnoughData);
            }
            let _ = cur.skip(1);
            let v = match cur.read_le(3) {
                Ok(v) => v,
                Err(e) => {
                    return Err(e);
                },
            };
            Ok(VLenInt(v))
        } else if b == 0xfe {
            if cur.remaining() < 9 {
                return Err(DecodeError::NotEnoughData);
            }
            let _ = cur.skip(1);
            let v = match cur.read_le(8) {
                Ok(v) => v,
                Err(e) => {
                    return Err(e);
                },
            };
            Ok(VLenInt(v))
        } else {
            Err(DecodeError::InvalidData)
        }
    }

    pub fn encode(&self, buf: &mut Vec<u8>)
        ensures
            final(buf)@ == old(buf)@ + spec_lenenc_bytes(self.0),
    {
        let v = self.0;
        if v <= 250 {
            buf.push(v as u8);
            proof {
                assert(buf@ =~= old(buf)@ + spec_lenenc_bytes(v));
            }
        } else if v <= 0xffff {
            buf.push(0xfc);
            push_le(buf, v, 2);
            proof {
                assert(old(buf)@.push(0xfcu8) + le_of(v as nat, 2) =~= old(buf)@ + (seq![0xfcu8]
                    + le_of(v as nat, 2)));
            }
        } else if v <= 0xffffff {
            buf.push(0xfd);
            push_le(buf, v, 3);
            proof {
                assert(old(buf)@.push(0xfdu8) + le_of(v as nat, 3) =~= old(buf)@ + (seq![0xfdu8]
                    + le_of(v as nat, 3)));
            }
        } else {
            buf.push(0xfe);
            push_le(buf, v, 8);
            proof {
                assert(old(buf)@.push(0xfeu8) + le_of(v as nat, 8) =~= old(buf)@ + (seq![0xfeu8]
                    + le_of(v as nat, 8)));
            }
        }
    }
}

/// Fixed-width round trip: an `n`-byte value decodes back from its encoding,
/// and bytes re-encode to themselves.
pub proof fn lemma_fixed_int_round_trip(v: nat, n: nat, s: Seq<u8>)
    requires
        v < pow256(n),
        s.len() == n,
    ensures
        le(le_of(v, n)) == v,
        le_of(v, n).len() == n,
        le_of(le(s), n) == s,
{
    lemma_le_of_le(v, n);
    lemma_le_of_len(v, n);
    lemma_le_le_of(s);
}

/// Length-encoded round trip: decoding an encoding yields the value and
/// consumes exactly the encoded length, which is minimal for the value.
pub proof fn lemma_lenenc_round_trip(v: u64, rest: Seq<u8>)
    ensures
        spec_lenenc(spec_lenenc_bytes(v) + rest, 0) == Ok::<(u64, int), DecodeError>(
            (v, spec_lenenc_bytes(v).len() as int),
        ),
        v <= 250 ==> spec_lenenc_bytes(v).len() == 1,
        251 <= v <= 0xffff ==> spec_lenenc_bytes(v).len() == 3,
        0x10000 <= v <= 0xffffff ==> spec_lenenc_bytes(v).len() == 4,
        v > 0xffffff ==> spec_lenenc_bytes(v).len() == 9,
{
    let e = spec_lenenc_bytes(v);
    let s = e + rest;
    reveal_with_fuel(pow256, 9);
    if v <= 250 {
        assert(s[0] == v as u8);
    } else if v <= 0xffff {
        lemma_le_of_len(v as nat, 2);
        assert(s[0] == 0xfc);
        assert(s.subrange(1, 3) =~= le_of(v as nat, 2));
        lemma_le_of_le(v as nat, 2);
    } else if v <= 0xffffff {
        lemma_le_of_len(v as nat, 3);
        assert(s[0] == 0xfd);
        assert(s.subrange(1, 4) =~= le_of(v as nat, 3));
        lemma_le_of_le(v as nat, 3);
    } else {
        lemma_le_of_len(v as nat, 8);
        assert(s[0] == 0xfe);
        assert(s.subrange(1, 9) =~= le_of(v as nat, 8));
        lemma_le_of_le(v as nat, 8);
    }
}

/// Relies on `str::from_utf8` (with an owned copy of the result): it succeeds
/// exactly on valid UTF-8 and yields its decoding, the model vstd itself uses
/// for `str`.
#[verifier::external_body]
pub(crate) fn utf8_to_string(v: &[u8]) -> (r: Option<String>)
    ensures
        r is Some <==> valid_utf8(v@),
        r is Some ==> r->Some_0@ == decode_utf8(v@),
{
    match std::str::from_utf8(v) {
        Ok(s) => Some(s.to_string()),
        Err(_) => None,
    }
}

/// What `String::from_utf8_lossy` yields on arbitrary bytes: a function of
/// the bytes alone.
pub uninterp spec fn lossy_decode(s: Seq<u8>) -> Seq<char>;

/// Relies on `String::from_utf8_lossy`: its result depends on the bytes
/// alone, and on valid UTF-8 it is the plain decoding.
#[verifier::external_body]
pub(crate) fn utf8_to_string_lossy(v: &[u8]) -> (r: String)
    ensures
        r@ == lossy_decode(v@),
        valid_utf8(v@) ==> r@ == decode_utf8(v@),
{
    String::from_utf8_lossy(v).to_string()
}

/// Converts read bytes to a string, failing with `InvalidUtf8` on bad input.
pub fn slice_to_string(v: &[u8]) -> (r: Result<String, DecodeError>)
    ensures
        r is Ok <==> valid_utf8(v@),
        r is Ok ==> r->Ok_0@ == decode_utf8(v@),
        r is Err ==> r == Err::<String, DecodeError>(DecodeError::InvalidUtf8),
{
    match utf8_to_string(v) {
        Some(s) => Ok(s),
        None => Err(DecodeError::InvalidUtf8),
    }
}

/// Converts read bytes to a string, failing with `InvalidUtf8` on bad input.
pub fn vec_to_string(v: Vec<u8>) -> (r: Result<String, DecodeError>)
    ensures
        r is Ok <==> valid_utf8(v@),
        r is Ok ==> r->Ok_0@ == decode_utf8(v@),
        r is Err ==> r == Err::<String, DecodeError>(DecodeError::InvalidUtf8),
{
    slice_to_string(v.as_slice())
}

/// The slice before the first zero byte, or the whole slice if none.
pub fn extract_prefix<'a>(input: &'a [u8]) -> (r: &'a [u8])
    ensures
        r@ == prefix_to_nul(input@),
{
    let mut i: usize = 0;
    loop
        invariant
            i <= input@.len(),
            forall|k: int| 0 <= k < i ==> input@[k] != 0,
        decreases input@.len() - i,
    {
        if i >= input.len() {
            proof {
                lemma_first_nul_none(input@, 0);
            }
            return input;
        }
        if input[i] == 0 {
            proof {
                lemma_first_nul_found(input@, 0, i as int);
            }
            return vstd::slice::slice_subrange(input, 0, i);
        }
        i = i + 1;
    }
}

impl<'a> Cursor<'a> {
    /// A null-terminated string: the run before the terminator, decoded as
    /// UTF-8.
    pub fn read_null_term_str(&mut self) -> (r: Result<String, DecodeError>)
        requires
            old(self).wf(),
        ensures
            final(self).data == old(self).data,
            final(self).wf(),
            first_nul(old(self).data@, old(self).pos as int) matches Some(j) ==> {
                let raw = old(self).data@.subrange(old(self).pos as int, j);
                &&& (r is Ok <==> valid_utf8(raw))
                &&& r is Ok ==> r->Ok_0@ == decode_utf8(raw) && final(self).pos == j + 1
                &&& !valid_utf8(raw) ==> r == Err::<String, DecodeError>(DecodeError::InvalidUtf8)
            },
            first_nul(old(self).data@, old(self).pos as int) is None ==> r == Err::<
                String,
                DecodeError,
            >(DecodeError::MissingNullTerminator) && final(self).pos == old(self).pos,
    {
        let raw = match self.read_null_term_bytes() {
            Ok(v) => v,
            Err(e) => {
                return Err(e);
            },
        };
        vec_to_string(raw)
    }

    /// `n` raw bytes decoded as UTF-8.
    pub fn read_str(&mut self, n: usize) -> (r: Result<String, DecodeError>)
        requires
            old(self).wf(),
        ensures
            final(self).data == old(self).data,
            final(self).wf(),
            old(self).remaining_spec() >= n ==> {
                let raw = old(self).data@.subrange(old(self).pos as int, old(self).pos + n);
                &&& (r is Ok <==> valid_utf8(raw))
                &&& r is Ok ==> r->Ok_0@ == decode_utf8(raw) && final(self).pos == old(self).pos + n
                &&& !valid_utf8(raw) ==> r == Err::<String, DecodeError>(DecodeError::InvalidUtf8)
            },
            old(self).remaining_spec() < n ==> r == Err::<String, DecodeError>(
                DecodeError::NotEnoughData,
            ) && final(self).pos == old(self).pos,
    {
        let raw = match self.read_vec(n) {
            Ok(v) => v,
            Err(e) => {
                return Err(e);
            },
        };
        vec_to_string(raw)
    }
}

/// Appends the bytes followed by a single terminator.
pub fn put_null_term_bytes(input: &[u8], buf: &mut Vec<u8>)
    ensures
        final(buf)@ == old(buf)@ + input@ + seq![0u8],
{
    let mut i: usize = 0;
    while i < input.len()
        invariant
            i <= input@.len(),
            buf@ == old(buf)@ + input@.subrange(0, i as int),
        decreases input@.len() - i,
    {
        buf.push(input[i]);
        proof {
            assert(old(buf)@ + input@.subrange(0, i as int) + seq![input@[i as int]] =~= old(buf)@
                + input@.subrange(0, i + 1));
        }
        i = i + 1;
    }
    proof {
        assert(old(buf)@ + input@.subrange(0, input@.len() as int) =~= old(buf)@ + input@);
    }
    buf.push(0);
    proof {
        assert((old(buf)@ + input@).push(0u8) =~= old(buf)@ + input@ + seq![0u8]);
    }
}

/// Appends raw bytes.
pub fn put_bytes(input: &[u8], buf: &mut Vec<u8>)
    ensures
        final(buf)@ == old(buf)@ + input@,
{
    let mut i: usize = 0;
    while i < input.len()
        invariant
            i <= input@.len(),
            buf@ == old(buf)@ + input@.subrange(0, i as int),
        decreases input@.len() - i,
    {
        buf.push(input[i]);
        proof {
            assert(old(buf)@ + input@.subrange(0, i as int) + seq![input@[i as int]] =~= old(buf)@
                + input@.subrange(0, i + 1));
        }
        i = i + 1;
    }
    proof {
        assert(old(buf)@ + input@.subrange(0, input@.len() as int) =~= old(buf)@ + input@);
    }
}

/// Appends a length-encoded integer carrying the byte count, then the bytes.
pub fn put_var_bytes(input: &[u8], buf: &mut Vec<u8>)
    ensures
        final(buf)@ == old(buf)@ + spec_lenenc_bytes(input@.len() as u64) + input@,
{
    let len = VLenInt::new(input.len() as u64);
    len.encode(buf);
    put_bytes(input, buf);
}

/// Reads a length-encoded byte count, then that many bytes.
pub fn get_var_bytes(cur: &mut Cursor) -> (r: Result<Vec<u8>, DecodeError>)
    requires
        old(cur).wf(),
    ensures
        final(cur).data == old(cur).data,
        final(cur).wf(),
        spec_lenenc(old(cur).data@, old(cur).pos as int) matches Err(e) ==> r == Err::<
            Vec<u8>,
            DecodeError,
        >(e),
        spec_lenenc(old(cur).data@, old(cur).pos as int) matches Ok(p) ==> {
            let start = old(cur).pos + p.1;
            &&& p.0 > old(cur).data@.len() - start ==> r == Err::<Vec<u8>, DecodeError>(
                DecodeError::NotEnoughData,
            )
            &&& p.0 <= old(cur).data@.len() - start ==> {
                &&& r is Ok
                &&& r->Ok_0@ == old(cur).data@.subrange(start, start + p.0)
                &&& final(cur).pos == start + p.0
            }
        },
    {
        let len = match VLenInt::decode(cur) {
            Ok(v) => v,
            Err(e) => {
                return Err(e);
            },
        };
        let rem = cur.remaining();
        if len.0 > rem as u64 {
            return Err(DecodeError::NotEnoughData);
        }
        cur.read_vec(len.0 as usize)
    }

/// Reads a length-encoded byte count, then that many bytes as UTF-8.
pub fn get_var_str(cur: &mut Cursor) -> (r: Result<String, DecodeError>)
    requires
        old(cur).wf(),
    ensures
        final(cur).data == old(cur).data,
        final(cur).wf(),
        spec_lenenc(old(cur).data@, old(cur).pos as int) matches Err(e) ==> r == Err::<
            String,
            DecodeError,
        >(e),
        spec_lenenc(old(cur).data@, old(cur).pos as int) matches Ok(p) ==> {
            let start = old(cur).pos + p.1;
            &&& p.0 > old(cur).data@.len() - start ==> r == Err::<String, DecodeError>(
                DecodeError::NotEnoughData,
            )
            &&& p.0 <= old(cur).data@.len() - start ==> {
                let raw = old(cur).data@.subrange(start, start + p.0);
                &&& (r is Ok <==> valid_utf8(raw))
                &&& r is Ok ==> r->Ok_0@ == decode_utf8(raw) && final(cur).pos == start + p.0
                &&& !valid_utf8(raw) ==> r == Err::<String, DecodeError>(DecodeError::InvalidUtf8)
            }
        },
    {
        let raw = match get_var_bytes(cur) {
            Ok(v) => v,
            Err(e) => {
                return Err(e);
            },
        };
        vec_to_string(raw)
    }

/// The prefix of `s` before its first zero byte, or all of `s`.
pub open spec fn prefix_to_nul(s: Seq<u8>) -> Seq<u8> {
    match first_nul(s, 0) {
        Some(j) => s.subrange(0, j),
        None => s,
    }
}

/// The string held in a zero-padded field: the bytes before the first
/// terminator, decoded leniently.
pub fn extract_string(input: &[u8]) -> (r: String)
    ensures
        r@ == lossy_decode(prefix_to_nul(input@)),
        valid_utf8(prefix_to_nul(input@)) ==> r@ == decode_utf8(prefix_to_nul(input@)),
{
    let mut i: usize = 0;
    loop
        invariant
            i <= input@.len(),
            forall|k: int| 0 <= k < i ==> input@[k] != 0,
        decreases input@.len() - i,
    {
        if i >= input.len() {
            proof {
                lemma_first_nul_none(input@, 0);
                assert(prefix_to_nul(input@) =~= input@);
            }
            return utf8_to_string_lossy(input);
        }
        if input[i] == 0 {
            proof {
                lemma_first_nul_found(input@, 0, i as int);
            }
            let head = vstd::slice::slice_subrange(input, 0, i);
            return utf8_to_string_lossy(head);
        }
        i = i + 1;
    }
}

/// The first `len` bytes (or all, if fewer) decoded leniently.
pub fn string_var(input: &[u8], len: usize) -> (r: String)
    ensures
        ({
            let take = if len > input@.len() {
                input@
            } else {
                input@.subrange(0, len as int)
            };
            r@ == lossy_decode(take) && (valid_utf8(take) ==> r@ == decode_utf8(take))
        }),
{
    if input.len() <= len {
        proof {
            if len > input@.len() {
            } else {
                assert(input@.subrange(0, len as int) =~= input@);
            }
        }
        utf8_to_string_lossy(input)
    } else {
        let head = vstd::slice::slice_subrange(input, 0, len);
        utf8_to_string_lossy(head)
    }
}

/// Appends a slice to a byte vector.
pub fn append_bytes(v: &mut Vec<u8>, tail: &[u8])
    ensures
        final(v)@ == old(v)@ + tail@,
{
    put_bytes(tail, v)
}

} // verus!
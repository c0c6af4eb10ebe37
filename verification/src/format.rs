//! Mathematical model of the COPY BINARY wire format: big-endian numbers,
//! the stream header, and the framed row records.  The parsing functions
//! here are the reference the executable reader is proved against; the
//! encoding functions exist to state and prove the framing round-trip.

use vstd::prelude::*;

use crate::types::ErrV;

verus! {

/// A row as the framing layer sees it: one entry per field, `None` for a
/// SQL NULL, `Some(payload)` for a field that carried `payload` bytes.
pub type RawRow = Seq<Option<Seq<u8>>>;

/// The 11-byte stream signature `PGCOPY\n\xff\r\n\0`.
pub open spec fn spec_magic() -> Seq<u8> {
    seq![0x50u8, 0x47u8, 0x43u8, 0x4fu8, 0x50u8, 0x59u8, 0x0au8, 0xffu8, 0x0du8, 0x0au8, 0x00u8]
}

/// The value of a big-endian byte sequence.
pub open spec fn be_val(s: Seq<u8>) -> nat
    decreases s.len(),
{
    if s.len() == 0 {
        0
    } else {
        be_val(s.drop_last()) * 256 + (s.last() as nat)
    }
}

/// The `k`-byte big-endian encoding of `v` (reduced modulo `256^k`).
pub open spec fn be_bytes(v: nat, k: nat) -> Seq<u8>
    decreases k,
{
    if k == 0 {
        Seq::empty()
    } else {
        be_bytes(v / 256, (k - 1) as nat).push((v % 256) as u8)
    }
}

/// 256 to the power `k`.
pub open spec fn pow256(k: nat) -> nat
    decreases k,
{
    if k == 0 {
        1
    } else {
        256 * pow256((k - 1) as nat)
    }
}

/// Decoding inverts encoding: `k` big-endian bytes of a value below
/// `256^k` give that value back.
pub proof fn lemma_be_bytes_val(v: nat, k: nat)
    ensures
        be_bytes(v, k).len() == k,
        v < pow256(k) ==> be_val(be_bytes(v, k)) == v,
    decreases k,
{
    if k > 0 {
        lemma_be_bytes_val(v / 256, (k - 1) as nat);
        let s = be_bytes(v, k);
        assert(s.drop_last() =~= be_bytes(v / 256, (k - 1) as nat));
        if v < pow256(k) {
            assert(v / 256 < pow256((k - 1) as nat)) by (nonlinear_arith)
                requires
                    v < 256 * pow256((k - 1) as nat),
            ;
            assert(v == 256 * (v / 256) + v % 256) by (nonlinear_arith);
        }
    }
}

/// A 2-byte big-endian value, written out.
pub proof fn lemma_be_val_2(s: Seq<u8>)
    requires
        s.len() == 2,
    ensures
        be_val(s) == (s[0] as nat) * 0x100 + (s[1] as nat),
{
    let s1 = s.drop_last();
    assert(be_val(s1) == be_val(s1.drop_last()) * 256 + (s1.last() as nat));
    assert(s1.drop_last().len() == 0);
}

/// A 4-byte big-endian value, written out.
pub proof fn lemma_be_val_4(s: Seq<u8>)
    requires
        s.len() == 4,
    ensures
        be_val(s) == (s[0] as nat) * 0x100_0000 + (s[1] as nat) * 0x1_0000 + (s[2] as nat) * 0x100
            + (s[3] as nat),
{
    let s3 = s.drop_last();
    let s2 = s3.drop_last();
    lemma_be_val_2(s2);
    assert(be_val(s3) == be_val(s2) * 256 + (s3.last() as nat));
}

/// An 8-byte big-endian value, written out.
pub proof fn lemma_be_val_8(s: Seq<u8>)
    requires
        s.len() == 8,
    ensures
        be_val(s) == (s[0] as nat) * 0x100_0000_0000_0000 + (s[1] as nat) * 0x1_0000_0000_0000 + (
        s[2] as nat) * 0x100_0000_0000 + (s[3] as nat) * 0x1_0000_0000 + (s[4] as nat) * 0x100_0000
            + (s[5] as nat) * 0x1_0000 + (s[6] as nat) * 0x100 + (s[7] as nat),
{
    let s7 = s.drop_last();
    let s6 = s7.drop_last();
    let s5 = s6.drop_last();
    let s4 = s5.drop_last();
    lemma_be_val_4(s4);
    assert(be_val(s5) == be_val(s4) * 256 + (s5.last() as nat));
    assert(be_val(s6) == be_val(s5) * 256 + (s6.last() as nat));
    assert(be_val(s7) == be_val(s6) * 256 + (s7.last() as nat));
}

/// Reads the 16-bit big-endian value at `pos`.
pub fn read_be_u16(buf: &Vec<u8>, pos: usize) -> (r: u16)
    requires
        pos + 2 <= buf@.len(),
    ensures
        r == be_val(buf@.subrange(pos as int, pos + 2)),
{
    let n = buf.len();
    proof {
        assert(pos + 2 <= n);
        lemma_be_val_2(buf@.subrange(pos as int, pos + 2));
    }
    (buf[pos] as u16) * 0x100 + (buf[pos + 1] as u16)
}

/// Reads the 32-bit big-endian value at `pos`.
pub fn read_be_u32(buf: &Vec<u8>, pos: usize) -> (r: u32)
    requires
        pos + 4 <= buf@.len(),
    ensures
        r == be_val(buf@.subrange(pos as int, pos + 4)),
{
    let n = buf.len();
    proof {
        assert(pos + 4 <= n);
        lemma_be_val_4(buf@.subrange(pos as int, pos + 4));
    }
    (buf[pos] as u32) * 0x100_0000 + (buf[pos + 1] as u32) * 0x1_0000 + (buf[pos + 2] as u32)
        * 0x100 + (buf[pos + 3] as u32)
}

/// Reads the 64-bit big-endian value at `pos`.
pub fn read_be_u64(buf: &Vec<u8>, pos: usize) -> (r: u64)
    requires
        pos + 8 <= buf@.len(),
    ensures
        r == be_val(buf@.subrange(pos as int, pos + 8)),
{
    let n = buf.len();
    proof {
        assert(pos + 8 <= n);
        lemma_be_val_8(buf@.subrange(pos as int, pos + 8));
    }
    (buf[pos] as u64) * 0x100_0000_0000_0000 + (buf[pos + 1] as u64) * 0x1_0000_0000_0000 + (
    buf[pos + 2] as u64) * 0x100_0000_0000 + (buf[pos + 3] as u64) * 0x1_0000_0000 + (buf[pos
        + 4] as u64) * 0x100_0000 + (buf[pos + 5] as u64) * 0x1_0000 + (buf[pos + 6] as u64) * 0x100
        + (buf[pos + 7] as u64)
}

/// The two's-complement reading of a 4-byte big-endian field.
pub open spec fn be_i32_val(s: Seq<u8>) -> int {
    if be_val(s) < 0x8000_0000 {
        be_val(s) as int
    } else {
        be_val(s) - 0x1_0000_0000
    }
}

/// Reads a whole 4-byte buffer as a two's-complement 32-bit integer.
pub fn read_be_i32(b: &Vec<u8>) -> (r: i32)
    requires
        b@.len() == 4,
    ensures
        r as int == be_i32_val(b@),
{
    proof {
        assert(b@.subrange(0, 4) =~= b@);
    }
    let u = read_be_u32(b, 0);
    if u >= 0x8000_0000 {
        let d: u32 = u - 0x8000_0000;
        (d as i32) + i32::MIN
    } else {
        u as i32
    }
}

/// Result of reading the stream header.
pub enum HeaderV {
    /// Header consumed; `has_oids` is bit 16 of the flags word, `rest` is
    /// everything after the discarded header extension.
    Parsed { has_oids: bool, rest: Seq<u8> },
    /// The first 11 bytes are not the signature.
    BadMagic,
    /// The stream ended inside the header.
    Short,
}

/// Reads the stream header: the 11-byte signature, a 32-bit flags word,
/// and a 32-bit extension length whose extension bytes are discarded.
pub open spec fn parse_header(s: Seq<u8>) -> HeaderV {
    if s.len() < 11 {
        HeaderV::Short
    } else if s.take(11) != spec_magic() {
        HeaderV::BadMagic
    } else if s.len() < 19 {
        HeaderV::Short
    } else {
        let flags = be_val(s.subrange(11, 15));
        let ext = be_val(s.subrange(15, 19));
        if s.len() < 19 + ext {
            HeaderV::Short
        } else {
            HeaderV::Parsed { has_oids: flags / 0x1_0000 % 2 == 1, rest: s.skip(19 + ext as int) }
        }
    }
}

/// Reads `n` length-prefixed fields from the front of `s`: a 32-bit
/// length each, `0xFFFF_FFFF` marking NULL with no payload.  `None` if the
/// bytes run out; otherwise the fields and the unread remainder.
pub open spec fn parse_fields(s: Seq<u8>, n: nat) -> Option<(RawRow, Seq<u8>)>
    decreases n,
{
    if n == 0 {
        Some((Seq::empty(), s))
    } else if s.len() < 4 {
        None
    } else {
        let l = be_val(s.take(4));
        if l == 0xFFFF_FFFF {
            match parse_fields(s.skip(4), (n - 1) as nat) {
                Some((fs, rest)) => Some((seq![Option::<Seq<u8>>::None] + fs, rest)),
                None => None,
            }
        } else if s.len() < 4 + l {
            None
        } else {
            match parse_fields(s.skip(4 + l as int), (n - 1) as nat) {
                Some((fs, rest)) => Some((seq![Some(s.subrange(4, 4 + l as int))] + fs, rest)),
                None => None,
            }
        }
    }
}

/// What [`parse_fields`] guarantees of a successful read: exactly `n`
/// fields, and a remainder no longer than the input.
pub proof fn lemma_parse_fields_shape(s: Seq<u8>, n: nat)
    ensures
        parse_fields(s, n) matches Some((fs, rest)) ==> fs.len() == n && rest.len() <= s.len(),
    decreases n,
{
    if n > 0 && s.len() >= 4 {
        let l = be_val(s.take(4));
        if l == 0xFFFF_FFFF {
            lemma_parse_fields_shape(s.skip(4), (n - 1) as nat);
        } else if s.len() >= 4 + l {
            lemma_parse_fields_shape(s.skip(4 + l as int), (n - 1) as nat);
        }
    }
}

/// Reads row frames until the `0xFFFF` sentinel: the rows read in order,
/// and `None` for a clean end or the first framing error.  Each frame is a
/// 16-bit field count (`has_oids` adds one leading field) that must equal
/// `expected`, then that many fields.
pub open spec fn parse_rows(s: Seq<u8>, expected: nat, has_oids: bool) -> (Seq<RawRow>, Option<
    ErrV,
>)
    decreases s.len(),
    via parse_rows_decreases
{
    if s.len() < 2 {
        (Seq::empty(), Some(ErrV::UnexpectedEof))
    } else {
        let f = be_val(s.take(2));
        if f == 0xFFFF {
            (Seq::empty(), None)
        } else {
            let f2 = f + (if has_oids {
                1nat
            } else {
                0nat
            });
            if f2 != expected {
                (
                    Seq::empty(),
                    Some(ErrV::FieldCountMismatch { expected: expected as int, got: f2 as int }),
                )
            } else {
                match parse_fields(s.skip(2), f2) {
                    None => (Seq::empty(), Some(ErrV::UnexpectedEof)),
                    Some((fields, rest)) => {
                        let r = parse_rows(rest, expected, has_oids);
                        (seq![fields] + r.0, r.1)
                    },
                }
            }
        }
    }
}

#[via_fn]
proof fn parse_rows_decreases(s: Seq<u8>, expected: nat, has_oids: bool) {
    if s.len() >= 2 {
        let f = be_val(s.take(2));
        let f2 = f + (if has_oids {
            1nat
        } else {
            0nat
        });
        lemma_parse_fields_shape(s.skip(2), f2);
    }
}

/// Values of small powers of 256, written out.
pub proof fn lemma_pow256_vals()
    ensures
        pow256(2) == 0x1_0000,
        pow256(4) == 0x1_0000_0000,
{
    assert(pow256(0) == 1);
    assert(pow256(1) == 256);
    assert(pow256(2) == 0x1_0000);
    assert(pow256(3) == 0x100_0000);
    assert(pow256(4) == 0x1_0000_0000);
}

/// One field as the encoder frames it: the NULL marker, or a 32-bit
/// length followed by the payload.
pub open spec fn encode_field(f: Option<Seq<u8>>) -> Seq<u8> {
    match f {
        None => be_bytes(0xFFFF_FFFF, 4),
        Some(b) => be_bytes(b.len(), 4) + b,
    }
}

/// A row's fields, framed in order.
pub open spec fn encode_fields(fs: RawRow) -> Seq<u8>
    decreases fs.len(),
{
    if fs.len() == 0 {
        Seq::empty()
    } else {
        encode_field(fs.first()) + encode_fields(fs.drop_first())
    }
}

/// One row frame: the 16-bit field count, then the framed fields.
pub open spec fn encode_row(r: RawRow) -> Seq<u8> {
    be_bytes(r.len(), 2) + encode_fields(r)
}

/// All row frames, in order.
pub open spec fn encode_rows(rs: Seq<RawRow>) -> Seq<u8>
    decreases rs.len(),
{
    if rs.len() == 0 {
        Seq::empty()
    } else {
        encode_row(rs.first()) + encode_rows(rs.drop_first())
    }
}

/// A whole stream: signature, zero flags, empty extension, the rows, and
/// the end-of-stream sentinel.
pub open spec fn encode_stream(rs: Seq<RawRow>) -> Seq<u8> {
    spec_magic() + be_bytes(0, 4) + be_bytes(0, 4) + encode_rows(rs) + be_bytes(0xFFFF, 2)
}

/// A row the encoder can frame for a width-`n` stream: exactly `n`
/// fields, each payload shorter than the NULL marker value.
pub open spec fn encodable_row(r: RawRow, n: nat) -> bool {
    &&& r.len() == n
    &&& forall|i: int|
        0 <= i < r.len() ==> ((#[trigger] r[i]) matches Some(b) ==> b.len() < 0xFFFF_FFFF)
}

/// Reading back an encoded field list gives the fields and leaves the
/// trailing bytes untouched.
pub proof fn lemma_parse_encoded_fields(fs: RawRow, rest: Seq<u8>)
    requires
        forall|i: int|
            0 <= i < fs.len() ==> ((#[trigger] fs[i]) matches Some(b) ==> b.len() < 0xFFFF_FFFF),
    ensures
        parse_fields(encode_fields(fs) + rest, fs.len()) == Some((fs, rest)),
    decreases fs.len(),
{
    lemma_pow256_vals();
    let s = encode_fields(fs) + rest;
    if fs.len() == 0 {
        assert(s =~= rest);
    } else {
        let f0 = fs.first();
        let tail = encode_fields(fs.drop_first()) + rest;
        match f0 {
            None => {
                lemma_be_bytes_val(0xFFFF_FFFF, 4);
                assert(s.take(4) =~= be_bytes(0xFFFF_FFFF, 4));
                assert(s.skip(4) =~= tail);
                lemma_parse_encoded_fields(fs.drop_first(), rest);
                assert(seq![Option::<Seq<u8>>::None] + fs.drop_first() =~= fs);
            },
            Some(b) => {
                lemma_be_bytes_val(b.len(), 4);
                assert(s.take(4) =~= be_bytes(b.len(), 4));
                assert(s.len() >= 4 + b.len());
                assert(s.subrange(4, 4 + b.len() as int) =~= b);
                assert(s.skip(4 + b.len() as int) =~= tail);
                lemma_parse_encoded_fields(fs.drop_first(), rest);
                assert(seq![Some(b)] + fs.drop_first() =~= fs);
            },
        }
    }
}

/// Reading back encoded rows followed by the sentinel gives the rows and
/// a clean end.
pub proof fn lemma_parse_encoded_rows(rs: Seq<RawRow>, n: nat)
    requires
        n < 0xFFFF,
        forall|i: int| 0 <= i < rs.len() ==> encodable_row(#[trigger] rs[i], n),
    ensures
        parse_rows(encode_rows(rs) + be_bytes(0xFFFF, 2), n, false) == (rs, None::<ErrV>),
    decreases rs.len(),
{
    lemma_pow256_vals();
    lemma_be_bytes_val(0xFFFF, 2);
    let s = encode_rows(rs) + be_bytes(0xFFFF, 2);
    if rs.len() == 0 {
        assert(s =~= be_bytes(0xFFFF, 2));
        assert(s.take(2) =~= be_bytes(0xFFFF, 2));
    } else {
        let r0 = rs.first();
        assert(encodable_row(r0, n));
        lemma_be_bytes_val(n, 2);
        let tail = encode_rows(rs.drop_first()) + be_bytes(0xFFFF, 2);
        assert(s =~= (be_bytes(n, 2) + encode_fields(r0)) + tail);
        assert(s.take(2) =~= be_bytes(n, 2));
        assert(s.skip(2) =~= encode_fields(r0) + tail);
        lemma_parse_encoded_fields(r0, tail);
        lemma_parse_encoded_rows(rs.drop_first(), n);
        assert(seq![r0] + rs.drop_first() =~= rs);
    }
}

/// Reading back an encoded header yields no OIDs and the trailing bytes.
pub proof fn lemma_parse_encoded_header(tail: Seq<u8>)
    ensures
        parse_header(spec_magic() + be_bytes(0, 4) + be_bytes(0, 4) + tail) == (HeaderV::Parsed {
            has_oids: false,
            rest: tail,
        }),
{
    lemma_pow256_vals();
    lemma_be_bytes_val(0, 4);
    let s = spec_magic() + be_bytes(0, 4) + be_bytes(0, 4) + tail;
    assert(s.len() == 19 + tail.len());
    assert(s.take(11) =~= spec_magic());
    assert(s.subrange(11, 15) =~= be_bytes(0, 4));
    assert(s.subrange(15, 19) =~= be_bytes(0, 4));
    assert(s.skip(19) =~= tail);
}

/// Round trip on the framing layer: a stream encoded from any row
/// sequence of the declared width decodes to exactly those rows, with the
/// original row count and field slices and a clean end.
pub proof fn lemma_stream_round_trip(rs: Seq<RawRow>, n: nat)
    requires
        n < 0xFFFF,
        forall|i: int| 0 <= i < rs.len() ==> encodable_row(#[trigger] rs[i], n),
    ensures
        stream_rows(encode_stream(rs), n) == (rs, None::<ErrV>),
{
    let tail = encode_rows(rs) + be_bytes(0xFFFF, 2);
    lemma_parse_encoded_header(tail);
    assert(encode_stream(rs) =~= spec_magic() + be_bytes(0, 4) + be_bytes(0, 4) + tail);
    lemma_parse_encoded_rows(rs, n);
}

/// The whole framing layer: header, then rows until sentinel or failure.
pub open spec fn stream_rows(s: Seq<u8>, expected: nat) -> (Seq<RawRow>, Option<ErrV>) {
    match parse_header(s) {
        HeaderV::Short => (Seq::empty(), Some(ErrV::UnexpectedEof)),
        HeaderV::BadMagic => (Seq::empty(), Some(ErrV::InvalidMagic)),
        HeaderV::Parsed { has_oids, rest } => parse_rows(rest, expected, has_oids),
    }
}

} // verus!

//! The frame reader: a pull iterator over an in-memory COPY BINARY
//! stream.  The first pull consumes the header; each later pull yields one
//! row, the clean end-of-stream, or the first failure, which every further
//! pull repeats.

use vstd::prelude::*;

use crate::ext::bm_extend;
use crate::ext::bm_len;
use crate::ext::bm_new;
use crate::ext::bytes_mut_view;
use crate::format::HeaderV;
use crate::format::RawRow;
use crate::format::parse_fields;
use crate::format::parse_header;
use crate::format::parse_rows;
use crate::format::read_be_u16;
use crate::format::read_be_u32;
use crate::format::spec_magic;
use crate::format::stream_rows;
use crate::row::BinaryCopyOutRow;
use crate::row::FieldIndex;
use crate::row::Fields;
use crate::row::fields_view;
use crate::row::indices_wf;
use crate::row::lemma_fields_view_push_null;
use crate::row::lemma_fields_view_push_value;
use crate::types::DecodeError;
use crate::types::ErrV;
use crate::types::PgType;

verus! {

/// Where the reader stands in the stream.
pub enum ReaderState {
    /// Nothing consumed yet; the next pull reads the header first.
    NeedHeader,
    /// Header consumed; the next pull reads one row frame.
    NeedRow { has_oids: bool },
    /// The end-of-stream sentinel was consumed; iteration is over.
    Done,
    /// A failure occurred; every further pull reports it again.
    Failed(DecodeError),
}

/// Copies a type list.
fn clone_types(v: &Vec<PgType>) -> (r: Vec<PgType>)
    ensures
        r@ == v@,
{
    let mut r: Vec<PgType> = Vec::new();
    let mut i: usize = 0;
    while i < v.len()
        invariant
            i <= v@.len(),
            r@ == v@.take(i as int),
        decreases v@.len() - i,
    {
        r.push(v[i]);
        i = i + 1;
        proof {
            assert(v@.take(i as int) =~= v@.take(i - 1).push(v@[i - 1]));
        }
    }
    proof {
        assert(v@.take(v@.len() as int) =~= v@);
    }
    r
}

/// An iterator of rows deserialized from the PostgreSQL binary copy
/// format, reading from an owned in-memory buffer.
pub struct BinaryCopyOutIter {
    /// The whole stream.
    pub buf: Vec<u8>,
    /// How many bytes have been consumed.
    pub pos: usize,
    /// The declared column types; each row's field count must match their
    /// number.
    pub types: Vec<PgType>,
    /// Where the reader stands.
    pub state: ReaderState,
}

impl BinaryCopyOutIter {
    /// The unread remainder of the stream.
    pub open spec fn suffix(self) -> Seq<u8> {
        self.buf@.skip(self.pos as int)
    }

    /// The consumed prefix stays inside the buffer.
    pub open spec fn wf(self) -> bool {
        self.pos <= self.buf@.len()
    }

    /// What the rest of the iteration will yield: the remaining raw rows,
    /// and `None` for a clean end or the failure that ends iteration.
    pub open spec fn remaining(self) -> (Seq<RawRow>, Option<ErrV>) {
        match self.state {
            ReaderState::NeedHeader => stream_rows(self.suffix(), self.types@.len()),
            ReaderState::NeedRow { has_oids } => parse_rows(
                self.suffix(),
                self.types@.len(),
                has_oids,
            ),
            ReaderState::Done => (Seq::empty(), None),
            ReaderState::Failed(e) => (Seq::empty(), Some(e@)),
        }
    }

    /// Creates an iterator over a raw copy stream, bound to the types of
    /// the columns being returned.
    pub fn new(buf: Vec<u8>, types: Vec<PgType>) -> (r: Self)
        ensures
            r.wf(),
            r.buf@ == buf@,
            r.types@ == types@,
            r.remaining() == stream_rows(buf@, types@.len()),
    {
        let r = BinaryCopyOutIter { buf, pos: 0, types, state: ReaderState::NeedHeader };
        proof {
            assert(r.suffix() =~= r.buf@);
        }
        r
    }

    /// Consumes the stream header: signature, flags word, and discarded
    /// extension.  Leaves `state` untouched; the caller records the
    /// outcome.
    fn read_header(&mut self) -> (r: Result<bool, DecodeError>)
        requires
            old(self).wf(),
        ensures
            final(self).wf(),
            final(self).buf@ == old(self).buf@,
            final(self).types@ == old(self).types@,
            final(self).state == old(self).state,
            match r {
                Ok(oids) => parse_header(old(self).suffix()) == (HeaderV::Parsed {
                    has_oids: oids,
                    rest: final(self).suffix(),
                }),
                Err(e) => (parse_header(old(self).suffix()) is Short && e@ == ErrV::UnexpectedEof)
                    || (parse_header(old(self).suffix()) is BadMagic && e@ == ErrV::InvalidMagic),
            },
    {
        let n = self.buf.len();
        let p = self.pos;
        let ghost s = self.suffix();
        proof {
            assert(s.len() == n - p);
            assert(forall|i: int| 0 <= i < s.len() ==> s[i] == self.buf@[p + i]);
        }
        if n - p < 11 {
            return Err(DecodeError::UnexpectedEof);
        }
        let magic_ok = self.buf[p] == 0x50 && self.buf[p + 1] == 0x47 && self.buf[p + 2] == 0x43
            && self.buf[p + 3] == 0x4f && self.buf[p + 4] == 0x50 && self.buf[p + 5] == 0x59
            && self.buf[p + 6] == 0x0a && self.buf[p + 7] == 0xff && self.buf[p + 8] == 0x0d
            && self.buf[p + 9] == 0x0a && self.buf[p + 10] == 0x00;
        proof {
            if magic_ok {
                assert(s.take(11) =~= spec_magic());
            } else {
                if s.take(11) == spec_magic() {
                    assert(s[0] == spec_magic()[0] && s[1] == spec_magic()[1] && s[2]
                        == spec_magic()[2] && s[3] == spec_magic()[3] && s[4] == spec_magic()[4]
                        && s[5] == spec_magic()[5] && s[6] == spec_magic()[6] && s[7]
                        == spec_magic()[7] && s[8] == spec_magic()[8] && s[9] == spec_magic()[9]
                        && s[10] == spec_magic()[10]);
                    assert(false);
                }
            }
        }
        if !magic_ok {
            return Err(DecodeError::InvalidMagic);
        }
        if n - p < 19 {
            return Err(DecodeError::UnexpectedEof);
        }
        let flags = read_be_u32(&self.buf, p + 11);
        let ext32 = read_be_u32(&self.buf, p + 15);
        proof {
            assert(self.buf@.subrange(p + 11, p + 15) =~= s.subrange(11, 15));
            assert(self.buf@.subrange(p + 15, p + 19) =~= s.subrange(15, 19));
        }
        let ext = ext32 as usize;
        if ext > n - (p + 19) {
            return Err(DecodeError::UnexpectedEof);
        }
        self.pos = p + 19 + ext;
        let has_oids = flags / 0x1_0000 % 2 == 1;
        proof {
            assert(self.suffix() =~= s.skip(19 + ext32 as int));
        }
        Ok(has_oids)
    }

    /// Reads one row frame at the current position: the declared field
    /// count, then that many length-prefixed fields.  Leaves `state`
    /// untouched; the caller records the outcome.
    #[verifier::loop_isolation(false)]
    fn read_row(&mut self, has_oids: bool) -> (r: Option<Result<BinaryCopyOutRow, DecodeError>>)
        requires
            old(self).wf(),
        ensures
            final(self).wf(),
            final(self).buf@ == old(self).buf@,
            final(self).types@ == old(self).types@,
            final(self).state == old(self).state,
            match r {
                None => parse_rows(old(self).suffix(), old(self).types@.len(), has_oids) == (
                Seq::<RawRow>::empty(), None::<ErrV>),
                Some(Err(e)) => parse_rows(old(self).suffix(), old(self).types@.len(), has_oids)
                    == (Seq::<RawRow>::empty(), Some(e@)),
                Some(Ok(row)) => {
                    &&& row.wf()
                    &&& row.types@ == old(self).types@
                    &&& row.raw().len() == old(self).types@.len()
                    &&& parse_rows(old(self).suffix(), old(self).types@.len(), has_oids) == ({
                        let rr = parse_rows(final(self).suffix(), old(self).types@.len(), has_oids);
                        (seq![row.raw()] + rr.0, rr.1)
                    })
                },
            },
    {
        let n = self.buf.len();
        let p0 = self.pos;
        let exp = self.types.len();
        let ghost s = self.suffix();
        let ghost buf0 = self.buf@;
        let ghost types0 = self.types@;
        let ghost st0 = self.state;
        proof {
            assert(s.len() == n - p0);
        }
        if n - p0 < 2 {
            return Some(Err(DecodeError::UnexpectedEof));
        }
        let f = read_be_u16(&self.buf, p0);
        proof {
            assert(self.buf@.subrange(p0 as int, p0 + 2) =~= s.take(2));
        }
        if f == 0xFFFF {
            self.pos = p0 + 2;
            return None;
        }
        let f2 = if has_oids {
            f as usize + 1
        } else {
            f as usize
        };
        if f2 != exp {
            return Some(Err(DecodeError::FieldCountMismatch { expected: exp, got: f2 }));
        }
        self.pos = p0 + 2;
        let ghost s0 = self.suffix();
        proof {
            assert(s0 =~= s.skip(2));
        }
        let mut fbuf = bm_new();
        let mut indices: Vec<FieldIndex> = Vec::new();
        let mut j: usize = 0;
        while j < f2
            invariant
                self.wf(),
                self.buf@ == buf0,
                self.types@ == types0,
                self.state == st0,
                self.buf@.len() == n,
                j <= f2,
                f2 == exp,
                indices@.len() == j,
                indices_wf(indices@, bytes_mut_view(fbuf).len()),
                p0 + 2 <= self.pos,
                bytes_mut_view(fbuf).len() <= self.pos - (p0 + 2),
                parse_fields(s0, f2 as nat) == (match parse_fields(
                    self.buf@.skip(self.pos as int),
                    (f2 - j) as nat,
                ) {
                    Some((fs, rest)) => Some(
                        (fields_view(bytes_mut_view(fbuf), indices@) + fs, rest),
                    ),
                    None => None::<(RawRow, Seq<u8>)>,
                }),
            decreases f2 - j,
        {
            let ghost cur = self.buf@.skip(self.pos as int);
            let ghost m = (f2 - j) as nat;
            let ghost view0 = fields_view(bytes_mut_view(fbuf), indices@);
            let p = self.pos;
            proof {
                assert(cur.len() == n - p);
            }
            if n - p < 4 {
                return Some(Err(DecodeError::UnexpectedEof));
            }
            let l32 = read_be_u32(&self.buf, p);
            proof {
                assert(self.buf@.subrange(p as int, p + 4) =~= cur.take(4));
            }
            let start = bm_len(&fbuf);
            if l32 == 0xFFFF_FFFF {
                proof {
                    lemma_fields_view_push_null(bytes_mut_view(fbuf), indices@, start);
                }
                indices.push(FieldIndex::Null(start));
                self.pos = p + 4;
                proof {
                    assert(self.buf@.skip(self.pos as int) =~= cur.skip(4));
                    assert(fields_view(bytes_mut_view(fbuf), indices@) =~= view0.push(None));
                    match parse_fields(cur.skip(4), (m - 1) as nat) {
                        Some((fs, rest)) => {
                            assert(view0 + (seq![Option::<Seq<u8>>::None] + fs) =~= (view0.push(
                                None,
                            )) + fs);
                        },
                        None => {},
                    }
                }
            } else {
                let l = l32 as usize;
                if l > n - (p + 4) {
                    proof {
                        assert(cur.len() < 4 + l32);
                    }
                    return Some(Err(DecodeError::UnexpectedEof));
                }
                let payload = vstd::slice::slice_subrange(self.buf.as_slice(), p + 4, p + 4 + l);
                proof {
                    lemma_fields_view_push_value(bytes_mut_view(fbuf), indices@, payload@, start);
                }
                bm_extend(&mut fbuf, payload);
                indices.push(FieldIndex::Value(start));
                self.pos = p + 4 + l;
                proof {
                    assert(payload@ =~= cur.subrange(4, 4 + l as int));
                    assert(self.buf@.skip(self.pos as int) =~= cur.skip(4 + l as int));
                    assert(fields_view(bytes_mut_view(fbuf), indices@) =~= view0.push(
                        Some(payload@),
                    ));
                    match parse_fields(cur.skip(4 + l as int), (m - 1) as nat) {
                        Some((fs, rest)) => {
                            assert(view0 + (seq![Some(cur.subrange(4, 4 + l as int))] + fs) =~= (
                            view0.push(Some(payload@))) + fs);
                        },
                        None => {},
                    }
                }
            }
            j = j + 1;
        }
        let row = BinaryCopyOutRow {
            fields: Fields { buf: fbuf, indices },
            types: clone_types(&self.types),
        };
        proof {
            assert(parse_fields(self.buf@.skip(self.pos as int), 0) == Some::<(RawRow, Seq<u8>)>(
                (Seq::empty(), self.buf@.skip(self.pos as int)),
            ));
            assert(row.raw() + Seq::<Option<Seq<u8>>>::empty() =~= row.raw());
            assert(parse_fields(s0, f2 as nat) == Some::<(RawRow, Seq<u8>)>(
                (row.raw(), self.buf@.skip(self.pos as int)),
            ));
        }
        Some(Ok(row))
    }

    /// Pulls the next row: `Some(Ok(row))`, `None` at the clean end of the
    /// stream, or `Some(Err(e))` on the first failure and on every pull
    /// after it.
    pub fn next(&mut self) -> (r: Option<Result<BinaryCopyOutRow, DecodeError>>)
        requires
            old(self).wf(),
        ensures
            final(self).wf(),
            final(self).buf@ == old(self).buf@,
            final(self).types@ == old(self).types@,
            match r {
                None => old(self).remaining() == (Seq::<RawRow>::empty(), None::<ErrV>)
                    && final(self).remaining() == (Seq::<RawRow>::empty(), None::<ErrV>),
                Some(Err(e)) => old(self).remaining() == (Seq::<RawRow>::empty(), Some(e@))
                    && final(self).remaining() == (Seq::<RawRow>::empty(), Some(e@)),
                Some(Ok(row)) => {
                    &&& row.wf()
                    &&& row.types@ == old(self).types@
                    &&& row.raw().len() == old(self).types@.len()
                    &&& old(self).remaining().0 == seq![row.raw()] + final(self).remaining().0
                    &&& old(self).remaining().1 == final(self).remaining().1
                },
            },
    {
        let oids_opt: Option<bool>;
        match &self.state {
            ReaderState::Done => {
                return None;
            },
            ReaderState::Failed(e) => {
                return Some(Err(e.duplicate()));
            },
            ReaderState::NeedHeader => {
                oids_opt = None;
            },
            ReaderState::NeedRow { has_oids } => {
                oids_opt = Some(*has_oids);
            },
        }
        let has_oids = match oids_opt {
            None => {
                match self.read_header() {
                    Ok(h) => {
                        self.state = ReaderState::NeedRow { has_oids: h };
                        h
                    },
                    Err(e) => {
                        let d = e.duplicate();
                        self.state = ReaderState::Failed(d);
                        return Some(Err(e));
                    },
                }
            },
            Some(h) => h,
        };
        match self.read_row(has_oids) {
            None => {
                self.state = ReaderState::Done;
                None
            },
            Some(Err(e)) => {
                let d = e.duplicate();
                self.state = ReaderState::Failed(d);
                Some(Err(e))
            },
            Some(Ok(row)) => Some(Ok(row)),
        }
    }
}

} // verus!

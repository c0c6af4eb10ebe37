//! One parsed row: the concatenated non-null field payloads, a parallel
//! index sequence locating each field, and the typed view of a single
//! field.

use vstd::prelude::*;
use vstd::utf8::decode_utf8;
use vstd::utf8::valid_utf8;

use crate::ext::bm_copy_range;
use crate::ext::bm_len;
use crate::ext::bytes_mut_view;
use crate::ext::utf8_to_string;
use crate::format::RawRow;
use crate::format::be_i32_val;
use crate::format::be_val;
use crate::format::read_be_i32;
use crate::format::read_be_u32;
use crate::format::read_be_u64;
use crate::types::DecodeError;
use crate::types::ErrV;
use crate::types::PgType;

verus! {

/// Where one field's payload begins in the row buffer, and whether the
/// field was SQL NULL (a NULL occupies no payload bytes).
#[derive(Debug, Clone, Copy)]
pub enum FieldIndex {
    /// A present field starting at the given offset.
    Value(usize),
    /// A NULL field; the offset equals the preceding field's end.
    Null(usize),
}

impl FieldIndex {
    /// The recorded offset, for either variant.
    pub open spec fn offset(self) -> usize {
        match self {
            FieldIndex::Value(index) => index,
            FieldIndex::Null(index) => index,
        }
    }

    /// Whether the entry marks a SQL NULL.
    pub open spec fn is_null(self) -> bool {
        self matches FieldIndex::Null(_)
    }

    /// The recorded offset, for either variant.
    pub fn index(&self) -> (r: usize)
        ensures
            r == self.offset(),
    {
        match self {
            FieldIndex::Value(index) => *index,
            FieldIndex::Null(index) => *index,
        }
    }
}

/// Where field `i`'s payload ends: at the next field's offset, or at the
/// end of the buffer for the last field.
pub open spec fn field_end(indices: Seq<FieldIndex>, buf_len: nat, i: int) -> int {
    if i + 1 < indices.len() {
        indices[i + 1].offset() as int
    } else {
        buf_len as int
    }
}

/// The index sequence is consistent with a buffer of length `buf_len`:
/// offsets are monotone, stay inside the buffer, and a NULL entry spans no
/// bytes.
pub open spec fn indices_wf(indices: Seq<FieldIndex>, buf_len: nat) -> bool {
    forall|i: int|
        0 <= i < indices.len() ==> {
            &&& (#[trigger] indices[i]).offset() <= field_end(indices, buf_len, i) <= buf_len
            &&& indices[i].is_null() ==> indices[i].offset() == field_end(indices, buf_len, i)
        }
}

/// The row the buffer and index sequence describe: `None` for each NULL
/// entry, the payload bytes for each present one.
pub open spec fn fields_view(buf: Seq<u8>, indices: Seq<FieldIndex>) -> RawRow {
    Seq::new(
        indices.len(),
        |i: int|
            match indices[i] {
                FieldIndex::Null(_) => None,
                FieldIndex::Value(off) => Some(
                    buf.subrange(off as int, field_end(indices, buf.len(), i)),
                ),
            },
    )
}

/// Recording a present field: appending its payload and an entry at the
/// old buffer end extends the row view by that payload.
pub proof fn lemma_fields_view_push_value(
    b: Seq<u8>,
    ind: Seq<FieldIndex>,
    payload: Seq<u8>,
    start: usize,
)
    requires
        indices_wf(ind, b.len()),
        start == b.len(),
        b.len() + payload.len() <= usize::MAX,
    ensures
        indices_wf(ind.push(FieldIndex::Value(start)), (b + payload).len()),
        fields_view(b + payload, ind.push(FieldIndex::Value(start))) =~= fields_view(
            b,
            ind,
        ).push(Some(payload)),
{
    let ind2 = ind.push(FieldIndex::Value(start));
    let b2 = b + payload;
    assert forall|i: int| 0 <= i < ind2.len() implies {
        &&& (#[trigger] ind2[i]).offset() <= field_end(ind2, b2.len(), i) <= b2.len()
        &&& ind2[i].is_null() ==> ind2[i].offset() == field_end(ind2, b2.len(), i)
    } by {
        if i < ind.len() {
            assert(ind2[i] == ind[i]);
            if i + 1 < ind.len() {
                assert(field_end(ind2, b2.len(), i) == field_end(ind, b.len(), i));
            } else {
                assert(field_end(ind2, b2.len(), i) == start as int);
                assert(field_end(ind, b.len(), i) == b.len() as int);
            }
        }
    }
    assert forall|i: int| 0 <= i < ind2.len() implies fields_view(b2, ind2)[i] == fields_view(
        b,
        ind,
    ).push(Some(payload))[i] by {
        if i < ind.len() {
            if i + 1 < ind.len() {
                assert(field_end(ind2, b2.len(), i) == field_end(ind, b.len(), i));
            } else {
                assert(field_end(ind2, b2.len(), i) == field_end(ind, b.len(), i));
            }
            match ind[i] {
                FieldIndex::Null(_) => {},
                FieldIndex::Value(off) => {
                    assert(b2.subrange(off as int, field_end(ind2, b2.len(), i)) =~= b.subrange(
                        off as int,
                        field_end(ind, b.len(), i),
                    ));
                },
            }
        } else {
            assert(i == ind.len());
            assert(ind2[i] == FieldIndex::Value(start));
            assert(field_end(ind2, b2.len(), i) == b2.len() as int);
            assert(b2.subrange(start as int, b2.len() as int) =~= payload);
        }
    }
}

/// Recording a NULL field: pushing an entry at the buffer end, with no
/// payload, extends the row view by `None`.
pub proof fn lemma_fields_view_push_null(b: Seq<u8>, ind: Seq<FieldIndex>, start: usize)
    requires
        indices_wf(ind, b.len()),
        start == b.len(),
    ensures
        indices_wf(ind.push(FieldIndex::Null(start)), b.len()),
        fields_view(b, ind.push(FieldIndex::Null(start))) =~= fields_view(b, ind).push(None),
{
    let ind2 = ind.push(FieldIndex::Null(start));
    assert forall|i: int| 0 <= i < ind2.len() implies {
        &&& (#[trigger] ind2[i]).offset() <= field_end(ind2, b.len(), i) <= b.len()
        &&& ind2[i].is_null() ==> ind2[i].offset() == field_end(ind2, b.len(), i)
    } by {
        if i < ind.len() {
            assert(ind2[i] == ind[i]);
            if i + 1 < ind.len() {
                assert(field_end(ind2, b.len(), i) == field_end(ind, b.len(), i));
            } else {
                assert(field_end(ind2, b.len(), i) == start as int);
                assert(field_end(ind, b.len(), i) == b.len() as int);
            }
        } else {
            assert(field_end(ind2, b.len(), i) == b.len() as int);
        }
    }
    assert forall|i: int| 0 <= i < ind2.len() implies fields_view(b, ind2)[i] == fields_view(
        b,
        ind,
    ).push(None)[i] by {
        if i < ind.len() {
            assert(field_end(ind2, b.len(), i) == field_end(ind, b.len(), i));
        }
    }
}

/// One row's field payloads, concatenated in order, with the index
/// sequence that locates each field.
#[derive(Debug)]
pub struct Fields {
    /// The non-null field payloads of one row, concatenated in order.
    pub buf: bytes::BytesMut,
    /// One entry per field: where its payload starts, and whether it is
    /// NULL.
    pub indices: Vec<FieldIndex>,
}

impl View for Fields {
    type V = RawRow;

    open spec fn view(&self) -> RawRow {
        fields_view(bytes_mut_view(self.buf), self.indices@)
    }
}

impl Fields {
    /// The bytes of the row buffer.
    pub open spec fn buf_bytes(self) -> Seq<u8> {
        bytes_mut_view(self.buf)
    }

    /// The index sequence is consistent with the buffer.
    pub open spec fn wf(self) -> bool {
        indices_wf(self.indices@, self.buf_bytes().len())
    }

    /// Whether field `idx` is SQL NULL.
    pub fn is_null(&self, idx: usize) -> (r: bool)
        requires
            idx < self.indices@.len(),
        ensures
            r == self.indices@[idx as int].is_null(),
    {
        match &self.indices[idx] {
            FieldIndex::Null(_) => true,
            FieldIndex::Value(_) => false,
        }
    }

    /// The payload bytes of field `idx`, copied out; empty for a NULL
    /// field.
    pub fn field(&self, idx: usize) -> (r: Vec<u8>)
        requires
            self.wf(),
            idx < self.indices@.len(),
        ensures
            self@[idx as int] matches Some(b) ==> r@ == b,
            self@[idx as int] is None ==> r@ == Seq::<u8>::empty(),
    {
        let n = self.indices.len();
        let start = self.indices[idx].index();
        let end = if idx + 1 < n {
            self.indices[idx + 1].index()
        } else {
            bm_len(&self.buf)
        };
        bm_copy_range(&self.buf, start, end)
    }
}

/// Mathematical image of a decoded field value.
pub enum ValueV {
    /// A 32-bit signed integer.
    Int4(int),
    /// The bit pattern of an IEEE-754 single-precision float.
    Float4Bits(nat),
    /// The bit pattern of an IEEE-754 double-precision float.
    Float8Bits(nat),
    /// A UTF-8 text value.
    Varchar(Seq<char>),
}

/// One decoded field value.  Float fields carry their IEEE-754 bit
/// pattern; the boundary that hands columns to a consumer reinterprets
/// the bits.
#[derive(Debug, Clone, PartialEq, Eq)]
pub enum SqlValue {
    /// A 32-bit signed integer.
    Int4(i32),
    /// The bit pattern of an IEEE-754 single-precision float.
    Float4Bits(u32),
    /// The bit pattern of an IEEE-754 double-precision float.
    Float8Bits(u64),
    /// A UTF-8 text value.
    Varchar(String),
}

impl View for SqlValue {
    type V = ValueV;

    open spec fn view(&self) -> ValueV {
        match self {
            SqlValue::Int4(x) => ValueV::Int4(*x as int),
            SqlValue::Float4Bits(x) => ValueV::Float4Bits(*x as nat),
            SqlValue::Float8Bits(x) => ValueV::Float8Bits(*x as nat),
            SqlValue::Varchar(s) => ValueV::Varchar(s@),
        }
    }
}

/// The view of a nullable decoded value.
pub open spec fn opt_value_view(v: Option<SqlValue>) -> Option<ValueV> {
    match v {
        Some(x) => Some(x@),
        None => None,
    }
}

/// A field-level decoding failure, before a column index is attached.
pub enum FieldErrV {
    /// A fixed-width type received a payload of the wrong length.
    WrongLength { expected: int, got: int },
    /// A text payload is not valid UTF-8.
    NotUtf8,
}

/// Attaches the failing column's index to a field-level failure.
pub open spec fn field_err_at(e: FieldErrV, column: int) -> ErrV {
    match e {
        FieldErrV::WrongLength { expected, got } => ErrV::FieldLengthMismatch {
            column,
            expected,
            got,
        },
        FieldErrV::NotUtf8 => ErrV::InvalidUtf8 { column },
    }
}

/// What one field decodes to: `None` for SQL NULL whatever the type;
/// otherwise the type's big-endian fixed-width reading, or the UTF-8
/// decoding for text.
pub open spec fn spec_decode_field(t: PgType, f: Option<Seq<u8>>) -> Result<
    Option<ValueV>,
    FieldErrV,
> {
    match f {
        None => Ok(None),
        Some(b) => match t {
            PgType::Int4 => if b.len() == 4 {
                Ok(Some(ValueV::Int4(be_i32_val(b))))
            } else {
                Err(FieldErrV::WrongLength { expected: 4, got: b.len() as int })
            },
            PgType::Float4 => if b.len() == 4 {
                Ok(Some(ValueV::Float4Bits(be_val(b))))
            } else {
                Err(FieldErrV::WrongLength { expected: 4, got: b.len() as int })
            },
            PgType::Float8 => if b.len() == 8 {
                Ok(Some(ValueV::Float8Bits(be_val(b))))
            } else {
                Err(FieldErrV::WrongLength { expected: 8, got: b.len() as int })
            },
            PgType::Varchar => if valid_utf8(b) {
                Ok(Some(ValueV::Varchar(decode_utf8(b))))
            } else {
                Err(FieldErrV::NotUtf8)
            },
        },
    }
}

/// A NULL field decodes to `None` whatever its declared type.
pub proof fn lemma_null_preserved(t: PgType)
    ensures
        spec_decode_field(t, None) == Ok::<Option<ValueV>, FieldErrV>(None),
{
}

/// A row of data parsed from a binary copy stream, bound to the declared
/// column types.
#[derive(Debug)]
pub struct BinaryCopyOutRow {
    /// The row's field payloads and their locations.
    pub fields: Fields,
    /// The declared column types the row is decoded against.
    pub types: Vec<PgType>,
}

impl BinaryCopyOutRow {
    /// The row as the framing layer produced it.
    pub open spec fn raw(self) -> RawRow {
        self.fields@
    }

    /// The declared column types.
    pub open spec fn spec_types(self) -> Seq<PgType> {
        self.types@
    }

    /// The number of fields.
    pub open spec fn width(self) -> nat {
        self.types@.len()
    }

    /// Internal consistency: the index sequence fits the buffer and the
    /// row is exactly as wide as the type list.
    pub open spec fn wf(self) -> bool {
        &&& self.fields.wf()
        &&& self.fields.indices@.len() == self.types@.len()
    }

    /// Decodes field `idx` per its declared type.  `None` for a NULL
    /// field; an error names the column that failed.
    pub fn try_get(&self, idx: usize) -> (r: Result<Option<SqlValue>, DecodeError>)
        requires
            self.wf(),
        ensures
            match r {
                Ok(v) => idx < self.width() && Ok::<Option<ValueV>, FieldErrV>(opt_value_view(v)) == spec_decode_field(
                    self.spec_types()[idx as int],
                    self.raw()[idx as int],
                ),
                Err(e) => if idx >= self.width() {
                    e@ == ErrV::RowIndexOutOfRange { len: self.width() as int, index: idx as int }
                } else {
                    spec_decode_field(self.spec_types()[idx as int], self.raw()[idx as int])
                        matches Err(fe) && e@ == field_err_at(fe, idx as int)
                },
            },
    {
        if idx >= self.types.len() {
            return Err(DecodeError::RowIndexOutOfRange { len: self.types.len(), index: idx });
        }
        if self.fields.is_null(idx) {
            return Ok(None);
        }
        let b = self.fields.field(idx);
        match self.types[idx] {
            PgType::Int4 => {
                if b.len() == 4 {
                    Ok(Some(SqlValue::Int4(read_be_i32(&b))))
                } else {
                    Err(DecodeError::FieldLengthMismatch { column: idx, expected: 4, got: b.len() })
                }
            },
            PgType::Float4 => {
                if b.len() == 4 {
                    proof {
                        assert(b@.subrange(0, 4) =~= b@);
                    }
                    Ok(Some(SqlValue::Float4Bits(read_be_u32(&b, 0))))
                } else {
                    Err(DecodeError::FieldLengthMismatch { column: idx, expected: 4, got: b.len() })
                }
            },
            PgType::Float8 => {
                if b.len() == 8 {
                    proof {
                        assert(b@.subrange(0, 8) =~= b@);
                    }
                    Ok(Some(SqlValue::Float8Bits(read_be_u64(&b, 0))))
                } else {
                    Err(DecodeError::FieldLengthMismatch { column: idx, expected: 8, got: b.len() })
                }
            },
            PgType::Varchar => {
                match utf8_to_string(b) {
                    Some(s) => Ok(Some(SqlValue::Varchar(s))),
                    None => Err(DecodeError::InvalidUtf8 { column: idx }),
                }
            },
        }
    }

    /// Like [`Self::try_get`], for a field the caller knows decodes
    /// cleanly.
    pub fn get(&self, idx: usize) -> (r: Option<SqlValue>)
        requires
            self.wf(),
            idx < self.width(),
            spec_decode_field(self.spec_types()[idx as int], self.raw()[idx as int]) is Ok,
        ensures
            Ok::<Option<ValueV>, FieldErrV>(opt_value_view(r)) == spec_decode_field(
                self.spec_types()[idx as int],
                self.raw()[idx as int],
            ),
    {
        match self.try_get(idx) {
            Ok(v) => v,
            Err(_) => vstd::pervasive::unreached(),
        }
    }
}

} // verus!

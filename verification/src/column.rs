//! The column builder: one typed appendable array per declared output
//! column, each growing by exactly one (possibly null) scalar per row.

use vstd::prelude::*;

use crate::format::RawRow;
use crate::row::BinaryCopyOutRow;
use crate::row::FieldErrV;
use crate::row::SqlValue;
use crate::row::ValueV;
use crate::row::field_err_at;
use crate::row::opt_value_view;
use crate::row::spec_decode_field;
use crate::types::DecodeError;
use crate::types::ErrV;
use crate::types::PgType;

verus! {

/// One typed column: a nullable scalar per decoded row.  Float columns
/// hold IEEE-754 bit patterns; the boundary that hands columns on
/// reinterprets the bits.
#[derive(Debug, Clone, PartialEq)]
pub enum ColumnArray {
    /// 32-bit signed integers.
    Int4(Vec<Option<i32>>),
    /// Bit patterns of single-precision floats.
    Float4(Vec<Option<u32>>),
    /// Bit patterns of double-precision floats.
    Float8(Vec<Option<u64>>),
    /// UTF-8 text values.
    Varchar(Vec<Option<String>>),
}

impl ColumnArray {
    /// Which type tag the column was built for.
    pub open spec fn kind(self) -> PgType {
        match self {
            ColumnArray::Int4(_) => PgType::Int4,
            ColumnArray::Float4(_) => PgType::Float4,
            ColumnArray::Float8(_) => PgType::Float8,
            ColumnArray::Varchar(_) => PgType::Varchar,
        }
    }

    /// The column's cells, uniformly as nullable mathematical values.
    pub open spec fn cells(self) -> Seq<Option<ValueV>> {
        match self {
            ColumnArray::Int4(v) => v@.map_values(
                |c: Option<i32>|
                    match c {
                        Some(x) => Some(ValueV::Int4(x as int)),
                        None => None,
                    },
            ),
            ColumnArray::Float4(v) => v@.map_values(
                |c: Option<u32>|
                    match c {
                        Some(x) => Some(ValueV::Float4Bits(x as nat)),
                        None => None,
                    },
            ),
            ColumnArray::Float8(v) => v@.map_values(
                |c: Option<u64>|
                    match c {
                        Some(x) => Some(ValueV::Float8Bits(x as nat)),
                        None => None,
                    },
            ),
            ColumnArray::Varchar(v) => v@.map_values(
                |c: Option<String>|
                    match c {
                        Some(x) => Some(ValueV::Varchar(x@)),
                        None => None,
                    },
            ),
        }
    }

    /// How many rows the column holds.
    pub open spec fn spec_len(self) -> nat {
        self.cells().len()
    }

    /// How many rows the column holds.
    pub fn len(&self) -> (r: usize)
        ensures
            r == self.spec_len(),
    {
        match self {
            ColumnArray::Int4(v) => v.len(),
            ColumnArray::Float4(v) => v.len(),
            ColumnArray::Float8(v) => v.len(),
            ColumnArray::Varchar(v) => v.len(),
        }
    }
}

/// A fresh empty column of the given kind.
pub fn new_array(ty: PgType) -> (r: ColumnArray)
    ensures
        r.kind() == ty,
        r.cells() =~= Seq::<Option<ValueV>>::empty(),
{
    match ty {
        PgType::Int4 => ColumnArray::Int4(Vec::new()),
        PgType::Float4 => ColumnArray::Float4(Vec::new()),
        PgType::Float8 => ColumnArray::Float8(Vec::new()),
        PgType::Varchar => ColumnArray::Varchar(Vec::new()),
    }
}

/// What a whole row decodes to against a type list, column by column from
/// `col` on; the first failing column aborts with its index.
pub open spec fn spec_decode_row(fields: RawRow, types: Seq<PgType>, col: int) -> Result<
    Seq<Option<ValueV>>,
    ErrV,
>
    decreases types.len() - col,
{
    if col < 0 || col >= types.len() {
        Ok(Seq::empty())
    } else {
        match spec_decode_field(types[col], fields[col]) {
            Err(fe) => Err(field_err_at(fe, col)),
            Ok(v) => match spec_decode_row(fields, types, col + 1) {
                Err(e) => Err(e),
                Ok(rest) => Ok(seq![v] + rest),
            },
        }
    }
}

/// Whether a decoded cell can enter a column of the given kind: a NULL
/// fits every column, a value only the column of its own type.
pub open spec fn cell_fits(k: PgType, c: Option<ValueV>) -> bool {
    match c {
        None => true,
        Some(ValueV::Int4(_)) => k == PgType::Int4,
        Some(ValueV::Float4Bits(_)) => k == PgType::Float4,
        Some(ValueV::Float8Bits(_)) => k == PgType::Float8,
        Some(ValueV::Varchar(_)) => k == PgType::Varchar,
    }
}

impl ColumnArray {
    /// The column with one more cell appended.
    pub fn pushed(self, cell: Option<SqlValue>) -> (r: Self)
        requires
            cell_fits(self.kind(), opt_value_view(cell)),
        ensures
            r.kind() == self.kind(),
            r.cells() =~= self.cells().push(opt_value_view(cell)),
    {
        let ghost s0 = self;
        let ghost c0 = opt_value_view(cell);
        match (self, cell) {
            (ColumnArray::Int4(mut v), Some(SqlValue::Int4(x))) => {
                v.push(Some(x));
                let r = ColumnArray::Int4(v);
                proof {
                    assert(r.cells() =~= s0.cells().push(c0));
                }
                r
            },
            (ColumnArray::Float4(mut v), Some(SqlValue::Float4Bits(x))) => {
                v.push(Some(x));
                let r = ColumnArray::Float4(v);
                proof {
                    assert(r.cells() =~= s0.cells().push(c0));
                }
                r
            },
            (ColumnArray::Float8(mut v), Some(SqlValue::Float8Bits(x))) => {
                v.push(Some(x));
                let r = ColumnArray::Float8(v);
                proof {
                    assert(r.cells() =~= s0.cells().push(c0));
                }
                r
            },
            (ColumnArray::Varchar(mut v), Some(SqlValue::Varchar(x))) => {
                v.push(Some(x));
                let r = ColumnArray::Varchar(v);
                proof {
                    assert(r.cells() =~= s0.cells().push(c0));
                }
                r
            },
            (ColumnArray::Int4(mut v), None) => {
                v.push(None);
                let r = ColumnArray::Int4(v);
                proof {
                    assert(r.cells() =~= s0.cells().push(c0));
                }
                r
            },
            (ColumnArray::Float4(mut v), None) => {
                v.push(None);
                let r = ColumnArray::Float4(v);
                proof {
                    assert(r.cells() =~= s0.cells().push(c0));
                }
                r
            },
            (ColumnArray::Float8(mut v), None) => {
                v.push(None);
                let r = ColumnArray::Float8(v);
                proof {
                    assert(r.cells() =~= s0.cells().push(c0));
                }
                r
            },
            (ColumnArray::Varchar(mut v), None) => {
                v.push(None);
                let r = ColumnArray::Varchar(v);
                proof {
                    assert(r.cells() =~= s0.cells().push(c0));
                }
                r
            },
            _ => vstd::pervasive::unreached(),
        }
    }
}

/// Decodes field `i` of the row and appends it to its column.  On success
/// the column grows by exactly the decoded cell; on failure it is
/// unchanged and the error names column `i`.
pub fn push_row_value(array: &mut ColumnArray, row: &BinaryCopyOutRow, i: usize) -> (r: Result<
    (),
    DecodeError,
>)
    requires
        row.wf(),
        i < row.width(),
        old(array).kind() == row.spec_types()[i as int],
    ensures
        final(array).kind() == old(array).kind(),
        match spec_decode_field(row.spec_types()[i as int], row.raw()[i as int]) {
            Ok(v) => r is Ok && final(array).cells() == old(array).cells().push(v),
            Err(fe) => r matches Err(e) && e@ == field_err_at(fe, i as int) && final(array).cells()
                == old(array).cells(),
        },
{
    match row.try_get(i) {
        Err(e) => Err(e),
        Ok(cell) => {
            let mut owned = ColumnArray::Int4(Vec::new());
            core::mem::swap(array, &mut owned);
            let mut updated = owned.pushed(cell);
            core::mem::swap(array, &mut updated);
            Ok(())
        },
    }
}

/// Appends every field of the row to its column, in declared order.  On
/// success every column grows by one; on the first failure the columns
/// already extended keep the extension and the caller discards the whole
/// builder.
#[verifier::loop_isolation(false)]
#[verifier::rlimit(30)]
pub fn push_row_values(columns: &mut Vec<ColumnArray>, row: &BinaryCopyOutRow) -> (r: Result<
    (),
    DecodeError,
>)
    requires
        row.wf(),
        old(columns)@.len() == row.width(),
        forall|i: int|
            0 <= i < old(columns)@.len() ==> (#[trigger] old(columns)@[i]).kind()
                == row.spec_types()[i],
    ensures
        final(columns)@.len() == old(columns)@.len(),
        forall|i: int|
            0 <= i < final(columns)@.len() ==> (#[trigger] final(columns)@[i]).kind() == old(
                columns,
            )@[i].kind(),
        match spec_decode_row(row.raw(), row.spec_types(), 0) {
            Ok(vs) => r is Ok && forall|i: int|
                0 <= i < final(columns)@.len() ==> (#[trigger] final(columns)@[i]).cells() == old(
                    columns,
                )@[i].cells().push(vs[i]),
            Err(e) => r matches Err(d) && d@ == e,
        },
{
    let n = columns.len();
    let mut i: usize = 0;
    let ghost cols0 = columns@;
    while i < n
        invariant
            row.wf(),
            n == columns@.len(),
            cols0.len() == n,
            n == row.width(),
            i <= n,
            forall|k: int| 0 <= k < n ==> (#[trigger] cols0[k]).kind() == row.spec_types()[k],
            forall|k: int| 0 <= k < n ==> (#[trigger] columns@[k]).kind() == cols0[k].kind(),
            forall|k: int| i <= k < n ==> (#[trigger] columns@[k]) == cols0[k],
            forall|k: int|
                0 <= k < i ==> (#[trigger] spec_decode_field(
                    row.spec_types()[k],
                    row.raw()[k],
                )) is Ok,
            forall|k: int|
                0 <= k < i ==> (#[trigger] columns@[k]).cells() == cols0[k].cells().push(
                    spec_decode_field(row.spec_types()[k], row.raw()[k])->Ok_0,
                ),
        decreases n - i,
    {
        let ghost cols_before = columns@;
        let mut a = columns.remove(i);
        proof {
            assert(a == cols0[i as int]);
        }
        match push_row_value(&mut a, row, i) {
            Ok(()) => {
                let ghost af = a;
                columns.insert(i, a);
                proof {
                    assert(spec_decode_field(row.spec_types()[i as int], row.raw()[i as int])
                        is Ok);
                    assert(columns@ =~= cols_before.update(i as int, af));
                    assert(columns@[i as int].cells() == cols0[i as int].cells().push(
                        spec_decode_field(row.spec_types()[i as int], row.raw()[i as int])->Ok_0,
                    ));
                    assert(forall|k: int|
                        0 <= k < n && k != i ==> #[trigger] columns@[k] == cols_before[k]);
                }
            },
            Err(e) => {
                columns.insert(i, a);
                proof {
                    assert(spec_decode_field(row.spec_types()[i as int], row.raw()[i as int])
                        is Err);
                    lemma_decode_row_err_at(row.raw(), row.spec_types(), i as int);
                    assert(columns@ =~= cols_before.update(i as int, columns@[i as int]));
                    assert(forall|k: int|
                        0 <= k < n && k != i ==> #[trigger] columns@[k] == cols_before[k]);
                }
                return Err(e);
            },
        }
        i = i + 1;
    }
    proof {
        lemma_decode_row_all_ok(row.raw(), row.spec_types(), 0);
    }
    Ok(())
}

/// If every field up to `col` decodes and field `col` fails, the row
/// decode fails with that field's error.
proof fn lemma_decode_row_err_at(fields: RawRow, types: Seq<PgType>, bad: int)
    requires
        0 <= bad < types.len(),
        forall|k: int|
            0 <= k < bad ==> (#[trigger] spec_decode_field(types[k], fields[k])) is Ok,
        spec_decode_field(types[bad], fields[bad]) is Err,
    ensures
        spec_decode_row(fields, types, 0) == Err::<Seq<Option<ValueV>>, ErrV>(
            field_err_at(spec_decode_field(types[bad], fields[bad])->Err_0, bad),
        ),
{
    lemma_decode_row_err_from(fields, types, 0, bad);
}

/// Helper for [`lemma_decode_row_err_at`], peeling columns from `col`.
proof fn lemma_decode_row_err_from(fields: RawRow, types: Seq<PgType>, col: int, bad: int)
    requires
        0 <= col <= bad < types.len(),
        forall|k: int|
            col <= k < bad ==> (#[trigger] spec_decode_field(types[k], fields[k])) is Ok,
        spec_decode_field(types[bad], fields[bad]) is Err,
    ensures
        spec_decode_row(fields, types, col) == Err::<Seq<Option<ValueV>>, ErrV>(
            field_err_at(spec_decode_field(types[bad], fields[bad])->Err_0, bad),
        ),
    decreases bad - col,
{
    if col < bad {
        lemma_decode_row_err_from(fields, types, col + 1, bad);
    }
}

/// If every field decodes, the row decode succeeds with exactly those
/// values.
proof fn lemma_decode_row_all_ok(fields: RawRow, types: Seq<PgType>, col: int)
    requires
        0 <= col <= types.len(),
        forall|k: int|
            col <= k < types.len() ==> (#[trigger] spec_decode_field(types[k], fields[k])) is Ok,
    ensures
        spec_decode_row(fields, types, col) matches Ok(vs) && vs.len() == types.len() - col
            && forall|k: int|
            col <= k < types.len() ==> vs[k - col] == spec_decode_field(
                types[k],
                fields[k],
            )->Ok_0,
    decreases types.len() - col,
{
    if col < types.len() {
        lemma_decode_row_all_ok(fields, types, col + 1);
    }
}

} // verus!

//! The orchestrator: resolves type names, drives the frame reader row by
//! row through the column builder, and returns the finished columns.

use vstd::prelude::*;

use crate::column::ColumnArray;
use crate::column::new_array;
use crate::column::push_row_values;
use crate::column::spec_decode_row;
use crate::format::RawRow;
use crate::format::stream_rows;
use crate::reader::BinaryCopyOutIter;
use crate::row::ValueV;
use crate::types::DecodeError;
use crate::types::ErrV;
use crate::types::PgType;
use crate::types::spec_type_of_name;
use crate::types::type_of_name;

verus! {

/// Resolves type names to tags from index `col` on; the first unknown
/// spelling aborts with its name.
pub open spec fn spec_resolve(names: Seq<Seq<char>>, col: int) -> Result<Seq<PgType>, ErrV>
    decreases names.len() - col,
{
    if col < 0 || col >= names.len() {
        Ok(Seq::empty())
    } else {
        match spec_type_of_name(names[col]) {
            None => Err(ErrV::UnknownTypeName { name: names[col] }),
            Some(t) => match spec_resolve(names, col + 1) {
                Err(e) => Err(e),
                Ok(rest) => Ok(seq![t] + rest),
            },
        }
    }
}

/// If every name from `col` on is known, resolution succeeds with the
/// mapped tags, in order.
proof fn lemma_resolve_all_ok(names: Seq<Seq<char>>, col: int)
    requires
        0 <= col <= names.len(),
        forall|k: int| col <= k < names.len() ==> (#[trigger] spec_type_of_name(names[k])) is Some,
    ensures
        spec_resolve(names, col) matches Ok(ts) && ts.len() == names.len() - col && forall|k: int|
            col <= k < names.len() ==> ts[k - col] == spec_type_of_name(names[k]).unwrap(),
    decreases names.len() - col,
{
    if col < names.len() {
        lemma_resolve_all_ok(names, col + 1);
    }
}

/// If every name before `bad` is known and `bad`'s is not, resolution
/// fails naming exactly that spelling.
proof fn lemma_resolve_err_at(names: Seq<Seq<char>>, col: int, bad: int)
    requires
        0 <= col <= bad < names.len(),
        forall|k: int| col <= k < bad ==> (#[trigger] spec_type_of_name(names[k])) is Some,
        spec_type_of_name(names[bad]) is None,
    ensures
        spec_resolve(names, col) == Err::<Seq<PgType>, ErrV>(
            ErrV::UnknownTypeName { name: names[bad] },
        ),
    decreases bad - col,
{
    if col < bad {
        lemma_resolve_err_at(names, col + 1, bad);
    }
}

/// Decodes each raw row from index `i` on; the first failing row aborts
/// with its error.
pub open spec fn spec_decode_rows(raws: Seq<RawRow>, types: Seq<PgType>, i: int) -> Result<
    Seq<Seq<Option<ValueV>>>,
    ErrV,
>
    decreases raws.len() - i,
{
    if i < 0 || i >= raws.len() {
        Ok(Seq::empty())
    } else {
        match spec_decode_row(raws[i], types, 0) {
            Err(e) => Err(e),
            Ok(v) => match spec_decode_rows(raws, types, i + 1) {
                Err(e) => Err(e),
                Ok(rest) => Ok(seq![v] + rest),
            },
        }
    }
}

/// Appending one raw row to a cleanly decoded prefix decodes the prefix
/// and then that row.
proof fn lemma_decode_rows_push(raws: Seq<RawRow>, raw: RawRow, types: Seq<PgType>, i: int)
    requires
        0 <= i <= raws.len(),
        spec_decode_rows(raws, types, i) is Ok,
    ensures
        spec_decode_rows(raws.push(raw), types, i) == (match spec_decode_row(raw, types, 0) {
            Ok(v) => Ok::<Seq<Seq<Option<ValueV>>>, ErrV>(
                spec_decode_rows(raws, types, i)->Ok_0.push(v),
            ),
            Err(e) => Err(e),
        }),
    decreases raws.len() - i,
{
    let raws2 = raws.push(raw);
    if i == raws.len() {
        assert(raws2[i] == raw);
        assert(spec_decode_rows(raws2, types, i + 1) == Ok::<Seq<Seq<Option<ValueV>>>, ErrV>(
            Seq::empty(),
        ));
        match spec_decode_row(raw, types, 0) {
            Ok(v) => {
                assert(seq![v] + Seq::<Seq<Option<ValueV>>>::empty() =~= Seq::<
                    Seq<Option<ValueV>>,
                >::empty().push(v));
            },
            Err(_) => {},
        }
    } else {
        lemma_decode_rows_push(raws, raw, types, i + 1);
        assert(raws2[i] == raws[i]);
        match spec_decode_row(raws[i], types, 0) {
            Ok(v) => {
                match spec_decode_rows(raws, types, i + 1) {
                    Ok(rest) => {
                        match spec_decode_row(raw, types, 0) {
                            Ok(w) => {
                                assert(seq![v] + rest.push(w) =~= (seq![v] + rest).push(w));
                            },
                            Err(_) => {},
                        }
                    },
                    Err(_) => {},
                }
            },
            Err(_) => {},
        }
    }
}

/// A cleanly decoded sequence has one decoded row per raw row.
proof fn lemma_decode_rows_len(raws: Seq<RawRow>, types: Seq<PgType>, i: int)
    requires
        0 <= i <= raws.len(),
    ensures
        spec_decode_rows(raws, types, i) matches Ok(rows) ==> rows.len() == raws.len() - i,
    decreases raws.len() - i,
{
    if i < raws.len() {
        lemma_decode_rows_len(raws, types, i + 1);
    }
}

/// Column `i` of a decoded row sequence.
pub open spec fn column_of(rows: Seq<Seq<Option<ValueV>>>, i: int) -> Seq<Option<ValueV>> {
    Seq::new(rows.len(), |r: int| rows[r][i])
}

/// All `n` columns of a decoded row sequence, in declared order.
pub open spec fn columns_of(rows: Seq<Seq<Option<ValueV>>>, n: nat) -> Seq<Seq<Option<ValueV>>> {
    Seq::new(n, |i: int| column_of(rows, i))
}

/// What decoding a whole buffer yields: the columns, one per declared
/// name, or the first error in resolution order, then stream order, then
/// column order within a row.
pub open spec fn spec_decode_buffer(bytes: Seq<u8>, names: Seq<Seq<char>>) -> Result<
    Seq<Seq<Option<ValueV>>>,
    ErrV,
> {
    match spec_resolve(names, 0) {
        Err(e) => Err(e),
        Ok(tags) => {
            let (raws, term) = stream_rows(bytes, tags.len());
            match spec_decode_rows(raws, tags, 0) {
                Err(e) => Err(e),
                Ok(rows) => match term {
                    Some(e) => Err(e),
                    None => Ok(columns_of(rows, names.len())),
                },
            }
        },
    }
}

/// Decoding is a function of the buffer and the declared names alone:
/// the same inputs always yield the same columns, bit for bit, or the
/// same error.
pub proof fn lemma_decode_deterministic(
    bytes: Seq<u8>,
    names: Seq<Seq<char>>,
    r1: Result<Seq<Seq<Option<ValueV>>>, ErrV>,
    r2: Result<Seq<Seq<Option<ValueV>>>, ErrV>,
)
    requires
        r1 == spec_decode_buffer(bytes, names),
        r2 == spec_decode_buffer(bytes, names),
    ensures
        r1 == r2,
{
}

/// After a successful decode every column has exactly the decoded row
/// count, whatever its type.
pub proof fn lemma_columns_uniform_length(bytes: Seq<u8>, names: Seq<Seq<char>>)
    ensures
        spec_decode_buffer(bytes, names) matches Ok(cols) ==> {
            &&& cols.len() == names.len()
            &&& forall|i: int, j: int|
                0 <= i < cols.len() && 0 <= j < cols.len() ==> (#[trigger] cols[i]).len() == (
                #[trigger] cols[j]).len()
        },
{
    match spec_resolve(names, 0) {
        Err(_) => {},
        Ok(tags) => {
            let (raws, _term) = stream_rows(bytes, tags.len());
            lemma_decode_rows_len(raws, tags, 0);
        },
    }
}

/// Decodes a buffer against an ordered list of type names: one finished
/// column per name, all of equal length, or the first error with no
/// partial result beside it.
#[verifier::loop_isolation(false)]
pub fn decode_buffer(buffer: &[u8], types: Vec<&str>) -> (r: Result<Vec<ColumnArray>, DecodeError>)
    ensures
        match r {
            Ok(cols) => {
                &&& spec_decode_buffer(buffer@, types.deep_view()) matches Ok(sc)
                &&& cols@.len() == sc.len()
                &&& cols@.len() == types@.len()
                &&& forall|i: int|
                    0 <= i < cols@.len() ==> (#[trigger] cols@[i]).cells() == sc[i]
                &&& forall|i: int|
                    0 <= i < cols@.len() ==> (#[trigger] cols@[i]).kind() == spec_type_of_name(
                        types.deep_view()[i],
                    ).unwrap()
            },
            Err(e) => spec_decode_buffer(buffer@, types.deep_view()) == Err::<
                Seq<Seq<Option<ValueV>>>,
                ErrV,
            >(e@),
        },
{
    let ghost names = types.deep_view();
    let n = types.len();
    let mut tags: Vec<PgType> = Vec::new();
    let mut i: usize = 0;
    while i < n
        invariant
            n == types@.len(),
            names == types.deep_view(),
            i <= n,
            tags@.len() == i,
            forall|k: int|
                0 <= k < i ==> (#[trigger] spec_type_of_name(names[k])) is Some,
            forall|k: int|
                0 <= k < i ==> (#[trigger] tags@[k]) == spec_type_of_name(names[k]).unwrap(),
        decreases n - i,
    {
        proof {
            assert(names[i as int] == types@[i as int]@);
        }
        match type_of_name(types[i]) {
            None => {
                proof {
                    lemma_resolve_err_at(names, 0, i as int);
                }
                return Err(DecodeError::UnknownTypeName { name: types[i].to_owned() });
            },
            Some(t) => {
                tags.push(t);
            },
        }
        i = i + 1;
    }
    proof {
        lemma_resolve_all_ok(names, 0);
        assert(spec_resolve(names, 0)->Ok_0 =~= tags@);
    }
    let ghost tags0 = tags@;

    let mut columns: Vec<ColumnArray> = Vec::new();
    let mut i: usize = 0;
    while i < tags.len()
        invariant
            tags@ == tags0,
            tags0.len() == n,
            i <= n,
            columns@.len() == i,
            forall|k: int| 0 <= k < i ==> (#[trigger] columns@[k]).kind() == tags0[k],
            forall|k: int|
                0 <= k < i ==> (#[trigger] columns@[k]).cells() == Seq::<Option<ValueV>>::empty(),
        decreases n - i,
    {
        columns.push(new_array(tags[i]));
        i = i + 1;
    }

    let buf_vec = vstd::slice::slice_to_vec(buffer);
    let mut rows = BinaryCopyOutIter::new(buf_vec, tags);
    let ghost all = stream_rows(buffer@, tags0.len());
    let ghost mut processed: Seq<RawRow> = Seq::empty();
    let ghost mut decoded: Seq<Seq<Option<ValueV>>> = Seq::empty();
    proof {
        assert(processed + rows.remaining().0 =~= rows.remaining().0);
        assert forall|k: int| 0 <= k < n implies (#[trigger] columns@[k]).cells() == column_of(
            decoded,
            k,
        ) by {
            assert(column_of(decoded, k) =~= Seq::<Option<ValueV>>::empty());
        }
    }
    loop
        invariant
            rows.wf(),
            rows.buf@ == buffer@,
            rows.types@ == tags0,
            tags0.len() == n,
            names == types.deep_view(),
            names.len() == n,
            spec_resolve(names, 0) == Ok::<Seq<PgType>, ErrV>(tags0),
            columns@.len() == n,
            forall|k: int| 0 <= k < n ==> (#[trigger] columns@[k]).kind() == tags0[k],
            spec_decode_rows(processed, tags0, 0) == Ok::<Seq<Seq<Option<ValueV>>>, ErrV>(decoded),
            decoded.len() == processed.len(),
            forall|k: int|
                0 <= k < n ==> (#[trigger] columns@[k]).cells() == column_of(decoded, k),
            all.0 == processed + rows.remaining().0,
            all.1 == rows.remaining().1,
            all == stream_rows(buffer@, tags0.len()),
        decreases rows.remaining().0.len(),
    {
        match rows.next() {
            None => {
                proof {
                    assert(all.0 =~= processed);
                    lemma_decode_rows_len(processed, tags0, 0);
                    assert forall|k: int| 0 <= k < n implies (#[trigger] columns@[k]).cells()
                        == columns_of(decoded, names.len())[k] by {
                        assert(columns@[k].cells() == column_of(decoded, k));
                    }
                }
                return Ok(columns);
            },
            Some(Err(e)) => {
                proof {
                    assert(all.0 =~= processed);
                }
                return Err(e);
            },
            Some(Ok(row)) => {
                let ghost raw = row.raw();
                match push_row_values(&mut columns, &row) {
                    Ok(()) => {
                        proof {
                            let p_old = processed;
                            let d_old = decoded;
                            let vs = spec_decode_row(raw, tags0, 0)->Ok_0;
                            lemma_decode_rows_push(p_old, raw, tags0, 0);
                            processed = p_old.push(raw);
                            decoded = d_old.push(vs);
                            assert forall|k: int| 0 <= k < n implies (#[trigger] columns@[k]).cells()
                                == column_of(decoded, k) by {
                                assert(column_of(decoded, k) =~= column_of(d_old, k).push(vs[k]));
                            }
                            assert(p_old + (seq![raw] + rows.remaining().0) =~= processed
                                + rows.remaining().0);
                        }
                    },
                    Err(e) => {
                        proof {
                            lemma_decode_rows_push(processed, raw, tags0, 0);
                            assert(spec_decode_rows(processed.push(raw), tags0, 0) == Err::<
                                Seq<Seq<Option<ValueV>>>,
                                ErrV,
                            >(e@));
                            assert forall|k: int| 0 <= k < processed.push(raw).len() implies
                                all.0[k] == processed.push(raw)[k] by {
                                assert(all.0 == processed + (seq![raw] + rows.remaining().0));
                            }
                            lemma_decode_rows_prefix_err(processed.push(raw), all.0, tags0);
                        }
                        return Err(e);
                    },
                }
            },
        }
    }
}

/// A decode error in a prefix of the raw rows is the error of the whole
/// sequence.
proof fn lemma_decode_rows_prefix_err(prefix: Seq<RawRow>, whole: Seq<RawRow>, types: Seq<PgType>)
    requires
        prefix.len() <= whole.len(),
        forall|k: int| 0 <= k < prefix.len() ==> whole[k] == prefix[k],
        spec_decode_rows(prefix, types, 0) is Err,
    ensures
        spec_decode_rows(whole, types, 0) == spec_decode_rows(prefix, types, 0),
{
    lemma_decode_rows_prefix_err_from(prefix, whole, types, 0);
}

/// Helper for [`lemma_decode_rows_prefix_err`], peeling rows from `i`.
proof fn lemma_decode_rows_prefix_err_from(
    prefix: Seq<RawRow>,
    whole: Seq<RawRow>,
    types: Seq<PgType>,
    i: int,
)
    requires
        0 <= i <= prefix.len() <= whole.len(),
        forall|k: int| 0 <= k < prefix.len() ==> whole[k] == prefix[k],
        spec_decode_rows(prefix, types, i) is Err,
    ensures
        spec_decode_rows(whole, types, i) == spec_decode_rows(prefix, types, i),
    decreases prefix.len() - i,
{
    if i < prefix.len() {
        match spec_decode_row(prefix[i], types, 0) {
            Err(_) => {},
            Ok(_) => {
                lemma_decode_rows_prefix_err_from(prefix, whole, types, i + 1);
            },
        }
    }
}

/// Decodes a single-column stream of 32-bit integers, requiring every
/// value to be present.
#[verifier::loop_isolation(false)]
pub fn decode_all_rows(buffer: &[u8]) -> (r: Result<Vec<i32>, DecodeError>)
    ensures
        match r {
            Ok(vals) => {
                &&& spec_decode_buffer(buffer@, seq!["integer"@]) matches Ok(sc)
                &&& sc.len() == 1
                &&& sc[0].len() == vals@.len()
                &&& forall|k: int|
                    0 <= k < vals@.len() ==> sc[0][k] == Some(ValueV::Int4(vals@[k] as int))
            },
            Err(e) => (spec_decode_buffer(buffer@, seq!["integer"@]) == Err::<
                Seq<Seq<Option<ValueV>>>,
                ErrV,
            >(e@)) || (spec_decode_buffer(buffer@, seq!["integer"@]) matches Ok(sc) && e@ == (
            ErrV::UnexpectedNull { column: 0 }) && exists|k: int|
                0 <= k < sc[0].len() && sc[0][k] is None),
        },
{
    let mut names: Vec<&str> = Vec::new();
    names.push("integer");
    proof {
        assert(names.deep_view() =~= seq!["integer"@]);
    }
    proof {
        reveal_strlit("integer");
        reveal_strlit("real");
        reveal_strlit("double precision");
        reveal_strlit("character varying");
        reveal_strlit("character");
        assert(("integer"@).len() == 7);
        assert(("character varying"@).len() == 17);
        assert("integer"@ != "character varying"@);
        assert("integer"@ != "character"@);
        assert("integer"@ != "double precision"@);
        assert(spec_type_of_name("integer"@) == Some(PgType::Int4));
    }
    match decode_buffer(buffer, names) {
        Err(e) => Err(e),
        Ok(cols) => {
            let ghost sc = spec_decode_buffer(buffer@, seq!["integer"@])->Ok_0;
            match &cols[0] {
                ColumnArray::Int4(v) => {
                    let mut vals: Vec<i32> = Vec::new();
                    let mut k: usize = 0;
                    while k < v.len()
                        invariant
                            k <= v@.len(),
                            vals@.len() == k,
                            sc[0] == cols@[0].cells(),
                            cols@[0] == ColumnArray::Int4(*v),
                            sc[0].len() == v@.len(),
                            forall|j: int|
                                0 <= j < k ==> sc[0][j] == Some(
                                    ValueV::Int4((#[trigger] vals@[j]) as int),
                                ),
                        decreases v@.len() - k,
                    {
                        match v[k] {
                            Some(x) => {
                                vals.push(x);
                            },
                            None => {
                                proof {
                                    assert(sc[0][k as int] is None);
                                    let ghost w = k as int;
                                    assert(0 <= w < sc[0].len() && sc[0][w] is None);
                                    assert(exists|j: int|
                                        0 <= j < sc[0].len() && sc[0][j] is None);
                                }
                                return Err(DecodeError::UnexpectedNull { column: 0 });
                            },
                        }
                        k = k + 1;
                    }
                    Ok(vals)
                },
                _ => vstd::pervasive::unreached(),
            }
        },
    }
}

} // verus!

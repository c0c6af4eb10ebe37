//! The closed set of supported column types, the canonical spelling of each,
//! and the structured error value that every decoding failure reports.

use vstd::prelude::*;

verus! {

/// Tag for one supported PostgreSQL column type.  The set is closed: a
/// spelling outside the canonical mapping is rejected up front with
/// [`DecodeError::UnknownTypeName`].
#[derive(Copy, Clone, Debug, PartialEq, Eq, Structural)]
pub enum PgType {
    /// 32-bit signed integer, spelled `integer`.
    Int4,
    /// IEEE-754 single-precision float, spelled `real`.
    Float4,
    /// IEEE-754 double-precision float, spelled `double precision`.
    Float8,
    /// UTF-8 text, spelled `character varying` or `character`.
    Varchar,
}

/// The canonical spelling-to-tag mapping.  Total on the five accepted
/// spellings, `None` for every other name.
pub open spec fn spec_type_of_name(name: Seq<char>) -> Option<PgType> {
    if name == "character varying"@ || name == "character"@ {
        Some(PgType::Varchar)
    } else if name == "double precision"@ {
        Some(PgType::Float8)
    } else if name == "integer"@ {
        Some(PgType::Int4)
    } else if name == "real"@ {
        Some(PgType::Float4)
    } else {
        None
    }
}

/// Resolves a type name to its tag, exactly as [`spec_type_of_name`] says.
pub fn type_of_name(name: &str) -> (r: Option<PgType>)
    ensures
        r == spec_type_of_name(name@),
{
    if crate::ext::str_equal(name, "character varying") || crate::ext::str_equal(name, "character")
    {
        Some(PgType::Varchar)
    } else if crate::ext::str_equal(name, "double precision") {
        Some(PgType::Float8)
    } else if crate::ext::str_equal(name, "integer") {
        Some(PgType::Int4)
    } else if crate::ext::str_equal(name, "real") {
        Some(PgType::Float4)
    } else {
        None
    }
}

/// The accepted spellings, in the order error details report them.
pub fn available_type_names() -> (r: Vec<String>)
    ensures
        r.deep_view() =~= seq![
            "integer"@,
            "real"@,
            "double precision"@,
            "character varying"@,
            "character"@,
        ],
{
    let mut v: Vec<String> = Vec::new();
    v.push("integer".to_owned());
    v.push("real".to_owned());
    v.push("double precision".to_owned());
    v.push("character varying".to_owned());
    v.push("character".to_owned());
    v
}

/// Mathematical image of a [`DecodeError`]: the same variants over `int`
/// and `Seq<char>`, so that contracts can speak of error values exactly.
pub enum ErrV {
    /// The stream does not begin with the 11-byte signature.
    InvalidMagic,
    /// The stream ended before the trailer sentinel or mid-field.
    UnexpectedEof,
    /// A row declared a different field count than the type list expects.
    FieldCountMismatch { expected: int, got: int },
    /// A fixed-width field carried a payload of the wrong length.
    FieldLengthMismatch { column: int, expected: int, got: int },
    /// A text field payload is not valid UTF-8.
    InvalidUtf8 { column: int },
    /// The caller passed a spelling outside the canonical mapping.
    UnknownTypeName { name: Seq<char> },
    /// A null field stood where a non-null scalar was required.
    UnexpectedNull { column: int },
    /// A field index beyond the row's width was requested.
    RowIndexOutOfRange { len: int, index: int },
    /// A recognized tag without a decoder; no decoding path produces it.
    UnsupportedType,
}

/// A single structured error: a kind tag plus the data that locates the
/// failure.  The first failure aborts the whole decode; no partial result
/// is returned beside it.
#[derive(Debug, Clone, PartialEq, Eq)]
pub enum DecodeError {
    /// The stream does not begin with the 11-byte signature.
    InvalidMagic,
    /// The stream ended before the trailer sentinel or mid-field.
    UnexpectedEof,
    /// A row declared a different field count than the type list expects.
    FieldCountMismatch { expected: usize, got: usize },
    /// A fixed-width field carried a payload of the wrong length.
    FieldLengthMismatch { column: usize, expected: usize, got: usize },
    /// A text field payload is not valid UTF-8.
    InvalidUtf8 { column: usize },
    /// The caller passed a spelling outside the canonical mapping.
    UnknownTypeName { name: String },
    /// A null field stood where a non-null scalar was required.
    UnexpectedNull { column: usize },
    /// A field index beyond the row's width was requested.
    RowIndexOutOfRange { len: usize, index: usize },
    /// A recognized tag without a decoder; no decoding path produces it.
    UnsupportedType,
}

impl View for DecodeError {
    type V = ErrV;

    open spec fn view(&self) -> ErrV {
        match self {
            DecodeError::InvalidMagic => ErrV::InvalidMagic,
            DecodeError::UnexpectedEof => ErrV::UnexpectedEof,
            DecodeError::FieldCountMismatch { expected, got } => ErrV::FieldCountMismatch {
                expected: *expected as int,
                got: *got as int,
            },
            DecodeError::FieldLengthMismatch { column, expected, got } => {
                ErrV::FieldLengthMismatch {
                    column: *column as int,
                    expected: *expected as int,
                    got: *got as int,
                }
            },
            DecodeError::InvalidUtf8 { column } => ErrV::InvalidUtf8 { column: *column as int },
            DecodeError::UnknownTypeName { name } => ErrV::UnknownTypeName { name: name@ },
            DecodeError::UnexpectedNull { column } => ErrV::UnexpectedNull {
                column: *column as int,
            },
            DecodeError::RowIndexOutOfRange { len, index } => ErrV::RowIndexOutOfRange {
                len: *len as int,
                index: *index as int,
            },
            DecodeError::UnsupportedType => ErrV::UnsupportedType,
        }
    }
}

/// The character of a single decimal digit.
pub open spec fn spec_digit(d: nat) -> char {
    if d == 0 {
        '0'
    } else if d == 1 {
        '1'
    } else if d == 2 {
        '2'
    } else if d == 3 {
        '3'
    } else if d == 4 {
        '4'
    } else if d == 5 {
        '5'
    } else if d == 6 {
        '6'
    } else if d == 7 {
        '7'
    } else if d == 8 {
        '8'
    } else {
        '9'
    }
}

/// The decimal digits of `n`, most significant first, with no leading
/// zero except for zero itself.
pub open spec fn spec_decimal(n: nat) -> Seq<char>
    decreases n,
{
    if n < 10 {
        seq![spec_digit(n)]
    } else {
        spec_decimal(n / 10).push(spec_digit(n % 10))
    }
}

/// The one-character string of a single decimal digit.
fn digit_str(d: usize) -> (s: &'static str)
    requires
        d < 10,
    ensures
        s@ == seq![spec_digit(d as nat)],
{
    if d == 0 {
        proof {
            reveal_strlit("0");
            assert("0"@ =~= seq!['0']);
        }
        "0"
    } else if d == 1 {
        proof {
            reveal_strlit("1");
            assert("1"@ =~= seq!['1']);
        }
        "1"
    } else if d == 2 {
        proof {
            reveal_strlit("2");
            assert("2"@ =~= seq!['2']);
        }
        "2"
    } else if d == 3 {
        proof {
            reveal_strlit("3");
            assert("3"@ =~= seq!['3']);
        }
        "3"
    } else if d == 4 {
        proof {
            reveal_strlit("4");
            assert("4"@ =~= seq!['4']);
        }
        "4"
    } else if d == 5 {
        proof {
            reveal_strlit("5");
            assert("5"@ =~= seq!['5']);
        }
        "5"
    } else if d == 6 {
        proof {
            reveal_strlit("6");
            assert("6"@ =~= seq!['6']);
        }
        "6"
    } else if d == 7 {
        proof {
            reveal_strlit("7");
            assert("7"@ =~= seq!['7']);
        }
        "7"
    } else if d == 8 {
        proof {
            reveal_strlit("8");
            assert("8"@ =~= seq!['8']);
        }
        "8"
    } else {
        proof {
            reveal_strlit("9");
            assert("9"@ =~= seq!['9']);
        }
        "9"
    }
}

/// Writes `n` in decimal.
pub fn usize_to_decimal(n: usize) -> (s: String)
    ensures
        s@ == spec_decimal(n as nat),
    decreases n,
{
    if n < 10 {
        digit_str(n).to_owned()
    } else {
        let mut s = usize_to_decimal(n / 10);
        s.append(digit_str(n % 10));
        proof {
            assert(s@ =~= spec_decimal((n / 10) as nat).push(spec_digit((n % 10) as nat)));
        }
        s
    }
}

/// The detail string of each error kind, over the error's mathematical
/// image.
pub open spec fn spec_message(e: ErrV) -> Seq<char> {
    match e {
        ErrV::InvalidMagic => "invalid magic value"@,
        ErrV::UnexpectedEof => "unexpected eof"@,
        ErrV::FieldCountMismatch { expected, got } => "expected "@ + spec_decimal(expected as nat)
            + " values but got "@ + spec_decimal(got as nat),
        ErrV::FieldLengthMismatch { column, expected, got } => "column "@ + spec_decimal(
            column as nat,
        ) + ": expected "@ + spec_decimal(expected as nat) + " payload bytes but got "@
            + spec_decimal(got as nat),
        ErrV::InvalidUtf8 { column } => "column "@ + spec_decimal(column as nat)
            + ": invalid utf-8"@,
        ErrV::UnknownTypeName { name } => "unknown type "@ + name
            + ", available types: integer, real, double precision, character varying, character"@,
        ErrV::UnexpectedNull { column } => "column "@ + spec_decimal(column as nat)
            + ": unexpected null"@,
        ErrV::RowIndexOutOfRange { len, index } => "row has only "@ + spec_decimal(len as nat)
            + " items, tried to get index "@ + spec_decimal(index as nat),
        ErrV::UnsupportedType => "unsupported type"@,
    }
}

impl DecodeError {
    /// The human-readable detail: the kind in words, with the offending
    /// column or name where one applies.
    pub fn message(&self) -> (s: String)
        ensures
            s@ == spec_message(self@),
    {
        match self {
            DecodeError::InvalidMagic => "invalid magic value".to_owned(),
            DecodeError::UnexpectedEof => "unexpected eof".to_owned(),
            DecodeError::FieldCountMismatch { expected, got } => {
                let mut s = "expected ".to_owned();
                s.append(usize_to_decimal(*expected).as_str());
                s.append(" values but got ");
                s.append(usize_to_decimal(*got).as_str());
                s
            },
            DecodeError::FieldLengthMismatch { column, expected, got } => {
                let mut s = "column ".to_owned();
                s.append(usize_to_decimal(*column).as_str());
                s.append(": expected ");
                s.append(usize_to_decimal(*expected).as_str());
                s.append(" payload bytes but got ");
                s.append(usize_to_decimal(*got).as_str());
                s
            },
            DecodeError::InvalidUtf8 { column } => {
                let mut s = "column ".to_owned();
                s.append(usize_to_decimal(*column).as_str());
                s.append(": invalid utf-8");
                s
            },
            DecodeError::UnknownTypeName { name } => {
                let mut s = "unknown type ".to_owned();
                s.append(name.as_str());
                s.append(
                    ", available types: integer, real, double precision, character varying, character",
                );
                s
            },
            DecodeError::UnexpectedNull { column } => {
                let mut s = "column ".to_owned();
                s.append(usize_to_decimal(*column).as_str());
                s.append(": unexpected null");
                s
            },
            DecodeError::RowIndexOutOfRange { len, index } => {
                let mut s = "row has only ".to_owned();
                s.append(usize_to_decimal(*len).as_str());
                s.append(" items, tried to get index ");
                s.append(usize_to_decimal(*index).as_str());
                s
            },
            DecodeError::UnsupportedType => "unsupported type".to_owned(),
        }
    }

    /// A fresh error carrying the same kind and data; a failed reader hands
    /// the same failure back on every further pull.
    pub fn duplicate(&self) -> (r: Self)
        ensures
            r@ == self@,
    {
        match self {
            DecodeError::InvalidMagic => DecodeError::InvalidMagic,
            DecodeError::UnexpectedEof => DecodeError::UnexpectedEof,
            DecodeError::FieldCountMismatch { expected, got } => {
                DecodeError::FieldCountMismatch { expected: *expected, got: *got }
            },
            DecodeError::FieldLengthMismatch { column, expected, got } => {
                DecodeError::FieldLengthMismatch {
                    column: *column,
                    expected: *expected,
                    got: *got,
                }
            },
            DecodeError::InvalidUtf8 { column } => DecodeError::InvalidUtf8 { column: *column },
            DecodeError::UnknownTypeName { name } => DecodeError::UnknownTypeName {
                name: name.clone(),
            },
            DecodeError::UnexpectedNull { column } => DecodeError::UnexpectedNull {
                column: *column,
            },
            DecodeError::RowIndexOutOfRange { len, index } => DecodeError::RowIndexOutOfRange {
                len: *len,
                index: *index,
            },
            DecodeError::UnsupportedType => DecodeError::UnsupportedType,
        }
    }
}

} // verus!

//! Decoder for the PostgreSQL binary `COPY ... TO STDOUT (FORMAT BINARY)`
//! stream: a framed, big-endian byte protocol carrying rows of typed,
//! nullable fields.  The decoder parses a complete in-memory buffer,
//! validates the framing, and materializes one typed column array per
//! declared field type.

mod column;
mod decode;
mod ext;
mod format;
mod reader;
mod row;
mod types;

pub use decode::column_of;
pub use decode::columns_of;
pub use decode::decode_all_rows;
pub use decode::decode_buffer;
pub use decode::lemma_columns_uniform_length;
pub use decode::lemma_decode_deterministic;
pub use decode::spec_decode_buffer;
pub use decode::spec_decode_rows;
pub use decode::spec_resolve;

pub use column::ColumnArray;
pub use column::new_array;
pub use column::push_row_value;
pub use column::push_row_values;
pub use column::spec_decode_row;

pub use reader::BinaryCopyOutIter;
pub use reader::ReaderState;

pub use row::BinaryCopyOutRow;
pub use row::FieldIndex;
pub use row::Fields;
pub use row::SqlValue;
pub use row::ValueV;
pub use row::lemma_null_preserved;
pub use row::opt_value_view;
pub use row::spec_decode_field;

pub use format::RawRow;
pub use format::encodable_row;
pub use format::encode_field;
pub use format::encode_fields;
pub use format::encode_row;
pub use format::encode_rows;
pub use format::encode_stream;
pub use format::lemma_stream_round_trip;
pub use format::be_i32_val;
pub use format::be_val;
pub use format::parse_fields;
pub use format::parse_header;
pub use format::parse_rows;
pub use format::spec_magic;
pub use format::stream_rows;

pub use types::DecodeError;
pub use types::ErrV;
pub use types::PgType;
pub use types::available_type_names;
pub use types::spec_decimal;
pub use types::spec_message;
pub use types::spec_type_of_name;
pub use types::type_of_name;
pub use types::usize_to_decimal;

//! Decoding, validation and encoding of ESP-IDF flash partition tables, in
//! their binary form (32-byte records with an MD5 checksum) and in their
//! comma-separated text form.

pub mod binary;
pub mod error;
pub mod laws;
pub mod partition;
pub mod strings;
pub mod table;
pub mod text;
pub mod validate;

pub use binary::{decode_binary, decode_partitions, encode_binary, encode_partitions, views};
pub use error::{Error, ErrorView};
pub use partition::{
    AppType, DataType, Flags, Partition, PartitionView, SubType, Type, FLAG_ENCRYPTED,
    FLAG_READONLY,
};
pub use table::PartitionTable;
pub use text::{
    decode_text, encode_partitions_text, fix_offset, parse_flags, parse_name, parse_offset,
    parse_offset_or_size, parse_size, parse_subtype, parse_type, partition_from_row,
    partitions_from_rows, suffixed_size,
};
pub use validate::validate_partitions;

use vstd::prelude::*;

verus! {

/// Relies on `csv::ErrorKind`: what went wrong in the csv reader or writer.
#[verifier::external_type_specification]
#[verifier::external_body]
pub struct ExCsvErrorKind(csv::ErrorKind);

/// Errors of decoding, encoding and validating a partition table.
#[derive(Debug)]
pub enum Error {
    /// Two or more partitions have this name.
    DuplicatePartitions(String),
    /// The checksum record holds another digest than that of the records
    /// before it.
    InvalidChecksum { expected: Vec<u8>, computed: Vec<u8> },
    /// The `data`/`ota` partition is not 0x2000 bytes long.
    InvalidOtadataPartitionSize,
    /// The length of the binary data is not a multiple of 32.
    LengthNotMultipleOf32,
    /// More than one partition is `app`/`factory`.
    MultipleFactoryPartitions,
    /// More than one partition is `data`/`ota`.
    MultipleOtadataPartitions,
    /// No partition is of type `app`.
    NoAppPartition,
    /// The binary data holds no end-marker record.
    NoEndMarker,
    /// The byte ranges of these two partitions intersect.
    OverlappingPartitions(String, String),
    /// This `app` partition is larger than 16 MiB.
    PartitionTooLarge(String),
    /// A partition's offset is not aligned as its type requires.
    UnalignedPartition,
    /// A binary record starts with neither a partition nor a checksum magic.
    InvalidMagic,
    /// The sub-type ID names no sub-type of the `app` or `data` type.
    UnknownSubtype { ty: u8, subtype: u8 },
    /// The type column holds neither a type name nor a byte value.
    InvalidType(String),
    /// The sub-type column holds neither a sub-type name nor a byte value.
    InvalidSubtype(String),
    /// The offset column does not hold a 32-bit value.
    InvalidOffset(String),
    /// The size column is empty or does not hold a 32-bit value.
    InvalidSize(String),
    /// The flags column holds a token other than `encrypted` and `readonly`.
    InvalidFlags(String),
    /// A row has fewer than five columns.
    MissingColumns,
    /// An offset assigned in the text format does not fit in 32 bits.
    OffsetOverflow,
    /// The table holds more partitions than a binary image has room for.
    TooManyPartitions,
    /// The input is neither a binary table nor UTF-8 text.
    InvalidUtf8,
    /// The csv reader or writer failed.
    CsvError(csv::ErrorKind),
}

/// What an [`Error`] holds, as mathematical values.
pub ghost enum ErrorView {
    DuplicatePartitions(Seq<char>),
    InvalidChecksum { expected: Seq<u8>, computed: Seq<u8> },
    InvalidOtadataPartitionSize,
    LengthNotMultipleOf32,
    MultipleFactoryPartitions,
    MultipleOtadataPartitions,
    NoAppPartition,
    NoEndMarker,
    OverlappingPartitions(Seq<char>, Seq<char>),
    PartitionTooLarge(Seq<char>),
    UnalignedPartition,
    InvalidMagic,
    UnknownSubtype { ty: u8, subtype: u8 },
    InvalidType(Seq<char>),
    InvalidSubtype(Seq<char>),
    InvalidOffset(Seq<char>),
    InvalidSize(Seq<char>),
    InvalidFlags(Seq<char>),
    MissingColumns,
    OffsetOverflow,
    TooManyPartitions,
    InvalidUtf8,
    CsvError,
}

impl View for Error {
    type V = ErrorView;

    open spec fn view(&self) -> ErrorView {
        match self {
            Error::DuplicatePartitions(n) => ErrorView::DuplicatePartitions(n@),
            Error::InvalidChecksum { expected, computed } => ErrorView::InvalidChecksum {
                expected: expected@,
                computed: computed@,
            },
            Error::InvalidOtadataPartitionSize => ErrorView::InvalidOtadataPartitionSize,
            Error::LengthNotMultipleOf32 => ErrorView::LengthNotMultipleOf32,
            Error::MultipleFactoryPartitions => ErrorView::MultipleFactoryPartitions,
            Error::MultipleOtadataPartitions => ErrorView::MultipleOtadataPartitions,
            Error::NoAppPartition => ErrorView::NoAppPartition,
            Error::NoEndMarker => ErrorView::NoEndMarker,
            Error::OverlappingPartitions(a, b) => ErrorView::OverlappingPartitions(a@, b@),
            Error::PartitionTooLarge(n) => ErrorView::PartitionTooLarge(n@),
            Error::UnalignedPartition => ErrorView::UnalignedPartition,
            Error::InvalidMagic => ErrorView::InvalidMagic,
            Error::UnknownSubtype { ty, subtype } => ErrorView::UnknownSubtype {
                ty: *ty,
                subtype: *subtype,
            },
            Error::InvalidType(s) => ErrorView::InvalidType(s@),
            Error::InvalidSubtype(s) => ErrorView::InvalidSubtype(s@),
            Error::InvalidOffset(s) => ErrorView::InvalidOffset(s@),
            Error::InvalidSize(s) => ErrorView::InvalidSize(s@),
            Error::InvalidFlags(s) => ErrorView::InvalidFlags(s@),
            Error::MissingColumns => ErrorView::MissingColumns,
            Error::OffsetOverflow => ErrorView::OffsetOverflow,
            Error::TooManyPartitions => ErrorView::TooManyPartitions,
            Error::InvalidUtf8 => ErrorView::InvalidUtf8,
            Error::CsvError(_) => ErrorView::CsvError,
        }
    }
}

/// The view of a result: its value or its error, as mathematical values.
pub open spec fn result_view<T: View>(r: Result<T, Error>) -> Result<T::V, ErrorView> {
    match r {
        Ok(v) => Ok(v@),
        Err(e) => Err(e@),
    }
}

} // verus!

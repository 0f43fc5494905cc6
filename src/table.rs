use vstd::prelude::*;
use vstd::utf8::*;

use crate::binary::{decode_binary, decode_partitions, encode_binary, encode_partitions, views};
use crate::error::{Error, ErrorView};
use crate::partition::{Partition, PartitionView, SubType, Type};
use crate::strings::utf8_decode;
use crate::text::{
    csv_records_of, decode_rows, decode_text, encode_partitions_text, encode_text, COMMENT,
};
use crate::validate::{first_from, validate_partitions, validate_table};

verus! {

/// A partition table: an ordered sequence of partitions.
#[derive(Debug, Clone)]
pub struct PartitionTable {
    partitions: Vec<Partition>,
}

impl View for PartitionTable {
    type V = Seq<PartitionView>;

    closed spec fn view(&self) -> Seq<PartitionView> {
        views(self.partitions@)
    }
}

/// Decoded partitions that also pass validation.
pub open spec fn validated(
    decoded: Result<Seq<PartitionView>, ErrorView>,
) -> Result<Seq<PartitionView>, ErrorView> {
    match decoded {
        Ok(s) => match validate_table(s) {
            Ok(()) => Ok(s),
            Err(e) => Err(e),
        },
        Err(e) => Err(e),
    }
}

/// The table that binary data holds, or why it holds none.
pub open spec fn table_from_binary(data: Seq<u8>) -> Result<Seq<PartitionView>, ErrorView> {
    validated(decode_binary(data))
}

/// The table that rows of the text format hold, or why they hold none.
pub open spec fn table_from_rows(rows: Seq<Seq<Seq<char>>>) -> Result<
    Seq<PartitionView>,
    ErrorView,
> {
    validated(decode_rows(rows))
}

/// The data starts with the magic of a binary partition record.
pub open spec fn starts_with_record_magic(data: Seq<u8>) -> bool {
    data.len() >= 2 && data[0] == 0xAA && data[1] == 0x50
}

/// The partition has the given name.
pub open spec fn has_name(name: Seq<char>) -> spec_fn(PartitionView) -> bool {
    |p: PartitionView| p.name == name
}

/// The partition has the given type.
pub open spec fn has_type(ty: Type) -> spec_fn(PartitionView) -> bool {
    |p: PartitionView| p.ty == ty
}

/// The partition has the given type and sub-type.
pub open spec fn has_subtype(ty: Type, st: SubType) -> spec_fn(PartitionView) -> bool {
    |p: PartitionView| p.ty == ty && p.subtype == st
}

/// `r` is the first partition of `s` that satisfies `pred`, or `None` where
/// none does.
pub open spec fn is_first_match(
    s: Seq<PartitionView>,
    pred: spec_fn(PartitionView) -> bool,
    r: Option<&Partition>,
) -> bool {
    match r {
        Some(p) => first_from(s, pred, 0) matches Some(i) && p@ == s[i],
        None => first_from(s, pred, 0) is None,
    }
}

impl PartitionTable {
    /// Constructs a table from partitions, in order; it is not validated.
    pub fn new(partitions: Vec<Partition>) -> (r: PartitionTable)
        ensures
            r@ == views(partitions@),
    {
        PartitionTable { partitions }
    }

    /// Parses a binary or a text table: binary where the data starts with the
    /// record magic `0xAA 0x50`, else text, which must be UTF-8.
    pub fn try_from(data: Vec<u8>) -> (r: Result<PartitionTable, Error>)
        ensures
            starts_with_record_magic(data@) ==> match r {
                Ok(t) => table_from_binary(data@) == Ok::<Seq<PartitionView>, ErrorView>(t@),
                Err(e) => table_from_binary(data@) == Err::<Seq<PartitionView>, ErrorView>(e@),
            },
            !starts_with_record_magic(data@) && !valid_utf8(data@) ==> (r matches Err(e) && e@
                == ErrorView::InvalidUtf8),
            !starts_with_record_magic(data@) && valid_utf8(data@) ==> match r {
                Ok(t) => table_from_rows(csv_records_of(COMMENT, decode_utf8(data@))) == Ok::<
                    Seq<PartitionView>,
                    ErrorView,
                >(t@),
                Err(e) => table_from_rows(csv_records_of(COMMENT, decode_utf8(data@))) == Err::<
                    Seq<PartitionView>,
                    ErrorView,
                >(e@),
            },
    {
        if data.len() >= 2 && data[0] == 0xAA && data[1] == 0x50 {
            PartitionTable::try_from_bytes(data.as_slice())
        } else {
            match utf8_decode(data) {
                Some(text) => PartitionTable::try_from_str(text.as_str()),
                None => Err(Error::InvalidUtf8),
            }
        }
    }

    /// Parses a binary table and validates it.
    pub fn try_from_bytes(data: &[u8]) -> (r: Result<PartitionTable, Error>)
        ensures
            match r {
                Ok(t) => table_from_binary(data@) == Ok::<Seq<PartitionView>, ErrorView>(t@),
                Err(e) => table_from_binary(data@) == Err::<Seq<PartitionView>, ErrorView>(e@),
            },
    {
        let partitions = decode_partitions(data)?;
        validate_partitions(partitions.as_slice())?;
        Ok(PartitionTable { partitions })
    }

    /// Parses a table in the text format and validates it.
    pub fn try_from_str(text: &str) -> (r: Result<PartitionTable, Error>)
        ensures
            match r {
                Ok(t) => table_from_rows(csv_records_of(COMMENT, text@)) == Ok::<
                    Seq<PartitionView>,
                    ErrorView,
                >(t@),
                Err(e) => table_from_rows(csv_records_of(COMMENT, text@)) == Err::<
                    Seq<PartitionView>,
                    ErrorView,
                >(e@),
            },
    {
        let partitions = decode_text(text)?;
        validate_partitions(partitions.as_slice())?;
        Ok(PartitionTable { partitions })
    }

    /// The partitions of the table, in order.
    pub fn partitions(&self) -> (r: &Vec<Partition>)
        ensures
            views(r@) == self@,
    {
        &self.partitions
    }

    /// The first partition with the given name.
    pub fn find(&self, name: &str) -> (r: Option<&Partition>)
        ensures
            is_first_match(self@, has_name(name@), r),
    {
        let ghost s = self@;
        let mut i: usize = 0;
        while i < self.partitions.len()
            invariant
                s == views(self.partitions@),
                0 <= i <= self.partitions@.len(),
                first_from(s, has_name(name@), 0) == first_from(s, has_name(name@), i as int),
            decreases self.partitions@.len() - i,
        {
            if crate::strings::str_eq(self.partitions[i].name.as_str(), name) {
                return Some(&self.partitions[i]);
            }
            i = i + 1;
        }
        None
    }

    /// The first partition of the given type.
    pub fn find_by_type(&self, ty: Type) -> (r: Option<&Partition>)
        ensures
            is_first_match(self@, has_type(ty), r),
    {
        let ghost s = self@;
        let mut i: usize = 0;
        while i < self.partitions.len()
            invariant
                s == views(self.partitions@),
                0 <= i <= self.partitions@.len(),
                first_from(s, has_type(ty), 0) == first_from(s, has_type(ty), i as int),
            decreases self.partitions@.len() - i,
        {
            if self.partitions[i].ty == ty {
                return Some(&self.partitions[i]);
            }
            i = i + 1;
        }
        None
    }

    /// The first partition of the given type and sub-type.
    pub fn find_by_subtype(&self, ty: Type, subtype: SubType) -> (r: Option<&Partition>)
        ensures
            is_first_match(self@, has_subtype(ty, subtype), r),
    {
        let ghost s = self@;
        let mut i: usize = 0;
        while i < self.partitions.len()
            invariant
                s == views(self.partitions@),
                0 <= i <= self.partitions@.len(),
                first_from(s, has_subtype(ty, subtype), 0) == first_from(
                    s,
                    has_subtype(ty, subtype),
                    i as int,
                ),
            decreases self.partitions@.len() - i,
        {
            if self.partitions[i].ty == ty && self.partitions[i].subtype == subtype {
                return Some(&self.partitions[i]);
            }
            i = i + 1;
        }
        None
    }

    /// The binary image of the table (0xC00 bytes); fails where the records
    /// and the checksum record do not fit, that is for more than 95
    /// partitions.
    pub fn to_bin(&self) -> (r: Result<Vec<u8>, Error>)
        ensures
            32 * self@.len() + 32 > 0xC00 ==> (r matches Err(e) && e@
                == ErrorView::TooManyPartitions),
            32 * self@.len() + 32 <= 0xC00 ==> (r matches Ok(b) && b@ == encode_binary(self@)
                && b@.len() == 0xC00),
    {
        encode_partitions(self.partitions.as_slice())
    }

    /// The table in the text format; it is always produced.
    pub fn to_csv(&self) -> (r: Result<String, Error>)
        ensures
            r matches Ok(s) && s@ == encode_text(self@),
    {
        encode_partitions_text(self.partitions.as_slice())
    }

    /// Checks the rules of a partition table and reports the first that is
    /// broken (see `validate_table`).
    pub fn validate(&self) -> (r: Result<(), Error>)
        ensures
            match r {
                Ok(()) => validate_table(self@) == Ok::<(), ErrorView>(()),
                Err(e) => validate_table(self@) == Err::<(), ErrorView>(e@),
            },
    {
        validate_partitions(self.partitions.as_slice())
    }

    /// Whether two tables hold the same partitions in the same order.
    pub fn same_as(&self, other: &PartitionTable) -> (r: bool)
        ensures
            r == (self@ == other@),
    {
        let n = self.partitions.len();
        if n != other.partitions.len() {
            assert(self@.len() != other@.len());
            return false;
        }
        let mut i: usize = 0;
        while i < n
            invariant
                n == self.partitions@.len(),
                n == other.partitions@.len(),
                0 <= i <= n,
                forall|k: int| 0 <= k < i ==> self@[k] == other@[k],
            decreases n - i,
        {
            if !self.partitions[i].same_as(&other.partitions[i]) {
                assert(self@[i as int] != other@[i as int]);
                return false;
            }
            i = i + 1;
        }
        assert(self@ =~= other@);
        true
    }
}

impl PartialEq for PartitionTable {
    fn eq(&self, other: &PartitionTable) -> (r: bool) {
        self.same_as(other)
    }
}

impl vstd::std_specs::cmp::PartialEqSpecImpl for PartitionTable {
    open spec fn obeys_eq_spec() -> bool {
        true
    }

    open spec fn eq_spec(&self, other: &PartitionTable) -> bool {
        self@ == other@
    }
}

impl Eq for PartitionTable {

}

} // verus!
